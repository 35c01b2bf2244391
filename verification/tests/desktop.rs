use nine_rai::appconfig::AppConfig;
use nine_rai::config::KIRO_MODEL_SLOTS;
use nine_rai::daemon::{
    daemon_gate, install_note, resolver_next, trust_begin, trust_notes, trust_probed, DaemonRun,
    DaemonStep, Ran, ResolverStep, TrustStep,
};
use nine_rai::desktop::commands::{
    ca_view, redacted, set_default_model, set_model_mappings, set_provider_config,
    untrusted_message, view, ModelEntry,
};
use nine_rai::desktop::daemon::{
    as_quote, batch_failure, cli_places, elevated_ops_argv, elevation_argv, judge_probe,
    locate_cli, log_path, session_path, shq, token, ChannelReply, StatusReply,
};
use nine_rai::desktop::journal::{
    log_start, log_tail, notes, shown_lines, stamp, stamp_at, start_banner, tail_of, CivilTime,
    HostsFile,
};
use nine_rai::desktop::supervisor::{
    already_running, launch_failure, start_gate, Answer, DaemonStatus, Doubt, LauncherCheck,
    Session, Step, Supervisor,
};
use nine_rai::hosts::apply;
use nine_rai::platform::Platform;
use nine_rai::privilege::PrivOp;

#[test]
fn shell_quoting_survives_spaces_and_quotes() {
    assert_eq!(shq("/Users/a b/9rai"), "'/Users/a b/9rai'");
    assert_eq!(shq("it's"), r"'it'\''s'");
}

#[test]
fn applescript_escaping_covers_backslash_and_quote() {
    assert_eq!(as_quote(r#"a"b\c"#), r#"a\"b\\c"#);
}

#[test]
fn macos_elevated_ops_is_one_elevated_foreground_batch() {
    let (program, args) = elevated_ops_argv(
        Platform::MacOs,
        "/Applications/9rai.app/Contents/MacOS/9rai",
        "OXJhaQ==",
        "/Users/a b/Library/Application Support/9rai/logs/daemon.log",
    );
    assert_eq!(program, "osascript");
    assert_eq!(args.len(), 2);
    assert_eq!(args[0], "-e");
    let script = &args[1];
    assert!(
        script.contains("elevated --ops OXJhaQ=="),
        "script: {script}"
    );
    assert!(script.ends_with("with administrator privileges"));
    assert!(script.contains("'/Users/a b/Library/Application Support/9rai/logs/daemon.log'"));
    // A one-shot batch runs in the foreground — no `&` backgrounding.
    assert!(!script.ends_with("&\" with administrator privileges"));
}

#[test]
fn macos_launch_is_one_elevated_osascript() {
    let (program, args) = elevation_argv(
        Platform::MacOs,
        "/Applications/9rai.app/Contents/MacOS/9rai",
        41234,
        "abc123",
        "/Users/a b/Library/Application Support/9rai/logs/daemon.log",
    );
    assert_eq!(program, "osascript");
    assert_eq!(args.len(), 2);
    assert_eq!(args[0], "-e");
    let script = &args[1];
    assert!(script.starts_with("do shell script \""));
    assert!(script.ends_with("with administrator privileges"));
    assert!(script.contains("--control-port 41234"));
    assert!(script.contains("--token abc123"));
    // Paths with spaces must stay single-quoted for the shell that osascript spawns.
    assert!(script.contains("'/Users/a b/Library/Application Support/9rai/logs/daemon.log'"));
}

#[test]
fn elevation_on_the_other_platforms() {
    let (program, args) = elevation_argv(Platform::Linux, "/c", 1, "t", "/l");
    assert_eq!(program, "pkexec");
    assert_eq!(
        args,
        ["/bin/sh", "-c", "'/c' daemon --control-port 1 --token t >> '/l' 2>&1 &"]
    );
    let (program, args) = elevation_argv(Platform::Windows, "C:\\it's", 1, "t", "C:\\l");
    assert_eq!(program, "powershell");
    assert_eq!(
        args[2],
        "Start-Process -FilePath 'cmd.exe' -ArgumentList '/C','\"C:\\it''s\" daemon \
--control-port 1 --token t >> \"C:\\l\" 2>&1' -Verb RunAs -WindowStyle Hidden"
    );
    let (_, args) = elevated_ops_argv(Platform::Windows, "c", "b64", "l");
    assert_eq!(
        args[2],
        "Start-Process -FilePath 'cmd.exe' -ArgumentList '/C','\"c\" elevated --ops b64 >> \
\"l\" 2>&1' -Verb RunAs -Wait -WindowStyle Hidden"
    );
    let (_, args) = elevated_ops_argv(Platform::Linux, "/c", "b64", "/l");
    assert_eq!(args[2], "'/c' elevated --ops b64 >> '/l' 2>&1");
}

fn app(key: &str, models: &[(&str, &str)]) -> AppConfig {
    let mut config = AppConfig::default();
    config.provider.api_key = key.to_string();
    for (k, v) in models {
        config.mappings.insert(k.to_string(), v.to_string());
    }
    config
}

#[test]
fn a_start_attempt_is_described_before_anything_launches() {
    let config = app("k", &[("auto", "gpt-4o")]);
    let fingerprint = "AABBCC";
    let text = start_banner(
        "/tmp/9rai",
        Some(1_700_000_000),
        "osascript",
        54321,
        fingerprint,
        false,
        &HostsFile::Unreadable("denied".into()),
        &config,
    )
    .join("\n");
    assert!(text.contains("start attempt"), "{text}");
    assert!(text.contains("/tmp/9rai"), "{text}");
    assert!(text.contains("osascript"), "{text}");
    assert!(text.contains("127.0.0.1:54321"), "{text}");
    assert!(text.contains(fingerprint), "{text}");
    assert!(text.contains("hosts"), "{text}");
    assert_eq!(
        text,
        "──── start attempt ────\n  cli       /tmp/9rai (built 2023-11-14 22:13:20Z)\n  \
elevate   osascript\n  control   127.0.0.1:54321\n  root CA   AABBCC (not trusted — installing it \
before launch)\n  hosts     unreadable (denied)\n  provider  https://api.openai.com/v1 (1 \
mapping(s), fallback none)"
    );

    // Notes are stamped and appended, so a second attempt never overwrites the first.
    let at = stamp_at(Some(0));
    let mut written = notes(&at, &["start failed: the launcher exited 1".into()]);
    written.push_str(&notes(&at, &["start failed: nothing answered".into()]));
    assert_eq!(written.lines().count(), 2, "{written}");
    for line in written.lines() {
        assert!(line.starts_with('['), "every line carries a stamp: {line}");
        assert!(line.contains("Z] start failed: "), "{line}");
    }
}

#[test]
fn the_banner_tells_the_state_of_the_hosts_file() {
    let config = app("k", &[]);
    let line = |hosts: HostsFile| {
        start_banner("c", None, "p", 1, "F", true, &hosts, &config)[5].clone()
    };
    let hosts = nine_rai::config::Tool::Kiro.hosts();
    assert_eq!(line(HostsFile::Read("a\n".into())), "  hosts     clean");
    assert_eq!(
        line(HostsFile::Read(apply("a\n", &hosts))),
        "  hosts     already redirected"
    );
    let banner = start_banner("c", None, "p", 1, "F", true, &HostsFile::Read("".into()), &config);
    assert_eq!(banner[1], "  cli       c (built ?)");
    assert_eq!(banner[4], "  root CA   F (already trusted)");
}

#[test]
fn log_tail_reads_the_end_of_the_file() {
    let body: String = (0..50).map(|i| format!("line {i}\n")).collect();
    let tail = log_tail(body.as_bytes(), false, 5);
    assert_eq!(
        tail,
        vec!["line 45", "line 46", "line 47", "line 48", "line 49"]
    );
    assert!(log_tail(b"", false, 5).is_empty());
}

#[test]
fn a_log_that_was_cut_loses_its_first_fragment() {
    assert_eq!(tail_of("frag\na\r\nb", true, 9), ["a", "b"]);
    assert_eq!(tail_of("a\n\nb\n", false, 9), ["a", "", "b"]);
    assert!(tail_of("", true, 9).is_empty());
    assert!(tail_of("a", false, 0).is_empty());
    assert_eq!(log_tail(b"\xff", false, 1), ["\u{fffd}"]);
    assert_eq!(log_start(65_536), 0);
    assert_eq!(log_start(65_537), 1);
    assert_eq!(shown_lines(None), 200);
    assert_eq!(shown_lines(Some(7)), 7);
    assert_eq!(shown_lines(Some(9_999)), 2_000);
}

#[test]
fn stamps_are_padded() {
    let mut t = CivilTime { year: 7, month: 1, day: 2, hour: 3, minute: 4, second: 5 };
    assert_eq!(stamp(&t), "0007-01-02 03:04:05Z");
    t.year = -7;
    assert_eq!(stamp(&t), "-007-01-02 03:04:05Z");
    t.year = 12345;
    assert_eq!(stamp(&t), "12345-01-02 03:04:05Z");
    assert_eq!(stamp_at(Some(-1)), "1969-12-31 23:59:59Z");
    assert_eq!(stamp_at(Some(253_402_300_799)), "9999-12-31 23:59:59Z");
    assert_eq!(stamp_at(Some(253_402_300_800)), "?");
    assert_eq!(stamp_at(Some(-377_705_116_800)), "-9999-01-01 00:00:00Z");
    assert_eq!(stamp_at(Some(951_782_400)), "2000-02-29 00:00:00Z");
    assert_eq!(stamp_at(Some(4_107_542_399)), "2100-02-28 23:59:59Z");
    assert_eq!(stamp_at(Some(4_107_542_400)), "2100-03-01 00:00:00Z");
    assert_eq!(stamp_at(Some(-62_167_219_200)), "0000-01-01 00:00:00Z");
    assert_eq!(stamp_at(Some(-377_705_116_801)), "?");
    assert_eq!(stamp_at(Some(i64::MAX)), "?");
    assert_eq!(stamp_at(None), "?");
}

#[test]
fn tokens_are_hexadecimal_words() {
    assert_eq!(token(&[]), "");
    assert_eq!(token(&[0xdead_beef, u64::MAX]), "00000000deadbeefffffffffffffffff");
}

#[test]
fn the_cli_is_looked_for_in_order() {
    let dirs = ["/app".to_string(), "/bin/".to_string()];
    let places = cli_places(Platform::Linux, &dirs);
    assert_eq!(places, ["/app/9rai", "/bin/9rai"]);
    assert_eq!(
        cli_places(Platform::Windows, &["d".to_string()]),
        ["d\\9rai.exe", "d\\9rai"]
    );
    assert_eq!(locate_cli(None, &places, &[false, true]).unwrap(), "/bin/9rai");
    assert_eq!(locate_cli(None, &places, &[true, true]).unwrap(), "/app/9rai");
    assert_eq!(locate_cli(Some(("/x", true)), &places, &[true, true]).unwrap(), "/x");
    assert_eq!(
        locate_cli(Some(("/x", false)), &places, &[true, true]).unwrap_err().message(),
        "privilege escalation failed: NINE_RAI_CLI points at /x which is not a file"
    );
    assert!(locate_cli(None, &places, &[false, false])
        .unwrap_err()
        .message()
        .contains("cannot find the `9rai` CLI"));
    assert_eq!(session_path(Platform::Linux, "/d"), "/d/daemon-session.json");
    assert_eq!(log_path(Platform::Linux, "/d"), "/d/logs/daemon.log");
}

#[test]
fn the_answer_of_the_channel_is_judged() {
    let body = |status: u16, body: Result<StatusReply, String>| {
        judge_probe(9, &ChannelReply::Answered { status, body })
    };
    let up = StatusReply { ok: true, pid: 5 };
    assert!(judge_probe(9, &ChannelReply::Refused).unwrap().is_none());
    assert_eq!(body(200, Ok(up)).unwrap().unwrap().pid, 5);
    assert_eq!(
        body(401, Ok(up)).unwrap_err().message(),
        "privilege escalation failed: port 9 is held by a process that rejects our token — is \
another 9rai daemon running?"
    );
    assert_eq!(
        body(200, Err("eof".into())).unwrap_err().message(),
        "privilege escalation failed: control channel reply: eof"
    );
    assert_eq!(
        judge_probe(9, &ChannelReply::Failed("slow".into())).unwrap_err().message(),
        "privilege escalation failed: control channel: slow"
    );
    assert_eq!(
        batch_failure("exit 1", "").message(),
        "privilege escalation failed: privileged setup exited with exit 1"
    );
    assert_eq!(
        batch_failure("exit 1", "tail").message(),
        "privilege escalation failed: privileged setup exited with exit 1:\ntail"
    );
}

fn supervisor() -> Supervisor {
    let mut s = Supervisor::load(None);
    s.launched(Session { control_port: 9, token: "t0ken".into() }, 1_000);
    s
}

#[test]
fn a_refused_authorization_surfaces_as_failed() {
    let mut s = supervisor();
    let step = s.status(&LauncherCheck::Exited { success: false, exit: "exit status: 1".into() });
    let Step::Explain { note, doubt } = step else {
        panic!("expected a question to the log");
    };
    assert!(note.contains("exit status: 1"), "{note}");
    let done = s.explained(&doubt, "last words");
    assert_eq!(done.status.state, "failed");
    let detail = done.status.detail.expect("a failure must explain itself");
    assert!(detail.contains("authorization"), "detail was: {detail}");
    assert!(detail.ends_with(":\nlast words"));
    assert!(done.forget);
    assert!(s.session().is_none(), "the dead pairing must be dropped");
    // The failure is kept until the next start.
    match s.status(&LauncherCheck::Running) {
        Step::Settled { status, .. } => assert_eq!(status.detail, Some(detail)),
        _ => panic!("expected a status"),
    }
}

#[test]
fn a_daemon_comes_up() {
    let mut s = supervisor();
    match s.status(&LauncherCheck::Exited { success: true, exit: "exit status: 0".into() }) {
        Step::Probe { port, token } => assert_eq!((port, token.as_str()), (9, "t0ken")),
        _ => panic!("expected a probe"),
    }
    match s.probed(9, &Answer::Silence, 31_000) {
        Step::Settled { status, remark } => {
            assert_eq!(status.state, "starting");
            assert_eq!(status.control_port, Some(9));
            assert!(remark.is_none());
            assert!(!already_running(&status));
        }
        _ => panic!("expected a status"),
    }
    match s.probed(9, &Answer::Pid(77), 31_001) {
        Step::Settled { status, remark } => {
            assert!(already_running(&status));
            assert_eq!((status.pid, status.control_port), (Some(77), Some(9)));
            assert_eq!(remark.as_deref(), Some("daemon ready: pid 77 answering on 127.0.0.1:9"));
        }
        _ => panic!("expected a status"),
    }
    match s.probed(9, &Answer::Pid(77), 31_002) {
        Step::Settled { remark, .. } => assert!(remark.is_none()),
        _ => panic!("expected a status"),
    }
    // Once it was up, silence is no failed start.
    assert!(matches!(s.probed(9, &Answer::Silence, 99_999), Step::Settled { .. }));
    // A launcher that fails later is no failed start either.
    let step = s.status(&LauncherCheck::Exited { success: false, exit: "x".into() });
    assert!(matches!(step, Step::Probe { .. }));
}

#[test]
fn a_daemon_that_never_answers_fails() {
    let mut s = supervisor();
    let step = s.probed(9, &Answer::Silence, 31_001);
    let Step::Explain { note, doubt } = step else {
        panic!("expected a question to the log");
    };
    assert!(note.starts_with("start failed: nothing answered 127.0.0.1:9 within 30s"), "{note}");
    let done = s.explained(&doubt, "");
    assert_eq!(
        done.status.detail.as_deref(),
        Some("the daemon never answered its control channel")
    );
    assert!(done.forget);
    match s.status(&LauncherCheck::Unknown) {
        Step::Settled { status, .. } => assert_eq!(status.state, "stopped"),
        _ => panic!("expected a status"),
    }
}

#[test]
fn a_stranger_on_the_port_is_a_failure_that_keeps_the_pairing() {
    let mut s = supervisor();
    let step = s.probed(9, &Answer::Failure("held".into()), 2_000);
    let Step::Explain { note, doubt } = step else {
        panic!("expected a question to the log");
    };
    assert_eq!(note, "start failed: held");
    assert!(matches!(doubt, Doubt::Broken { .. }));
    let done = s.explained(&doubt, "tail");
    assert_eq!(done.status.control_port, Some(9));
    assert_eq!(done.status.detail.as_deref(), Some("held\ntail"));
    assert!(!done.forget);
    assert!(s.session().is_some());
    assert_eq!(DaemonStatus::no_client(9).state, "failed");
}

#[test]
fn nothing_starts_without_a_key_and_a_mapping() {
    for (config, desktop, cli) in [
        (
            app("", &[("a", "b")]),
            "no provider configured — set the provider endpoint and API key first",
            "no provider configured — run `9rai config set-provider` first",
        ),
        (
            app("k", &[]),
            "no model mappings — map at least one Kiro model (or set a fallback)",
            "no model mappings — run `9rai config map` first",
        ),
    ] {
        assert!(start_gate(&config).unwrap_err().message().ends_with(desktop));
        assert_eq!(daemon_gate(&config).unwrap_err(), cli);
    }
    let ready = app("k", &[("a", "b")]);
    assert!(start_gate(&ready).is_ok());
    assert!(daemon_gate(&ready).is_ok());
    let mut fallback = app("k", &[]);
    fallback.mappings.default = Some("m".into());
    assert!(start_gate(&fallback).is_ok());
    assert_eq!(
        launch_failure("p", "w").message(),
        "privilege escalation failed: launching `p` for elevation failed: w"
    );
}

#[test]
fn the_trust_store_is_tried_once() {
    assert!(matches!(trust_begin(Some(501)), TrustStep::Leave));
    assert!(matches!(trust_begin(None), TrustStep::Probe));
    let step = |trusted, installed, cert| trust_probed(Platform::MacOs, trusted, installed, cert);
    assert!(matches!(step(true, false, Some("/c")), TrustStep::Done));
    assert!(matches!(step(false, false, None), TrustStep::Done));
    match step(false, false, Some("/c")) {
        TrustStep::Install { op: PrivOp::InstallCa { cert } } => assert_eq!(cert, "/c"),
        _ => panic!("expected an install"),
    }
    match step(false, true, Some("/c")) {
        TrustStep::Remedy { command } => {
            assert_eq!(command, "security add-trusted-cert -r trustRoot \"/c\"")
        }
        _ => panic!("expected a remedy"),
    }
    assert_eq!(trust_notes(Platform::MacOs, true, "/c").len(), 1);
    let untrusted = trust_notes(Platform::Linux, false, "/c");
    assert_eq!(
        untrusted[1],
        "run this in a terminal to fix it: install /c into the system trust store manually"
    );
    let exited = |success| Ran::Exited { success, stderr: b" denied\n".to_vec() };
    assert_eq!(install_note("security", &exited(true)), None);
    assert_eq!(
        install_note("security", &exited(false)).as_deref(),
        Some("trusting the root CA failed: denied")
    );
    assert_eq!(
        install_note("security", &Ran::NotRun("missing".into())).as_deref(),
        Some("could not run security: missing")
    );
}

#[test]
fn the_resolver_is_restarted_once_and_then_given_up() {
    let stale = ["a".to_string(), "b".to_string()];
    assert!(matches!(resolver_next(None, &[]), ResolverStep::Settled));
    assert!(matches!(resolver_next(None, &stale), ResolverStep::Reload));
    assert!(matches!(resolver_next(Some(19), &stale), ResolverStep::Wait));
    assert!(matches!(resolver_next(Some(0), &[]), ResolverStep::Settled));
    match resolver_next(Some(20), &stale) {
        ResolverStep::GiveUp { why } => assert_eq!(
            why,
            "the hosts file was applied, but the system resolver still sends a, b to the real \
service — the IDE would never reach this proxy"
        ),
        _ => panic!("expected to give up"),
    }
}

/// The steps of a run in which the given step fails, with the failure that it ends with.
fn run_failing_at(bad: Option<DaemonStep>) -> (Vec<DaemonStep>, Option<String>) {
    let mut run = DaemonRun::new();
    let mut steps = Vec::new();
    while run.step != DaemonStep::Ended {
        steps.push(run.step);
        let failure = (Some(run.step) == bad).then(|| "why".to_string());
        run.advance(failure);
    }
    run.advance(Some("late".to_string()));
    (steps, run.failure)
}

#[test]
fn the_hosts_file_is_restored_whatever_fails() {
    let (trust, enable, resolve, serve, restore) = (
        DaemonStep::Trust,
        DaemonStep::Enable,
        DaemonStep::Resolve,
        DaemonStep::Serve,
        DaemonStep::Restore,
    );
    let why = Some("why".to_string());
    let all = vec![trust, enable, resolve, serve, restore];
    assert_eq!(run_failing_at(None), (all.clone(), None));
    assert_eq!(run_failing_at(Some(trust)), (all.clone(), None));
    assert_eq!(run_failing_at(Some(enable)), (vec![trust, enable], why.clone()));
    assert_eq!(
        run_failing_at(Some(resolve)),
        (vec![trust, enable, resolve, restore], why.clone())
    );
    assert_eq!(run_failing_at(Some(serve)), (all.clone(), why.clone()));
    assert_eq!(run_failing_at(Some(restore)), (all, why));
}

fn row(kiro: &str, provider: &str) -> ModelEntry {
    ModelEntry { kiro: kiro.into(), provider: provider.into() }
}

#[test]
fn config_commands_round_trip_through_the_real_config_file() {
    // A fresh install: no key, no mappings.
    let mut config = AppConfig::default();
    let fresh = view(&config, "/d/config.json");
    assert!(!fresh.api_key_set);
    assert!(fresh.models.is_empty());
    assert_eq!(fresh.default_model, None);
    assert_eq!(fresh.config_path, "/d/config.json");

    // The provider cannot be saved without a key, and the URL must be usable.
    assert!(set_provider_config(&config.provider, "https://api.example.com/v1", None).is_err());
    assert!(set_provider_config(
        &config.provider,
        "ftp://api.example.com/v1",
        Some("sk-1".into())
    )
    .is_err());

    // The key goes in once and never comes back out to the window.
    config.provider =
        set_provider_config(&config.provider, "https://api.example.com/v1", Some(" sk-1 ".into()))
            .unwrap();
    let saved = view(&config, "");
    assert!(saved.api_key_set);
    assert_eq!(saved.base_url, "https://api.example.com/v1");

    // Editing the URL alone keeps the stored key.
    config.provider =
        set_provider_config(&config.provider, "https://api.example.com/v2", None).unwrap();
    let edited = view(&config, "");
    assert!(edited.api_key_set);
    assert_eq!(edited.base_url, "https://api.example.com/v2");

    // Mappings: replace-whole-map semantics, validation, and the fallback path.
    config.mappings = set_model_mappings(
        &config.mappings,
        &[row("simple-task", "deepseek-chat"), row("auto", " gpt-4o ")],
    )
    .unwrap();
    let mapped = view(&config, "");
    assert_eq!(mapped.models.len(), 2);
    assert_eq!(mapped.models[0].kiro, "auto"); // sorted by id
    assert_eq!(mapped.models[0].provider, "gpt-4o");
    assert_eq!(mapped.models[1].kiro, "simple-task");

    // A later set replaces the map — nothing survives that was not resubmitted.
    config.mappings = set_model_mappings(&config.mappings, &[row("auto", "gpt-4o-mini")]).unwrap();
    let replaced = view(&config, "");
    assert_eq!(replaced.models.len(), 1);
    assert_eq!(replaced.models[0].provider, "gpt-4o-mini");

    // Validation: blank rows and duplicate ids are rejected before anything is written.
    assert_eq!(
        set_model_mappings(&config.mappings, &[row("auto", "")]).unwrap_err(),
        "each row needs both a Kiro model id and a provider model (got `auto` → ``)"
    );
    assert_eq!(
        set_model_mappings(&config.mappings, &[row("auto", "a"), row(" auto", "b")]).unwrap_err(),
        "duplicate Kiro model id `auto`"
    );

    // Clearing is the empty set.
    let cleared = set_model_mappings(&config.mappings, &[]).unwrap();
    assert!(cleared.models.is_empty());

    // The fallback is a separate field and survives map replacement.
    config.mappings.default = set_default_model(Some("gpt-4o-mini".into()));
    assert_eq!(view(&config, "").default_model.as_deref(), Some("gpt-4o-mini"));
    let kept = set_model_mappings(&config.mappings, &[]).unwrap();
    assert_eq!(kept.default.as_deref(), Some("gpt-4o-mini"));
    assert_eq!(set_default_model(Some("  ".into())), None);
    assert_eq!(set_default_model(None), None);

    // The known Kiro slots ride along on every view so the UI never needs its own copy.
    let with_slots = view(&config, "");
    assert!(with_slots.slots.iter().any(|s| s.id == "auto" && !s.name.is_empty()));
    assert!(with_slots.slots.iter().any(|s| s.id == "simple-task"));
    let ids: Vec<&str> = with_slots.slots.iter().map(|s| s.id.as_str()).collect();
    assert_eq!(
        ids,
        [
            "auto",
            "deepseek-3.2",
            "minimax-m2.1",
            "gpt-5.6-sol",
            "gpt-5.6-terra",
            "gpt-5.6-luna",
            "simple-task",
        ]
    );
    assert_eq!(ids.len(), KIRO_MODEL_SLOTS.len());

    assert_eq!(config.provider.base_url, "https://api.example.com/v2");
    assert_eq!(config.provider.api_key, "sk-1");
}

#[test]
fn the_provider_is_refused_in_words() {
    let stored = AppConfig::default().provider;
    let why = |url: &str, key: Option<&str>| {
        set_provider_config(&stored, url, key.map(str::to_string)).unwrap_err()
    };
    assert_eq!(why(" ", None), "the provider base URL cannot be empty");
    assert_eq!(
        why("h", None),
        "the provider base URL must start with http:// or https://"
    );
    assert_eq!(
        why("http://h", Some(" ")),
        "no API key stored yet — enter one to configure the provider"
    );
}

#[test]
fn rows_are_shown_in_the_order_of_their_ids() {
    let config = app("k", &[("b", "1"), ("a\u{1f600}", "2"), ("a\u{ffff}", "3"), ("a", "4"), ("", "5")]);
    let ids: Vec<String> = view(&config, "").models.into_iter().map(|m| m.kiro).collect();
    let mut sorted: Vec<String> =
        ["b", "a\u{1f600}", "a\u{ffff}", "a", ""].iter().map(|s| s.to_string()).collect();
    sorted.sort();
    assert_eq!(ids, sorted);
}

#[test]
fn a_key_is_not_printed() {
    let mut config = app("secret", &[("a", "b")]);
    config.mappings.default = Some("c".into());
    let shown = redacted(&config);
    assert_eq!(shown.provider.api_key, "***redacted***");
    assert_eq!(shown.mappings.models, config.mappings.models);
    assert_eq!(shown.mappings.default, config.mappings.default);
    assert_eq!(redacted(&app("", &[])).provider.api_key, "");
}

#[test]
fn ca_status_reports_uninitialized_and_minting_is_the_unprivileged_half() {
    let status = ca_view("/d/cert/rootCA.crt", None);
    assert!(!status.initialized);
    assert_eq!(status.fingerprint, None);
    assert!(!status.trusted);

    let store = nine_rai::cert::CertStore::load_or_create(None, None).unwrap().store;
    let after = ca_view("/d/cert/rootCA.crt", Some((store.fingerprint().to_string(), false)));
    assert!(after.initialized);
    assert_eq!(after.fingerprint.as_deref(), Some(store.fingerprint()));
    assert!(!after.trusted);
    assert_eq!(after.cert_path, "/d/cert/rootCA.crt");
    assert_eq!(
        untrusted_message(Platform::MacOs, "/c"),
        "macOS still does not trust the root CA. Run this in a terminal, then try again:\n\
security add-trusted-cert -r trustRoot \"/c\""
    );
}

#[test]
fn entering_a_mapping_twice_replaces_it() {
    let mut config = app("k", &[("a", "1"), ("b", "2")]);
    config.mappings.insert("a".into(), "3".into());
    assert_eq!(config.mappings.resolve("a"), Some("3"));
    assert_eq!(config.mappings.models.len(), 2);
    assert!(!config.mappings.is_empty());
    assert!(AppConfig::default().mappings.is_empty());
}
