use nine_rai::error::Error;
use nine_rai::platform::Platform;
use nine_rai::privilege::{
    failure_hint, judge_step, plan, render, render_unix, render_windows, validate, Argv, PrivOp,
    Privileged, RecordingExecutor, StepOutcome,
};

const DATA: &str = "/Users/me/Library/Application Support/9rai";

#[test]
fn hosts_install_stages_a_copy_rather_than_editing_in_place() {
    let op = PrivOp::InstallHosts {
        staged: "/tmp/hosts.new".into(),
        target: "/etc/hosts".into(),
    };
    let cmds = render_unix(Platform::MacOs, None, &op);
    assert_eq!(cmds[0], Argv::new(&["cp", "/tmp/hosts.new", "/etc/hosts"]));
    assert_eq!(cmds[1].program(), "chmod");
}

#[test]
fn the_node_ca_variable_is_published_best_effort_and_validated() {
    let cmds = render(
        Platform::MacOs,
        None,
        &[PrivOp::SetNodeCaEnv {
            cert: "/ca/rootCA.crt".into(),
        }],
    );
    assert_eq!(cmds.len(), 1);
    assert_eq!(cmds[0].program(), "launchctl");
    assert!(cmds[0].0.contains(&"NODE_EXTRA_CA_CERTS".to_string()));
    assert_eq!(cmds[0].0.last().unwrap(), "/ca/rootCA.crt");
    assert!(
        cmds[0].1,
        "a machine with no GUI session must not fail the batch"
    );

    // The variable makes every Node client trust whatever it points at, so it is held to
    // the same rule as the trust store itself.
    assert!(validate(
        Platform::MacOs,
        Some(DATA),
        &[PrivOp::SetNodeCaEnv {
            cert: "/tmp/somebody-elses-ca.crt".into(),
        }]
    )
    .is_err());
    validate(Platform::MacOs, Some(DATA), &[PrivOp::UnsetNodeCaEnv])
        .expect("withdrawing it is always allowed");
}

#[test]
fn reloading_the_resolver_is_a_tolerated_restart() {
    for platform in [Platform::MacOs, Platform::Linux, Platform::Windows] {
        let cmds = render(platform, None, &[PrivOp::ReloadResolver]);
        assert_eq!(cmds.len(), 1);
        assert!(
            cmds[0].1,
            "a resolver that is not running is not a reason to fail the batch"
        );
        if platform == Platform::MacOs {
            assert_eq!(cmds[0].0, ["killall", "mDNSResponder"]);
        }
        // It carries no paths or names, so it is always safe to run elevated.
        validate(platform, None, &[PrivOp::ReloadResolver])
            .expect("the reload op needs no validation");
    }
}

#[test]
fn display_quotes_arguments_that_contain_spaces() {
    let argv = Argv::new(&["cp", "/tmp/a b/hosts.staged", "/etc/hosts"]);
    assert_eq!(
        argv.display(),
        "cp \"/tmp/a b/hosts.staged\" /etc/hosts",
        "an unquoted path with a space would read as two arguments in the log"
    );
}

#[test]
fn recording_executor_captures_without_side_effects() {
    let mut exec = RecordingExecutor::default();
    exec.run(&[PrivOp::FlushDns]).unwrap();
    assert_eq!(exec.ops.len(), 1);
}

#[test]
fn programs_and_arguments_are_told_apart() {
    let argv = Argv::optional(&["a", "b", "c"]);
    assert!(argv.1);
    assert_eq!(argv.program(), "a");
    assert_eq!(argv.args(), ["b", "c"]);
    let none = Argv::new(&[]);
    assert_eq!(none.program(), "");
    assert!(none.args().is_empty());
    assert_eq!(none.display(), "");
}

fn texts(cmds: &[Argv]) -> Vec<String> {
    cmds.iter().map(Argv::display).collect()
}

#[test]
fn every_op_renders_on_every_platform() {
    let ops = [
        PrivOp::InstallHosts { staged: "s".into(), target: "t".into() },
        PrivOp::InstallCa { cert: "c".into() },
        PrivOp::RemoveCa { cn: "n".into(), fingerprint: "F".into() },
        PrivOp::FlushDns,
        PrivOp::ReloadResolver,
        PrivOp::SetNodeCaEnv { cert: "c".into() },
        PrivOp::UnsetNodeCaEnv,
    ];
    assert_eq!(
        texts(&render(Platform::MacOs, Some(501), &ops)),
        [
            "cp s t",
            "chmod 644 t",
            "security delete-certificate -c \"9rai MITM Root CA\" /Library/Keychains/System.keychain",
            "security add-trusted-cert -d -r trustRoot -k /Library/Keychains/System.keychain c",
            "security delete-certificate -Z F /Library/Keychains/System.keychain",
            "dscacheutil -flushcache",
            "killall -HUP mDNSResponder",
            "killall mDNSResponder",
            "launchctl asuser 501 launchctl setenv NODE_EXTRA_CA_CERTS c",
            "launchctl asuser 501 launchctl unsetenv NODE_EXTRA_CA_CERTS",
        ]
    );
    assert_eq!(
        texts(&render(Platform::Linux, None, &ops[3..])),
        ["resolvectl flush-caches", "resolvectl flush-caches"]
    );
    assert_eq!(
        texts(&render(Platform::Windows, None, &ops)),
        [
            "cmd /C copy /Y s t",
            "certutil -delstore Root \"9rai MITM Root CA\"",
            "certutil -addstore Root c",
            "certutil -delstore Root n",
            "ipconfig /flushdns",
            "ipconfig /flushdns",
            "setx NODE_EXTRA_CA_CERTS c",
            "reg delete HKCU\\Environment /F /V NODE_EXTRA_CA_CERTS",
        ]
    );
    assert_eq!(render_windows(&ops[3]).len(), 1);
}

fn refusal(platform: Platform, data_dir: Option<&str>, op: PrivOp) -> String {
    match validate(platform, data_dir, &[PrivOp::FlushDns, op]) {
        Ok(()) => panic!("must be refused"),
        Err(e) => e.message(),
    }
}

#[test]
fn foreign_batches_are_refused() {
    let hosts = |staged: &str, target: &str| PrivOp::InstallHosts {
        staged: staged.into(),
        target: target.into(),
    };
    assert_eq!(
        refusal(Platform::MacOs, Some(DATA), hosts("/x", "/etc/passwd")),
        "privilege escalation failed: refusing to write non-hosts target /etc/passwd"
    );
    assert_eq!(
        refusal(Platform::MacOs, Some(DATA), hosts("/tmp/h", "/etc/hosts")),
        format!("privilege escalation failed: refusing staged file /tmp/h outside {DATA}")
    );
    assert_eq!(
        refusal(Platform::Linux, Some("/d"), hosts("/d/../evil", "/etc/hosts")),
        "privilege escalation failed: refusing staged file /d/../evil in place of /d/hosts.staged"
    );
    assert_eq!(
        refusal(Platform::Linux, None, hosts("/tmp/h", "/etc/hosts")),
        "certificate error: cannot resolve platform data directory"
    );
    assert_eq!(
        refusal(Platform::MacOs, Some(DATA), PrivOp::InstallCa { cert: "/tmp/ca".into() }),
        "privilege escalation failed: refusing to install a CA that is not our own root"
    );
    assert_eq!(
        refusal(Platform::MacOs, Some(DATA), PrivOp::SetNodeCaEnv { cert: "/tmp/ca".into() }),
        "privilege escalation failed: refusing to advertise a CA that is not our own root"
    );
    assert_eq!(
        refusal(
            Platform::MacOs,
            Some(DATA),
            PrivOp::RemoveCa { cn: "a \"b\"\n".into(), fingerprint: String::new() }
        ),
        "privilege escalation failed: refusing to remove foreign CA \"a \\\"b\\\"\\n\""
    );
}

#[test]
fn paths_are_compared_part_by_part() {
    let hosts = |staged: &str, target: &str| PrivOp::InstallHosts {
        staged: staged.into(),
        target: target.into(),
    };
    let ok = |platform: Platform, data: &str, op: PrivOp| validate(platform, Some(data), &[op]);
    assert!(ok(Platform::Linux, "/d", hosts("/d//./hosts.staged", "//etc/./hosts/")).is_ok());
    assert!(ok(Platform::Linux, "/d", hosts("/dd/hosts.staged", "/etc/hosts")).is_err());
    assert!(ok(Platform::Linux, "/d", hosts("/d/hosts.staged", "/etc/../etc/hosts")).is_err());
    assert!(ok(Platform::Linux, "/d", hosts("d/hosts.staged", "/etc/hosts")).is_err());
    assert!(ok(Platform::Linux, "/d", hosts("/d/../../evil/hosts", "/etc/hosts")).is_err());
    assert!(ok(Platform::Linux, "/d", hosts("/d/x/../hosts.staged", "/etc/hosts")).is_err());
    assert!(ok(Platform::Linux, "/d", hosts("/d/other", "/etc/hosts")).is_err());
    assert!(ok(
        Platform::Windows,
        "C:\\Users\\me",
        hosts("c:/Users/me/hosts.staged", "C:/Windows/System32\\drivers\\etc\\hosts")
    )
    .is_ok());
    assert!(ok(
        Platform::Windows,
        "C:\\Users\\me",
        hosts("D:\\Users\\me\\hosts.staged", "C:\\Windows\\System32\\drivers\\etc\\hosts")
    )
    .is_err());
}

#[test]
fn a_batch_that_writes_trust_is_not_for_linux() {
    let ops = [PrivOp::FlushDns, PrivOp::InstallCa { cert: "c".into() }];
    match plan(Platform::Linux, None, &ops) {
        Err(e) => assert_eq!(
            e.message(),
            "trust-store automation on Linux (install the root CA manually) is not implemented yet"
        ),
        Ok(_) => panic!("must be refused"),
    }
    assert_eq!(plan(Platform::Linux, None, &ops[..1]).unwrap().len(), 1);
    assert_eq!(plan(Platform::MacOs, None, &ops).unwrap().len(), 4);
}

#[test]
fn a_failed_step_ends_the_batch_unless_it_is_tolerated() {
    let must = Argv::new(&["a", "b c"]);
    let may = Argv::optional(&["a"]);
    let exited = |success: bool| StepOutcome::Exited { success, status: "exit status: 1".into() };
    assert!(judge_step(Platform::MacOs, 0, &must, &exited(true)).is_ok());
    assert!(judge_step(Platform::MacOs, 0, &may, &exited(false)).is_ok());
    match judge_step(Platform::MacOs, 0, &must, &exited(false)) {
        Err(Error::Elevation(why)) => assert_eq!(why, "`a \"b c\"` exited with exit status: 1"),
        _ => panic!("expected a failure"),
    }
    match judge_step(Platform::Linux, 501, &must, &exited(false)) {
        Err(Error::Elevation(why)) => {
            assert!(why.ends_with("GUI's authorization prompt"));
            assert!(why.contains("this process is not root"));
        }
        _ => panic!("expected a failure"),
    }
    match judge_step(Platform::MacOs, 0, &may, &StepOutcome::NotStarted("no such file".into())) {
        Err(Error::Elevation(why)) => assert_eq!(why, "spawning `a` failed: no such file"),
        _ => panic!("expected a failure"),
    }
    assert_eq!(failure_hint(Platform::Windows, 501), "");
}

#[test]
fn every_error_has_its_words() {
    assert_eq!(
        Error::io("/p".to_string(), "denied".to_string()).message(),
        "io error at /p: denied"
    );
    assert_eq!(Error::RawIo("x".into()).message(), "x");
    assert_eq!(Error::Cert("x".into()).message(), "certificate error: x");
    assert_eq!(Error::TrustStore("x".into()).message(), "trust store: x");
    assert_eq!(Error::Hosts("x".into()).message(), "hosts file: x");
    assert_eq!(Error::Elevation("x".into()).message(), "privilege escalation failed: x");
    assert_eq!(Error::Provider("x".into()).message(), "upstream provider: x");
    assert_eq!(Error::Translate("x".into()).message(), "translate: x");
    assert_eq!(Error::Json("x".into()).message(), "x");
    assert_eq!(Error::Http("x".into()).message(), "x");
    assert_eq!(Error::NotImplemented("x").message(), "x is not implemented yet");
}
