use nine_rai::appconfig::AppConfig;
use nine_rai::error::Error;
use nine_rai::paths::{
    cert_dir, console_user, data_dir, default_home, detect_real_user, home_candidates, hosts_file,
    id_of, join, log_dir, path_under, root_ca_cert, root_ca_key, same_path, RealUser, UserEnv,
    UserSource,
};
use nine_rai::platform::Platform;

#[test]
fn data_dir_is_inside_a_platform_location() {
    let dir = data_dir(Platform::Linux, None, Some("/home/me/.local/share")).unwrap();
    assert!(dir.ends_with("9rai"), "unexpected data dir {dir}");
    assert_eq!(dir, "/home/me/.local/share/9rai");
    assert_eq!(data_dir(Platform::Linux, Some("/u"), Some("/b")).unwrap(), "/u/9rai");
    assert_eq!(
        data_dir(Platform::Windows, None, Some("C:\\Users\\me\\AppData\\Roaming")).unwrap(),
        "C:\\Users\\me\\AppData\\Roaming\\9rai"
    );
    match data_dir(Platform::Linux, None, None) {
        Err(Error::Cert(why)) => assert_eq!(why, "cannot resolve platform data directory"),
        _ => panic!("expected an error"),
    }
}

#[test]
fn files_lie_below_the_data_directory() {
    let data = "/d";
    assert_eq!(cert_dir(Platform::Linux, data), "/d/cert");
    assert_eq!(root_ca_cert(Platform::Linux, data), "/d/cert/rootCA.crt");
    assert_eq!(root_ca_key(Platform::Windows, "C:\\d"), "C:\\d\\cert\\rootCA.key");
    assert_eq!(log_dir(Platform::MacOs, data), "/d/logs");
    assert_eq!(AppConfig::path(Platform::Linux, data), "/d/config.json");
    assert_eq!(hosts_file(Platform::MacOs), "/etc/hosts");
    assert_eq!(
        hosts_file(Platform::Windows),
        "C:\\Windows\\System32\\drivers\\etc\\hosts"
    );
}

/// What joining means is what the standard library's paths mean by it.
#[test]
fn joining_agrees_with_the_standard_library() {
    for base in ["", "/", "/a", "/a/", "a", "a b/c", "."] {
        for name in ["", "x", "x/y", "/x", "../x", "."] {
            assert_eq!(
                join(Platform::Linux, base, name),
                std::path::Path::new(base).join(name).to_str().unwrap(),
                "{base} and {name}"
            );
        }
    }
    assert_eq!(join(Platform::Windows, "C:", "x"), "C:x");
    assert_eq!(join(Platform::Windows, "C:\\", "x"), "C:\\x");
    assert_eq!(join(Platform::Windows, "a/", "x"), "a/x");
}

/// What it means to be the same path, or to lie below one, is what the standard library's paths
/// mean by it.
#[test]
fn comparing_agrees_with_the_standard_library() {
    let all = [
        "", ".", "./a", "a", "a/", "a/.", "a/./b", "a//b", "a/b", "/", "//", "/.", "/a", "/./a",
        "/a/b/", "/a/../a", "..", "../a", "/ab", "a/..", "./", "./.",
    ];
    for a in all {
        for b in all {
            let (x, y) = (std::path::Path::new(a), std::path::Path::new(b));
            assert_eq!(same_path(Platform::Linux, a, b), x == y, "{a} and {b}");
            assert_eq!(path_under(Platform::Linux, a, b), x.starts_with(y), "{a} below {b}");
        }
    }
    assert!(!same_path(Platform::Windows, "\\\\srv\\x", "\\srv\\x"));
    assert!(path_under(Platform::Windows, "\\\\srv\\share\\a", "\\\\srv\\share"));
    assert!(same_path(Platform::Windows, "c:a", "C:a"));
    assert!(!same_path(Platform::Windows, "C:a", "C:\\a"));
    assert!(!same_path(Platform::Linux, "a\\b", "a/b"));
}

fn some(s: &str) -> Option<String> {
    Some(s.to_string())
}

#[test]
fn the_invoking_user_is_found_in_the_environment() {
    let mut env = UserEnv::default();
    assert!(matches!(detect_real_user(Platform::MacOs, 0, &env), UserSource::Console));
    assert!(matches!(detect_real_user(Platform::Linux, 0, &env), UserSource::Nobody));
    env.doas_user = some("dora");
    match detect_real_user(Platform::Linux, 0, &env) {
        UserSource::Named(name) => assert_eq!(name, "dora"),
        _ => panic!("expected a name"),
    }
    env.sudo_user = some("sue");
    assert!(matches!(detect_real_user(Platform::Linux, 0, &env), UserSource::Nobody));
    env.sudo_uid = some("501");
    env.sudo_gid = some("+20");
    match detect_real_user(Platform::Linux, 0, &env) {
        UserSource::Known(user) => {
            assert_eq!((user.name.as_str(), user.uid, user.gid), ("sue", 501, 20))
        }
        _ => panic!("expected a user"),
    }
    assert!(matches!(detect_real_user(Platform::Linux, 501, &env), UserSource::Nobody));
    for gid in ["", "+", "-1", "4294967296", "1 ", "x", "٣"] {
        env.sudo_gid = some(gid);
        assert!(matches!(detect_real_user(Platform::Linux, 0, &env), UserSource::Nobody));
    }
    env.sudo_user = some("root");
    env.doas_user = some("");
    assert!(matches!(detect_real_user(Platform::Linux, 0, &env), UserSource::Nobody));
}

#[test]
fn users_and_ids_are_read_off_what_the_tools_print() {
    assert_eq!(console_user(b"me\n"), some("me"));
    assert_eq!(console_user(b"root\n"), None);
    assert_eq!(console_user(b"\n"), None);
    assert_eq!(id_of(b" 501\n"), Some(501));
    assert_eq!(id_of(b"4294967295"), Some(u32::MAX));
    assert_eq!(id_of(b"no such user"), None);
}

#[test]
fn data_lives_in_the_home_of_the_user() {
    let me = RealUser { name: "me".to_string(), uid: 1, gid: 1 };
    assert_eq!(
        me.data_root(Platform::MacOs, "/ignored"),
        "/Users/me/Library/Application Support"
    );
    assert_eq!(me.data_root(Platform::Linux, "/h/me"), "/h/me/.local/share");
    assert_eq!(default_home("me"), "/home/me");
    let passwd = "root:x:0:0:root:/root:/bin/sh\nme:x:1:1:Me:/h/me:/bin/sh\r\nme:x:2\nme:a:b:c:d:/h2\n";
    assert_eq!(home_candidates(passwd, "me"), ["/h/me", "/h2"]);
    assert!(home_candidates(passwd, "you").is_empty());
}
