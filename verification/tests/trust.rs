use nine_rai::cert::gen::ROOT_CN;
use nine_rai::cert::trust::{
    is_installed, manual_trust_command, trust_probe, unix_cert_is_present, unix_flush_dns,
    unix_install, unix_install_user, unix_is_installed, unix_remove, windows_install,
    windows_is_installed, windows_remove, Outcome, MAC_KEYCHAIN,
};
use nine_rai::platform::Platform;

#[test]
fn macos_install_deletes_then_adds_with_trustroot() {
    let cmds = unix_install("/path/rootCA.crt");
    assert_eq!(cmds[0].0[1], "delete-certificate");
    assert!(
        cmds[0].1,
        "the stale-delete must tolerate 'not found' on a first install"
    );
    assert!(!cmds[1].1, "the add itself is mandatory");
    assert!(cmds[1].0.contains(&"trustRoot".to_string()));
    assert!(cmds[1].0.contains(&"/path/rootCA.crt".to_string()));
    assert!(cmds[1].0.contains(&MAC_KEYCHAIN.to_string()));
}

#[test]
fn windows_install_targets_the_root_store() {
    let cmds = windows_install("C:\\rootCA.crt");
    assert_eq!(
        cmds[1].0,
        ["certutil", "-addstore", "Root", "C:\\rootCA.crt"]
    );
}

#[test]
fn removal_uses_the_common_name_on_windows_and_fingerprint_on_mac() {
    assert!(windows_remove(ROOT_CN)[0].0.contains(&ROOT_CN.to_string()));
    assert_eq!(unix_remove("AABB")[0].0[2], "-Z");
}

#[test]
fn trusting_for_the_user_needs_no_admin_domain() {
    let cmds = unix_install_user("/c");
    assert_eq!(cmds.len(), 1);
    assert_eq!(cmds[0].0, ["security", "add-trusted-cert", "-r", "trustRoot", "/c"]);
    assert_eq!(unix_flush_dns(Platform::Windows).len(), 2);
}

#[test]
fn the_remedy_is_a_command_on_macos() {
    assert_eq!(
        manual_trust_command(Platform::MacOs, "/a b"),
        "security add-trusted-cert -r trustRoot \"/a b\""
    );
    assert_eq!(
        manual_trust_command(Platform::Linux, "/a"),
        "install /a into the system trust store manually"
    );
}

#[test]
fn each_platform_is_asked_in_its_own_way() {
    assert_eq!(
        trust_probe(Platform::MacOs, Some("/c"), "FP").unwrap().0,
        ["security", "verify-cert", "-c", "/c", "-p", "ssl", "-k", MAC_KEYCHAIN]
    );
    assert_eq!(
        trust_probe(Platform::Linux, Some("/c"), "FP").unwrap().0,
        ["security", "find-certificate", "-a", "-c", ROOT_CN, "-Z", MAC_KEYCHAIN]
    );
    assert_eq!(
        trust_probe(Platform::Windows, Some("/c"), "FP").unwrap().0,
        ["certutil", "-store", "Root", "FP"]
    );
    assert!(trust_probe(Platform::MacOs, None, "FP").is_none());
    assert!(trust_probe(Platform::Windows, None, "FP").is_some());
}

#[test]
fn the_hash_line_is_matched_loosely() {
    let listing = b"keychain: x\n  SHA-1 Hash: aa bb CC\r\nSHA-256 hash: AABB\n";
    assert!(unix_cert_is_present(listing, "AABBCC"));
    assert!(unix_cert_is_present(b"sha-1 hash:AABBCC", "aabbcc"));
    assert!(!unix_cert_is_present(listing, "AABB"));
    assert!(!unix_cert_is_present(b"SHA-1 AABB", "AABB"));
    assert!(!unix_cert_is_present(b"", ""));
    assert!(!unix_cert_is_present(b"\xff\xfe", "AABB"));
}

#[test]
fn trust_follows_from_the_outcome_of_the_question() {
    let yes = Outcome { success: true, stdout: Vec::new() };
    let listed = Outcome { success: false, stdout: b"SHA-1 hash: AB\n".to_vec() };
    assert!(is_installed(Platform::MacOs, Some(&yes), "AB"));
    assert!(!is_installed(Platform::MacOs, Some(&listed), "AB"));
    assert!(is_installed(Platform::Linux, Some(&listed), "AB"));
    assert!(!is_installed(Platform::Linux, Some(&yes), "AB"));
    assert!(is_installed(Platform::Windows, Some(&yes), "AB"));
    assert!(!is_installed(Platform::Windows, None, "AB"));
    assert!(!unix_is_installed(Platform::MacOs, None, "AB"));
    assert!(!windows_is_installed(Some(&listed)));
}
