use nine_rai::net::IpAddress;
use nine_rai::paths::root_ca_cert;
use nine_rai::platform::Platform;
use nine_rai::privilege::{validate, PrivOp};
use nine_rai::session::{
    disable_ops, enable_ops, enable_ops_for, hosts_are_redirected, hosts_not_hijacked, redirected,
    resolves_to_loopback, restored, staged_path, uninstall_ops, Resolution,
};

fn kinds(ops: &[PrivOp]) -> Vec<&'static str> {
    ops.iter()
        .map(|op| match op {
            PrivOp::InstallCa { .. } => "install-ca",
            PrivOp::InstallHosts { .. } => "install-hosts",
            PrivOp::RemoveCa { .. } => "remove-ca",
            PrivOp::FlushDns => "flush-dns",
            PrivOp::ReloadResolver => "reload-resolver",
            PrivOp::SetNodeCaEnv { .. } => "set-node-ca-env",
            PrivOp::UnsetNodeCaEnv => "unset-node-ca-env",
        })
        .collect()
}

#[test]
fn turning_interception_off_leaves_node_clients_trusting_our_root() {
    let ops = disable_ops(Platform::MacOs, "/data/9rai");
    assert!(
        !kinds(&ops).contains(&"unset-node-ca-env"),
        "a helper spawned while the proxy is off would come back without the variable and \
reject our certificate for the rest of its life"
    );
}

#[test]
fn loopback_detection_answers_the_question_getaddrinfo_would() {
    let v4 = |a: u8| IpAddress::V4([a, 0, 0, 1]);
    let localhost = IpAddress::V6([0, 0, 0, 0, 0, 0, 0, 1]);
    assert!(
        resolves_to_loopback(&Some(vec![v4(127), localhost])),
        "localhost is the one name every machine points at itself"
    );
    assert!(
        resolves_to_loopback(&None),
        "a name that resolves nowhere is not reaching the real service either"
    );
    assert!(!resolves_to_loopback(&Some(vec![v4(127), v4(52)])));
    assert!(!resolves_to_loopback(&Some(vec![IpAddress::V6([0, 0, 0, 0, 0, 0xffff, 0x7f00, 1])])));
    assert!(!IpAddress::V6([0; 8]).is_loopback());
}

#[test]
fn enabling_never_risks_the_startup_on_a_trust_store_write() {
    let ops = enable_ops_for(Platform::MacOs, "/ca/rootCA.crt", "/staged/hosts");
    assert_eq!(kinds(&ops), ["set-node-ca-env", "install-hosts", "flush-dns"]);
    assert!(
        !kinds(&ops).contains(&"install-ca"),
        "a refused trust-settings write would abort a startup that is otherwise fine"
    );
}

#[test]
fn the_batches_of_this_application_pass_validation() {
    for (platform, data) in [
        (Platform::MacOs, "/Users/a b/Library/Application Support/9rai"),
        (Platform::Linux, "/home/me/.local/share/9rai"),
        (Platform::Windows, "C:\\Users\\me\\AppData\\Roaming\\9rai"),
    ] {
        let enable = enable_ops(platform, data);
        let disable = disable_ops(platform, data);
        let uninstall = uninstall_ops(platform, data, "AABB");
        for ops in [&enable, &disable, &uninstall] {
            assert!(validate(platform, Some(data), ops).is_ok());
        }
        assert_eq!(
            kinds(&uninstall),
            ["install-hosts", "flush-dns", "remove-ca", "unset-node-ca-env"]
        );
        match &enable[0] {
            PrivOp::SetNodeCaEnv { cert } => assert_eq!(*cert, root_ca_cert(platform, data)),
            _ => panic!("expected the variable"),
        }
        match &enable[1] {
            PrivOp::InstallHosts { staged, .. } => assert_eq!(*staged, staged_path(platform, data)),
            _ => panic!("expected the hosts file"),
        }
    }
}

#[test]
fn hosts_that_lead_elsewhere_are_named() {
    let stale = hosts_not_hijacked(&[
        Resolution { host: "a".into(), addresses: None },
        Resolution { host: "b".into(), addresses: Some(vec![IpAddress::V4([8, 8, 8, 8])]) },
        Resolution { host: "c".into(), addresses: Some(vec![IpAddress::V4([127, 1, 2, 3])]) },
    ]);
    assert_eq!(stale, ["b"]);
}

#[test]
fn redirecting_and_restoring_are_inverse() {
    let original = "127.0.0.1 localhost\n";
    assert!(!hosts_are_redirected(original));
    let on = redirected(original);
    assert!(hosts_are_redirected(&on));
    assert!(on.contains("127.0.0.1\tcodewhisperer.us-east-1.amazonaws.com\n"));
    assert_eq!(restored(&on), original);
}
