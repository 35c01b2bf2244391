use nine_rai::hosts::{apply, ensure_trailing_newline, is_applied, is_current, strip, BEGIN, END};

const HOSTS: [&str; 2] = ["runtime.us-east-1.kiro.dev", "q.us-east-1.amazonaws.com"];

#[test]
fn a_leftover_block_is_detectable_even_when_it_maps_nothing_we_recognise() {
    let clean = "127.0.0.1 localhost\n";
    assert!(!is_applied(clean));
    let applied = apply(clean, &["example.test"]);
    assert!(is_applied(&applied));
    assert!(!is_applied(&strip(&applied)));
}

#[test]
fn apply_then_strip_restores_the_original_content() {
    let original = "127.0.0.1\tlocalhost\n255.255.255.255\tbroadcasthost\n";
    let applied = apply(original, &HOSTS);
    assert!(applied.contains(BEGIN) && applied.contains(END));
    assert!(applied.contains("::1\truntime.us-east-1.kiro.dev"));
    assert_eq!(strip(&applied), original);
}

#[test]
fn reapplying_replaces_rather_than_stacks_blocks() {
    let once = apply("base\n", &HOSTS);
    let twice = apply(&once, &["api2.cursor.sh"]);
    assert_eq!(twice.matches(BEGIN).count(), 1);
    assert!(twice.contains("api2.cursor.sh"));
    assert!(!twice.contains("kiro.dev"));
}

#[test]
fn strip_leaves_unrelated_lines_that_merely_mention_a_host() {
    let user_line = "# note about runtime.us-east-1.kiro.dev for later\n";
    let file = format!("{user_line}{}", apply("", &HOSTS));
    let stripped = strip(&file);
    assert!(stripped.contains(user_line.trim_end()));
    assert!(!stripped.contains(BEGIN));
}

#[test]
fn empty_hosts_is_a_strip() {
    let applied = apply("base\n", &HOSTS);
    assert_eq!(apply(&applied, &[]), "base\n");
}

#[test]
fn strip_is_a_noop_without_a_block() {
    assert_eq!(strip("nothing here\n"), "nothing here\n");
}

#[test]
fn is_current_detects_matching_and_stale_state() {
    let applied = apply("base\n", &HOSTS);
    assert!(is_current(&applied, &HOSTS));
    assert!(!is_current(&applied, &["api2.cursor.sh"]));
    assert!(!is_current("base\n", &HOSTS));
}

#[test]
fn handles_a_block_left_truncated_by_a_crash() {
    // END never got written (process killed mid-write).
    let truncated = format!("base\n\n{BEGIN}\n127.0.0.1\tkiro.dev\n");
    let recovered = strip(&truncated);
    assert_eq!(recovered, "base\n");
}

#[test]
fn the_block_is_written_line_by_line() {
    assert_eq!(
        apply("a\n", &["h"]),
        "a\n\n# BEGIN 9rai\n# Managed by 9rai. Do not edit; removed automatically when \
interception stops.\n127.0.0.1\th\n::1\th\n# END 9rai\n"
    );
    assert!(apply("", &["h"]).starts_with("# BEGIN 9rai\n"));
}

#[test]
fn strip_keeps_what_is_around_the_block() {
    let block = apply("", &["h"]);
    assert_eq!(strip(&format!("a\n\n{block}b\n")), "a\nb\n");
    assert_eq!(strip(&format!("a\r\n{block}b\n")), "a\r\nb\n");
    assert_eq!(strip(&format!("a\n{block}b\n")), "a\nb\n");
    assert_eq!(strip(&format!("{block}b\n")), "b\n");
    assert_eq!(strip(&format!("a\n\n{block}")), "a\n");
    assert_eq!(strip(block.trim_end()), "");
}

#[test]
fn strip_follows_two_character_line_breaks() {
    let file = apply("a\n", &["h"]).replace('\n', "\r\n");
    assert_eq!(strip(&file), "a\r\n");
    assert_eq!(strip(&format!("{file}b\r\n")), "a\r\nb\r\n");
}

#[test]
fn what_was_applied_is_taken_out_exactly() {
    for original in ["", "a", "a\r", "a\n", "\n", "\r\n", "a\n\n\n", "127.0.0.1 localhost\r\n"] {
        assert_eq!(strip(&apply(original, &HOSTS)), original);
        assert_eq!(strip(&apply(original, &["a#b", "x y"])), original);
    }
}

#[test]
fn every_block_is_replaced_by_one() {
    let block = apply("", &["old"]);
    for existing in [
        format!("a\n\n{block}b\n\n{block}c\n"),
        format!("{block}{block}a\nb\nc\n"),
        format!("a\nb\nc\n\n{block}\n{block}"),
    ] {
        let now = apply(&existing, &HOSTS);
        assert_eq!(now.matches(BEGIN).count(), 1);
        assert!(!now.contains("old"));
        assert_eq!(now, apply("a\nb\nc\n", &HOSTS));
        assert_eq!(apply(&apply(&existing, &[]), &HOSTS), now);
        assert!(is_current(&now, &HOSTS));
        assert!(!is_current(&now, &HOSTS[..1]));
        assert!(!is_current(&existing, &HOSTS));
    }
}

#[test]
fn a_trailing_newline_is_added_where_it_is_missing() {
    assert_eq!(ensure_trailing_newline(""), "");
    assert_eq!(ensure_trailing_newline("a"), "a\n");
    assert_eq!(ensure_trailing_newline("a\n"), "a\n");
}
