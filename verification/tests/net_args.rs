use cin_sync::net::{
    checksum_args, checksum_matches, remote_check_passed, first_word_of, mkdir_args, peer_state_from_ping, ping_args,
    rsync_pull_args, rsync_push_args, shell_escape, transfer_args, PeerState,
};

const SSH: &str = "ssh -o StrictHostKeyChecking=accept-new -o ConnectTimeout=10";

fn strs(v: &[&str]) -> Vec<String> {
    v.iter().map(|s| s.to_string()).collect()
}

#[test]
fn ping_probes_once_with_two_second_wait() {
    assert_eq!(ping_args("100.64.0.2"), strs(&["-c", "1", "-W", "2", "100.64.0.2"]));
}

#[test]
fn peer_online_only_on_successful_ping() {
    assert_eq!(peer_state_from_ping(Some(true)), PeerState::Online);
    assert_eq!(peer_state_from_ping(Some(false)), PeerState::Offline);
    assert_eq!(peer_state_from_ping(None), PeerState::Offline);
}

#[test]
fn push_with_delete_and_excludes() {
    let ex = strs(&["*.tmp", "node_modules"]);
    let args = rsync_push_args("/home/u/docs", "u", "100.64.0.2", "/srv/docs", &ex, true);
    assert_eq!(
        args,
        strs(&[
            "-avz", "--delete", "-e", SSH, "--exclude", "*.tmp", "--exclude", "node_modules",
            "/home/u/docs/", "u@100.64.0.2:/srv/docs",
        ])
    );
}

#[test]
fn push_keeps_existing_trailing_slash_and_can_skip_delete() {
    let args = rsync_push_args("/home/u/docs/", "u", "h", "/srv/docs", &vec![], false);
    assert_eq!(args, strs(&["-avz", "-e", SSH, "/home/u/docs/", "u@h:/srv/docs"]));
}

#[test]
fn pull_adds_trailing_slashes() {
    let ex = strs(&["*.tmp"]);
    let args = rsync_pull_args("u", "h", "/srv/docs", "/home/u/docs", &ex);
    assert_eq!(
        args,
        strs(&["-avz", "-e", SSH, "--exclude", "*.tmp", "u@h:/srv/docs/", "/home/u/docs/"])
    );
}

#[test]
fn shell_escape_quotes_and_escapes_single_quotes() {
    assert_eq!(shell_escape("plain"), "'plain'");
    assert_eq!(shell_escape("it's"), "'it'\\''s'");
    assert_eq!(shell_escape(""), "''");
    assert_eq!(shell_escape("a b$c"), "'a b$c'");
}

#[test]
fn mkdir_runs_quoted_mkdir_on_peer() {
    assert_eq!(
        mkdir_args("u", "h", "/vault/My Files"),
        strs(&[
            "-o", "StrictHostKeyChecking=accept-new", "-o", "ConnectTimeout=10", "u@h",
            "mkdir -p '/vault/My Files'",
        ])
    );
}

#[test]
fn transfer_keeps_partial_files() {
    assert_eq!(
        transfer_args("/home/u/m.gguf", "u", "h", "/vault/x"),
        strs(&["-avz", "--partial", "--progress", "-e", SSH, "/home/u/m.gguf", "u@h:/vault/x/"])
    );
}

#[test]
fn checksum_runs_sha256sum_on_peer() {
    assert_eq!(
        checksum_args("u", "h", "/vault/x/it's.bin"),
        strs(&[
            "-o", "StrictHostKeyChecking=accept-new", "-o", "ConnectTimeout=10", "u@h",
            "sha256sum '/vault/x/it'\\''s.bin'",
        ])
    );
}

#[test]
fn first_word_splits_on_unicode_space() {
    assert_eq!(first_word_of("  abc def"), "abc");
    assert_eq!(first_word_of("abc\u{3000}def"), "abc");
    assert_eq!(first_word_of("\n\t"), "");
    assert_eq!(first_word_of(""), "");
}

#[test]
fn checksum_matches_compares_first_word() {
    assert!(checksum_matches("abc123  /vault/f\n", "abc123"));
    assert!(!checksum_matches("abc124  /vault/f\n", "abc123"));
    assert!(!checksum_matches("abc1234  /vault/f\n", "abc123"));
    assert!(checksum_matches("", ""));
}

#[test]
fn remote_check_needs_success_and_match() {
    assert!(remote_check_passed(true, "abc  /f\n", "abc"));
    assert!(!remote_check_passed(false, "abc  /f\n", "abc"));
    assert!(!remote_check_passed(true, "abd  /f\n", "abc"));
}
