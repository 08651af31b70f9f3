use cin_sync::config::OffloadConfig;
use cin_sync::net::checksum_matches;
use cin_sync::offload::{
    hex_lower, is_excluded, matches_patterns, min_size_bytes, offload_target, offload_target_with_home,
    next_stage, outcome_after_check, scan_candidates, sha256_hex, FoundFile, OffloadEvent, OffloadOutcome,
    OffloadStage, Sha256Stream, TargetError,
};

fn strs(v: &[&str]) -> Vec<String> {
    v.iter().map(|s| s.to_string()).collect()
}

#[test]
fn extension_patterns_match_suffix() {
    let pats = strs(&["*.gguf", "*.safetensors"]);
    assert!(matches_patterns("/home/u/models/llama.gguf", &pats));
    assert!(matches_patterns("/home/u/models/w.safetensors", &pats));
    assert!(!matches_patterns("/home/u/models/llama.gguf.part", &pats));
    assert!(!matches_patterns("/home/u/models/gguf", &pats));
    assert!(!matches_patterns("/home/u/models/x.GGUF", &pats));
}

#[test]
fn plain_patterns_match_whole_name() {
    let pats = strs(&["dump.sql"]);
    assert!(matches_patterns("/data/dump.sql", &pats));
    assert!(!matches_patterns("/data/old-dump.sql", &pats));
    assert!(!matches_patterns("/dump.sql/x", &pats));
}

#[test]
fn pattern_edge_cases() {
    assert!(matches_patterns("/d/a.", &strs(&["*."])));
    assert!(matches_patterns("/", &strs(&[""])));
    assert!(!matches_patterns("/d/a", &vec![]));
}

#[test]
fn exclusion_by_component() {
    let ex = strs(&[".git", "node_modules"]);
    assert!(is_excluded("/home/u/src/.git/config", &ex));
    assert!(is_excluded("/home/u/node_modules", &ex));
    assert!(!is_excluded("/home/u/src/gitx/a", &ex));
    assert!(!is_excluded("/home/u/src/.gitignore", &ex));
    assert!(is_excluded("/a/b", &strs(&["/"])));
    assert!(is_excluded("./a", &strs(&["."])));
    assert!(!is_excluded("a/./b", &strs(&["."])));
}

fn cfg(min_mb: u64) -> OffloadConfig {
    OffloadConfig {
        vault_path: "~/vault".to_string(),
        delete_after_send: true,
        min_size_mb: min_mb,
        always_offload: strs(&["*.gguf"]),
        watch_dirs: strs(&["~/Downloads"]),
        exclude: strs(&[".cache"]),
    }
}

fn found(path: &str, size: u64) -> FoundFile {
    FoundFile { path: path.to_string(), size_bytes: size }
}

#[test]
fn min_size_in_bytes() {
    assert_eq!(min_size_bytes(500), 524_288_000);
    assert_eq!(min_size_bytes(0), 0);
}

#[test]
fn candidates_by_pattern_then_size() {
    let files = vec![
        found("/h/Downloads/a.gguf", 10),
        found("/h/Downloads/big.bin", 2 * 1024 * 1024),
        found("/h/Downloads/small.txt", 10),
        found("/h/Downloads/.cache/huge.bin", 5 * 1024 * 1024),
        found("/h/Downloads/exact.bin", 1024 * 1024),
        found("/h/Downloads/just-over.bin", 1024 * 1024 + 1),
        found("/h/Downloads/big.gguf", 9 * 1024 * 1024),
    ];
    let c = scan_candidates(&cfg(1), &files);
    let got: Vec<(String, u64, &str)> = c.iter().map(|x| (x.path.clone(), x.size_bytes, x.reason)).collect();
    assert_eq!(
        got,
        vec![
            ("/h/Downloads/a.gguf".to_string(), 10, "pattern match"),
            ("/h/Downloads/big.bin".to_string(), 2 * 1024 * 1024, "size threshold"),
            ("/h/Downloads/just-over.bin".to_string(), 1024 * 1024 + 1, "size threshold"),
            ("/h/Downloads/big.gguf".to_string(), 9 * 1024 * 1024, "pattern match"),
        ]
    );
}

#[test]
fn no_candidates_from_nothing() {
    assert!(scan_candidates(&cfg(500), &vec![]).is_empty());
}

#[test]
fn target_keeps_place_relative_to_home() {
    let t = offload_target_with_home("/home/u/Downloads/m.gguf", "/vault", "/home/u").unwrap();
    assert_eq!(t.remote_dir, "/vault/Downloads");
    assert_eq!(t.remote_file, "/vault/Downloads/m.gguf");
    assert_eq!(t.file_name, "m.gguf");
    let t = offload_target_with_home("/home/u/Downloads/m.gguf", "/vault", "/home/u/").unwrap();
    assert_eq!(t.remote_file, "/vault/Downloads/m.gguf");
}

#[test]
fn target_directly_in_home() {
    let t = offload_target_with_home("/home/u/m.gguf", "/vault", "/home/u").unwrap();
    assert_eq!(t.remote_dir, "/vault/");
    assert_eq!(t.remote_file, "/vault//m.gguf");
}

#[test]
fn target_outside_home_keeps_full_path() {
    let t = offload_target_with_home("/mnt/x/f.bin", "/vault", "/home/u").unwrap();
    assert_eq!(t.remote_dir, "/vault//mnt/x");
    assert_eq!(t.remote_file, "/vault//mnt/x/f.bin");
    let t = offload_target_with_home("/home/user2/f.bin", "/vault", "/home/u").unwrap();
    assert_eq!(t.remote_dir, "/vault//home/user2");
}

#[test]
fn target_needs_file_name() {
    assert!(offload_target_with_home("/home/u/..", "/vault", "/home/u").is_none());
    assert!(offload_target_with_home("/", "/vault", "/home/u").is_none());
}

#[test]
fn target_for_current_user() {
    match offload_target("/srv/m.gguf", "/vault") {
        Ok(t) => {
            assert_eq!(t.remote_dir, "/vault//srv");
            assert_eq!(t.remote_file, "/vault//srv/m.gguf");
        }
        Err(e) => assert_eq!(e, TargetError::NoHomeDirectory),
    }
    match offload_target("/srv/..", "/vault") {
        Ok(_) => panic!("a path without a file name has no target"),
        Err(e) => assert!(e == TargetError::NoFileName || e == TargetError::NoHomeDirectory),
    }
}

#[test]
fn delete_only_when_verified_and_asked() {
    assert_eq!(outcome_after_check(true, true), OffloadOutcome::DeleteLocal);
    assert_eq!(outcome_after_check(true, false), OffloadOutcome::KeepLocal);
    assert_eq!(outcome_after_check(false, true), OffloadOutcome::HashMismatch);
    assert_eq!(outcome_after_check(false, false), OffloadOutcome::HashMismatch);
}

#[test]
fn hex_is_lowercase_two_digits_per_byte() {
    assert_eq!(hex_lower(&[0x00, 0xff, 0x1a, 0x9b]), "00ff1a9b");
    assert_eq!(hex_lower(&[]), "");
}

#[test]
fn sha256_known_vectors() {
    assert_eq!(sha256_hex(b"abc"), "ba7816bf8f01cfea414140de5dae2223b00361a396177a9cb410ff61f20015ad");
    assert_eq!(sha256_hex(b""), "e3b0c44298fc1c149afbf4c8996fb92427ae41e4649b934ca495991b7852b855");
}

#[test]
fn sha256sum_line_of_same_bytes_matches() {
    let h = sha256_hex(b"some file contents");
    let line = format!("{}  /vault/Downloads/file.bin\n", h);
    assert!(checksum_matches(&line, &h));
    let other = sha256_hex(b"other contents");
    assert!(!checksum_matches(&line, &other));
}

#[test]
fn sha256_in_pieces_equals_whole() {
    let mut h = Sha256Stream::new();
    h.update(b"some file ");
    h.update(b"");
    h.update(b"contents");
    assert_eq!(h.finish_hex(), sha256_hex(b"some file contents"));
    let mut h = Sha256Stream::new();
    h.update(b"ab");
    h.update(b"c");
    assert_eq!(h.finish_hex(), "ba7816bf8f01cfea414140de5dae2223b00361a396177a9cb410ff61f20015ad");
}

#[test]
fn offload_stages_in_order() {
    let ok = OffloadEvent::Succeeded;
    let mut s = OffloadStage::Hashing;
    s = next_stage(s, ok, true);
    assert_eq!(s, OffloadStage::Locating);
    s = next_stage(s, ok, true);
    assert_eq!(s, OffloadStage::Transferring);
    s = next_stage(s, ok, true);
    assert_eq!(s, OffloadStage::Checking);
    assert_eq!(next_stage(s, OffloadEvent::Checked(true), true), OffloadStage::Finished(OffloadOutcome::DeleteLocal));
    assert_eq!(next_stage(s, OffloadEvent::Checked(true), false), OffloadStage::Finished(OffloadOutcome::KeepLocal));
    assert_eq!(next_stage(s, OffloadEvent::Checked(false), true), OffloadStage::Finished(OffloadOutcome::HashMismatch));
    assert_eq!(next_stage(s, OffloadEvent::StepFailed, true), OffloadStage::Failed);
}

#[test]
fn failed_or_early_check_never_deletes() {
    assert_eq!(next_stage(OffloadStage::Hashing, OffloadEvent::StepFailed, true), OffloadStage::Failed);
    assert_eq!(next_stage(OffloadStage::Transferring, OffloadEvent::Checked(true), true), OffloadStage::Failed);
    assert_eq!(next_stage(OffloadStage::Failed, OffloadEvent::Checked(true), true), OffloadStage::Failed);
    let done = OffloadStage::Finished(OffloadOutcome::KeepLocal);
    assert_eq!(next_stage(done, OffloadEvent::Succeeded, true), done);
}

#[test]
fn target_keeps_directory_text_as_written() {
    let t = offload_target_with_home("/home/u/a/./b/f.bin", "/vault", "/home/u").unwrap();
    assert_eq!(t.remote_dir, "/vault/a/./b");
    assert_eq!(t.remote_file, "/vault/a/./b/f.bin");
    let t = offload_target_with_home("/home/u/./a//b/f.bin", "/vault", "/home/u").unwrap();
    assert_eq!(t.remote_dir, "/vault/a//b");
    let t = offload_target_with_home("/home//u/x/f.bin", "/vault", "/home/u").unwrap();
    assert_eq!(t.remote_dir, "/vault/x");
}

#[test]
fn target_for_relative_paths() {
    let t = offload_target_with_home("./f.bin", "/vault", "/home/u").unwrap();
    assert_eq!(t.remote_dir, "/vault/.");
    let t = offload_target_with_home("f.bin", "/vault", "/home/u").unwrap();
    assert_eq!(t.remote_dir, "/vault/");
    let t = offload_target_with_home("/f.bin", "/vault", "/home/u").unwrap();
    assert_eq!(t.remote_dir, "/vault//");
    let t = offload_target_with_home("./x/./y/f.bin", "/vault", ".").unwrap();
    assert_eq!(t.remote_dir, "/vault/x/./y");
}
