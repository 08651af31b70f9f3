use cin_sync::config::{
    config_candidates, config_candidates_with_home, default_min_size, default_poll, default_true,
    expand_tilde, pick_config, Hooks, SyncDirection, SyncPath,
};
use cin_sync::path::{expand_tilde_with_home, file_name};

#[test]
fn defaults_match_documented_values() {
    assert_eq!(default_poll(), 15);
    assert!(default_true());
    assert_eq!(default_min_size(), 500);
    let h = Hooks::default();
    assert!(h.on_connect.is_empty());
    assert!(h.on_disconnect.is_empty());
    assert!(h.on_sync_done.is_empty());
}

#[test]
fn tilde_alone_is_home() {
    assert_eq!(expand_tilde_with_home("~", Some("/home/u")), Some("/home/u".to_string()));
}

#[test]
fn tilde_slash_joins_home() {
    assert_eq!(expand_tilde_with_home("~/Documents", Some("/home/u")), Some("/home/u/Documents".to_string()));
    assert_eq!(expand_tilde_with_home("~/Documents", Some("/home/u/")), Some("/home/u/Documents".to_string()));
    assert_eq!(expand_tilde_with_home("~/", Some("/home/u")), Some("/home/u/".to_string()));
}

#[test]
fn tilde_slash_rest_stays_below_home() {
    assert_eq!(expand_tilde_with_home("~//etc", Some("/home/u")), Some("/home/u//etc".to_string()));
    assert_eq!(expand_tilde_with_home("~//etc", Some("/home/u/")), Some("/home/u//etc".to_string()));
}

#[test]
fn other_paths_are_unchanged() {
    assert_eq!(expand_tilde_with_home("~user/x", Some("/home/u")), Some("~user/x".to_string()));
    assert_eq!(expand_tilde_with_home("/srv/data", Some("/home/u")), Some("/srv/data".to_string()));
    assert_eq!(expand_tilde_with_home("rel/path", None), Some("rel/path".to_string()));
    assert_eq!(expand_tilde_with_home("", None), Some("".to_string()));
}

#[test]
fn tilde_without_home_fails() {
    assert_eq!(expand_tilde_with_home("~", None), None);
    assert_eq!(expand_tilde_with_home("~/x", None), None);
}

#[test]
fn expand_tilde_keeps_plain_paths() {
    assert_eq!(expand_tilde("/var/lib/x"), Some("/var/lib/x".to_string()));
}

#[test]
fn expand_tilde_replaces_tilde_with_some_home() {
    match expand_tilde("~/notes") {
        Some(p) => {
            assert!(!p.starts_with('~'));
            assert!(p.ends_with("notes"));
        }
        None => {}
    }
}

#[test]
fn expand_local_expands_the_local_side() {
    let sp = SyncPath {
        local: "/data/photos".to_string(),
        remote: "/srv/photos".to_string(),
        direction: SyncDirection::Push,
    };
    assert_eq!(sp.expand_local(), Some("/data/photos".to_string()));
}

#[test]
fn file_names() {
    assert_eq!(file_name("/a/b.txt"), Some("b.txt".to_string()));
    assert_eq!(file_name("/a/b/"), Some("b".to_string()));
    assert_eq!(file_name("a/."), Some("a".to_string()));
    assert_eq!(file_name("a//b"), Some("b".to_string()));
    assert_eq!(file_name("/a/.."), None);
    assert_eq!(file_name("/"), None);
    assert_eq!(file_name("."), None);
    assert_eq!(file_name(""), None);
}

#[test]
fn config_candidates_under_home_then_cwd() {
    let c = config_candidates_with_home(Some("/home/u"));
    assert_eq!(c, vec!["/home/u/.config/cin-sync/cin-sync.toml".to_string(), "cin-sync.toml".to_string()]);
    let c = config_candidates_with_home(None);
    assert_eq!(c, vec![".config/cin-sync/cin-sync.toml".to_string(), "cin-sync.toml".to_string()]);
}

#[test]
fn config_candidates_for_current_user() {
    let c = config_candidates();
    assert_eq!(c.len(), 2);
    assert!(c[0].ends_with(".config/cin-sync/cin-sync.toml"));
    assert_eq!(c[1], "cin-sync.toml");
}

#[test]
fn pick_config_takes_first_existing_or_first() {
    let c = vec!["a.toml".to_string(), "b.toml".to_string()];
    assert_eq!(pick_config(&c, &vec![false, true]), "b.toml");
    assert_eq!(pick_config(&c, &vec![true, true]), "a.toml");
    assert_eq!(pick_config(&c, &vec![false, false]), "a.toml");
}
