use cin_sync::config::{
    Config, Hooks, Identity, OffloadConfig, Peer, Role, SyncConfig, SyncDirection, SyncPath,
};
use cin_sync::daemon::{Daemon, Task};
use cin_sync::net::PeerState;
use cin_sync::sync::{config_sync_jobs, sync_jobs, Transfer};

const SSH: &str = "ssh -o StrictHostKeyChecking=accept-new -o ConnectTimeout=10";

fn strs(v: &[&str]) -> Vec<String> {
    v.iter().map(|s| s.to_string()).collect()
}

#[test]
fn coming_online_runs_hooks_sync_and_offload_on_mobile() {
    let mut d = Daemon::new();
    assert_eq!(
        d.step(PeerState::Online, Role::Mobile),
        vec![Task::ConnectHooks, Task::SyncPaths, Task::Offload, Task::SyncDoneHooks]
    );
}

#[test]
fn hub_never_offloads() {
    let mut d = Daemon::new();
    assert_eq!(d.step(PeerState::Online, Role::Hub), vec![Task::ConnectHooks, Task::SyncPaths, Task::SyncDoneHooks]);
}

#[test]
fn offline_at_start_runs_nothing() {
    let mut d = Daemon::new();
    assert!(d.step(PeerState::Offline, Role::Mobile).is_empty());
    assert_eq!(d.step(PeerState::Online, Role::Mobile)[0], Task::ConnectHooks);
}

#[test]
fn same_state_twice_runs_nothing_the_second_time() {
    let mut d = Daemon::new();
    d.step(PeerState::Online, Role::Hub);
    assert!(d.step(PeerState::Online, Role::Hub).is_empty());
    assert_eq!(d.step(PeerState::Offline, Role::Hub), vec![Task::DisconnectHooks]);
    assert!(d.step(PeerState::Offline, Role::Hub).is_empty());
}

#[test]
fn hooks_alternate_over_a_run() {
    let mut d = Daemon::new();
    let seen = [
        PeerState::Offline, PeerState::Online, PeerState::Online, PeerState::Offline,
        PeerState::Online, PeerState::Offline, PeerState::Offline, PeerState::Online,
    ];
    let mut events = Vec::new();
    for s in seen {
        for t in d.step(s, Role::Mobile) {
            if t == Task::ConnectHooks {
                events.push(true);
            } else if t == Task::DisconnectHooks {
                events.push(false);
            }
        }
    }
    assert_eq!(events, vec![true, false, true, false, true]);
}

fn peer() -> Peer {
    Peer {
        name: "hub".to_string(),
        tailscale_ip: "100.64.0.2".to_string(),
        ssh_user: "u".to_string(),
        poll_interval_secs: 15,
    }
}

fn path(dir: SyncDirection) -> SyncPath {
    SyncPath { local: "~/docs".to_string(), remote: "/srv/docs".to_string(), direction: dir }
}

#[test]
fn bidirectional_pulls_first_then_pushes_without_delete() {
    let jobs = sync_jobs(&path(SyncDirection::Bidirectional), "/home/u/docs", &peer(), &strs(&["*.tmp"]));
    assert_eq!(jobs.len(), 2);
    assert_eq!(jobs[0].transfer, Transfer::Pull);
    assert_eq!(
        jobs[0].args,
        strs(&["-avz", "-e", SSH, "--exclude", "*.tmp", "u@100.64.0.2:/srv/docs/", "/home/u/docs/"])
    );
    assert_eq!(jobs[1].transfer, Transfer::Push);
    assert_eq!(
        jobs[1].args,
        strs(&["-avz", "-e", SSH, "--exclude", "*.tmp", "/home/u/docs/", "u@100.64.0.2:/srv/docs"])
    );
}

#[test]
fn push_deletes_and_pull_only_pulls() {
    let jobs = sync_jobs(&path(SyncDirection::Push), "/home/u/docs", &peer(), &vec![]);
    assert_eq!(jobs.len(), 1);
    assert_eq!(jobs[0].transfer, Transfer::Push);
    assert_eq!(jobs[0].args, strs(&["-avz", "--delete", "-e", SSH, "/home/u/docs/", "u@100.64.0.2:/srv/docs"]));
    let jobs = sync_jobs(&path(SyncDirection::Pull), "/home/u/docs", &peer(), &vec![]);
    assert_eq!(jobs.len(), 1);
    assert_eq!(jobs[0].transfer, Transfer::Pull);
    assert_eq!(jobs[0].args, strs(&["-avz", "-e", SSH, "u@100.64.0.2:/srv/docs/", "/home/u/docs/"]));
}

#[test]
fn configured_sync_uses_sync_excludes_not_offload_excludes() {
    let config = Config {
        identity: Identity { name: "laptop".to_string(), role: Role::Mobile },
        peer: peer(),
        sync: SyncConfig { paths: vec![path(SyncDirection::Push)], exclude: strs(&["*.swp"]) },
        offload: OffloadConfig {
            vault_path: "~/vault".to_string(),
            delete_after_send: true,
            min_size_mb: 500,
            always_offload: vec![],
            watch_dirs: vec![],
            exclude: strs(&[".cache"]),
        },
        hooks: Hooks::default(),
    };
    let jobs = config_sync_jobs(&config, 0, "/home/u/docs", true);
    assert_eq!(jobs.len(), 1);
    assert_eq!(
        jobs[0].args,
        strs(&["-avz", "--delete", "-e", SSH, "--exclude", "*.swp", "/home/u/docs/", "u@100.64.0.2:/srv/docs"])
    );
    assert!(config_sync_jobs(&config, 0, "/home/u/docs", false).is_empty());
}
