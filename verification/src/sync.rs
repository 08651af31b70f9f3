//! The rsync transfers that keep one configured path in sync.

use vstd::prelude::*;
use crate::config::{Config, Peer, SyncDirection, SyncPath};
use crate::net::{pull_args_spec, push_args_spec, rsync_pull_args, rsync_push_args, str_views};

verus! {

/// Which way one rsync transfer goes.
#[derive(Debug, Clone, Copy, PartialEq, Eq, Structural)]
pub enum Transfer {
    Push,
    Pull,
}

/// One rsync run: its direction and its arguments.
pub struct RsyncJob {
    pub transfer: Transfer,
    pub args: Vec<String>,
}

/// The view of a job: its direction and the views of its arguments.
pub open spec fn job_view(j: RsyncJob) -> (Transfer, Seq<Seq<char>>) {
    (j.transfer, str_views(j.args@))
}

/// The transfers that sync `local` with `remote` on the peer, in order: a
/// bidirectional path is first pulled, so that files only the peer has
/// arrive, then pushed without deleting anything on the peer; a pushed path
/// is pushed with deletion; a pulled path is pulled.
pub open spec fn sync_jobs_spec(
    direction: SyncDirection,
    local: Seq<char>,
    remote: Seq<char>,
    user: Seq<char>,
    ip: Seq<char>,
    excludes: Seq<Seq<char>>,
) -> Seq<(Transfer, Seq<Seq<char>>)> {
    match direction {
        SyncDirection::Bidirectional => seq![
            (Transfer::Pull, pull_args_spec(user, ip, remote, local, excludes)),
            (Transfer::Push, push_args_spec(local, user, ip, remote, excludes, false)),
        ],
        SyncDirection::Push => seq![
            (Transfer::Push, push_args_spec(local, user, ip, remote, excludes, true)),
        ],
        SyncDirection::Pull => seq![
            (Transfer::Pull, pull_args_spec(user, ip, remote, local, excludes)),
        ],
    }
}

/// The rsync runs that sync one path, whose local side is `local` (the
/// configured local path with `~` expanded), leaving out `excludes`.
pub fn sync_jobs(sp: &SyncPath, local: &str, peer: &Peer, excludes: &Vec<String>) -> (r: Vec<
    RsyncJob,
>)
    ensures
        r@.map_values(|j: RsyncJob| job_view(j)) == sync_jobs_spec(
            sp.direction,
            local@,
            sp.remote@,
            peer.ssh_user@,
            peer.tailscale_ip@,
            str_views(excludes@),
        ),
{
    let user = peer.ssh_user.as_str();
    let ip = peer.tailscale_ip.as_str();
    let remote = sp.remote.as_str();
    let mut jobs: Vec<RsyncJob> = Vec::new();
    match sp.direction {
        SyncDirection::Bidirectional => {
            jobs.push(
                RsyncJob {
                    transfer: Transfer::Pull,
                    args: rsync_pull_args(user, ip, remote, local, excludes),
                },
            );
            jobs.push(
                RsyncJob {
                    transfer: Transfer::Push,
                    args: rsync_push_args(local, user, ip, remote, excludes, false),
                },
            );
        },
        SyncDirection::Push => {
            jobs.push(
                RsyncJob {
                    transfer: Transfer::Push,
                    args: rsync_push_args(local, user, ip, remote, excludes, true),
                },
            );
        },
        SyncDirection::Pull => {
            jobs.push(
                RsyncJob {
                    transfer: Transfer::Pull,
                    args: rsync_pull_args(user, ip, remote, local, excludes),
                },
            );
        },
    }
    assert(jobs@.map_values(|j: RsyncJob| job_view(j)) =~= sync_jobs_spec(
        sp.direction,
        local@,
        sp.remote@,
        peer.ssh_user@,
        peer.tailscale_ip@,
        str_views(excludes@),
    ));
    jobs
}


/// The rsync runs for the `i`-th configured sync path, whose local side is
/// `local`: with the peer of the configuration and the `[sync]` exclude
/// patterns; none where the local side does not exist.
pub fn config_sync_jobs(config: &Config, i: usize, local: &str, local_exists: bool) -> (r: Vec<
    RsyncJob,
>)
    requires
        i < config.sync.paths@.len(),
    ensures
        !local_exists ==> r@.len() == 0,
        local_exists ==> r@.map_values(|j: RsyncJob| job_view(j)) == sync_jobs_spec(
            config.sync.paths@[i as int].direction,
            local@,
            config.sync.paths@[i as int].remote@,
            config.peer.ssh_user@,
            config.peer.tailscale_ip@,
            str_views(config.sync.exclude@),
        ),
{
    if !local_exists {
        return Vec::new();
    }
    sync_jobs(&config.sync.paths[i], local, &config.peer, &config.sync.exclude)
}

/// Only a path configured to push deletes anything on the peer: the
/// transfers of a bidirectional or a pulled path never pass `--delete`
/// (it would stand right after `-avz`).
pub proof fn lemma_only_push_deletes(
    direction: SyncDirection,
    local: Seq<char>,
    remote: Seq<char>,
    user: Seq<char>,
    ip: Seq<char>,
    excludes: Seq<Seq<char>>,
    k: int,
)
    requires
        0 <= k < sync_jobs_spec(direction, local, remote, user, ip, excludes).len(),
    ensures
        (sync_jobs_spec(direction, local, remote, user, ip, excludes)[k].1[1] == "--delete"@)
            <==> direction == SyncDirection::Push,
{
    reveal_strlit("--delete");
    reveal_strlit("-e");
    reveal_strlit("-avz");
    let job = sync_jobs_spec(direction, local, remote, user, ip, excludes)[k];
    if job.0 == Transfer::Pull {
        assert(job.1 == pull_args_spec(user, ip, remote, local, excludes));
        assert(job.1[1] == "-e"@);
    } else if direction == SyncDirection::Push {
        assert(job.1 == push_args_spec(local, user, ip, remote, excludes, true));
        assert(job.1[1] == "--delete"@);
    } else {
        assert(job.1 == push_args_spec(local, user, ip, remote, excludes, false));
        assert(job.1[1] == "-e"@);
    }
    assert("-e"@ != "--delete"@) by {
        assert("-e"@.len() != "--delete"@.len());
    }
}


/// A bidirectional path is first pulled and then pushed; a pushed path is
/// only pushed and a pulled path only pulled, each by one rsync run; the
/// arguments of each run are those of a push or a pull between the same two
/// places with the same exclude patterns.
pub proof fn lemma_sync_runs_by_direction(
    direction: SyncDirection,
    local: Seq<char>,
    remote: Seq<char>,
    user: Seq<char>,
    ip: Seq<char>,
    excludes: Seq<Seq<char>>,
)
    ensures
        ({
            let jobs = sync_jobs_spec(direction, local, remote, user, ip, excludes);
            &&& direction == SyncDirection::Bidirectional ==> jobs.len() == 2 && jobs[0].0
                == Transfer::Pull && jobs[1].0 == Transfer::Push
            &&& direction == SyncDirection::Push ==> jobs.len() == 1 && jobs[0].0 == Transfer::Push
            &&& direction == SyncDirection::Pull ==> jobs.len() == 1 && jobs[0].0 == Transfer::Pull
            &&& forall|k: int|
                0 <= k < jobs.len() ==> (#[trigger] jobs[k]).1 == if jobs[k].0 == Transfer::Pull {
                    pull_args_spec(user, ip, remote, local, excludes)
                } else {
                    push_args_spec(
                        local,
                        user,
                        ip,
                        remote,
                        excludes,
                        direction == SyncDirection::Push,
                    )
                }
        }),
{
}

} // verus!
