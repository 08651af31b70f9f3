//! The daemon's configuration, its defaults, and where paths in it lead.

use vstd::prelude::*;
use crate::path::{below_chars, below_spec, expand_tilde_spec, expand_tilde_with_home, starts_at_home};
use crate::text::{chars_of, string_from_chars};

verus! {

/// The whole configuration of one node.
#[derive(Debug)]
pub struct Config {
    pub identity: Identity,
    pub peer: Peer,
    pub sync: SyncConfig,
    pub offload: OffloadConfig,
    pub hooks: Hooks,
}

/// This node's name and role.
#[derive(Debug)]
pub struct Identity {
    pub name: String,
    pub role: Role,
}

/// A node is either the mobile one, which offloads, or the always-on hub.
#[derive(Debug, Clone, Copy, PartialEq, Eq, Structural)]
pub enum Role {
    Mobile,
    Hub,
}

/// The one peer this node keeps in sync with.
#[derive(Debug)]
pub struct Peer {
    pub name: String,
    pub tailscale_ip: String,
    pub ssh_user: String,
    pub poll_interval_secs: u64,
}

/// The seconds between two checks of the peer, where the configuration gives none.
pub fn default_poll() -> (r: u64)
    ensures
        r == 15,
{
    15
}

/// The paths to keep in sync and the patterns that sync leaves out.
#[derive(Debug)]
pub struct SyncConfig {
    pub paths: Vec<SyncPath>,
    pub exclude: Vec<String>,
}

/// One local path kept in sync with one remote path, in one direction.
#[derive(Debug)]
pub struct SyncPath {
    pub local: String,
    pub remote: String,
    pub direction: SyncDirection,
}

/// Which way a path is synced.
#[derive(Debug, Clone, Copy, PartialEq, Eq, Structural)]
pub enum SyncDirection {
    Bidirectional,
    Push,
    Pull,
}

/// Where and what to offload.
#[derive(Debug, Clone)]
pub struct OffloadConfig {
    pub vault_path: String,
    pub delete_after_send: bool,
    pub min_size_mb: u64,
    pub always_offload: Vec<String>,
    pub watch_dirs: Vec<String>,
    pub exclude: Vec<String>,
}

/// Whether an offloaded file is deleted locally once verified, where the
/// configuration does not say.
pub fn default_true() -> (r: bool)
    ensures
        r,
{
    true
}

/// The size in MB from which a file is offloaded, where the configuration gives none.
pub fn default_min_size() -> (r: u64)
    ensures
        r == 500,
{
    500
}

/// Shell commands run when the peer comes online, goes offline, and after a sync.
#[derive(Debug)]
pub struct Hooks {
    pub on_connect: Vec<String>,
    pub on_disconnect: Vec<String>,
    pub on_sync_done: Vec<String>,
}

impl Default for Hooks {
    fn default() -> (r: Self)
        ensures
            r.on_connect@.len() == 0,
            r.on_disconnect@.len() == 0,
            r.on_sync_done@.len() == 0,
    {
        Hooks { on_connect: Vec::new(), on_disconnect: Vec::new(), on_sync_done: Vec::new() }
    }
}

/// The current user's home directory, as `dirs::home_dir` finds it.
#[verifier::external_body]
pub(crate) fn home_dir() -> (r: Option<String>)
    ensures
        r matches Some(h) ==> h@.len() > 0,
{
    match dirs::home_dir() {
        Some(h) => Some(h.to_string_lossy().into_owned()),
        None => None,
    }
}

/// The path with a leading `~` replaced by the current user's home directory;
/// `None` where the path starts at home and no home directory can be found.
pub fn expand_tilde(path: &str) -> (r: Option<String>)
    ensures
        !starts_at_home(path@) ==> (r matches Some(s) && s@ == path@),
        r matches Some(s) ==> exists|h: Seq<char>|
            h.len() > 0 && s@ == #[trigger] expand_tilde_spec(path@, h),
        starts_at_home(path@) ==> (r matches Some(s) ==> exists|h: Seq<char>|
            h.len() > 0 && s@.len() >= h.len() && #[trigger] s@.subrange(0, h.len() as int) == h),
{
    let home = home_dir();
    match home {
        Some(h) => {
            let r = expand_tilde_with_home(path, Some(h.as_str()));
            assert(r matches Some(s) && s@ == expand_tilde_spec(path@, h@));
            proof {
                if starts_at_home(path@) {
                    let s = r->0;
                    assert(s@.subrange(0, h@.len() as int) == h@);
                }
            }
            r
        },
        None => {
            let r = expand_tilde_with_home(path, None);
            proof {
                if r is Some {
                    let h = seq!['/'];
                    assert(!starts_at_home(path@));
                    assert(r->0@ == expand_tilde_spec(path@, h));
                }
            }
            r
        },
    }
}

impl SyncPath {
    /// The local path with a leading `~` expanded, as `expand_tilde` gives it.
    pub fn expand_local(&self) -> (r: Option<String>)
        ensures
            !starts_at_home(self.local@) ==> (r matches Some(s) && s@ == self.local@),
            r matches Some(s) ==> exists|h: Seq<char>|
                h.len() > 0 && s@ == #[trigger] expand_tilde_spec(self.local@, h),
            starts_at_home(self.local@) ==> (r matches Some(s) ==> exists|h: Seq<char>|
                h.len() > 0 && s@.len() >= h.len() && #[trigger] s@.subrange(0, h.len() as int)
                    == h),
    {
        expand_tilde(self.local.as_str())
    }
}

/// The places where the configuration is looked for, in order: under the
/// home directory (or the current directory where none is known), then in the
/// current directory.
pub fn config_candidates_with_home(home: Option<&str>) -> (r: Vec<String>)
    ensures
        r@.len() == 2,
        r@[0]@ == below_spec(
            match home {
                Some(h) => h@,
                None => Seq::<char>::empty(),
            },
            ".config/cin-sync/cin-sync.toml"@,
        ),
        r@[1]@ == "cin-sync.toml"@,
{
    let base: Vec<char> = match home {
        Some(h) => chars_of(h),
        None => Vec::new(),
    };
    let rel = chars_of(".config/cin-sync/cin-sync.toml");
    let first = string_from_chars(&below_chars(&base, &rel));
    let second = "cin-sync.toml".to_string();
    let mut r: Vec<String> = Vec::new();
    r.push(first);
    r.push(second);
    r
}

/// The places where the configuration is looked for, for the current user.
pub fn config_candidates() -> (r: Vec<String>)
    ensures
        r@.len() == 2,
        r@[1]@ == "cin-sync.toml"@,
        exists|h: Seq<char>|
            r@[0]@ == #[trigger] below_spec(h, ".config/cin-sync/cin-sync.toml"@),
{
    let home = home_dir();
    match home {
        Some(h) => config_candidates_with_home(Some(h.as_str())),
        None => config_candidates_with_home(None),
    }
}

/// The first candidate that exists, or the first candidate where none does.
pub fn pick_config(candidates: &Vec<String>, exists: &Vec<bool>) -> (r: String)
    requires
        candidates@.len() > 0,
        exists@.len() == candidates@.len(),
    ensures
        (exists|i: int| 0 <= i < exists@.len() && exists@[i]) ==> exists|i: int|
            0 <= i < exists@.len() && exists@[i] && r@ == candidates@[i]@
                && (forall|j: int| 0 <= j < i ==> !exists@[j]),
        (forall|i: int| 0 <= i < exists@.len() ==> !exists@[i]) ==> r@ == candidates@[0]@,
{
    let mut i: usize = 0;
    while i < candidates.len()
        invariant
            i <= candidates@.len(),
            exists@.len() == candidates@.len(),
            forall|j: int| 0 <= j < i ==> !exists@[j],
        decreases candidates.len() - i,
    {
        if exists[i] {
            return candidates[i].clone();
        }
        i = i + 1;
    }
    candidates[0].clone()
}

} // verus!
