//! What the daemon hands to `ping`, `rsync` and `ssh`, and how it reads their answers.

use vstd::prelude::*;
use crate::text::{chars_of, concat_str, push_all, str_eq, string_from_chars};

verus! {

/// Whether the peer answered the last check.
#[derive(Debug, Clone, Copy, PartialEq, Eq, Structural)]
pub enum PeerState {
    Online,
    Offline,
}

/// The views of a sequence of strings.
pub open spec fn str_views(v: Seq<String>) -> Seq<Seq<char>> {
    v.map_values(|s: String| s@)
}

/// The `-e` program that rsync reaches the peer through.
pub open spec fn ssh_command_spec() -> Seq<char> {
    "ssh -o StrictHostKeyChecking=accept-new -o ConnectTimeout=10"@
}

/// `user@ip`.
pub open spec fn login_spec(user: Seq<char>, ip: Seq<char>) -> Seq<char> {
    user + seq!['@'] + ip
}

/// `user@ip:path`.
pub open spec fn remote_spec(user: Seq<char>, ip: Seq<char>, path: Seq<char>) -> Seq<char> {
    login_spec(user, ip) + seq![':'] + path
}

/// The path with a `/` at its end, added where it has none.
pub open spec fn with_trailing_slash(p: Seq<char>) -> Seq<char> {
    if p.len() > 0 && p.last() == '/' { p } else { p.push('/') }
}

/// `--exclude` and the pattern, for each pattern in order.
pub open spec fn exclude_args_spec(excludes: Seq<Seq<char>>) -> Seq<Seq<char>>
    decreases excludes.len(),
{
    if excludes.len() == 0 {
        Seq::empty()
    } else {
        exclude_args_spec(excludes.drop_last()) + seq!["--exclude"@, excludes.last()]
    }
}

/// The arguments of `rsync` that send the contents of a local directory to the peer;
/// with `delete`, files that are gone locally are removed on the peer too.
pub open spec fn push_args_spec(
    local: Seq<char>,
    user: Seq<char>,
    ip: Seq<char>,
    remote: Seq<char>,
    excludes: Seq<Seq<char>>,
    delete: bool,
) -> Seq<Seq<char>> {
    seq!["-avz"@] + (if delete { seq!["--delete"@] } else { Seq::empty() }) + seq![
        "-e"@,
        ssh_command_spec(),
    ] + exclude_args_spec(excludes) + seq![
        with_trailing_slash(local),
        remote_spec(user, ip, remote),
    ]
}

/// The arguments of `rsync` that fetch the contents of a remote directory into a
/// local one.
pub open spec fn pull_args_spec(
    user: Seq<char>,
    ip: Seq<char>,
    remote: Seq<char>,
    local: Seq<char>,
    excludes: Seq<Seq<char>>,
) -> Seq<Seq<char>> {
    seq!["-avz"@, "-e"@, ssh_command_spec()] + exclude_args_spec(excludes) + seq![
        remote_spec(user, ip, remote).push('/'),
        local.push('/'),
    ]
}

/// The text of `s` with each `'` written as `'\''`.
pub open spec fn escape_body(s: Seq<char>) -> Seq<char>
    decreases s.len(),
{
    if s.len() == 0 {
        Seq::empty()
    } else {
        escape_body(s.drop_last()) + (if s.last() == '\'' {
            seq!['\'', '\\', '\'', '\'']
        } else {
            seq![s.last()]
        })
    }
}

/// `s` quoted for a POSIX shell: between single quotes, with each `'` closed,
/// escaped and reopened.
pub open spec fn shell_escape_spec(s: Seq<char>) -> Seq<char> {
    seq!['\''] + escape_body(s) + seq!['\'']
}

/// The options every `ssh` call to the peer starts with.
pub open spec fn ssh_options_spec() -> Seq<Seq<char>> {
    seq!["-o"@, "StrictHostKeyChecking=accept-new"@, "-o"@, "ConnectTimeout=10"@]
}

/// The arguments of `ssh` that run `command` on the peer.
pub open spec fn ssh_args_spec(user: Seq<char>, ip: Seq<char>, command: Seq<char>) -> Seq<Seq<char>> {
    ssh_options_spec() + seq![login_spec(user, ip), command]
}

/// The arguments of `rsync` that copy one file into a remote directory, keeping
/// a partial copy where the transfer breaks off.
pub open spec fn transfer_args_spec(
    local_file: Seq<char>,
    user: Seq<char>,
    ip: Seq<char>,
    remote_dir: Seq<char>,
) -> Seq<Seq<char>> {
    seq![
        "-avz"@,
        "--partial"@,
        "--progress"@,
        "-e"@,
        ssh_command_spec(),
        local_file,
        remote_spec(user, ip, remote_dir).push('/'),
    ]
}

/// The arguments of `ping` that send one probe to `ip` and wait two seconds.
pub open spec fn ping_args_spec(ip: Seq<char>) -> Seq<Seq<char>> {
    seq!["-c"@, "1"@, "-W"@, "2"@, ip]
}

/// Whether a character is white space in Unicode (`char::is_whitespace`).
pub open spec fn is_space_spec(c: char) -> bool {
    let n = c as u32;
    (0x9 <= n && n <= 0xd) || n == 0x20 || n == 0x85 || n == 0xa0 || n == 0x1680 || (0x2000
        <= n && n <= 0x200a) || n == 0x2028 || n == 0x2029 || n == 0x202f || n == 0x205f || n
        == 0x3000
}

/// The first index from `i` on that does not hold white space (or the length).
pub open spec fn skip_space(s: Seq<char>, i: int) -> int
    decreases s.len() - i,
{
    if i < 0 || i >= s.len() || !is_space_spec(s[i]) {
        i
    } else {
        skip_space(s, i + 1)
    }
}

/// The first index from `i` on that holds white space (or the length).
pub open spec fn word_end(s: Seq<char>, i: int) -> int
    decreases s.len() - i,
{
    if i < 0 || i >= s.len() || is_space_spec(s[i]) {
        i
    } else {
        word_end(s, i + 1)
    }
}

/// The first word of `s` between white space, empty where `s` holds none.
pub open spec fn first_word(s: Seq<char>) -> Seq<char> {
    let a = skip_space(s, 0);
    s.subrange(a, word_end(s, a))
}

/// The state of the peer after a `ping`: online exactly where `ping` ran and
/// exited successfully (`exit_success` is `None` where it could not be run).
pub fn peer_state_from_ping(exit_success: Option<bool>) -> (r: PeerState)
    ensures
        r == (if exit_success == Some(true) { PeerState::Online } else { PeerState::Offline }),
{
    match exit_success {
        Some(true) => PeerState::Online,
        _ => PeerState::Offline,
    }
}

/// The arguments of `ping` that check whether the peer is reachable.
pub fn ping_args(ip: &str) -> (r: Vec<String>)
    ensures
        str_views(r@) == ping_args_spec(ip@),
{
    let mut r: Vec<String> = Vec::new();
    r.push("-c".to_string());
    r.push("1".to_string());
    r.push("-W".to_string());
    r.push("2".to_string());
    r.push(ip.to_string());
    assert(str_views(r@) =~= ping_args_spec(ip@));
    r
}

/// `s` quoted for a POSIX shell, so that the shell reads it back as one word.
pub fn shell_escape(s: &str) -> (r: String)
    ensures
        r@ == shell_escape_spec(s@),
{
    let v = chars_of(s);
    let mut out: Vec<char> = Vec::new();
    out.push('\'');
    let mut i: usize = 0;
    while i < v.len()
        invariant
            i <= v.len(),
            v@ == s@,
            out@ == seq!['\''] + escape_body(v@.take(i as int)),
        decreases v.len() - i,
    {
        let c = v[i];
        assert(v@.take(i + 1).drop_last() =~= v@.take(i as int));
        if c == '\'' {
            out.push('\'');
            out.push('\\');
            out.push('\'');
            out.push('\'');
        } else {
            out.push(c);
        }
        i = i + 1;
        assert(out@ =~= seq!['\''] + escape_body(v@.take(i as int)));
    }
    assert(v@.take(v.len() as int) =~= v@);
    out.push('\'');
    string_from_chars(&out)
}

/// `user@ip`.
fn login(user: &str, ip: &str) -> (r: String)
    ensures
        r@ == login_spec(user@, ip@),
{
    let a = concat_str(user, "@");
    let r = concat_str(a.as_str(), ip);
    proof {
        reveal_strlit("@");
    }
    assert(r@ =~= login_spec(user@, ip@));
    r
}

/// `user@ip:path`.
fn remote_location(user: &str, ip: &str, path: &str) -> (r: String)
    ensures
        r@ == remote_spec(user@, ip@, path@),
{
    let a = login(user, ip);
    let b = concat_str(a.as_str(), ":");
    let r = concat_str(b.as_str(), path);
    proof {
        reveal_strlit(":");
    }
    assert(r@ =~= remote_spec(user@, ip@, path@));
    r
}

/// Appends `--exclude` and the pattern to `args`, for each pattern in order.
fn push_excludes(args: &mut Vec<String>, excludes: &Vec<String>)
    ensures
        str_views(final(args)@) == str_views(old(args)@) + exclude_args_spec(str_views(excludes@)),
{
    let mut i: usize = 0;
    assert(str_views(excludes@.take(0)) =~= Seq::<Seq<char>>::empty());
    assert(str_views(args@) =~= str_views(old(args)@) + exclude_args_spec(Seq::empty()));
    while i < excludes.len()
        invariant
            i <= excludes.len(),
            str_views(args@) == str_views(old(args)@) + exclude_args_spec(
                str_views(excludes@.take(i as int)),
            ),
        decreases excludes.len() - i,
    {
        let ghost before = args@;
        args.push("--exclude".to_string());
        args.push(excludes[i].clone());
        i = i + 1;
        let ghost ex = str_views(excludes@.take(i as int));
        assert(ex.drop_last() =~= str_views(excludes@.take(i - 1)));
        assert(ex.last() == excludes@[i - 1]@);
        assert(str_views(args@) =~= str_views(before) + seq!["--exclude"@, excludes@[i - 1]@]);
    }
    assert(excludes@.take(excludes.len() as int) =~= excludes@);
}

/// The arguments of `rsync` that send the contents of `local_path` to
/// `remote_path` on the peer, leaving out `excludes`; with `delete`, files
/// gone locally are removed on the peer too.
pub fn rsync_push_args(
    local_path: &str,
    remote_user: &str,
    remote_ip: &str,
    remote_path: &str,
    excludes: &Vec<String>,
    delete: bool,
) -> (r: Vec<String>)
    ensures
        str_views(r@) == push_args_spec(
            local_path@,
            remote_user@,
            remote_ip@,
            remote_path@,
            str_views(excludes@),
            delete,
        ),
{
    let mut args: Vec<String> = Vec::new();
    args.push("-avz".to_string());
    if delete {
        args.push("--delete".to_string());
    }
    args.push("-e".to_string());
    args.push("ssh -o StrictHostKeyChecking=accept-new -o ConnectTimeout=10".to_string());
    let ghost head = str_views(args@);
    assert(head =~= seq!["-avz"@] + (if delete { seq!["--delete"@] } else { Seq::empty() })
        + seq!["-e"@, ssh_command_spec()]);
    push_excludes(&mut args, excludes);
    let lv = chars_of(local_path);
    let src = if lv.len() > 0 && lv[lv.len() - 1] == '/' {
        local_path.to_string()
    } else {
        concat_str(local_path, "/")
    };
    proof {
        reveal_strlit("/");
    }
    assert(src@ =~= with_trailing_slash(local_path@));
    let dest = remote_location(remote_user, remote_ip, remote_path);
    let ghost mid = str_views(args@);
    args.push(src);
    args.push(dest);
    assert(str_views(args@) =~= mid + seq![src@, dest@]);
    args
}

/// The arguments of `rsync` that fetch the contents of `remote_path` on the
/// peer into `local_path`, leaving out `excludes`.
pub fn rsync_pull_args(
    remote_user: &str,
    remote_ip: &str,
    remote_path: &str,
    local_path: &str,
    excludes: &Vec<String>,
) -> (r: Vec<String>)
    ensures
        str_views(r@) == pull_args_spec(
            remote_user@,
            remote_ip@,
            remote_path@,
            local_path@,
            str_views(excludes@),
        ),
{
    let mut args: Vec<String> = Vec::new();
    args.push("-avz".to_string());
    args.push("-e".to_string());
    args.push("ssh -o StrictHostKeyChecking=accept-new -o ConnectTimeout=10".to_string());
    assert(str_views(args@) =~= seq!["-avz"@, "-e"@, ssh_command_spec()]);
    push_excludes(&mut args, excludes);
    let loc = remote_location(remote_user, remote_ip, remote_path);
    let src = concat_str(loc.as_str(), "/");
    let dst = concat_str(local_path, "/");
    proof {
        reveal_strlit("/");
    }
    assert(src@ =~= remote_spec(remote_user@, remote_ip@, remote_path@).push('/'));
    assert(dst@ =~= local_path@.push('/'));
    let ghost mid = str_views(args@);
    args.push(src);
    args.push(dst);
    assert(str_views(args@) =~= mid + seq![src@, dst@]);
    args
}

/// The arguments of `ssh` that run `command` on the peer.
fn ssh_args(remote_user: &str, remote_ip: &str, command: String) -> (r: Vec<String>)
    ensures
        str_views(r@) == ssh_args_spec(remote_user@, remote_ip@, command@),
{
    let mut args: Vec<String> = Vec::new();
    args.push("-o".to_string());
    args.push("StrictHostKeyChecking=accept-new".to_string());
    args.push("-o".to_string());
    args.push("ConnectTimeout=10".to_string());
    args.push(login(remote_user, remote_ip));
    args.push(command);
    assert(str_views(args@) =~= ssh_args_spec(remote_user@, remote_ip@, command@));
    args
}

/// The arguments of `ssh` that create `remote_dir` (and its parents) on the peer.
pub fn mkdir_args(remote_user: &str, remote_ip: &str, remote_dir: &str) -> (r: Vec<String>)
    ensures
        str_views(r@) == ssh_args_spec(
            remote_user@,
            remote_ip@,
            "mkdir -p "@ + shell_escape_spec(remote_dir@),
        ),
{
    let escaped = shell_escape(remote_dir);
    let command = concat_str("mkdir -p ", escaped.as_str());
    ssh_args(remote_user, remote_ip, command)
}

/// The arguments of `rsync` that copy `local_file` into `remote_dir` on the peer.
pub fn transfer_args(local_file: &str, remote_user: &str, remote_ip: &str, remote_dir: &str) -> (r:
    Vec<String>)
    ensures
        str_views(r@) == transfer_args_spec(local_file@, remote_user@, remote_ip@, remote_dir@),
{
    let mut args: Vec<String> = Vec::new();
    args.push("-avz".to_string());
    args.push("--partial".to_string());
    args.push("--progress".to_string());
    args.push("-e".to_string());
    args.push("ssh -o StrictHostKeyChecking=accept-new -o ConnectTimeout=10".to_string());
    args.push(local_file.to_string());
    let loc = remote_location(remote_user, remote_ip, remote_dir);
    let dest = concat_str(loc.as_str(), "/");
    proof {
        reveal_strlit("/");
    }
    assert(dest@ =~= remote_spec(remote_user@, remote_ip@, remote_dir@).push('/'));
    args.push(dest);
    assert(str_views(args@) =~= transfer_args_spec(
        local_file@,
        remote_user@,
        remote_ip@,
        remote_dir@,
    ));
    args
}

/// The arguments of `ssh` that print the SHA-256 of `remote_path` on the peer.
pub fn checksum_args(remote_user: &str, remote_ip: &str, remote_path: &str) -> (r: Vec<String>)
    ensures
        str_views(r@) == ssh_args_spec(
            remote_user@,
            remote_ip@,
            "sha256sum "@ + shell_escape_spec(remote_path@),
        ),
{
    let escaped = shell_escape(remote_path);
    let command = concat_str("sha256sum ", escaped.as_str());
    ssh_args(remote_user, remote_ip, command)
}

/// Whether a character is white space in Unicode.
pub fn is_space(c: char) -> (r: bool)
    ensures
        r == is_space_spec(c),
{
    let n = c as u32;
    (0x9 <= n && n <= 0xd) || n == 0x20 || n == 0x85 || n == 0xa0 || n == 0x1680 || (0x2000 <= n
        && n <= 0x200a) || n == 0x2028 || n == 0x2029 || n == 0x202f || n == 0x205f || n == 0x3000
}

/// The first word of `s` between white space, empty where `s` holds none.
pub fn first_word_of(s: &str) -> (r: String)
    ensures
        r@ == first_word(s@),
{
    let v = chars_of(s);
    let mut a: usize = 0;
    while a < v.len() && is_space(v[a])
        invariant
            a <= v.len(),
            v@ == s@,
            skip_space(v@, 0) == skip_space(v@, a as int),
        decreases v.len() - a,
    {
        a = a + 1;
    }
    let mut b: usize = a;
    while b < v.len() && !is_space(v[b])
        invariant
            a <= b <= v.len(),
            v@ == s@,
            skip_space(v@, 0) == a,
            word_end(v@, a as int) == word_end(v@, b as int),
        decreases v.len() - b,
    {
        b = b + 1;
    }
    let mut w: Vec<char> = Vec::new();
    let mut i: usize = a;
    while i < b
        invariant
            a <= i <= b <= v.len(),
            w@ == v@.subrange(a as int, i as int),
        decreases b - i,
    {
        w.push(v[i]);
        i = i + 1;
        assert(w@ =~= v@.subrange(a as int, i as int));
    }
    string_from_chars(&w)
}

/// Whether the peer's `sha256sum` output names the expected hash: its first
/// word equals `expected_sha256`.
pub fn checksum_matches(stdout: &str, expected_sha256: &str) -> (r: bool)
    ensures
        r == (first_word(stdout@) == expected_sha256@),
{
    let word = first_word_of(stdout);
    str_eq(word.as_str(), expected_sha256)
}


/// Whether the remote copy checked out: `sha256sum` on the peer exited
/// successfully and the first word of what it printed is the expected hash.
pub fn remote_check_passed(exit_success: bool, stdout: &str, expected_sha256: &str) -> (r: bool)
    ensures
        r == (exit_success && first_word(stdout@) == expected_sha256@),
{
    if !exit_success {
        return false;
    }
    checksum_matches(stdout, expected_sha256)
}

/// Whether `args`, from index `at` on, holds `--exclude` and then the pattern
/// itself for each pattern in order.
pub open spec fn passes_excludes_at(args: Seq<Seq<char>>, at: int, excludes: Seq<Seq<char>>) -> bool {
    forall|j: int|
        0 <= j < excludes.len() ==> #[trigger] excludes[j] == args[at + 2 * j + 1] && args[at + 2
            * j] == "--exclude"@
}

/// Each exclude pattern reaches rsync as it stands: for the `j`-th pattern,
/// the word `--exclude` and then the pattern itself, in order, and nothing else.
pub proof fn lemma_excludes_passed_verbatim(excludes: Seq<Seq<char>>)
    ensures
        exclude_args_spec(excludes).len() == 2 * excludes.len(),
        passes_excludes_at(exclude_args_spec(excludes), 0, excludes),
    decreases excludes.len(),
{
    reveal_strlit("--exclude");
    if excludes.len() > 0 {
        let prev = excludes.drop_last();
        lemma_excludes_passed_verbatim(prev);
        let a = exclude_args_spec(excludes);
        let n = excludes.len() - 1;
        assert(a == exclude_args_spec(prev) + seq!["--exclude"@, excludes.last()]);
        assert forall|j: int| 0 <= j < excludes.len() implies #[trigger] excludes[j] == a[0 + 2 * j
            + 1] && a[0 + 2 * j] == "--exclude"@ by {
            if j == n {
                assert(a[2 * j] === "--exclude"@);
                assert(a[2 * j + 1] === excludes.last());
            } else {
                assert(prev[j] === excludes[j]);
                assert(a[2 * j] === exclude_args_spec(prev)[0 + 2 * j]);
                assert(a[2 * j + 1] === exclude_args_spec(prev)[0 + 2 * j + 1]);
            }
        }
        assert(passes_excludes_at(a, 0, excludes));
    } else {
        assert(passes_excludes_at(exclude_args_spec(excludes), 0, excludes));
    }
}

/// The arguments of a push, argument by argument: `-avz`, `--delete` where
/// asked for, `-e` and the ssh command, then `--exclude` and each pattern as it
/// stands, then the local directory with a `/` at its end, then `user@ip:remote`.
pub open spec fn push_layout(
    a: Seq<Seq<char>>,
    local: Seq<char>,
    user: Seq<char>,
    ip: Seq<char>,
    remote: Seq<char>,
    excludes: Seq<Seq<char>>,
    delete: bool,
) -> bool {
    let h: int = if delete { 4 } else { 3 };
    let n = excludes.len() as int;
    &&& a.len() == h + 2 * n + 2
    &&& a[0] == "-avz"@
    &&& delete ==> a[1] == "--delete"@
    &&& a[h - 2] == "-e"@
    &&& a[h - 1] == "ssh -o StrictHostKeyChecking=accept-new -o ConnectTimeout=10"@
    &&& passes_excludes_at(a, h, excludes)
    &&& a[h + 2 * n] == (if local.len() > 0 && local[local.len() - 1] == '/' {
        local
    } else {
        local + seq!['/']
    })
    &&& a[h + 2 * n + 1] == user + seq!['@'] + ip + seq![':'] + remote
}

/// The arguments of a pull, argument by argument: `-avz`, `-e` and the ssh
/// command, then `--exclude` and each pattern as it stands, then
/// `user@ip:remote/`, then the local directory with a `/` added.
pub open spec fn pull_layout(
    a: Seq<Seq<char>>,
    user: Seq<char>,
    ip: Seq<char>,
    remote: Seq<char>,
    local: Seq<char>,
    excludes: Seq<Seq<char>>,
) -> bool {
    let n = excludes.len() as int;
    &&& a.len() == 3 + 2 * n + 2
    &&& a[0] == "-avz"@
    &&& a[1] == "-e"@
    &&& a[2] == "ssh -o StrictHostKeyChecking=accept-new -o ConnectTimeout=10"@
    &&& passes_excludes_at(a, 3, excludes)
    &&& a[3 + 2 * n] == user + seq!['@'] + ip + seq![':'] + remote + seq!['/']
    &&& a[3 + 2 * n + 1] == local + seq!['/']
}

/// Where each argument of a push stands: `-avz`, `--delete` where asked for,
/// `-e` and the ssh command, then `--exclude` and each pattern as it stands,
/// then the local directory with a `/` at its end, then `user@ip:remote`.
pub proof fn lemma_push_args_layout(
    local: Seq<char>,
    user: Seq<char>,
    ip: Seq<char>,
    remote: Seq<char>,
    excludes: Seq<Seq<char>>,
    delete: bool,
)
    ensures
        push_layout(push_args_spec(local, user, ip, remote, excludes, delete), local, user, ip,
            remote, excludes, delete),
{
    lemma_excludes_passed_verbatim(excludes);
    let a = push_args_spec(local, user, ip, remote, excludes, delete);
    let e = exclude_args_spec(excludes);
    let h: int = if delete { 4 } else { 3 };
    let n = excludes.len() as int;
    let pre = seq!["-avz"@] + (if delete { seq!["--delete"@] } else { Seq::<Seq<char>>::empty() })
        + seq!["-e"@, ssh_command_spec()];
    let tail = seq![with_trailing_slash(local), remote_spec(user, ip, remote)];
    assert(pre.len() == h);
    assert(a == pre + e + tail);
    assert forall|k: int| 0 <= k < 2 * n implies a[h + k] == e[k] by {}
    assert(a[h + 2 * n] == tail[0]);
    assert(a[h + 2 * n + 1] == tail[1]);
    assert(remote_spec(user, ip, remote) =~= user + seq!['@'] + ip + seq![':'] + remote);
    assert(a[0] == "-avz"@);
    assert(a[h - 2] == "-e"@);
    assert forall|j: int| 0 <= j < n implies #[trigger] excludes[j] == a[h + 2 * j + 1] && a[h + 2
        * j] == "--exclude"@ by {
        assert(a[h + 2 * j] == e[2 * j]);
        assert(a[h + 2 * j + 1] == e[2 * j + 1]);
    }
    assert(a[h + 2 * n] == with_trailing_slash(local));
    assert(local.push('/') =~= local + seq!['/']);
}

/// Where each argument of a pull stands: `-avz`, `-e` and the ssh command,
/// then `--exclude` and each pattern as it stands, then `user@ip:remote/`,
/// then the local directory with a `/` added.
pub proof fn lemma_pull_args_layout(
    user: Seq<char>,
    ip: Seq<char>,
    remote: Seq<char>,
    local: Seq<char>,
    excludes: Seq<Seq<char>>,
)
    ensures
        pull_layout(pull_args_spec(user, ip, remote, local, excludes), user, ip, remote, local,
            excludes),
{
    lemma_excludes_passed_verbatim(excludes);
    let a = pull_args_spec(user, ip, remote, local, excludes);
    let e = exclude_args_spec(excludes);
    let n = excludes.len() as int;
    let pre = seq!["-avz"@, "-e"@, ssh_command_spec()];
    let tail = seq![remote_spec(user, ip, remote).push('/'), local.push('/')];
    assert(a == pre + e + tail);
    assert forall|k: int| 0 <= k < 2 * n implies a[3 + k] == e[k] by {}
    assert(a[3 + 2 * n] == tail[0]);
    assert(a[3 + 2 * n + 1] == tail[1]);
    assert forall|j: int| 0 <= j < n implies #[trigger] excludes[j] == a[3 + 2 * j + 1] && a[3 + 2
        * j] == "--exclude"@ by {
        assert(a[3 + 2 * j] == e[2 * j]);
        assert(a[3 + 2 * j + 1] == e[2 * j + 1]);
    }
    assert(remote_spec(user, ip, remote).push('/') =~= user + seq!['@'] + ip + seq![':'] + remote
        + seq!['/']);
    assert(local.push('/') =~= local + seq!['/']);
}

/// Whether a character ends a word for a POSIX shell.
pub open spec fn is_blank(c: char) -> bool {
    c == ' ' || c == '\t' || c == '\n'
}

/// A POSIX shell reading the rest of one word from inside single quotes:
/// everything up to the next `'` is taken as it stands. `None` where the quote
/// is never closed or the text is more than one word.
pub open spec fn read_quoted(t: Seq<char>) -> Option<Seq<char>>
    decreases t.len(), 0int,
{
    if t.len() == 0 {
        None
    } else if t[0] == '\'' {
        read_unquoted(t.drop_first())
    } else {
        match read_quoted(t.drop_first()) {
            Some(w) => Some(seq![t[0]] + w),
            None => None,
        }
    }
}

/// A POSIX shell reading one word outside quotes, where `'` opens a quote and
/// `\` takes the next character as it stands. `None` where the text is not
/// exactly one word (a blank, an unclosed quote, a trailing `\`), or holds
/// another character the shell treats specially.
pub open spec fn read_unquoted(t: Seq<char>) -> Option<Seq<char>>
    decreases t.len(), 1int,
{
    if t.len() == 0 {
        Some(Seq::empty())
    } else if t[0] == '\'' {
        read_quoted(t.drop_first())
    } else if t[0] == '\\' {
        if t.len() < 2 {
            None
        } else {
            match read_unquoted(t.subrange(2, t.len() as int)) {
                Some(w) => Some(seq![t[1]] + w),
                None => None,
            }
        }
    } else if is_blank(t[0]) || t[0] == '"' || t[0] == '$' || t[0] == '`' || t[0] == ';' || t[0]
        == '&' || t[0] == '|' || t[0] == '<' || t[0] == '>' || t[0] == '(' || t[0] == ')' || t[0]
        == '*' || t[0] == '?' || t[0] == '[' || t[0] == '#' || t[0] == '~' {
        None
    } else {
        match read_unquoted(t.drop_first()) {
            Some(w) => Some(seq![t[0]] + w),
            None => None,
        }
    }
}

proof fn lemma_escape_body_append(a: Seq<char>, b: Seq<char>)
    ensures
        escape_body(a + b) == escape_body(a) + escape_body(b),
    decreases b.len(),
{
    if b.len() == 0 {
        assert(a + b =~= a);
        assert(escape_body(b) =~= Seq::<char>::empty());
        assert(escape_body(a) + escape_body(b) =~= escape_body(a));
    } else {
        lemma_escape_body_append(a, b.drop_last());
        assert((a + b).drop_last() =~= a + b.drop_last());
        assert((a + b).last() == b.last());
        let tail = if b.last() == '\'' {
            seq!['\'', '\\', '\'', '\'']
        } else {
            seq![b.last()]
        };
        assert(escape_body(a + b) =~= escape_body(a) + escape_body(b.drop_last()) + tail);
        assert(escape_body(b) =~= escape_body(b.drop_last()) + tail);
    }
}

proof fn lemma_read_escaped(s: Seq<char>, rest: Seq<char>)
    ensures
        read_quoted(escape_body(s) + rest) == match read_quoted(rest) {
            Some(w) => Some(s + w),
            None => None::<Seq<char>>,
        },
    decreases s.len(),
{
    if s.len() == 0 {
        assert(escape_body(s) + rest =~= rest);
        match read_quoted(rest) {
            Some(w) => {
                assert(s + w =~= w);
            },
            None => {},
        }
    } else {
        let c = s[0];
        let tail = s.drop_first();
        lemma_escape_body_append(seq![c], tail);
        assert(seq![c] + tail =~= s);
        assert(seq![c].drop_last() =~= Seq::<char>::empty());
        assert(escape_body(Seq::<char>::empty()) =~= Seq::<char>::empty());
        lemma_read_escaped(tail, rest);
        let t = escape_body(s) + rest;
        let inner = escape_body(tail) + rest;
        if c == '\'' {
            assert(escape_body(seq![c]) =~= seq!['\'', '\\', '\'', '\'']);
            assert(t =~= seq!['\'', '\\', '\'', '\''] + inner);
            let u = t.drop_first();
            assert(u =~= seq!['\\', '\'', '\''] + inner);
            let v = u.subrange(2, u.len() as int);
            assert(v =~= seq!['\''] + inner);
            assert(v.drop_first() =~= inner);
            assert(read_unquoted(v) == read_quoted(inner));
            assert(u[0] == '\\' && u[1] == '\'');
            assert(read_unquoted(u) == match read_unquoted(v) {
                Some(w) => Some(seq!['\''] + w),
                None => None::<Seq<char>>,
            });
            assert(read_quoted(t) == read_unquoted(u));
        } else {
            assert(escape_body(seq![c]) =~= seq![c]);
            assert(t =~= seq![c] + inner);
            assert(t.drop_first() =~= inner);
            assert(t[0] == c);
            assert(read_quoted(t) == match read_quoted(inner) {
                Some(w) => Some(seq![c] + w),
                None => None::<Seq<char>>,
            });
        }
        match read_quoted(rest) {
            Some(w) => {
                assert(seq![c] + (tail + w) =~= s + w);
            },
            None => {},
        }
    }
}

/// A POSIX shell reads back what `shell_escape` writes as exactly the
/// original text, as one word, whatever characters it holds.
pub proof fn lemma_shell_escape_reads_back(s: Seq<char>)
    ensures
        read_unquoted(shell_escape_spec(s)) == Some(s),
{
    let t = shell_escape_spec(s);
    assert(t.drop_first() =~= escape_body(s) + seq!['\'']);
    lemma_read_escaped(s, seq!['\'']);
    assert(seq!['\''].drop_first() =~= Seq::<char>::empty());
    assert(read_unquoted(Seq::<char>::empty()) == Some(Seq::<char>::empty()));
    assert(s + Seq::<char>::empty() =~= s);
}

} // verus!
