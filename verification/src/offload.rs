//! Which files are offloaded, where on the peer they go, and what happens to
//! the local copy afterwards.

use vstd::prelude::*;
use crate::config::OffloadConfig;
use crate::path::{
    components, components_of, expand_tilde_spec, expand_tilde_with_home, file_name_spec,
    first_kept_from, first_kept_from_of, keep_part, last_kept_before, last_kept_before_of,
    leading_component, leading_component_of, normal_parts_of, raw_pieces, raw_pieces_of, views,
};
use crate::net::{first_word, is_space_spec, skip_space, str_views, word_end};
use crate::text::{chars_eq, chars_of};

verus! {

/// Whether `name` ends with `suffix`.
pub open spec fn ends_with(name: Seq<char>, suffix: Seq<char>) -> bool {
    suffix.len() <= name.len() && name.subrange(name.len() - suffix.len(), name.len() as int)
        == suffix
}

/// Whether a file name matches one pattern: `*.ext` matches names ending in
/// `.ext`; any other pattern matches only the name equal to it.
pub open spec fn pattern_matches(name: Seq<char>, pat: Seq<char>) -> bool {
    if pat.len() >= 2 && pat[0] == '*' && pat[1] == '.' {
        ends_with(name, pat.subrange(1, pat.len() as int))
    } else {
        name == pat
    }
}

/// The file name of a path, empty where it has none.
pub open spec fn name_or_empty(path: Seq<char>) -> Seq<char> {
    match file_name_spec(path) {
        Some(n) => n,
        None => Seq::empty(),
    }
}

/// Whether the file name of `path` matches one of `patterns`.
pub open spec fn matches_patterns_spec(path: Seq<char>, patterns: Seq<Seq<char>>) -> bool {
    exists|i: int| 0 <= i < patterns.len() && #[trigger] pattern_matches(name_or_empty(path), patterns[i])
}

/// Whether some component of `path` equals one of `excludes`.
pub open spec fn is_excluded_spec(path: Seq<char>, excludes: Seq<Seq<char>>) -> bool {
    exists|i: int, j: int|
        0 <= i < components(path).len() && 0 <= j < excludes.len() && #[trigger] components(path)[i]
            == #[trigger] excludes[j]
}

/// A pattern that does not start with `*.` matches a file name exactly when
/// the name is that pattern, character for character.
pub proof fn lemma_plain_pattern_matches_only_its_name(name: Seq<char>, pat: Seq<char>)
    requires
        !(pat.len() >= 2 && pat[0] == '*' && pat[1] == '.'),
    ensures
        pattern_matches(name, pat) <==> (name.len() == pat.len() && forall|k: int|
            0 <= k < pat.len() ==> name[k] == pat[k]),
{
    if name.len() == pat.len() && forall|k: int| 0 <= k < pat.len() ==> name[k] == pat[k] {
        assert(name =~= pat);
    }
}

/// A pattern `*.ext` matches a file name exactly when the name ends with
/// `.ext`: its last characters are the pattern without the leading `*`.
pub proof fn lemma_extension_pattern_matches_suffix(name: Seq<char>, pat: Seq<char>)
    requires
        pat.len() >= 2 && pat[0] == '*' && pat[1] == '.',
    ensures
        pattern_matches(name, pat) <==> (pat.len() - 1 <= name.len() && forall|k: int|
            1 <= k < pat.len() ==> name[name.len() - pat.len() + k] == pat[k]),
{
    let suf = pat.subrange(1, pat.len() as int);
    let n = name.len() as int;
    let m = pat.len() as int;
    if pattern_matches(name, pat) {
        assert forall|k: int| 1 <= k < m implies name[n - m + k] == pat[k] by {
            assert(name.subrange(n - suf.len(), n)[k - 1] == suf[k - 1]);
        }
    }
    if m - 1 <= n && forall|k: int| 1 <= k < m ==> name[n - m + k] == pat[k] {
        assert(name.subrange(n - suf.len(), n) =~= suf) by {
            assert forall|q: int| 0 <= q < suf.len() implies name.subrange(n - suf.len(), n)[q]
                == suf[q] by {
                assert(name[n - m + (q + 1)] == pat[q + 1]);
            }
        }
    }
}

/// The file name of a path matches a list of patterns exactly when some
/// pattern `*.ext` is a suffix `.ext` of the name, or some other pattern is
/// the name itself.
pub proof fn lemma_matches_patterns_meaning(path: Seq<char>, patterns: Seq<Seq<char>>)
    ensures
        matches_patterns_spec(path, patterns) <==> exists|i: int|
            0 <= i < patterns.len() && #[trigger] name_matches_pattern(name_or_empty(path), patterns[i]),
{
    let name = name_or_empty(path);
    assert forall|i: int| 0 <= i < patterns.len() implies pattern_matches(name, patterns[i])
        == #[trigger] name_matches_pattern(name, patterns[i]) by {
        let pat = patterns[i];
        if pat.len() >= 2 && pat[0] == '*' && pat[1] == '.' {
            lemma_extension_pattern_matches_suffix(name, pat);
        } else {
            lemma_plain_pattern_matches_only_its_name(name, pat);
        }
    }
    if matches_patterns_spec(path, patterns) {
        let i = choose|i: int| 0 <= i < patterns.len() && #[trigger] pattern_matches(name, patterns[i]);
        assert(name_matches_pattern(name, patterns[i]));
    }
    if exists|i: int| 0 <= i < patterns.len() && #[trigger] name_matches_pattern(name, patterns[i]) {
        let i = choose|i: int| 0 <= i < patterns.len() && #[trigger] name_matches_pattern(name, patterns[i]);
        assert(pattern_matches(name, patterns[i]));
    }
}

/// What a pattern means, written out character by character: `*.ext` asks
/// for a name whose last characters are `.ext`; any other pattern asks for
/// exactly that name.
pub open spec fn name_matches_pattern(name: Seq<char>, pat: Seq<char>) -> bool {
    if pat.len() >= 2 && pat[0] == '*' && pat[1] == '.' {
        pat.len() - 1 <= name.len() && forall|k: int|
            1 <= k < pat.len() ==> name[name.len() - pat.len() + k] == pat[k]
    } else {
        name.len() == pat.len() && forall|k: int| 0 <= k < pat.len() ==> name[k] == pat[k]
    }
}

/// Whether `name` ends with `suffix`.
fn ends_with_chars(name: &Vec<char>, suffix: &Vec<char>) -> (r: bool)
    ensures
        r == ends_with(name@, suffix@),
{
    if suffix.len() > name.len() {
        return false;
    }
    let off = name.len() - suffix.len();
    let mut i: usize = 0;
    while i < suffix.len()
        invariant
            off + suffix.len() == name.len(),
            i <= suffix.len(),
            forall|k: int| 0 <= k < i ==> name@[off + k] == suffix@[k],
        decreases suffix.len() - i,
    {
        if name[off + i] != suffix[i] {
            assert(name@.subrange(off as int, name.len() as int)[i as int] != suffix@[i as int]);
            return false;
        }
        i = i + 1;
    }
    assert(name@.subrange(off as int, name.len() as int) =~= suffix@);
    true
}

/// Whether the file name `name` matches the pattern `pat`.
fn pattern_matches_chars(name: &Vec<char>, pat: &Vec<char>) -> (r: bool)
    ensures
        r == pattern_matches(name@, pat@),
{
    if pat.len() >= 2 && pat[0] == '*' && pat[1] == '.' {
        let mut suffix: Vec<char> = Vec::new();
        let mut i: usize = 1;
        while i < pat.len()
            invariant
                1 <= i <= pat.len(),
                suffix@ == pat@.subrange(1, i as int),
            decreases pat.len() - i,
        {
            suffix.push(pat[i]);
            i = i + 1;
            assert(suffix@ =~= pat@.subrange(1, i as int));
        }
        ends_with_chars(name, &suffix)
    } else {
        chars_eq(name, pat)
    }
}

/// Whether the file name of `path` matches one of `patterns`: a pattern
/// `*.ext` matches names ending in `.ext`, any other pattern only the name
/// equal to it. A path without a file name has the empty name.
pub fn matches_patterns(path: &str, patterns: &[String]) -> (r: bool)
    ensures
        r == matches_patterns_spec(path@, str_views(patterns@)),
{
    let pv = chars_of(path);
    let parts = normal_parts_of(&pv);
    let mut name: Vec<char> = Vec::new();
    if parts.len() > 0 {
        let mut dots: Vec<char> = Vec::new();
        dots.push('.');
        dots.push('.');
        assert(dots@ =~= seq!['.', '.']);
        let last = &parts[parts.len() - 1];
        assert(views(parts@).last() == last@);
        if !chars_eq(last, &dots) {
            name = last.clone();
        }
    }
    assert(name@ == name_or_empty(path@));
    let mut i: usize = 0;
    while i < patterns.len()
        invariant
            i <= patterns@.len(),
            name@ == name_or_empty(path@),
            forall|k: int| 0 <= k < i ==> !pattern_matches(name@, #[trigger] str_views(patterns@)[k]),
        decreases patterns.len() - i,
    {
        let pat = chars_of(patterns[i].as_str());
        if pattern_matches_chars(&name, &pat) {
            assert(pattern_matches(name_or_empty(path@), str_views(patterns@)[i as int]));
            return true;
        }
        i = i + 1;
    }
    false
}

/// Whether some component of `path` equals one of `excludes`; the root is the
/// component `/`, and a leading current directory the component `.`.
pub fn is_excluded(path: &str, excludes: &[String]) -> (r: bool)
    ensures
        r == is_excluded_spec(path@, str_views(excludes@)),
{
    let pv = chars_of(path);
    let comps = components_of(&pv);
    let ghost cs = components(path@);
    assert(views(comps@) == cs);
    let mut ex: Vec<Vec<char>> = Vec::new();
    let mut j: usize = 0;
    while j < excludes.len()
        invariant
            j <= excludes@.len(),
            views(ex@) == str_views(excludes@).take(j as int),
        decreases excludes.len() - j,
    {
        let ghost before = ex@;
        let e = chars_of(excludes[j].as_str());
        ex.push(e);
        j = j + 1;
        assert(views(ex@) =~= views(before).push(excludes@[j - 1]@));
        assert(str_views(excludes@).take(j as int) =~= str_views(excludes@).take(j - 1).push(excludes@[j - 1]@));
    }
    assert(str_views(excludes@).take(excludes@.len() as int) =~= str_views(excludes@));
    let mut i: usize = 0;
    while i < comps.len()
        invariant
            i <= comps@.len(),
            views(comps@) == cs,
            cs == components(path@),
            views(ex@) == str_views(excludes@),
            forall|a: int, b: int| 0 <= a < i && 0 <= b < ex@.len() ==> cs[a] != str_views(excludes@)[b],
        decreases comps.len() - i,
    {
        let mut k: usize = 0;
        while k < ex.len()
            invariant
                i < comps@.len(),
                k <= ex@.len(),
                views(comps@) == cs,
                cs == components(path@),
                views(ex@) == str_views(excludes@),
                forall|a: int, b: int| 0 <= a < i && 0 <= b < ex@.len() ==> cs[a] != str_views(excludes@)[b],
                forall|b: int| 0 <= b < k ==> cs[i as int] != str_views(excludes@)[b],
            decreases ex.len() - k,
        {
            if chars_eq(&comps[i], &ex[k]) {
                assert(components(path@)[i as int] == str_views(excludes@)[k as int]);
                assert(is_excluded_spec(path@, str_views(excludes@)));
                return true;
            }
            k = k + 1;
        }
        i = i + 1;
    }
    false
}


/// A file chosen for offloading, its size, and why it was chosen.
pub struct OffloadCandidate {
    pub path: String,
    pub size_bytes: u64,
    pub reason: &'static str,
}

/// A regular file found under a watched directory, with its size.
pub struct FoundFile {
    pub path: String,
    pub size_bytes: u64,
}

/// Why a file is offloaded, if it is: not where a component of its path is
/// excluded; by pattern where its name matches one; else by size where it
/// exceeds `min_bytes`.
pub open spec fn candidate_reason(
    path: Seq<char>,
    size: u64,
    always: Seq<Seq<char>>,
    exclude: Seq<Seq<char>>,
    min_bytes: int,
) -> Option<Seq<char>> {
    if is_excluded_spec(path, exclude) {
        None
    } else if matches_patterns_spec(path, always) {
        Some("pattern match"@)
    } else if size > min_bytes {
        Some("size threshold"@)
    } else {
        None
    }
}

/// The candidates among `files`, in the order found: each file that has a
/// reason, with its size and that reason.
pub open spec fn candidates_spec(
    files: Seq<FoundFile>,
    always: Seq<Seq<char>>,
    exclude: Seq<Seq<char>>,
    min_bytes: int,
) -> Seq<(Seq<char>, u64, Seq<char>)>
    decreases files.len(),
{
    if files.len() == 0 {
        Seq::empty()
    } else {
        let prev = candidates_spec(files.drop_last(), always, exclude, min_bytes);
        let f = files.last();
        match candidate_reason(f.path@, f.size_bytes, always, exclude, min_bytes) {
            Some(r) => prev.push((f.path@, f.size_bytes, r)),
            None => prev,
        }
    }
}

/// The views of candidates: path, size and reason.
pub open spec fn candidate_views(c: Seq<OffloadCandidate>) -> Seq<(Seq<char>, u64, Seq<char>)> {
    c.map_values(|x: OffloadCandidate| (x.path@, x.size_bytes, x.reason@))
}

/// A size in MB, in bytes.
pub fn min_size_bytes(mb: u64) -> (r: u64)
    requires
        mb * 1048576 <= u64::MAX,
    ensures
        r == mb * 1048576,
{
    mb * 1024 * 1024
}

/// The files among `found` (in the order they were found under the watched
/// directories) that are offloaded: those with no excluded component, whose
/// name matches one of `always_offload` or whose size exceeds `min_size_mb`.
pub fn scan_candidates(config: &OffloadConfig, found: &Vec<FoundFile>) -> (r: Vec<OffloadCandidate>)
    requires
        config.min_size_mb * 1048576 <= u64::MAX,
    ensures
        candidate_views(r@) == candidates_spec(
            found@,
            str_views(config.always_offload@),
            str_views(config.exclude@),
            config.min_size_mb * 1048576,
        ),
{
    let min_bytes = min_size_bytes(config.min_size_mb);
    let ghost always = str_views(config.always_offload@);
    let ghost exclude = str_views(config.exclude@);
    let mut out: Vec<OffloadCandidate> = Vec::new();
    let mut i: usize = 0;
    while i < found.len()
        invariant
            i <= found@.len(),
            min_bytes == config.min_size_mb * 1048576,
            always == str_views(config.always_offload@),
            exclude == str_views(config.exclude@),
            candidate_views(out@) == candidates_spec(found@.take(i as int), always, exclude, min_bytes as int),
        decreases found.len() - i,
    {
        let f = &found[i];
        let ghost before = out@;
        assert(found@.take(i + 1).drop_last() =~= found@.take(i as int));
        assert(found@.take(i + 1).last() == *f);
        if !is_excluded(f.path.as_str(), config.exclude.as_slice()) {
            if matches_patterns(f.path.as_str(), config.always_offload.as_slice()) {
                out.push(OffloadCandidate { path: f.path.clone(), size_bytes: f.size_bytes, reason: "pattern match" });
                assert(candidate_views(out@) =~= candidate_views(before).push((f.path@, f.size_bytes, "pattern match"@)));
            } else if f.size_bytes > min_bytes {
                out.push(OffloadCandidate { path: f.path.clone(), size_bytes: f.size_bytes, reason: "size threshold" });
                assert(candidate_views(out@) =~= candidate_views(before).push((f.path@, f.size_bytes, "size threshold"@)));
            }
        }
        i = i + 1;
    }
    assert(found@.take(found@.len() as int) =~= found@);
    out
}


/// Matching the pieces of a base path against those of a path from the
/// front, as `Path::strip_prefix` does, skipping empty and `.` pieces on both
/// sides: where every named piece of the base is matched in turn, the index in
/// `pb` just after the last piece matched (`i` where there was none); `None`
/// where two named pieces differ or the path runs out first.
pub open spec fn strip_from(pb: Seq<Seq<char>>, hb: Seq<Seq<char>>, i: int, j: int) -> Option<int>
    decreases (pb.len() - i) + (hb.len() - j),
{
    if i < 0 || j < 0 || i > pb.len() || j > hb.len() {
        None
    } else if j == hb.len() {
        Some(i)
    } else if !keep_part(hb[j]) {
        strip_from(pb, hb, i, j + 1)
    } else if i == pb.len() {
        None
    } else if !keep_part(pb[i]) {
        strip_from(pb, hb, i + 1, j)
    } else if pb[i] == hb[j] {
        strip_from(pb, hb, i + 1, j + 1)
    } else {
        None
    }
}

/// Pieces written with `/` between them.
pub open spec fn join_parts(cs: Seq<Seq<char>>) -> Seq<char>
    decreases cs.len(),
{
    if cs.len() == 0 {
        Seq::empty()
    } else if cs.len() == 1 {
        cs[0]
    } else {
        join_parts(cs.drop_last()) + seq!['/'] + cs.last()
    }
}

/// Where `path` lies below `home` (same leading component, every named piece
/// of `home` matched), the index of the first piece of `path` after `home`.
pub open spec fn below_home_from(path: Seq<char>, home: Seq<char>) -> Option<int> {
    if leading_component(home) == leading_component(path) {
        strip_from(raw_pieces(path), raw_pieces(home), 0, 0)
    } else {
        None
    }
}

/// The text of the directory of `path` relative to `home`, as
/// `Path::strip_prefix` (falling back to the whole path) and `Path::parent`
/// leave it: the text between the first named piece after `home` and the
/// named piece before the file's own, as written (so an inner `.` or doubled
/// `/` stays); where `path` is not below `home`, the path as written up to
/// that piece, or only its leading `/` or `.` where there is none; empty where
/// no such piece exists.
pub open spec fn relative_parent(path: Seq<char>, home: Seq<char>) -> Seq<char> {
    let pb = raw_pieces(path);
    let e = last_kept_before(pb, pb.len() as int);
    let i = last_kept_before(pb, e);
    match below_home_from(path, home) {
        Some(st) => if e < st || i < st {
            Seq::empty()
        } else {
            join_parts(pb.subrange(first_kept_from(pb, st), i + 1))
        },
        None => if e < 0 {
            Seq::empty()
        } else if i < 0 {
            path.subrange(0, leading_component(path).len() as int)
        } else {
            join_parts(pb.subrange(0, i + 1))
        },
    }
}

/// The directory in the vault that a file goes to: the vault, `/`, and the
/// file's directory relative to the home directory.
pub open spec fn remote_dir_spec(path: Seq<char>, vault: Seq<char>, home: Seq<char>) -> Seq<char> {
    vault + seq!['/'] + relative_parent(path, home)
}

/// Where an offloaded file goes on the peer.
pub struct OffloadTarget {
    pub remote_dir: String,
    pub remote_file: String,
    pub file_name: String,
}

/// Why no target can be given for a file.
#[derive(Debug, Clone, Copy, PartialEq, Eq, Structural)]
pub enum TargetError {
    NoHomeDirectory,
    NoFileName,
}

/// Where the pieces of `pb` match those of `hb` as a base, the index just
/// after the match.
fn strip_from_of(pb: &Vec<Vec<char>>, hb: &Vec<Vec<char>>) -> (r: Option<usize>)
    ensures
        match r {
            Some(x) => strip_from(views(pb@), views(hb@), 0, 0) == Some(x as int),
            None => strip_from(views(pb@), views(hb@), 0, 0) is None,
        },
{
    let ghost p = views(pb@);
    let ghost h = views(hb@);
    let mut i: usize = 0;
    let mut j: usize = 0;
    while true
        invariant
            i <= pb@.len(),
            j <= hb@.len(),
            p == views(pb@),
            h == views(hb@),
            strip_from(p, h, 0, 0) == strip_from(p, h, i as int, j as int),
        decreases (pb@.len() - i) + (hb@.len() - j),
    {
        if j == hb.len() {
            return Some(i);
        }
        assert(h[j as int] == hb@[j as int]@);
        if !crate::path::keep_part_of(&hb[j]) {
            j = j + 1;
        } else if i == pb.len() {
            return None;
        } else {
            assert(p[i as int] == pb@[i as int]@);
            if !crate::path::keep_part_of(&pb[i]) {
                i = i + 1;
            } else if chars_eq(&pb[i], &hb[j]) {
                i = i + 1;
                j = j + 1;
            } else {
                return None;
            }
        }
    }
    None
}

/// The prefix of `cs` from `start` to `end`, written with `/` between components.
fn join_parts_of(cs: &Vec<Vec<char>>, start: usize, end: usize) -> (r: Vec<char>)
    requires
        start <= end <= cs@.len(),
    ensures
        r@ == join_parts(views(cs@).subrange(start as int, end as int)),
{
    let mut out: Vec<char> = Vec::new();
    let mut i: usize = start;
    assert(views(cs@).subrange(start as int, start as int) =~= Seq::<Seq<char>>::empty());
    while i < end
        invariant
            start <= i <= end <= cs@.len(),
            out@ == join_parts(views(cs@).subrange(start as int, i as int)),
        decreases end - i,
    {
        let ghost sub = views(cs@).subrange(start as int, i + 1);
        assert(sub.drop_last() =~= views(cs@).subrange(start as int, i as int));
        assert(sub.last() == cs@[i as int]@);
        if i > start {
            out.push('/');
        } else {
            assert(sub.len() == 1);
            assert(out@ =~= Seq::<char>::empty());
        }
        crate::text::push_all(&mut out, &cs[i]);
        i = i + 1;
        assert(out@ =~= join_parts(sub));
    }
    out
}

/// Where a file goes in the vault on the peer, given the expanded vault path
/// and the home directory; `None` where the path has no file name.
#[verifier::spinoff_prover]
#[verifier::rlimit(40)]
pub fn offload_target_with_home(path: &str, vault: &str, home: &str) -> (r: Option<OffloadTarget>)
    ensures
        r is None <==> file_name_spec(path@) is None,
        r matches Some(t) ==> {
            &&& t.remote_dir@ == remote_dir_spec(path@, vault@, home@)
            &&& file_name_spec(path@) == Some(t.file_name@)
            &&& t.remote_file@ == t.remote_dir@ + seq!['/'] + t.file_name@
        },
{
    let name = match crate::path::file_name(path) {
        Some(n) => n,
        None => return None,
    };
    let pv = chars_of(path);
    let hv = chars_of(home);
    let pb = raw_pieces_of(&pv);
    let hb = raw_pieces_of(&hv);
    let ghost pbs = views(pb@);
    let pl = leading_component_of(&pv);
    let hl = leading_component_of(&hv);
    let same_lead = pl.len() == hl.len() && (pl.len() == 0 || chars_eq(&pl[0], &hl[0]));
    proof {
        if pl.len() == hl.len() && pl.len() > 0 && views(pl@) == views(hl@) {
            assert(views(pl@)[0] == pl@[0]@);
            assert(views(hl@)[0] == hl@[0]@);
        }
        if same_lead {
            assert(views(pl@) =~= views(hl@));
        }
        if views(pl@) == views(hl@) {
            assert(views(pl@).len() == pl@.len());
            if pl.len() > 0 {
                assert(views(pl@)[0] == pl@[0]@);
                assert(views(hl@)[0] == hl@[0]@);
            }
        }
    }
    assert(same_lead == (leading_component(home@) == leading_component(path@)));
    let st = if same_lead { strip_from_of(&pb, &hb) } else { None };
    assert(match st {
        Some(x) => below_home_from(path@, home@) == Some(x as int),
        None => below_home_from(path@, home@) is None,
    });
    let mut dir = chars_of(vault);
    dir.push('/');
    let ghost base = dir@;
    let e = last_kept_before_of(&pb, pb.len());
    match st {
        Some(st) => {
            if let Some(e) = e {
                if e >= st {
                    let i = last_kept_before_of(&pb, e);
                    if let Some(i) = i {
                        if i >= st {
                            proof {
                                crate::path::lemma_first_kept_from_le(pbs, st as int, i as int);
                            }
                            let s = first_kept_from_of(&pb, st);
                            let rest = join_parts_of(&pb, s, i + 1);
                            crate::text::push_all(&mut dir, &rest);
                        }
                    }
                }
            }
        },
        None => {
            if let Some(e) = e {
                let i = last_kept_before_of(&pb, e);
                match i {
                    Some(i) => {
                        let rest = join_parts_of(&pb, 0, i + 1);
                        crate::text::push_all(&mut dir, &rest);
                    },
                    None => {
                        if pl.len() > 0 {
                            dir.push(pv[0]);
                            assert(path@.subrange(0, 1) =~= seq![pv@[0]]);
                        } else {
                            assert(path@.subrange(0, 0) =~= Seq::<char>::empty());
                        }
                    },
                }
            }
        },
    }
    assert(dir@ =~= base + relative_parent(path@, home@));
    assert(dir@ =~= remote_dir_spec(path@, vault@, home@));
    let mut file = dir.clone();
    file.push('/');
    let nv = chars_of(name.as_str());
    crate::text::push_all(&mut file, &nv);
    Some(OffloadTarget {
        remote_dir: crate::text::string_from_chars(&dir),
        remote_file: crate::text::string_from_chars(&file),
        file_name: name,
    })
}


/// Where a file goes in the vault on the peer, for the current user: the
/// vault path has a leading `~` expanded, and the file keeps its place
/// relative to the home directory. Fails where no home directory can be
/// found, or where the path has no file name.
pub fn offload_target(path: &str, vault_path: &str) -> (r: Result<OffloadTarget, TargetError>)
    ensures
        r matches Err(TargetError::NoFileName) ==> file_name_spec(path@) is None,
        file_name_spec(path@) is None ==> r is Err,
        r matches Ok(t) ==> exists|h: Seq<char>|
            h.len() > 0 && #[trigger] remote_dir_spec(
                path@,
                expand_tilde_spec(vault_path@, h),
                h,
            ) == t.remote_dir@,
        r matches Ok(t) ==> file_name_spec(path@) == Some(t.file_name@) && t.remote_file@
            == t.remote_dir@ + seq!['/'] + t.file_name@,
{
    let home = match crate::config::home_dir() {
        Some(h) => h,
        None => return Err(TargetError::NoHomeDirectory),
    };
    let vault = match expand_tilde_with_home(vault_path, Some(home.as_str())) {
        Some(v) => v,
        None => return Err(TargetError::NoHomeDirectory),
    };
    match offload_target_with_home(path, vault.as_str(), home.as_str()) {
        Some(t) => {
            assert(remote_dir_spec(path@, expand_tilde_spec(vault_path@, home@), home@)
                == t.remote_dir@);
            Ok(t)
        },
        None => Err(TargetError::NoFileName),
    }
}

/// What becomes of the local copy once the transfer is checked.
#[derive(Debug, Clone, Copy, PartialEq, Eq, Structural)]
pub enum OffloadOutcome {
    /// The remote copy matches and the local one is deleted.
    DeleteLocal,
    /// The remote copy matches and the local one is kept.
    KeepLocal,
    /// The remote copy does not match; the local one is kept.
    HashMismatch,
}

/// What becomes of the local copy: it is deleted only where the remote hash
/// matched and deleting after sending is on.
pub fn outcome_after_check(verified: bool, delete_after: bool) -> (r: OffloadOutcome)
    ensures
        r == (if !verified {
            OffloadOutcome::HashMismatch
        } else if delete_after {
            OffloadOutcome::DeleteLocal
        } else {
            OffloadOutcome::KeepLocal
        }),
{
    if !verified {
        OffloadOutcome::HashMismatch
    } else if delete_after {
        OffloadOutcome::DeleteLocal
    } else {
        OffloadOutcome::KeepLocal
    }
}

/// How far the offload of one file has come.
#[derive(Debug, Clone, Copy, PartialEq, Eq, Structural)]
pub enum OffloadStage {
    /// Hashing the local file.
    Hashing,
    /// Working out where the file goes on the peer.
    Locating,
    /// Copying the file to the peer.
    Transferring,
    /// Hashing the remote copy and comparing.
    Checking,
    /// Done; what becomes of the local copy.
    Finished(OffloadOutcome),
    /// A step failed; the local copy is left alone.
    Failed,
}

/// What the last step of an offload came to.
#[derive(Debug, Clone, Copy, PartialEq, Eq, Structural)]
pub enum OffloadEvent {
    /// The step succeeded.
    Succeeded,
    /// The step failed.
    StepFailed,
    /// The remote hash was read; whether it matched the local one.
    Checked(bool),
}

/// The stage after `event`: hashing, locating, transferring and checking follow
/// each other while each succeeds; the check decides the outcome; any
/// failure ends the offload; a finished or failed offload stays so.
pub open spec fn next_stage_spec(stage: OffloadStage, event: OffloadEvent, delete_after: bool) -> OffloadStage {
    match stage {
        OffloadStage::Hashing => if event == OffloadEvent::Succeeded {
            OffloadStage::Locating
        } else {
            OffloadStage::Failed
        },
        OffloadStage::Locating => if event == OffloadEvent::Succeeded {
            OffloadStage::Transferring
        } else {
            OffloadStage::Failed
        },
        OffloadStage::Transferring => if event == OffloadEvent::Succeeded {
            OffloadStage::Checking
        } else {
            OffloadStage::Failed
        },
        OffloadStage::Checking => match event {
            OffloadEvent::Checked(v) => OffloadStage::Finished(
                if !v {
                    OffloadOutcome::HashMismatch
                } else if delete_after {
                    OffloadOutcome::DeleteLocal
                } else {
                    OffloadOutcome::KeepLocal
                },
            ),
            _ => OffloadStage::Failed,
        },
        _ => stage,
    }
}

/// The stage of an offload after `event`.
pub fn next_stage(stage: OffloadStage, event: OffloadEvent, delete_after: bool) -> (r: OffloadStage)
    ensures
        r == next_stage_spec(stage, event, delete_after),
{
    match stage {
        OffloadStage::Hashing => if event == OffloadEvent::Succeeded {
            OffloadStage::Locating
        } else {
            OffloadStage::Failed
        },
        OffloadStage::Locating => if event == OffloadEvent::Succeeded {
            OffloadStage::Transferring
        } else {
            OffloadStage::Failed
        },
        OffloadStage::Transferring => if event == OffloadEvent::Succeeded {
            OffloadStage::Checking
        } else {
            OffloadStage::Failed
        },
        OffloadStage::Checking => match event {
            OffloadEvent::Checked(v) => OffloadStage::Finished(outcome_after_check(v, delete_after)),
            _ => OffloadStage::Failed,
        },
        _ => stage,
    }
}

/// The stage after a run of events.
pub open spec fn run_stages(stage: OffloadStage, events: Seq<OffloadEvent>, delete_after: bool) -> OffloadStage
    decreases events.len(),
{
    if events.len() == 0 {
        stage
    } else {
        run_stages(next_stage_spec(stage, events[0], delete_after), events.drop_first(), delete_after)
    }
}

proof fn lemma_end_stages_stay(stage: OffloadStage, events: Seq<OffloadEvent>, delete_after: bool)
    requires
        stage is Finished || stage is Failed,
    ensures
        run_stages(stage, events, delete_after) == stage,
    decreases events.len(),
{
    if events.len() > 0 {
        lemma_end_stages_stay(stage, events.drop_first(), delete_after);
    }
}

/// A local file is deleted only after its hash, its transfer and a check that
/// found the remote hash equal, in that order, and only where deleting after
/// sending is on: any run of events from the start that ends in deleting
/// begins with three successful steps and a matching check.
pub proof fn lemma_delete_only_after_matching_check(events: Seq<OffloadEvent>, delete_after: bool)
    requires
        run_stages(OffloadStage::Hashing, events, delete_after) == OffloadStage::Finished(
            OffloadOutcome::DeleteLocal,
        ),
    ensures
        delete_after,
        events.len() >= 4,
        events[0] == OffloadEvent::Succeeded,
        events[1] == OffloadEvent::Succeeded,
        events[2] == OffloadEvent::Succeeded,
        events[3] == OffloadEvent::Checked(true),
{
    let e0 = events.drop_first();
    assert(events.len() > 0);
    let s1 = next_stage_spec(OffloadStage::Hashing, events[0], delete_after);
    let fin = OffloadStage::Finished(OffloadOutcome::DeleteLocal);
    assert(run_stages(s1, e0, delete_after) == fin);
    if s1 == OffloadStage::Failed {
        lemma_end_stages_stay(s1, e0, delete_after);
    }
    assert(e0.len() > 0);
    let e1 = e0.drop_first();
    let s2 = next_stage_spec(s1, e0[0], delete_after);
    assert(run_stages(s2, e1, delete_after) == fin);
    if s2 == OffloadStage::Failed {
        lemma_end_stages_stay(s2, e1, delete_after);
    }
    assert(e1.len() > 0);
    let e2 = e1.drop_first();
    let s3 = next_stage_spec(s2, e1[0], delete_after);
    assert(run_stages(s3, e2, delete_after) == fin);
    if s3 == OffloadStage::Failed {
        lemma_end_stages_stay(s3, e2, delete_after);
    }
    assert(e2.len() > 0);
    let e3 = e2.drop_first();
    let s4 = next_stage_spec(s3, e2[0], delete_after);
    assert(run_stages(s4, e3, delete_after) == fin);
    if s4 is Finished || s4 is Failed {
        lemma_end_stages_stay(s4, e3, delete_after);
    }
    assert(e1[0] == events[2]);
    assert(e2[0] == events[3]);
}

/// The SHA-256 digest of a sequence of bytes.
pub uninterp spec fn sha256_spec(data: Seq<u8>) -> Seq<u8>;

/// A SHA-256 computation fed in pieces. It holds a `sha2::Sha256` hasher,
/// whose type Verus cannot declare (it is an alias of nested generic wrappers);
/// what Verus knows of it is the bytes fed to it so far, `sha256_absorbed`.
#[verifier::external_body]
pub struct Sha256Stream {
    inner: sha2::Sha256,
}

/// The bytes fed to a SHA-256 computation so far.
pub uninterp spec fn sha256_absorbed(h: Sha256Stream) -> Seq<u8>;

/// A fresh hasher, `<sha2::Sha256 as Digest>::new`: nothing fed yet.
#[verifier::external_body]
fn sha256_new() -> (h: Sha256Stream)
    ensures
        sha256_absorbed(h) == Seq::<u8>::empty(),
{
    Sha256Stream { inner: <sha2::Sha256 as sha2::Digest>::new() }
}

/// `<sha2::Sha256 as Digest>::update`: the hasher has been fed `chunk` after
/// what it was fed before.
#[verifier::external_body]
fn sha256_update(h: &mut Sha256Stream, chunk: &[u8])
    ensures
        sha256_absorbed(*final(h)) == sha256_absorbed(*old(h)) + chunk@,
{
    sha2::Digest::update(&mut h.inner, chunk)
}

/// `<sha2::Sha256 as Digest>::finalize`: the 32-byte SHA-256 digest of all the
/// bytes fed.
#[verifier::external_body]
fn sha256_finalize(h: Sha256Stream) -> (r: Vec<u8>)
    ensures
        r@ == sha256_spec(sha256_absorbed(h)),
        r@.len() == 32,
{
    sha2::Digest::finalize(h.inner).to_vec()
}

impl Sha256Stream {
    /// A computation that has been fed nothing.
    pub fn new() -> (h: Self)
        ensures
            sha256_absorbed(h) == Seq::<u8>::empty(),
    {
        sha256_new()
    }

    /// Feeds `chunk` after what was fed before.
    pub fn update(&mut self, chunk: &[u8])
        ensures
            sha256_absorbed(*final(self)) == sha256_absorbed(*old(self)) + chunk@,
    {
        sha256_update(self, chunk)
    }

    /// The SHA-256 of all the bytes fed, in lowercase hexadecimal, 64 digits.
    pub fn finish_hex(self) -> (r: String)
        ensures
            r@ == hex_spec(sha256_spec(sha256_absorbed(self))),
            r@.len() == 64,
    {
        let digest = sha256_finalize(self);
        hex_lower(digest.as_slice())
    }
}

/// The lowercase hexadecimal digit for a value below 16.
pub open spec fn hex_digit(d: int) -> char {
    if d < 10 {
        (48 + d) as char
    } else {
        (87 + d) as char
    }
}

/// Bytes in lowercase hexadecimal, two digits per byte, high digit first.
pub open spec fn hex_spec(bytes: Seq<u8>) -> Seq<char>
    decreases bytes.len(),
{
    if bytes.len() == 0 {
        Seq::empty()
    } else {
        hex_spec(bytes.drop_last()) + seq![
            hex_digit(bytes.last() as int / 16),
            hex_digit(bytes.last() as int % 16),
        ]
    }
}

fn hex_digit_of(d: u8) -> (c: char)
    requires
        d < 16,
    ensures
        c == hex_digit(d as int),
{
    if d < 10 {
        (48 + d) as char
    } else {
        (87 + d) as char
    }
}

/// Bytes in lowercase hexadecimal, two digits per byte.
pub fn hex_lower(bytes: &[u8]) -> (r: String)
    ensures
        r@ == hex_spec(bytes@),
        r@.len() == 2 * bytes@.len(),
{
    let mut out: Vec<char> = Vec::new();
    let mut i: usize = 0;
    while i < bytes.len()
        invariant
            i <= bytes@.len(),
            out@ == hex_spec(bytes@.take(i as int)),
            out@.len() == 2 * i,
        decreases bytes.len() - i,
    {
        let b = bytes[i];
        assert(bytes@.take(i + 1).drop_last() =~= bytes@.take(i as int));
        out.push(hex_digit_of(b / 16));
        out.push(hex_digit_of(b % 16));
        i = i + 1;
        assert(out@ =~= hex_spec(bytes@.take(i as int)));
    }
    assert(bytes@.take(bytes@.len() as int) =~= bytes@);
    crate::text::string_from_chars(&out)
}

/// The SHA-256 of `data` in lowercase hexadecimal, 64 digits.
pub fn sha256_hex(data: &[u8]) -> (r: String)
    ensures
        r@ == hex_spec(sha256_spec(data@)),
        r@.len() == 64,
{
    let mut h = Sha256Stream::new();
    h.update(data);
    assert(Seq::<u8>::empty() + data@ =~= data@);
    h.finish_hex()
}


proof fn lemma_hex_has_no_space(bytes: Seq<u8>)
    ensures
        hex_spec(bytes).len() == 2 * bytes.len(),
        forall|i: int| 0 <= i < hex_spec(bytes).len() ==> !is_space_spec(#[trigger] hex_spec(bytes)[i]),
    decreases bytes.len(),
{
    if bytes.len() > 0 {
        let prev = bytes.drop_last();
        lemma_hex_has_no_space(prev);
        let b = bytes.last() as int;
        let hi = hex_digit(b / 16);
        let lo = hex_digit(b % 16);
        assert(!is_space_spec(hi));
        assert(!is_space_spec(lo));
        let h = hex_spec(bytes);
        assert(h =~= hex_spec(prev) + seq![hi, lo]);
        assert forall|i: int| 0 <= i < h.len() implies !is_space_spec(#[trigger] h[i]) by {
            if i < hex_spec(prev).len() {
                assert(h[i] == hex_spec(prev)[i]);
            }
        }
    }
}

proof fn lemma_word_end_at_space(s: Seq<char>, n: int, i: int)
    requires
        0 <= i <= n < s.len(),
        is_space_spec(s[n]),
        forall|k: int| 0 <= k < n ==> !is_space_spec(#[trigger] s[k]),
    ensures
        word_end(s, i) == n,
    decreases n - i,
{
    if i < n {
        lemma_word_end_at_space(s, n, i + 1);
    }
}

/// The line that `sha256sum` prints for a file, its hex digest, a blank and
/// the file's name, is taken as a match by `checksum_matches` against the
/// digest that `hex_lower` writes for the same bytes.
pub proof fn lemma_checksum_line_matches(digest: Seq<u8>, rest: Seq<char>)
    requires
        digest.len() > 0,
    ensures
        first_word(hex_spec(digest) + seq![' '] + rest) == hex_spec(digest),
{
    lemma_hex_has_no_space(digest);
    let h = hex_spec(digest);
    let s = h + seq![' '] + rest;
    assert(s[0] == h[0]);
    assert(!is_space_spec(s[0]));
    assert(skip_space(s, 0) == 0);
    assert(s[h.len() as int] == ' ');
    assert forall|k: int| 0 <= k < h.len() implies !is_space_spec(#[trigger] s[k]) by {
        assert(s[k] == h[k]);
    }
    lemma_word_end_at_space(s, h.len() as int, 0);
    assert(s.subrange(0, h.len() as int) =~= h);
}


proof fn lemma_strip_from_ge(pb: Seq<Seq<char>>, hb: Seq<Seq<char>>, i: int, j: int)
    requires
        strip_from(pb, hb, i, j) is Some,
    ensures
        i <= strip_from(pb, hb, i, j)->0 <= pb.len(),
    decreases (pb.len() - i) + (hb.len() - j),
{
    if i < 0 || j < 0 || i > pb.len() || j > hb.len() {
    } else if j == hb.len() {
    } else if !keep_part(hb[j]) {
        lemma_strip_from_ge(pb, hb, i, j + 1);
    } else if i == pb.len() {
    } else if !keep_part(pb[i]) {
        lemma_strip_from_ge(pb, hb, i + 1, j);
    } else if pb[i] == hb[j] {
        lemma_strip_from_ge(pb, hb, i + 1, j + 1);
    }
}

/// A file below the home directory, whose path after the home directory is
/// written plainly (at least two pieces, none empty or `.`), lands in the
/// vault at that relative path: vault, `/`, and the relative path. (A file
/// directly in the home directory gets an empty directory part instead, as
/// `remote_dir_spec` writes it.)
pub proof fn lemma_remote_file_mirrors_home(
    path: Seq<char>,
    vault: Seq<char>,
    home: Seq<char>,
    name: Seq<char>,
    st: int,
)
    requires
        file_name_spec(path) == Some(name),
        below_home_from(path, home) == Some(st),
        st + 2 <= raw_pieces(path).len(),
        forall|k: int| st <= k < raw_pieces(path).len() ==> #[trigger] keep_part(raw_pieces(path)[k]),
    ensures
        remote_dir_spec(path, vault, home) + seq!['/'] + name == vault + seq!['/'] + join_parts(
            raw_pieces(path).subrange(st, raw_pieces(path).len() as int),
        ),
{
    let pb = raw_pieces(path);
    let n = pb.len() as int;
    lemma_strip_from_ge(pb, raw_pieces(home), 0, 0);
    assert(keep_part(pb[n - 1]));
    assert(keep_part(pb[n - 2]));
    assert(keep_part(pb[st]));
    assert(last_kept_before(pb, n) == n - 1);
    assert(last_kept_before(pb, n - 1) == n - 2);
    assert(first_kept_from(pb, st) == st);
    assert(relative_parent(path, home) == join_parts(pb.subrange(st, n - 1)));
    crate::path::lemma_raw_last_is_open_piece(path);
    assert(name == pb[n - 1]);
    let whole = pb.subrange(st, n);
    assert(whole.drop_last() =~= pb.subrange(st, n - 1));
    assert(join_parts(whole) == join_parts(whole.drop_last()) + seq!['/'] + whole.last());
    assert(remote_dir_spec(path, vault, home) + seq!['/'] + name =~= vault + seq!['/']
        + join_parts(whole));
}

} // verus!
