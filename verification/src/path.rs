//! Paths as strings: their components, file names, `~` expansion and joining,
//! following the rules of Unix paths.

use vstd::prelude::*;
use crate::text::{chars_of, chars_eq, push_all, string_from_chars};

verus! {

/// The views of a sequence of character vectors.
pub open spec fn views(v: Seq<Vec<char>>) -> Seq<Seq<char>> {
    v.map_values(|x: Vec<char>| x@)
}

/// A piece between separators that names something: not empty and not `.`.
pub open spec fn keep_part(s: Seq<char>) -> bool {
    s.len() > 0 && s != seq!['.']
}

/// Scanning `p` from the left: the named pieces closed so far by a `/`, and the
/// piece still open.
pub open spec fn scan_parts(p: Seq<char>) -> (Seq<Seq<char>>, Seq<char>)
    decreases p.len(),
{
    if p.len() == 0 {
        (Seq::empty(), Seq::empty())
    } else {
        let prev = scan_parts(p.drop_last());
        if p.last() == '/' {
            (if keep_part(prev.1) { prev.0.push(prev.1) } else { prev.0 }, Seq::empty())
        } else {
            (prev.0, prev.1.push(p.last()))
        }
    }
}

/// The pieces of `p` between `/` separators that are neither empty nor `.`, in order.
pub open spec fn normal_parts(p: Seq<char>) -> Seq<Seq<char>> {
    let s = scan_parts(p);
    if keep_part(s.1) { s.0.push(s.1) } else { s.0 }
}

/// The component that a path has before its named pieces: `/` for an absolute
/// path, `.` for one that starts with the current directory, none otherwise.
pub open spec fn leading_component(p: Seq<char>) -> Seq<Seq<char>> {
    if p.len() > 0 && p[0] == '/' {
        seq![seq!['/']]
    } else if (p.len() == 1 && p[0] == '.') || (p.len() >= 2 && p[0] == '.' && p[1] == '/') {
        seq![seq!['.']]
    } else {
        Seq::empty()
    }
}

/// The components of a path, each written as text (`/` for the root).
pub open spec fn components(p: Seq<char>) -> Seq<Seq<char>> {
    leading_component(p) + normal_parts(p)
}

/// The last component of a path, where it is a name (not the root, `.` or `..`).
pub open spec fn file_name_spec(p: Seq<char>) -> Option<Seq<char>> {
    let ps = normal_parts(p);
    if ps.len() == 0 || ps.last() == seq!['.', '.'] {
        None
    } else {
        Some(ps.last())
    }
}

fn is_kept(s: &Vec<char>) -> (r: bool)
    ensures
        r == keep_part(s@),
{
    if s.len() == 0 {
        false
    } else if s.len() == 1 && s[0] == '.' {
        assert(s@ =~= seq!['.']);
        false
    } else {
        assert(s@ != seq!['.']) by {
            if s@ == seq!['.'] {
                assert(s@.len() == 1 && s@[0] == '.');
            }
        }
        true
    }
}

/// The named pieces of a path given as characters.
pub fn normal_parts_of(p: &Vec<char>) -> (r: Vec<Vec<char>>)
    ensures
        views(r@) == normal_parts(p@),
{
    let mut done: Vec<Vec<char>> = Vec::new();
    let mut cur: Vec<char> = Vec::new();
    let mut i: usize = 0;
    assert(p@.take(0) =~= Seq::<char>::empty());
    while i < p.len()
        invariant
            i <= p.len(),
            views(done@) == scan_parts(p@.take(i as int)).0,
            cur@ == scan_parts(p@.take(i as int)).1,
        decreases p.len() - i,
    {
        let c = p[i];
        let ghost before = p@.take(i as int);
        assert(p@.take(i + 1).drop_last() =~= before);
        assert(p@.take(i + 1).last() == c);
        if c == '/' {
            if is_kept(&cur) {
                let ghost old_done = done@;
                done.push(cur);
                assert(views(done@) =~= views(old_done).push(scan_parts(before).1));
            }
            cur = Vec::new();
        } else {
            cur.push(c);
        }
        i = i + 1;
    }
    assert(p@.take(p.len() as int) =~= p@);
    if is_kept(&cur) {
        let ghost old_done = done@;
        let ghost last = cur@;
        done.push(cur);
        assert(views(done@) =~= views(old_done).push(last));
    }
    done
}


/// The component a path has before its named pieces, given as characters.
pub fn leading_component_of(p: &Vec<char>) -> (r: Vec<Vec<char>>)
    ensures
        views(r@) == leading_component(p@),
{
    let mut r: Vec<Vec<char>> = Vec::new();
    if p.len() > 0 && p[0] == '/' {
        let mut root: Vec<char> = Vec::new();
        root.push('/');
        r.push(root);
        assert(views(r@) =~= leading_component(p@));
    } else if (p.len() == 1 && p[0] == '.') || (p.len() >= 2 && p[0] == '.' && p[1] == '/') {
        let mut cur: Vec<char> = Vec::new();
        cur.push('.');
        r.push(cur);
        assert(views(r@) =~= leading_component(p@));
    } else {
        assert(views(r@) =~= leading_component(p@));
    }
    r
}

/// The components of a path given as characters.
pub fn components_of(p: &Vec<char>) -> (r: Vec<Vec<char>>)
    ensures
        views(r@) == components(p@),
{
    let mut r: Vec<Vec<char>> = Vec::new();
    if p.len() > 0 && p[0] == '/' {
        let mut root: Vec<char> = Vec::new();
        root.push('/');
        r.push(root);
        assert(views(r@) =~= leading_component(p@));
    } else if (p.len() == 1 && p[0] == '.') || (p.len() >= 2 && p[0] == '.' && p[1] == '/') {
        let mut cur: Vec<char> = Vec::new();
        cur.push('.');
        r.push(cur);
        assert(views(r@) =~= leading_component(p@));
    } else {
        assert(views(r@) =~= leading_component(p@));
    }
    let parts = normal_parts_of(p);
    let ghost lead = r@;
    let mut i: usize = 0;
    while i < parts.len()
        invariant
            i <= parts.len(),
            views(r@) == views(lead) + views(parts@.take(i as int)),
        decreases parts.len() - i,
    {
        let ghost before = r@;
        let piece = parts[i].clone();
        assert(piece@ == parts@[i as int]@);
        r.push(piece);
        i = i + 1;
        assert(parts@.take(i as int) =~= parts@.take(i - 1).push(parts@[i - 1]));
        assert(views(r@) =~= views(before).push(piece@));
        assert(views(parts@.take(i as int)) =~= views(parts@.take(i - 1)).push(piece@));
    }
    assert(parts@.take(parts.len() as int) =~= parts@);
    r
}

/// The file name of a path: its last component, where that is a name.
pub fn file_name(path: &str) -> (r: Option<String>)
    ensures
        r matches Some(s) ==> file_name_spec(path@) == Some(s@),
        r is None ==> file_name_spec(path@) is None,
{
    let p = chars_of(path);
    let parts = normal_parts_of(&p);
    if parts.len() == 0 {
        return None;
    }
    let last = &parts[parts.len() - 1];
    assert(views(parts@).last() == last@);
    let mut dots: Vec<char> = Vec::new();
    dots.push('.');
    dots.push('.');
    assert(dots@ =~= seq!['.', '.']);
    if chars_eq(last, &dots) {
        None
    } else {
        Some(string_from_chars(last))
    }
}


/// Whether a path starts with the home directory: it is `~` or begins with `~/`.
pub open spec fn starts_at_home(p: Seq<char>) -> bool {
    p == seq!['~'] || (p.len() >= 2 && p[0] == '~' && p[1] == '/')
}

/// `rest` placed below `dir`: a `/` goes between them unless `dir` is empty
/// or already ends in one; an absolute `rest` stays below `dir` too.
pub open spec fn below_spec(dir: Seq<char>, rest: Seq<char>) -> Seq<char> {
    if dir.len() == 0 || dir.last() == '/' {
        dir + rest
    } else {
        dir + seq!['/'] + rest
    }
}

/// The path with a leading `~` replaced by the home directory `home`: `~`
/// alone is `home`, and `~/rest` is `rest` below `home`.
pub open spec fn expand_tilde_spec(p: Seq<char>, home: Seq<char>) -> Seq<char> {
    if p == seq!['~'] {
        home
    } else if p.len() >= 2 && p[0] == '~' && p[1] == '/' {
        below_spec(home, p.subrange(2, p.len() as int))
    } else {
        p
    }
}

/// A path that starts at home expands to a path that starts with the home
/// directory, whatever follows the `~`.
pub proof fn lemma_expansion_stays_in_home(p: Seq<char>, home: Seq<char>)
    requires
        starts_at_home(p),
    ensures
        expand_tilde_spec(p, home).len() >= home.len(),
        expand_tilde_spec(p, home).subrange(0, home.len() as int) == home,
{
    let e = expand_tilde_spec(p, home);
    if p == seq!['~'] {
        assert(e.subrange(0, home.len() as int) =~= home);
    } else {
        assert(e.subrange(0, home.len() as int) =~= home);
    }
}

/// `rest` placed below `dir`.
pub fn below_chars(dir: &Vec<char>, rest: &Vec<char>) -> (r: Vec<char>)
    ensures
        r@ == below_spec(dir@, rest@),
{
    let mut r: Vec<char> = Vec::new();
    push_all(&mut r, dir);
    if !(dir.len() == 0 || dir[dir.len() - 1] == '/') {
        r.push('/');
    }
    push_all(&mut r, rest);
    assert(r@ =~= below_spec(dir@, rest@));
    r
}

/// The path with a leading `~` replaced by `home`; `None` where the path
/// starts at home and no home directory is known.
pub fn expand_tilde_with_home(path: &str, home: Option<&str>) -> (r: Option<String>)
    ensures
        r is None <==> (starts_at_home(path@) && home is None),
        r matches Some(s) ==> s@ == expand_tilde_spec(path@, match home {
            Some(h) => h@,
            None => Seq::<char>::empty(),
        }),
        starts_at_home(path@) ==> (r matches Some(s) ==> s@.len() >= home->0@.len() && s@.subrange(
            0,
            home->0@.len() as int,
        ) == home->0@),
{
    proof {
        if starts_at_home(path@) && home is Some {
            lemma_expansion_stays_in_home(path@, home->0@);
        }
    }
    let p = chars_of(path);
    let tilde_only = p.len() == 1 && p[0] == '~';
    let tilde_slash = p.len() >= 2 && p[0] == '~' && p[1] == '/';
    if tilde_only {
        assert(p@ =~= seq!['~']);
    }
    assert(!tilde_only ==> p@ != seq!['~']) by {
        if p@ == seq!['~'] {
            assert(p@.len() == 1 && p@[0] == '~');
        }
    }
    if !(tilde_only || tilde_slash) {
        return Some(string_from_chars(&p));
    }
    match home {
        None => None,
        Some(h) => {
            let hv = chars_of(h);
            if tilde_only {
                Some(string_from_chars(&hv))
            } else {
                let mut rest: Vec<char> = Vec::new();
                let mut i: usize = 2;
                while i < p.len()
                    invariant
                        2 <= i <= p.len(),
                        rest@ == p@.subrange(2, i as int),
                    decreases p.len() - i,
                {
                    rest.push(p[i]);
                    i = i + 1;
                    assert(rest@ =~= p@.subrange(2, i as int));
                }
                let joined = below_chars(&hv, &rest);
                Some(string_from_chars(&joined))
            }
        },
    }
}


/// The pieces of `p` between `/` separators, as written: empty pieces and `.`
/// included, one more piece than there are separators.
pub open spec fn raw_pieces(p: Seq<char>) -> Seq<Seq<char>>
    decreases p.len(),
{
    if p.len() == 0 {
        seq![Seq::empty()]
    } else {
        let prev = raw_pieces(p.drop_last());
        if p.last() == '/' {
            prev.push(Seq::empty())
        } else {
            prev.update(prev.len() - 1, prev.last().push(p.last()))
        }
    }
}

/// The index of the last named piece before index `n`, or -1.
pub open spec fn last_kept_before(b: Seq<Seq<char>>, n: int) -> int
    decreases n,
{
    if n <= 0 {
        -1
    } else if keep_part(b[n - 1]) {
        n - 1
    } else {
        last_kept_before(b, n - 1)
    }
}

/// The index of the first named piece from index `i` on, or the length.
pub open spec fn first_kept_from(b: Seq<Seq<char>>, i: int) -> int
    decreases b.len() - i,
{
    if i < 0 || i >= b.len() {
        b.len() as int
    } else if keep_part(b[i]) {
        i
    } else {
        first_kept_from(b, i + 1)
    }
}

/// The first named piece from `k` on comes no later than any named piece from `k` on.
pub proof fn lemma_first_kept_from_le(b: Seq<Seq<char>>, k: int, x: int)
    requires
        0 <= k <= x < b.len(),
        keep_part(b[x]),
    ensures
        k <= first_kept_from(b, k) <= x,
    decreases x - k,
{
    if !keep_part(b[k]) {
        lemma_first_kept_from_le(b, k + 1, x);
    }
}

/// The last piece as written is the piece that `scan_parts` still has open.
pub proof fn lemma_raw_last_is_open_piece(p: Seq<char>)
    ensures
        raw_pieces(p).len() >= 1,
        raw_pieces(p).last() == scan_parts(p).1,
    decreases p.len(),
{
    if p.len() > 0 {
        lemma_raw_last_is_open_piece(p.drop_last());
    }
}

/// The pieces of a path as written.
pub fn raw_pieces_of(p: &Vec<char>) -> (r: Vec<Vec<char>>)
    ensures
        views(r@) == raw_pieces(p@),
{
    let mut done: Vec<Vec<char>> = Vec::new();
    let mut cur: Vec<char> = Vec::new();
    let mut i: usize = 0;
    assert(p@.take(0) =~= Seq::<char>::empty());
    assert(views(done@).push(cur@) =~= raw_pieces(p@.take(0)));
    while i < p.len()
        invariant
            i <= p.len(),
            views(done@).push(cur@) == raw_pieces(p@.take(i as int)),
        decreases p.len() - i,
    {
        let c = p[i];
        let ghost before = p@.take(i as int);
        let ghost old_done = done@;
        let ghost old_cur = cur@;
        assert(p@.take(i + 1).drop_last() =~= before);
        assert(p@.take(i + 1).last() == c);
        if c == '/' {
            done.push(cur);
            cur = Vec::new();
            assert(views(done@) =~= views(old_done).push(old_cur));
            assert(views(done@).push(cur@) =~= raw_pieces(before).push(Seq::empty()));
        } else {
            cur.push(c);
            let ghost prev = raw_pieces(before);
            assert(views(done@).push(cur@) =~= prev.update(prev.len() - 1, prev.last().push(c)));
        }
        i = i + 1;
    }
    assert(p@.take(p.len() as int) =~= p@);
    let ghost old_done = done@;
    done.push(cur);
    assert(views(done@) =~= views(old_done).push(cur@));
    done
}

/// Whether a piece names something: it is neither empty nor `.`.
pub fn keep_part_of(s: &Vec<char>) -> (r: bool)
    ensures
        r == keep_part(s@),
{
    is_kept(s)
}

/// The index of the last named piece before index `n`, if any.
pub fn last_kept_before_of(b: &Vec<Vec<char>>, n: usize) -> (r: Option<usize>)
    requires
        n <= b@.len(),
    ensures
        match r {
            Some(i) => last_kept_before(views(b@), n as int) == i as int && i < n && keep_part(
                b@[i as int]@,
            ),
            None => last_kept_before(views(b@), n as int) == -1,
        },
{
    let mut k: usize = n;
    while k > 0
        invariant
            k <= n <= b@.len(),
            last_kept_before(views(b@), n as int) == last_kept_before(views(b@), k as int),
        decreases k,
    {
        if keep_part_of(&b[k - 1]) {
            assert(views(b@)[k - 1] == b@[k - 1]@);
            return Some(k - 1);
        }
        k = k - 1;
    }
    None
}

/// The index of the first named piece from index `i` on, or the length.
pub fn first_kept_from_of(b: &Vec<Vec<char>>, i: usize) -> (r: usize)
    requires
        i <= b@.len(),
    ensures
        r as int == first_kept_from(views(b@), i as int),
        i <= r <= b@.len(),
{
    let mut k: usize = i;
    while k < b.len()
        invariant
            i <= k <= b@.len(),
            first_kept_from(views(b@), i as int) == first_kept_from(views(b@), k as int),
        decreases b.len() - k,
    {
        if keep_part_of(&b[k]) {
            assert(views(b@)[k as int] == b@[k as int]@);
            return k;
        }
        k = k + 1;
    }
    k
}

} // verus!
