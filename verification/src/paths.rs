//! Paths of the students' files in a classroom folder.
//!
//! A path is read as Unix path text: `/` separates its components, a leading
//! `/` is the root, `.` is dropped (but for a leading one) and `..` names the
//! parent. The functions work on that text and give text back.
use vstd::prelude::*;

use crate::lexer::classes::is_white_space;
use crate::text::{chars_string, push_char, push_str, str_chars, str_debug, str_debug_text};

verus! {

// ── text helpers ────────────────────────────────────────────────────────

/// Index of the first character of `s`, from `i` on, that is not white space.
pub open spec fn trim_lo(s: Seq<char>, i: int) -> int
    decreases s.len() - i,
{
    if i < 0 || i >= s.len() {
        s.len() as int
    } else if is_white_space(s[i]) {
        trim_lo(s, i + 1)
    } else {
        i
    }
}

/// One past the last character of `s`, before `j`, that is not white space.
pub open spec fn trim_hi(s: Seq<char>, j: int) -> int
    decreases j,
{
    if j <= 0 || j > s.len() {
        0
    } else if is_white_space(s[j - 1]) {
        trim_hi(s, j - 1)
    } else {
        j
    }
}

/// `str::trim`: `s` without its leading and trailing white space.
pub open spec fn trimmed(s: Seq<char>) -> Seq<char> {
    let lo = trim_lo(s, 0);
    let hi = trim_hi(s, s.len() as int);
    if lo < hi {
        s.subrange(lo, hi)
    } else {
        Seq::empty()
    }
}

pub(crate) proof fn lemma_trim_lo(s: Seq<char>, i: int)
    requires
        0 <= i <= s.len(),
    ensures
        i <= trim_lo(s, i) <= s.len(),
        forall|k: int| i <= k < trim_lo(s, i) ==> is_white_space(#[trigger] s[k]),
        trim_lo(s, i) < s.len() ==> !is_white_space(s[trim_lo(s, i)]),
    decreases s.len() - i,
{
    if i < s.len() && is_white_space(s[i]) {
        lemma_trim_lo(s, i + 1);
    }
}

pub(crate) proof fn lemma_trim_hi(s: Seq<char>, j: int)
    requires
        0 <= j <= s.len(),
    ensures
        0 <= trim_hi(s, j) <= j,
        forall|k: int| trim_hi(s, j) <= k < j ==> is_white_space(#[trigger] s[k]),
        trim_hi(s, j) > 0 ==> !is_white_space(s[trim_hi(s, j) - 1]),
    decreases j,
{
    if j > 0 && is_white_space(s[j - 1]) {
        lemma_trim_hi(s, j - 1);
    }
}

/// `str::trim_end`: `s` without its trailing white space.
pub open spec fn trimmed_end(s: Seq<char>) -> Seq<char> {
    s.take(trim_hi(s, s.len() as int))
}

/// `s.trim_end()`, as a new `String`.
pub fn trim_end(s: &str) -> (r: String)
    ensures
        r@ == trimmed_end(s@),
{
    let v = str_chars(s);
    let mut hi: usize = v.len();
    while hi > 0 && crate::lexer::classes::white_space(v[hi - 1])
        invariant
            v@ == s@,
            0 <= hi <= v@.len(),
            trim_hi(s@, s@.len() as int) == trim_hi(s@, hi as int),
        decreases hi,
    {
        hi = hi - 1;
    }
    let r = chars_string(&v, 0, hi);
    assert(r@ =~= s@.take(hi as int));
    r
}

/// `s.trim()`, as a new `String`.
pub fn trim(s: &str) -> (r: String)
    ensures
        r@ == trimmed(s@),
{
    let v = str_chars(s);
    let n = v.len();
    let mut lo: usize = 0;
    while lo < n && crate::lexer::classes::white_space(v[lo])
        invariant
            v@ == s@,
            n == v@.len(),
            0 <= lo <= n,
            trim_lo(s@, 0) == trim_lo(s@, lo as int),
        decreases n - lo,
    {
        lo = lo + 1;
    }
    let mut hi: usize = n;
    while hi > 0 && crate::lexer::classes::white_space(v[hi - 1])
        invariant
            v@ == s@,
            n == v@.len(),
            0 <= hi <= n,
            trim_hi(s@, n as int) == trim_hi(s@, hi as int),
        decreases hi,
    {
        hi = hi - 1;
    }
    if lo < hi {
        chars_string(&v, lo, hi)
    } else {
        String::new()
    }
}

// ── components ──────────────────────────────────────────────────────────

/// A component of a path.
pub enum PathPart {
    Root,
    Cur,
    Parent,
    Normal(Seq<char>),
}

/// Where the component that starts at `i` ends: the next `/`, or the end.
pub open spec fn seg_end(s: Seq<char>, i: int) -> int
    decreases s.len() - i,
{
    if i < 0 || i >= s.len() {
        s.len() as int
    } else if s[i] == '/' {
        i
    } else {
        seg_end(s, i + 1)
    }
}

pub proof fn lemma_seg_end(s: Seq<char>, i: int)
    requires
        0 <= i <= s.len(),
    ensures
        i <= seg_end(s, i) <= s.len(),
        seg_end(s, i) < s.len() ==> s[seg_end(s, i)] == '/',
        forall|k: int| i <= k < seg_end(s, i) ==> s[k] != '/',
    decreases s.len() - i,
{
    if i < s.len() && s[i] != '/' {
        lemma_seg_end(s, i + 1);
    }
}

/// The component written `seg`; `.` counts only at the start of the path.
pub open spec fn part_of(seg: Seq<char>, at_start: bool) -> Option<PathPart> {
    if seg == seq!['.'] {
        if at_start {
            Some(PathPart::Cur)
        } else {
            None
        }
    } else if seg == seq!['.', '.'] {
        Some(PathPart::Parent)
    } else {
        Some(PathPart::Normal(seg))
    }
}

/// The components of `s` from the `i`-th character on.
pub open spec fn parts_from(s: Seq<char>, i: int) -> Seq<PathPart>
    decreases s.len() - i,
{
    if i < 0 || i >= s.len() {
        Seq::empty()
    } else if s[i] == '/' {
        parts_from(s, i + 1)
    } else {
        let j = seg_end(s, i);
        proof {
            lemma_seg_end(s, i + 1);
        }
        let rest = parts_from(s, j);
        match part_of(s.subrange(i, j), i == 0) {
            Some(p) => seq![p] + rest,
            None => rest,
        }
    }
}

/// `Path::components` of the path text `s`.
pub open spec fn components(s: Seq<char>) -> Seq<PathPart> {
    if s.len() > 0 && s[0] == '/' {
        seq![PathPart::Root] + parts_from(s, 1)
    } else {
        parts_from(s, 0)
    }
}

/// A component, as the library holds it.
pub enum Comp {
    Root,
    Cur,
    Parent,
    Normal(String),
}

pub open spec fn comp_view(c: Comp) -> PathPart {
    match c {
        Comp::Root => PathPart::Root,
        Comp::Cur => PathPart::Cur,
        Comp::Parent => PathPart::Parent,
        Comp::Normal(s) => PathPart::Normal(s@),
    }
}

pub open spec fn comps_view(v: Seq<Comp>) -> Seq<PathPart> {
    v.map_values(|c: Comp| comp_view(c))
}

/// The components of the path text `s`.
pub fn path_components(s: &str) -> (r: Vec<Comp>)
    ensures
        comps_view(r@) == components(s@),
{
    let v = str_chars(s);
    let n = v.len();
    let mut out: Vec<Comp> = Vec::new();
    let mut i: usize = 0;
    if n > 0 && v[0] == '/' {
        out.push(Comp::Root);
        i = 1;
    }
    proof {
        if n > 0 && v@[0] == '/' {
            assert(comps_view(out@) =~= seq![PathPart::Root]);
        } else {
            assert(comps_view(out@) =~= Seq::<PathPart>::empty());
            assert(components(s@) =~= Seq::<PathPart>::empty() + parts_from(s@, 0));
        }
    }
    while i < n
        invariant
            v@ == s@,
            n == v@.len(),
            0 <= i <= n,
            components(s@) == comps_view(out@) + parts_from(s@, i as int),
        decreases n - i,
    {
        if v[i] == '/' {
            i = i + 1;
        } else {
            let ghost i0 = i as int;
            proof {
                lemma_seg_end(s@, i0);
            }
            let mut j = i;
            while j < n && v[j] != '/'
                invariant
                    v@ == s@,
                    n == v@.len(),
                    i0 <= j <= n,
                    seg_end(s@, i0) == seg_end(s@, j as int),
                decreases n - j,
            {
                j = j + 1;
            }
            let ghost seg = s@.subrange(i0, j as int);
            let ghost before = comps_view(out@);
            let ghost rest = parts_from(s@, j as int);
            let len = j - i;
            let is_dot = len == 1 && v[i] == '.';
            let is_dotdot = len == 2 && v[i] == '.' && v[i + 1] == '.';
            proof {
                if len == 1 {
                    if v@[i as int] == '.' {
                        assert(seg =~= seq!['.']);
                    } else {
                        assert(seg[0] != seq!['.'][0]);
                    }
                } else {
                    assert(seg.len() != 1);
                    assert(seg != seq!['.']);
                }
                if len == 2 {
                    if v@[i as int] == '.' && v@[i + 1] == '.' {
                        assert(seg =~= seq!['.', '.']);
                    } else if v@[i as int] != '.' {
                        assert(seg[0] != seq!['.', '.'][0]);
                    } else {
                        assert(seg[1] != seq!['.', '.'][1]);
                    }
                } else {
                    assert(seg.len() != 2);
                    assert(seg != seq!['.', '.']);
                }
            }
            if is_dot {
                if i == 0 {
                    out.push(Comp::Cur);
                    assert(comps_view(out@) =~= before.push(PathPart::Cur));
                    assert(before + (seq![PathPart::Cur] + rest) =~= before.push(PathPart::Cur)
                        + rest);
                }
            } else if is_dotdot {
                out.push(Comp::Parent);
                assert(comps_view(out@) =~= before.push(PathPart::Parent));
                assert(before + (seq![PathPart::Parent] + rest) =~= before.push(PathPart::Parent)
                    + rest);
            } else {
                let name = chars_string(&v, i, j);
                out.push(Comp::Normal(name));
                assert(comps_view(out@) =~= before.push(PathPart::Normal(seg)));
                assert(before + (seq![PathPart::Normal(seg)] + rest) =~= before.push(
                    PathPart::Normal(seg),
                ) + rest);
            }
            i = j;
        }
    }
    assert(parts_from(s@, i as int) =~= Seq::<PathPart>::empty());
    assert(comps_view(out@) + Seq::<PathPart>::empty() =~= comps_view(out@));
    out
}

// ── normalising ─────────────────────────────────────────────────────────

/// A normalised path: whether it starts at the root, and its names.
pub struct NormPath {
    pub absolute: bool,
    pub names: Seq<Seq<char>>,
}

/// `PathBuf::push` of one component onto a normalised path, with `..`
/// dropping the last name and `.` doing nothing.
pub open spec fn norm_step(st: NormPath, p: PathPart) -> NormPath {
    match p {
        PathPart::Root => NormPath { absolute: true, names: Seq::empty() },
        PathPart::Cur => st,
        PathPart::Parent => if st.names.len() > 0 {
            NormPath { absolute: st.absolute, names: st.names.drop_last() }
        } else {
            st
        },
        PathPart::Normal(x) => NormPath { absolute: st.absolute, names: st.names.push(x) },
    }
}

pub open spec fn norm_fold(ps: Seq<PathPart>) -> NormPath
    decreases ps.len(),
{
    if ps.len() == 0 {
        NormPath { absolute: false, names: Seq::empty() }
    } else {
        norm_step(norm_fold(ps.drop_last()), ps.last())
    }
}

/// The names joined by `/`.
pub open spec fn join_names(names: Seq<Seq<char>>) -> Seq<char>
    decreases names.len(),
{
    if names.len() == 0 {
        Seq::empty()
    } else if names.len() == 1 {
        names[0]
    } else {
        join_names(names.drop_last()) + seq!['/'] + names.last()
    }
}

/// The text of a normalised path.
pub open spec fn render(p: NormPath) -> Seq<char> {
    if p.absolute {
        seq!['/'] + join_names(p.names)
    } else {
        join_names(p.names)
    }
}

/// `path` with `.` and `..` resolved by text alone, without looking at the disk.
pub open spec fn normalized(path: Seq<char>) -> Seq<char> {
    render(norm_fold(components(path)))
}

fn join_strings(names: &Vec<String>, absolute: bool) -> (r: String)
    ensures
        r@ == render(NormPath { absolute, names: names@.map_values(|x: String| x@) }),
{
    let ghost ns = names@.map_values(|x: String| x@);
    let mut r = String::new();
    if absolute {
        push_char(&mut r, '/');
    }
    let ghost lead: Seq<char> = r@;
    let mut k: usize = 0;
    while k < names.len()
        invariant
            0 <= k <= names@.len(),
            ns == names@.map_values(|x: String| x@),
            lead == (if absolute { seq!['/'] } else { Seq::<char>::empty() }),
            r@ == lead + join_names(ns.take(k as int)),
        decreases names@.len() - k,
    {
        assert(ns.take(k + 1).drop_last() =~= ns.take(k as int));
        assert(ns.take(k + 1).last() == names@[k as int]@);
        if k > 0 {
            push_char(&mut r, '/');
        }
        push_str(&mut r, names[k].as_str());
        proof {
            if k == 0 {
                assert(join_names(ns.take(1)) == ns.take(1)[0]);
            }
        }
        k = k + 1;
    }
    assert(ns.take(names@.len() as int) =~= ns);
    r
}

/// Normalises the path text `path` by text alone: `.` dropped, `..` taking
/// away the name before it (nothing above the root or the start).
pub fn lexical_normalize(path: &str) -> (r: String)
    ensures
        r@ == normalized(path@),
{
    let comps = path_components(path);
    let ghost ps = comps_view(comps@);
    let mut absolute = false;
    let mut names: Vec<String> = Vec::new();
    let mut k: usize = 0;
    assert(ps.take(0) =~= Seq::<PathPart>::empty());
    assert(names@.map_values(|x: String| x@) =~= Seq::<Seq<char>>::empty());
    while k < comps.len()
        invariant
            0 <= k <= comps@.len(),
            ps == comps_view(comps@),
            ps == components(path@),
            norm_fold(ps.take(k as int)) == (NormPath {
                absolute,
                names: names@.map_values(|x: String| x@),
            }),
        decreases comps@.len() - k,
    {
        assert(ps.take(k + 1).drop_last() =~= ps.take(k as int));
        assert(ps.take(k + 1).last() == comp_view(comps@[k as int]));
        let ghost before = names@;
        match &comps[k] {
            Comp::Root => {
                absolute = true;
                names = Vec::new();
                assert(names@.map_values(|x: String| x@) =~= Seq::<Seq<char>>::empty());
            },
            Comp::Cur => {},
            Comp::Parent => {
                if names.len() > 0 {
                    names.pop();
                    assert(names@.map_values(|x: String| x@) =~= before.map_values(
                        |x: String| x@,
                    ).drop_last());
                }
            },
            Comp::Normal(x) => {
                names.push(x.clone());
                assert(names@.map_values(|x: String| x@) =~= before.map_values(
                    |x: String| x@,
                ).push(x@));
            },
        }
        k = k + 1;
    }
    assert(ps.take(comps@.len() as int) =~= ps);
    join_strings(&names, absolute)
}

// ── what normalising gives ──────────────────────────────────────────────

/// A name a normalised path can hold: not empty, no `/`, neither `.` nor `..`.
pub open spec fn plain_name(x: Seq<char>) -> bool {
    &&& x.len() > 0
    &&& !x.contains('/')
    &&& x != seq!['.']
    &&& x != seq!['.', '.']
}

/// Every name among the components `ps` is a plain name.
pub open spec fn plain_parts(ps: Seq<PathPart>) -> bool {
    forall|k: int| 0 <= k < ps.len() && #[trigger] ps[k] is Normal ==> plain_name(ps[k]->Normal_0)
}

/// The names as components.
pub open spec fn name_parts(names: Seq<Seq<char>>) -> Seq<PathPart> {
    names.map_values(|x: Seq<char>| PathPart::Normal(x))
}

proof fn lemma_parts_plain(s: Seq<char>, i: int)
    requires
        0 <= i <= s.len(),
    ensures
        plain_parts(parts_from(s, i)),
    decreases s.len() - i,
{
    if i < s.len() {
        if s[i] == '/' {
            lemma_parts_plain(s, i + 1);
        } else {
            let j = seg_end(s, i);
            lemma_seg_end(s, i);
            lemma_parts_plain(s, j);
            let seg = s.subrange(i, j);
            let rest = parts_from(s, j);
            assert(seg.len() > 0) by {
                if j == i {
                    assert(s[seg_end(s, i)] == '/');
                }
            }
            assert(!seg.contains('/')) by {
                if seg.contains('/') {
                    let k = choose|k: int| 0 <= k < seg.len() && seg[k] == '/';
                    assert(s[i + k] == '/');
                }
            }
            match part_of(seg, i == 0) {
                Some(p) => {
                    let ps = seq![p] + rest;
                    assert forall|k: int| 0 <= k < ps.len() && #[trigger] ps[k] is Normal implies plain_name(
                        ps[k]->Normal_0,
                    ) by {
                        if k > 0 {
                            assert(ps[k] == rest[k - 1]);
                        }
                    }
                },
                None => {},
            }
        }
    }
}

proof fn lemma_components_plain(s: Seq<char>)
    ensures
        plain_parts(components(s)),
{
    if s.len() > 0 && s[0] == '/' {
        lemma_parts_plain(s, 1);
        let ps = components(s);
        let rest = parts_from(s, 1);
        assert forall|k: int| 0 <= k < ps.len() && #[trigger] ps[k] is Normal implies plain_name(
            ps[k]->Normal_0,
        ) by {
            assert(ps[k] == rest[k - 1]);
        }
    } else {
        lemma_parts_plain(s, 0);
    }
}

/// Folding plain components keeps only plain names.
proof fn lemma_fold_plain(ps: Seq<PathPart>)
    requires
        plain_parts(ps),
    ensures
        forall|k: int| 0 <= k < norm_fold(ps).names.len() ==> plain_name(
            #[trigger] norm_fold(ps).names[k],
        ),
    decreases ps.len(),
{
    if ps.len() > 0 {
        let pre = ps.drop_last();
        assert(plain_parts(pre)) by {
            assert forall|k: int| 0 <= k < pre.len() && #[trigger] pre[k] is Normal implies plain_name(
                pre[k]->Normal_0,
            ) by {
                assert(pre[k] == ps[k]);
            }
        }
        lemma_fold_plain(pre);
        let last = ps[ps.len() - 1];
        assert(last == ps.last());
        let before = norm_fold(pre);
        let after = norm_fold(ps);
        assert(after == norm_step(before, last));
        assert forall|k: int| 0 <= k < after.names.len() implies plain_name(#[trigger] after.names[k]) by {
            match last {
                PathPart::Root => {},
                PathPart::Cur => {
                    assert(after.names[k] == before.names[k]);
                },
                PathPart::Parent => {
                    assert(after.names[k] == before.names[k]);
                },
                PathPart::Normal(x) => {
                    if k < before.names.len() {
                        assert(after.names[k] == before.names[k]);
                    } else {
                        assert(after.names[k] == x);
                        assert(ps[ps.len() - 1] is Normal);
                    }
                },
            }
        }
    }
}

/// `join_names` from the front: the first name, a `/`, and the rest.
proof fn lemma_join_front(names: Seq<Seq<char>>)
    requires
        names.len() >= 2,
    ensures
        join_names(names) == names[0] + seq!['/'] + join_names(names.skip(1)),
    decreases names.len(),
{
    if names.len() == 2 {
        assert(names.drop_last() =~= seq![names[0]]);
        assert(names.skip(1) =~= seq![names[1]]);
        assert(join_names(names.drop_last()) == names[0]);
        assert(join_names(names.skip(1)) == names[1]);
    } else {
        let dl = names.drop_last();
        let rest = names.skip(1);
        lemma_join_front(dl);
        assert(dl.skip(1) =~= rest.drop_last());
        assert(rest.last() == names.last());
        assert(dl[0] == names[0]);
        assert(join_names(rest) == join_names(rest.drop_last()) + seq!['/'] + rest.last());
        assert(join_names(names) == join_names(dl) + seq!['/'] + names.last());
        assert(join_names(names) =~= names[0] + seq!['/'] + join_names(rest));
    }
}

/// Reading back the names written after position `i` gives them as components.
proof fn lemma_parts_of_join(t: Seq<char>, i: int, names: Seq<Seq<char>>)
    requires
        0 <= i <= t.len(),
        t.subrange(i, t.len() as int) == join_names(names),
        forall|k: int| 0 <= k < names.len() ==> plain_name(#[trigger] names[k]),
    ensures
        parts_from(t, i) == name_parts(names),
    decreases names.len(),
{
    if names.len() == 0 {
        assert(t.subrange(i, t.len() as int).len() == 0);
        assert(name_parts(names) =~= Seq::<PathPart>::empty());
    } else {
        let x = names[0];
        assert(plain_name(x));
        let jn = join_names(names);
        if names.len() >= 2 {
            lemma_join_front(names);
            assert(jn == x + seq!['/'] + join_names(names.skip(1)));
        } else {
            assert(jn == x);
        }
        assert(jn.len() >= x.len());
        assert(forall|k: int| 0 <= k < x.len() ==> #[trigger] jn[k] == x[k]);
        let j = i + x.len();
        assert(t.subrange(i, t.len() as int) == jn);
        assert(j <= t.len());
        assert(t.subrange(i, j) =~= x) by {
            assert forall|k: int| 0 <= k < x.len() implies t.subrange(i, j)[k] == x[k] by {
                assert(t[i + k] == t.subrange(i, t.len() as int)[k]);
                assert(jn[k] == x[k]);
            }
        }
        assert(t[i] != '/') by {
            assert(t[i] == x[0]);
            if x[0] == '/' {
                assert(x.contains('/'));
            }
        }
        // the segment at `i` ends right after `x`
        assert(seg_end(t, i) == j) by {
            assert forall|k: int| i <= k < j implies t[k] != '/' by {
                assert(t[k] == x[k - i]);
                if x[k - i] == '/' {
                    assert(x.contains('/'));
                }
            }
            if names.len() >= 2 {
                assert(jn[x.len() as int] == '/');
                assert(t[j] == t.subrange(i, t.len() as int)[x.len() as int]);
            } else {
                assert(jn.len() == x.len());
            }
            lemma_seg_end_at(t, i, j);
        }
        lemma_seg_end(t, i);
        assert(part_of(t.subrange(i, j), i == 0) == Some(PathPart::Normal(x)));
        if names.len() == 1 {
            assert(j == t.len());
            assert(parts_from(t, j) =~= Seq::<PathPart>::empty());
            assert(name_parts(names) =~= seq![PathPart::Normal(x)]);
        } else {
            lemma_join_front(names);
            let rest = names.skip(1);
            assert(t[j] == '/') by {
                assert(t[j] == t.subrange(i, t.len() as int)[x.len() as int]);
            }
            assert(t.subrange(j + 1, t.len() as int) =~= join_names(rest)) by {
                assert(t.subrange(i, t.len() as int).skip(x.len() as int + 1) =~= t.subrange(
                    j + 1,
                    t.len() as int,
                ));
                assert((x + seq!['/'] + join_names(rest)).skip(x.len() as int + 1) =~= join_names(rest));
            }
            assert forall|k: int| 0 <= k < rest.len() implies plain_name(#[trigger] rest[k]) by {
                assert(rest[k] == names[k + 1]);
            }
            lemma_parts_of_join(t, j + 1, rest);
            assert(parts_from(t, j) == parts_from(t, j + 1));
            assert(name_parts(names) =~= seq![PathPart::Normal(x)] + name_parts(rest));
        }
    }
}

proof fn lemma_seg_end_at(s: Seq<char>, i: int, j: int)
    requires
        0 <= i <= j <= s.len(),
        forall|k: int| i <= k < j ==> s[k] != '/',
        j == s.len() || s[j] == '/',
    ensures
        seg_end(s, i) == j,
    decreases j - i,
{
    if i < j {
        lemma_seg_end_at(s, i + 1, j);
    }
}

/// The components of a rendered normalised path with plain names: the root
/// (if it is absolute), then the names.
proof fn lemma_components_of_render(p: NormPath)
    requires
        forall|k: int| 0 <= k < p.names.len() ==> plain_name(#[trigger] p.names[k]),
    ensures
        components(render(p)) == (if p.absolute {
            seq![PathPart::Root]
        } else {
            Seq::<PathPart>::empty()
        }) + name_parts(p.names),
{
    let t = render(p);
    if p.absolute {
        assert(t.subrange(1, t.len() as int) =~= join_names(p.names));
        lemma_parts_of_join(t, 1, p.names);
    } else {
        assert(t.subrange(0, t.len() as int) =~= t);
        lemma_parts_of_join(t, 0, p.names);
        if t.len() > 0 {
            assert(p.names.len() > 0);
            if p.names.len() >= 2 {
                lemma_join_front(p.names);
            }
            assert(t[0] == p.names[0][0]);
            if t[0] == '/' {
                assert(p.names[0].contains('/'));
            }
        }
        assert(Seq::<PathPart>::empty() + name_parts(p.names) =~= name_parts(p.names));
    }
}

/// Folding a start and then plain names keeps the names in order.
proof fn lemma_fold_names(absolute: bool, names: Seq<Seq<char>>)
    ensures
        norm_fold(
            (if absolute {
                seq![PathPart::Root]
            } else {
                Seq::<PathPart>::empty()
            }) + name_parts(names),
        ) == (NormPath { absolute, names }),
    decreases names.len(),
{
    let head = if absolute {
        seq![PathPart::Root]
    } else {
        Seq::<PathPart>::empty()
    };
    let ps = head + name_parts(names);
    if names.len() == 0 {
        assert(ps =~= head);
        if absolute {
            assert(head.drop_last() =~= Seq::<PathPart>::empty());
        }
        assert(norm_fold(ps).names =~= names);
    } else {
        lemma_fold_names(absolute, names.drop_last());
        assert(ps.drop_last() =~= head + name_parts(names.drop_last()));
        assert(ps.last() == PathPart::Normal(names.last()));
        assert(names.drop_last().push(names.last()) =~= names);
    }
}

/// A normalised path has no `.` and no `..` component.
pub proof fn law_normalized_has_no_dots(path: Seq<char>)
    ensures
        forall|k: int|
            0 <= k < components(normalized(path)).len() ==> !(#[trigger] components(
                normalized(path),
            )[k] is Cur) && !(components(normalized(path))[k] is Parent),
{
    let np = norm_fold(components(path));
    lemma_components_plain(path);
    lemma_fold_plain(components(path));
    lemma_components_of_render(np);
    let head = if np.absolute {
        seq![PathPart::Root]
    } else {
        Seq::<PathPart>::empty()
    };
    let cs = components(normalized(path));
    assert forall|k: int| 0 <= k < cs.len() implies !(#[trigger] cs[k] is Cur) && !(cs[k] is Parent) by {
        if k < head.len() {
            assert(cs[k] == PathPart::Root);
        } else {
            assert(cs[k] == name_parts(np.names)[k - head.len()]);
        }
    }
}

/// Normalising a normalised path changes nothing.
pub proof fn law_normalize_idempotent(path: Seq<char>)
    ensures
        normalized(normalized(path)) == normalized(path),
{
    let np = norm_fold(components(path));
    lemma_components_plain(path);
    lemma_fold_plain(components(path));
    lemma_components_of_render(np);
    lemma_fold_names(np.absolute, np.names);
}

// ── joining and comparing ───────────────────────────────────────────────

/// `Path::join` of a path with a second one: an absolute second path
/// replaces the first; else a `/` is put between them when the first is not
/// empty and does not end with one.
pub open spec fn joined_path(a: Seq<char>, b: Seq<char>) -> Seq<char> {
    if b.len() > 0 && b[0] == '/' {
        b
    } else if a.len() == 0 || a.last() == '/' {
        a + b
    } else {
        a + seq!['/'] + b
    }
}

pub(crate) fn join_path(a: &str, b: &str) -> (r: String)
    ensures
        r@ == joined_path(a@, b@),
{
    let av = str_chars(a);
    let bv = str_chars(b);
    if bv.len() > 0 && bv[0] == '/' {
        return b.to_owned();
    }
    let mut r = a.to_owned();
    if av.len() > 0 && av[av.len() - 1] != '/' {
        push_char(&mut r, '/');
    }
    push_str(&mut r, b);
    r
}

/// `Path::starts_with`: the components of `base` begin the components of `full`.
pub open spec fn comps_prefix(full: Seq<PathPart>, base: Seq<PathPart>) -> bool {
    base.len() <= full.len() && full.subrange(0, base.len() as int) == base
}

fn same_comp(a: &Comp, b: &Comp) -> (r: bool)
    ensures
        r == (comp_view(*a) == comp_view(*b)),
{
    match (a, b) {
        (Comp::Root, Comp::Root) => true,
        (Comp::Cur, Comp::Cur) => true,
        (Comp::Parent, Comp::Parent) => true,
        (Comp::Normal(x), Comp::Normal(y)) => {
            x.eq(y)
        },
        _ => false,
    }
}

/// Whether the components of `base` begin those of `full`.
pub(crate) fn starts_with_comps(full: &Vec<Comp>, base: &Vec<Comp>) -> (r: bool)
    ensures
        r == comps_prefix(comps_view(full@), comps_view(base@)),
{
    if base.len() > full.len() {
        return false;
    }
    let mut k: usize = 0;
    while k < base.len()
        invariant
            base@.len() <= full@.len(),
            0 <= k <= base@.len(),
            forall|i: int| 0 <= i < k ==> comp_view(#[trigger] full@[i]) == comp_view(base@[i]),
        decreases base@.len() - k,
    {
        if !same_comp(&full[k], &base[k]) {
            assert(comps_view(full@).subrange(0, base@.len() as int)[k as int] != comps_view(
                base@,
            )[k as int]);
            return false;
        }
        k = k + 1;
    }
    assert(comps_view(full@).subrange(0, base@.len() as int) =~= comps_view(base@));
    true
}

// ── the student's files ─────────────────────────────────────────────────

/// A character allowed in a student's folder name.
pub open spec fn name_char(c: char) -> bool {
    ||| 0x30 <= (c as u32) <= 0x39
    ||| 0x41 <= (c as u32) <= 0x5A
    ||| 0x61 <= (c as u32) <= 0x7A
    ||| c == '_'
    ||| c == '-'
}

/// The folder name for `student`: the trimmed name, `local` when blank.
pub open spec fn student_name(student: Seq<char>) -> Seq<char> {
    if trimmed(student).len() == 0 {
        "local"@
    } else {
        trimmed(student)
    }
}

/// What `sanitize_student` answers for `student`.
pub open spec fn sanitized(student: Seq<char>) -> Result<Seq<char>, Seq<char>> {
    let name = student_name(student);
    if name.len() == 0 || !(forall|i: int| 0 <= i < name.len() ==> name_char(#[trigger] name[i])) {
        Err("nome de aluno inválido: "@ + str_debug_text(student))
    } else {
        Ok(name)
    }
}

/// Allowed student folder names: ASCII letters, digits, `_`, `-`.
pub fn sanitize_student(student: &str) -> (r: Result<String, String>)
    ensures
        match sanitized(student@) {
            Ok(n) => r matches Ok(x) && x@ == n,
            Err(m) => r matches Err(x) && x@ == m,
        },
{
    let t = trim(student);
    let name = if t.as_str().is_empty() {
        proof {
            reveal_strlit("local");
        }
        "local".to_owned()
    } else {
        t
    };
    proof {
        if trimmed(student@).len() == 0 {
            assert(t@.len() == 0);
        }
    }
    let v = str_chars(name.as_str());
    let mut ok = v.len() > 0;
    let mut k: usize = 0;
    while k < v.len()
        invariant
            v@ == name@,
            0 <= k <= v@.len(),
            ok == (v@.len() > 0 && forall|i: int| 0 <= i < k ==> name_char(#[trigger] v@[i])),
        decreases v@.len() - k,
    {
        let c = v[k];
        let u = c as u32;
        let good = (0x30 <= u && u <= 0x39) || (0x41 <= u && u <= 0x5A) || (0x61 <= u && u <= 0x7A)
            || c == '_' || c == '-';
        ok = ok && good;
        k = k + 1;
    }
    if !ok {
        let mut m = "nome de aluno inválido: ".to_owned();
        let d = str_debug(student);
        push_str(&mut m, d.as_str());
        return Err(m);
    }
    Ok(name)
}

/// What `student_file` answers.
pub open spec fn student_file_result(root: Seq<char>, student: Seq<char>, rel: Seq<char>) -> Result<
    Seq<char>,
    Seq<char>,
> {
    match sanitized(student) {
        Err(m) => Err(m),
        Ok(name) => {
            let r = trimmed(rel);
            if r.len() == 0 {
                Err("caminho vazio"@)
            } else if r[0] == '/' {
                Err("caminho absoluto não é permitido"@)
            } else {
                let base = joined_path(root, name);
                let full = normalized(joined_path(base, r));
                if !comps_prefix(components(full), components(base)) {
                    Err("caminho fora da pasta do aluno: "@ + r)
                } else {
                    Ok(full)
                }
            }
        },
    }
}

/// `{root}/{student}/{rel}` if `rel` stays inside the student folder.
pub fn student_file(root: &str, student: &str, rel: &str) -> (r: Result<String, String>)
    ensures
        match student_file_result(root@, student@, rel@) {
            Ok(p) => r matches Ok(x) && x@ == p,
            Err(m) => r matches Err(x) && x@ == m,
        },
{
    let name = match sanitize_student(student) {
        Ok(n) => n,
        Err(e) => return Err(e),
    };
    let r = trim(rel);
    if r.as_str().is_empty() {
        return Err("caminho vazio".to_owned());
    }
    let rv = str_chars(r.as_str());
    if rv[0] == '/' {
        return Err("caminho absoluto não é permitido".to_owned());
    }
    let base = join_path(root, name.as_str());
    let full = lexical_normalize(join_path(base.as_str(), r.as_str()).as_str());
    let full_comps = path_components(full.as_str());
    let base_comps = path_components(base.as_str());
    if !starts_with_comps(&full_comps, &base_comps) {
        let mut m = "caminho fora da pasta do aluno: ".to_owned();
        push_str(&mut m, r.as_str());
        return Err(m);
    }
    Ok(full)
}

/// The student's folder: `{root}/{student}`.
pub fn student_dir(root: &str, student: &str) -> (r: Result<String, String>)
    ensures
        match sanitized(student@) {
            Ok(name) => r matches Ok(x) && x@ == joined_path(root@, name),
            Err(m) => r matches Err(x) && x@ == m,
        },
{
    let name = match sanitize_student(student) {
        Ok(n) => n,
        Err(e) => return Err(e),
    };
    Ok(join_path(root, name.as_str()))
}


/// `s` with every `\` written as `/`.
pub open spec fn slashes(s: Seq<char>) -> Seq<char> {
    s.map_values(|c: char| if c == '\\' { '/' } else { c })
}

/// Name for what `Path::strip_prefix` leaves of `path` once the components
/// of `root` are taken off its front, as text (none when they do not begin
/// it).
pub uninterp spec fn prefix_stripped(root: Seq<char>, path: Seq<char>) -> Option<Seq<char>>;

/// Calls `Path::strip_prefix`.
#[verifier::external_body]
fn path_strip_prefix(root: &str, path: &str) -> (r: Option<String>)
    ensures
        r.deep_view() == prefix_stripped(root@, path@),
{
    match std::path::Path::new(path).strip_prefix(root) {
        Ok(rest) => Some(rest.to_string_lossy().into_owned()),
        Err(_) => None,
    }
}

/// What `relative_to` answers, given what stripping the root left of `path`:
/// that rest, or `path` itself when the root does not begin it; `\` written
/// as `/`.
pub open spec fn relative_answer(rest: Option<Seq<char>>, path: Seq<char>) -> Seq<char> {
    match rest {
        Some(x) => slashes(x),
        None => slashes(path),
    }
}

fn with_slashes(s: &str) -> (r: String)
    ensures
        r@ == slashes(s@),
{
    let v = str_chars(s);
    let mut r = String::new();
    let mut k: usize = 0;
    while k < v.len()
        invariant
            v@ == s@,
            0 <= k <= v@.len(),
            r@ == slashes(s@).take(k as int),
        decreases v@.len() - k,
    {
        let c = v[k];
        push_char(&mut r, if c == '\\' { '/' } else { c });
        k = k + 1;
        assert(slashes(s@).take(k as int) =~= slashes(s@).take(k - 1).push(slashes(s@)[k - 1]));
    }
    assert(slashes(s@).take(v@.len() as int) =~= slashes(s@));
    r
}

/// The text shown for `path` once `rest` is what stripping the root left of
/// it (none: the root does not begin it), with `/` separators.
pub fn relative_from_rest(rest: Option<&str>, path: &str) -> (r: String)
    ensures
        r@ == relative_answer(rest.deep_view(), path@),
{
    match rest {
        Some(x) => with_slashes(x),
        None => with_slashes(path),
    }
}

/// `path` relative to `root`, with `/` separators: what is left of it once
/// the components of `root` are taken off its front, or `path` itself when
/// they do not begin it.
pub fn relative_to(root: &str, path: &str) -> (r: String)
    ensures
        r@ == relative_answer(prefix_stripped(root@, path@), path@),
{
    let rest = path_strip_prefix(root, path);
    match rest {
        Some(x) => relative_from_rest(Some(x.as_str()), path),
        None => relative_from_rest(None, path),
    }
}

/// A student's file always lies inside the student's folder: the folder's
/// components begin the file's.
pub proof fn law_student_file_inside(root: Seq<char>, student: Seq<char>, rel: Seq<char>)
    requires
        student_file_result(root, student, rel) is Ok,
    ensures
        sanitized(student) is Ok,
        comps_prefix(
            components(student_file_result(root, student, rel)->Ok_0),
            components(joined_path(root, sanitized(student)->Ok_0)),
        ),
{
}


/// The classroom service: the folder that holds the students' folders, and
/// how long a run may take.
#[derive(Clone, Debug)]
pub struct Aula {
    pub root: String,
    /// Time limit of a run, in milliseconds.
    pub timeout_ms: u64,
}

impl Aula {
    /// The student's file `path`, if it stays inside the student's folder.
    pub fn file(&self, student: &str, path: &str) -> (r: Result<String, String>)
        ensures
            match student_file_result(self.root@, student@, path@) {
                Ok(p) => r matches Ok(x) && x@ == p,
                Err(m) => r matches Err(x) && x@ == m,
            },
    {
        student_file(self.root.as_str(), student, path)
    }

    /// The student's folder.
    pub fn dir(&self, student: &str) -> (r: Result<String, String>)
        ensures
            match sanitized(student@) {
                Ok(name) => r matches Ok(x) && x@ == joined_path(self.root@, name),
                Err(m) => r matches Err(x) && x@ == m,
            },
    {
        student_dir(self.root.as_str(), student)
    }
}

} // verus!
