//! Paths as `std::path::Path` reads them on Unix: their components, file
//! name and extension, the order in which paths sort, and joining a name on.

use vstd::prelude::*;
use crate::text::{
    char_lines, chars_of, lemma_text_lt_irreflexive, lemma_text_lt_transitive,
    lemma_text_lt_trichotomy, pieces, push_str, split_chars, string_of, text_lt, text_lt_exec,
};

verus! {

/// The root component, written as the one text no name can be.
pub open spec fn root_mark() -> Seq<char> {
    seq!['/']
}

/// The current-directory component `.`.
pub open spec fn cur_mark() -> Seq<char> {
    seq!['.']
}

/// The parent-directory component `..`.
pub open spec fn parent_mark() -> Seq<char> {
    seq!['.', '.']
}

/// The components named by the pieces after the first: empty pieces (from
/// repeated or trailing `/`) and `.` name none.
pub open spec fn later_components(ps: Seq<Seq<char>>) -> Seq<Seq<char>>
    decreases ps.len(),
{
    if ps.len() == 0 {
        Seq::empty()
    } else {
        let r = later_components(ps.drop_last());
        let l = ps.last();
        if l.len() == 0 || l == cur_mark() {
            r
        } else {
            r.push(l)
        }
    }
}

/// The components of a path, as `Path::components` yields them: the root
/// as `/`, a `.` that starts a relative path as `.`, `..` as `..`, and each
/// name as itself.
pub open spec fn components(p: Seq<char>) -> Seq<Seq<char>> {
    let ps = pieces(p, '/');
    let head = if p.len() > 0 && p[0] == '/' {
        seq![root_mark()]
    } else if ps[0].len() == 0 {
        Seq::<Seq<char>>::empty()
    } else {
        seq![ps[0]]
    };
    head + later_components(ps.drop_first())
}

/// The component is a name (not the root, `.` or `..`).
pub open spec fn is_name(c: Seq<char>) -> bool {
    c != root_mark() && c != cur_mark() && c != parent_mark()
}

/// The path has a file name: its last component is a name.
pub open spec fn has_file_name(p: Seq<char>) -> bool {
    components(p).len() > 0 && is_name(components(p).last())
}

/// The path's file name has the extension `hxt` (as `Path::extension`
/// reads it): the name ends in `.hxt` and that dot is not its first
/// character.
pub open spec fn is_hxt(p: Seq<char>) -> bool {
    has_file_name(p) && {
        let n = components(p).last();
        &&& n.len() > 4
        &&& n[n.len() - 4] == '.'
        &&& n[n.len() - 3] == 'h'
        &&& n[n.len() - 2] == 'x'
        &&& n[n.len() - 1] == 't'
    }
}

/// Where a component falls in the order of components: the root, then
/// `.`, then `..`, then names.
pub open spec fn component_rank(c: Seq<char>) -> int {
    if c == root_mark() {
        0
    } else if c == cur_mark() {
        1
    } else if c == parent_mark() {
        2
    } else {
        3
    }
}

/// Strict order of components; names compare as texts.
pub open spec fn component_lt(a: Seq<char>, b: Seq<char>) -> bool {
    component_rank(a) < component_rank(b) || (component_rank(a) == 3 && component_rank(b) == 3
        && text_lt(a, b))
}

/// Strict lexicographic order of component lists, a proper prefix first.
pub open spec fn components_lt(a: Seq<Seq<char>>, b: Seq<Seq<char>>) -> bool
    decreases a.len(),
{
    if b.len() == 0 {
        false
    } else if a.len() == 0 {
        true
    } else if a[0] != b[0] {
        component_lt(a[0], b[0])
    } else {
        components_lt(a.drop_first(), b.drop_first())
    }
}

/// Path `a` sorts strictly before path `b`, as `Path`'s `Ord` has it.
pub open spec fn path_lt(a: Seq<char>, b: Seq<char>) -> bool {
    components_lt(components(a), components(b))
}

proof fn lemma_component_order(a: Seq<char>, b: Seq<char>, c: Seq<char>)
    ensures
        !component_lt(a, a),
        a == b || component_lt(a, b) || component_lt(b, a),
        component_lt(a, b) && component_lt(b, c) ==> component_lt(a, c),
{
    lemma_text_lt_irreflexive(a);
    lemma_text_lt_trichotomy(a, b);
    if component_lt(a, b) && component_lt(b, c) && component_rank(a) == 3 && component_rank(c) == 3 {
        lemma_text_lt_transitive(a, b, c);
    }
}

/// No path list comes before itself.
pub proof fn lemma_components_lt_irreflexive(a: Seq<Seq<char>>)
    ensures
        !components_lt(a, a),
    decreases a.len(),
{
    if a.len() > 0 {
        lemma_components_lt_irreflexive(a.drop_first());
    }
}

/// Two component lists are equal or one comes before the other.
pub proof fn lemma_components_lt_trichotomy(a: Seq<Seq<char>>, b: Seq<Seq<char>>)
    ensures
        a == b || components_lt(a, b) || components_lt(b, a),
    decreases a.len(),
{
    if a.len() == 0 && b.len() == 0 {
        assert(a =~= b);
    } else if a.len() > 0 && b.len() > 0 {
        lemma_component_order(a[0], b[0], b[0]);
        if a[0] == b[0] {
            lemma_components_lt_trichotomy(a.drop_first(), b.drop_first());
            if a.drop_first() == b.drop_first() {
                assert(a =~= seq![a[0]] + a.drop_first());
                assert(b =~= seq![b[0]] + b.drop_first());
            }
        }
    }
}

/// The order of component lists is transitive.
pub proof fn lemma_components_lt_transitive(a: Seq<Seq<char>>, b: Seq<Seq<char>>, c: Seq<Seq<char>>)
    requires
        components_lt(a, b),
        components_lt(b, c),
    ensures
        components_lt(a, c),
    decreases a.len(),
{
    if a.len() > 0 {
        lemma_component_order(a[0], b[0], c[0]);
        if a[0] == b[0] && b[0] == c[0] {
            lemma_components_lt_transitive(a.drop_first(), b.drop_first(), c.drop_first());
        }
    }
}

/// The characters of each component.
pub open spec fn comps_view(v: Seq<Vec<char>>) -> Seq<Seq<char>> {
    char_lines(v)
}

/// Whether two texts are equal.
pub fn same_chars(a: &Vec<char>, b: &Vec<char>) -> (r: bool)
    ensures
        r == (a@ == b@),
{
    if a.len() != b.len() {
        return false;
    }
    let mut i: usize = 0;
    while i < a.len()
        invariant
            i <= a@.len() == b@.len(),
            a@.take(i as int) == b@.take(i as int),
        decreases a@.len() - i,
    {
        if a[i] != b[i] {
            return false;
        }
        assert(a@.take(i + 1) =~= a@.take(i as int).push(a@[i as int]));
        assert(b@.take(i + 1) =~= b@.take(i as int).push(b@[i as int]));
        i += 1;
    }
    assert(a@ =~= a@.take(i as int));
    assert(b@ =~= b@.take(i as int));
    true
}

fn rank_of(c: &Vec<char>) -> (r: u8)
    ensures
        r as int == component_rank(c@),
{
    if c.len() == 1 && c[0] == '/' {
        assert(c@ =~= root_mark());
        0
    } else if c.len() == 1 && c[0] == '.' {
        assert(c@ =~= cur_mark());
        1
    } else if c.len() == 2 && c[0] == '.' && c[1] == '.' {
        assert(c@ =~= parent_mark());
        2
    } else {
        assert(c@ != root_mark() && c@ != cur_mark() && c@ != parent_mark()) by {
            if c@ == root_mark() {
                assert(c@[0] == '/');
            }
            if c@ == cur_mark() {
                assert(c@[0] == '.');
            }
            if c@ == parent_mark() {
                assert(c@[0] == '.' && c@[1] == '.');
            }
        }
        3
    }
}

fn component_lt_exec(a: &Vec<char>, b: &Vec<char>) -> (r: bool)
    ensures
        r == component_lt(a@, b@),
{
    let ra = rank_of(a);
    let rb = rank_of(b);
    ra < rb || (ra == 3 && rb == 3 && text_lt_exec(a, b))
}

/// Whether component list `a` sorts strictly before `b`.
pub fn components_lt_exec(a: &Vec<Vec<char>>, b: &Vec<Vec<char>>) -> (r: bool)
    ensures
        r == components_lt(comps_view(a@), comps_view(b@)),
{
    let ghost va = comps_view(a@);
    let ghost vb = comps_view(b@);
    let mut i: usize = 0;
    assert(va.skip(0) =~= va);
    assert(vb.skip(0) =~= vb);
    while i < a.len() && i < b.len() && same_chars(&a[i], &b[i])
        invariant
            va == comps_view(a@),
            vb == comps_view(b@),
            i <= a@.len(),
            i <= b@.len(),
            components_lt(va, vb) == components_lt(va.skip(i as int), vb.skip(i as int)),
        decreases a@.len() - i,
    {
        assert(va.skip(i as int).drop_first() =~= va.skip(i + 1));
        assert(vb.skip(i as int).drop_first() =~= vb.skip(i + 1));
        assert(va.skip(i as int)[0] == vb.skip(i as int)[0]);
        i += 1;
    }
    if i == b.len() {
        false
    } else if i == a.len() {
        true
    } else {
        assert(va.skip(i as int)[0] == a@[i as int]@);
        assert(vb.skip(i as int)[0] == b@[i as int]@);
        component_lt_exec(&a[i], &b[i])
    }
}

/// The components of `p` (see [`components`]).
pub fn components_of(p: &Vec<char>) -> (r: Vec<Vec<char>>)
    ensures
        comps_view(r@) == components(p@),
{
    let ps = split_chars(p, '/');
    proof {
        crate::text::lemma_pieces_len(p@, '/');
    }
    let ghost pv = pieces(p@, '/');
    let mut out: Vec<Vec<char>> = Vec::new();
    if p.len() > 0 && p[0] == '/' {
        let mut r: Vec<char> = Vec::new();
        r.push('/');
        out.push(r);
    } else if ps[0].len() > 0 {
        out.push(ps[0].clone());
    }
    assert(ps@[0]@ == pv[0]);
    let ghost head = comps_view(out@);
    assert(pv.drop_first().subrange(0, 0) =~= Seq::<Seq<char>>::empty());
    let mut i: usize = 1;
    while i < ps.len()
        invariant
            1 <= i <= ps@.len(),
            char_lines(ps@) == pv,
            comps_view(out@) == head + later_components(pv.drop_first().subrange(0, i - 1)),
        decreases ps@.len() - i,
    {
        let ghost before = comps_view(out@);
        let ghost rest = pv.drop_first().subrange(0, i as int);
        assert(rest.drop_last() =~= pv.drop_first().subrange(0, i - 1));
        assert(rest.last() == ps@[i as int]@);
        let piece = &ps[i];
        let skip = piece.len() == 0 || (piece.len() == 1 && piece[0] == '.');
        if piece.len() == 1 && piece[0] == '.' {
            assert(piece@ =~= cur_mark());
        }
        proof {
            if piece@ == cur_mark() {
                assert(piece@[0] == '.');
            }
        }
        if !skip {
            out.push(piece.clone());
            assert(comps_view(out@) =~= before.push(piece@));
        }
        i += 1;
    }
    assert(pv.drop_first().subrange(0, i - 1) =~= pv.drop_first());
    out
}

/// Whether the path's file name has the extension `hxt`.
pub fn is_hxt_path(p: &Vec<char>) -> (r: bool)
    ensures
        r == is_hxt(p@),
{
    let cs = components_of(p);
    if cs.len() == 0 {
        return false;
    }
    let n = &cs[cs.len() - 1];
    assert(n@ == components(p@).last());
    let rank = rank_of(n);
    let k = n.len();
    rank == 3 && k > 4 && n[k - 4] == '.' && n[k - 3] == 'h' && n[k - 2] == 'x' && n[k - 1] == 't'
}

/// The directory name `exercises`.
pub open spec fn exercises_name() -> Seq<char> {
    seq!['e', 'x', 'e', 'r', 'c', 'i', 's', 'e', 's']
}

/// `name` joined onto `dir`, as `Path::join` does for a relative name.
pub open spec fn joined(dir: Seq<char>, name: Seq<char>) -> Seq<char> {
    if dir.len() == 0 {
        name
    } else if dir.last() == '/' {
        dir + name
    } else {
        dir + seq!['/'] + name
    }
}

/// The exercises directory for the working directory `cwd`: `cwd` itself
/// when its last component is `exercises`, else `cwd` joined with
/// `exercises`.
pub fn exercises_dir_for(cwd: &str) -> (r: String)
    ensures
        r@ == if components(cwd@).len() > 0 && components(cwd@).last() == exercises_name() {
            cwd@
        } else {
            joined(cwd@, exercises_name())
        },
{
    let s = chars_of(cwd);
    let cs = components_of(&s);
    let mut name: Vec<char> = Vec::new();
    push_str(&mut name, "exercises");
    proof {
        reveal_strlit("exercises");
    }
    assert(name@ =~= exercises_name());
    if cs.len() > 0 && same_chars(&cs[cs.len() - 1], &name) {
        assert(cs@[cs.len() - 1]@ == components(cwd@).last());
        return cwd.to_owned();
    }
    let mut out: Vec<char> = Vec::new();
    push_str(&mut out, cwd);
    if s.len() > 0 && s[s.len() - 1] != '/' {
        out.push('/');
    }
    push_str(&mut out, "exercises");
    let r = string_of(&out);
    assert(r@ =~= joined(cwd@, exercises_name()));
    r
}

} // verus!
