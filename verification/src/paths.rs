//! Paths as text, with `/` as the separator.

use crate::text::{
    chars_less, chars_of, lemma_lex_irreflexive, lemma_lex_total, lemma_lex_transitive, lex_less,
    rows, same_chars, same_text, split, split_chars, split_gives_a_piece, split_of_joined,
    string_of, texts,
};
use vstd::prelude::*;
use vstd::string::*;

verus! {

/// A path that starts at the root.
pub open spec fn is_absolute(path: Seq<char>) -> bool {
    path.len() > 0 && path[0] == '/'
}

/// `rel` seen from `base`: an absolute `rel` stands for itself; otherwise
/// it follows `base`, with one separator between them unless `base` is
/// empty or already ends in one.
pub open spec fn join(base: Seq<char>, rel: Seq<char>) -> Seq<char> {
    if is_absolute(rel) {
        rel
    } else if base.len() == 0 || base.last() == '/' {
        base + rel
    } else {
        base.push('/') + rel
    }
}

/// The characters of `path` after its last separator.
pub open spec fn file_name(path: Seq<char>) -> Seq<char>
    decreases path.len(),
{
    if path.len() == 0 || path.last() == '/' {
        Seq::empty()
    } else {
        file_name(path.drop_last()).push(path.last())
    }
}

/// Whether the file name of `path` is a non-empty stem followed by
/// `.desktop`.
pub open spec fn is_desktop_file(path: Seq<char>) -> bool {
    let name = file_name(path);
    name.len() > 8 && name.skip(name.len() - 8) == ".desktop"@
}

/// The file name starts right behind the last separator: at `start`, if no
/// separator follows and one stands just before, or `start` is the front.
pub proof fn lemma_file_name_is_suffix(path: Seq<char>, start: int)
    requires
        0 <= start <= path.len(),
        start == 0 || path[start - 1] == '/',
        forall|i: int| start <= i < path.len() ==> path[i] != '/',
    ensures
        file_name(path) == path.skip(start),
    decreases path.len() - start,
{
    if start == path.len() {
        assert(path.skip(start) == Seq::<char>::empty());
    } else {
        let shorter = path.drop_last();
        lemma_file_name_is_suffix(shorter, start);
        assert(shorter.skip(start).push(path.last()) == path.skip(start));
    }
}

/// Where the file name of `v` starts.
pub fn file_name_start(v: &[char]) -> (start: usize)
    ensures
        start <= v.len(),
        file_name(v@) == v@.skip(start as int),
{
    let mut start: usize = v.len();
    while start > 0 && v[start - 1] != '/'
        invariant
            start <= v.len(),
            forall|i: int| start <= i < v.len() ==> v@[i] != '/',
        decreases start,
    {
        start -= 1;
    }
    proof {
        lemma_file_name_is_suffix(v@, start as int);
    }
    start
}

/// The file name of `path`: what follows its last separator.
pub fn file_name_of(path: &str) -> (name: String)
    ensures
        name@ == file_name(path@),
{
    let v = chars_of(path);
    let start = file_name_start(v.as_slice());
    string_of(v.as_slice(), start, v.len())
}

/// Whether `path` names a descriptor file: see [`is_desktop_file`].
pub fn has_desktop_extension(path: &str) -> (r: bool)
    ensures
        r == is_desktop_file(path@),
{
    let v = chars_of(path);
    let start = file_name_start(v.as_slice());
    let suffix = chars_of(".desktop");
    proof {
        reveal_strlit(".desktop");
    }
    if v.len() - start > 8 {
        let ghost name = file_name(v@);
        assert(name.skip(name.len() - 8) == v@.subrange(v.len() - 8, v.len() as int));
        same_chars(v.as_slice(), v.len() - 8, v.len(), suffix.as_slice())
    } else {
        false
    }
}

/// Whether `path` starts at the root.
pub fn path_is_absolute(path: &str) -> (r: bool)
    ensures
        r == is_absolute(path@),
{
    let v = chars_of(path);
    v.len() > 0 && v[0] == '/'
}

/// Joins `rel` onto `base`: see [`join`].
pub fn join_path(base: &str, rel: &str) -> (r: String)
    ensures
        r@ == join(base@, rel@),
{
    let b = chars_of(base);
    let mut out = String::from_str(base);
    if path_is_absolute(rel) {
        return String::from_str(rel);
    }
    if b.len() > 0 && b[b.len() - 1] != '/' {
        out.push('/');
    }
    out.append(rel);
    out
}

/// The piece `.`, which stands for the directory it is found in.
pub open spec fn is_dot(piece: Seq<char>) -> bool {
    piece.len() == 1 && piece[0] == '.'
}

/// The pieces that name something: those that are neither empty nor `.`.
pub open spec fn named(pieces: Seq<Seq<char>>) -> Seq<Seq<char>>
    decreases pieces.len(),
{
    if pieces.len() == 0 {
        Seq::empty()
    } else {
        let before = named(pieces.drop_last());
        if pieces.last().len() == 0 || is_dot(pieces.last()) {
            before
        } else {
            before.push(pieces.last())
        }
    }
}

/// The components of `path`: its pieces between separators, without the
/// empty ones, which repeated and trailing separators leave behind, and
/// without `.`, except for one at the very front.
pub open spec fn components(path: Seq<char>) -> Seq<Seq<char>> {
    let pieces = split(path, '/');
    if is_dot(pieces[0]) {
        seq![pieces[0]] + named(pieces.drop_first())
    } else {
        named(pieces)
    }
}

/// Whether two texts spell the same path: both start at the root or
/// neither does, and they have the same components. `/a/./x`, `/a//x` and
/// `/a/x/` all spell `/a/x`.
pub open spec fn same_path(a: Seq<char>, b: Seq<char>) -> bool {
    is_absolute(a) == is_absolute(b) && components(a) == components(b)
}

/// The pieces that name something in a list are those of its front
/// followed by those of its back.
pub proof fn lemma_named_of_both(front: Seq<Seq<char>>, back: Seq<Seq<char>>)
    ensures
        named(front + back) == named(front) + named(back),
    decreases back.len(),
{
    if back.len() == 0 {
        assert(front + back == front);
        assert(named(front) + named(back) == named(front));
    } else {
        lemma_named_of_both(front, back.drop_last());
        assert((front + back).drop_last() == front + back.drop_last());
        assert((front + back).last() == back.last());
        if !(back.last().len() == 0 || is_dot(back.last())) {
            assert((named(front) + named(back.drop_last())).push(back.last()) == named(front)
                + named(back.drop_last()).push(back.last()));
        }
    }
}

/// A `./` in front of a relative path changes the text of a joined path and
/// not the path: `dir` joined with `./rel` is the same path as `dir` joined
/// with `rel`.
pub proof fn dot_slash_joins_to_the_same_path(dir: Seq<char>, rel: Seq<char>)
    requires
        dir.len() > 0,
        !is_absolute(rel),
    ensures
        same_path(join(dir, seq!['.', '/'] + rel), join(dir, rel)),
{
    let dotted = seq!['.', '/'] + rel;
    let base = if dir.last() == '/' {
        dir.drop_last()
    } else {
        dir
    };
    assert(dotted[0] == '.');
    assert(join(dir, dotted) == base.push('/') + dotted);
    assert(join(dir, rel) == base.push('/') + rel);
    assert(dotted == seq!['.'].push('/') + rel);
    split_of_joined(base, dotted, '/');
    split_of_joined(base, rel, '/');
    split_of_joined(seq!['.'], rel, '/');
    split_gives_a_piece(base, '/');
    let head = split(base, '/');
    let tail = split(rel, '/');
    let dot = split(seq!['.'], '/');
    assert(dot == seq![seq!['.']]) by {
        assert(seq!['.'].drop_last() == Seq::<char>::empty());
        assert(split(Seq::<char>::empty(), '/') == seq![Seq::<char>::empty()]);
        assert(seq![Seq::<char>::empty()].update(0, Seq::<char>::empty().push('.')) == seq![
            seq!['.'],
        ]);
    }
    assert(named(dot) == Seq::<Seq<char>>::empty()) by {
        assert(dot.drop_last() == Seq::<Seq<char>>::empty());
        assert(is_dot(dot.last()));
        assert(named(dot.drop_last()) == Seq::<Seq<char>>::empty());
    }
    let with_dot = head + (dot + tail);
    let without = head + tail;
    assert(split(join(dir, dotted), '/') == with_dot);
    assert(split(join(dir, rel), '/') == without);
    assert(with_dot[0] == without[0]);
    lemma_named_of_both(dot, tail);
    assert(named(dot + tail) == named(tail));
    if is_dot(head[0]) {
        assert(with_dot.drop_first() == head.drop_first() + (dot + tail));
        assert(without.drop_first() == head.drop_first() + tail);
        lemma_named_of_both(head.drop_first(), dot + tail);
        lemma_named_of_both(head.drop_first(), tail);
    } else {
        lemma_named_of_both(head, dot + tail);
        lemma_named_of_both(head, tail);
    }
}

/// The components of `path`: see [`components`].
pub fn path_components(path: &str) -> (r: Vec<String>)
    ensures
        texts(r@) == components(path@),
{
    let chars = chars_of(path);
    let pieces = split_chars(chars.as_slice(), '/');
    let ghost all = split(path@, '/');
    proof {
        split_gives_a_piece(path@, '/');
    }
    let mut out: Vec<String> = Vec::new();
    let mut i: usize = 0;
    if pieces[0].len() == 1 && pieces[0][0] == '.' {
        assert(pieces@[0]@.subrange(0, 1) == pieces@[0]@);
        out.push(string_of(pieces[0].as_slice(), 0, 1));
        i = 1;
    }
    let ghost front = texts(out@);
    let start = i;
    assert(all.subrange(start as int, start as int) == Seq::<Seq<char>>::empty());
    assert(front + Seq::<Seq<char>>::empty() == front);
    while i < pieces.len()
        invariant
            start <= i <= pieces.len(),
            rows(pieces@) == all,
            texts(out@) == front + named(all.subrange(start as int, i as int)),
        decreases pieces.len() - i,
    {
        let piece = pieces[i].as_slice();
        assert(all.subrange(start as int, i + 1).drop_last() == all.subrange(
            start as int,
            i as int,
        ));
        assert(all.subrange(start as int, i + 1).last() == piece@);
        if piece.len() > 0 && !(piece.len() == 1 && piece[0] == '.') {
            let ghost so_far = texts(out@);
            assert(piece@.subrange(0, piece@.len() as int) == piece@);
            out.push(string_of(piece, 0, piece.len()));
            assert(texts(out@) == so_far.push(piece@));
        }
        i += 1;
    }
    proof {
        if start == 1 {
            assert(front == seq![all[0]]);
            assert(all.subrange(1, all.len() as int) == all.drop_first());
        } else {
            assert(all.subrange(0, all.len() as int) == all);
            assert(front + named(all) == named(all));
        }
    }
    out
}

/// Whether `a` and `b` spell the same path: see [`same_path`].
pub fn is_same_path(a: &str, b: &str) -> (r: bool)
    ensures
        r == same_path(a@, b@),
{
    if path_is_absolute(a) != path_is_absolute(b) {
        return false;
    }
    let x = path_components(a);
    let y = path_components(b);
    if x.len() != y.len() {
        assert(texts(x@).len() != texts(y@).len());
        return false;
    }
    let mut i: usize = 0;
    while i < x.len()
        invariant
            i <= x.len(),
            x.len() == y.len(),
            texts(x@) == components(a@),
            texts(y@) == components(b@),
            is_absolute(a@) == is_absolute(b@),
            forall|j: int| 0 <= j < i ==> texts(x@)[j] == texts(y@)[j],
        decreases x.len() - i,
    {
        if !same_text(x[i].as_str(), y[i].as_str()) {
            assert(texts(x@)[i as int] != texts(y@)[i as int]);
            assert(texts(x@) != texts(y@));
            return false;
        }
        i += 1;
    }
    assert(texts(x@) =~= texts(y@));
    true
}

/// The piece `..`, which stands for the directory above.
pub open spec fn is_dot_dot(piece: Seq<char>) -> bool {
    piece.len() == 2 && piece[0] == '.' && piece[1] == '.'
}

/// Where a component stands among the kinds of components: `.` first, then
/// `..`, then names.
pub open spec fn rank(component: Seq<char>) -> int {
    if is_dot(component) {
        0
    } else if is_dot_dot(component) {
        1
    } else {
        2
    }
}

/// The order of components: `.` before `..`, `..` before every name, and
/// names in the lexicographic order of their characters, which is also that
/// of their bytes.
pub open spec fn component_less(a: Seq<char>, b: Seq<char>) -> bool {
    rank(a) < rank(b) || (rank(a) == rank(b) && lex_less(a, b))
}

/// The lexicographic order of lists of components.
pub open spec fn components_less(a: Seq<Seq<char>>, b: Seq<Seq<char>>) -> bool
    decreases a.len(),
{
    if b.len() == 0 {
        false
    } else if a.len() == 0 {
        true
    } else if a[0] != b[0] {
        component_less(a[0], b[0])
    } else {
        components_less(a.drop_first(), b.drop_first())
    }
}

/// The order of paths: component by component, with the root as a
/// component that comes before every other. So a path that starts at the
/// root comes before every relative path but the one without components,
/// and two paths of the same kind compare by their components.
///
/// The order goes by the path, not by its spelling: `/a/b` comes before
/// `/a-b`, because `a` comes before `a-b`, and `/a/./b` stands where `/a/b`
/// does.
pub open spec fn path_less(a: Seq<char>, b: Seq<char>) -> bool {
    if is_absolute(a) == is_absolute(b) {
        components_less(components(a), components(b))
    } else if is_absolute(a) {
        components(b).len() > 0
    } else {
        components(a).len() == 0
    }
}

/// No list of components comes before itself.
pub proof fn lemma_components_irreflexive(a: Seq<Seq<char>>)
    ensures
        !components_less(a, a),
    decreases a.len(),
{
    if a.len() > 0 {
        lemma_components_irreflexive(a.drop_first());
    }
}

/// The order of lists of components is transitive.
pub proof fn lemma_components_transitive(a: Seq<Seq<char>>, b: Seq<Seq<char>>, c: Seq<Seq<char>>)
    requires
        components_less(a, b),
        components_less(b, c),
    ensures
        components_less(a, c),
    decreases a.len(),
{
    if a.len() > 0 {
        if a[0] == b[0] && b[0] == c[0] {
            lemma_components_transitive(a.drop_first(), b.drop_first(), c.drop_first());
        } else if a[0] != b[0] && b[0] != c[0] {
            if rank(a[0]) == rank(b[0]) && rank(b[0]) == rank(c[0]) {
                lemma_lex_transitive(a[0], b[0], c[0]);
            }
            lemma_lex_irreflexive(a[0]);
        }
    }
}

/// Of two different lists of components one comes before the other.
pub proof fn lemma_components_total(a: Seq<Seq<char>>, b: Seq<Seq<char>>)
    ensures
        components_less(a, b) || components_less(b, a) || a == b,
    decreases a.len(),
{
    if a.len() > 0 && b.len() > 0 {
        if a[0] == b[0] {
            lemma_components_total(a.drop_first(), b.drop_first());
            if a.drop_first() == b.drop_first() {
                assert(a =~= seq![a[0]] + a.drop_first());
                assert(b =~= seq![b[0]] + b.drop_first());
            }
        } else {
            lemma_lex_total(a[0], b[0]);
        }
    } else if a.len() == 0 && b.len() == 0 {
        assert(a =~= b);
    }
}

/// No path comes before itself, nor before another spelling of itself.
pub proof fn lemma_path_irreflexive(a: Seq<char>, b: Seq<char>)
    requires
        same_path(a, b),
    ensures
        !path_less(a, b),
{
    lemma_components_irreflexive(components(a));
}

/// The order of paths is transitive.
pub proof fn lemma_path_transitive(a: Seq<char>, b: Seq<char>, c: Seq<char>)
    requires
        path_less(a, b),
        path_less(b, c),
    ensures
        path_less(a, c),
{
    if is_absolute(a) == is_absolute(b) && is_absolute(b) == is_absolute(c) {
        lemma_components_transitive(components(a), components(b), components(c));
    }
}

/// Of two paths one comes before the other, unless they are the same path.
pub proof fn lemma_path_total(a: Seq<char>, b: Seq<char>)
    ensures
        path_less(a, b) || path_less(b, a) || same_path(a, b),
{
    lemma_components_total(components(a), components(b));
}

/// Where a component stands among the kinds of components: see [`rank`].
fn component_rank(component: &[char]) -> (r: u8)
    ensures
        r == rank(component@),
{
    if component.len() == 1 && component[0] == '.' {
        0
    } else if component.len() == 2 && component[0] == '.' && component[1] == '.' {
        1
    } else {
        2
    }
}

/// Whether the component `a` comes before the component `b`: see
/// [`component_less`].
pub fn component_before(a: &str, b: &str) -> (r: bool)
    ensures
        r == component_less(a@, b@),
{
    let x = chars_of(a);
    let y = chars_of(b);
    let rx = component_rank(x.as_slice());
    let ry = component_rank(y.as_slice());
    rx < ry || (rx == ry && chars_less(x.as_slice(), y.as_slice()))
}

/// Whether the path `a` comes before the path `b`: see [`path_less`].
pub fn path_before(a: &str, b: &str) -> (r: bool)
    ensures
        r == path_less(a@, b@),
{
    let x = path_components(a);
    let y = path_components(b);
    let a_absolute = path_is_absolute(a);
    let b_absolute = path_is_absolute(b);
    if a_absolute != b_absolute {
        return if a_absolute {
            y.len() > 0
        } else {
            x.len() == 0
        };
    }
    let ghost ca = texts(x@);
    let ghost cb = texts(y@);
    let mut i: usize = 0;
    assert(ca.skip(0) == ca && cb.skip(0) == cb);
    while i < x.len() && i < y.len() && same_text(x[i].as_str(), y[i].as_str())
        invariant
            i <= x.len(),
            i <= y.len(),
            ca == texts(x@),
            cb == texts(y@),
            components_less(ca, cb) == components_less(ca.skip(i as int), cb.skip(i as int)),
        decreases x.len() - i,
    {
        assert(ca.skip(i as int).drop_first() == ca.skip(i + 1));
        assert(cb.skip(i as int).drop_first() == cb.skip(i + 1));
        i += 1;
    }
    if i >= y.len() {
        false
    } else if i >= x.len() {
        true
    } else {
        assert(ca.skip(i as int)[0] == x@[i as int]@);
        assert(cb.skip(i as int)[0] == y@[i as int]@);
        component_before(x[i].as_str(), y[i].as_str())
    }
}

} // verus!
