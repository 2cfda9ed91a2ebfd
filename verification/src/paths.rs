//! Path text, through `camino`'s UTF-8 paths. Where a path operation is a few
//! lines of rules, the rules are written out here as the Unix rules that
//! `std::path::Path` documents (`camino` delegates to it): `/` separates
//! components, a leading `/` is the root, empty pieces and `.` pieces inside a
//! path are dropped, and a leading `.` piece of a relative path is kept.
use crate::text::{join, lemma_split_on_nonempty, split_on, str_eq};
use crate::value_map::{lemma_lex_lt_asymmetric, lemma_lex_lt_transitive, lex_lt, str_lt};
use vstd::prelude::*;

verus! {


/// Whether a path text starts at the root: it begins with `/`.
pub open spec fn is_rooted(path: Seq<char>) -> bool {
    path.len() > 0 && path[0] == '/'
}

/// `tail` joined onto `base`, as `camino::Utf8Path::join` gives it: an absolute
/// `tail` replaces `base`; otherwise `tail` follows `base`, with one `/` put
/// between them unless `base` is empty or already ends in `/`.
pub open spec fn camino_join(base: Seq<char>, tail: Seq<char>) -> Seq<char> {
    if is_rooted(tail) {
        tail
    } else if base.len() == 0 || base.last() == '/' {
        base + tail
    } else {
        base + seq!['/'] + tail
    }
}

/// `camino::Utf8Path::file_name`: its result is the name [`camino_file_name`]
/// gives for the same path text.
#[verifier::external_body]
pub(crate) fn path_file_name(path: &str) -> (r: Option<String>)
    ensures
        match r {
            Some(s) => camino_file_name(path@) == Some(s@),
            None => camino_file_name(path@) is None,
        },
{
    camino::Utf8Path::new(path).file_name().map(|s| s.to_owned())
}

/// `camino::Utf8Path::join`: its result is the text [`camino_join`] gives for
/// the same arguments.
#[verifier::external_body]
pub(crate) fn path_join(base: &str, tail: &str) -> (r: String)
    ensures
        r@ == camino_join(base@, tail@),
{
    camino::Utf8Path::new(base).join(tail).into_string()
}


/// The final component of a path, as `camino::Utf8Path::file_name` gives it:
/// the last component where it is a name, `None` where the path ends in the
/// root, `.` or `..`, or has no component.
pub open spec fn camino_file_name(path: Seq<char>) -> Option<Seq<char>> {
    let c = camino_components(path);
    if c.len() > 0 && c.last() != seq!['/'] && c.last() != seq!['.'] && c.last() != seq!['.', '.'] {
        Some(c.last())
    } else {
        None
    }
}

/// A `/`-separated piece of a path that stands for a component of its body:
/// neither empty nor `.`.
pub open spec fn named_piece(piece: Seq<char>) -> bool {
    piece.len() > 0 && piece != seq!['.']
}

/// The pieces that are named pieces, in order.
pub open spec fn named_pieces(pieces: Seq<Seq<char>>) -> Seq<Seq<char>>
    decreases pieces.len(),
{
    if pieces.len() == 0 {
        Seq::empty()
    } else {
        let rest = named_pieces(pieces.drop_last());
        if named_piece(pieces.last()) {
            rest.push(pieces.last())
        } else {
            rest
        }
    }
}

/// The components of a path, as `camino::Utf8Path::components` gives them as
/// text: `/` for a root; `.` for a relative path whose first piece is `.`; then
/// each piece that is neither empty nor `.`, in order (`..` included).
#[verifier::opaque]
pub open spec fn camino_components(path: Seq<char>) -> Seq<Seq<char>> {
    let pieces = split_on(path, '/');
    let lead = if is_rooted(path) {
        seq![seq!['/']]
    } else if pieces[0] == seq!['.'] {
        seq![seq!['.']]
    } else {
        Seq::<Seq<char>>::empty()
    };
    lead + named_pieces(pieces)
}

/// Splitting at a separator that joins two texts splits each of them.
pub proof fn lemma_split_concat(a: Seq<char>, b: Seq<char>, sep: char)
    ensures
        split_on(a + seq![sep] + b, sep) == split_on(a, sep) + split_on(b, sep),
    decreases b.len(),
{
    let s = a + seq![sep] + b;
    if b.len() == 0 {
        assert(s.drop_last() =~= a);
        assert(split_on(s, sep) =~= split_on(a, sep) + split_on(b, sep));
    } else {
        lemma_split_concat(a, b.drop_last(), sep);
        assert(s.drop_last() =~= a + seq![sep] + b.drop_last());
        lemma_split_on_nonempty(b.drop_last(), sep);
        let l = split_on(a, sep);
        let m = split_on(b.drop_last(), sep);
        if b.last() == sep {
            assert((l + m).push(Seq::<char>::empty()) =~= l + m.push(Seq::<char>::empty()));
        } else {
            let c = b.last();
            assert((l + m).update((l + m).len() - 1, (l + m).last().push(c)) =~= l + m.update(
                m.len() - 1,
                m.last().push(c),
            ));
        }
    }
}

/// A text without the separator splits into itself alone.
pub proof fn lemma_split_whole(s: Seq<char>, sep: char)
    requires
        !s.contains(sep),
    ensures
        split_on(s, sep) == seq![s],
    decreases s.len(),
{
    if s.len() > 0 {
        assert(!s.drop_last().contains(sep)) by {
            if s.drop_last().contains(sep) {
                let k = choose|k: int| 0 <= k < s.drop_last().len() && s.drop_last()[k] == sep;
                assert(s[k] == sep);
            }
        }
        lemma_split_whole(s.drop_last(), sep);
        assert(s.last() != sep) by {
            assert(s[s.len() - 1] == s.last());
        }
        assert(s.drop_last().push(s.last()) =~= s);
        let r = split_on(s.drop_last(), sep);
        assert(r.update(r.len() - 1, r.last().push(s.last())) =~= seq![s]);
    } else {
        assert(s =~= Seq::<char>::empty());
    }
}

/// Pieces joined with `/`, none holding `/`, split back into those pieces.
pub proof fn lemma_split_join(pieces: Seq<Seq<char>>)
    requires
        pieces.len() >= 1,
        forall|i: int| 0 <= i < pieces.len() ==> !(#[trigger] pieces[i]).contains('/'),
    ensures
        split_on(join(pieces, "/"@), '/') == pieces,
    decreases pieces.len(),
{
    reveal_strlit("/");
    if pieces.len() == 1 {
        lemma_split_whole(pieces[0], '/');
        assert(seq![pieces[0]] =~= pieces);
    } else {
        let init = pieces.drop_last();
        assert forall|i: int| 0 <= i < init.len() implies !(#[trigger] init[i]).contains('/') by {
            assert(init[i] == pieces[i]);
        }
        lemma_split_join(init);
        assert(!pieces.last().contains('/')) by {
            assert(pieces[pieces.len() - 1] == pieces.last());
        }
        lemma_split_whole(pieces.last(), '/');
        lemma_split_concat(join(init, "/"@), pieces.last(), '/');
        assert(join(pieces, "/"@) == join(init, "/"@) + seq!['/'] + pieces.last());
        assert(init + seq![pieces.last()] =~= pieces);
    }
}

/// Keeping the named pieces of two lists keeps those of each.
pub proof fn lemma_named_pieces_concat(a: Seq<Seq<char>>, b: Seq<Seq<char>>)
    ensures
        named_pieces(a + b) == named_pieces(a) + named_pieces(b),
    decreases b.len(),
{
    if b.len() == 0 {
        assert(a + b =~= a);
        assert(named_pieces(a) + named_pieces(b) =~= named_pieces(a));
    } else {
        lemma_named_pieces_concat(a, b.drop_last());
        assert((a + b).drop_last() =~= a + b.drop_last());
        assert((a + b).last() == b.last());
        if named_piece(b.last()) {
            assert((named_pieces(a) + named_pieces(b.drop_last())).push(b.last()) =~= named_pieces(a)
                + named_pieces(b.drop_last()).push(b.last()));
        }
    }
}

/// A list of named pieces keeps all of them.
pub proof fn lemma_named_pieces_all(pieces: Seq<Seq<char>>)
    requires
        forall|i: int| 0 <= i < pieces.len() ==> named_piece(#[trigger] pieces[i]),
    ensures
        named_pieces(pieces) == pieces,
    decreases pieces.len(),
{
    if pieces.len() > 0 {
        let init = pieces.drop_last();
        assert forall|i: int| 0 <= i < init.len() implies named_piece(#[trigger] init[i]) by {
            assert(init[i] == pieces[i]);
        }
        lemma_named_pieces_all(init);
        assert(named_piece(pieces[pieces.len() - 1]));
        assert(init.push(pieces.last()) =~= pieces);
    }
}

/// `camino::Utf8Path::components`, each as text (see [`camino_components`]).
#[verifier::external_body]
pub(crate) fn path_components(path: &str) -> (r: Vec<String>)
    ensures
        r@.map_values(|s: String| s@) == camino_components(path@),
{
    camino::Utf8Path::new(path).components().map(|c| c.as_str().to_owned()).collect()
}

/// What is left of `path` once the whole leading components of `base` are
/// taken off, as `camino::Utf8Path::strip_prefix` gives it (`None` where
/// `base` is not a prefix of `path`).
pub uninterp spec fn camino_strip_prefix(path: Seq<char>, base: Seq<char>) -> Option<Seq<char>>;

/// Whether a path is absolute, as `camino::Utf8Path::is_absolute` says: on Unix,
/// whether it has a root.
pub open spec fn camino_is_absolute(path: Seq<char>) -> bool {
    is_rooted(path)
}

/// The path without its final component, as `camino::Utf8Path::parent` gives
/// it (`None` for a root or an empty path).
pub uninterp spec fn camino_parent(path: Seq<char>) -> Option<Seq<char>>;

/// Whether `base` is a leading run of whole components of `path`, as
/// `camino::Utf8Path::starts_with` says: the components of `base` begin the
/// components of `path`.
pub open spec fn camino_starts_with(path: Seq<char>, base: Seq<char>) -> bool {
    camino_components(base).is_prefix_of(camino_components(path))
}

/// `camino::Utf8Path::strip_prefix`, its error turned into `None`: the result
/// is what [`camino_strip_prefix`] gives for the same arguments. It succeeds
/// exactly where `path` starts with `base` (the same component walk as
/// `starts_with`), and what is left holds the components of `path` after those
/// of `base`.
#[verifier::external_body]
pub(crate) fn path_strip_prefix(path: &str, base: &str) -> (r: Option<String>)
    ensures
        r is Some <==> camino_starts_with(path@, base@),
        match r {
            Some(s) => {
                &&& camino_strip_prefix(path@, base@) == Some(s@)
                &&& camino_components(s@) == camino_components(path@).skip(camino_components(base@).len() as int)
            },
            None => camino_strip_prefix(path@, base@) is None,
        },
{
    camino::Utf8Path::new(path).strip_prefix(base).ok().map(|p| p.as_str().to_owned())
}

/// `camino::Utf8Path::is_absolute` (see [`camino_is_absolute`]).
#[verifier::external_body]
pub(crate) fn path_is_absolute(path: &str) -> (r: bool)
    ensures
        r == camino_is_absolute(path@),
{
    camino::Utf8Path::new(path).is_absolute()
}

/// `camino::Utf8Path::parent` (see [`camino_parent`]).
#[verifier::external_body]
pub(crate) fn path_parent(path: &str) -> (r: Option<String>)
    ensures
        match r {
            Some(s) => camino_parent(path@) == Some(s@),
            None => camino_parent(path@) is None,
        },
{
    camino::Utf8Path::new(path).parent().map(|p| p.as_str().to_owned())
}

/// `camino::Utf8Path::starts_with` (see [`camino_starts_with`]).
#[verifier::external_body]
pub(crate) fn path_starts_with(path: &str, base: &str) -> (r: bool)
    ensures
        r == camino_starts_with(path@, base@),
{
    camino::Utf8Path::new(path).starts_with(base)
}

/// `==` on `camino::Utf8Path`, which compares the two paths component by
/// component: true exactly when [`camino_components`] gives the same list.
#[verifier::external_body]
pub(crate) fn paths_equal(a: &str, b: &str) -> (r: bool)
    ensures
        r == (camino_components(a@) == camino_components(b@)),
{
    camino::Utf8Path::new(a) == camino::Utf8Path::new(b)
}

/// The place of a path component in the order of `std::path::Component`: the
/// root, then `.`, then `..`, then names.
pub open spec fn component_rank(c: Seq<char>) -> int {
    if c == seq!['/'] {
        0
    } else if c == seq!['.'] {
        1
    } else if c == seq!['.', '.'] {
        2
    } else {
        3
    }
}

/// Component `a` orders before component `b`: by kind, then names by their text.
pub open spec fn component_lt(a: Seq<char>, b: Seq<char>) -> bool {
    component_rank(a) < component_rank(b) || (component_rank(a) == component_rank(b) && lex_lt(a, b))
}

/// Component list `a` orders before component list `b`, lexicographically.
pub open spec fn components_lt(a: Seq<Seq<char>>, b: Seq<Seq<char>>) -> bool
    decreases a.len(),
{
    if a.len() == 0 {
        b.len() > 0
    } else if b.len() == 0 {
        false
    } else if a[0] == b[0] {
        components_lt(a.drop_first(), b.drop_first())
    } else {
        component_lt(a[0], b[0])
    }
}

/// Path `a` orders before path `b` as `camino::Utf8Path` orders paths:
/// component by component.
pub open spec fn path_lt(a: Seq<char>, b: Seq<char>) -> bool {
    components_lt(camino_components(a), camino_components(b))
}

/// No component list orders before itself.
pub proof fn lemma_components_lt_irreflexive(a: Seq<Seq<char>>)
    ensures
        !components_lt(a, a),
    decreases a.len(),
{
    if a.len() > 0 {
        lemma_components_lt_irreflexive(a.drop_first());
    }
}

/// The order of components is transitive and asymmetric.
proof fn lemma_component_lt_order(a: Seq<char>, b: Seq<char>, c: Seq<char>)
    ensures
        component_lt(a, b) && component_lt(b, c) ==> component_lt(a, c),
        component_lt(a, b) ==> !component_lt(b, a),
{
    if component_lt(a, b) && component_lt(b, c) && component_rank(a) == component_rank(b) && component_rank(b)
        == component_rank(c) {
        lemma_lex_lt_transitive(a, b, c);
    }
    if component_lt(a, b) && component_rank(a) == component_rank(b) {
        lemma_lex_lt_asymmetric(a, b);
    }
}

/// The order of component lists is transitive and asymmetric.
pub proof fn lemma_components_lt_order(a: Seq<Seq<char>>, b: Seq<Seq<char>>, c: Seq<Seq<char>>)
    ensures
        components_lt(a, b) && components_lt(b, c) ==> components_lt(a, c),
        components_lt(a, b) ==> !components_lt(b, a),
    decreases a.len(),
{
    if a.len() > 0 && b.len() > 0 && c.len() > 0 {
        lemma_components_lt_order(a.drop_first(), b.drop_first(), c.drop_first());
        lemma_component_lt_order(a[0], b[0], c[0]);
        lemma_component_lt_order(b[0], a[0], c[0]);
        lemma_component_lt_order(a[0], c[0], b[0]);
    } else if a.len() > 0 && b.len() > 0 {
        lemma_components_lt_order(a.drop_first(), b.drop_first(), b.drop_first());
        lemma_component_lt_order(a[0], b[0], b[0]);
    }
}

/// The place of a component in the order (see [`component_rank`]).
fn rank_of(c: &str) -> (r: u8)
    ensures
        r == component_rank(c@),
{
    proof {
        reveal_strlit("/");
        reveal_strlit(".");
        reveal_strlit("..");
        assert("/"@ =~= seq!['/']);
        assert("."@ =~= seq!['.']);
        assert(".."@ =~= seq!['.', '.']);
    }
    if str_eq(c, "/") {
        0
    } else if str_eq(c, ".") {
        1
    } else if str_eq(c, "..") {
        2
    } else {
        3
    }
}

/// Whether path `a` orders before path `b` (see [`path_lt`]).
pub fn path_before(a: &str, b: &str) -> (r: bool)
    ensures
        r == path_lt(a@, b@),
{
    let ca = path_components(a);
    let cb = path_components(b);
    let ghost sa = camino_components(a@);
    let ghost sb = camino_components(b@);
    assert(ca@.len() == sa.len() && cb@.len() == sb.len());
    let mut i: usize = 0;
    assert(sa.skip(0) =~= sa && sb.skip(0) =~= sb);
    while i < ca.len() && i < cb.len()
        invariant
            i <= ca@.len(),
            i <= cb@.len(),
            ca@.map_values(|s: String| s@) == sa,
            cb@.map_values(|s: String| s@) == sb,
            sa == camino_components(a@),
            sb == camino_components(b@),
            path_lt(a@, b@) == components_lt(sa.skip(i as int), sb.skip(i as int)),
        decreases ca.len() - i,
    {
        assert(sa.skip(i as int)[0] == ca@[i as int]@);
        assert(sb.skip(i as int)[0] == cb@[i as int]@);
        if !str_eq(ca[i].as_str(), cb[i].as_str()) {
            let ra = rank_of(ca[i].as_str());
            let rb = rank_of(cb[i].as_str());
            return ra < rb || (ra == rb && str_lt(ca[i].as_str(), cb[i].as_str()));
        }
        assert(sa.skip(i as int).drop_first() =~= sa.skip(i + 1));
        assert(sb.skip(i as int).drop_first() =~= sb.skip(i + 1));
        i += 1;
    }
    i == ca.len() && i < cb.len()
}

} // verus!
