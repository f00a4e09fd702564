//! What holds of every path.

use crate::path::{
    collect, components, file_name, has_leading_dot, has_root, inner_components, is_component,
    is_single, join, lemma_components_join, lemma_components_parent, lemma_components_single,
    lemma_single, lemma_spans, lemma_strip_prefix,
    parent, parts_at, relative, spans, spans_from, starts_with, strip_prefix, SLASH,
};
use crate::text::{
    find_from, lemma_find_from, lemma_find_from_unique, lemma_split_concat, split, split_from,
};
use vstd::prelude::*;

verus! {

/// Whether a piece between slashes is a name: neither empty nor a dot.
pub open spec fn is_name(piece: Seq<u8>) -> bool {
    piece.len() > 0 && piece != seq![46u8]
}

/// The names among the pieces, in order.
pub open spec fn names_among(pieces: Seq<Seq<u8>>) -> Seq<Seq<u8>>
    decreases pieces.len(),
{
    if pieces.len() == 0 {
        seq![]
    } else if is_name(pieces[0]) {
        seq![pieces[0]] + names_among(pieces.drop_first())
    } else {
        names_among(pieces.drop_first())
    }
}

/// The components of a part of a path are the names between its slashes.
proof fn lemma_names_from(path: Seq<u8>, from: int)
    requires
        0 <= from <= path.len(),
    ensures
        parts_at(path, spans_from(path, from)) == names_among(split_from(path, SLASH, from)),
    decreases path.len() - from,
{
    lemma_find_from(path, SLASH, from);
    let end = find_from(path, SLASH, from);
    let piece = path.subrange(from, end);
    let pieces = split_from(path, SLASH, from);
    assert(is_component(piece) == is_name(piece));
    assert(pieces[0] =~= piece);
    if end < path.len() {
        lemma_names_from(path, end + 1);
        assert(pieces.drop_first() =~= split_from(path, SLASH, end + 1));
        assert(parts_at(path, spans_from(path, from)) =~= names_among(pieces));
    } else {
        assert(pieces.drop_first() =~= seq![]);
        assert(names_among(pieces.drop_first()) =~= seq![]);
        assert(parts_at(path, spans_from(path, from)) =~= names_among(pieces));
    }
}

/// The components of a path are the names between its slashes, behind the root where it begins
/// with a slash, and behind a dot where it begins with one.
pub proof fn law_components(path: Seq<u8>)
    ensures
        inner_components(path) == names_among(split(path, 47)),
        components(path) == (if path.len() > 0 && path[0] == 47 {
            seq![seq![47u8]]
        } else if split(path, 47)[0] == seq![46u8] {
            seq![seq![46u8]]
        } else {
            seq![]
        }) + names_among(split(path, 47)),
{
    lemma_names_from(path, 0);
    lemma_find_from(path, SLASH, 0);
    let end = find_from(path, SLASH, 0);
    let first = path.subrange(0, end);
    assert(split(path, 47)[0] =~= first);
    if has_root(path) {
        assert(end == 0);
        assert(spans_from(path, 0) =~= spans_from(path, 1));
        assert(path.subrange(0, 1) =~= seq![47u8]);
        assert(components(path) =~= seq![seq![47u8]] + inner_components(path));
    } else if has_leading_dot(path) {
        lemma_find_from_unique(path, SLASH, 0, 1);
        assert(end == 1);
        assert(first =~= seq![46u8]);
        lemma_find_from_unique(path, SLASH, 1, 1);
        assert(path.subrange(1, 1) =~= seq![]);
        if path.len() > 1 {
            assert(spans_from(path, 1) =~= spans_from(path, 2));
            assert(spans_from(path, 0) =~= spans_from(path, 2));
        } else {
            assert(spans_from(path, 1) =~= seq![]);
            assert(spans_from(path, 0) =~= seq![]);
        }
        assert(components(path) =~= seq![seq![46u8]] + inner_components(path));
    } else {
        if first == seq![46u8] {
            assert(first[0] == 46 && first.len() == 1);
            assert(path[0] == 46);
        }
        assert(components(path) =~= seq![] + names_among(split(path, 47)));
    }
}

/// A path seen from a base is the path itself where it begins with a slash. Otherwise it is the
/// bytes of the base and then those of the path, with one slash between them unless the base is
/// empty or ends with one.
pub proof fn law_join_bytes(base: Seq<u8>, path: Seq<u8>)
    ensures
        path.len() > 0 && path[0] == 47 ==> join(base, path) == path,
        !(path.len() > 0 && path[0] == 47) ==> {
            &&& join(base, path).take(base.len() as int) == base
            &&& join(base, path).skip(join(base, path).len() - path.len()) == path
            &&& (if base.len() == 0 || base.last() == 47 {
                join(base, path).len() == base.len() + path.len()
            } else {
                &&& join(base, path).len() == base.len() + 1 + path.len()
                &&& join(base, path)[base.len() as int] == 47
            })
        },
{
    if !(path.len() > 0 && path[0] == 47) {
        assert(join(base, path).take(base.len() as int) =~= base);
        assert(join(base, path).skip(join(base, path).len() - path.len()) =~= path);
    }
}

/// A path begins with another where the components of the one are those of the other and then
/// some.
pub proof fn law_starts_with(path: Seq<u8>, base: Seq<u8>, rest: Seq<Seq<u8>>)
    ensures
        components(path) == components(base) + rest ==> starts_with(path, base),
        starts_with(path, base) ==> components(base).len() <= components(path).len()
            && forall|k: int|
            0 <= k < components(base).len() ==> components(path)[k] == components(base)[k],
{
    if components(path) == components(base) + rest {
        assert(components(base) =~= components(path).take(components(base).len() as int));
    }
}

/// The path above another has all of its components but the last. It is the beginning of the
/// other, and ends with a slash only where it is the root. The root and the empty path have
/// none above them.
pub proof fn law_parent(path: Seq<u8>)
    ensures
        parent(path) is None <==> components(path).len() == 0 || components(path) == seq![
            seq![47u8],
        ],
        parent(path) matches Some(above) ==> {
            &&& components(above) == components(path).drop_last()
            &&& above.len() <= path.len() && above == path.take(above.len() as int)
            &&& above.len() > 1 ==> above.last() != 47
        },
{
    lemma_components_parent(path);
    lemma_components_single(path);
    lemma_spans(path);
    let names = components(path);
    let places = spans(path);
    if names.len() > 0 && names.last() == seq![47u8] {
        if names.len() > 1 {
            assert(is_single(names[names.len() - 1]));
            assert(names.last()[0] == 47);
        }
        assert(names =~= seq![seq![47u8]]);
    }
    if names == seq![seq![47u8]] {
        assert(names.last() == seq![47u8]);
    }
    if parent(path) is Some {
        let above = parent(path)->0;
        if places.len() == 1 {
            assert(above =~= path.take(0));
        } else {
            let cut = places[places.len() - 2].1;
            assert(above =~= path.take(above.len() as int));
            if cut > 1 {
                let k = places.len() - 2;
                assert(above.last() == path[cut - 1]);
                assert(names[k] == path.subrange(places[k].0, cut));
                if k == 0 && (has_root(path) || has_leading_dot(path)) {
                    assert(places[0] == (0int, 1int));
                } else {
                    assert(is_single(names[k]));
                    assert(names[k][names[k].len() - 1] == path[cut - 1]);
                }
            }
        }
    }
}

/// The name at the end of a path is its last component, unless that is the root, one dot or
/// two.
pub proof fn law_file_name(path: Seq<u8>)
    ensures
        file_name(path) is None <==> components(path).len() == 0 || components(path).last()
            == seq![47u8] || components(path).last() == seq![46u8] || components(path).last()
            == seq![46u8, 46u8],
        file_name(path) matches Some(name) ==> name == components(path).last(),
{
}

/// A file in a directory is found under the directory and its own name: what is above a path,
/// and then the name at its end, have the components of the path.
pub proof fn law_parent_and_name(path: Seq<u8>)
    requires
        parent(path) is Some,
        file_name(path) is Some,
        parent(path)->0.len() > 0,
    ensures
        components(join(parent(path)->0, file_name(path)->0)) == components(path),
{
    let above = parent(path)->0;
    let name = file_name(path)->0;
    lemma_components_parent(path);
    lemma_components_single(path);
    assert(is_single(name)) by {
        let names = components(path);
        assert(names.len() > 1) by {
            if names.len() == 1 {
                assert(parent(path)->0.len() == 0);
            }
        }
        assert(name == names[names.len() - 1]);
    }
    lemma_single(name);
    lemma_components_join(above, name);
    assert(components(join(above, name)) =~= components(path));
}

/// What is left of a path behind a base that is not empty are the components behind those of
/// the base. It is a part of the path, and begins and ends with no slash.
pub proof fn law_strip_prefix(path: Seq<u8>, base: Seq<u8>)
    requires
        base.len() > 0,
    ensures
        strip_prefix(path, base) is Some <==> starts_with(path, base),
        strip_prefix(path, base) matches Some(rest) ==> {
            &&& components(rest) == components(path).skip(components(base).len() as int)
            &&& exists|from: int|
                0 <= from && from + rest.len() <= path.len() && rest == #[trigger] path.subrange(
                    from,
                    from + rest.len(),
                )
            &&& rest.len() > 0 ==> rest[0] != 47 && rest.last() != 47
        },
{
    if strip_prefix(path, base) is Some {
        let rest = strip_prefix(path, base)->0;
        let skipped = components(base).len() as int;
        let places = spans(path);
        let names = components(path);
        lemma_strip_prefix(path, base);
        lemma_spans(path);
        lemma_components_single(path);
        lemma_components_single(base);
        if skipped == places.len() {
            assert(rest =~= path.subrange(0, 0int + rest.len()));
        } else {
            let from = places[skipped].0;
            let last = places.len() - 1;
            assert(places[last].1 > places[last].0);
            assert(skipped < last ==> places[skipped].1 <= places[last].0);
            assert(rest =~= path.subrange(from, from + rest.len()));
            assert(is_single(names[last]));
            assert(names[last] == path.subrange(places[last].0, places[last].1));
            assert(names[last][names[last].len() - 1] == path[places[last].1 - 1]);
            assert(rest.last() == path[places[last].1 - 1]);
        }
    }
}

/// A path of names without slashes in them is split into these names.
proof fn lemma_collect_split(names: Seq<Seq<u8>>)
    requires
        names.len() > 0,
        forall|k: int| 0 <= k < names.len() ==> is_single(#[trigger] names[k]),
    ensures
        split(collect(names), 47) == names,
        collect(names).len() > 0,
        collect(names).last() != 47,
    decreases names.len(),
{
    let front = names.drop_last();
    let name = names.last();
    assert(is_single(names[names.len() - 1]));
    lemma_find_from_unique(name, SLASH, 0, name.len() as int);
    assert(name.subrange(0, name.len() as int) =~= name);
    assert(split(name, 47) =~= seq![name]);
    if front.len() == 0 {
        assert(collect(front) =~= seq![]);
        assert(collect(names) =~= name);
        assert(names =~= seq![name]);
    } else {
        assert forall|k: int| 0 <= k < front.len() implies is_single(#[trigger] front[k]) by {
            assert(front[k] == names[k]);
        }
        lemma_collect_split(front);
        assert(collect(names) == collect(front).push(SLASH) + name);
        lemma_split_concat(collect(front), 47, name);
        assert(names =~= front + seq![name]);
    }
}

/// A path that begins at the root is made relative: its other components are left, with just
/// one slash between any two. Any other path stays as it is.
pub proof fn law_relative(path: Seq<u8>)
    ensures
        !(path.len() > 0 && path[0] == 47) ==> relative(path) == path,
        path.len() > 0 && path[0] == 47 ==> {
            let names = components(path).skip(1);
            if names.len() == 0 {
                relative(path).len() == 0
            } else {
                split(relative(path), 47) == names
            }
        },
{
    if path.len() > 0 && path[0] == 47 {
        let names = components(path).skip(1);
        lemma_components_single(path);
        assert forall|k: int| 0 <= k < names.len() implies is_single(#[trigger] names[k]) by {
            assert(names[k] == components(path)[k + 1]);
        }
        if names.len() > 0 {
            lemma_collect_split(names);
        }
    }
}

}
