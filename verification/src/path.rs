//! Unix paths as byte strings: their components, and what is computed from them without
//! looking at a file system.

use crate::text::{
    find_byte, find_from, lemma_find_from, lemma_find_from_unique, part, same_bytes, split_from,
};
use vstd::prelude::*;
use vstd::slice::slice_to_vec;

verus! {

/// `/`.
pub const SLASH: u8 = 47;

/// `.`.
pub const DOT: u8 = 46;

/// Whether a piece between two slashes is a component of its path: the empty piece and
/// the piece `.` are not.
pub open spec fn is_component(piece: Seq<u8>) -> bool {
    piece.len() > 0 && piece != seq![DOT]
}

/// Where the components stand in the part of a path that begins at `from`: the first
/// index of each and the index behind its last.
pub open spec fn spans_from(path: Seq<u8>, from: int) -> Seq<(int, int)>
    decreases path.len() - from,
{
    let end = find_from(path, SLASH, from);
    let head = if is_component(path.subrange(from, end)) {
        seq![(from, end)]
    } else {
        seq![]
    };
    if from <= end < path.len() {
        head + spans_from(path, end + 1)
    } else {
        head
    }
}

/// Whether the path begins at the root.
pub open spec fn has_root(path: Seq<u8>) -> bool {
    path.len() > 0 && path[0] == SLASH
}

/// Whether the path begins with the component `.`.
pub open spec fn has_leading_dot(path: Seq<u8>) -> bool {
    path.len() > 0 && path[0] == DOT && (path.len() == 1 || path[1] == SLASH)
}

/// Where all components of the path stand. The root is the component `/`, and a `.` is a
/// component only at the very beginning.
pub open spec fn spans(path: Seq<u8>) -> Seq<(int, int)> {
    if has_root(path) || has_leading_dot(path) {
        seq![(0int, 1int)] + spans_from(path, 1)
    } else {
        spans_from(path, 0)
    }
}

/// The parts of `path` at the given places.
pub open spec fn parts_at(path: Seq<u8>, places: Seq<(int, int)>) -> Seq<Seq<u8>> {
    places.map_values(|place: (int, int)| path.subrange(place.0, place.1))
}

/// The components of the path.
pub open spec fn components(path: Seq<u8>) -> Seq<Seq<u8>> {
    parts_at(path, spans(path))
}

/// The path `path` as seen from `base`: `path` itself where it begins at the root, and
/// otherwise `path` behind `base`, with a slash between them where that is needed.
pub open spec fn join(base: Seq<u8>, path: Seq<u8>) -> Seq<u8> {
    if has_root(path) {
        path
    } else if base.len() > 0 && base.last() != SLASH {
        base.push(SLASH) + path
    } else {
        base + path
    }
}

/// The path made of the given components.
pub open spec fn collect(parts: Seq<Seq<u8>>) -> Seq<u8>
    decreases parts.len(),
{
    if parts.len() == 0 {
        seq![]
    } else {
        join(collect(parts.drop_last()), parts.last())
    }
}

/// The path without the root at its beginning, made of its other components; a path
/// that does not begin at the root as it is.
pub open spec fn relative(path: Seq<u8>) -> Seq<u8> {
    if has_root(path) {
        collect(components(path).skip(1))
    } else {
        path
    }
}

/// Whether the path begins with the components of `base`.
pub open spec fn starts_with(path: Seq<u8>, base: Seq<u8>) -> bool {
    components(base).is_prefix_of(components(path))
}

/// The path from behind the components of `base` to the end of its own last component.
pub open spec fn strip_prefix(path: Seq<u8>, base: Seq<u8>) -> Option<Seq<u8>> {
    let skipped = components(base).len() as int;
    if !starts_with(path, base) {
        None
    } else if skipped == spans(path).len() {
        Some(seq![])
    } else {
        Some(path.subrange(spans(path)[skipped].0, spans(path).last().1))
    }
}

/// The path without its last component, unless it has none or it is the root.
pub open spec fn parent(path: Seq<u8>) -> Option<Seq<u8>> {
    let places = spans(path);
    if places.len() == 0 || components(path).last() == seq![SLASH] {
        None
    } else if places.len() == 1 {
        Some(seq![])
    } else {
        Some(path.take(places[places.len() - 2].1))
    }
}

/// The last component of the path where it is a name: not the root, `.` or `..`.
pub open spec fn file_name(path: Seq<u8>) -> Option<Seq<u8>> {
    let names = components(path);
    if names.len() == 0 || names.last() == seq![SLASH] || names.last() == seq![DOT]
        || names.last() == seq![DOT, DOT] {
        None
    } else {
        Some(names.last())
    }
}

/// Whether `..` is among the components of the path.
pub open spec fn climbs(path: Seq<u8>) -> bool {
    components(path).contains(seq![DOT, DOT])
}

/// Whether a component can stand at the place: inside the path, not before `from`, and
/// with no slash in it.
pub open spec fn is_place(path: Seq<u8>, from: int, place: (int, int)) -> bool {
    &&& from <= place.0 < place.1 <= path.len()
    &&& is_component(path.subrange(place.0, place.1))
    &&& forall|k: int| place.0 <= k < place.1 ==> path[k] != SLASH
}

/// The components stand one behind the other, with a slash at least between them.
pub proof fn lemma_spans_from(path: Seq<u8>, from: int)
    requires
        0 <= from <= path.len(),
    ensures
        forall|k: int|
            0 <= k < spans_from(path, from).len() ==> is_place(
                path,
                from,
                #[trigger] spans_from(path, from)[k],
            ),
        forall|k: int, l: int|
            0 <= k < l < spans_from(path, from).len() ==> (#[trigger] spans_from(path, from)[k]).1
                < (#[trigger] spans_from(path, from)[l]).0,
    decreases path.len() - from,
{
    lemma_find_from(path, SLASH, from);
    let end = find_from(path, SLASH, from);
    let all = spans_from(path, from);
    if end < path.len() {
        lemma_spans_from(path, end + 1);
        let rest = spans_from(path, end + 1);
        let first = if is_component(path.subrange(from, end)) {
            1int
        } else {
            0int
        };
        assert(all.len() == first + rest.len());
        assert(forall|k: int| first <= k < all.len() ==> #[trigger] all[k] == rest[k - first]);
        assert forall|k: int| 0 <= k < all.len() implies is_place(
            path,
            from,
            #[trigger] all[k],
        ) by {
            if k >= first {
                assert(is_place(path, end + 1, rest[k - first]));
            }
        }
        assert forall|k: int, l: int| 0 <= k < l < all.len() implies (#[trigger] all[k]).1 < (
        #[trigger] all[l]).0 by {
            assert(is_place(path, end + 1, rest[l - first]));
            if k >= first {
                assert(rest[k - first].1 < rest[l - first].0);
            }
        }
    }
}

/// The components of a whole path stand one behind the other, each with a byte at least.
pub proof fn lemma_spans(path: Seq<u8>)
    ensures
        forall|k: int|
            0 <= k < spans(path).len() ==> 0 <= (#[trigger] spans(path)[k]).0 < spans(path)[k].1
                <= path.len(),
        forall|k: int, l: int|
            0 <= k < l < spans(path).len() ==> (#[trigger] spans(path)[k]).1 <= (
            #[trigger] spans(path)[l]).0,
{
    if has_root(path) || has_leading_dot(path) {
        lemma_spans_from(path, 1);
        let rest = spans_from(path, 1);
        assert forall|l: int| 1 <= l < spans(path).len() implies (#[trigger] spans(path)[l])
            == rest[l - 1] && is_place(path, 1, rest[l - 1]) by {}
        assert forall|k: int, l: int| 0 <= k < l < spans(path).len() implies (
        #[trigger] spans(path)[k]).1 <= (#[trigger] spans(path)[l]).0 by {
            if k > 0 {
                assert(rest[k - 1].1 < rest[l - 1].0);
            }
        }
    } else {
        lemma_spans_from(path, 0);
        assert(forall|k: int|
            0 <= k < spans(path).len() ==> is_place(path, 0, #[trigger] spans(path)[k]));
    }
}

/// The places moved on by `by` bytes.
spec fn shifted(places: Seq<(int, int)>, by: int) -> Seq<(int, int)> {
    places.map_values(|place: (int, int)| (place.0 + by, place.1 + by))
}

/// The pieces of a path that are components wherever it stands: all but a root or a `.` at
/// its beginning.
pub open spec fn inner_components(path: Seq<u8>) -> Seq<Seq<u8>> {
    parts_at(path, spans_from(path, 0))
}

/// The components of a suffix stand where they stand in the whole, `skipped` bytes back.
proof fn lemma_spans_shift(path: Seq<u8>, skipped: int, from: int)
    requires
        0 <= skipped <= path.len(),
        0 <= from <= path.len() - skipped,
    ensures
        spans_from(path, skipped + from) == shifted(
            spans_from(path.skip(skipped), from),
            skipped,
        ),
    decreases path.len() - from,
{
    let suffix = path.skip(skipped);
    let end = find_from(suffix, SLASH, from);
    lemma_find_from(suffix, SLASH, from);
    assert forall|k: int| skipped + from <= k < skipped + end implies path[k] != SLASH by {
        assert(path[k] == suffix[k - skipped]);
    }
    assert(end < suffix.len() ==> path[skipped + end] == suffix[end]);
    lemma_find_from_unique(path, SLASH, skipped + from, skipped + end);
    assert(path.subrange(skipped + from, skipped + end) =~= suffix.subrange(from, end));
    if end < suffix.len() {
        lemma_spans_shift(path, skipped, end + 1);
        assert(spans_from(path, skipped + from) =~= shifted(spans_from(suffix, from), skipped));
    } else {
        assert(spans_from(path, skipped + from) =~= shifted(spans_from(suffix, from), skipped));
    }
}

/// What stands behind the base in a joined path has its own components there.
proof fn lemma_spans_join(base: Seq<u8>, path: Seq<u8>, from: int)
    requires
        base.len() > 0,
        !has_root(path),
        0 <= from <= base.len(),
    ensures
        spans_from(join(base, path), from) == spans_from(base, from) + shifted(
            spans_from(path, 0),
            join(base, path).len() - path.len(),
        ),
    decreases base.len() - from,
{
    let whole = join(base, path);
    let skipped = whole.len() - path.len();
    assert(whole.skip(skipped) =~= path);
    let end = find_from(base, SLASH, from);
    lemma_find_from(base, SLASH, from);
    if end < base.len() {
        lemma_find_from_unique(whole, SLASH, from, end);
        assert(whole.subrange(from, end) =~= base.subrange(from, end));
        lemma_spans_join(base, path, end + 1);
        assert(spans_from(whole, from) =~= spans_from(base, from) + shifted(
            spans_from(path, 0),
            skipped,
        ));
    } else if base.last() != SLASH {
        lemma_find_from_unique(whole, SLASH, from, end);
        assert(whole.subrange(from, end) =~= base.subrange(from, end));
        lemma_spans_shift(whole, skipped, 0);
    } else {
        assert(from == base.len());
        assert(base.subrange(from, end) =~= seq![]);
        lemma_spans_shift(whole, skipped, 0);
        assert(spans_from(base, from) =~= seq![]);
        assert(spans_from(whole, from) =~= spans_from(base, from) + shifted(
            spans_from(path, 0),
            skipped,
        ));
    }
}

/// The parts of `path` at moved places are the parts of its suffix.
proof fn lemma_parts_shifted(path: Seq<u8>, skipped: int, from: int)
    requires
        0 <= skipped <= path.len(),
        0 <= from <= path.len() - skipped,
    ensures
        parts_at(path, shifted(spans_from(path.skip(skipped), from), skipped)) == parts_at(
            path.skip(skipped),
            spans_from(path.skip(skipped), from),
        ),
{
    let suffix = path.skip(skipped);
    let places = spans_from(suffix, from);
    lemma_spans_from(suffix, from);
    assert forall|k: int| 0 <= k < places.len() implies path.subrange(
        (#[trigger] places[k]).0 + skipped,
        places[k].1 + skipped,
    ) == suffix.subrange(places[k].0, places[k].1) by {
        assert(is_place(suffix, from, places[k]));
        assert(path.subrange(places[k].0 + skipped, places[k].1 + skipped) =~= suffix.subrange(
            places[k].0,
            places[k].1,
        ));
    }
    assert(parts_at(path, shifted(places, skipped)) =~= parts_at(suffix, places));
}

/// The components of a joined path: those of the base, then those of the path but for a
/// `.` at its beginning.
pub proof fn lemma_components_join(base: Seq<u8>, path: Seq<u8>)
    requires
        base.len() > 0,
        !has_root(path),
    ensures
        components(join(base, path)) == components(base) + inner_components(path),
        inner_components(join(base, path)) == inner_components(base) + inner_components(path),
        has_root(join(base, path)) == has_root(base),
{
    let whole = join(base, path);
    let skipped = whole.len() - path.len();
    assert(whole.skip(skipped) =~= path);
    assert(whole.take(base.len() as int) =~= base);
    assert(whole[0] == base[0]);
    assert(has_leading_dot(whole) == has_leading_dot(base)) by {
        if base.len() > 1 {
            assert(whole[1] == base[1]);
        }
    }
    let from = if has_root(base) || has_leading_dot(base) {
        1int
    } else {
        0int
    };
    lemma_spans_join(base, path, from);
    lemma_spans_join(base, path, 0);
    lemma_parts_shifted(whole, skipped, 0);
    lemma_spans(base);
    lemma_spans_from(base, 0);
    let moved = shifted(spans_from(path, 0), skipped);
    assert(spans(whole) =~= spans(base) + moved);
    assert forall|k: int| 0 <= k < spans(base).len() implies whole.subrange(
        (#[trigger] spans(base)[k]).0,
        spans(base)[k].1,
    ) == base.subrange(spans(base)[k].0, spans(base)[k].1) by {
        assert(whole.subrange(spans(base)[k].0, spans(base)[k].1) =~= base.subrange(
            spans(base)[k].0,
            spans(base)[k].1,
        ));
    }
    assert forall|k: int| 0 <= k < spans_from(base, 0).len() implies whole.subrange(
        (#[trigger] spans_from(base, 0)[k]).0,
        spans_from(base, 0)[k].1,
    ) == base.subrange(spans_from(base, 0)[k].0, spans_from(base, 0)[k].1) by {
        assert(is_place(base, 0, spans_from(base, 0)[k]));
        assert(whole.subrange(
            spans_from(base, 0)[k].0,
            spans_from(base, 0)[k].1,
        ) =~= base.subrange(spans_from(base, 0)[k].0, spans_from(base, 0)[k].1));
    }
    assert(parts_at(whole, spans(whole)) =~= parts_at(whole, spans(base)) + parts_at(
        whole,
        moved,
    ));
    assert(parts_at(whole, spans(base)) =~= parts_at(base, spans(base)));
    assert(parts_at(whole, spans_from(whole, 0)) =~= parts_at(whole, spans_from(base, 0))
        + parts_at(whole, moved));
    assert(parts_at(whole, spans_from(base, 0)) =~= parts_at(base, spans_from(base, 0)));
}

/// Whether the bytes are one component by themselves.
pub open spec fn is_single(name: Seq<u8>) -> bool {
    is_component(name) && forall|k: int| 0 <= k < name.len() ==> name[k] != SLASH
}

/// A path that is one component has just that one.
pub proof fn lemma_single(name: Seq<u8>)
    requires
        is_single(name),
    ensures
        inner_components(name) == seq![name],
        !has_root(name),
{
    lemma_find_from_unique(name, SLASH, 0, name.len() as int);
    assert(name.subrange(0, name.len() as int) =~= name);
    assert(inner_components(name) =~= seq![name]);
}

/// A path that was made of components has those components.
pub proof fn lemma_collect(parts: Seq<Seq<u8>>)
    requires
        forall|k: int| 0 <= k < parts.len() ==> is_single(#[trigger] parts[k]),
    ensures
        inner_components(collect(parts)) == parts,
        !has_root(collect(parts)),
        parts.len() > 0 ==> collect(parts).len() > 0,
    decreases parts.len(),
{
    if parts.len() == 0 {
        assert(inner_components(collect(parts)) =~= parts);
    } else {
        let front = parts.drop_last();
        assert forall|k: int| 0 <= k < front.len() implies is_single(#[trigger] front[k]) by {
            assert(front[k] == parts[k]);
        }
        lemma_collect(front);
        lemma_single(parts.last());
        if front.len() == 0 {
            assert(collect(parts) =~= parts.last());
            assert(parts =~= seq![parts.last()]);
        } else {
            lemma_components_join(collect(front), parts.last());
            assert(parts =~= front + seq![parts.last()]);
        }
    }
}

/// Cut off behind a component, a path has the components up to that one.
proof fn lemma_spans_take(path: Seq<u8>, from: int, kept: int)
    requires
        0 <= from <= path.len(),
        0 <= kept < spans_from(path, from).len(),
    ensures
        from <= spans_from(path, from)[kept].1 <= path.len(),
        spans_from(path.take(spans_from(path, from)[kept].1), from) == spans_from(
            path,
            from,
        ).take(kept + 1),
    decreases path.len() - from,
{
    lemma_spans_from(path, from);
    lemma_find_from(path, SLASH, from);
    let all = spans_from(path, from);
    assert(is_place(path, from, all[kept]));
    let end = find_from(path, SLASH, from);
    let cut = all[kept].1;
    let short = path.take(cut);
    let first = if is_component(path.subrange(from, end)) {
        1int
    } else {
        0int
    };
    if kept < first {
        lemma_find_from_unique(short, SLASH, from, cut);
        assert(short.subrange(from, cut) =~= path.subrange(from, end));
        assert(spans_from(short, from) =~= all.take(kept + 1));
    } else {
        let rest = spans_from(path, end + 1);
        assert(all[kept] == rest[kept - first]);
        lemma_spans_from(path, end + 1);
        assert(is_place(path, end + 1, rest[kept - first]));
        lemma_find_from_unique(short, SLASH, from, end);
        assert(short.subrange(from, end) =~= path.subrange(from, end));
        lemma_spans_take(path, end + 1, kept - first);
        assert(spans_from(short, from) =~= all.take(kept + 1));
    }
}

/// From the beginning of a component on, a path has that component and those behind it.
proof fn lemma_spans_skip(path: Seq<u8>, from: int, skipped: int)
    requires
        0 <= from <= path.len(),
        0 <= skipped < spans_from(path, from).len(),
    ensures
        from <= spans_from(path, from)[skipped].0 <= path.len(),
        spans_from(path, spans_from(path, from)[skipped].0) == spans_from(path, from).skip(
            skipped,
        ),
    decreases path.len() - from,
{
    lemma_spans_from(path, from);
    lemma_find_from(path, SLASH, from);
    let all = spans_from(path, from);
    assert(is_place(path, from, all[skipped]));
    let end = find_from(path, SLASH, from);
    let first = if is_component(path.subrange(from, end)) {
        1int
    } else {
        0int
    };
    if skipped < first {
        assert(all.skip(0) =~= all);
    } else {
        let rest = spans_from(path, end + 1);
        assert(all[skipped] == rest[skipped - first]);
        lemma_spans_skip(path, end + 1, skipped - first);
        assert(all.skip(skipped) =~= rest.skip(skipped - first));
    }
}

/// The parts of a path at places before a cut are those of the cut path.
proof fn lemma_parts_take(path: Seq<u8>, cut: int, places: Seq<(int, int)>)
    requires
        0 <= cut <= path.len(),
        forall|k: int|
            0 <= k < places.len() ==> 0 <= (#[trigger] places[k]).0 <= places[k].1 <= cut,
    ensures
        parts_at(path.take(cut), places) == parts_at(path, places),
{
    assert forall|k: int| 0 <= k < places.len() implies path.take(cut).subrange(
        (#[trigger] places[k]).0,
        places[k].1,
    ) == path.subrange(places[k].0, places[k].1) by {
        assert(path.take(cut).subrange(places[k].0, places[k].1) =~= path.subrange(
            places[k].0,
            places[k].1,
        ));
    }
    assert(parts_at(path.take(cut), places) =~= parts_at(path, places));
}

/// The parent of a path has its components but for the last.
pub proof fn lemma_components_parent(path: Seq<u8>)
    ensures
        parent(path) matches Some(above) ==> components(above) == components(path).drop_last(),
        parent(path) matches Some(above) ==> (has_root(above) ==> has_root(path)),
        parent(path) matches Some(above) ==> (has_leading_dot(above) ==> has_leading_dot(path)),
{
    let places = spans(path);
    lemma_spans(path);
    if parent(path) is Some {
        let above = parent(path)->0;
        let led = has_root(path) || has_leading_dot(path);
        if places.len() == 1 {
            assert(above =~= seq![]);
            lemma_find_from_unique(above, SLASH, 0, 0);
            assert(components(above) =~= components(path).drop_last());
        } else {
            let count = places.len() as int;
            let cut = places[count - 2].1;
            assert(places[count - 2].0 >= 0);
            assert(above[0] == path[0]);
            if led {
                let inner = spans_from(path, 1);
                assert(places =~= seq![(0int, 1int)] + inner);
                if count == 2 {
                    assert(cut == 1);
                    lemma_find_from_unique(above, SLASH, 1, 1);
                    assert(spans_from(above, 1) =~= seq![]);
                    assert(has_root(above) || has_leading_dot(above));
                    assert(spans(above) =~= places.drop_last());
                } else {
                    lemma_spans_take(path, 1, count - 3);
                    lemma_spans_from(path, 1);
                    assert(inner[count - 3] == places[count - 2]);
                    assert(is_place(path, 1, inner[count - 3]));
                    assert(above[1] == path[1]);
                    assert(spans(above) =~= places.drop_last());
                }
            } else {
                lemma_spans_take(path, 0, count - 2);
                lemma_spans_from(path, 0);
                assert(is_place(path, 0, places[count - 2]));
                assert(!has_leading_dot(above)) by {
                    if above.len() > 1 {
                        assert(above[1] == path[1]);
                    } else if above[0] == DOT {
                        assert(path.subrange(0, 1) =~= seq![DOT]);
                    }
                }
                assert(spans(above) =~= places.drop_last());
            }
            assert forall|k: int| 0 <= k < places.drop_last().len() implies 0 <= (
            #[trigger] places.drop_last()[k]).0 <= places.drop_last()[k].1 <= cut by {
                assert(places.drop_last()[k] == places[k]);
                if k < count - 2 {
                    assert(places[k].1 <= places[count - 2].0);
                }
            }
            lemma_parts_take(path, cut, places.drop_last());
            assert(components(above) =~= components(path).drop_last());
        }
    }
}

/// A path that is not empty has a component, and each of its components behind the first is
/// a piece without a slash.
pub proof fn lemma_components_single(path: Seq<u8>)
    ensures
        path.len() > 0 ==> components(path).len() > 0,
        forall|k: int|
            1 <= k < components(path).len() ==> is_single(#[trigger] components(path)[k]),
        !has_root(path) ==> forall|k: int|
            0 <= k < components(path).len() && !(k == 0 && has_leading_dot(path)) ==> is_single(
                #[trigger] components(path)[k],
            ),
        has_root(path) ==> components(path)[0] == seq![SLASH],
{
    let led = has_root(path) || has_leading_dot(path);
    let from = if led {
        1int
    } else {
        0int
    };
    if path.len() > 0 {
        lemma_spans_from(path, from);
    }
    if path.len() > 0 && !led {
        lemma_find_from(path, SLASH, 0);
        let end = find_from(path, SLASH, 0);
        assert(is_component(path.subrange(0, end))) by {
            assert(end > 0);
            if path.subrange(0, end) == seq![DOT] {
                assert(path.subrange(0, end)[0] == DOT);
                assert(path.subrange(0, end).len() == 1);
            }
        }
    }
    if path.len() == 0 {
        lemma_find_from_unique(path, SLASH, 0, 0);
        assert(spans(path) =~= seq![]);
    } else {
        assert forall|k: int| from <= k < components(path).len() implies is_single(
            #[trigger] components(path)[k],
        ) by {
            let inner = spans_from(path, from);
            assert(spans(path)[k] == inner[k - from]);
            assert(is_place(path, from, inner[k - from]));
        }
        if led {
            assert(spans(path)[0] == (0int, 1int));
            assert(has_root(path) ==> path.subrange(0, 1) =~= seq![SLASH]);
        }
    }
}

/// From the beginning of a component to the end of the last, a path has the components that
/// stand there.
proof fn lemma_inner_part(path: Seq<u8>, from: int, skipped: int)
    requires
        0 <= from <= path.len(),
        0 <= skipped < spans_from(path, from).len(),
    ensures
        ({
            let inner = spans_from(path, from);
            let rest = path.subrange(inner[skipped].0, inner.last().1);
            &&& !has_root(rest)
            &&& !has_leading_dot(rest)
            &&& inner_components(rest) == parts_at(path, inner.skip(skipped))
        }),
{
    let inner = spans_from(path, from);
    let begin = inner[skipped].0;
    let cut = inner.last().1;
    let rest = path.subrange(begin, cut);
    let tail = inner.skip(skipped);
    lemma_spans_from(path, from);
    assert(is_place(path, from, inner[skipped]));
    assert(is_place(path, from, inner[inner.len() - 1]));
    assert forall|k: int| 0 <= k < tail.len() implies 0 <= (#[trigger] tail[k]).0 <= tail[k].1
        <= cut by {
        assert(tail[k] == inner[k + skipped]);
        assert(is_place(path, from, inner[k + skipped]));
        if k + skipped < inner.len() - 1 {
            assert(inner[k + skipped].1 < inner[inner.len() - 1].0);
        }
    }
    assert(begin < cut) by {
        assert(tail[0] == inner[skipped]);
    }
    let short = path.take(cut);
    assert(short.skip(begin) =~= rest);
    assert(rest[0] == path[begin]);
    assert(!has_leading_dot(rest)) by {
        if has_leading_dot(rest) {
            let end = inner[skipped].1;
            if rest.len() > 1 {
                assert(path[begin + 1] == rest[1]);
            } else {
                assert(tail[0].1 <= cut);
            }
            assert(end == begin + 1);
            assert(path.subrange(begin, end) =~= seq![DOT]);
        }
    }
    assert(spans_from(short, begin) == tail) by {
        lemma_spans_skip(path, from, skipped);
        lemma_spans_take(path, begin, tail.len() - 1);
        assert(tail.take(tail.len() as int) =~= tail);
    }
    lemma_spans_shift(short, begin, 0);
    lemma_parts_shifted(short, begin, 0);
    lemma_parts_take(path, cut, tail);
}

/// What remains of a path behind the components of a base that is not empty has the
/// components behind those of the base, and begins neither at the root nor with a `.`.
pub proof fn lemma_strip_prefix(path: Seq<u8>, base: Seq<u8>)
    requires
        starts_with(path, base),
        base.len() > 0,
    ensures
        strip_prefix(path, base) is Some,
        !has_root(strip_prefix(path, base)->0),
        !has_leading_dot(strip_prefix(path, base)->0),
        inner_components(strip_prefix(path, base)->0) == components(path).skip(
            components(base).len() as int,
        ),
{
    let skipped = components(base).len() as int;
    let places = spans(path);
    assert(skipped > 0) by {
        lemma_components_single(base);
    }
    assert(components(path).len() == places.len());
    let rest = strip_prefix(path, base)->0;
    if skipped == places.len() {
        assert(rest =~= seq![]);
        lemma_find_from_unique(rest, SLASH, 0, 0);
        assert(spans_from(rest, 0) =~= seq![]);
        assert(inner_components(rest) =~= components(path).skip(skipped));
    } else {
        let led = has_root(path) || has_leading_dot(path);
        let from = if led {
            1int
        } else {
            0int
        };
        let inner = spans_from(path, from);
        assert(places.skip(from) =~= inner);
        assert(places[skipped] == inner[skipped - from]);
        assert(places.last() == inner.last());
        lemma_inner_part(path, from, skipped - from);
        assert(inner.skip(skipped - from) =~= places.skip(skipped));
        assert(parts_at(path, places.skip(skipped)) =~= components(path).skip(skipped));
    }
}

/// Where the last piece of a path is a component, the last component ends with the path.
proof fn lemma_last_span(path: Seq<u8>, from: int)
    requires
        0 <= from <= path.len(),
        is_component(split_from(path, SLASH, from).last()),
    ensures
        spans_from(path, from).len() > 0,
        spans_from(path, from).last().1 == path.len(),
    decreases path.len() - from,
{
    lemma_find_from(path, SLASH, from);
    let end = find_from(path, SLASH, from);
    let pieces = split_from(path, SLASH, from);
    if end < path.len() {
        let rest = split_from(path, SLASH, end + 1);
        assert(pieces =~= seq![path.subrange(from, end)] + rest);
        assert(rest.len() > 0);
        assert(pieces.last() == rest.last());
        lemma_last_span(path, end + 1);
    } else {
        assert(pieces =~= seq![path.subrange(from, end)]);
        assert(pieces.last() == path.subrange(from, end));
    }
}

/// A path that begins and ends with a component is what is left of it behind a base that it was
/// seen from.
pub proof fn lemma_strip_join(base: Seq<u8>, path: Seq<u8>)
    requires
        base.len() > 0,
        is_component(split_from(path, SLASH, 0)[0]),
        is_component(split_from(path, SLASH, 0).last()),
    ensures
        !has_root(path),
        strip_prefix(join(base, path), base) == Some(path),
{
    let whole = join(base, path);
    lemma_find_from(path, SLASH, 0);
    let end = find_from(path, SLASH, 0);
    assert(split_from(path, SLASH, 0)[0] =~= path.subrange(0, end));
    assert(end > 0);
    let inner = spans_from(path, 0);
    assert(inner[0] == (0int, end));
    lemma_last_span(path, 0);
    lemma_components_join(base, path);
    let skipped = whole.len() - path.len();
    assert(whole.take(base.len() as int) =~= base);
    assert(whole[0] == base[0]);
    assert(has_leading_dot(whole) == has_leading_dot(base)) by {
        if base.len() > 1 {
            assert(whole[1] == base[1]);
        }
    }
    let from = if has_root(base) || has_leading_dot(base) {
        1int
    } else {
        0int
    };
    lemma_spans_join(base, path, from);
    let moved = shifted(inner, skipped);
    assert(spans(whole) =~= spans(base) + moved);
    assert(components(base) =~= components(whole).take(components(base).len() as int));
    assert(starts_with(whole, base));
    let count = components(base).len() as int;
    assert(spans(whole)[count] == moved[0]);
    assert(spans(whole).last() == moved.last());
    assert(moved.last().1 == inner.last().1 + skipped);
    assert(whole.subrange(skipped, whole.len() as int) =~= path);
}

/// A path in the form a Unix system takes it: any bytes, with `/` between the names.
#[derive(Clone, Debug)]
pub struct UnixPath {
    bytes: Vec<u8>,
}

impl View for UnixPath {
    type V = Seq<u8>;

    closed spec fn view(&self) -> Seq<u8> {
        self.bytes@
    }
}

/// The places as pairs of integers.
spec fn places(found: Seq<(usize, usize)>) -> Seq<(int, int)> {
    found.map_values(|place: (usize, usize)| (place.0 as int, place.1 as int))
}

impl UnixPath {
    /// The path with the given bytes.
    pub fn new(bytes: Vec<u8>) -> (path: UnixPath)
        ensures
            path@ == bytes@,
    {
        UnixPath { bytes }
    }

    /// The bytes of the path.
    pub fn bytes(&self) -> (bytes: &[u8])
        ensures
            bytes@ == self@,
    {
        self.bytes.as_slice()
    }

    /// A second path with the same bytes.
    pub fn duplicate(&self) -> (path: UnixPath)
        ensures
            path@ == self@,
    {
        UnixPath { bytes: slice_to_vec(self.bytes.as_slice()) }
    }

    /// Whether the path begins at the root.
    pub fn has_root(&self) -> (root: bool)
        ensures
            root == has_root(self@),
    {
        self.bytes.len() > 0 && self.bytes[0] == SLASH
    }

    /// Where the components of the path stand.
    fn find_spans(&self) -> (found: Vec<(usize, usize)>)
        ensures
            places(found@) == spans(self@),
    {
        let bytes = self.bytes.as_slice();
        let mut found: Vec<(usize, usize)> = Vec::new();
        let mut from: usize = 0;
        if bytes.len() > 0 && (bytes[0] == SLASH || bytes[0] == DOT && (bytes.len() == 1 || bytes[1]
            == SLASH)) {
            found.push((0, 1));
            from = 1;
        }
        assert(places(found@) + spans_from(bytes@, from as int) =~= spans(bytes@));
        loop
            invariant
                bytes@ == self@,
                from <= bytes@.len(),
                places(found@) + spans_from(bytes@, from as int) =~= spans(bytes@),
            decreases bytes@.len() - from,
        {
            let ghost before = found@;
            let end = find_byte(bytes, SLASH, from);
            let ghost piece = bytes@.subrange(from as int, end as int);
            let counted = end > from && !(end - from == 1 && bytes[from] == DOT);
            assert(counted == is_component(piece)) by {
                if end - from == 1 && bytes@[from as int] == DOT {
                    assert(piece =~= seq![DOT]);
                }
                if piece == seq![DOT] {
                    assert(piece[0] == DOT);
                    assert(piece.len() == 1);
                }
            }
            if counted {
                found.push((from, end));
                assert(places(found@) =~= places(before).push((from as int, end as int)));
            }
            if end == bytes.len() {
                assert(places(found@) =~= spans(bytes@));
                return found;
            }
            assert(places(found@) + spans_from(bytes@, end + 1) =~= places(before) + spans_from(
                bytes@,
                from as int,
            ));
            from = end + 1;
        }
    }

    /// The path `path` as seen from this one.
    pub fn join(&self, path: &UnixPath) -> (joined: UnixPath)
        ensures
            joined@ == join(self@, path@),
    {
        if path.has_root() {
            return path.duplicate();
        }
        let mut bytes = slice_to_vec(self.bytes.as_slice());
        if bytes.len() > 0 && bytes[bytes.len() - 1] != SLASH {
            bytes.push(SLASH);
        }
        let mut at: usize = 0;
        let ghost base = bytes@;
        while at < path.bytes.len()
            invariant
                at <= path.bytes@.len(),
                bytes@ == base + path.bytes@.take(at as int),
            decreases path.bytes@.len() - at,
        {
            bytes.push(path.bytes[at]);
            at = at + 1;
            assert(bytes@ =~= base + path.bytes@.take(at as int));
        }
        assert(bytes@ =~= join(self@, path@));
        UnixPath { bytes }
    }

    /// The path without the root at its beginning.
    pub fn relative(self) -> (rest: UnixPath)
        ensures
            rest@ == relative(self@),
    {
        if !self.has_root() {
            return self;
        }
        let found = self.find_spans();
        let ghost names = components(self@).skip(1);
        proof {
            lemma_spans(self@);
            assert(places(found@).len() == found@.len());
        }
        let mut rest = UnixPath { bytes: Vec::new() };
        let mut at: usize = 1;
        assert(names.take(0) =~= seq![]);
        while at < found.len()
            invariant
                1 <= at <= found@.len(),
                places(found@) == spans(self@),
                names == components(self@).skip(1),
                rest@ == collect(names.take(at - 1)),
                forall|k: int|
                    0 <= k < spans(self@).len() ==> 0 <= (#[trigger] spans(self@)[k]).0
                        < spans(self@)[k].1 <= self@.len(),
            decreases found@.len() - at,
        {
            let (start, end) = found[at];
            assert(spans(self@)[at as int] == (start as int, end as int));
            let piece = UnixPath { bytes: part(self.bytes.as_slice(), start, end) };
            assert(piece@ == names[at - 1]);
            assert(names.take(at as int).drop_last() =~= names.take(at - 1));
            rest = rest.join(&piece);
            at = at + 1;
        }
        assert(names.take(at - 1) =~= names);
        rest
    }

    /// Whether the path begins with the components of `base`.
    pub fn starts_with(&self, base: &UnixPath) -> (starts: bool)
        ensures
            starts == starts_with(self@, base@),
    {
        let found = self.find_spans();
        let wanted = base.find_spans();
        let ghost names = components(self@);
        let ghost first = components(base@);
        assert(names.len() == found@.len() && first.len() == wanted@.len()) by {
            assert(places(found@).len() == found@.len());
            assert(places(wanted@).len() == wanted@.len());
        }
        if wanted.len() > found.len() {
            return false;
        }
        proof {
            lemma_spans(self@);
            lemma_spans(base@);
        }
        let mut at: usize = 0;
        while at < wanted.len()
            invariant
                at <= wanted@.len() <= found@.len(),
                places(found@) == spans(self@),
                places(wanted@) == spans(base@),
                names == components(self@),
                first == components(base@),
                names.len() == found@.len(),
                first.len() == wanted@.len(),
                forall|k: int| 0 <= k < at ==> #[trigger] names[k] == first[k],
                forall|k: int|
                    0 <= k < spans(self@).len() ==> 0 <= (#[trigger] spans(self@)[k]).0
                        < spans(self@)[k].1 <= self@.len(),
                forall|k: int|
                    0 <= k < spans(base@).len() ==> 0 <= (#[trigger] spans(base@)[k]).0
                        < spans(base@)[k].1 <= base@.len(),
            decreases wanted@.len() - at,
        {
            let (start, end) = found[at];
            let (base_start, base_end) = wanted[at];
            assert(spans(self@)[at as int] == (start as int, end as int));
            assert(spans(base@)[at as int] == (base_start as int, base_end as int));
            let name = part(self.bytes.as_slice(), start, end);
            let base_name = part(base.bytes.as_slice(), base_start, base_end);
            assert(name@ == names[at as int] && base_name@ == first[at as int]);
            if !same_bytes(name.as_slice(), base_name.as_slice()) {
                return false;
            }
            at = at + 1;
        }
        assert(first =~= names.take(first.len() as int));
        true
    }

    /// The path from behind the components of `base`, where it begins with them.
    pub fn strip_prefix(&self, base: &UnixPath) -> (rest: Option<UnixPath>)
        ensures
            match rest {
                Some(path) => strip_prefix(self@, base@) == Some(path@),
                None => strip_prefix(self@, base@) is None,
            },
    {
        if !self.starts_with(base) {
            return None;
        }
        let found = self.find_spans();
        let wanted = base.find_spans();
        proof {
            assert(places(found@).len() == found@.len());
            assert(places(wanted@).len() == wanted@.len());
            lemma_spans(self@);
        }
        if wanted.len() == found.len() {
            return Some(UnixPath { bytes: Vec::new() });
        }
        let start = found[wanted.len()].0;
        let end = found[found.len() - 1].1;
        proof {
            let places = spans(self@);
            assert(places[wanted@.len() as int].0 == start);
            assert(places[found@.len() - 1].1 == end);
        }
        Some(UnixPath { bytes: part(self.bytes.as_slice(), start, end) })
    }

    /// The path without its last component, unless it has none or it is the root.
    pub fn parent(&self) -> (above: Option<UnixPath>)
        ensures
            match above {
                Some(path) => parent(self@) == Some(path@),
                None => parent(self@) is None,
            },
    {
        let found = self.find_spans();
        proof {
            assert(places(found@).len() == found@.len());
            lemma_spans(self@);
        }
        if found.len() == 0 {
            return None;
        }
        let (start, end) = found[found.len() - 1];
        assert(spans(self@)[found@.len() - 1] == (start as int, end as int));
        let ghost last = components(self@).last();
        assert(last == self@.subrange(start as int, end as int));
        if end - start == 1 && self.bytes[start] == SLASH {
            assert(last =~= seq![SLASH]);
            return None;
        }
        assert(last != seq![SLASH]) by {
            if last == seq![SLASH] {
                assert(last[0] == SLASH);
                assert(last.len() == 1);
            }
        }
        if found.len() == 1 {
            return Some(UnixPath { bytes: Vec::new() });
        }
        let cut = found[found.len() - 2].1;
        assert(spans(self@)[found@.len() - 2].1 == cut);
        let kept = part(self.bytes.as_slice(), 0, cut);
        assert(kept@ =~= self@.take(cut as int));
        Some(UnixPath { bytes: kept })
    }

    /// The last component of the path where it is a name.
    pub fn file_name(&self) -> (name: Option<UnixPath>)
        ensures
            match name {
                Some(path) => file_name(self@) == Some(path@),
                None => file_name(self@) is None,
            },
    {
        let found = self.find_spans();
        proof {
            assert(places(found@).len() == found@.len());
            lemma_spans(self@);
        }
        if found.len() == 0 {
            return None;
        }
        let (start, end) = found[found.len() - 1];
        assert(spans(self@)[found@.len() - 1] == (start as int, end as int));
        let name = part(self.bytes.as_slice(), start, end);
        assert(name@ == components(self@).last());
        if name.len() == 1 && (name[0] == SLASH || name[0] == DOT) {
            assert(name@ =~= seq![SLASH] || name@ =~= seq![DOT]);
            return None;
        }
        if name.len() == 2 && name[0] == DOT && name[1] == DOT {
            assert(name@ =~= seq![DOT, DOT]);
            return None;
        }
        assert(name@ != seq![SLASH] && name@ != seq![DOT] && name@ != seq![DOT, DOT]) by {
            if name@ == seq![SLASH] {
                assert(name@[0] == SLASH && name@.len() == 1);
            }
            if name@ == seq![DOT] {
                assert(name@[0] == DOT && name@.len() == 1);
            }
            if name@ == seq![DOT, DOT] {
                assert(name@[0] == DOT && name@[1] == DOT && name@.len() == 2);
            }
        }
        Some(UnixPath { bytes: name })
    }
}

}
