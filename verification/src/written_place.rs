//! Places below others, written as relative paths.

use vstd::prelude::*;
use crate::disk::Place;
use crate::disk_path::spot;
use crate::host_path::{
    DOT, SLASH, components, is_plain, joined, last_slash, law_joined_components,
    law_plain_components, law_trailing_slash_does_not_count, lemma_last_slash,
    lemma_without_parents_add, parent, path_of,
};

verus! {

/// Whether bytes can be the name of an entry of a directory.
pub open spec fn is_entry_name(name: Seq<u8>) -> bool {
    &&& 0 < name.len()
    &&& !name.contains(SLASH)
    &&& name != seq![DOT]
    &&& name != seq![DOT, DOT]
}

/// Whether a place below another one is made of names.
pub open spec fn is_made_of_names(place: Place) -> bool {
    forall|i: int| 0 <= i < place.len() ==> is_entry_name(#[trigger] place[i])
}

/// A name is a plain path of one component.
pub proof fn lemma_name(name: Seq<u8>)
    requires
        is_entry_name(name),
    ensures
        is_plain(name),
        components(name) == seq![name],
{
    let n = name.len() as int;
    assert forall|i: int| 0 <= i < n implies #[trigger] name[i] != SLASH by {
        if name[i] == SLASH {
            assert(name.contains(SLASH));
        }
    }
    if name[0] == DOT && name.len() == 1 {
        assert(name =~= seq![DOT]);
    }
    lemma_last_slash(name, n);
    assert(last_slash(name, n) == -1) by {
        if last_slash(name, n) >= 0 {
            assert(name[last_slash(name, n)] == SLASH);
        }
    }
    assert(name.subrange(0, n) =~= name);
    assert(components(name) =~= seq![name]);
}

/// A name is written as it is.
pub proof fn lemma_one_name(name: Seq<u8>)
    ensures
        path_of(seq![name]) == name,
{
    assert(seq![name].drop_last() =~= Seq::<Seq<u8>>::empty());
    reveal_with_fuel(path_of, 2);
    assert(joined(Seq::empty(), name) =~= name);
}

/// A place that is written as a path has its names as components.
pub proof fn lemma_written(place: Place)
    requires
        0 < place.len(),
        is_made_of_names(place),
    ensures
        ({
            let w = path_of(place);
            let first = place[0];
            let last = place.last();
            &&& is_plain(w)
            &&& components(w) == place
            &&& first.len() <= w.len()
            &&& first[0] == w[0]
            &&& w.len() == first.len() ==> w == first
            &&& w.len() > first.len() ==> w[first.len() as int] == SLASH
            &&& first.len() > 1 ==> w[1] == first[1]
        }),
    decreases place.len(),
{
    let w = path_of(place);
    let first = place[0];
    let last = place.last();
    lemma_name(first);
    lemma_name(last);
    if place.len() == 1 {
        assert(place =~= seq![first]);
        lemma_one_name(first);
    } else {
        let front = place.drop_last();
        assert forall|i: int| 0 <= i < front.len() implies is_entry_name(#[trigger] front[i]) by {
            assert(front[i] == place[i]);
        }
        lemma_written(front);
        let v = path_of(front);
        assert(front[0] == first);
        assert(w == v.push(SLASH) + last);
        assert(w == joined(v, last));
        law_joined_components(v, last);
        law_plain_components(last);
        assert(components(w) =~= place);
        assert(w.last() == last.last());
        if v.len() > 1 {
            assert(w[1] == v[1]);
        } else {
            assert(w[1] == SLASH);
        }
        assert(w[w.len() - last.len() - 1] == SLASH);
        if last.len() > 1 {
            assert(w[w.len() - 2] == last[last.len() - 2]);
        } else {
            assert(w[w.len() - 2] == SLASH);
        }
        if last.last() == DOT && last.len() > 1 {
            assert(last[last.len() - 2] != SLASH) by {
                if last[last.len() - 2] == SLASH {
                    assert(last.contains(SLASH));
                }
            }
        }
        if first.len() > 1 {
            assert(first[1] != SLASH) by {
                if first[1] == SLASH {
                    assert(first.contains(SLASH));
                }
            }
        }
    }
}

/// A place below a base is the base joined with the place as it is written.
pub proof fn lemma_written_below(base: Seq<u8>, place: Place)
    requires
        0 < base.len(),
        0 < place.len(),
        is_made_of_names(place),
    ensures
        spot(joined(base, path_of(place))) == spot(base) + place,
        spot(joined(base, path_of(place).push(SLASH))) == spot(base) + place,
        components(joined(base, path_of(place))) == components(base) + place,
        components(joined(base, path_of(place).push(SLASH))) == components(base) + place,
        0 < spot(base).len() ==> parent(joined(base, path_of(place))) is Some,
{
    reveal(spot);
    let w = path_of(place);
    lemma_written(place);
    law_joined_components(base, w);
    law_plain_components(w);
    let path = joined(base, w);
    law_trailing_slash_does_not_count(path);
    assert(joined(base, w.push(SLASH)) =~= path.push(SLASH));
    assert forall|k: int| 0 <= k < place.len() implies #[trigger] place[k] != seq![DOT, DOT] by {
        assert(is_entry_name(place[k]));
    }
    lemma_without_parents_add(components(base), place);
}

/// An entry of a directory below a base is the directory joined with its name.
pub proof fn lemma_written_child(base: Seq<u8>, place: Place, name: Seq<u8>)
    requires
        0 < base.len(),
        is_made_of_names(place),
        is_entry_name(name),
    ensures
        place.len() == 0 ==> joined(base, name) == joined(base, path_of(place.push(name))),
        place.len() > 0 ==> joined(joined(base, path_of(place)), name) == joined(
            base,
            path_of(place.push(name)),
        ),
{
    let child = place.push(name);
    lemma_name(name);
    if place.len() == 0 {
        assert(child =~= seq![name]);
        lemma_one_name(name);
    } else {
        lemma_written(place);
        assert(child.drop_last() =~= place);
        let w = path_of(place);
        assert(joined(base, w).last() == w.last());
        assert(joined(joined(base, w), name) =~= joined(base, w.push(SLASH) + name));
    }
}

/// A place in a directory is written behind the name of the directory.
pub proof fn lemma_written_in(name: Seq<u8>, place: Place)
    requires
        0 < place.len(),
        is_entry_name(name),
        is_made_of_names(place),
    ensures
        path_of(seq![name] + place) == name.push(SLASH) + path_of(place),
    decreases place.len(),
{
    let whole = seq![name] + place;
    let front = place.drop_last();
    let last = place.last();
    assert(whole.drop_last() =~= seq![name] + front);
    assert(is_entry_name(place[place.len() - 1]));
    lemma_name(name);
    lemma_name(last);
    if place.len() == 1 {
        assert(whole.drop_last() =~= seq![name]);
        assert(place =~= seq![last]);
        lemma_one_name(name);
        lemma_one_name(last);
    } else {
        assert forall|i: int| 0 <= i < front.len() implies is_entry_name(#[trigger] front[i]) by {
            assert(front[i] == place[i]);
        }
        lemma_written_in(name, front);
        lemma_written(front);
        assert(path_of(whole) =~= name.push(SLASH) + path_of(place));
    }
}

} // verus!
