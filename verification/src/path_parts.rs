//! How host paths are taken apart, and where the paths of volumes lead.

use vstd::prelude::*;
use vstd::utf8::encode_utf8;
use crate::filesystem_direct::{HostView, may_follow};
use crate::host_path::{
    DOT, SLASH, components, file_name, first_up, goes_up_behind, is_absolute, is_plain, is_within,
    joined, law_joined_components, law_joined_is_within, law_parent_drops_last_component,
    law_plain_components, law_trailing_slash_does_not_count, led_back, lemma_dot_brings_nothing,
    lemma_first_up, lemma_one_part, lemma_parents_are_out, lemma_root_comes_first,
    lemma_without_parents, parent, relative_to, with_part, without_parents,
};
use crate::text::{law_leading_copies_go, without_leading};
use crate::volume_path::{
    VolumeLookupValue, deepest_existing, inside_path, is_mounted,
    law_mount_point_is_taken_off_once, lemma_first_byte, lemma_inside_path, lookup_begun,
    lookup_probed, volume_path, volume_root,
};

verus! {

/// Separators that follow one another count as one, and a single dot between two of them does not
/// count.
pub proof fn law_empty_pieces_do_not_count(front: Seq<u8>, back: Seq<u8>)
    requires
        0 < front.len(),
        !is_absolute(back),
    ensures
        components(front + seq![SLASH, SLASH] + back) == components(front + seq![SLASH] + back),
        components(front + seq![SLASH, DOT, SLASH] + back) == components(
            front + seq![SLASH] + back,
        ),
{
    let one = front.push(SLASH);
    let two = one.push(SLASH);
    let dotted = one.push(DOT);
    let closed = dotted.push(SLASH);
    law_trailing_slash_does_not_count(front);
    law_trailing_slash_does_not_count(one);
    law_trailing_slash_does_not_count(dotted);
    law_joined_components(one, seq![DOT]);
    lemma_dot_brings_nothing();
    assert(joined(one, seq![DOT]) =~= dotted);
    assert(components(dotted) =~= components(front));
    law_joined_components(one, back);
    law_joined_components(two, back);
    law_joined_components(closed, back);
    assert(joined(one, back) =~= front + seq![SLASH] + back);
    assert(joined(two, back) =~= front + seq![SLASH, SLASH] + back);
    assert(joined(closed, back) =~= front + seq![SLASH, DOT, SLASH] + back);
}

/// Whether bytes can be the name of something in a directory.
pub open spec fn can_be_name(name: Seq<u8>) -> bool {
    0 < name.len() && !name.contains(SLASH) && name != seq![DOT] && name != seq![DOT, DOT]
}

/// What is in a directory has its name as the file name and the directory as the parent. The
/// root, the parent directory and the current directory have no file name.
pub proof fn law_name_and_parent_of_path(dir: Seq<u8>, name: Seq<u8>)
    requires
        0 < dir.len(),
        can_be_name(name),
    ensures
        components(joined(dir, name)) == components(dir).push(name),
        file_name(joined(dir, name)) == Some(name),
        parent(joined(dir, name)) matches Some(up) && components(up) == components(dir),
        file_name(joined(dir, seq![DOT, DOT])) is None,
        file_name(seq![SLASH]) is None,
        parent(seq![SLASH]) is None,
        parent(Seq::empty()) is None,
{
    assert(!name.contains(name[0]) || name[0] != SLASH);
    assert(name.contains(name[0]));
    assert(name.contains(name.last())) by {
        assert(name[name.len() - 1] == name.last());
    }
    assert(is_plain(name)) by {
        if name[0] == DOT && name.len() == 1 {
            assert(name =~= seq![DOT]);
        }
        if name.len() > 1 {
            assert(name.contains(name[1]));
            assert(name.contains(name[name.len() - 2]));
        }
    }
    law_joined_components(dir, name);
    law_plain_components(name);
    lemma_one_part(name);
    assert(components(joined(dir, name)) =~= components(dir).push(name));
    let up = seq![DOT, DOT];
    assert(is_plain(up));
    assert(!up.contains(SLASH));
    law_joined_components(dir, up);
    law_plain_components(up);
    lemma_one_part(up);
    assert(components(joined(dir, up)) =~= components(dir).push(up));
    let root = seq![SLASH];
    lemma_one_part(root);
    assert(components(root).last() =~= root);
    let whole = joined(dir, name);
    assert(components(whole).last() == name);
    assert(name != seq![SLASH]) by {
        assert(seq![SLASH][0] == SLASH);
        assert(seq![SLASH].contains(SLASH));
    }
    assert(components(dir).len() > 0 || components(whole).len() == 1);
    assert(parent(whole) is Some) by {
        if parent(whole) is None {
            assert(components(whole).len() <= 1);
            assert(components(whole).len() == 1);
            assert(whole[0] == SLASH);
            lemma_rooted_components(whole);
        }
    }
    law_parent_drops_last_component(whole);
    assert(components(whole).drop_last() =~= components(dir));
}

/// A path that begins at the root has the root as its first component.
proof fn lemma_rooted_components(path: Seq<u8>)
    requires
        is_absolute(path),
    ensures
        0 < components(path).len(),
        components(path)[0] == seq![SLASH],
{
    lemma_root_comes_first(path);
}

/// The parent directory leads back from what is in front of it, and from the root to the root.
pub proof fn law_parent_directory_leads_back(front: Seq<Seq<u8>>, name: Seq<u8>)
    requires
        can_be_name(name),
    ensures
        without_parents(front.push(name)) == without_parents(front).push(name),
        without_parents(front.push(name).push(seq![DOT, DOT])) == without_parents(front),
        without_parents(seq![seq![SLASH], seq![DOT, DOT]]) == seq![seq![SLASH]],
{
    let up = seq![DOT, DOT];
    let root = seq![SLASH];
    assert(front.push(name).drop_last() =~= front);
    assert(front.push(name).push(up).drop_last() =~= front.push(name));
    assert(name != root) by {
        assert(root[0] == SLASH);
        assert(root.contains(SLASH));
    }
    let before = without_parents(front);
    assert(before.push(name).last() == name);
    assert(before.push(name).drop_last() =~= before);
    assert(without_parents(front.push(name)) == before.push(name));
    assert(without_parents(front.push(name).push(up)) == with_part(before.push(name), up));
    assert(root[0] == SLASH && up[0] == DOT);
    let rooted = seq![root, up];
    assert(rooted.drop_last() =~= seq![root]);
    assert(seq![root].drop_last() =~= Seq::<Seq<u8>>::empty());
    assert(without_parents(Seq::<Seq<u8>>::empty()) =~= Seq::<Seq<u8>>::empty());
    assert(without_parents(seq![root]) =~= seq![root]);
    assert(without_parents(rooted) =~= seq![root]);
}

/// What is in front may have its parent directories taken out before what follows is looked at.
proof fn lemma_taken_out_in_front(a: Seq<Seq<u8>>, b: Seq<Seq<u8>>)
    ensures
        without_parents(without_parents(a) + b) == without_parents(a + b),
    decreases b.len(),
{
    if b.len() == 0 {
        let out = without_parents(a);
        lemma_parents_are_out(a);
        lemma_without_parents(out);
        assert(out + b =~= out);
        assert(a + b =~= a);
    } else {
        lemma_taken_out_in_front(a, b.drop_last());
        assert((without_parents(a) + b).drop_last() =~= without_parents(a) + b.drop_last());
        assert((a + b).drop_last() =~= a + b.drop_last());
    }
}

/// Taking a parent directory out does not lead elsewhere: a path of which the first components
/// were found to lead to `front`, and of which the first parent directory behind them was taken
/// out, leads to the same place as before.
pub proof fn law_led_back_leads_to_the_same(parts: Seq<Seq<u8>>, n: int, front: Seq<Seq<u8>>)
    requires
        0 <= n <= parts.len(),
        exists|k: int| n <= k < parts.len() && #[trigger] parts[k] == seq![DOT, DOT],
    ensures
        without_parents(led_back(parts, n, front)) == without_parents(front + parts.skip(n)),
{
    let up = choose|k: int| n <= k < parts.len() && #[trigger] parts[k] == seq![DOT, DOT];
    lemma_first_up(parts, n);
    let k = first_up(parts, n);
    assert(k <= up);
    let head = front + parts.subrange(n, k + 1);
    let tail = parts.skip(k + 1);
    lemma_taken_out_in_front(head, tail);
    assert(head + tail =~= front + parts.skip(n));
}

/// Where the files of a container lie: its volume is the directory in the base that is named
/// after the container, and what it sees below the mount point lies there under the same path.
pub proof fn law_volume_lies_in_base(base: Seq<char>, container_id: Seq<char>, inside: Seq<char>)
    requires
        0 < encode_utf8(base).len(),
        can_be_name(encode_utf8(container_id)),
        0 < inside.len(),
        inside[0] != '/',
    ensures
        components(volume_root(base, container_id)) == components(encode_utf8(base)).push(
            encode_utf8(container_id),
        ),
        volume_path(base, container_id, "/home/container"@) == volume_root(base, container_id),
        volume_path(base, container_id, Seq::empty()) == volume_root(base, container_id),
        volume_path(base, container_id, "/home/container/"@ + inside) == joined(
            volume_root(base, container_id),
            encode_utf8(inside),
        ),
{
    law_name_and_parent_of_path(encode_utf8(base), encode_utf8(container_id));
    law_mount_point_is_taken_off_once(inside);
    reveal_strlit("/");
    law_leading_copies_go(inside, "/"@);
    reveal_strlit("/home/container");
    reveal_strlit("/home/container/");
    assert(!"/"@.is_prefix_of(inside)) by {
        assert(inside.subrange(0, 1)[0] == inside[0]);
    }
    let none = Seq::<char>::empty();
    assert(without_leading(none, "/"@) == none);
    assert(inside_path(none) == none);
}

/// The volumes of two containers lie apart: whatever path is asked for in one, the host path that
/// it stands for is not written below the volume of the other.
pub proof fn law_volumes_lie_apart(
    base: Seq<char>,
    one: Seq<char>,
    other: Seq<char>,
    path: Seq<char>,
)
    requires
        0 < encode_utf8(base).len(),
        can_be_name(encode_utf8(one)),
        can_be_name(encode_utf8(other)),
        encode_utf8(one) != encode_utf8(other),
    ensures
        !is_within(volume_path(base, one, path), volume_root(base, other)),
{
    let front = components(encode_utf8(base));
    let root = volume_root(base, one);
    let full = volume_path(base, one, path);
    law_name_and_parent_of_path(encode_utf8(base), encode_utf8(one));
    law_name_and_parent_of_path(encode_utf8(base), encode_utf8(other));
    let a = components(root);
    let b = components(volume_root(base, other));
    let n = front.len() as int;
    assert(a.is_prefix_of(components(full))) by {
        let inside = inside_path(path);
        lemma_inside_path(path);
        if inside.len() > 0 {
            lemma_first_byte(inside);
            law_joined_is_within(root, encode_utf8(inside));
        }
    }
    if is_within(full, volume_root(base, other)) {
        let all = components(full);
        assert(all.subrange(0, a.len() as int)[n] == all[n]);
        assert(all.subrange(0, b.len() as int)[n] == all[n]);
        assert(a[n] == encode_utf8(one));
        assert(b[n] == encode_utf8(other));
    }
}

/// A path begins with the mount point if it is the mount point or goes on behind it with a slash.
/// One that goes on with anything else, like that of a neighbour, is below the mount point as it
/// is.
pub proof fn law_neighbours_of_mount_point_are_below_it(rest: Seq<char>)
    ensures
        is_mounted("/home/container"@),
        is_mounted("/home/container/"@ + rest),
        rest.len() > 0 && rest[0] != '/' ==> !is_mounted("/home/container"@ + rest) && inside_path(
            "/home/container"@ + rest,
        ) == "home/container"@ + rest,
        rest.len() == 0 || rest[0] != '/' ==> !is_mounted(rest),
{
    reveal_strlit("/");
    reveal_strlit("/home/container");
    reveal_strlit("/home/container/");
    reveal_strlit("home/container");
    let inner = "/home/container/"@;
    assert((inner + rest).subrange(0, 16) =~= inner);
    if inner.is_prefix_of(rest) {
        assert(rest.subrange(0, 16)[0] == rest[0]);
    }
    if rest.len() > 0 && rest[0] != '/' {
        let whole = "/home/container"@ + rest;
        assert(whole[15] == rest[0]);
        if inner.is_prefix_of(whole) {
            assert(whole.subrange(0, 16)[15] == whole[15]);
        }
        let bare = "home/container"@ + rest;
        assert("/"@ + bare =~= whole);
        law_leading_copies_go(bare, "/"@);
        if "/"@.is_prefix_of(bare) {
            assert(bare.subrange(0, 1)[0] == bare[0]);
        }
    }
}

/// What is left of a path behind a base is only known where the path lies under the base, and is
/// nothing where it is the base.
pub proof fn law_only_what_is_under_base_is_left(path: Seq<u8>, base: Seq<u8>)
    ensures
        relative_to(path, base) is Some <==> components(base).is_prefix_of(components(path)),
        relative_to(path, path) == Some(Seq::<u8>::empty()),
{
    assert(components(path).subrange(0, components(path).len() as int) =~= components(path));
}

/// The deepest existing part of a path is the path itself where there is anything, and otherwise
/// that of the directory that it is in; at the end of the way up it is what is left.
pub proof fn law_deepest_existing(path: Seq<u8>, present: spec_fn(Seq<u8>) -> bool)
    ensures
        present(path) ==> deepest_existing(path, present) == path,
        parent(path) is None ==> deepest_existing(path, present) == path,
        !present(path) ==> (parent(path) matches Some(up) ==> deepest_existing(path, present)
            == deepest_existing(up, present)),
{
}

/// Which paths may be followed: one that is there exactly if it resolves to a place within what the
/// directory of the volume resolves to, or is written where that does not resolve; one that is not
/// there, but whose directory is, exactly if that directory resolves to such a place, unless the
/// path ends by leading back up.
pub proof fn law_paths_in_volume_may_be_followed(host: HostView, root: Seq<u8>, path: Seq<u8>)
    ensures
        ({
            let bound = match (host.resolved)(root) {
                Some(p) => p,
                None => root,
            };
            let within = |place: Option<Seq<u8>>|
                place is Some && components(bound).is_prefix_of(
                    without_parents(components(place->0)),
                );
            &&& (host.present)(path) ==> (may_follow(host, root, path) <==> within(
                (host.resolved)(path),
            ))
            &&& !(host.present)(path) ==> (parent(path) matches Some(up) ==> (host.present)(up)
                && components(path).last() != seq![DOT, DOT] ==> (may_follow(host, root, path)
                <==> within((host.resolved)(up))))
        }),
{
    let parts = components(path);
    if (host.present)(path) {
        assert(!goes_up_behind(path, parts.len()));
    } else if let Some(up) = parent(path) {
        if (host.present)(up) && parts.last() != seq![DOT, DOT] {
            law_parent_drops_last_component(path);
            law_deepest_existing(path, host.present);
            law_deepest_existing(up, host.present);
            let n = components(up).len();
            assert(n == parts.len() - 1);
            assert(!goes_up_behind(path, n)) by {
                if goes_up_behind(path, n) {
                    let k = choose|k: int|
                        n <= k < components(path).len() && #[trigger] components(path)[k] == seq![
                            DOT,
                            DOT,
                        ];
                    assert(k == parts.len() - 1);
                }
            }
        }
    }
}

/// The search for a host path begins with the whole of it, below the directory of the volume, and
/// ends with it where it may be followed.
pub proof fn law_search_begins_with_host_path(
    base: Seq<char>,
    container_id: Seq<char>,
    path: Seq<char>,
    present: bool,
)
    ensures
        ({
            let full = volume_path(base, container_id, path);
            let root = volume_root(base, container_id);
            &&& lookup_begun(base, container_id, path) == (VolumeLookupValue::Probing {
                root,
                full,
                target: full,
                current: full,
            })
            &&& present || parent(full) is None ==> lookup_probed(
                lookup_begun(base, container_id, path),
                present,
            ) == (VolumeLookupValue::Resolving { root, full, target: full, checked: full })
            &&& !present ==> (parent(full) matches Some(up) ==> lookup_probed(
                lookup_begun(base, container_id, path),
                present,
            ) == (VolumeLookupValue::Probing { root, full, target: full, current: up }))
        }),
{
}

} // verus!
