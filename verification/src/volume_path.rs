//! Where the files of a container lie on the host.
//!
//! A container sees its volume at `/home/container`; on the host the volume is a directory
//! named after the container. A path is only followed once it was found to lead into the volume,
//! with links followed and every `..` taken out, also where it does not exist yet.

use vstd::prelude::*;
use vstd::utf8::{
    char_u32_cast, encode_scalar, encode_utf8, has_width_1_encoding, has_width_2_encoding,
    has_width_3_encoding, last_continuation_byte, leading_byte_width_1, leading_byte_width_2,
    leading_byte_width_3, leading_byte_width_4,
};
use crate::bytes::{bytes_of, copy_bytes};
use crate::host_path::{
    DOT, SLASH, components, goes_up_behind, is_absolute, is_within, join_path, joined,
    law_joined_is_within, law_led_back_goes_up_less, law_parent_drops_last_component, lead_back,
    leads_into, led_back, lemma_without_parents_add, parent, parent_path, parents_in,
    path_components, path_goes_up_behind, path_leads_into, path_of, without_parents,
};
use crate::text::{same_text, starts_with, strip_prefix, trim_leading, without_leading};

verus! {

/// Whether a path in the container is the mount point of the volume or lies below it.
pub open spec fn is_mounted(container_path: Seq<char>) -> bool {
    container_path == "/home/container"@ || "/home/container/"@.is_prefix_of(container_path)
}

/// The part of a path in the container that lies below the mount point of the volume, without
/// a leading slash. A path that does not begin with the mount point is below it as it is.
pub open spec fn inside_path(container_path: Seq<char>) -> Seq<char> {
    let below = if is_mounted(container_path) {
        container_path.skip("/home/container"@.len() as int)
    } else {
        container_path
    };
    without_leading(below, "/"@)
}

/// The directory of a container's volume on the host.
pub open spec fn volume_root(base: Seq<char>, container_id: Seq<char>) -> Seq<u8> {
    joined(encode_utf8(base), encode_utf8(container_id))
}

/// Where a path in a container lies on the host.
pub open spec fn volume_path(
    base: Seq<char>,
    container_id: Seq<char>,
    container_path: Seq<char>,
) -> Seq<u8> {
    let root = volume_root(base, container_id);
    let inside = inside_path(container_path);
    if inside.len() == 0 {
        root
    } else {
        joined(root, encode_utf8(inside))
    }
}

/// The deepest part of `path` at which there is anything, and where there is nothing the part that
/// has no parent.
pub open spec fn deepest_existing(path: Seq<u8>, present: spec_fn(Seq<u8>) -> bool) -> Seq<u8>
    decreases path.len(),
{
    if present(path) || parent(path) is None {
        path
    } else {
        proof {
            law_parent_drops_last_component(path);
        }
        deepest_existing(parent(path)->0, present)
    }
}

/// The search for the host path of a path in a container. What it looks at is `target`: the host
/// path at first, and then the host path with some `..` taken out.
#[derive(Debug, PartialEq, Eq)]
pub enum VolumeLookup {
    /// It wants to know whether there is anything at `current`.
    Probing { root: Vec<u8>, full: Vec<u8>, target: Vec<u8>, current: Vec<u8> },
    /// It wants to know what `checked` and `root` resolve to.
    Resolving { root: Vec<u8>, full: Vec<u8>, target: Vec<u8>, checked: Vec<u8> },
}

/// The search for a host path, by its values.
pub enum VolumeLookupValue {
    Probing { root: Seq<u8>, full: Seq<u8>, target: Seq<u8>, current: Seq<u8> },
    Resolving { root: Seq<u8>, full: Seq<u8>, target: Seq<u8>, checked: Seq<u8> },
}

impl View for VolumeLookup {
    type V = VolumeLookupValue;

    open spec fn view(&self) -> VolumeLookupValue {
        match self {
            VolumeLookup::Probing { root, full, target, current } => VolumeLookupValue::Probing {
                root: root@,
                full: full@,
                target: target@,
                current: current@,
            },
            VolumeLookup::Resolving { root, full, target, checked } => {
                VolumeLookupValue::Resolving {
                    root: root@,
                    full: full@,
                    target: target@,
                    checked: checked@,
                }
            },
        }
    }
}

/// What becomes of a search that was told what paths resolve to.
#[derive(Debug, PartialEq, Eq)]
pub enum LookupOutcome {
    /// It goes on.
    Pending { lookup: VolumeLookup },
    /// The path may be followed.
    Accepted { path: Vec<u8> },
    /// The path leads out of the volume.
    Refused { error: String },
}

/// What becomes of a search, by its values.
pub enum LookupOutcomeValue {
    Pending { lookup: VolumeLookupValue },
    Accepted { path: Seq<u8> },
    Refused { error: Seq<char> },
}

impl View for LookupOutcome {
    type V = LookupOutcomeValue;

    open spec fn view(&self) -> LookupOutcomeValue {
        match self {
            LookupOutcome::Pending { lookup } => LookupOutcomeValue::Pending { lookup: lookup@ },
            LookupOutcome::Accepted { path } => LookupOutcomeValue::Accepted { path: path@ },
            LookupOutcome::Refused { error } => LookupOutcomeValue::Refused { error: error@ },
        }
    }
}

/// The bytes of a path that may be missing.
pub open spec fn path_bytes(path: Option<Vec<u8>>) -> Option<Seq<u8>> {
    match path {
        Some(bytes) => Some(bytes@),
        None => None,
    }
}

/// A search at its start.
pub open spec fn lookup_begun(
    base: Seq<char>,
    container_id: Seq<char>,
    container_path: Seq<char>,
) -> VolumeLookupValue {
    let full = volume_path(base, container_id, container_path);
    VolumeLookupValue::Probing {
        root: volume_root(base, container_id),
        full,
        target: full,
        current: full,
    }
}

/// A search after it was told whether there is anything at a path: where there is not, the parent
/// is next.
pub open spec fn lookup_probed(lookup: VolumeLookupValue, present: bool) -> VolumeLookupValue {
    match lookup {
        VolumeLookupValue::Probing { root, full, target, current } => if present || parent(
            current,
        ) is None {
            VolumeLookupValue::Resolving { root, full, target, checked: current }
        } else {
            VolumeLookupValue::Probing { root, full, target, current: parent(current)->0 }
        },
        VolumeLookupValue::Resolving { .. } => lookup,
    }
}

/// What becomes of a search that was told what the part that it found and the directory of the
/// volume resolve to.
///
/// A part that does not resolve is refused: it may be a link out of the volume. Where something
/// behind the part leads back up, it leads back from what is not there yet and will be no link, or
/// from a file, through which no step can go: the first such `..` is taken out, and the search goes
/// on with what is left. Otherwise the path is followed if the part resolves to a place in the
/// volume. A directory of the volume that does not resolve counts as it is written.
pub open spec fn lookup_resolved(
    lookup: VolumeLookupValue,
    canonical: Option<Seq<u8>>,
    canonical_root: Option<Seq<u8>>,
) -> LookupOutcomeValue {
    match lookup {
        VolumeLookupValue::Probing { .. } => LookupOutcomeValue::Pending { lookup },
        VolumeLookupValue::Resolving { root, full, target, checked } => {
            let bound = match canonical_root {
                Some(p) => p,
                None => root,
            };
            match canonical {
                None => LookupOutcomeValue::Refused {
                    error: "Path traversal attempt detected"@,
                },
                Some(place) => if goes_up_behind(target, components(checked).len()) {
                    let next = target_led_back(target, checked, place);
                    LookupOutcomeValue::Pending {
                        lookup: VolumeLookupValue::Probing {
                            root,
                            full,
                            target: next,
                            current: next,
                        },
                    }
                } else if leads_into(place, bound) {
                    LookupOutcomeValue::Accepted { path: full }
                } else {
                    LookupOutcomeValue::Refused { error: "Path traversal attempt detected"@ }
                },
            }
        },
    }
}

/// A path of which the part `checked` resolves to `canonical`, with the first `..` behind that
/// part taken out.
pub open spec fn target_led_back(target: Seq<u8>, checked: Seq<u8>, canonical: Seq<u8>) -> Seq<u8> {
    path_of(
        led_back(components(target), components(checked).len() as int, components(canonical)),
    )
}

/// Where a path leads: what its deepest present part resolves to, and what is to be found from
/// there.
pub struct Destination {
    pub canonical: Seq<u8>,
    pub behind: Seq<Seq<u8>>,
}

impl Destination {
    /// The components of the place that is led to.
    pub open spec fn place(self) -> Seq<Seq<u8>> {
        components(self.canonical) + self.behind
    }
}

/// Where a path leads on a host, with links followed and every `..` taken out, one after the
/// other. It leads nowhere where a part that is present does not resolve.
pub open spec fn led_to(
    path: Seq<u8>,
    present: spec_fn(Seq<u8>) -> bool,
    resolved: spec_fn(Seq<u8>) -> Option<Seq<u8>>,
) -> Option<Destination>
    decreases parents_in(components(path)),
{
    let checked = deepest_existing(path, present);
    let n = components(checked).len();
    match resolved(checked) {
        None => None,
        Some(canonical) => if goes_up_behind(path, n) {
            proof {
                law_led_back_goes_up_less(path, n, canonical);
            }
            led_to(target_led_back(path, checked, canonical), present, resolved)
        } else {
            Some(Destination { canonical, behind: components(path).skip(n as int) })
        },
    }
}

/// The encoding of a text begins with the slash byte only if the text begins with a slash.
pub proof fn lemma_first_byte(text: Seq<char>)
    requires
        text.len() > 0,
        text[0] != '/',
    ensures
        !is_absolute(encode_utf8(text)),
{
    let c = text[0] as u32;
    let first = encode_scalar(c);
    assert(first.len() > 0);
    assert(encode_utf8(text) == first + encode_utf8(text.drop_first()));
    assert(encode_utf8(text)[0] == first[0]);
    if has_width_1_encoding(c) {
        assert(0 <= c <= 0x7f && leading_byte_width_1(c) == 47 ==> c == 47) by (bit_vector);
        char_u32_cast(text[0], c);
        assert(c != 47);
    } else if has_width_2_encoding(c) {
        assert(leading_byte_width_2(c) >= 0x80) by (bit_vector);
    } else if has_width_3_encoding(c) {
        assert(leading_byte_width_3(c) >= 0x80) by (bit_vector);
    } else {
        assert(leading_byte_width_4(c) >= 0x80) by (bit_vector);
    }
}

/// The encoding of a text ends with the slash byte only if the text ends with a slash.
pub proof fn lemma_last_byte(text: Seq<char>)
    requires
        text.len() > 0,
        text.last() != '/',
    ensures
        encode_utf8(text).len() > 0,
        encode_utf8(text).last() != SLASH,
    decreases text.len(),
{
    let c = text[0] as u32;
    let first = encode_scalar(c);
    if text.len() == 1 {
        assert(encode_utf8(text.drop_first()) =~= Seq::<u8>::empty());
        assert(encode_utf8(text) =~= first);
        if has_width_1_encoding(c) {
            assert(0 <= c <= 0x7f && leading_byte_width_1(c) == 47 ==> c == 47) by (bit_vector);
            char_u32_cast(text[0], c);
            assert(c != 47);
        } else {
            assert(last_continuation_byte(c) >= 0x80) by (bit_vector);
        }
    } else {
        assert(text.drop_first().last() == text.last());
        lemma_last_byte(text.drop_first());
    }
}

/// Texts are encoded one character after the other.
pub proof fn lemma_encode_concat(a: Seq<char>, b: Seq<char>)
    ensures
        encode_utf8(a + b) == encode_utf8(a) + encode_utf8(b),
    decreases a.len(),
{
    if a.len() == 0 {
        assert(a + b =~= b);
        assert(encode_utf8(a) + encode_utf8(b) =~= encode_utf8(b));
    } else {
        assert((a + b).drop_first() =~= a.drop_first() + b);
        lemma_encode_concat(a.drop_first(), b);
        assert(encode_utf8(a + b) =~= encode_utf8(a) + encode_utf8(b));
    }
}

/// A slash is encoded by the slash byte.
pub proof fn lemma_encode_slash()
    ensures
        encode_utf8("/"@) == seq![SLASH],
{
    reveal_strlit("/");
    let c = '/' as u32;
    assert(c == 47);
    assert(leading_byte_width_1(47u32) == 47) by (bit_vector);
    assert("/"@.drop_first() =~= Seq::<char>::empty());
    assert(encode_utf8("/"@.drop_first()) =~= Seq::<u8>::empty());
    assert("/"@[0] as u32 == 47);
    assert(encode_scalar(47u32) =~= seq![SLASH]);
    assert(encode_utf8("/"@) =~= seq![SLASH]);
}

/// A text from which all leading copies of a prefix were taken does not begin with it.
pub proof fn lemma_without_leading(text: Seq<char>, prefix: Seq<char>)
    requires
        0 < prefix.len(),
    ensures
        !prefix.is_prefix_of(without_leading(text, prefix)),
    decreases text.len(),
{
    if prefix.is_prefix_of(text) {
        lemma_without_leading(text.skip(prefix.len() as int), prefix);
    }
}

/// What lies below the mount point does not begin with a slash.
pub proof fn lemma_inside_path(container_path: Seq<char>)
    ensures
        inside_path(container_path).len() > 0 ==> inside_path(container_path)[0] != '/',
{
    let inside = inside_path(container_path);
    let below = if is_mounted(container_path) {
        container_path.skip("/home/container"@.len() as int)
    } else {
        container_path
    };
    reveal_strlit("/");
    lemma_without_leading(below, "/"@);
    if inside.len() > 0 && inside[0] == '/' {
        assert("/"@ =~= inside.subrange(0, 1));
        assert("/"@.is_prefix_of(inside));
    }
}

/// Whatever path is asked for, the host path it stands for is written below the directory of
/// the volume, component by component.
pub proof fn law_volume_path_is_below_root(
    base: Seq<char>,
    container_id: Seq<char>,
    container_path: Seq<char>,
)
    requires
        0 < volume_root(base, container_id).len(),
    ensures
        is_within(
            volume_path(base, container_id, container_path),
            volume_root(base, container_id),
        ),
{
    let root = volume_root(base, container_id);
    let inside = inside_path(container_path);
    lemma_inside_path(container_path);
    if inside.len() > 0 {
        lemma_first_byte(inside);
        law_joined_is_within(root, encode_utf8(inside));
    } else {
        assert(components(root).is_prefix_of(components(root)));
    }
}

/// The mount point of the volume is taken off a path once: whatever follows it is the path in
/// the volume, even where it looks like the mount point over again.
pub proof fn law_mount_point_is_taken_off_once(path: Seq<char>)
    ensures
        inside_path("/home/container"@) == Seq::<char>::empty(),
        inside_path("/home/container/"@ + path) == without_leading(path, "/"@),
{
    let mount = "/home/container"@;
    let whole = "/home/container/"@ + path;
    let slashed = "/"@ + path;
    reveal_strlit("/home/container");
    reveal_strlit("/home/container/");
    reveal_strlit("/");
    assert("/home/container/"@.is_prefix_of(whole)) by {
        assert(whole.subrange(0, 16) =~= "/home/container/"@);
    }
    assert(whole.skip(mount.len() as int) =~= slashed);
    assert("/"@.is_prefix_of(slashed)) by {
        assert(slashed.subrange(0, 1) =~= "/"@);
    }
    assert(slashed.skip(1) =~= path);
    assert(mount.skip(mount.len() as int) =~= Seq::<char>::empty());
    assert(without_leading(Seq::<char>::empty(), "/"@) =~= Seq::<char>::empty());
}

/// A path may be given with or without the mount point of the volume, and with or without a
/// leading slash: it stands for the same path on the host. The law leaves out paths that begin
/// with the mount point, or would with a slash in front: there it is the mount point that is
/// meant.
pub proof fn law_mount_point_is_optional(
    base: Seq<char>,
    container_id: Seq<char>,
    path: Seq<char>,
)
    requires
        !is_mounted(path),
    ensures
        volume_path(base, container_id, "/home/container/"@ + path) == volume_path(
            base,
            container_id,
            path,
        ),
        !is_mounted("/"@ + path) ==> volume_path(base, container_id, "/"@ + path) == volume_path(
            base,
            container_id,
            path,
        ),
{
    let slashed = "/"@ + path;
    reveal_strlit("/");
    law_mount_point_is_taken_off_once(path);
    assert("/"@.is_prefix_of(slashed)) by {
        assert(slashed.subrange(0, 1) =~= "/"@);
    }
    assert(slashed.skip(1) =~= path);
    assert(without_leading(slashed, "/"@) == without_leading(path, "/"@));
}

/// The deepest existing part of a path is a part of it: its components come first in the path.
pub proof fn law_deepest_existing_is_part(path: Seq<u8>, present: spec_fn(Seq<u8>) -> bool)
    ensures
        components(deepest_existing(path, present)).is_prefix_of(components(path)),
    decreases path.len(),
{
    if !(present(path) || parent(path) is None) {
        law_parent_drops_last_component(path);
        let up = parent(path)->0;
        law_deepest_existing_is_part(up, present);
        let part = components(deepest_existing(path, present));
        assert(components(path).subrange(0, part.len() as int) =~= components(up).subrange(
            0,
            part.len() as int,
        ));
    } else {
        assert(components(path).subrange(0, components(path).len() as int) =~= components(path));
    }
}

/// A search that is told the truth about what is present comes to the deepest part of the path
/// that is: each answer keeps the goal, and the search goes on only while it was not found.
pub proof fn law_lookup_finds_deepest_existing(
    root: Seq<u8>,
    full: Seq<u8>,
    target: Seq<u8>,
    current: Seq<u8>,
    present: spec_fn(Seq<u8>) -> bool,
)
    ensures
        match lookup_probed(
            VolumeLookupValue::Probing { root, full, target, current },
            present(current),
        ) {
            VolumeLookupValue::Probing { root: r, full: f, target: t, current: next } => r == root
                && f == full && t == target && next.len() < current.len() && deepest_existing(
                next,
                present,
            ) == deepest_existing(current, present),
            VolumeLookupValue::Resolving { root: r, full: f, target: t, checked } => r == root && f
                == full && t == target && checked == deepest_existing(current, present),
        },
{
    if parent(current) is Some {
        law_parent_drops_last_component(current);
    }
}

/// A search that is told the truth about what paths resolve to keeps its goal: either it goes on
/// with a path that leads to the same place and has fewer `..` in it, or it accepts the path as
/// it was asked for exactly if it leads into the volume.
pub proof fn law_lookup_decides_by_place(
    root: Seq<u8>,
    full: Seq<u8>,
    target: Seq<u8>,
    present: spec_fn(Seq<u8>) -> bool,
    resolved: spec_fn(Seq<u8>) -> Option<Seq<u8>>,
)
    ensures
        ({
            let checked = deepest_existing(target, present);
            let bound = match resolved(root) {
                Some(p) => p,
                None => root,
            };
            match lookup_resolved(
                VolumeLookupValue::Resolving { root, full, target, checked },
                resolved(checked),
                resolved(root),
            ) {
                LookupOutcomeValue::Pending { lookup } => {
                    &&& lookup matches VolumeLookupValue::Probing {
                        root: r,
                        full: f,
                        target: next,
                        current,
                    }
                    &&& r == root && f == full && current == next
                    &&& led_to(next, present, resolved) == led_to(target, present, resolved)
                    &&& parents_in(components(next)) < parents_in(components(target))
                },
                LookupOutcomeValue::Accepted { path } => {
                    &&& path == full
                    &&& led_to(target, present, resolved) is Some
                    &&& leads_into(led_to(target, present, resolved)->0.canonical, bound)
                },
                LookupOutcomeValue::Refused { error } => {
                    &&& error == "Path traversal attempt detected"@
                    &&& led_to(target, present, resolved) matches Some(d) ==> !leads_into(
                        d.canonical,
                        bound,
                    )
                },
            }
        }),
{
    let checked = deepest_existing(target, present);
    let n = components(checked).len();
    if resolved(checked) is Some && goes_up_behind(target, n) {
        law_led_back_goes_up_less(target, n, resolved(checked)->0);
    }
}

/// A path that leads into a directory leads to a place in it: with every `..` taken out, the place
/// begins with the components of the directory.
pub proof fn law_destination_is_in_volume(
    path: Seq<u8>,
    present: spec_fn(Seq<u8>) -> bool,
    resolved: spec_fn(Seq<u8>) -> Option<Seq<u8>>,
    bound: Seq<u8>,
)
    requires
        led_to(path, present, resolved) is Some,
        leads_into(led_to(path, present, resolved)->0.canonical, bound),
    ensures
        components(bound).is_prefix_of(
            without_parents(led_to(path, present, resolved)->0.place()),
        ),
    decreases parents_in(components(path)),
{
    let checked = deepest_existing(path, present);
    let n = components(checked).len();
    let canonical = resolved(checked)->0;
    if goes_up_behind(path, n) {
        law_led_back_goes_up_less(path, n, canonical);
        law_destination_is_in_volume(
            target_led_back(path, checked, canonical),
            present,
            resolved,
            bound,
        );
    } else {
        let behind = components(path).skip(n as int);
        law_deepest_existing_is_part(path, present);
        assert forall|k: int| 0 <= k < behind.len() implies #[trigger] behind[k] != seq![
            DOT,
            DOT,
        ] by {
            assert(behind[k] == components(path)[n + k]);
        }
        let front = components(canonical);
        lemma_without_parents_add(front, behind);
        let b = components(bound);
        let place = without_parents(front) + behind;
        assert(place.subrange(0, b.len() as int) =~= without_parents(front).subrange(
            0,
            b.len() as int,
        ));
    }
}

/// Finds the part of a path in the container that lies below the mount point of the volume.
pub fn make_inside_path(container_path: &str) -> (r: String)
    ensures
        r@ == inside_path(container_path@),
{
    let mounted: bool = same_text(container_path, "/home/container") || starts_with(
        container_path,
        "/home/container/",
    );
    if mounted {
        proof {
            reveal_strlit("/home/container");
            reveal_strlit("/home/container/");
            let whole = container_path@;
            if "/home/container/"@.is_prefix_of(whole) {
                assert(whole.subrange(0, 15) =~= whole.subrange(0, 16).subrange(0, 15));
                assert("/home/container/"@.subrange(0, 15) =~= "/home/container"@);
            }
            assert(whole.subrange(0, 15) =~= "/home/container"@);
        }
        match strip_prefix(container_path, "/home/container") {
            Some(below) => trim_leading(below.as_str(), "/"),
            None => trim_leading(container_path, "/"),
        }
    } else {
        trim_leading(container_path, "/")
    }
}

impl VolumeLookup {
    /// Begins the search for the host path of a path in a container.
    pub fn begin(base: &str, container_id: &str, container_path: &str) -> (r: VolumeLookup)
        ensures
            r@ == lookup_begun(base@, container_id@, container_path@),
    {
        let root = join_path(&bytes_of(base), &bytes_of(container_id));
        let inside = make_inside_path(container_path);
        let full = if inside.as_str().is_empty() {
            copy_bytes(&root)
        } else {
            join_path(&root, &bytes_of(inside.as_str()))
        };
        let target = copy_bytes(&full);
        let current = copy_bytes(&full);
        VolumeLookup::Probing { root, full, target, current }
    }

    /// Goes on once it is known whether there is anything at the path that it asked for.
    pub fn probed(self, present: bool) -> (r: VolumeLookup)
        ensures
            r@ == lookup_probed(self@, present),
    {
        match self {
            VolumeLookup::Probing { root, full, target, current } => {
                if present {
                    return VolumeLookup::Resolving { root, full, target, checked: current };
                }
                match parent_path(&current) {
                    Some(up) => {
                        assert(up.deep_view() =~= up@);
                        VolumeLookup::Probing { root, full, target, current: up }
                    },
                    None => VolumeLookup::Resolving { root, full, target, checked: current },
                }
            },
            VolumeLookup::Resolving { .. } => self,
        }
    }

    /// Decides once it is known what the path and the directory of the volume resolve to, or goes
    /// on with fewer `..` in the path.
    pub fn resolved(self, canonical: Option<Vec<u8>>, canonical_root: Option<Vec<u8>>) -> (r:
        LookupOutcome)
        ensures
            r@ == lookup_resolved(self@, path_bytes(canonical), path_bytes(canonical_root)),
    {
        match self {
            VolumeLookup::Resolving { root, full, target, checked } => {
                let place = match canonical {
                    Some(p) => p,
                    None => {
                        return LookupOutcome::Refused {
                            error: "Path traversal attempt detected".to_owned(),
                        };
                    },
                };
                let depth: usize = path_components(&checked).len();
                if path_goes_up_behind(&target, depth) {
                    let next = lead_back(&target, depth, &place);
                    let current = copy_bytes(&next);
                    let lookup = VolumeLookup::Probing { root, full, target: next, current };
                    return LookupOutcome::Pending { lookup };
                }
                let bound = match canonical_root {
                    Some(p) => p,
                    None => root,
                };
                if path_leads_into(&place, &bound) {
                    LookupOutcome::Accepted { path: full }
                } else {
                    LookupOutcome::Refused { error: "Path traversal attempt detected".to_owned() }
                }
            },
            VolumeLookup::Probing { .. } => LookupOutcome::Pending { lookup: self },
        }
    }
}

} // verus!
