//! Lists of port allocations: the host ports they hold and the mappings they stand for.

use vstd::prelude::*;
use crate::models::{Pairs, PairTexts, PortAllocation, PortAllocationTexts};
use crate::number::{parse_port, port_number};
use crate::text::same_text;

verus! {

/// The host ports that the allocations hold, where they can be read as port numbers.
pub open spec fn held_ports(allocations: Seq<PortAllocationTexts>) -> Seq<u16>
    decreases allocations.len(),
{
    if allocations.len() == 0 {
        Seq::empty()
    } else {
        let front = held_ports(allocations.drop_last());
        match port_number(allocations.last().host_port) {
            Some(port) => front.push(port),
            None => front,
        }
    }
}

/// Whether one of the pairs has the given name.
pub open spec fn has_name(pairs: PairTexts, name: Seq<char>) -> bool {
    exists|i: int| 0 <= i < pairs.len() && (#[trigger] pairs[i]).0 == name
}

/// Whether no name occurs twice.
pub open spec fn distinct_names(pairs: PairTexts) -> bool {
    forall|i: int, j: int|
        0 <= i < j < pairs.len() ==> (#[trigger] pairs[i]).0 != (#[trigger] pairs[j]).0
}

/// The pairs after `name` was given `value`: in place where the name is there already, at the
/// end where it is not.
pub open spec fn with_pair(pairs: PairTexts, name: Seq<char>, value: Seq<char>) -> PairTexts {
    if has_name(pairs, name) {
        Seq::new(
            pairs.len(),
            |i: int|
                if pairs[i].0 == name {
                    (name, value)
                } else {
                    pairs[i]
                },
        )
    } else {
        pairs.push((name, value))
    }
}

/// Each container port with its host port. Where a container port was allocated more than
/// once the last allocation counts.
pub open spec fn port_pairs(allocations: Seq<PortAllocationTexts>) -> PairTexts
    decreases allocations.len(),
{
    if allocations.len() == 0 {
        Seq::empty()
    } else {
        with_pair(
            port_pairs(allocations.drop_last()),
            allocations.last().container_port,
            allocations.last().host_port,
        )
    }
}

/// Whether no later allocation is for the same container port.
pub open spec fn is_last_for_its_port(allocations: Seq<PortAllocationTexts>, i: int) -> bool {
    forall|j: int|
        i < j < allocations.len() ==> (#[trigger] allocations[j]).container_port
            != allocations[i].container_port
}

/// The port mappings name each container port once, and pair it with the host port of the
/// last allocation made for it.
pub proof fn law_port_pairs(allocations: Seq<PortAllocationTexts>)
    ensures
        distinct_names(port_pairs(allocations)),
        forall|i: int|
            0 <= i < allocations.len() && #[trigger] is_last_for_its_port(allocations, i)
                ==> port_pairs(allocations).contains(
                (allocations[i].container_port, allocations[i].host_port),
            ),
        forall|k: int|
            0 <= k < port_pairs(allocations).len() ==> exists|i: int|
                0 <= i < allocations.len() && #[trigger] is_last_for_its_port(allocations, i)
                    && #[trigger] port_pairs(allocations)[k] == (
                    allocations[i].container_port,
                    allocations[i].host_port,
                ),
    decreases allocations.len(),
{
    if allocations.len() > 0 {
        let front = allocations.drop_last();
        law_port_pairs(front);
        let before = port_pairs(front);
        let last = allocations.last();
        let after = port_pairs(allocations);
        let n = allocations.len() - 1;
        assert(is_last_for_its_port(allocations, n));
        assert(after.contains((last.container_port, last.host_port))) by {
            if has_name(before, last.container_port) {
                let k = choose|k: int|
                    0 <= k < before.len() && (#[trigger] before[k]).0 == last.container_port;
                assert(after[k] == (last.container_port, last.host_port));
            } else {
                assert(after[before.len() as int] == (last.container_port, last.host_port));
            }
        }
        assert forall|i: int|
            0 <= i < allocations.len() && #[trigger] is_last_for_its_port(
                allocations,
                i,
            ) implies after.contains((allocations[i].container_port, allocations[i].host_port)) by {
            if i < n {
                assert(allocations[n].container_port != allocations[i].container_port);
                assert(is_last_for_its_port(front, i)) by {
                    assert forall|j: int| i < j < front.len() implies (
                    #[trigger] front[j]).container_port != front[i].container_port by {
                        assert(allocations[j].container_port != allocations[i].container_port);
                    }
                }
                let pair = (front[i].container_port, front[i].host_port);
                assert(before.contains(pair));
                let k = choose|k: int| 0 <= k < before.len() && before[k] == pair;
                assert(after[k] == before[k]);
            }
        }
        assert forall|k: int| 0 <= k < after.len() implies exists|i: int|
            0 <= i < allocations.len() && #[trigger] is_last_for_its_port(allocations, i)
                && #[trigger] after[k] == (
                allocations[i].container_port,
                allocations[i].host_port,
            ) by {
            if after[k] == (last.container_port, last.host_port) {
                assert(is_last_for_its_port(allocations, n));
            } else {
                assert(after[k] == before[k]);
                let i = choose|i: int|
                    0 <= i < front.len() && #[trigger] is_last_for_its_port(front, i) && before[k]
                        == (front[i].container_port, front[i].host_port);
                assert(front[i] == allocations[i]);
                assert(is_last_for_its_port(allocations, i)) by {
                    assert forall|j: int| i < j < allocations.len() implies (
                    #[trigger] allocations[j]).container_port
                        != allocations[i].container_port by {
                        if j < n {
                            assert(front[j].container_port != front[i].container_port);
                        } else {
                            assert(before[k].0 == front[i].container_port);
                        }
                    }
                }
            }
        }
    }
}

/// Every host port that can be read is held, and no other: the allocations whose host ports are
/// numbers hold these, one for one and in order.
pub proof fn law_held_ports(allocations: Seq<PortAllocationTexts>)
    ensures
        ({
            let held = held_ports(allocations);
            &&& held.len() <= allocations.len()
            &&& forall|i: int|
                0 <= i < allocations.len() ==> (port_number((#[trigger] allocations[i]).host_port)
                    matches Some(port) ==> held.contains(port))
            &&& forall|k: int|
                #![trigger held[k]]
                0 <= k < held.len() ==> exists|i: int|
                    0 <= i < allocations.len() && port_number((#[trigger] allocations[i]).host_port)
                        == Some(held[k])
            &&& (forall|i: int|
                0 <= i < allocations.len() ==> port_number((#[trigger] allocations[i]).host_port)
                    is Some) ==> held.len() == allocations.len() && forall|i: int|
                0 <= i < allocations.len() ==> Some(#[trigger] held[i]) == port_number(
                    allocations[i].host_port,
                )
        }),
    decreases allocations.len(),
{
    if allocations.len() > 0 {
        let front = allocations.drop_last();
        law_held_ports(front);
        let n = allocations.len() - 1;
        let before = held_ports(front);
        let held = held_ports(allocations);
        assert forall|i: int| 0 <= i < allocations.len() implies (port_number(
            (#[trigger] allocations[i]).host_port,
        ) matches Some(port) ==> held.contains(port)) by {
            if let Some(port) = port_number(allocations[i].host_port) {
                if i < n {
                    assert(front[i] == allocations[i]);
                    assert(before.contains(port));
                    let k = choose|k: int| 0 <= k < before.len() && before[k] == port;
                    assert(held[k] == port);
                } else {
                    assert(held[held.len() - 1] == port);
                }
            }
        }
        assert forall|k: int|
            #![trigger held[k]]
            0 <= k < held.len() implies exists|i: int|
            0 <= i < allocations.len() && port_number((#[trigger] allocations[i]).host_port)
                == Some(held[k]) by {
            if k < before.len() {
                assert(held[k] == before[k]);
                let i = choose|i: int|
                    0 <= i < front.len() && port_number((#[trigger] front[i]).host_port) == Some(
                        before[k],
                    );
                assert(allocations[i] == front[i]);
            } else {
                assert(port_number(allocations[n].host_port) == Some(held[k]));
            }
        }
        if forall|i: int|
            0 <= i < allocations.len() ==> port_number((#[trigger] allocations[i]).host_port)
                is Some {
            assert forall|i: int| 0 <= i < front.len() implies port_number(
                (#[trigger] front[i]).host_port,
            ) is Some by {
                assert(front[i] == allocations[i]);
            }
            assert(port_number(allocations[n].host_port) is Some);
        }
    }
}

/// Ports are held allocation by allocation: those of two lists one after the other are those of
/// the first and then those of the second, and an allocation alone holds its port where that can
/// be read and none where it cannot.
pub proof fn law_ports_are_held_one_by_one(
    first: Seq<PortAllocationTexts>,
    second: Seq<PortAllocationTexts>,
    one: PortAllocationTexts,
)
    ensures
        held_ports(first + second) == held_ports(first) + held_ports(second),
        held_ports(seq![one]) == match port_number(one.host_port) {
            Some(port) => seq![port],
            None => Seq::empty(),
        },
    decreases second.len(),
{
    assert(seq![one].drop_last() =~= Seq::<PortAllocationTexts>::empty());
    assert(held_ports(seq![one].drop_last()) =~= Seq::<u16>::empty());
    match port_number(one.host_port) {
        Some(port) => {
            assert(held_ports(seq![one]) =~= seq![port]);
        },
        None => {},
    }
    if second.len() == 0 {
        assert(first + second =~= first);
        assert(held_ports(first) + held_ports(second) =~= held_ports(first));
    } else {
        let front = second.drop_last();
        law_ports_are_held_one_by_one(first, front, one);
        assert((first + second).drop_last() =~= first + front);
        assert(held_ports(first + second) =~= held_ports(first) + held_ports(second));
    }
}

/// Reads the host ports that the allocations hold.
pub fn find_held_ports(allocations: &Vec<PortAllocation>) -> (r: Vec<u16>)
    ensures
        r@ == held_ports(allocations.deep_view()),
{
    let mut r: Vec<u16> = Vec::new();
    let mut i: usize = 0;
    let ghost all = allocations.deep_view();
    while i < allocations.len()
        invariant
            i <= allocations@.len(),
            all == allocations.deep_view(),
            r@ == held_ports(all.take(i as int)),
        decreases allocations@.len() - i,
    {
        assert(all.take(i + 1).drop_last() =~= all.take(i as int));
        assert(all.take(i + 1).last() == allocations@[i as int].deep_view());
        match parse_port(allocations[i].host_port.as_str()) {
            Some(port) => {
                r.push(port);
            },
            None => {},
        }
        i = i + 1;
    }
    assert(all.take(i as int) =~= all);
    r
}

/// Gives `name` the value `value`.
fn set_pair(pairs: &mut Pairs, name: &String, value: &String)
    ensures
        final(pairs).deep_view() == with_pair(old(pairs).deep_view(), name@, value@),
{
    let ghost before = pairs.deep_view();
    let mut found: bool = false;
    let mut i: usize = 0;
    while i < pairs.len()
        invariant
            i <= pairs@.len(),
            pairs@.len() == before.len(),
            found == (exists|k: int| 0 <= k < i && (#[trigger] before[k]).0 == name@),
            forall|k: int|
                0 <= k < i ==> #[trigger] pairs@[k].deep_view() == if before[k].0 == name@ {
                    (name@, value@)
                } else {
                    before[k]
                },
            forall|k: int| i <= k < pairs@.len() ==> #[trigger] pairs@[k].deep_view() == before[k],
        decreases pairs@.len() - i,
    {
        assert(pairs@[i as int].deep_view() == before[i as int]);
        if same_text(pairs[i].0.as_str(), name.as_str()) {
            pairs.set(i, (name.clone(), value.clone()));
            found = true;
            assert(before[i as int].0 == name@);
        }
        i = i + 1;
    }
    if found {
        assert(pairs.deep_view() =~= with_pair(before, name@, value@));
    } else {
        let ghost middle = pairs.deep_view();
        assert(middle =~= before);
        pairs.push((name.clone(), value.clone()));
        assert(pairs.deep_view() =~= with_pair(before, name@, value@));
    }
}

/// Pairs each container port with its host port.
pub fn find_port_pairs(allocations: &Vec<PortAllocation>) -> (r: Pairs)
    ensures
        r.deep_view() == port_pairs(allocations.deep_view()),
{
    let mut r: Pairs = Vec::new();
    let mut i: usize = 0;
    let ghost all = allocations.deep_view();
    assert(r.deep_view() =~= port_pairs(all.take(0)));
    while i < allocations.len()
        invariant
            i <= allocations@.len(),
            all == allocations.deep_view(),
            r.deep_view() == port_pairs(all.take(i as int)),
        decreases allocations@.len() - i,
    {
        assert(all.take(i + 1).drop_last() =~= all.take(i as int));
        assert(all.take(i + 1).last() == allocations@[i as int].deep_view());
        set_pair(&mut r, &allocations[i].container_port, &allocations[i].host_port);
        i = i + 1;
    }
    assert(all.take(i as int) =~= all);
    r
}

} // verus!
