//! The chain of exceptions of a batch.
//!
//! The values of a batch that do not fit its width are its exceptions. In
//! the packed slots the place of an exception holds the number of places to
//! skip to reach the next exception, so the exceptions form a chain that
//! starts at the place named in the header. A skip has to fit the width
//! too: where two exceptions lie too far apart, places between them are
//! made exceptions as well, at every `2^width`-th place after the first of
//! the two.
use vstd::arithmetic::power2::pow2;
use vstd::prelude::*;

verus! {

/// The exceptions among the first `end` values, in order: the places whose
/// value needs more than `width` bits, each with its value.
pub open spec fn outliers(values: Seq<u32>, width: nat, end: nat) -> Seq<(usize, u32)>
    decreases end,
{
    if end == 0 {
        Seq::empty()
    } else {
        let before = outliers(values, width, (end - 1) as nat);
        if values[end - 1] >= pow2(width) {
            before.push(((end - 1) as usize, values[end - 1]))
        } else {
            before
        }
    }
}

/// The places `from + step`, `from + 2 * step`, ... that lie before `to`,
/// each with its value.
pub open spec fn forced_between(values: Seq<u32>, from: int, to: int, step: int) -> Seq<
    (usize, u32),
>
    decreases to - from,
{
    if step >= 1 && to - from > step {
        seq![((from + step) as usize, values[from + step])] + forced_between(
            values,
            from + step,
            to,
            step,
        )
    } else {
        Seq::empty()
    }
}

/// The chain made of the first `upto` exceptions: each of them, followed by
/// the places forced between it and the next exception.
pub open spec fn chain_of(
    exceptions: Seq<(usize, u32)>,
    values: Seq<u32>,
    step: int,
    upto: nat,
) -> Seq<(usize, u32)>
    decreases upto,
{
    if upto == 0 {
        Seq::empty()
    } else {
        let before = chain_of(exceptions, values, step, (upto - 1) as nat);
        let current = exceptions[upto - 1];
        if upto < exceptions.len() {
            before.push(current) + forced_between(
                values,
                current.0 as int,
                exceptions[upto as int].0 as int,
                step,
            )
        } else {
            before.push(current)
        }
    }
}

/// The chain of a batch at a width.
pub open spec fn exception_chain(values: Seq<u32>, width: nat) -> Seq<(usize, u32)> {
    let exceptions = outliers(values, width, values.len());
    chain_of(exceptions, values, pow2(width) as int, exceptions.len())
}

/// The places of a list of exceptions rise and lie before `count`.
pub open spec fn ascending(exceptions: Seq<(usize, u32)>, count: nat) -> bool {
    &&& forall|k: int| 0 <= k < exceptions.len() ==> (#[trigger] exceptions[k]).0 < count
    &&& forall|j: int, k: int|
        0 <= j < k < exceptions.len() ==> (#[trigger] exceptions[j]).0 < (
        #[trigger] exceptions[k]).0
}

/// The places of a list of exceptions rise, lie in the batch, and each
/// exception carries the value at its place.
pub open spec fn rising(exceptions: Seq<(usize, u32)>, values: Seq<u32>) -> bool {
    &&& ascending(exceptions, values.len())
    &&& forall|k: int|
        0 <= k < exceptions.len() ==> (#[trigger] exceptions[k]).1 == values[exceptions[k].0 as int]
}

/// The number of places from link `k` of a chain to the next link.
pub open spec fn step_from(links: Seq<(usize, u32)>, k: int) -> int {
    links[k + 1].0 - links[k].0
}

/// No step of a chain from one link to the next is longer than `step`.
pub open spec fn close(links: Seq<(usize, u32)>, step: int) -> bool {
    forall|k: int| 0 <= k < links.len() - 1 ==> #[trigger] step_from(links, k) <= step
}

/// Every place whose value needs more than `width` bits is a link.
pub open spec fn covers(links: Seq<(usize, u32)>, values: Seq<u32>, width: nat) -> bool {
    forall|place: int|
        0 <= place < values.len() && #[trigger] values[place] >= pow2(width) ==> exists|k: int|
            0 <= k < links.len() && (#[trigger] links[k]).0 == place
}

/// The exceptions of a batch rise and are all the places that need more
/// than `width` bits.
pub proof fn lemma_outliers(values: Seq<u32>, width: nat, end: nat)
    requires
        end <= values.len() <= usize::MAX,
    ensures
        rising(outliers(values, width, end), values),
        outliers(values, width, end).len() <= end,
        forall|k: int|
            0 <= k < outliers(values, width, end).len() ==> (#[trigger] outliers(
                values,
                width,
                end,
            )[k]).0 < end && outliers(values, width, end)[k].1 >= pow2(width),
        forall|place: int|
            0 <= place < end && #[trigger] values[place] >= pow2(width) ==> exists|k: int|
                0 <= k < outliers(values, width, end).len() && (#[trigger] outliers(
                    values,
                    width,
                    end,
                )[k]).0 == place,
    decreases end,
{
    if end > 0 {
        let fewer = (end - 1) as nat;
        lemma_outliers(values, width, fewer);
        let before = outliers(values, width, fewer);
        let all = outliers(values, width, end);
        assert forall|place: int|
            0 <= place < end && #[trigger] values[place] >= pow2(width) implies exists|k: int|
            0 <= k < all.len() && (#[trigger] all[k]).0 == place by {
            if place < fewer {
                let k = choose|k: int| 0 <= k < before.len() && (#[trigger] before[k]).0 == place;
                assert(all[k].0 == place);
            } else {
                assert(all[all.len() - 1].0 == place);
            }
        }
    }
}

/// The places forced between two exceptions rise from one step after the
/// first, carry their values, and leave no step longer than `step` up to
/// the second.
pub proof fn lemma_forced_between(values: Seq<u32>, from: int, to: int, step: int)
    requires
        0 <= from < to < values.len() <= usize::MAX,
        step >= 1,
    ensures
        ({
            let forced = forced_between(values, from, to, step);
            &&& forall|k: int|
                0 <= k < forced.len() ==> from < (#[trigger] forced[k]).0 < to && forced[k].1
                    == values[forced[k].0 as int]
            &&& forced.len() > 0 ==> forced[0].0 == from + step && to - forced.last().0 <= step
            &&& forced.len() == 0 ==> to - from <= step
            &&& rising(forced, values)
            &&& close(forced, step)
        }),
    decreases to - from,
{
    if to - from > step {
        lemma_forced_between(values, from + step, to, step);
        let rest = forced_between(values, from + step, to, step);
        let forced = forced_between(values, from, to, step);
        assert(forced == seq![((from + step) as usize, values[from + step])] + rest);
        let head = seq![((from + step) as usize, values[from + step])];
        assert(rising(head, values));
        assert(close(head, step));
        lemma_joined(head, rest, values, step);
        if rest.len() > 0 {
            assert(forced.last() == rest.last());
        }
        assert forall|k: int| 0 <= k < forced.len() implies from < (#[trigger] forced[k]).0
            < to by {
            if k > 0 {
                assert(forced[k] == rest[k - 1]);
            }
        }
    }
}

/// Two chains, the second beginning within a step after the end of the
/// first, make one chain.
pub proof fn lemma_joined(
    first: Seq<(usize, u32)>,
    second: Seq<(usize, u32)>,
    values: Seq<u32>,
    step: int,
)
    requires
        rising(first, values),
        close(first, step),
        rising(second, values),
        close(second, step),
        first.len() > 0 && second.len() > 0 ==> first.last().0 < second[0].0 <= first.last().0
            + step,
    ensures
        rising(first + second, values),
        close(first + second, step),
{
    let joined = first + second;
    let split = first.len() as int;
    assert forall|k: int| 0 <= k < joined.len() implies (#[trigger] joined[k]).0 < values.len()
        && joined[k].1 == values[joined[k].0 as int] by {
        if k < split {
            assert(joined[k] == first[k]);
        } else {
            assert(joined[k] == second[k - split]);
        }
    }
    assert forall|j: int, k: int| 0 <= j < k < joined.len() implies (#[trigger] joined[j]).0 < (
    #[trigger] joined[k]).0 by {
        if k < split {
            assert(first[j].0 < first[k].0);
        } else if j >= split {
            assert(second[j - split].0 < second[k - split].0);
        } else {
            if j < split - 1 {
                assert(first[j].0 < first[split - 1].0);
            }
            if k > split {
                assert(second[0].0 < second[k - split].0);
            }
        }
    }
    assert forall|k: int| 0 <= k < joined.len() - 1 implies #[trigger] step_from(joined, k)
        <= step by {
        if k + 1 < split {
            assert(step_from(first, k) <= step);
        } else if k + 1 > split {
            assert(step_from(second, k - split) <= step);
        }
    }
}

/// A chain rises, takes no step longer than `step`, begins with the first
/// exception, and holds every exception it was made of.
pub proof fn lemma_chain_of(
    exceptions: Seq<(usize, u32)>,
    values: Seq<u32>,
    step: int,
    upto: nat,
)
    requires
        rising(exceptions, values),
        values.len() <= usize::MAX,
        step >= 1,
        upto <= exceptions.len(),
    ensures
        ({
            let links = chain_of(exceptions, values, step, upto);
            &&& rising(links, values)
            &&& close(links, step)
            &&& links.len() >= upto
            &&& upto > 0 ==> links[0] == exceptions[0]
            &&& 0 < upto < exceptions.len() ==> links.last().0 < exceptions[upto as int].0
                <= links.last().0 + step
            &&& 0 < upto == exceptions.len() ==> links.last() == exceptions[upto - 1]
            &&& forall|j: int| 0 <= j < upto ==> links.contains(#[trigger] exceptions[j])
        }),
    decreases upto,
{
    if upto > 0 {
        let fewer = (upto - 1) as nat;
        lemma_chain_of(exceptions, values, step, fewer);
        let before = chain_of(exceptions, values, step, fewer);
        let current = exceptions[upto - 1];
        let single = seq![current];
        let grown = before + single;
        assert(grown =~= before.push(current));
        lemma_joined(before, single, values, step);
        let forced = if upto < exceptions.len() {
            forced_between(values, current.0 as int, exceptions[upto as int].0 as int, step)
        } else {
            Seq::empty()
        };
        if upto < exceptions.len() {
            assert(exceptions[upto - 1].0 < exceptions[upto as int].0);
            lemma_forced_between(values, current.0 as int, exceptions[upto as int].0 as int, step);
        }
        let links = chain_of(exceptions, values, step, upto);
        assert(links =~= grown + forced);
        assert(grown.last() == current);
        lemma_joined(grown, forced, values, step);
        assert forall|j: int| 0 <= j < upto implies links.contains(#[trigger] exceptions[j]) by {
            if j < fewer {
                let k = choose|k: int| 0 <= k < before.len() && before[k] == exceptions[j];
                assert(links[k] == exceptions[j]);
            } else {
                assert(links[before.len() as int] == exceptions[j]);
            }
        }
        if forced.len() > 0 {
            assert(links.last() == forced.last());
        } else {
            assert(links.last() == current);
        }
        if fewer > 0 {
            assert(links[0] == before[0]);
        } else {
            assert(before.len() == 0);
            assert(links[0] == current);
        }
    }
}

/// The chain of a batch rises, covers every value that does not fit the
/// width, and takes no step longer than `2^width`.
pub proof fn lemma_exception_chain(values: Seq<u32>, width: nat)
    requires
        values.len() <= usize::MAX,
    ensures
        rising(exception_chain(values, width), values),
        close(exception_chain(values, width), pow2(width) as int),
        covers(exception_chain(values, width), values, width),
{
    let exceptions = outliers(values, width, values.len());
    let step = pow2(width) as int;
    vstd::arithmetic::power2::lemma_pow2_pos(width);
    lemma_outliers(values, width, values.len());
    lemma_chain_of(exceptions, values, step, exceptions.len());
    let links = exception_chain(values, width);
    assert forall|place: int|
        0 <= place < values.len() && #[trigger] values[place] >= pow2(width) implies exists|k: int|
        0 <= k < links.len() && (#[trigger] links[k]).0 == place by {
        let j = choose|j: int| 0 <= j < exceptions.len() && (#[trigger] exceptions[j]).0 == place;
        assert(links.contains(exceptions[j]));
        let k = choose|k: int| 0 <= k < links.len() && links[k] == exceptions[j];
        assert(links[k].0 == place);
    }
}

/// The number stored in the slot of link `k`: how many places lie between
/// it and the next link, and zero at the last link.
pub open spec fn skip_at(links: Seq<(usize, u32)>, k: int) -> int {
    if k + 1 < links.len() {
        links[k + 1].0 - links[k].0 - 1
    } else {
        0
    }
}

/// The values with the places of the first `upto` links overwritten by the
/// skip of each.
pub open spec fn linked(values: Seq<u32>, links: Seq<(usize, u32)>, upto: nat) -> Seq<u32>
    decreases upto,
{
    if upto == 0 {
        values
    } else {
        linked(values, links, (upto - 1) as nat).update(
            links[upto - 1].0 as int,
            skip_at(links, upto - 1) as u32,
        )
    }
}

/// The slots of a batch: its values, and at each link of the chain the skip
/// to the next link.
pub open spec fn slots_of(values: Seq<u32>, links: Seq<(usize, u32)>) -> Seq<u32> {
    linked(values, links, links.len())
}

/// The values that the links of a chain carry, in the order of the chain.
pub open spec fn values_of(links: Seq<(usize, u32)>) -> Seq<u32> {
    Seq::new(links.len(), |k: int| links[k].1)
}

/// Place `place` is one of the first `upto` links.
pub open spec fn linked_at(links: Seq<(usize, u32)>, upto: nat, place: int) -> bool {
    exists|j: int| 0 <= j < upto && (#[trigger] links[j]).0 == place
}

/// The slots after a walk along the chain: beginning at `place`, each
/// exception in turn replaces the skip at the current place, and the skip
/// leads to the place of the next exception.
pub open spec fn patched(slots: Seq<u32>, place: int, exceptions: Seq<u32>) -> Seq<u32>
    decreases exceptions.len(),
{
    if exceptions.len() == 0 {
        slots
    } else {
        patched(
            slots.update(place, exceptions[0]),
            place + 1 + slots[place],
            exceptions.drop_first(),
        )
    }
}

/// The walk along the chain stays within the slots for as long as there are
/// exceptions to place.
pub open spec fn walk_ok(slots: Seq<u32>, place: int, exceptions: Seq<u32>) -> bool
    decreases exceptions.len(),
{
    exceptions.len() == 0 || (0 <= place < slots.len() && walk_ok(
        slots.update(place, exceptions[0]),
        place + 1 + slots[place],
        exceptions.drop_first(),
    ))
}

/// The slots differ from the values only at the links, where they hold the
/// skips.
pub proof fn lemma_linked(values: Seq<u32>, links: Seq<(usize, u32)>, upto: nat)
    requires
        rising(links, values),
        upto <= links.len(),
    ensures
        linked(values, links, upto).len() == values.len(),
        forall|k: int|
            0 <= k < upto ==> linked(values, links, upto)[(#[trigger] links[k]).0 as int]
                == skip_at(links, k) as u32,
        forall|place: int|
            0 <= place < values.len() && !linked_at(links, upto, place) ==> #[trigger] linked(
                values,
                links,
                upto,
            )[place] == values[place],
    decreases upto,
{
    if upto > 0 {
        let fewer = (upto - 1) as nat;
        lemma_linked(values, links, fewer);
        let before = linked(values, links, fewer);
        let now = linked(values, links, upto);
        let last = links[upto - 1].0 as int;
        assert forall|k: int| 0 <= k < upto implies now[(#[trigger] links[k]).0 as int] == skip_at(
            links,
            k,
        ) as u32 by {
            if k < fewer {
                assert(links[k].0 < links[upto - 1].0);
            }
        }
        assert forall|place: int|
            0 <= place < values.len() && !linked_at(links, upto, place) implies #[trigger] now[place]
            == values[place] by {
            assert(links[upto - 1].0 != place);
            assert(!linked_at(links, fewer, place)) by {
                if linked_at(links, fewer, place) {
                    let j = choose|j: int| 0 <= j < fewer && (#[trigger] links[j]).0 == place;
                    assert(0 <= j < upto && links[j].0 == place);
                }
            }
            assert(before[place] == values[place]);
        }
    }
}

/// Every slot of a batch fits the width: a value that is no exception by
/// what a link is, and a skip because no step of the chain is longer than
/// `2^width`.
pub proof fn lemma_slots_fit(values: Seq<u32>, links: Seq<(usize, u32)>, width: nat)
    requires
        rising(links, values),
        close(links, pow2(width) as int),
        covers(links, values, width),
        values.len() <= u32::MAX,
    ensures
        slots_of(values, links).len() == values.len(),
        forall|place: int|
            0 <= place < values.len() ==> #[trigger] slots_of(values, links)[place] < pow2(width),
{
    let slots = slots_of(values, links);
    lemma_linked(values, links, links.len());
    vstd::arithmetic::power2::lemma_pow2_pos(width);
    assert forall|place: int| 0 <= place < values.len() implies #[trigger] slots[place] < pow2(
        width,
    ) by {
        if linked_at(links, links.len(), place) {
            let k = choose|k: int| 0 <= k < links.len() && (#[trigger] links[k]).0 == place;
            assert(slots[links[k].0 as int] == skip_at(links, k) as u32);
            if k + 1 < links.len() {
                assert(step_from(links, k) <= pow2(width));
                assert(links[k].0 < links[k + 1].0);
            }
        } else {
            assert(slots[place] == values[place]);
            if values[place] >= pow2(width) {
                let k = choose|k: int| 0 <= k < links.len() && (#[trigger] links[k]).0 == place;
                assert(linked_at(links, links.len(), place));
            }
        }
    }
}

/// The slots of a batch in which all places before link `k` hold their
/// values again.
pub open spec fn restored(values: Seq<u32>, links: Seq<(usize, u32)>, k: int) -> Seq<u32> {
    let reached = if k < links.len() {
        links[k].0 as int
    } else {
        values.len() as int
    };
    Seq::new(
        values.len(),
        |place: int|
            if place < reached {
                values[place]
            } else {
                slots_of(values, links)[place]
            },
    )
}

/// A walk that has put back the exceptions before link `k` and stands at
/// link `k` stays within the slots and ends with the values of the batch.
pub proof fn lemma_walk(values: Seq<u32>, links: Seq<(usize, u32)>, k: int, place: int)
    requires
        rising(links, values),
        values.len() <= u32::MAX,
        0 <= k <= links.len(),
        k < links.len() ==> place == links[k].0,
    ensures
        walk_ok(restored(values, links, k), place, values_of(links).skip(k)),
        patched(restored(values, links, k), place, values_of(links).skip(k)) == values,
    decreases links.len() - k,
{
    let slots = slots_of(values, links);
    let state = restored(values, links, k);
    let left = values_of(links).skip(k);
    lemma_linked(values, links, links.len());
    if k == links.len() {
        assert(state =~= values);
    } else {
        let here = links[k].0 as int;
        let after = if k + 1 < links.len() {
            links[k + 1].0 as int
        } else {
            values.len() as int
        };
        if k + 1 < links.len() {
            assert(links[k].0 < links[k + 1].0);
        }
        assert(state[here] == skip_at(links, k) as u32);
        assert(left[0] == values[here]);
        assert(left.drop_first() =~= values_of(links).skip(k + 1));
        let next = state.update(here, left[0]);
        assert(next =~= restored(values, links, k + 1)) by {
            assert forall|spot: int| 0 <= spot < values.len() implies next[spot] == restored(
                values,
                links,
                k + 1,
            )[spot] by {
                if here < spot < after {
                    assert(!linked_at(links, links.len(), spot)) by {
                        if linked_at(links, links.len(), spot) {
                            let j = choose|j: int|
                                0 <= j < links.len() && (#[trigger] links[j]).0 == spot;
                            if j < k {
                                assert(links[j].0 < links[k].0);
                            } else if j > k + 1 {
                                assert(links[k + 1].0 < links[j].0);
                            }
                        }
                    }
                    assert(slots[spot] == values[spot]);
                }
            }
        }
        lemma_walk(values, links, k + 1, here + 1 + state[here]);
    }
}

/// The walk along the chain of a batch, begun at its first link, stays
/// within the slots and turns the slots into the values of the batch.
pub proof fn lemma_patched_slots(values: Seq<u32>, links: Seq<(usize, u32)>, place: int)
    requires
        rising(links, values),
        values.len() <= u32::MAX,
        links.len() > 0 ==> place == links[0].0,
    ensures
        walk_ok(slots_of(values, links), place, values_of(links)),
        patched(slots_of(values, links), place, values_of(links)) == values,
{
    let slots = slots_of(values, links);
    lemma_linked(values, links, links.len());
    lemma_walk(values, links, 0, place);
    assert(values_of(links).skip(0) =~= values_of(links));
    assert(restored(values, links, 0) =~= slots) by {
        assert forall|spot: int| 0 <= spot < values.len() implies restored(values, links, 0)[spot]
            == slots[spot] by {
            if links.len() == 0 || spot < links[0].0 {
                assert(!linked_at(links, links.len(), spot)) by {
                    if linked_at(links, links.len(), spot) {
                        let j = choose|j: int|
                            0 <= j < links.len() && (#[trigger] links[j]).0 == spot;
                        if j > 0 {
                            assert(links[0].0 < links[j].0);
                        }
                    }
                }
                assert(slots[spot] == values[spot]);
            }
        }
    }
}

} // verus!
