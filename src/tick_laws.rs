//! What holds of every poll tick: applied devices are not written again,
//! keys of devices that are gone are dropped, and a device that comes back
//! is written once more.

use vstd::prelude::*;

use crate::keychron::{
    is_applied_outcome, is_target_device, key_of, marked, present_keys, pruned, tick_outcomes,
    tick_result, ApplyOutcome, DeviceInfo,
};

verus! {

/// `marked` only grows as more devices are handled.
pub(crate) proof fn lemma_marked_grows(
    start: Set<Seq<char>>,
    devs: Seq<DeviceInfo>,
    outs: Seq<Option<ApplyOutcome>>,
    m: nat,
    n: nat,
)
    requires
        m <= n,
    ensures
        marked(start, devs, outs, m).subset_of(marked(start, devs, outs, n)),
    decreases n,
{
    if m < n {
        lemma_marked_grows(start, devs, outs, m, (n - 1) as nat);
    }
}

/// Every key that `marked` holds was in `start` or is the key of a device
/// whose attempt counted as applied.
proof fn lemma_marked_sources(
    start: Set<Seq<char>>,
    devs: Seq<DeviceInfo>,
    outs: Seq<Option<ApplyOutcome>>,
    n: nat,
    k: Seq<char>,
)
    requires
        marked(start, devs, outs, n).contains(k),
    ensures
        start.contains(k) || exists|j: int|
            0 <= j < n && #[trigger] outs[j] is Some && is_applied_outcome(outs[j]->0) && key_of(
                devs[j],
            ) == k,
    decreases n,
{
    if n > 0 {
        let prev = marked(start, devs, outs, (n - 1) as nat);
        if prev.contains(k) {
            lemma_marked_sources(start, devs, outs, (n - 1) as nat, k);
        } else {
            assert(outs[n - 1] is Some);
        }
    }
}

/// A target device whose key is already applied when a tick begins gets no
/// write in that tick.
pub proof fn lemma_applied_device_not_resent(
    applied: Set<Seq<char>>,
    devs: Seq<DeviceInfo>,
    outs: Seq<Option<ApplyOutcome>>,
    i: int,
)
    requires
        tick_outcomes(applied, devs, outs),
        0 <= i < devs.len(),
        is_target_device(devs[i]),
        applied.contains(key_of(devs[i])),
    ensures
        outs[i] is None,
{
    assert(present_keys(devs).contains(key_of(devs[i])));
    lemma_marked_grows(pruned(applied, devs), devs, outs, 0, i as nat);
    assert(outs[i] is None);
}

/// A tick run again over the same enumeration, right after a tick in which
/// every attempt counted as applied, writes to no device.
pub proof fn lemma_repeat_tick_writes_nothing(
    applied: Set<Seq<char>>,
    devs: Seq<DeviceInfo>,
    first: Seq<Option<ApplyOutcome>>,
    second: Seq<Option<ApplyOutcome>>,
)
    requires
        tick_outcomes(applied, devs, first),
        forall|i: int|
            0 <= i < first.len() && #[trigger] first[i] is Some ==> is_applied_outcome(first[i]->0),
        tick_outcomes(tick_result(applied, devs, first), devs, second),
    ensures
        forall|i: int| 0 <= i < second.len() ==> #[trigger] second[i] is None,
{
    let s = pruned(applied, devs);
    let after = tick_result(applied, devs, first);
    assert forall|i: int| 0 <= i < second.len() implies #[trigger] second[i] is None by {
        if is_target_device(devs[i]) {
            let k = key_of(devs[i]);
            assert(first[i] is Some == !marked(s, devs, first, i as nat).contains(k));
            lemma_marked_grows(s, devs, first, i as nat, (i + 1) as nat);
            assert(marked(s, devs, first, (i + 1) as nat).contains(k));
            lemma_marked_grows(s, devs, first, (i + 1) as nat, devs.len());
            lemma_applied_device_not_resent(after, devs, second, i);
        }
    }
}

/// After a tick, the applied set holds only keys of target devices of that
/// tick's enumeration: the key of a device that is gone has been dropped.
pub proof fn lemma_tick_result_present(
    applied: Set<Seq<char>>,
    devs: Seq<DeviceInfo>,
    outs: Seq<Option<ApplyOutcome>>,
)
    requires
        tick_outcomes(applied, devs, outs),
    ensures
        tick_result(applied, devs, outs).subset_of(present_keys(devs)),
{
    let s = pruned(applied, devs);
    assert forall|k: Seq<char>| #[trigger] tick_result(applied, devs, outs).contains(k) implies present_keys(
        devs,
    ).contains(k) by {
        lemma_marked_sources(s, devs, outs, devs.len(), k);
        if !s.contains(k) {
            let j = choose|j: int|
                0 <= j < devs.len() && #[trigger] outs[j] is Some && is_applied_outcome(outs[j]->0)
                    && key_of(devs[j]) == k;
            assert(is_target_device(devs[j]));
        }
    }
}

/// A target device whose key is not applied when a tick begins (new, or back
/// after it was gone) is sent the layout at its first place in the
/// enumeration; once that attempt counts as applied, no other device with
/// the same key is written in that tick.
pub proof fn lemma_new_device_sent_once(
    applied: Set<Seq<char>>,
    devs: Seq<DeviceInfo>,
    outs: Seq<Option<ApplyOutcome>>,
    i: int,
)
    requires
        tick_outcomes(applied, devs, outs),
        0 <= i < devs.len(),
        is_target_device(devs[i]),
        !applied.contains(key_of(devs[i])),
        forall|j: int|
            0 <= j < i && is_target_device(devs[j]) ==> #[trigger] key_of(devs[j]) != key_of(devs[i]),
    ensures
        outs[i] is Some,
        is_applied_outcome(outs[i]->0) ==> forall|j: int|
            i < j < devs.len() && is_target_device(devs[j]) && #[trigger] key_of(devs[j]) == key_of(
                devs[i],
            ) ==> outs[j] is None,
{
    let s = pruned(applied, devs);
    let k = key_of(devs[i]);
    if marked(s, devs, outs, i as nat).contains(k) {
        lemma_marked_sources(s, devs, outs, i as nat, k);
        let j = choose|j: int|
            0 <= j < i && #[trigger] outs[j] is Some && is_applied_outcome(outs[j]->0) && key_of(devs[j])
                == k;
        assert(is_target_device(devs[j]));
    }
    if is_applied_outcome(outs[i]->0) {
        assert forall|j: int|
            i < j < devs.len() && is_target_device(devs[j]) && #[trigger] key_of(devs[j]) == k implies outs[j] is None by {
            lemma_marked_grows(s, devs, outs, (i + 1) as nat, j as nat);
            assert(marked(s, devs, outs, (i + 1) as nat).contains(k));
        }
    }
}

} // verus!
