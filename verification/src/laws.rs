//! The hub's guarantees across whole command sequences, proved from the
//! handlers' transition relations alone: identifier uniqueness, snapshot
//! completeness, broadcast suppression, first-seen announcements, timeout
//! behaviour, and idempotent disconnects.

use vstd::prelude::*;

use crate::device::{dev_ids, has_dev, DeviceModel};
use crate::hub::{
    alive_keys, device_alive_rel, devices_status_set, disconnect_rel, dropped_entries, evicted,
    expired, has_key, kept_entries, lemma_dropped_entries_complete, lemma_dropped_entries_no_dup,
    lemma_dropped_entries_wf, lemma_kept_entries_complete, lemma_kept_entries_wf, status_differs,
    sweep_rel, EntryModel, HubModel, DEVICE_DEAD_MS,
};
use crate::json::{spec_device_entries, spec_json_device, spec_json_devices};
use crate::msgs::{
    lemma_newstatus_text_injective, spec_init_text, spec_newstatus_text,
};
use crate::status::DyscyplinerStatus;

verus! {

/// One device addition, as seen by a caller: the name it supplied and the
/// identifier the hub returned.
pub struct AddStep {
    pub name: Seq<char>,
    pub id: Seq<char>,
}

/// What one addition does to the roster: the new device is appended with the
/// returned identifier, the supplied name and status `OFFLINE`, and the
/// identifier is fresh. This is the registry part of `add_device_rel`.
pub open spec fn add_step_ok(pre: Seq<DeviceModel>, post: Seq<DeviceModel>, step: AddStep) -> bool {
    &&& !dev_ids(pre).contains(step.id)
    &&& post == pre.push(
        DeviceModel { id: step.id, name: step.name, status: DyscyplinerStatus::OFFLINE },
    )
}

/// A roster reachable from the empty registry by the given additions, in order.
pub open spec fn adds_ok(devs: Seq<DeviceModel>, steps: Seq<AddStep>) -> bool
    decreases steps.len(),
{
    if steps.len() == 0 {
        devs == Seq::<DeviceModel>::empty()
    } else {
        exists|prev: Seq<DeviceModel>|
            adds_ok(prev, steps.drop_last()) && #[trigger] add_step_ok(prev, devs, steps.last())
    }
}

/// Identifier uniqueness and roster completeness: after any sequence of
/// additions starting from an empty registry, the roster holds exactly one
/// device per addition, in the order added, under the returned identifier
/// and the supplied name, created offline — and all returned identifiers are
/// pairwise distinct.
pub proof fn lemma_add_chain_roster(devs: Seq<DeviceModel>, steps: Seq<AddStep>)
    requires
        adds_ok(devs, steps),
    ensures
        devs.len() == steps.len(),
        forall|k: int|
            0 <= k < steps.len() ==> (#[trigger] devs[k]).id == steps[k].id && devs[k].name
                == steps[k].name && devs[k].status == DyscyplinerStatus::OFFLINE,
        dev_ids(devs).no_duplicates(),
    decreases steps.len(),
{
    if steps.len() == 0 {
    } else {
        let prev = choose|prev: Seq<DeviceModel>|
            adds_ok(prev, steps.drop_last()) && #[trigger] add_step_ok(prev, devs, steps.last());
        lemma_add_chain_roster(prev, steps.drop_last());
        assert forall|k: int|
            0 <= k < steps.len() implies (#[trigger] devs[k]).id == steps[k].id && devs[k].name
            == steps[k].name && devs[k].status == DyscyplinerStatus::OFFLINE by {
            if k < steps.len() - 1 {
                assert(devs[k] == prev[k]);
                assert(steps.drop_last()[k] == steps[k]);
            }
        }
        assert(dev_ids(devs).no_duplicates()) by {
            let pre_ids = dev_ids(prev);
            let post_ids = dev_ids(devs);
            assert(post_ids =~= pre_ids.push(steps.last().id));
            assert forall|a: int, b: int|
                0 <= a < post_ids.len() && 0 <= b < post_ids.len() && a != b implies post_ids[a]
                != post_ids[b] by {
                if b == post_ids.len() - 1 && a < b {
                    assert(pre_ids.contains(pre_ids[a]));
                } else if a == post_ids.len() - 1 && b < a {
                    assert(pre_ids.contains(pre_ids[b]));
                }
            }
        }
    }
}

/// Snapshot completeness: after any sequence of additions, the observer
/// initialization payload holds exactly one JSON entry per added device, in
/// the order added, rendering the returned identifier, the supplied name and
/// the device's current status.
pub proof fn lemma_snapshot_completeness(devs: Seq<DeviceModel>, steps: Seq<AddStep>)
    requires
        adds_ok(devs, steps),
    ensures
        spec_init_text(devs) == "INIT "@ + spec_json_devices(devs),
        spec_device_entries(devs).len() == steps.len(),
        forall|k: int|
            0 <= k < steps.len() ==> #[trigger] spec_device_entries(devs)[k] == spec_json_device(
                DeviceModel { id: steps[k].id, name: steps[k].name, status: devs[k].status },
            ),
{
    lemma_add_chain_roster(devs, steps);
    assert forall|k: int|
        0 <= k < steps.len() implies #[trigger] spec_device_entries(devs)[k] == spec_json_device(
        DeviceModel { id: steps[k].id, name: steps[k].name, status: devs[k].status },
    ) by {
        assert(spec_device_entries(devs)[k] == spec_json_device(devs[k]));
        assert(devs[k] == DeviceModel {
            id: steps[k].id,
            name: steps[k].name,
            status: devs[k].status,
        });
    }
}

/// Suppression of redundant broadcasts: once a report has brought a device's
/// stored status in line with `st` and given it a liveness record, a second
/// report of the same `st` emits nothing.
pub proof fn lemma_redundant_report_suppressed(
    s0: HubModel,
    s1: HubModel,
    s2: HubModel,
    key: Seq<char>,
    st: DyscyplinerStatus,
    t1: u64,
    t2: u64,
    m1: Option<Seq<char>>,
    m2: Option<Seq<char>>,
)
    requires
        has_dev(s0.devices, key),
        device_alive_rel(s0, s1, key, st, t1, m1),
        device_alive_rel(s1, s2, key, st, t2, m2),
    ensures
        m2 is None,
{
    let w = choose|w: int| 0 <= w < s0.devices.len() && s0.devices[w].id == key;
    assert(devices_status_set(s0.devices, s1.devices, key, st));
    assert(s1.devices[w] == DeviceModel {
        id: s0.devices[w].id,
        name: s0.devices[w].name,
        status: st,
    });
    assert(has_dev(s1.devices, key));
    assert(has_key(s1.alive, key)) by {
        if has_key(s0.alive, key) {
            let j = choose|j: int| 0 <= j < s0.alive.len() && s0.alive[j].key == key;
            assert(s1.alive[j] == EntryModel { key: key, last_seen: t1 });
        } else {
            assert(s1.alive[s0.alive.len() as int].key == key);
        }
    }
    assert(!status_differs(s1.devices, key, st)) by {
        assert forall|i: int|
            0 <= i < s1.devices.len() && s1.devices[i].id == key implies (#[trigger] s1.devices[i]).status
            == st by {
            if s0.devices[i].id == key {
            } else {
                assert(s1.devices[i] == s0.devices[i]);
            }
        }
    }
}

/// First-seen-after-silence always announces: a known device with no
/// liveness record that reports `st` triggers the announcement, even if its
/// stored status was already `st`.
pub proof fn lemma_first_report_announces(
    pre: HubModel,
    post: HubModel,
    key: Seq<char>,
    st: DyscyplinerStatus,
    now: u64,
    m: Option<Seq<char>>,
)
    requires
        device_alive_rel(pre, post, key, st, now, m),
        has_dev(pre.devices, key),
        !has_key(pre.alive, key),
    ensures
        m == Some(spec_newstatus_text(key, st)),
{
}

/// Timeout correctness, early half: a sweep within the grace period of a
/// record keeps the record, leaves the device's status alone, and emits no
/// offline announcement for it.
pub proof fn lemma_timeout_never_early(
    pre: HubModel,
    post: HubModel,
    now: u64,
    texts: Seq<Seq<char>>,
    j: int,
)
    requires
        pre.wf(),
        sweep_rel(pre, post, now, texts),
        0 <= j < pre.alive.len(),
        now - pre.alive[j].last_seen <= DEVICE_DEAD_MS,
    ensures
        has_key(post.alive, pre.alive[j].key),
        forall|i: int|
            0 <= i < pre.devices.len() && (#[trigger] pre.devices[i]).id == pre.alive[j].key
                ==> post.devices[i] == pre.devices[i],
        forall|q: int|
            0 <= q < texts.len() ==> texts[q] != spec_newstatus_text(
                pre.alive[j].key,
                DyscyplinerStatus::OFFLINE,
            ),
{
    let key = pre.alive[j].key;
    lemma_kept_entries_complete(pre.alive, now, j);
    let w = choose|w: int|
        0 <= w < kept_entries(pre.alive, now).len() && kept_entries(pre.alive, now)[w]
            == pre.alive[j];
    assert(post.alive[w].key == key);
    assert forall|i: int|
        0 <= i < pre.devices.len() && (#[trigger] pre.devices[i]).id == key implies post.devices[i]
        == pre.devices[i] by {
        if evicted(pre.alive, pre.devices[i].id, now) {
            let we = choose|we: int|
                0 <= we < pre.alive.len() && pre.alive[we].key == pre.devices[i].id && expired(
                    pre.alive[we],
                    now,
                );
            assert(alive_keys(pre.alive)[we] == pre.alive[we].key);
            assert(alive_keys(pre.alive)[j] == key);
            assert(we == j);
        }
    }
    lemma_dropped_entries_wf(pre.alive, now);
    assert forall|q: int| 0 <= q < texts.len() implies texts[q] != spec_newstatus_text(
        key,
        DyscyplinerStatus::OFFLINE,
    ) by {
        let e = dropped_entries(pre.alive, now)[q];
        assert(texts[q] == spec_newstatus_text(e.key, DyscyplinerStatus::OFFLINE));
        if texts[q] == spec_newstatus_text(key, DyscyplinerStatus::OFFLINE) {
            lemma_newstatus_text_injective(e.key, key, DyscyplinerStatus::OFFLINE);
            let we = choose|we: int| 0 <= we < pre.alive.len() && pre.alive[we] == e;
            assert(alive_keys(pre.alive)[we] == pre.alive[we].key);
            assert(alive_keys(pre.alive)[j] == key);
            assert(we == j);
        }
    }
}

/// Timeout correctness, late half: a sweep past the grace period of a record
/// evicts it, forces the device offline, and emits the offline announcement
/// for it exactly once.
pub proof fn lemma_timeout_fires(
    pre: HubModel,
    post: HubModel,
    now: u64,
    texts: Seq<Seq<char>>,
    j: int,
)
    requires
        pre.wf(),
        sweep_rel(pre, post, now, texts),
        0 <= j < pre.alive.len(),
        now - pre.alive[j].last_seen > DEVICE_DEAD_MS,
    ensures
        !has_key(post.alive, pre.alive[j].key),
        forall|i: int|
            0 <= i < pre.devices.len() && (#[trigger] pre.devices[i]).id == pre.alive[j].key
                ==> post.devices[i] == (DeviceModel {
                id: pre.devices[i].id,
                name: pre.devices[i].name,
                status: DyscyplinerStatus::OFFLINE,
            }),
        (exists|q: int|
            0 <= q < texts.len() && texts[q] == spec_newstatus_text(
                pre.alive[j].key,
                DyscyplinerStatus::OFFLINE,
            )),
        forall|q1: int, q2: int|
            0 <= q1 < texts.len() && 0 <= q2 < texts.len() && q1 != q2 ==> !(#[trigger] texts[q1]
                == spec_newstatus_text(pre.alive[j].key, DyscyplinerStatus::OFFLINE)
                && #[trigger] texts[q2] == spec_newstatus_text(
                pre.alive[j].key,
                DyscyplinerStatus::OFFLINE,
            )),
{
    let key = pre.alive[j].key;
    assert forall|i: int|
        0 <= i < pre.devices.len() && (#[trigger] pre.devices[i]).id == key implies post.devices[i]
        == (DeviceModel {
        id: pre.devices[i].id,
        name: pre.devices[i].name,
        status: DyscyplinerStatus::OFFLINE,
    }) by {
        assert(evicted(pre.alive, pre.devices[i].id, now));
    }
    lemma_kept_entries_wf(pre.alive, now);
    assert(!has_key(post.alive, key)) by {
        if has_key(post.alive, key) {
            let w = choose|w: int| 0 <= w < post.alive.len() && post.alive[w].key == key;
            let wk = choose|wk: int| 0 <= wk < pre.alive.len() && pre.alive[wk] == post.alive[w];
            assert(alive_keys(pre.alive)[wk] == pre.alive[wk].key);
            assert(alive_keys(pre.alive)[j] == key);
            assert(wk == j);
        }
    }
    lemma_dropped_entries_complete(pre.alive, now, j);
    let q0 = choose|q0: int|
        0 <= q0 < dropped_entries(pre.alive, now).len() && dropped_entries(pre.alive, now)[q0]
            == pre.alive[j];
    assert(texts[q0] == spec_newstatus_text(key, DyscyplinerStatus::OFFLINE));
    lemma_dropped_entries_wf(pre.alive, now);
    assert forall|q1: int, q2: int|
        0 <= q1 < texts.len() && 0 <= q2 < texts.len() && q1 != q2 implies !(#[trigger] texts[q1]
        == spec_newstatus_text(key, DyscyplinerStatus::OFFLINE) && #[trigger] texts[q2]
        == spec_newstatus_text(key, DyscyplinerStatus::OFFLINE)) by {
        if texts[q1] == spec_newstatus_text(key, DyscyplinerStatus::OFFLINE) && texts[q2]
            == spec_newstatus_text(key, DyscyplinerStatus::OFFLINE) {
            let e1 = dropped_entries(pre.alive, now)[q1];
            let e2 = dropped_entries(pre.alive, now)[q2];
            assert(texts[q1] == spec_newstatus_text(e1.key, DyscyplinerStatus::OFFLINE));
            assert(texts[q2] == spec_newstatus_text(e2.key, DyscyplinerStatus::OFFLINE));
            lemma_newstatus_text_injective(e1.key, key, DyscyplinerStatus::OFFLINE);
            lemma_newstatus_text_injective(e2.key, key, DyscyplinerStatus::OFFLINE);
            let w1 = choose|w: int| 0 <= w < pre.alive.len() && pre.alive[w] == e1;
            let w2 = choose|w: int| 0 <= w < pre.alive.len() && pre.alive[w] == e2;
            assert(alive_keys(pre.alive)[w1] == pre.alive[w1].key);
            assert(alive_keys(pre.alive)[w2] == pre.alive[w2].key);
            assert(w1 == w2);
            assert(e1 == e2);
            lemma_dropped_entries_no_dup(pre.alive, now, q1, q2);
        }
    }
}

/// Idempotent disconnect: deregistering a token that is not registered
/// changes nothing.
pub proof fn lemma_disconnect_unknown_noop(s0: HubModel, s1: HubModel, token: usize)
    requires
        !s0.sessions.contains(token),
        disconnect_rel(s0, s1, token),
    ensures
        s1 == s0,
{
    s0.sessions.index_of_first_ensures(token);
}

/// Idempotent disconnect: deregistering the same token a second time changes
/// nothing.
pub proof fn lemma_disconnect_idempotent(
    s0: HubModel,
    s1: HubModel,
    s2: HubModel,
    token: usize,
)
    requires
        s0.wf(),
        disconnect_rel(s0, s1, token),
        disconnect_rel(s1, s2, token),
    ensures
        s2 == s1,
{
    s0.sessions.index_of_first_ensures(token);
    if s0.sessions.contains(token) {
        let fi = s0.sessions.index_of_first(token).unwrap();
        assert(s1.sessions == s0.sessions.remove(fi));
        assert(!s1.sessions.contains(token)) by {
            if s1.sessions.contains(token) {
                let m = choose|m: int| 0 <= m < s1.sessions.len() && s1.sessions[m] == token;
                assert(s1.sessions[m] == if m < fi {
                    s0.sessions[m]
                } else {
                    s0.sessions[m + 1]
                });
            }
        }
        lemma_disconnect_unknown_noop(s1, s2, token);
    } else {
        lemma_disconnect_unknown_noop(s0, s1, token);
        lemma_disconnect_unknown_noop(s1, s2, token);
    }
}

} // verus!
