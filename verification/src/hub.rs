//! The hub: the single writer of all shared state. It processes one command
//! at a time — register or deregister an observer, add a device, accept a
//! liveness report, run the timeout sweep — mutates the registry, the
//! liveness tracker and the observer set, and returns the broadcast lines
//! the caller must fan out to every connected observer.
//!
//! Each handler's contract is a transition relation between the hub model
//! before and after the call; the laws about whole command sequences are
//! proved from these relations alone.

use vstd::prelude::*;

use crate::device::{dev_ids, has_dev, models, DeviceModel, Dyscypliner};
use crate::ident::{fresh_device_id, is_alnum_char};
use crate::msgs::{
    init_text, msgs_texts, newdev_text, newstatus_text, spec_init_text, spec_newdev_text,
    spec_newstatus_text, AddDevice, Connect, ConnectResult, DeviceAlive, Disconnect, Message,
};
use crate::status::DyscyplinerStatus;

verus! {

/// How often the timeout sweep is meant to run, in milliseconds.
pub const DEVICE_REFRESH_STATUS_MS: u64 = 10000;

/// How long a device may stay silent before the sweep declares it dead,
/// in milliseconds.
pub const DEVICE_DEAD_MS: u64 = 15000;

/// The sweep runs strictly more often than the grace period lasts, so a
/// silent device is caught by the first sweep after its grace period ends.
pub proof fn lemma_sweep_within_grace()
    ensures
        DEVICE_REFRESH_STATUS_MS < DEVICE_DEAD_MS,
{
}

/// One liveness record: a device identifier and the time of its most recent
/// accepted report. An entry exists only for devices that have reported
/// since startup or since their last timeout eviction.
pub struct LivenessEntry {
    pub key: String,
    pub last_seen: u64,
}

/// The model of a liveness record.
pub struct EntryModel {
    pub key: Seq<char>,
    pub last_seen: u64,
}

impl View for LivenessEntry {
    type V = EntryModel;

    open spec fn view(&self) -> EntryModel {
        EntryModel { key: self.key@, last_seen: self.last_seen }
    }
}

/// The models of the liveness records, in insertion order.
pub open spec fn entry_models(es: Seq<LivenessEntry>) -> Seq<EntryModel> {
    es.map(|i: int, e: LivenessEntry| e@)
}

/// The keys of the liveness records, in insertion order.
pub open spec fn alive_keys(alive: Seq<EntryModel>) -> Seq<Seq<char>> {
    alive.map(|i: int, e: EntryModel| e.key)
}

/// Whether a liveness record for `key` exists.
pub open spec fn has_key(alive: Seq<EntryModel>, key: Seq<char>) -> bool {
    exists|j: int| 0 <= j < alive.len() && alive[j].key == key
}

/// Whether a liveness record is older than the grace period at time `now`.
pub open spec fn expired(e: EntryModel, now: u64) -> bool {
    now - e.last_seen > DEVICE_DEAD_MS
}

/// Whether some liveness record for `key` has expired at time `now`.
pub open spec fn evicted(alive: Seq<EntryModel>, key: Seq<char>, now: u64) -> bool {
    exists|j: int| 0 <= j < alive.len() && alive[j].key == key && expired(alive[j], now)
}

/// The liveness records the sweep keeps at time `now`, in order.
pub open spec fn kept_entries(alive: Seq<EntryModel>, now: u64) -> Seq<EntryModel> {
    alive.filter(|e: EntryModel| !expired(e, now))
}

/// The liveness records the sweep evicts at time `now`, in order.
pub open spec fn dropped_entries(alive: Seq<EntryModel>, now: u64) -> Seq<EntryModel> {
    alive.filter(|e: EntryModel| expired(e, now))
}

/// The announcements the sweep sends at time `now`, one per evicted record,
/// in order.
pub open spec fn eviction_texts(alive: Seq<EntryModel>, now: u64) -> Seq<Seq<char>> {
    dropped_entries(alive, now).map(
        |j: int, e: EntryModel| spec_newstatus_text(e.key, DyscyplinerStatus::OFFLINE),
    )
}

/// One sweep step: extending the scanned prefix by one record extends
/// exactly one of the kept and the dropped records by that record.
proof fn lemma_sweep_step(alive: Seq<EntryModel>, idx: int, now: u64)
    requires
        0 <= idx < alive.len(),
    ensures
        kept_entries(alive.take(idx + 1), now) == if !expired(alive[idx], now) {
            kept_entries(alive.take(idx), now).push(alive[idx])
        } else {
            kept_entries(alive.take(idx), now)
        },
        dropped_entries(alive.take(idx + 1), now) == if expired(alive[idx], now) {
            dropped_entries(alive.take(idx), now).push(alive[idx])
        } else {
            dropped_entries(alive.take(idx), now)
        },
{
    reveal_with_fuel(Seq::<_>::filter, 1);
    let t = alive.take(idx + 1);
    assert(t.drop_last() =~= alive.take(idx));
    assert(t.last() == alive[idx]);
}

/// The empty prefix keeps and drops nothing.
proof fn lemma_sweep_empty(alive: Seq<EntryModel>, now: u64)
    ensures
        kept_entries(alive.take(0), now) == Seq::<EntryModel>::empty(),
        dropped_entries(alive.take(0), now) == Seq::<EntryModel>::empty(),
{
    reveal_with_fuel(Seq::<_>::filter, 1);
    assert(alive.take(0) =~= Seq::<EntryModel>::empty());
    assert(kept_entries(alive.take(0), now) =~= Seq::<EntryModel>::empty());
    assert(dropped_entries(alive.take(0), now) =~= Seq::<EntryModel>::empty());
}

/// The full model of the hub's state.
pub struct HubModel {
    pub sessions: Seq<usize>,
    pub next_session: usize,
    pub devices: Seq<DeviceModel>,
    pub alive: Seq<EntryModel>,
}

impl HubModel {
    /// The hub's invariant: device identifiers are unique, observer tokens
    /// are unique and below the token counter, liveness keys are unique and
    /// every one of them belongs to a registered device.
    pub open spec fn wf(self) -> bool {
        &&& dev_ids(self.devices).no_duplicates()
        &&& alive_keys(self.alive).no_duplicates()
        &&& forall|j: int|
            0 <= j < self.alive.len() ==> has_dev(self.devices, (#[trigger] self.alive[j]).key)
        &&& self.sessions.no_duplicates()
        &&& forall|i: int|
            0 <= i < self.sessions.len() ==> #[trigger] self.sessions[i] < self.next_session
    }
}

/// The hub's state: the connected observer tokens, the token counter, the
/// device registry in creation order, and the liveness tracker.
pub struct DyscyplinerServer {
    pub sessions: Vec<usize>,
    pub next_session: usize,
    pub devices: Vec<Dyscypliner>,
    pub alive_devices: Vec<LivenessEntry>,
}

impl View for DyscyplinerServer {
    type V = HubModel;

    open spec fn view(&self) -> HubModel {
        HubModel {
            sessions: self.sessions@,
            next_session: self.next_session,
            devices: models(self.devices@),
            alive: entry_models(self.alive_devices@),
        }
    }
}

/// The broadcast text of a handler's reply, if it emitted one.
pub open spec fn emitted_text(r: Option<Message>) -> Option<Seq<char>> {
    match r {
        Some(m) => Some(m.message@),
        None => None,
    }
}

/// What `AddDevice` does: one fresh device is appended to the registry with
/// status `OFFLINE`, nothing else changes, and the new-device announcement
/// is emitted.
pub open spec fn add_device_rel(
    pre: HubModel,
    post: HubModel,
    name: Seq<char>,
    id: Seq<char>,
    text: Seq<char>,
) -> bool {
    &&& !dev_ids(pre.devices).contains(id)
    &&& id.len() >= 16
    &&& forall|i: int| 0 <= i < id.len() ==> is_alnum_char(#[trigger] id[i])
    &&& post.devices == pre.devices.push(
        DeviceModel { id: id, name: name, status: DyscyplinerStatus::OFFLINE },
    )
    &&& post.alive == pre.alive
    &&& post.sessions == pre.sessions
    &&& post.next_session == pre.next_session
    &&& text == spec_newdev_text(id, name)
}

/// What `Connect` does: a fresh token is registered, nothing else changes,
/// and the initialization payload carries the full snapshot taken before the
/// call (a point-to-point reply, not a broadcast).
pub open spec fn connect_rel(pre: HubModel, post: HubModel, token: usize, init: Seq<char>) -> bool {
    &&& !pre.sessions.contains(token)
    &&& token == pre.next_session
    &&& post.sessions == pre.sessions.push(token)
    &&& post.next_session == pre.next_session + 1
    &&& post.devices == pre.devices
    &&& post.alive == pre.alive
    &&& init == spec_init_text(pre.devices)
}

/// What `Disconnect` does: the token's registration is removed if present,
/// and nothing else changes. Unknown tokens are a no-op.
pub open spec fn disconnect_rel(pre: HubModel, post: HubModel, token: usize) -> bool {
    &&& post.sessions == pre.sessions.remove_value(token)
    &&& post.next_session == pre.next_session
    &&& post.devices == pre.devices
    &&& post.alive == pre.alive
}

/// The liveness records after a refresh of `key` at time `now`: the matching
/// record's timestamp is `now`, every other record is untouched.
pub open spec fn alive_refreshed(
    pre: Seq<EntryModel>,
    post: Seq<EntryModel>,
    key: Seq<char>,
    now: u64,
) -> bool {
    &&& post.len() == pre.len()
    &&& forall|j: int| 0 <= j < pre.len() && (#[trigger] pre[j]).key != key ==> post[j] == pre[j]
    &&& forall|j: int|
        0 <= j < pre.len() && (#[trigger] pre[j]).key == key ==> post[j] == EntryModel {
            key: key,
            last_seen: now,
        }
}

/// The registry after the device carrying `key` is set to status `st`: that
/// device's status is `st`, its identifier and name are untouched, every
/// other device is untouched.
pub open spec fn devices_status_set(
    pre: Seq<DeviceModel>,
    post: Seq<DeviceModel>,
    key: Seq<char>,
    st: DyscyplinerStatus,
) -> bool {
    &&& post.len() == pre.len()
    &&& forall|i: int| 0 <= i < pre.len() && (#[trigger] pre[i]).id != key ==> post[i] == pre[i]
    &&& forall|i: int|
        0 <= i < pre.len() && (#[trigger] pre[i]).id == key ==> post[i] == DeviceModel {
            id: pre[i].id,
            name: pre[i].name,
            status: st,
        }
}

/// Whether the device carrying `key` currently holds a status other than `st`.
pub open spec fn status_differs(
    devs: Seq<DeviceModel>,
    key: Seq<char>,
    st: DyscyplinerStatus,
) -> bool {
    exists|i: int| 0 <= i < devs.len() && devs[i].id == key && devs[i].status != st
}

/// What `DeviceAlive` does. An unknown key is a silent no-op. A key with a
/// liveness record has its timestamp refreshed and its status applied; the
/// announcement goes out only if the status actually changed. A key without
/// a record is first-seen: its status is force-set, a record is created, and
/// the announcement always goes out, even if the stored status was already
/// equal, because the silent-to-alive transition itself must be announced.
pub open spec fn device_alive_rel(
    pre: HubModel,
    post: HubModel,
    key: Seq<char>,
    st: DyscyplinerStatus,
    now: u64,
    emitted: Option<Seq<char>>,
) -> bool {
    &&& post.sessions == pre.sessions
    &&& post.next_session == pre.next_session
    &&& if !has_dev(pre.devices, key) {
        &&& post.devices == pre.devices
        &&& post.alive == pre.alive
        &&& emitted is None
    } else if has_key(pre.alive, key) {
        &&& alive_refreshed(pre.alive, post.alive, key, now)
        &&& devices_status_set(pre.devices, post.devices, key, st)
        &&& emitted == if status_differs(pre.devices, key, st) {
            Some(spec_newstatus_text(key, st))
        } else {
            None::<Seq<char>>
        }
    } else {
        &&& post.alive == pre.alive.push(EntryModel { key: key, last_seen: now })
        &&& devices_status_set(pre.devices, post.devices, key, st)
        &&& emitted == Some(spec_newstatus_text(key, st))
    }
}

/// What the timeout sweep does: every expired liveness record is removed
/// (the rest are kept in order), every device whose record expired is forced
/// `OFFLINE`, and one announcement per evicted device goes out.
pub open spec fn sweep_rel(pre: HubModel, post: HubModel, now: u64, texts: Seq<Seq<char>>) -> bool {
    &&& post.sessions == pre.sessions
    &&& post.next_session == pre.next_session
    &&& post.alive == kept_entries(pre.alive, now)
    &&& post.devices.len() == pre.devices.len()
    &&& forall|i: int|
        0 <= i < pre.devices.len() ==> #[trigger] post.devices[i] == (if evicted(
            pre.alive,
            pre.devices[i].id,
            now,
        ) {
            DeviceModel {
                id: pre.devices[i].id,
                name: pre.devices[i].name,
                status: DyscyplinerStatus::OFFLINE,
            }
        } else {
            pre.devices[i]
        })
    &&& texts == eviction_texts(pre.alive, now)
}

/// Index of the device carrying `key`, if any.
fn find_device_index(devices: &Vec<Dyscypliner>, key: &String) -> (r: Option<usize>)
    ensures
        match r {
            Some(i) => i < devices@.len() && models(devices@)[i as int].id == key@,
            None => !has_dev(models(devices@), key@),
        },
{
    let mut j: usize = 0;
    while j < devices.len()
        invariant
            j <= devices.len(),
            forall|m: int| 0 <= m < j ==> models(devices@)[m].id != key@,
        decreases devices.len() - j,
    {
        if devices[j].id == *key {
            return Some(j);
        }
        j = j + 1;
    }
    None
}

/// Index of the liveness record for `key`, if any.
fn find_alive_index(alive: &Vec<LivenessEntry>, key: &String) -> (r: Option<usize>)
    ensures
        match r {
            Some(j) => j < alive@.len() && entry_models(alive@)[j as int].key == key@,
            None => !has_key(entry_models(alive@), key@),
        },
{
    let mut j: usize = 0;
    while j < alive.len()
        invariant
            j <= alive.len(),
            forall|m: int| 0 <= m < j ==> entry_models(alive@)[m].key != key@,
        decreases alive.len() - j,
    {
        if alive[j].key == *key {
            return Some(j);
        }
        j = j + 1;
    }
    None
}

/// Index of the first registration of `token`, if any.
fn find_session_index(sessions: &Vec<usize>, token: usize) -> (r: Option<usize>)
    ensures
        match r {
            Some(i) => i < sessions@.len() && sessions@[i as int] == token && (forall|m: int|
                0 <= m < i ==> sessions@[m] != token),
            None => !sessions@.contains(token),
        },
{
    let mut j: usize = 0;
    while j < sessions.len()
        invariant
            j <= sessions.len(),
            forall|m: int| 0 <= m < j ==> sessions@[m] != token,
        decreases sessions.len() - j,
    {
        if sessions[j] == token {
            return Some(j);
        }
        j = j + 1;
    }
    None
}

/// Overwrites the status of the device at index `i`, keeping id and name.
fn set_device_status(devices: &mut Vec<Dyscypliner>, i: usize, st: DyscyplinerStatus)
    requires
        i < old(devices)@.len(),
    ensures
        models(final(devices)@) == models(old(devices)@).update(
            i as int,
            DeviceModel {
                id: models(old(devices)@)[i as int].id,
                name: models(old(devices)@)[i as int].name,
                status: st,
            },
        ),
{
    let d = Dyscypliner { id: devices[i].id.clone(), name: devices[i].name.clone(), status: st };
    devices.set(i, d);
    proof {
        assert(models(devices@) =~= models(old(devices)@).update(
            i as int,
            DeviceModel {
                id: models(old(devices)@)[i as int].id,
                name: models(old(devices)@)[i as int].name,
                status: st,
            },
        ));
    }
}

impl DyscyplinerServer {
    /// A hub with no devices, no liveness records and no observers.
    pub fn new() -> (s: Self)
        ensures
            s@.wf(),
            s@.devices == Seq::<DeviceModel>::empty(),
            s@.alive == Seq::<EntryModel>::empty(),
            s@.sessions == Seq::<usize>::empty(),
            s@.next_session == 0,
    {
        let s = DyscyplinerServer {
            sessions: Vec::new(),
            next_session: 0,
            devices: Vec::new(),
            alive_devices: Vec::new(),
        };
        proof {
            assert(s@.devices =~= Seq::<DeviceModel>::empty());
            assert(s@.alive =~= Seq::<EntryModel>::empty());
        }
        s
    }

    /// Registers a new observer and hands it the full device snapshot.
    pub fn handle_connect(&mut self, _msg: Connect) -> (r: ConnectResult)
        requires
            old(self)@.wf(),
            old(self).next_session < usize::MAX,
        ensures
            final(self)@.wf(),
            connect_rel(old(self)@, final(self)@, r.id, r.init_data@),
    {
        let init = init_text(&self.devices);
        let token = self.next_session;
        self.next_session = self.next_session + 1;
        self.sessions.push(token);
        proof {
            if old(self)@.sessions.contains(token) {
                let i = choose|i: int|
                    0 <= i < old(self)@.sessions.len() && old(self)@.sessions[i] == token;
                assert(old(self)@.sessions[i] < token);
            }
            assert(self@.sessions.no_duplicates()) by {
                let pre_s = old(self)@.sessions;
                let post_s = self@.sessions;
                assert forall|a: int, b: int|
                    0 <= a < post_s.len() && 0 <= b < post_s.len() && a != b implies post_s[a]
                    != post_s[b] by {
                    if b == post_s.len() - 1 && a < b {
                        assert(pre_s[a] < token);
                    } else if a == post_s.len() - 1 && b < a {
                        assert(pre_s[b] < token);
                    }
                }
            }
        }
        ConnectResult { id: token, init_data: init }
    }

    /// Deregisters an observer; unknown or stale tokens are a no-op.
    pub fn handle_disconnect(&mut self, msg: Disconnect)
        requires
            old(self)@.wf(),
        ensures
            final(self)@.wf(),
            disconnect_rel(old(self)@, final(self)@, msg.id),
    {
        let ghost pre = self@.sessions;
        match find_session_index(&self.sessions, msg.id) {
            Some(i) => {
                self.sessions.remove(i);
                proof {
                    pre.index_of_first_ensures(msg.id);
                    let fi = pre.index_of_first(msg.id).unwrap();
                    assert(fi == i);
                    assert(self@.sessions == pre.remove(i as int));
                    assert(self@.sessions.no_duplicates()) by {
                        let post_s = self@.sessions;
                        assert forall|a: int, b: int|
                            0 <= a < post_s.len() && 0 <= b < post_s.len() && a != b implies post_s[a]
                            != post_s[b] by {
                            assert(post_s[a] == if a < i { pre[a] } else { pre[a + 1] });
                            assert(post_s[b] == if b < i { pre[b] } else { pre[b + 1] });
                        }
                    }
                    assert forall|m: int|
                        0 <= m < self@.sessions.len() implies #[trigger] self@.sessions[m]
                        < self@.next_session by {
                        assert(self@.sessions[m] == if m < i { pre[m] } else { pre[m + 1] });
                    }
                }
            },
            None => {
                proof {
                    pre.index_of_first_ensures(msg.id);
                }
            },
        }
    }

    /// Creates a device under a fresh identifier with initial status
    /// `OFFLINE`, and returns the identifier together with the new-device
    /// announcement for all observers.
    pub fn handle_add_device(&mut self, msg: AddDevice) -> (r: (String, Message))
        requires
            old(self)@.wf(),
        ensures
            final(self)@.wf(),
            add_device_rel(old(self)@, final(self)@, msg.name@, r.0@, r.1.message@),
    {
        let id = fresh_device_id(&self.devices);
        let dev = Dyscypliner {
            id: id.clone(),
            name: msg.name.clone(),
            status: DyscyplinerStatus::OFFLINE,
        };
        self.devices.push(dev);
        let text = newdev_text(id.as_str(), msg.name.as_str());
        proof {
            assert(models(self.devices@) =~= models(old(self).devices@).push(
                DeviceModel { id: id@, name: msg.name@, status: DyscyplinerStatus::OFFLINE },
            ));
            assert(dev_ids(models(self.devices@)).no_duplicates()) by {
                let pre_ids = dev_ids(models(old(self).devices@));
                let post_ids = dev_ids(models(self.devices@));
                assert(post_ids =~= pre_ids.push(id@));
                assert forall|a: int, b: int|
                    0 <= a < post_ids.len() && 0 <= b < post_ids.len() && a != b implies post_ids[a]
                    != post_ids[b] by {
                    if b == post_ids.len() - 1 && a < b {
                        assert(pre_ids[a] == post_ids[a]);
                        assert(pre_ids.contains(pre_ids[a]));
                    } else if a == post_ids.len() - 1 && b < a {
                        assert(pre_ids[b] == post_ids[b]);
                        assert(pre_ids.contains(pre_ids[b]));
                    }
                }
            }
            assert forall|j: int| 0 <= j < self@.alive.len() implies has_dev(
                self@.devices,
                (#[trigger] self@.alive[j]).key,
            ) by {
                assert(has_dev(old(self)@.devices, old(self)@.alive[j].key));
                let w = choose|w: int|
                    0 <= w < old(self)@.devices.len() && old(self)@.devices[w].id
                        == old(self)@.alive[j].key;
                assert(self@.devices[w] == old(self)@.devices[w]);
            }
        }
        (id, Message { message: text })
    }

    /// Accepts a device's liveness report at time `now`. The transport layer
    /// has already rejected any explicit offline report.
    pub fn handle_device_alive(&mut self, msg: DeviceAlive, now: u64) -> (r: Option<Message>)
        requires
            old(self)@.wf(),
            msg.status != DyscyplinerStatus::OFFLINE,
        ensures
            final(self)@.wf(),
            device_alive_rel(old(self)@, final(self)@, msg.key@, msg.status, now, emitted_text(r)),
    {
        let ghost pre = self@;
        match find_alive_index(&self.alive_devices, &msg.key) {
            Some(j) => {
                let refreshed = LivenessEntry {
                    key: self.alive_devices[j].key.clone(),
                    last_seen: now,
                };
                self.alive_devices.set(j, refreshed);
                proof {
                    assert(entry_models(self.alive_devices@) =~= pre.alive.update(
                        j as int,
                        EntryModel { key: msg.key@, last_seen: now },
                    ));
                    assert(alive_refreshed(pre.alive, self@.alive, msg.key@, now)) by {
                        assert forall|j2: int|
                            0 <= j2 < pre.alive.len() && (#[trigger] pre.alive[j2]).key
                                == msg.key@ implies self@.alive[j2] == EntryModel {
                            key: msg.key@,
                            last_seen: now,
                        } by {
                            if j2 != j {
                                assert(alive_keys(pre.alive)[j2] == alive_keys(pre.alive)[j as int]);
                            }
                        }
                    }
                    assert(alive_keys(self@.alive) =~= alive_keys(pre.alive));
                }
                match find_device_index(&self.devices, &msg.key) {
                    Some(i) => {
                        let changed = self.devices[i].status != msg.status;
                        if changed {
                            set_device_status(&mut self.devices, i, msg.status);
                        }
                        proof {
                            assert(devices_status_set(
                                pre.devices,
                                self@.devices,
                                msg.key@,
                                msg.status,
                            )) by {
                                assert forall|i2: int|
                                    0 <= i2 < pre.devices.len() && (#[trigger] pre.devices[i2]).id
                                        == msg.key@ implies self@.devices[i2] == DeviceModel {
                                    id: pre.devices[i2].id,
                                    name: pre.devices[i2].name,
                                    status: msg.status,
                                } by {
                                    if i2 != i {
                                        assert(dev_ids(pre.devices)[i2] == dev_ids(pre.devices)[i as int]);
                                    }
                                }
                            }
                            if !changed {
                                assert(!status_differs(pre.devices, msg.key@, msg.status)) by {
                                    assert forall|i2: int|
                                        0 <= i2 < pre.devices.len() && pre.devices[i2].id
                                            == msg.key@ implies (#[trigger] pre.devices[i2]).status
                                        == msg.status by {
                                        if i2 != i {
                                            assert(dev_ids(pre.devices)[i2] == dev_ids(
                                                pre.devices,
                                            )[i as int]);
                                        }
                                    }
                                }
                            }
                            assert(dev_ids(self@.devices) =~= dev_ids(pre.devices));
                            assert forall|j2: int| 0 <= j2 < self@.alive.len() implies has_dev(
                                self@.devices,
                                (#[trigger] self@.alive[j2]).key,
                            ) by {
                                assert(alive_keys(self@.alive)[j2] == alive_keys(pre.alive)[j2]);
                                assert(has_dev(pre.devices, pre.alive[j2].key));
                                let w = choose|w: int|
                                    0 <= w < pre.devices.len() && pre.devices[w].id
                                        == pre.alive[j2].key;
                                assert(dev_ids(self@.devices)[w] == dev_ids(pre.devices)[w]);
                                assert(self@.devices[w].id == pre.alive[j2].key);
                            }
                        }
                        if changed {
                            Some(
                                Message {
                                    message: newstatus_text(msg.key.as_str(), msg.status),
                                },
                            )
                        } else {
                            None
                        }
                    },
                    None => {
                        proof {
                            assert(has_dev(pre.devices, (pre.alive[j as int]).key));
                            assert(false);
                        }
                        None
                    },
                }
            },
            None => {
                match find_device_index(&self.devices, &msg.key) {
                    Some(i) => {
                        set_device_status(&mut self.devices, i, msg.status);
                        self.alive_devices.push(
                            LivenessEntry { key: msg.key.clone(), last_seen: now },
                        );
                        proof {
                            assert(entry_models(self.alive_devices@) =~= pre.alive.push(
                                EntryModel { key: msg.key@, last_seen: now },
                            ));
                            assert(devices_status_set(
                                pre.devices,
                                self@.devices,
                                msg.key@,
                                msg.status,
                            )) by {
                                assert forall|i2: int|
                                    0 <= i2 < pre.devices.len() && (#[trigger] pre.devices[i2]).id
                                        == msg.key@ implies self@.devices[i2] == DeviceModel {
                                    id: pre.devices[i2].id,
                                    name: pre.devices[i2].name,
                                    status: msg.status,
                                } by {
                                    if i2 != i {
                                        assert(dev_ids(pre.devices)[i2] == dev_ids(pre.devices)[i as int]);
                                    }
                                }
                            }
                            assert(dev_ids(self@.devices) =~= dev_ids(pre.devices));
                            assert(alive_keys(self@.alive) =~= alive_keys(pre.alive).push(msg.key@));
                            assert(alive_keys(self@.alive).no_duplicates()) by {
                                let post_keys = alive_keys(self@.alive);
                                let pre_keys = alive_keys(pre.alive);
                                assert forall|a: int, b: int|
                                    0 <= a < post_keys.len() && 0 <= b < post_keys.len() && a != b
                                    implies post_keys[a] != post_keys[b] by {
                                    if b == post_keys.len() - 1 && a < b {
                                        assert(pre_keys[a] == pre.alive[a].key);
                                        if pre_keys[a] == msg.key@ {
                                            assert(has_key(pre.alive, msg.key@));
                                        }
                                    } else if a == post_keys.len() - 1 && b < a {
                                        assert(pre_keys[b] == pre.alive[b].key);
                                        if pre_keys[b] == msg.key@ {
                                            assert(has_key(pre.alive, msg.key@));
                                        }
                                    }
                                }
                            }
                            assert forall|j2: int| 0 <= j2 < self@.alive.len() implies has_dev(
                                self@.devices,
                                (#[trigger] self@.alive[j2]).key,
                            ) by {
                                if j2 < pre.alive.len() {
                                    assert(self@.alive[j2] == pre.alive[j2]);
                                    assert(has_dev(pre.devices, pre.alive[j2].key));
                                    let w = choose|w: int|
                                        0 <= w < pre.devices.len() && pre.devices[w].id
                                            == pre.alive[j2].key;
                                    assert(dev_ids(self@.devices)[w] == dev_ids(pre.devices)[w]);
                                    assert(self@.devices[w].id == pre.alive[j2].key);
                                } else {
                                    assert(self@.alive[j2].key == msg.key@);
                                    assert(dev_ids(self@.devices)[i as int] == dev_ids(pre.devices)[i as int]);
                                    assert(self@.devices[i as int].id == msg.key@);
                                }
                            }
                        }
                        Some(Message { message: newstatus_text(msg.key.as_str(), msg.status) })
                    },
                    None => None,
                }
            },
        }
    }

    /// Runs the timeout sweep at time `now`: evicts every liveness record
    /// older than the grace period, forces those devices `OFFLINE`, and
    /// returns one announcement per evicted device.
    pub fn sweep(&mut self, now: u64) -> (msgs: Vec<Message>)
        requires
            old(self)@.wf(),
        ensures
            final(self)@.wf(),
            sweep_rel(old(self)@, final(self)@, now, msgs_texts(msgs@)),
    {
        let ghost pre = self@;
        let n = self.alive_devices.len();
        let mut kept: Vec<LivenessEntry> = Vec::new();
        let mut out: Vec<Message> = Vec::new();
        let mut idx: usize = 0;
        proof {
            lemma_sweep_empty(pre.alive, now);
            assert(entry_models(kept@) =~= Seq::<EntryModel>::empty());
            assert(eviction_texts(pre.alive.take(0), now) =~= Seq::<Seq<char>>::empty());
        }
        while idx < n
            invariant
                idx <= n,
                n == pre.alive.len(),
                pre.wf(),
                self@.sessions == pre.sessions,
                self@.next_session == pre.next_session,
                self@.alive == pre.alive,
                self@.devices.len() == pre.devices.len(),
                forall|i: int|
                    0 <= i < pre.devices.len() ==> #[trigger] self@.devices[i] == (if evicted(
                        pre.alive.take(idx as int),
                        pre.devices[i].id,
                        now,
                    ) {
                        DeviceModel {
                            id: pre.devices[i].id,
                            name: pre.devices[i].name,
                            status: DyscyplinerStatus::OFFLINE,
                        }
                    } else {
                        pre.devices[i]
                    }),
                entry_models(kept@) == kept_entries(pre.alive.take(idx as int), now),
                out@.len() == eviction_texts(pre.alive.take(idx as int), now).len(),
                forall|q: int|
                    0 <= q < out@.len() ==> (#[trigger] out@[q]).message@ == eviction_texts(
                        pre.alive.take(idx as int),
                        now,
                    )[q],
            decreases n - idx,
        {
            let ghost cur = pre.alive[idx as int];
            proof {
                assert(entry_models(self.alive_devices@)[idx as int] == cur);
            }
            let last_seen = self.alive_devices[idx].last_seen;
            let is_expired = now > last_seen && now - last_seen > DEVICE_DEAD_MS;
            proof {
                assert(last_seen == cur.last_seen);
                assert(is_expired == expired(cur, now));
                lemma_sweep_step(pre.alive, idx as int, now);
            }
            if is_expired {
                let key = self.alive_devices[idx].key.clone();
                proof {
                    assert(key@ == cur.key);
                }
                match find_device_index(&self.devices, &key) {
                    Some(i) => {
                        let ghost dev_mid = self@.devices;
                        set_device_status(&mut self.devices, i, DyscyplinerStatus::OFFLINE);
                        proof {
                            assert(dev_mid[i as int].id == cur.key);
                            assert forall|i2: int|
                                0 <= i2 < pre.devices.len() implies #[trigger] self@.devices[i2]
                                == (if evicted(pre.alive.take(idx + 1), pre.devices[i2].id, now) {
                                DeviceModel {
                                    id: pre.devices[i2].id,
                                    name: pre.devices[i2].name,
                                    status: DyscyplinerStatus::OFFLINE,
                                }
                            } else {
                                pre.devices[i2]
                            }) by {
                                assert(pre.alive.take(idx + 1)[idx as int] == cur);
                                assert(dev_mid[i2].id == pre.devices[i2].id);
                                if i2 == i {
                                    assert(evicted(pre.alive.take(idx + 1), pre.devices[i2].id, now));
                                } else {
                                    if pre.devices[i2].id == cur.key {
                                        assert(dev_ids(pre.devices)[i2] == dev_ids(pre.devices)[i as int]);
                                        assert(false);
                                    }
                                    assert(self@.devices[i2] == dev_mid[i2]);
                                    if evicted(pre.alive.take(idx + 1), pre.devices[i2].id, now) {
                                        let w = choose|w: int|
                                            0 <= w < pre.alive.take(idx + 1).len() && (#[trigger] pre.alive.take(
                                                idx + 1,
                                            )[w]).key == pre.devices[i2].id && expired(
                                                pre.alive.take(idx + 1)[w],
                                                now,
                                            );
                                        assert(w < idx);
                                        assert(evicted(pre.alive.take(idx as int), pre.devices[i2].id, now));
                                    }
                                    if evicted(pre.alive.take(idx as int), pre.devices[i2].id, now) {
                                        let w = choose|w: int|
                                            0 <= w < pre.alive.take(idx as int).len()
                                                && (#[trigger] pre.alive.take(idx as int)[w]).key
                                                == pre.devices[i2].id && expired(
                                                pre.alive.take(idx as int)[w],
                                                now,
                                            );
                                        assert(pre.alive.take(idx + 1)[w] == pre.alive.take(idx as int)[w]);
                                        assert(evicted(pre.alive.take(idx + 1), pre.devices[i2].id, now));
                                    }
                                }
                            }
                        }
                        out.push(
                            Message {
                                message: newstatus_text(key.as_str(), DyscyplinerStatus::OFFLINE),
                            },
                        );
                        proof {
                            let tprev = eviction_texts(pre.alive.take(idx as int), now);
                            let tnext = eviction_texts(pre.alive.take(idx + 1), now);
                            assert(dropped_entries(pre.alive.take(idx + 1), now)
                                == dropped_entries(pre.alive.take(idx as int), now).push(cur));
                            assert(tnext.len() == tprev.len() + 1);
                            assert forall|q: int| 0 <= q < tprev.len() implies tnext[q] == tprev[q] by {
                                assert(dropped_entries(pre.alive.take(idx + 1), now)[q]
                                    == dropped_entries(pre.alive.take(idx as int), now)[q]);
                            }
                            assert(tnext[tprev.len() as int] == spec_newstatus_text(
                                cur.key,
                                DyscyplinerStatus::OFFLINE,
                            ));
                        }
                    },
                    None => {
                        proof {
                            assert(has_dev(pre.devices, cur.key));
                            let w = choose|w: int|
                                0 <= w < pre.devices.len() && pre.devices[w].id == cur.key;
                            assert(self@.devices[w].id == pre.devices[w].id);
                            assert(has_dev(models(self.devices@), key@));
                            assert(false);
                        }
                        out.push(
                            Message {
                                message: newstatus_text(key.as_str(), DyscyplinerStatus::OFFLINE),
                            },
                        );
                    },
                }
            } else {
                let key = self.alive_devices[idx].key.clone();
                kept.push(LivenessEntry { key: key, last_seen: last_seen });
                proof {
                    assert(entry_models(kept@) =~= kept_entries(pre.alive.take(idx as int), now).push(cur));
                    assert forall|i2: int|
                        0 <= i2 < pre.devices.len() implies #[trigger] self@.devices[i2] == (if evicted(
                        pre.alive.take(idx + 1),
                        pre.devices[i2].id,
                        now,
                    ) {
                        DeviceModel {
                            id: pre.devices[i2].id,
                            name: pre.devices[i2].name,
                            status: DyscyplinerStatus::OFFLINE,
                        }
                    } else {
                        pre.devices[i2]
                    }) by {
                        if evicted(pre.alive.take(idx + 1), pre.devices[i2].id, now) {
                            let w = choose|w: int|
                                0 <= w < pre.alive.take(idx + 1).len() && (#[trigger] pre.alive.take(
                                    idx + 1,
                                )[w]).key == pre.devices[i2].id && expired(pre.alive.take(idx + 1)[w], now);
                            assert(pre.alive.take(idx + 1)[idx as int] == cur);
                            assert(w < idx);
                            assert(evicted(pre.alive.take(idx as int), pre.devices[i2].id, now));
                        }
                        if evicted(pre.alive.take(idx as int), pre.devices[i2].id, now) {
                            let w = choose|w: int|
                                0 <= w < pre.alive.take(idx as int).len() && (#[trigger] pre.alive.take(
                                    idx as int,
                                )[w]).key == pre.devices[i2].id && expired(
                                pre.alive.take(idx as int)[w],
                                now,
                            );
                            assert(pre.alive.take(idx + 1)[w] == pre.alive.take(idx as int)[w]);
                            assert(evicted(pre.alive.take(idx + 1), pre.devices[i2].id, now));
                        }
                    }
                }
            }
            idx = idx + 1;
        }
        self.alive_devices = kept;
        proof {
            assert(pre.alive.take(n as int) =~= pre.alive);
            assert(self@.alive == kept_entries(pre.alive, now));
            assert(msgs_texts(out@) =~= eviction_texts(pre.alive, now));
            assert(dev_ids(self@.devices) =~= dev_ids(pre.devices));
            lemma_kept_entries_wf(pre.alive, now);
            let keptm = kept_entries(pre.alive, now);
            assert(alive_keys(self@.alive).no_duplicates()) by {
                assert forall|a: int, b: int|
                    0 <= a < alive_keys(keptm).len() && 0 <= b < alive_keys(keptm).len() && a != b
                    implies alive_keys(keptm)[a] != alive_keys(keptm)[b] by {
                    lemma_kept_entries_wf(pre.alive, now);
                    let wa = choose|w: int| 0 <= w < pre.alive.len() && pre.alive[w] == keptm[a];
                    let wb = choose|w: int| 0 <= w < pre.alive.len() && pre.alive[w] == keptm[b];
                    assert(alive_keys(keptm)[a] == keptm[a].key);
                    assert(alive_keys(keptm)[b] == keptm[b].key);
                    if keptm[a].key == keptm[b].key {
                        assert(alive_keys(pre.alive)[wa] == alive_keys(pre.alive)[wb]);
                        assert(wa == wb);
                        assert(keptm[a] == keptm[b]);
                        lemma_kept_entries_no_dup(pre.alive, now, a, b);
                    }
                }
            }
            assert forall|j: int| 0 <= j < self@.alive.len() implies has_dev(
                self@.devices,
                (#[trigger] self@.alive[j]).key,
            ) by {
                lemma_kept_entries_wf(pre.alive, now);
                let w = choose|w: int| 0 <= w < pre.alive.len() && pre.alive[w] == keptm[j];
                assert(has_dev(pre.devices, pre.alive[w].key));
                let wd = choose|wd: int|
                    0 <= wd < pre.devices.len() && pre.devices[wd].id == pre.alive[w].key;
                assert(self@.devices[wd].id == pre.devices[wd].id);
            }
        }
        out
    }
}

/// Every record the sweep keeps is one of the records it scanned, and is
/// within the grace period.
pub(crate) proof fn lemma_kept_entries_wf(alive: Seq<EntryModel>, now: u64)
    ensures
        forall|j: int|
            0 <= j < kept_entries(alive, now).len() ==> alive.contains(
                #[trigger] kept_entries(alive, now)[j],
            ) && !expired(kept_entries(alive, now)[j], now),
    decreases alive.len(),
{
    reveal_with_fuel(Seq::<_>::filter, 1);
    if alive.len() > 0 {
        lemma_kept_entries_wf(alive.drop_last(), now);
        assert forall|j: int|
            0 <= j < kept_entries(alive, now).len() implies alive.contains(
            #[trigger] kept_entries(alive, now)[j],
        ) && !expired(kept_entries(alive, now)[j], now) by {
            let prefix = alive.drop_last();
            if j < kept_entries(prefix, now).len() {
                assert(kept_entries(alive, now)[j] == kept_entries(prefix, now)[j]);
                let w = choose|w: int|
                    0 <= w < prefix.len() && prefix[w] == kept_entries(prefix, now)[j];
                assert(alive[w] == prefix[w]);
            } else {
                assert(kept_entries(alive, now)[j] == alive.last());
                assert(alive[alive.len() - 1] == alive.last());
            }
        }
    }
}

/// Every record the sweep evicts is one of the records it scanned, and is
/// past the grace period.
pub(crate) proof fn lemma_dropped_entries_wf(alive: Seq<EntryModel>, now: u64)
    ensures
        forall|j: int|
            0 <= j < dropped_entries(alive, now).len() ==> alive.contains(
                #[trigger] dropped_entries(alive, now)[j],
            ) && expired(dropped_entries(alive, now)[j], now),
    decreases alive.len(),
{
    reveal_with_fuel(Seq::<_>::filter, 1);
    if alive.len() > 0 {
        lemma_dropped_entries_wf(alive.drop_last(), now);
        assert forall|j: int|
            0 <= j < dropped_entries(alive, now).len() implies alive.contains(
            #[trigger] dropped_entries(alive, now)[j],
        ) && expired(dropped_entries(alive, now)[j], now) by {
            let prefix = alive.drop_last();
            if j < dropped_entries(prefix, now).len() {
                assert(dropped_entries(alive, now)[j] == dropped_entries(prefix, now)[j]);
                let w = choose|w: int|
                    0 <= w < prefix.len() && prefix[w] == dropped_entries(prefix, now)[j];
                assert(alive[w] == prefix[w]);
            } else {
                assert(dropped_entries(alive, now)[j] == alive.last());
                assert(alive[alive.len() - 1] == alive.last());
            }
        }
    }
}

/// A record within the grace period is among the kept records.
pub(crate) proof fn lemma_kept_entries_complete(alive: Seq<EntryModel>, now: u64, j: int)
    requires
        0 <= j < alive.len(),
        !expired(alive[j], now),
    ensures
        kept_entries(alive, now).contains(alive[j]),
    decreases alive.len(),
{
    reveal_with_fuel(Seq::<_>::filter, 1);
    let prefix = alive.drop_last();
    if j == alive.len() - 1 {
        let k = kept_entries(alive, now);
        assert(k[k.len() - 1] == alive[j]);
    } else {
        lemma_kept_entries_complete(prefix, now, j);
        let w = choose|w: int|
            0 <= w < kept_entries(prefix, now).len() && kept_entries(prefix, now)[w] == prefix[j];
        assert(prefix[j] == alive[j]);
        if !expired(alive.last(), now) {
            assert(kept_entries(alive, now)[w] == kept_entries(prefix, now)[w]);
        } else {
            assert(kept_entries(alive, now) == kept_entries(prefix, now));
        }
    }
}

/// A record past the grace period is among the evicted records.
pub(crate) proof fn lemma_dropped_entries_complete(alive: Seq<EntryModel>, now: u64, j: int)
    requires
        0 <= j < alive.len(),
        expired(alive[j], now),
    ensures
        dropped_entries(alive, now).contains(alive[j]),
    decreases alive.len(),
{
    reveal_with_fuel(Seq::<_>::filter, 1);
    let prefix = alive.drop_last();
    if j == alive.len() - 1 {
        let k = dropped_entries(alive, now);
        assert(k[k.len() - 1] == alive[j]);
    } else {
        lemma_dropped_entries_complete(prefix, now, j);
        let w = choose|w: int|
            0 <= w < dropped_entries(prefix, now).len() && dropped_entries(prefix, now)[w]
                == prefix[j];
        assert(prefix[j] == alive[j]);
        if expired(alive.last(), now) {
            assert(dropped_entries(alive, now)[w] == dropped_entries(prefix, now)[w]);
        } else {
            assert(dropped_entries(alive, now) == dropped_entries(prefix, now));
        }
    }
}

/// If two evicted records at different positions are the very same record,
/// the scanned records held a duplicate — impossible when keys are unique.
pub(crate) proof fn lemma_dropped_entries_no_dup(alive: Seq<EntryModel>, now: u64, a: int, b: int)
    requires
        alive_keys(alive).no_duplicates(),
        0 <= a < dropped_entries(alive, now).len(),
        0 <= b < dropped_entries(alive, now).len(),
        a != b,
    ensures
        dropped_entries(alive, now)[a] != dropped_entries(alive, now)[b],
    decreases alive.len(),
{
    reveal_with_fuel(Seq::<_>::filter, 1);
    if alive.len() > 0 {
        let prefix = alive.drop_last();
        assert(alive_keys(prefix).no_duplicates()) by {
            assert forall|x: int, y: int|
                0 <= x < alive_keys(prefix).len() && 0 <= y < alive_keys(prefix).len() && x != y
                implies alive_keys(prefix)[x] != alive_keys(prefix)[y] by {
                assert(alive_keys(alive)[x] == alive[x].key);
                assert(alive_keys(alive)[y] == alive[y].key);
                assert(alive[x] == prefix[x]);
                assert(alive[y] == prefix[y]);
            }
        }
        let k = dropped_entries(prefix, now);
        if expired(alive.last(), now) {
            if a < k.len() && b < k.len() {
                lemma_dropped_entries_no_dup(prefix, now, a, b);
            } else {
                let inner = if a < k.len() {
                    a
                } else {
                    b
                };
                assert(inner < k.len());
                lemma_dropped_entries_wf(prefix, now);
                let w = choose|w: int| 0 <= w < prefix.len() && prefix[w] == k[inner];
                if dropped_entries(alive, now)[a] == dropped_entries(alive, now)[b] {
                    assert(k[inner] == alive.last());
                    assert(alive_keys(alive)[w] == alive[w].key);
                    assert(alive_keys(alive)[alive.len() - 1] == alive.last().key);
                    assert(alive[w] == prefix[w]);
                }
            }
        } else {
            lemma_dropped_entries_no_dup(prefix, now, a, b);
        }
    }
}

/// If two kept records at different positions are the very same record, the
/// scanned records held a duplicate — impossible when the keys are unique.
proof fn lemma_kept_entries_no_dup(alive: Seq<EntryModel>, now: u64, a: int, b: int)
    requires
        alive_keys(alive).no_duplicates(),
        0 <= a < kept_entries(alive, now).len(),
        0 <= b < kept_entries(alive, now).len(),
        a != b,
    ensures
        kept_entries(alive, now)[a] != kept_entries(alive, now)[b],
    decreases alive.len(),
{
    reveal_with_fuel(Seq::<_>::filter, 1);
    if alive.len() > 0 {
        let prefix = alive.drop_last();
        assert(alive_keys(prefix).no_duplicates()) by {
            assert forall|x: int, y: int|
                0 <= x < alive_keys(prefix).len() && 0 <= y < alive_keys(prefix).len() && x != y
                implies alive_keys(prefix)[x] != alive_keys(prefix)[y] by {
                assert(alive_keys(prefix)[x] == prefix[x].key);
                assert(alive_keys(prefix)[y] == prefix[y].key);
                assert(alive_keys(alive)[x] == alive[x].key);
                assert(alive_keys(alive)[y] == alive[y].key);
                assert(alive[x] == prefix[x]);
                assert(alive[y] == prefix[y]);
            }
        }
        let k = kept_entries(prefix, now);
        if !expired(alive.last(), now) {
            if a < k.len() && b < k.len() {
                lemma_kept_entries_no_dup(prefix, now, a, b);
            } else {
                let inner = if a < k.len() { a } else { b };
                assert(inner < k.len());
                lemma_kept_entries_wf(prefix, now);
                let w = choose|w: int| 0 <= w < prefix.len() && prefix[w] == k[inner];
                if kept_entries(alive, now)[a] == kept_entries(alive, now)[b] {
                    assert(k[inner] == alive.last());
                    assert(alive_keys(alive)[w] == alive[w].key);
                    assert(alive_keys(alive)[alive.len() - 1] == alive.last().key);
                    assert(alive[w] == prefix[w]);
                }
            }
        } else {
            lemma_kept_entries_no_dup(prefix, now, a, b);
        }
    }
}

} // verus!
