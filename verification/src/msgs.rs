//! The hub's command and reply types, and the texts it broadcasts.

use vstd::prelude::*;

use crate::device::{models, Dyscypliner, DeviceModel};
use crate::json::spec_json_devices;
use crate::json::json_devices_text;
use crate::status::{spec_status_token, DyscyplinerStatus};

verus! {

/// One broadcast line, delivered verbatim to every connected observer.
pub struct Message {
    pub message: String,
}

/// The hub's reply to a new observer: its deregistration token and the
/// initialization line carrying the full device snapshot.
pub struct ConnectResult {
    pub id: usize,
    pub init_data: String,
}

/// Command: create a device under the given human-readable name.
pub struct AddDevice {
    pub name: String,
}

/// Command: register the calling observer.
pub struct Connect {}

/// Command: deregister the observer that holds this token.
pub struct Disconnect {
    pub id: usize,
}

/// Command: a device's liveness report. The transport boundary guarantees
/// the status is never `OFFLINE` (see `parse_status_token`).
pub struct DeviceAlive {
    pub key: String,
    pub status: DyscyplinerStatus,
}

/// The broadcast texts of a batch of messages, in order.
pub open spec fn msgs_texts(ms: Seq<Message>) -> Seq<Seq<char>> {
    ms.map(|i: int, m: Message| m.message@)
}

/// The announcement for a freshly created device.
pub open spec fn spec_newdev_text(id: Seq<char>, name: Seq<char>) -> Seq<char> {
    "NEWDEV "@ + id + " "@ + name + " "@ + spec_status_token(DyscyplinerStatus::OFFLINE)
}

/// The announcement for a device's status change.
pub open spec fn spec_newstatus_text(id: Seq<char>, st: DyscyplinerStatus) -> Seq<char> {
    "NEWSTATUS "@ + id + " "@ + spec_status_token(st)
}

/// The initialization line for a new observer: the full roster as JSON.
pub open spec fn spec_init_text(devs: Seq<DeviceModel>) -> Seq<char> {
    "INIT "@ + spec_json_devices(devs)
}

/// Two status-change announcements with the same status token are equal only
/// when they announce the same device.
pub proof fn lemma_newstatus_text_injective(k1: Seq<char>, k2: Seq<char>, st: DyscyplinerStatus)
    requires
        spec_newstatus_text(k1, st) == spec_newstatus_text(k2, st),
    ensures
        k1 == k2,
{
    reveal_strlit("NEWSTATUS ");
    reveal_strlit(" ");
    let t1 = spec_newstatus_text(k1, st);
    let t2 = spec_newstatus_text(k2, st);
    assert(t1.len() == 10 + k1.len() + 1 + spec_status_token(st).len());
    assert(t2.len() == 10 + k2.len() + 1 + spec_status_token(st).len());
    assert(k1.len() == k2.len());
    assert forall|i: int| 0 <= i < k1.len() implies k1[i] == k2[i] by {
        assert(t1[10 + i] == k1[i]);
        assert(t2[10 + i] == k2[i]);
    }
    assert(k1 =~= k2);
}

/// Renders the new-device announcement.
pub fn newdev_text(id: &str, name: &str) -> (r: String)
    ensures
        r@ == spec_newdev_text(id@, name@),
{
    let mut m = String::new();
    m.append("NEWDEV ");
    m.append(id);
    m.append(" ");
    m.append(name);
    m.append(" ");
    m.append(DyscyplinerStatus::OFFLINE.token());
    proof {
        assert(m@ =~= spec_newdev_text(id@, name@));
    }
    m
}

/// Renders the status-change announcement.
pub fn newstatus_text(id: &str, st: DyscyplinerStatus) -> (r: String)
    ensures
        r@ == spec_newstatus_text(id@, st),
{
    let mut m = String::new();
    m.append("NEWSTATUS ");
    m.append(id);
    m.append(" ");
    m.append(st.token());
    proof {
        assert(m@ =~= spec_newstatus_text(id@, st));
    }
    m
}

/// Renders the initialization line for the given roster.
pub fn init_text(devs: &Vec<Dyscypliner>) -> (r: String)
    ensures
        r@ == spec_init_text(models(devs@)),
{
    let json = json_devices_text(devs);
    let mut m = String::new();
    m.append("INIT ");
    m.append(json.as_str());
    proof {
        assert(m@ =~= spec_init_text(models(devs@)));
    }
    m
}

} // verus!
