//! The device record kept by the registry, and its mathematical model.

use vstd::prelude::*;

use crate::status::DyscyplinerStatus;

verus! {

/// One registered device: an opaque unique identifier, a human-readable
/// label, and its current status. The identifier and the name never change
/// once the device is created; only the status is mutated.
pub struct Dyscypliner {
    pub id: String,
    pub name: String,
    pub status: DyscyplinerStatus,
}

/// The model of a device: the character sequences of its fields.
pub struct DeviceModel {
    pub id: Seq<char>,
    pub name: Seq<char>,
    pub status: DyscyplinerStatus,
}

impl View for Dyscypliner {
    type V = DeviceModel;

    open spec fn view(&self) -> DeviceModel {
        DeviceModel { id: self.id@, name: self.name@, status: self.status }
    }
}

/// The models of a registry's devices, in creation order.
pub open spec fn models(devs: Seq<Dyscypliner>) -> Seq<DeviceModel> {
    devs.map(|i: int, d: Dyscypliner| d@)
}

/// The identifiers of a device sequence, in creation order.
pub open spec fn dev_ids(devs: Seq<DeviceModel>) -> Seq<Seq<char>> {
    devs.map(|i: int, d: DeviceModel| d.id)
}

/// Whether some device in `devs` carries the identifier `key`.
pub open spec fn has_dev(devs: Seq<DeviceModel>, key: Seq<char>) -> bool {
    exists|i: int| 0 <= i < devs.len() && devs[i].id == key
}

} // verus!
