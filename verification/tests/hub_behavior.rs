//! Hub behaviour: identifier uniqueness, snapshot completeness, broadcast
//! suppression, first-seen announcements, the timeout window, and idempotent
//! disconnects.

use dyscypliner::device::Dyscypliner;
use dyscypliner::hub::{DyscyplinerServer, LivenessEntry};
use dyscypliner::msgs::{AddDevice, Connect, DeviceAlive, Disconnect};
use dyscypliner::status::DyscyplinerStatus;

fn is_alnum(c: char) -> bool {
    c.is_ascii_alphanumeric()
}

#[test]
fn device_ids_pairwise_distinct() {
    let mut hub = DyscyplinerServer::new();
    let mut ids: Vec<String> = Vec::new();
    let mut k = 0;
    while k < 8 {
        let (id, _msg) = hub.handle_add_device(AddDevice {
            name: format!("dev {}", k),
        });
        assert!(id.len() >= 16);
        assert!(id.chars().all(is_alnum));
        ids.push(id);
        k += 1;
    }
    let mut a = 0;
    while a < ids.len() {
        let mut b = a + 1;
        while b < ids.len() {
            assert_ne!(ids[a], ids[b]);
            b += 1;
        }
        a += 1;
    }
}

#[test]
fn snapshot_lists_devices_in_creation_order() {
    let mut hub = DyscyplinerServer::new();
    let (a, _m1) = hub.handle_add_device(AddDevice {
        name: String::from("alpha"),
    });
    let (b, _m2) = hub.handle_add_device(AddDevice {
        name: String::from("beta"),
    });
    let res = hub.handle_connect(Connect {});
    let expected = format!(
        "INIT [{{\"id\":\"{}\",\"name\":\"alpha\",\"status\":\"OFFLINE\"}},{{\"id\":\"{}\",\"name\":\"beta\",\"status\":\"OFFLINE\"}}]",
        a, b
    );
    assert_eq!(res.init_data, expected);
}

#[test]
fn snapshot_carries_current_status() {
    let mut hub = DyscyplinerServer::new();
    let (id, _m) = hub.handle_add_device(AddDevice {
        name: String::from("alpha"),
    });
    hub.handle_device_alive(
        DeviceAlive {
            key: id.clone(),
            status: DyscyplinerStatus::GOOD,
        },
        0,
    );
    let res = hub.handle_connect(Connect {});
    let expected = format!(
        "INIT [{{\"id\":\"{}\",\"name\":\"alpha\",\"status\":\"GOOD\"}}]",
        id
    );
    assert_eq!(res.init_data, expected);
}

#[test]
fn redundant_report_suppressed() {
    let mut hub = DyscyplinerServer::new();
    let (id, _m) = hub.handle_add_device(AddDevice {
        name: String::from("alpha"),
    });
    let first = hub.handle_device_alive(
        DeviceAlive {
            key: id.clone(),
            status: DyscyplinerStatus::GOOD,
        },
        0,
    );
    assert!(first.is_some());
    let second = hub.handle_device_alive(
        DeviceAlive {
            key: id.clone(),
            status: DyscyplinerStatus::GOOD,
        },
        1_000,
    );
    assert!(second.is_none());
    let third = hub.handle_device_alive(
        DeviceAlive {
            key: id.clone(),
            status: DyscyplinerStatus::ANGRY,
        },
        2_000,
    );
    assert_eq!(third.unwrap().message, format!("NEWSTATUS {} ANGRY", id));
}

#[test]
fn first_seen_announces_even_when_status_equal() {
    // A device whose stored status survived from an earlier session, with no
    // liveness record: its first report must still be announced.
    let mut hub = DyscyplinerServer {
        sessions: Vec::new(),
        next_session: 0,
        devices: vec![Dyscypliner {
            id: String::from("k000000000000001"),
            name: String::from("n"),
            status: DyscyplinerStatus::GOOD,
        }],
        alive_devices: Vec::new(),
    };
    let m = hub.handle_device_alive(
        DeviceAlive {
            key: String::from("k000000000000001"),
            status: DyscyplinerStatus::GOOD,
        },
        5,
    );
    assert_eq!(m.unwrap().message, "NEWSTATUS k000000000000001 GOOD");
}

#[test]
fn unknown_key_is_silent_noop() {
    let mut hub = DyscyplinerServer::new();
    let (_id, _m) = hub.handle_add_device(AddDevice {
        name: String::from("alpha"),
    });
    let r = hub.handle_device_alive(
        DeviceAlive {
            key: String::from("nosuchdevice0000"),
            status: DyscyplinerStatus::GOOD,
        },
        0,
    );
    assert!(r.is_none());
    assert_eq!(hub.alive_devices.len(), 0);
    assert_eq!(hub.devices[0].status, DyscyplinerStatus::OFFLINE);
}

#[test]
fn report_refreshes_liveness_window() {
    let mut hub = DyscyplinerServer::new();
    let (id, _m) = hub.handle_add_device(AddDevice {
        name: String::from("alpha"),
    });
    hub.handle_device_alive(
        DeviceAlive {
            key: id.clone(),
            status: DyscyplinerStatus::GOOD,
        },
        0,
    );
    hub.handle_device_alive(
        DeviceAlive {
            key: id.clone(),
            status: DyscyplinerStatus::GOOD,
        },
        10_000,
    );
    // 20s after start, but only 10s after the refresh: still alive.
    assert!(hub.sweep(20_000).is_empty());
    // 26s after the refresh: evicted.
    let msgs = hub.sweep(36_000);
    assert_eq!(msgs.len(), 1);
}

#[test]
fn end_to_end_scenario() {
    let mut hub = DyscyplinerServer::new();
    let (x, newdev) = hub.handle_add_device(AddDevice {
        name: String::from("sensor-A"),
    });
    assert_eq!(newdev.message, format!("NEWDEV {} sensor-A OFFLINE", x));
    let res = hub.handle_connect(Connect {});
    assert!(res
        .init_data
        .contains(&format!("{{\"id\":\"{}\",\"name\":\"sensor-A\",\"status\":\"OFFLINE\"}}", x)));
    let m = hub
        .handle_device_alive(
            DeviceAlive {
                key: x.clone(),
                status: DyscyplinerStatus::GOOD,
            },
            0,
        )
        .unwrap();
    assert_eq!(m.message, format!("NEWSTATUS {} GOOD", x));
    // Never offline before the grace period has passed.
    assert!(hub.sweep(10_000).is_empty());
    assert!(hub.sweep(15_000).is_empty());
    // Silent past the grace period: exactly one offline announcement by 26s.
    let msgs = hub.sweep(26_000);
    assert_eq!(msgs.len(), 1);
    assert_eq!(msgs[0].message, format!("NEWSTATUS {} OFFLINE", x));
    // And never a second one for the same silence.
    assert!(hub.sweep(36_000).is_empty());
}

#[test]
fn sweep_evicts_each_expired_device() {
    let mut hub = DyscyplinerServer::new();
    let (a, _m1) = hub.handle_add_device(AddDevice {
        name: String::from("alpha"),
    });
    let (b, _m2) = hub.handle_add_device(AddDevice {
        name: String::from("beta"),
    });
    hub.handle_device_alive(
        DeviceAlive {
            key: a.clone(),
            status: DyscyplinerStatus::GOOD,
        },
        0,
    );
    hub.handle_device_alive(
        DeviceAlive {
            key: b.clone(),
            status: DyscyplinerStatus::ANGRY,
        },
        0,
    );
    let msgs = hub.sweep(20_000);
    assert_eq!(msgs.len(), 2);
    assert_eq!(msgs[0].message, format!("NEWSTATUS {} OFFLINE", a));
    assert_eq!(msgs[1].message, format!("NEWSTATUS {} OFFLINE", b));
    let res = hub.handle_connect(Connect {});
    assert!(res
        .init_data
        .contains(&format!("{{\"id\":\"{}\",\"name\":\"alpha\",\"status\":\"OFFLINE\"}}", a)));
}

#[test]
fn sweep_keeps_fresh_entry_of_stale_pair() {
    let mut hub = DyscyplinerServer {
        sessions: Vec::new(),
        next_session: 0,
        devices: vec![
            Dyscypliner {
                id: String::from("stale00000000001"),
                name: String::from("s"),
                status: DyscyplinerStatus::GOOD,
            },
            Dyscypliner {
                id: String::from("fresh00000000001"),
                name: String::from("f"),
                status: DyscyplinerStatus::GOOD,
            },
        ],
        alive_devices: vec![
            LivenessEntry {
                key: String::from("stale00000000001"),
                last_seen: 0,
            },
            LivenessEntry {
                key: String::from("fresh00000000001"),
                last_seen: 18_000,
            },
        ],
    };
    let msgs = hub.sweep(20_000);
    assert_eq!(msgs.len(), 1);
    assert_eq!(msgs[0].message, "NEWSTATUS stale00000000001 OFFLINE");
    assert_eq!(hub.alive_devices.len(), 1);
    assert_eq!(hub.alive_devices[0].key, "fresh00000000001");
    assert_eq!(hub.devices[0].status, DyscyplinerStatus::OFFLINE);
    assert_eq!(hub.devices[1].status, DyscyplinerStatus::GOOD);
}

#[test]
fn disconnect_is_idempotent() {
    let mut hub = DyscyplinerServer::new();
    let r1 = hub.handle_connect(Connect {});
    let r2 = hub.handle_connect(Connect {});
    assert_ne!(r1.id, r2.id);
    hub.handle_disconnect(Disconnect { id: r1.id });
    assert_eq!(hub.sessions, vec![r2.id]);
    hub.handle_disconnect(Disconnect { id: r1.id });
    assert_eq!(hub.sessions, vec![r2.id]);
    hub.handle_disconnect(Disconnect { id: 987_654 });
    assert_eq!(hub.sessions, vec![r2.id]);
    hub.handle_disconnect(Disconnect { id: r2.id });
    assert!(hub.sessions.is_empty());
}
