//! Wire-format behaviour: status tokens, inbound parsing, and the JSON
//! snapshot payload, held against serde_json's rendering of the same data.

use dyscypliner::hub::DyscyplinerServer;
use dyscypliner::msgs::{AddDevice, Connect};
use dyscypliner::parse::parse_observer_command;
use dyscypliner::status::{parse_status_token, DyscyplinerStatus};

#[test]
fn status_tokens_render() {
    assert_eq!(DyscyplinerStatus::GOOD.token(), "GOOD");
    assert_eq!(DyscyplinerStatus::ANGRY.token(), "ANGRY");
    assert_eq!(DyscyplinerStatus::DYSCIPLINED.token(), "DYSCIPLINED");
    assert_eq!(DyscyplinerStatus::OFFLINE.token(), "OFFLINE");
}

#[test]
fn status_tokens_parse() {
    assert_eq!(parse_status_token("good"), Some(DyscyplinerStatus::GOOD));
    assert_eq!(parse_status_token("angry"), Some(DyscyplinerStatus::ANGRY));
    assert_eq!(
        parse_status_token("dysciplined"),
        Some(DyscyplinerStatus::DYSCIPLINED)
    );
}

#[test]
fn invalid_status_rejected() {
    assert_eq!(parse_status_token("offline"), None);
    assert_eq!(parse_status_token("bogus"), None);
    assert_eq!(parse_status_token("GOOD"), None);
    assert_eq!(parse_status_token(""), None);
    assert_eq!(parse_status_token("good "), None);
}

#[test]
fn observer_command_adddev() {
    assert_eq!(
        parse_observer_command("ADDDEV kitchen sensor"),
        Some(String::from("kitchen sensor"))
    );
    assert_eq!(
        parse_observer_command("  ADDDEV lamp \r\n"),
        Some(String::from("lamp"))
    );
    assert_eq!(
        parse_observer_command("ADDDEV  spaced"),
        Some(String::from(" spaced"))
    );
}

#[test]
fn observer_command_unrecognized() {
    assert_eq!(parse_observer_command("ADDDEV"), None);
    assert_eq!(parse_observer_command("ADDDEVX lamp"), None);
    assert_eq!(parse_observer_command("HELLO there"), None);
    assert_eq!(parse_observer_command(""), None);
    assert_eq!(parse_observer_command("   "), None);
}

#[test]
fn empty_snapshot_payload() {
    let mut hub = DyscyplinerServer::new();
    let res = hub.handle_connect(Connect {});
    assert_eq!(res.init_data, "INIT []");
}

#[test]
fn init_payload_matches_serde_json() {
    let name = "he said \"hi\"\n\\ \t λ \u{1}";
    let mut hub = DyscyplinerServer::new();
    let (id, _msg) = hub.handle_add_device(AddDevice {
        name: String::from(name),
    });
    let res = hub.handle_connect(Connect {});
    assert!(res.init_data.starts_with("INIT "));
    let json = &res.init_data[5..];
    let v: serde_json::Value = serde_json::from_str(json).expect("payload is valid JSON");
    assert_eq!(serde_json::to_string(&v).unwrap(), json);
    assert_eq!(v[0]["id"].as_str().unwrap(), id);
    assert_eq!(v[0]["name"].as_str().unwrap(), name);
    assert_eq!(v[0]["status"].as_str().unwrap(), "OFFLINE");
}

#[test]
fn announcement_texts() {
    let mut hub = DyscyplinerServer::new();
    let (id, msg) = hub.handle_add_device(AddDevice {
        name: String::from("boiler"),
    });
    assert_eq!(msg.message, format!("NEWDEV {} boiler OFFLINE", id));
    let m = hub
        .handle_device_alive(
            dyscypliner::msgs::DeviceAlive {
                key: id.clone(),
                status: DyscyplinerStatus::ANGRY,
            },
            0,
        )
        .unwrap();
    assert_eq!(m.message, format!("NEWSTATUS {} ANGRY", id));
}
