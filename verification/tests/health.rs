use ovata_infer_protocol::record::Held;
use ovata_infer_protocol::{Health, PROTOCOL_VERSION};

fn told(text: &str) -> String {
    Health::from_json(text).err().unwrap().message()
}

#[test]
fn roundtrips_through_json() {
    let h = Health {
        status: "ok".into(),
        model: "Qwen3-Coder-30B".into(),
        model_loaded: true,
        uptime_secs: 42,
        protocol_version: PROTOCOL_VERSION,
    };
    let s = h.to_json().unwrap();
    let back = Health::from_json(&s).unwrap();
    assert_eq!(back.model, "Qwen3-Coder-30B");
    assert!(back.model_loaded);
    assert_eq!(back.uptime_secs, 42);
    assert_eq!(back.protocol_version, PROTOCOL_VERSION);
}

#[test]
fn missing_fields_default() {
    // An older or sparser provider emits only some fields.
    let h = Health::from_json(r#"{"status":"ok","model":"m"}"#).unwrap();
    assert_eq!(h.status, "ok");
    assert_eq!(h.model, "m");
    assert!(!h.model_loaded);
    assert_eq!(h.uptime_secs, 0);
    assert_eq!(h.protocol_version, 0);
}

#[test]
fn empty_object_is_all_defaults() {
    let h = Health::from_json("{}").unwrap();
    assert_eq!(h.status, "");
    assert!(!h.model_loaded);
}

#[test]
fn a_report_is_compact_json_in_field_order() {
    let h = Health { uptime_secs: u64::MAX, ..Default::default() };
    assert_eq!(
        h.to_json().unwrap(),
        "{\"status\":\"\",\"model\":\"\",\"model_loaded\":false,\
         \"uptime_secs\":18446744073709551615,\"protocol_version\":0}"
    );
}

#[test]
fn a_report_may_come_in_declaration_order() {
    let h = Health::from_json(r#"["ok","m",true]"#).unwrap();
    assert_eq!(h.status, "ok");
    assert_eq!(h.model, "m");
    assert!(h.model_loaded);
    assert_eq!(h.uptime_secs, 0);
    assert!(Health::from_json("[]").is_ok());
    assert_eq!(told(r#"["ok","m",true,1,2,3]"#), "trailing characters at line 1 column 20");
}

#[test]
fn a_newer_report_is_read() {
    let h = Health::from_json(r#"{"status":"ok","gpus":[0,1],"load":0.5}"#).unwrap();
    assert_eq!(h.status, "ok");
}

#[test]
fn a_text_that_is_no_report_says_why() {
    assert_eq!(told("null"), "invalid type: null, expected struct Health at line 1 column 4");
    assert_eq!(told("{"), "EOF while parsing an object at line 1 column 1");
    assert_eq!(
        told(r#"{"model":null}"#),
        "invalid type: null, expected a string at line 1 column 13"
    );
    assert_eq!(
        told(r#"{"protocol_version":4294967296}"#),
        "invalid value: integer `4294967296`, expected u32 at line 1 column 30"
    );
}

#[test]
fn a_report_names_each_field_once() {
    assert_eq!(
        told(r#"{"status":"ok","status":"ok"}"#),
        "duplicate field `status` at line 1 column 23"
    );
    let h = Health::from_json(r#"{"extra":1,"extra":[1e999],"status":"ok"}"#).unwrap();
    assert_eq!(h.status, "ok");
}

#[test]
fn a_report_is_what_its_slots_hold() {
    let h = Health::from_slots(&vec![None, Some(Held::Text("m".to_owned())), None, Some(Held::Long(9))]);
    assert_eq!((h.status.as_str(), h.model.as_str()), ("", "m"));
    assert_eq!((h.model_loaded, h.uptime_secs, h.protocol_version), (false, 9, 0));
}

#[test]
fn further_members_of_a_report_are_passed_over() {
    let h = Health { status: "ok".into(), model_loaded: true, uptime_secs: 7, ..Default::default() };
    let text = h.to_json().unwrap();
    let members: Vec<&str> = text[1..text.len() - 1].split(',').collect();
    assert_eq!(members.len(), 5);
    for at in 0..=members.len() {
        let mut longer = members.clone();
        longer.insert(at, r#""gpus":[{"load":0.5}]"#);
        let back = Health::from_json(&format!("{{{}}}", longer.join(","))).unwrap();
        assert_eq!(format!("{back:?}"), format!("{h:?}"));
    }
}
