use std::fmt;

use ovata_infer_protocol::{Health, InferenceRequest};
use serde::de::{Deserialize, Deserializer, Error, IgnoredAny, MapAccess, SeqAccess, Visitor};

/// A request as `serde` reads it field by field.
#[derive(Debug, Default)]
struct Request {
    prompt: String,
    model: String,
    max_tokens: u32,
    grammar: Option<String>,
    anchor: Option<String>,
    stop_anchor: Option<String>,
    count_only: bool,
    stats_only: bool,
    health_only: bool,
    keep_anchors: bool,
    trust: u8,
    rlm: bool,
}

fn once<'de, T, A>(map: &mut A, slot: &mut Option<T>, name: &'static str) -> Result<(), A::Error>
where
    T: Deserialize<'de>,
    A: MapAccess<'de>,
{
    if slot.is_some() {
        return Err(A::Error::duplicate_field(name));
    }
    *slot = Some(map.next_value()?);
    Ok(())
}

struct RequestVisitor;

impl<'de> Visitor<'de> for RequestVisitor {
    type Value = Request;

    fn expecting(&self, f: &mut fmt::Formatter<'_>) -> fmt::Result {
        f.write_str("struct InferenceRequest")
    }

    fn visit_seq<A: SeqAccess<'de>>(self, mut seq: A) -> Result<Request, A::Error> {
        let extent = "struct InferenceRequest with 12 elements";
        Ok(Request {
            prompt: seq.next_element()?.ok_or_else(|| A::Error::invalid_length(0, &extent))?,
            model: seq.next_element()?.ok_or_else(|| A::Error::invalid_length(1, &extent))?,
            max_tokens: seq.next_element()?.ok_or_else(|| A::Error::invalid_length(2, &extent))?,
            grammar: seq.next_element()?.unwrap_or_default(),
            anchor: seq.next_element()?.unwrap_or_default(),
            stop_anchor: seq.next_element()?.unwrap_or_default(),
            count_only: seq.next_element()?.unwrap_or_default(),
            stats_only: seq.next_element()?.unwrap_or_default(),
            health_only: seq.next_element()?.unwrap_or_default(),
            keep_anchors: seq.next_element()?.unwrap_or_default(),
            trust: seq.next_element()?.unwrap_or_default(),
            rlm: seq.next_element()?.unwrap_or_default(),
        })
    }

    fn visit_map<A: MapAccess<'de>>(self, mut map: A) -> Result<Request, A::Error> {
        let (mut prompt, mut model, mut max_tokens) = (None, None, None);
        let (mut grammar, mut anchor, mut stop_anchor) = (None, None, None);
        let (mut count_only, mut stats_only, mut health_only) = (None, None, None);
        let (mut keep_anchors, mut trust, mut rlm) = (None, None, None);
        while let Some(key) = map.next_key::<String>()? {
            match key.as_str() {
                "prompt" => once(&mut map, &mut prompt, "prompt")?,
                "model" => once(&mut map, &mut model, "model")?,
                "max_tokens" => once(&mut map, &mut max_tokens, "max_tokens")?,
                "grammar" => once(&mut map, &mut grammar, "grammar")?,
                "anchor" => once(&mut map, &mut anchor, "anchor")?,
                "stop_anchor" => once(&mut map, &mut stop_anchor, "stop_anchor")?,
                "count_only" => once(&mut map, &mut count_only, "count_only")?,
                "stats_only" => once(&mut map, &mut stats_only, "stats_only")?,
                "health_only" => once(&mut map, &mut health_only, "health_only")?,
                "keep_anchors" => once(&mut map, &mut keep_anchors, "keep_anchors")?,
                "trust" => once(&mut map, &mut trust, "trust")?,
                "rlm" => once(&mut map, &mut rlm, "rlm")?,
                _ => {
                    map.next_value::<IgnoredAny>()?;
                }
            }
        }
        Ok(Request {
            prompt: prompt.ok_or_else(|| A::Error::missing_field("prompt"))?,
            model: model.ok_or_else(|| A::Error::missing_field("model"))?,
            max_tokens: max_tokens.ok_or_else(|| A::Error::missing_field("max_tokens"))?,
            grammar: grammar.unwrap_or_default(),
            anchor: anchor.unwrap_or_default(),
            stop_anchor: stop_anchor.unwrap_or_default(),
            count_only: count_only.unwrap_or_default(),
            stats_only: stats_only.unwrap_or_default(),
            health_only: health_only.unwrap_or_default(),
            keep_anchors: keep_anchors.unwrap_or_default(),
            trust: trust.unwrap_or_default(),
            rlm: rlm.unwrap_or_default(),
        })
    }
}

impl<'de> Deserialize<'de> for Request {
    fn deserialize<D: Deserializer<'de>>(deserializer: D) -> Result<Self, D::Error> {
        let fields = &[
            "prompt",
            "model",
            "max_tokens",
            "grammar",
            "anchor",
            "stop_anchor",
            "count_only",
            "stats_only",
            "health_only",
            "keep_anchors",
            "trust",
            "rlm",
        ];
        deserializer.deserialize_struct("InferenceRequest", fields, RequestVisitor)
    }
}

/// A report as `serde` reads it field by field.
#[derive(Debug, Default)]
struct Report {
    status: String,
    model: String,
    model_loaded: bool,
    uptime_secs: u64,
    protocol_version: u32,
}

struct ReportVisitor;

impl<'de> Visitor<'de> for ReportVisitor {
    type Value = Report;

    fn expecting(&self, f: &mut fmt::Formatter<'_>) -> fmt::Result {
        f.write_str("struct Health")
    }

    fn visit_seq<A: SeqAccess<'de>>(self, mut seq: A) -> Result<Report, A::Error> {
        Ok(Report {
            status: seq.next_element()?.unwrap_or_default(),
            model: seq.next_element()?.unwrap_or_default(),
            model_loaded: seq.next_element()?.unwrap_or_default(),
            uptime_secs: seq.next_element()?.unwrap_or_default(),
            protocol_version: seq.next_element()?.unwrap_or_default(),
        })
    }

    fn visit_map<A: MapAccess<'de>>(self, mut map: A) -> Result<Report, A::Error> {
        let (mut status, mut model, mut model_loaded) = (None, None, None);
        let (mut uptime_secs, mut protocol_version) = (None, None);
        while let Some(key) = map.next_key::<String>()? {
            match key.as_str() {
                "status" => once(&mut map, &mut status, "status")?,
                "model" => once(&mut map, &mut model, "model")?,
                "model_loaded" => once(&mut map, &mut model_loaded, "model_loaded")?,
                "uptime_secs" => once(&mut map, &mut uptime_secs, "uptime_secs")?,
                "protocol_version" => once(&mut map, &mut protocol_version, "protocol_version")?,
                _ => {
                    map.next_value::<IgnoredAny>()?;
                }
            }
        }
        Ok(Report {
            status: status.unwrap_or_default(),
            model: model.unwrap_or_default(),
            model_loaded: model_loaded.unwrap_or_default(),
            uptime_secs: uptime_secs.unwrap_or_default(),
            protocol_version: protocol_version.unwrap_or_default(),
        })
    }
}

impl<'de> Deserialize<'de> for Report {
    fn deserialize<D: Deserializer<'de>>(deserializer: D) -> Result<Self, D::Error> {
        let fields = &["status", "model", "model_loaded", "uptime_secs", "protocol_version"];
        deserializer.deserialize_struct("Health", fields, ReportVisitor)
    }
}

fn agree(body: &[u8]) {
    let here = match InferenceRequest::decode_body(body) {
        Ok(r) => format!("{r:?}").replacen("InferenceRequest", "Request", 1),
        Err(e) => e.message(),
    };
    let there = match serde_json::from_slice::<Request>(body) {
        Ok(r) => format!("{r:?}"),
        Err(e) => e.to_string(),
    };
    assert_eq!(here, there, "{}", String::from_utf8_lossy(body));
}

fn agree_on_report(text: &str) {
    let here = match Health::from_json(text) {
        Ok(h) => format!("{h:?}").replacen("Health", "Report", 1),
        Err(e) => e.message(),
    };
    let there = match serde_json::from_str::<Report>(text) {
        Ok(r) => format!("{r:?}"),
        Err(e) => e.to_string(),
    };
    assert_eq!(here, there, "{text}");
}

const BODIES: [&str; 12] = [
    r#"{"prompt":"hi","model":"m","max_tokens":10}"#,
    "{\n  \"prompt\" : \"a\\u0041\\n\",\n  \"model\" : \"m\" ,\n  \"max_tokens\" : 7\n}\n",
    r#"{"prompt":"a","x":[1,{"y":null}],"model":"m","max_tokens":1,"trust":255,"rlm":true}"#,
    r#"{"prompt":"a","model":"m","max_tokens":1,"prompt" : "b"}"#,
    r#"{"grammar":null,"anchor":"<t>","stop_anchor":null,"count_only":false,"prompt":"p"}"#,
    r#"["a","m",3,null,"b",null,true,false,true,false,1,true]"#,
    r#"["a","m",3,null,"b",null,true,false,true,false,1,true,0]"#,
    "[\n \"a\",\n \"m\"\n]",
    r#"{"max_tokens":4294967295,"model":"m","prompt":"","stats_only":true,"keep_anchors":true}"#,
    r#"{"prompt":"a","model":"m","max_tokens":-1.5e3}"#,
    r#" "text, expected a map at line 3" "#,
    "-12.5e7 x",
];

#[test]
fn faults_are_told_as_serde_tells_them() {
    for body in BODIES {
        agree(body.as_bytes());
        for end in 0..body.len() {
            agree(&body.as_bytes()[..end]);
        }
    }
}

#[test]
fn faults_at_any_byte_are_told_as_serde_tells_them() {
    let others = b" \n,:{}[]\"\\x0-9tn.\x00\x1f\xff";
    for body in BODIES {
        for at in 0..body.len() {
            for other in others {
                let mut changed = body.as_bytes().to_vec();
                changed[at] = *other;
                agree(&changed);
                let mut longer = body.as_bytes().to_vec();
                longer.insert(at, *other);
                agree(&longer);
            }
            let mut shorter = body.as_bytes().to_vec();
            shorter.remove(at);
            agree(&shorter);
        }
    }
}

#[test]
fn values_of_every_kind_are_told_as_serde_tells_them() {
    let values = [
        "null", "true", "false", "0", "-0", "1", "-1", "255", "256", "4294967295", "4294967296",
        "18446744073709551615", "18446744073709551616", "1.0", "1e2", "1e999", "-7", "01", "1x",
        "\"\"", "\"a\"", "\"\\ud800\"", "\"\\ud800\\udc00\"", "\"\\q\"", "\"a", "[]", "[1,,2]",
        "{}", "{\"a\":}", "nul", "truex", "", " ", "]", "}", ",", ":",
    ];
    let names = [
        "prompt", "model", "max_tokens", "grammar", "anchor", "stop_anchor", "count_only",
        "stats_only", "health_only", "keep_anchors", "trust", "rlm", "other", "pro\\u006dpt",
        "\\ud800",
    ];
    for value in values {
        agree(value.as_bytes());
        for name in names {
            agree(format!("{{\"{name}\":{value}}}").as_bytes());
            agree(format!("{{\"{name}\" : {value} , \"prompt\":1}}").as_bytes());
            agree(format!("{{\"prompt\":\"a\",\n\"{name}\":{value},\"model\":[}}").as_bytes());
            agree(format!("{{\"prompt\":\"a\",\"model\":\"m\",\"max_tokens\":1,\"{name}\":{value}}}").as_bytes());
            agree(format!("{{\"prompt\":\"a\",\"model\":\"m\",\"max_tokens\":1,\"{name}\" {value}}} 1").as_bytes());
        }
        let items = ["\"a\"", "\"m\"", "1", "null", "null", "null", "true", "true", "true", "true", "1", "true"];
        for count in 0..13 {
            let head = items[..count].join(" , ");
            agree(format!("[{head}").as_bytes());
            agree(format!("[{head}]").as_bytes());
            agree(format!("[{head},{value}]").as_bytes());
            agree(format!("[{head},{value}").as_bytes());
            agree(format!("[{head},{value}] 2").as_bytes());
            agree(format!("[{head}\n{value}]").as_bytes());
        }
    }
}

#[test]
fn faults_of_a_report_are_told_as_serde_tells_them() {
    let texts = [
        r#"{"status":"ok","model":"m","model_loaded":true,"uptime_secs":12,"protocol_version":3}"#,
        r#"["ok","m",true,12,3]"#,
        r#"["ok","m",true,12,3,4]"#,
        r#"{"later":{"a":[1e999]},"status":"ok","status":"ok"}"#,
        "17",
        "\"status\"",
    ];
    for text in texts {
        agree_on_report(text);
        for at in 0..text.len() {
            agree_on_report(&text[..at]);
            for other in [" ", "\n", ",", ":", "}", "]", "\"", "\\", "0", "-", "n", "\u{0}", "é"] {
                agree_on_report(&format!("{}{}{}", &text[..at], other, &text[at + 1..]));
                agree_on_report(&format!("{}{}{}", &text[..at], other, &text[at..]));
            }
        }
    }
}

#[test]
fn a_fault_names_its_line_and_column() {
    let told = |body: &[u8]| InferenceRequest::decode_body(body).unwrap_err().message();
    assert_eq!(told(b"{}"), "missing field `prompt` at line 1 column 2");
    assert_eq!(told(b"[]"), "invalid length 0, expected struct InferenceRequest with 12 elements at line 1 column 2");
    assert_eq!(told(b"42"), "invalid type: integer `42`, expected struct InferenceRequest at line 1 column 2");
    assert_eq!(told(b"{\n\"prompt\":5,]"), "invalid type: integer `5`, expected a string at line 2 column 10");
    assert_eq!(told(b"{\"trust\":1,\n \"trust\" :2}"), "duplicate field `trust` at line 2 column 9");
    assert_eq!(told(b"{\"trust\":256}"), "invalid value: integer `256`, expected u8 at line 1 column 12");
    assert_eq!(told(b""), "EOF while parsing a value at line 1 column 0");
    assert_eq!(told(b"{\"prompt\":\"a\"] "), "expected `,` or `}` at line 1 column 14");
}
