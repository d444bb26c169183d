use tracing_timeline::encode::encode_file;
use tracing_timeline::speedscope::{
    Event, EventedProfile, File, FileShared, Frame, FrameIndex, ProfileTypeEvented,
    SpeedscopeSchemaUrl, Value, ValueUnit,
};

fn small_file() -> File {
    File {
        schema: SpeedscopeSchemaUrl,
        shared: FileShared {
            frames: vec![Frame {
                name: "a\"b".to_string(),
                file: Some("s.rs".to_string()),
                line: Some(7),
                col: None,
            }],
        },
        profiles: vec![EventedProfile {
            type_: ProfileTypeEvented,
            name: "main\n".to_string(),
            unit: ValueUnit::Microseconds,
            start_value: Value::new(5),
            end_value: Value::new(10),
            events: vec![
                Event::OpenFrame { at: Value::new(5), frame: FrameIndex::new(0) },
                Event::CloseFrame { at: Value::new(10), frame: FrameIndex::new(0) },
            ],
        }],
        name: Some("doc".to_string()),
        active_profile_index: Some(0),
        exporter: None,
    }
}

#[test]
fn encode_small_document_exactly() {
    let mut expected = String::new();
    expected.push_str("{\"$schema\":\"https://www.speedscope.app/file-format-schema.json\",");
    expected.push_str("\"shared\":{\"frames\":[{\"name\":\"a\\\"b\",\"file\":\"s.rs\",\"line\":7}]},");
    expected.push_str("\"profiles\":[{\"type\":\"evented\",\"name\":\"main\\u000a\",");
    expected.push_str("\"unit\":\"microseconds\",\"startValue\":5,\"endValue\":10,");
    expected.push_str("\"events\":[{\"type\":\"O\",\"at\":5,\"frame\":0},");
    expected.push_str("{\"type\":\"C\",\"at\":10,\"frame\":0}]}],");
    expected.push_str("\"name\":\"doc\",\"activeProfileIndex\":0}");
    assert_eq!(encode_file(&small_file()), expected);
}

#[test]
fn encode_empty_document() {
    let file = File {
        schema: SpeedscopeSchemaUrl,
        shared: FileShared { frames: vec![] },
        profiles: vec![],
        name: None,
        active_profile_index: None,
        exporter: None,
    };
    assert_eq!(
        encode_file(&file),
        "{\"$schema\":\"https://www.speedscope.app/file-format-schema.json\",\"shared\":{\"frames\":[]},\"profiles\":[]}"
    );
}

#[test]
fn encoded_document_is_valid_json() {
    let text = encode_file(&small_file());
    let parsed: serde_json::Value = serde_json::from_str(&text).expect("the encoding is JSON");
    assert_eq!(
        parsed["$schema"],
        serde_json::Value::String("https://www.speedscope.app/file-format-schema.json".to_string())
    );
    assert_eq!(parsed["shared"]["frames"][0]["name"], serde_json::Value::String("a\"b".to_string()));
    assert_eq!(parsed["profiles"][0]["name"], serde_json::Value::String("main\n".to_string()));
    assert_eq!(parsed["profiles"][0]["events"][1]["at"], serde_json::Value::from(10u64));
    assert_eq!(parsed["profiles"][0]["unit"], serde_json::Value::String("microseconds".to_string()));
}

#[test]
fn encode_large_numbers() {
    let file = File {
        schema: SpeedscopeSchemaUrl,
        shared: FileShared { frames: vec![] },
        profiles: vec![EventedProfile {
            type_: ProfileTypeEvented,
            name: "n".to_string(),
            unit: ValueUnit::Microseconds,
            start_value: Value::new(0),
            end_value: Value::new(u64::MAX),
            events: vec![],
        }],
        name: None,
        active_profile_index: None,
        exporter: None,
    };
    let text = encode_file(&file);
    assert!(text.contains("\"startValue\":0"));
    assert!(text.contains("\"endValue\":18446744073709551615"));
    assert!(text.contains("\"events\":[]"));
}
