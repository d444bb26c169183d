use tracing_timeline::profiler::{finalize, set_uniform_bounds, sort_profiles_by_start};
use tracing_timeline::speedscope::{
    Event, EventedProfile, Frame, FrameIndex, ProfileTypeEvented, SpeedscopeSchemaUrl, Value,
    ValueUnit,
};

fn profile(name: &str, start: u64, end: u64) -> EventedProfile {
    EventedProfile {
        type_: ProfileTypeEvented,
        name: name.to_string(),
        unit: ValueUnit::Microseconds,
        start_value: Value::new(start),
        end_value: Value::new(end),
        events: vec![
            Event::OpenFrame { at: Value::new(start), frame: FrameIndex::new(0) },
            Event::CloseFrame { at: Value::new(end), frame: FrameIndex::new(0) },
        ],
    }
}

#[test]
fn schema_markers() {
    assert_eq!(
        SpeedscopeSchemaUrl.url(),
        "https://www.speedscope.app/file-format-schema.json"
    );
    assert_eq!(ProfileTypeEvented.tag(), "evented");
}

#[test]
fn value_and_frame_index_constructors() {
    assert_eq!(Value::new(42).0, 42);
    assert_eq!(FrameIndex::new(7).0, 7);
    assert!(Value::new(1) < Value::new(2));
}

#[test]
fn event_accessors() {
    let o = Event::OpenFrame { at: Value::new(3), frame: FrameIndex::new(9) };
    let c = Event::CloseFrame { at: Value::new(5), frame: FrameIndex::new(9) };
    assert_eq!(o.frame().0, 9);
    assert_eq!(c.frame().0, 9);
    assert_eq!(o.at().0, 3);
    assert_eq!(c.at().0, 5);
}

#[test]
fn sort_orders_by_start() {
    let v = vec![profile("x", 30, 40), profile("y", 10, 15), profile("z", 20, 22)];
    let sorted = sort_profiles_by_start(v);
    let names: Vec<&str> = sorted.iter().map(|p| p.name.as_str()).collect();
    assert_eq!(names, vec!["y", "z", "x"]);
}

#[test]
fn sort_is_stable_on_ties() {
    let v = vec![
        profile("first", 10, 11),
        profile("second", 10, 12),
        profile("early", 5, 6),
        profile("third", 10, 13),
    ];
    let sorted = sort_profiles_by_start(v);
    let names: Vec<&str> = sorted.iter().map(|p| p.name.as_str()).collect();
    assert_eq!(names, vec!["early", "first", "second", "third"]);
}

#[test]
fn uniform_bounds_overwrite_every_profile() {
    let v = vec![profile("a", 30, 40), profile("b", 10, 15)];
    let out = set_uniform_bounds(v, Value::new(2), Value::new(99));
    assert_eq!(out.len(), 2);
    for p in &out {
        assert_eq!(p.start_value.0, 2);
        assert_eq!(p.end_value.0, 99);
    }
    // Names and events are kept.
    assert_eq!(out[0].name, "a");
    assert_eq!(out[0].events.len(), 2);
}

#[test]
fn finalize_sorts_and_normalizes() {
    let v = vec![profile("late", 30, 40), profile("soon", 10, 15)];
    let frames = vec![Frame { name: "root".to_string(), file: None, line: None, col: None }];
    let file = finalize(v, frames, Value::new(1), Value::new(50));
    assert_eq!(file.shared.frames.len(), 1);
    assert_eq!(file.shared.frames[0].name, "root");
    assert_eq!(file.profiles.len(), 2);
    assert_eq!(file.profiles[0].name, "soon");
    assert_eq!(file.profiles[1].name, "late");
    for p in &file.profiles {
        assert_eq!(p.start_value.0, 1);
        assert_eq!(p.end_value.0, 50);
    }
    assert!(file.name.is_none());
    assert!(file.active_profile_index.is_none());
    assert!(file.exporter.is_none());
}
