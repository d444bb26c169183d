use tracing_timeline::frame::{get_frames_clone, register_frame, CallSite, SharedRegistry};
use tracing_timeline::profiler::{NeedsComplete, Profiler, Span};
use tracing_timeline::speedscope::{Event, Frame, Value, ValueUnit};

fn named_frame(name: &str) -> Frame {
    Frame { name: name.to_string(), file: None, line: None, col: None }
}

fn located_frame(name: &str, file: &str, line: u32, col: u32) -> Frame {
    Frame { name: name.to_string(), file: Some(file.to_string()), line: Some(line), col: Some(col) }
}

fn event_parts(e: &Event) -> (bool, u64, u32) {
    match e {
        Event::OpenFrame { at, frame } => (true, at.0, frame.0),
        Event::CloseFrame { at, frame } => (false, at.0, frame.0),
    }
}

#[test]
fn end_to_end_scenario() {
    let profiler = Profiler::new();
    let registry = profiler.registry();
    let mut thread = profiler.thread("main".to_string());
    let a = register_frame(&registry, named_frame("A"));
    let b = register_frame(&registry, named_frame("B"));
    let sa = thread.span(a);
    let sb = thread.span(b);
    thread.close(sb);
    thread.close(sa);
    thread.complete();

    let file = profiler.complete().expect("no other handles are outstanding");
    assert_eq!(file.shared.frames.len(), 3);
    assert_eq!(file.shared.frames[0].name, "main");
    assert_eq!(file.shared.frames[1].name, "A");
    assert_eq!(file.shared.frames[2].name, "B");
    assert_eq!(file.profiles.len(), 1);

    let profile = &file.profiles[0];
    assert_eq!(profile.name, "main");
    assert!(matches!(profile.unit, ValueUnit::Microseconds));
    assert_eq!(profile.events.len(), 6);
    let parts: Vec<(bool, u64, u32)> = profile.events.iter().map(event_parts).collect();
    let root = parts[0].2;
    assert_eq!(
        parts.iter().map(|p| (p.0, p.2)).collect::<Vec<_>>(),
        vec![(true, root), (true, a.0), (true, b.0), (false, b.0), (false, a.0), (false, root)]
    );
    for w in parts.windows(2) {
        assert!(w[0].1 <= w[1].1, "timestamps must be non-decreasing");
    }
    assert!(profile.start_value.0 <= parts[0].1);
    assert!(parts[parts.len() - 1].1 <= profile.end_value.0);
}

#[test]
fn registry_idempotence() {
    let registry = SharedRegistry::new();
    let site = CallSite::new();
    let first = site.get_or_register(&registry, located_frame("work", "main.rs", 10, 5));
    for _ in 0..9 {
        let again = site.get_or_register(&registry, located_frame("work", "main.rs", 10, 5));
        assert_eq!(again.0, first.0);
    }
    assert_eq!(get_frames_clone(&registry).len(), 1);

    let other_site = CallSite::new();
    let second = other_site.get_or_register(&registry, located_frame("work", "main.rs", 77, 5));
    assert_ne!(second.0, first.0);
    assert_eq!(get_frames_clone(&registry).len(), 2);
}

#[test]
fn register_frame_assigns_dense_positions() {
    let registry = SharedRegistry::new();
    let i0 = register_frame(&registry, named_frame("zero"));
    let i1 = register_frame(&registry, located_frame("one", "lib.rs", 3, 4));
    assert_eq!(i0.0, 0);
    assert_eq!(i1.0, 1);
    let frames = get_frames_clone(&registry);
    assert_eq!(frames.len(), 2);
    assert_eq!(frames[0].name, "zero");
    assert_eq!(frames[1].name, "one");
    assert_eq!(frames[1].file.as_deref(), Some("lib.rs"));
    assert_eq!(frames[1].line, Some(3));
    assert_eq!(frames[1].col, Some(4));
}

#[test]
fn bound_normalization() {
    let profiler = Profiler::new();
    let registry = profiler.registry();
    let t1 = profiler.thread("first".to_string());
    t1.complete();
    let mut t2 = profiler.thread("second".to_string());
    let f = register_frame(&registry, named_frame("step"));
    let s = t2.span(f);
    t2.close(s);
    t2.complete();

    let file = profiler.complete().expect("both timelines completed");
    assert_eq!(file.profiles.len(), 2);
    let start = file.profiles[0].start_value;
    let end = file.profiles[0].end_value;
    for p in &file.profiles {
        assert_eq!(p.start_value.0, start.0, "every profile gets the profiler's start");
        assert_eq!(p.end_value.0, end.0, "every profile gets the finalization end");
        assert!(p.start_value.0 <= p.end_value.0);
        let parts: Vec<(bool, u64, u32)> = p.events.iter().map(event_parts).collect();
        assert!(start.0 <= parts[0].1);
        assert!(parts[parts.len() - 1].1 <= end.0);
    }
}

#[test]
fn isolation_between_timelines() {
    let profiler = Profiler::new();
    let registry = profiler.registry();
    let fa = register_frame(&registry, named_frame("alpha"));
    let fb = register_frame(&registry, named_frame("beta"));
    let mut t1 = profiler.thread("one".to_string());
    let mut t2 = profiler.thread("two".to_string());
    // Interleave work on the two timelines.
    let s1 = t1.span(fa);
    let s2 = t2.span(fb);
    let s1b = t1.span(fa);
    t1.close(s1b);
    t2.close(s2);
    t1.close(s1);
    t1.complete();
    t2.complete();

    let file = profiler.complete().expect("both timelines completed");
    assert_eq!(file.profiles.len(), 2);
    for p in &file.profiles {
        let own_root = event_parts(&p.events[0]).2;
        let own_span = if p.name == "one" { fa.0 } else { fb.0 };
        for e in &p.events {
            let (_, _, frame) = event_parts(e);
            assert!(
                frame == own_root || frame == own_span,
                "a timeline holds only its own events"
            );
        }
    }
    let one = file.profiles.iter().find(|p| p.name == "one").unwrap();
    let two = file.profiles.iter().find(|p| p.name == "two").unwrap();
    assert_eq!(one.events.len(), 6);
    assert_eq!(two.events.len(), 4);
}

#[test]
fn fork_inherits_name_prefix() {
    let profiler = Profiler::new();
    let registry = profiler.registry();
    let mut main = profiler.thread("main".to_string());
    let f = register_frame(&registry, named_frame("par"));
    let s = main.span(f);
    let worker = main.fork("w1");
    worker.complete();
    main.close(s);
    main.complete();

    let file = profiler.complete().expect("all timelines completed");
    assert_eq!(file.profiles.len(), 2);
    let names: Vec<&str> = file.profiles.iter().map(|p| p.name.as_str()).collect();
    assert!(names.contains(&"main"));
    assert!(names.contains(&"main/w1"));
    // Profiles are ordered by their recorded start instants: "main" started first.
    assert_eq!(file.profiles[0].name, "main");
}

#[test]
fn nested_forks_stack_their_labels() {
    let profiler = Profiler::new();
    let main = profiler.thread("main".to_string());
    let child = main.fork("w1");
    let grandchild = child.fork("inner");
    grandchild.complete();
    child.complete();
    main.complete();
    let file = profiler.complete().expect("all timelines completed");
    let names: Vec<&str> = file.profiles.iter().map(|p| p.name.as_str()).collect();
    assert!(names.contains(&"main"));
    assert!(names.contains(&"main/w1"));
    assert!(names.contains(&"main/w1/inner"));
}

#[test]
fn outstanding_handle_blocks_completion() {
    let profiler = Profiler::new();
    let alive = profiler.thread("still running".to_string());
    assert!(profiler.complete().is_none());
    drop(alive);
}

#[test]
fn abandoned_timeline_is_excluded() {
    let profiler = Profiler::new();
    let abandoned = profiler.thread("forgotten".to_string());
    drop(abandoned);
    let file = profiler.complete().expect("the abandoned handle was dropped");
    assert_eq!(file.profiles.len(), 0);
    // Its root frame was still registered.
    assert_eq!(file.shared.frames.len(), 1);
    assert_eq!(file.shared.frames[0].name, "forgotten");
}

#[test]
fn try_close_rejects_out_of_order_tokens() {
    let profiler = Profiler::new();
    let registry = profiler.registry();
    let fa = register_frame(&registry, named_frame("outer"));
    let fb = register_frame(&registry, named_frame("inner"));
    let mut t = profiler.thread("main".to_string());
    let sa = t.span(fa);
    let sb = t.span(fb);
    // The outer span is not the innermost open one.
    assert!(!t.try_close(Span { frame: sa.frame, depth: sa.depth }));
    assert!(t.try_close(sb));
    assert!(t.try_close(sa));
    // Nothing is open any more.
    assert!(!t.try_close(Span { frame: fa, depth: 1 }));
    t.complete();
    let file = profiler.complete().unwrap();
    assert_eq!(file.profiles[0].events.len(), 6);
}

#[test]
fn needs_complete_lifecycle() {
    let mut n = NeedsComplete::new("Thread");
    assert!(!n.completed);
    assert_eq!(n.name, "Thread");
    n.complete();
    assert!(n.completed);
}
