use hotglsl::{
    AwaitEventError, Event, NextPathError, Observed, ShaderType, Watch,
};

fn seen(path: &str, extension: Option<&str>, is_file: bool) -> Observed {
    Observed {
        path: path.to_string(),
        extension: extension.map(|e| e.to_string()),
        is_file,
    }
}

/// A change that names the given shader files, all of them there.
fn touch(paths: &[&str]) -> Result<Event, notify::Error> {
    let paths = paths
        .iter()
        .map(|p| seen(p, p.rsplit('.').next(), true))
        .collect();
    Ok(Event { paths })
}

/// A change that names only what is no shader file.
fn noise() -> Result<Event, notify::Error> {
    Ok(Event {
        paths: vec![
            seen("shader.txt", Some("txt"), true),
            seen("shaders", None, false),
            seen("gone.vert", Some("vert"), false),
        ],
    })
}

fn failure(text: &str) -> Result<Event, notify::Error> {
    Err(notify::Error::generic(text))
}

fn next(watch: &mut Watch) -> Option<String> {
    watch.try_next_path().expect("no error was expected")
}

#[test]
fn a_fresh_watch_has_nothing() {
    let mut watch = Watch::new();
    assert!(!watch.has_arrival());
    assert_eq!(next(&mut watch), None);
    assert!(watch.paths_touched().unwrap().is_empty());
}

#[test]
fn events_without_shader_paths_touch_nothing() {
    let mut watch = Watch::new();
    for _ in 0..5 {
        watch.deliver(noise());
    }
    watch.deliver(Ok(Event { paths: vec![] }));
    let touched = watch.paths_touched().unwrap();
    assert_eq!(touched.len(), 0);
    assert!(touched.is_empty());
}

#[test]
fn one_path_touched_many_times_is_in_the_set_once() {
    for n in 1..6 {
        let mut watch = Watch::new();
        for _ in 0..n {
            watch.deliver(touch(&["a.vert"]));
        }
        let touched = watch.paths_touched().unwrap();
        assert_eq!(touched.len(), 1);
        assert!(touched.contains("a.vert"));
    }
}

#[test]
fn a_second_drain_is_empty() {
    let mut watch = Watch::new();
    watch.deliver(touch(&["a.vert", "b.frag"]));
    watch.deliver(touch(&["c.comp"]));
    let first = watch.paths_touched().unwrap();
    assert_eq!(first.len(), 3);
    let second = watch.paths_touched().unwrap();
    assert_eq!(second.len(), 0);
    let third = watch.paths_touched().unwrap();
    assert!(third.is_empty());
}

#[test]
fn fetching_keeps_order_and_repeats() {
    let mut watch = Watch::new();
    watch.deliver(touch(&["A.vert"]));
    watch.deliver(touch(&["B.frag"]));
    watch.deliver(touch(&["A.vert"]));
    assert_eq!(next(&mut watch).as_deref(), Some("A.vert"));
    assert_eq!(next(&mut watch).as_deref(), Some("B.frag"));
    assert_eq!(next(&mut watch).as_deref(), Some("A.vert"));
    assert_eq!(next(&mut watch), None);
}

#[test]
fn the_paths_of_one_event_are_fetched_in_its_order() {
    let mut watch = Watch::new();
    watch.deliver(touch(&["A.vert", "B.frag", "A.vert"]));
    assert_eq!(next(&mut watch).as_deref(), Some("A.vert"));
    assert_eq!(next(&mut watch).as_deref(), Some("B.frag"));
    assert_eq!(next(&mut watch).as_deref(), Some("A.vert"));
    assert_eq!(next(&mut watch), None);
}

#[test]
fn the_set_holds_each_path_once_where_fetching_repeats() {
    let mut watch = Watch::new();
    watch.deliver(touch(&["A.vert", "B.frag", "A.vert"]));
    let touched = watch.paths_touched().unwrap();
    assert_eq!(touched.len(), 2);
    assert!(touched.contains("A.vert"));
    assert!(touched.contains("B.frag"));
    assert!(!touched.contains("C.comp"));
}

#[test]
fn what_is_no_shader_file_is_never_fetched() {
    let mut watch = Watch::new();
    watch.deliver(Ok(Event {
        paths: vec![
            seen("shader.txt", Some("txt"), true),
            seen("a.vert", Some("vert"), true),
            seen("dir.frag", Some("frag"), false),
            seen("gone.cs", Some("cs"), false),
            seen("b.fs", Some("fs"), true),
            seen("noext", None, true),
        ],
    }));
    assert_eq!(next(&mut watch).as_deref(), Some("a.vert"));
    assert_eq!(next(&mut watch).as_deref(), Some("b.fs"));
    assert_eq!(next(&mut watch), None);
}

#[test]
fn silent_events_are_passed_over_by_one_fetch() {
    let mut watch = Watch::new();
    watch.deliver(noise());
    watch.deliver(noise());
    watch.deliver(touch(&["late.comp"]));
    // One call passes both silent events and hands out the path.
    assert_eq!(next(&mut watch).as_deref(), Some("late.comp"));
    assert_eq!(next(&mut watch), None);
}

#[test]
fn only_silent_events_give_nothing_yet() {
    let mut watch = Watch::new();
    watch.deliver(noise());
    watch.deliver(noise());
    assert_eq!(next(&mut watch), None);
    assert!(!watch.has_arrival());
}

#[test]
fn idle_is_told_from_closed() {
    let mut watch = Watch::new();
    assert!(matches!(watch.try_next_path(), Ok(None)));
    assert!(matches!(watch.try_next_path(), Ok(None)));
    watch.close();
    assert!(matches!(watch.try_next_path(), Err(NextPathError::ChannelClosed)));
    assert!(matches!(watch.try_next_path(), Err(NextPathError::ChannelClosed)));
}

#[test]
fn what_arrived_before_the_source_went_is_still_fetched() {
    let mut watch = Watch::new();
    watch.deliver(touch(&["a.vert"]));
    watch.close();
    assert_eq!(next(&mut watch).as_deref(), Some("a.vert"));
    assert!(matches!(watch.try_next_path(), Err(NextPathError::ChannelClosed)));
}

#[test]
fn pending_paths_go_before_the_inbox() {
    let mut watch = Watch::new();
    watch.deliver(touch(&["a.vert", "b.frag"]));
    watch.await_event().unwrap();
    watch.deliver(failure("late"));
    // The two pending paths come first, then the error.
    assert_eq!(next(&mut watch).as_deref(), Some("a.vert"));
    assert_eq!(next(&mut watch).as_deref(), Some("b.frag"));
    assert!(matches!(watch.try_next_path(), Err(NextPathError::Notify { .. })));
    assert_eq!(next(&mut watch), None);
}

#[test]
fn an_error_event_is_returned_with_its_cause() {
    let mut watch = Watch::new();
    watch.deliver(failure("queue overflow"));
    match watch.try_next_path() {
        Err(NextPathError::Notify { err }) => assert_eq!(err.to_string(), "queue overflow"),
        _ => panic!("the error of the event was expected"),
    }
    // The error does not close the source.
    assert!(matches!(watch.try_next_path(), Ok(None)));
}

#[test]
fn an_error_leaves_later_events_for_later() {
    let mut watch = Watch::new();
    watch.deliver(noise());
    watch.deliver(failure("first"));
    watch.deliver(touch(&["after.vert"]));
    assert!(matches!(watch.try_next_path(), Err(NextPathError::Notify { .. })));
    assert_eq!(next(&mut watch).as_deref(), Some("after.vert"));
}

#[test]
fn an_error_fails_the_whole_drain() {
    let mut watch = Watch::new();
    watch.deliver(touch(&["a.vert"]));
    watch.deliver(touch(&["b.frag"]));
    watch.deliver(failure("lost events"));
    watch.deliver(touch(&["c.comp"]));
    match watch.paths_touched() {
        Err(NextPathError::Notify { err }) => assert_eq!(err.to_string(), "lost events"),
        _ => panic!("the drain was expected to fail"),
    }
    // What was gathered before the error is gone; what came after is kept.
    let touched = watch.paths_touched().unwrap();
    assert_eq!(touched.len(), 1);
    assert!(touched.contains("c.comp"));
    assert!(!touched.contains("a.vert"));
}

#[test]
fn the_first_of_two_errors_fails_the_drain() {
    let mut watch = Watch::new();
    watch.deliver(failure("one"));
    watch.deliver(failure("two"));
    match watch.paths_touched() {
        Err(NextPathError::Notify { err }) => assert_eq!(err.to_string(), "one"),
        _ => panic!("the drain was expected to fail"),
    }
    match watch.paths_touched() {
        Err(NextPathError::Notify { err }) => assert_eq!(err.to_string(), "two"),
        _ => panic!("the drain was expected to fail"),
    }
    assert!(watch.paths_touched().unwrap().is_empty());
}

#[test]
fn a_drain_of_a_closed_watch_fails() {
    let mut watch = Watch::new();
    watch.deliver(touch(&["a.vert"]));
    watch.close();
    assert!(matches!(watch.paths_touched(), Err(NextPathError::ChannelClosed)));
    assert!(matches!(watch.paths_touched(), Err(NextPathError::ChannelClosed)));
}

#[test]
fn await_event_buffers_the_shader_files_of_a_change() {
    let mut watch = Watch::new();
    watch.deliver(touch(&["a.vert", "b.frag"]));
    watch.deliver(touch(&["c.comp"]));
    assert!(watch.has_arrival());
    assert!(watch.await_event().is_ok());
    // Only the oldest event was taken in.
    assert!(watch.has_arrival());
    assert!(watch.await_event().is_ok());
    assert!(!watch.has_arrival());
    assert_eq!(next(&mut watch).as_deref(), Some("a.vert"));
    assert_eq!(next(&mut watch).as_deref(), Some("b.frag"));
    assert_eq!(next(&mut watch).as_deref(), Some("c.comp"));
    assert_eq!(next(&mut watch), None);
}

#[test]
fn await_event_succeeds_on_a_silent_change() {
    let mut watch = Watch::new();
    watch.deliver(noise());
    assert!(watch.await_event().is_ok());
    assert_eq!(next(&mut watch), None);
}

#[test]
fn await_event_returns_the_error_of_an_error_event() {
    let mut watch = Watch::new();
    watch.deliver(touch(&["a.vert"]));
    watch.await_event().unwrap();
    watch.deliver(failure("broken"));
    match watch.await_event() {
        Err(AwaitEventError::Notify { err }) => assert_eq!(err.to_string(), "broken"),
        _ => panic!("the error of the event was expected"),
    }
    // The pending buffer is as it was.
    assert_eq!(next(&mut watch).as_deref(), Some("a.vert"));
    assert_eq!(next(&mut watch), None);
}

#[test]
fn await_event_on_a_closed_watch_fails() {
    let mut watch = Watch::new();
    watch.close();
    assert!(watch.has_arrival());
    assert!(matches!(watch.await_event(), Err(AwaitEventError::ChannelClosed)));
    assert!(matches!(watch.await_event(), Err(AwaitEventError::ChannelClosed)));
}

#[test]
fn await_event_takes_what_arrived_before_the_source_went() {
    let mut watch = Watch::new();
    watch.deliver(touch(&["a.vert"]));
    watch.close();
    assert!(watch.await_event().is_ok());
    assert!(matches!(watch.await_event(), Err(AwaitEventError::ChannelClosed)));
}

#[test]
fn compile_touched_queues_each_touched_file_once() {
    let mut watch = Watch::new();
    watch.deliver(touch(&["a.vert"]));
    watch.deliver(touch(&["b.frag"]));
    watch.deliver(touch(&["a.vert"]));
    let mut queue = watch.compile_touched().unwrap();
    assert_eq!(queue.len(), 2);
    let mut found = Vec::new();
    while let Some(file) = queue.next_file() {
        found.push((file.path, file.stage));
    }
    found.sort_by(|a, b| a.0.cmp(&b.0));
    assert_eq!(
        found,
        vec![
            ("a.vert".to_string(), ShaderType::Vertex),
            ("b.frag".to_string(), ShaderType::Fragment),
        ]
    );
    // The queue is passed once: it stays empty.
    assert_eq!(queue.len(), 0);
    assert!(queue.next_file().is_none());
    assert!(queue.next_file().is_none());
}

#[test]
fn compile_touched_drains_the_watch() {
    let mut watch = Watch::new();
    watch.deliver(touch(&["a.vert"]));
    assert_eq!(watch.compile_touched().unwrap().len(), 1);
    assert_eq!(watch.compile_touched().unwrap().len(), 0);
    assert!(watch.paths_touched().unwrap().is_empty());
}

#[test]
fn compile_touched_fails_before_any_queue_is_made() {
    let mut watch = Watch::new();
    watch.deliver(touch(&["a.vert"]));
    watch.deliver(failure("overflow"));
    match watch.compile_touched() {
        Err(NextPathError::Notify { err }) => assert_eq!(err.to_string(), "overflow"),
        _ => panic!("the drain was expected to fail"),
    }
    let mut closed = Watch::new();
    closed.close();
    assert!(matches!(closed.compile_touched(), Err(NextPathError::ChannelClosed)));
}

#[test]
fn the_set_can_be_taken_apart() {
    let mut watch = Watch::new();
    watch.deliver(touch(&["b.frag", "a.vert", "b.frag"]));
    let files = watch.paths_touched().unwrap().into_files();
    let paths: Vec<&str> = files.iter().map(|f| f.path.as_str()).collect();
    assert_eq!(paths, vec!["b.frag", "a.vert"]);
}
