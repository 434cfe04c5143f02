use hotglsl::{
    observe, path_is_shader_file, shader_file, shaders_related_to_event, watch_mode, watch_targets,
    Event, Observed, ShaderType, WatchMode,
};

fn seen(path: &str, extension: Option<&str>, is_file: bool) -> Observed {
    Observed {
        path: path.to_string(),
        extension: extension.map(|e| e.to_string()),
        is_file,
    }
}

#[test]
fn a_regular_file_with_a_glsl_extension_is_a_shader_file() {
    for ext in ["vert", "frag", "comp", "vs", "fs", "cs"] {
        let path = format!("shader.{}", ext);
        assert!(path_is_shader_file(&seen(&path, Some(ext), true)));
    }
}

#[test]
fn a_text_file_is_no_shader_file() {
    assert!(!path_is_shader_file(&seen("shader.txt", Some("txt"), true)));
}

#[test]
fn a_directory_is_no_shader_file() {
    // A directory may well be named like a shader.
    assert!(!path_is_shader_file(&seen("shaders.vert", Some("vert"), false)));
    assert!(!path_is_shader_file(&seen("shaders", None, false)));
}

#[test]
fn a_missing_path_is_no_shader_file() {
    assert!(!path_is_shader_file(&seen("gone.frag", Some("frag"), false)));
}

#[test]
fn a_file_without_extension_is_no_shader_file() {
    assert!(!path_is_shader_file(&seen("vert", None, true)));
}

#[test]
fn an_extension_in_another_case_is_no_shader_extension() {
    assert!(!path_is_shader_file(&seen("a.VERT", Some("VERT"), true)));
    assert!(!path_is_shader_file(&seen("a.Frag", Some("Frag"), true)));
}

#[test]
fn shader_file_keeps_the_path_and_tells_the_stage() {
    let file = shader_file(seen("dir/a.vs", Some("vs"), true)).unwrap();
    assert_eq!(file.path, "dir/a.vs");
    assert_eq!(file.stage, ShaderType::Vertex);
    let file = shader_file(seen("b.comp", Some("comp"), true)).unwrap();
    assert_eq!(file.path, "b.comp");
    assert_eq!(file.stage, ShaderType::Compute);
}

#[test]
fn shader_file_of_what_is_none() {
    assert!(shader_file(seen("a.txt", Some("txt"), true)).is_none());
    assert!(shader_file(seen("a.vert", Some("vert"), false)).is_none());
    assert!(shader_file(seen("a", None, true)).is_none());
}

#[test]
fn an_event_relates_to_its_shader_files_in_order() {
    let event = Event {
        paths: vec![
            seen("a.vert", Some("vert"), true),
            seen("notes.txt", Some("txt"), true),
            seen("b.frag", Some("frag"), true),
            seen("gone.cs", Some("cs"), false),
            seen("a.vert", Some("vert"), true),
        ],
    };
    let shaders = shaders_related_to_event(event);
    let paths: Vec<&str> = shaders.iter().map(|f| f.path.as_str()).collect();
    assert_eq!(paths, vec!["a.vert", "b.frag", "a.vert"]);
    assert_eq!(shaders[0].stage, ShaderType::Vertex);
    assert_eq!(shaders[1].stage, ShaderType::Fragment);
}

#[test]
fn an_event_without_paths_relates_to_nothing() {
    assert!(shaders_related_to_event(Event { paths: vec![] }).is_empty());
}

#[test]
fn observe_keeps_the_path_and_finds_the_extension() {
    let seen = observe("no/such/dir/a.vert".to_string());
    assert_eq!(seen.path, "no/such/dir/a.vert");
    assert_eq!(seen.extension.as_deref(), Some("vert"));
    assert!(!seen.is_file);
    assert!(!path_is_shader_file(&seen));
}

#[test]
fn observe_finds_no_extension_where_there_is_none() {
    assert_eq!(observe("no/such/dir/Makefile".to_string()).extension, None);
    // A leading dot starts a hidden file's name, not an extension.
    assert_eq!(observe("no/such/dir/.vert".to_string()).extension, None);
    assert_eq!(observe("a.tar.fs".to_string()).extension.as_deref(), Some("fs"));
}

#[test]
fn observe_tells_a_directory_from_a_file() {
    assert!(!observe("/".to_string()).is_file);
    assert!(!observe(".".to_string()).is_file);
}

#[test]
fn observed_events_keep_the_order_of_their_paths() {
    let event = Event::observed(vec![
        "no/such/a.vert".to_string(),
        "no/such/b.txt".to_string(),
        "no/such/a.vert".to_string(),
    ]);
    let paths: Vec<&str> = event.paths.iter().map(|o| o.path.as_str()).collect();
    assert_eq!(paths, vec!["no/such/a.vert", "no/such/b.txt", "no/such/a.vert"]);
    // None of them is there, so none is a shader file.
    assert!(shaders_related_to_event(event).is_empty());
}

#[test]
fn a_directory_is_watched_with_what_is_below_it() {
    assert_eq!(watch_mode(true), WatchMode::Recursive);
    assert_eq!(watch_mode(false), WatchMode::NonRecursive);
}

#[test]
fn watch_targets_keep_the_paths_and_tell_directories() {
    let targets = watch_targets(vec!["/".to_string(), "no/such/file.vert".to_string()]);
    assert_eq!(targets.len(), 2);
    assert_eq!(targets[0].path, "/");
    assert_eq!(targets[0].mode, WatchMode::Recursive);
    assert_eq!(targets[1].path, "no/such/file.vert");
    assert_eq!(targets[1].mode, WatchMode::NonRecursive);
}

#[test]
fn observe_sees_a_regular_file() {
    // Where there is a /proc, it names the running program, a regular file
    // without an extension.
    let program = "/proc/self/exe";
    if std::path::Path::new(program).exists() {
        let seen = observe(program.to_string());
        assert!(seen.is_file);
        assert_eq!(seen.extension, None);
        assert!(!path_is_shader_file(&seen));
        let targets = watch_targets(vec![program.to_string()]);
        assert_eq!(targets[0].mode, WatchMode::NonRecursive);
    }
}
