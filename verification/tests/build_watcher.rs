use std::path::Path;
use std::time::Duration;

use orrin_core::text::decimal_text;

use orrin_core::build_watcher::{
    build_location, failure_lines, LogLine, is_script_source, BuildEvent, BuildMessage, BuildState, BuildStatus, DEBOUNCE_NS, Debounce, LogLevel, MAX_DIAGNOSTICS,
};

fn text(path: &Path) -> &str {
    path.to_str().unwrap()
}

#[test]
fn the_build_location_comes_from_the_assembly_path() {
    let dll = Path::new("/proj/scripts/bin/Debug/net10.0/MyGame.dll");

    assert_eq!(
        build_location(text(dll)).map(|(project, configuration)| (Path::new(project), configuration)),
        Some((Path::new("/proj/scripts"), "Debug"))
    );
}

#[test]
fn an_assembly_outside_a_bin_layout_has_no_build_location() {
    assert_eq!(build_location(text(Path::new("/tmp/MyGame.dll"))), None);
    assert_eq!(build_location(text(Path::new("/tmp/out/Debug/net10.0/MyGame.dll"))), None);
}

#[test]
fn sources_are_watched_and_build_output_is_not() {
    let root = Path::new("/proj/scripts");

    assert!(is_script_source(text(root), text(&root.join("Player.cs"))));
    assert!(is_script_source(text(root), text(&root.join("nested/Enemy.cs"))));
    assert!(is_script_source(text(root), text(&root.join("MyGame.csproj"))));

    assert!(!is_script_source(text(root), text(&root.join("obj/Debug/net10.0/MyGame.AssemblyInfo.cs"))));
    assert!(!is_script_source(text(root), text(&root.join("bin/Debug/net10.0/MyGame.dll"))));

    assert!(!is_script_source(text(root), text(&root.join("readme.md"))));
    assert!(!is_script_source(text(root), text(&root.join(".#Player.cs"))));
}

#[test]
fn a_bin_directory_above_the_project_does_not_exclude_its_sources() {
    let root = Path::new("/bin/proj/scripts");

    assert!(is_script_source(text(root), text(&root.join("Player.cs"))));
}

#[test]
fn a_project_directly_under_the_root_is_the_root() {
    assert_eq!(build_location("/bin/Release/net8.0/Game.dll"), Some(("/", "Release")));
    assert_eq!(build_location("bin/Release/net8.0/Game.dll"), Some(("", "Release")));
    assert_eq!(build_location("/a//b/bin/Debug/net/x.dll"), Some(("/a//b", "Debug")));
    assert_eq!(build_location("/a/bin/../net/x.dll"), None);
}

#[test]
fn paths_outside_the_root_are_judged_whole() {
    assert!(!is_script_source("/proj/scripts", "/elsewhere/bin/Thing.cs"));
    assert!(is_script_source("/proj/scripts", "/elsewhere/Thing.cs"));
    assert!(!is_script_source("/proj/scripts", "/proj/scripts"));
    assert!(!is_script_source("/proj/scripts", "/proj/scripts/Makefile"));
    assert!(!is_script_source("/proj/scripts", "/proj/scripts/notes.cs.bak"));
    assert!(is_script_source("/proj/scripts", "/proj/scripts/./Player.cs"));
}

fn texts(log: &[LogLine]) -> Vec<String> {
    log.iter().map(|line| line.message.text().expect("worded by the library")).collect()
}

#[test]
fn a_failure_names_at_most_twelve_lines_and_counts_the_rest() {
    let diagnostics: Vec<String> = (0..15).map(|i| format!("error CS{i}")).collect();
    let mut log = Vec::new();
    BuildEvent::Failed { diagnostics }.log_into(&mut log, 7);
    assert_eq!(log.len(), 1 + MAX_DIAGNOSTICS + 1);
    assert!(matches!(log[0].message, BuildMessage::BuildFailed));
    assert!(matches!(&log[1].message, BuildMessage::Diagnostic(line) if line == "error CS0"));
    assert!(matches!(&log[12].message, BuildMessage::Diagnostic(line) if line == "error CS11"));
    assert!(matches!(log[13].message, BuildMessage::Hidden(3)));
    assert!(log.iter().all(|line| line.level == LogLevel::Error && line.frame == 7));
    let words = texts(&log);
    assert_eq!(words[0], "script build failed; still running the previous build");
    assert_eq!(words[13], "... and 3 more");
}

#[test]
fn thirteen_diagnostics_show_twelve_and_count_one() {
    let diagnostics: Vec<String> = (0..13).map(|i| format!("d{i}")).collect();
    let mut log = Vec::new();
    BuildEvent::Failed { diagnostics }.log_into(&mut log, 7);
    let mut expected = vec!["script build failed; still running the previous build".to_string()];
    expected.extend((0..12).map(|i| format!("d{i}")));
    expected.push("... and 1 more".to_string());
    assert_eq!(texts(&log), expected);
    assert!(log.iter().all(|line| line.level == LogLevel::Error && line.frame == 7));
}

#[test]
fn a_short_failure_is_shown_whole() {
    let mut log = Vec::new();
    BuildEvent::Failed { diagnostics: vec!["one".to_string(), "two".to_string()] }.log_into(&mut log, 1);
    assert_eq!(log.len(), 3);
    assert!(matches!(&log[2].message, BuildMessage::Diagnostic(line) if line == "two"));

    let mut log = Vec::new();
    BuildEvent::Started.log_into(&mut log, 3);
    BuildEvent::Unavailable { reason: "dotnet not found".to_string() }.log_into(&mut log, 3);
    assert_eq!(log.len(), 2);
    assert_eq!(log[0].level, LogLevel::Info);
    assert_eq!(log[1].level, LogLevel::Error);
    assert_eq!(texts(&log), vec!["scripts changed; rebuilding", "script build could not run: dotnet not found"]);
    assert!(log.iter().all(|line| line.frame == 3));
}

#[test]
fn counts_are_written_in_decimal() {
    assert_eq!(decimal_text(0), "0");
    assert_eq!(decimal_text(7), "7");
    assert_eq!(decimal_text(10), "10");
    assert_eq!(decimal_text(1203), "1203");
    assert_eq!(decimal_text(usize::MAX), usize::MAX.to_string());
    assert_eq!(BuildMessage::Hidden(250).text().unwrap(), "... and 250 more");
    assert_eq!(BuildMessage::Rebuilt(Duration::from_secs(1)).text(), None);
}

#[test]
fn the_status_follows_each_event() {
    let mut status = BuildStatus::default();
    assert!(matches!(status.state, BuildState::Idle));
    status.observe(BuildEvent::Started);
    assert!(matches!(status.state, BuildState::Building));
    status.observe(BuildEvent::Failed { diagnostics: vec!["bad".to_string()] });
    assert!(matches!(status.state, BuildState::Failed));
    assert_eq!(status.diagnostics, vec!["bad".to_string()]);
    status.observe(BuildEvent::Succeeded { duration: Duration::from_millis(1500) });
    assert!(matches!(status.state, BuildState::Succeeded));
    assert!(status.diagnostics.is_empty());
    assert_eq!(status.last_duration, Some(Duration::from_millis(1500)));
    status.disable("watcher stopped".to_string());
    assert!(matches!(&status.state, BuildState::Off(reason) if reason == "watcher stopped"));
}

#[test]
fn a_green_build_reloads_only_when_asked_to() {
    let mut status = BuildStatus::default();
    let mut log = Vec::new();
    let events = vec![BuildEvent::Started, BuildEvent::Succeeded { duration: Duration::from_secs(2) }];
    assert!(status.service(events, &mut log, 4));
    assert_eq!(log.len(), 2);

    status.auto_reload = false;
    let events = vec![BuildEvent::Succeeded { duration: Duration::from_secs(1) }];
    assert!(!status.service(events, &mut log, 5));
    assert!(matches!(status.state, BuildState::Succeeded));

    status.auto_reload = true;
    let events = vec![BuildEvent::Failed { diagnostics: Vec::new() }];
    assert!(!status.service(events, &mut log, 5));
    assert!(matches!(status.state, BuildState::Failed));
}

#[test]
fn a_burst_of_saves_builds_once_after_the_last() {
    let mut timers = Debounce::new();
    let step = timers.poll(true, false, 0);
    assert!(!step.start_build);
    let step = timers.poll(true, false, 200_000_000);
    assert!(!step.start_build);
    // Quiet for less than the debounce since the last save.
    let step = timers.poll(false, false, 400_000_000);
    assert!(!step.start_build);
    let step = timers.poll(false, false, 200_000_000 + DEBOUNCE_NS);
    assert!(step.start_build);
    assert_eq!(timers.pending_since, None);
    assert_eq!(timers.building_since, Some(200_000_000 + DEBOUNCE_NS));
    // Nothing more to build.
    assert!(!timers.poll(false, false, 10_000_000_000).start_build);
}

#[test]
fn a_save_during_a_build_starts_the_next_as_it_lands() {
    let mut timers = Debounce::new();
    timers.poll(true, false, 0);
    assert!(timers.poll(false, false, DEBOUNCE_NS).start_build);
    // Saved while compiling: it waits for the build in flight.
    assert!(!timers.poll(true, false, DEBOUNCE_NS + 10).start_build);
    assert!(!timers.poll(false, false, 5 * DEBOUNCE_NS).start_build);
    let step = timers.poll(false, true, 6 * DEBOUNCE_NS);
    assert_eq!(step.finished_after, Some(5 * DEBOUNCE_NS));
    assert!(step.start_build);
}

#[test]
fn an_undiagnosed_failure_shows_the_end_of_the_log() {
    let log: Vec<String> = (1..=8).map(|n| format!("line {n}")).collect();
    assert_eq!(failure_lines(Vec::new(), &log), vec!["line 4", "line 5", "line 6", "line 7", "line 8"]);
    assert_eq!(failure_lines(Vec::new(), &log[..2]), vec!["line 1", "line 2"]);
    let diagnostics = vec!["Player.cs(3,1): error CS1002: ; expected".to_string()];
    assert_eq!(failure_lines(diagnostics.clone(), &log), diagnostics);
}

/// What the standard library's path functions give for the build location.
fn std_build_location(game_dll: &Path) -> Option<(&Path, &str)> {
    let tfm = game_dll.parent()?;
    let configuration = tfm.parent()?;
    let bin = configuration.parent()?;
    if bin.file_name()? != "bin" {
        return None;
    }
    Some((bin.parent()?, configuration.file_name()?.to_str()?))
}

/// What the standard library's path functions say of a changed path.
fn std_script_source(root: &Path, path: &Path) -> bool {
    let relative = path.strip_prefix(root).unwrap_or(path);
    if relative.components().any(|part| matches!(part.as_os_str().to_str(), Some("bin" | "obj"))) {
        return false;
    }
    if path.file_name().and_then(|name| name.to_str()).is_none_or(|name| name.starts_with('.')) {
        return false;
    }
    matches!(path.extension().and_then(|e| e.to_str()), Some("cs" | "csproj"))
}

#[test]
fn a_leading_current_directory_is_kept() {
    assert_eq!(build_location("./bin/D/n/x"), Some((".", "D")));
    assert_eq!(build_location("./a/bin/D/n/x"), Some(("./a", "D")));
    assert!(!is_script_source("./bin/p", "bin/p/x.cs"));
    assert!(!is_script_source("bin/p", "./bin/p/x.cs"));
    assert!(is_script_source("./p", "./p/x.cs"));
}

#[test]
fn paths_read_as_the_standard_library_reads_them() {
    let dlls = [
        "./bin/D/n/x",
        "bin/D/n/x",
        "/bin/D/n/x",
        "/./bin/D/n/x",
        ".//bin/D/n/x",
        "a/./bin/D/n/x",
        "a/bin/./D/n/x",
        "a/bin/../n/x",
        "a/bin/D/n/x/",
        "./bin/D/n",
        "//a//bin//D//n//x",
        ".",
        "./",
        "x",
        "../bin/D/n/x",
    ];
    for dll in dlls {
        assert_eq!(
            build_location(dll).map(|(d, c)| (Path::new(d), c)),
            std_build_location(Path::new(dll)),
            "{dll}"
        );
    }
    let cases = [
        ("./bin/p", "bin/p/x.cs"),
        ("bin/p", "./bin/p/x.cs"),
        ("./p", "./p/x.cs"),
        ("/bin/p", "/bin/p/x.cs"),
        ("/p", "p/x.cs"),
        ("p", "/p/x.cs"),
        ("/p/./q", "/p/q/x.csproj"),
        ("/p", "/p/obj/x.cs"),
        ("/p", "/p/.x.cs"),
        ("/p", "/p/x."),
        ("/p", "/p/.."),
        ("", "bin/x.cs"),
        ("", "./x.cs"),
        (".", "./x.cs"),
        (".", "x.cs"),
    ];
    for (root, path) in cases {
        assert_eq!(
            is_script_source(root, path),
            std_script_source(Path::new(root), Path::new(path)),
            "{root} {path}"
        );
    }
}

#[test]
fn a_build_location_round_trips_through_its_assembly_path() {
    for dir in [".", "proj", "/home/me/proj", "a/./b", "rel/scripts", "./x"] {
        for configuration in ["Debug", "Release"] {
            let dll = Path::new(dir).join("bin").join(configuration).join("net10.0").join("Game.dll");
            assert_eq!(build_location(text(&dll)), Some((dir, configuration)), "{dir}");
            let written = format!("{dir}/bin/{configuration}/net10.0/Game.dll");
            assert_eq!(build_location(&written), Some((dir, configuration)), "{written}");
        }
    }
}
