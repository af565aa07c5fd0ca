use orrin_core::editor::dock::{
    default_tab_groups, restore_neighbour, toggle_action, toggle_float_action, DockAction, Tab, TabPlace,
};
use orrin_core::editor::inspector::{name_of, UNNAMED};
use orrin_core::editor::prefs::{PrefsFile, FILE};
use orrin_core::editor::state::{Applied, EditorState, Requests, SceneRequest, SpawnKind, DEFAULT_SCENE_PATH};
use orrin_core::entity::Entity;

#[test]
fn every_tab_has_its_title() {
    let titles: Vec<_> = Tab::ALL.iter().map(|tab| tab.title()).collect();
    assert_eq!(
        titles,
        vec!["Hierarchy", "Inspector", "Environment", "Performance", "Scene", "Console", "Scripts"]
    );
}

#[test]
fn preferences_live_in_the_editor_directory() {
    assert_eq!(FILE, "editor.ron");
    let file = PrefsFile::new(Some("/proj/.orrin".to_string()));
    assert_eq!(file.path().as_deref(), Some("/proj/.orrin/editor.ron"));
    assert_eq!(file.directory(), Some("/proj/.orrin"));
    let file = PrefsFile::new(Some("/proj/.orrin/".to_string()));
    assert_eq!(file.path().as_deref(), Some("/proj/.orrin/editor.ron"));
    let file = PrefsFile::new(Some(String::new()));
    assert_eq!(file.path().as_deref(), Some("editor.ron"));
}

#[test]
fn a_session_without_a_project_has_no_preferences_file() {
    let file = PrefsFile::new(None);
    assert_eq!(file.path(), None);
    assert_eq!(file.directory(), None);
}

#[test]
fn the_inspector_names_a_handle_by_its_first_option() {
    let options = vec![("Brick".to_string(), 3), ("Stone".to_string(), 5), ("Copy".to_string(), 3)];
    assert_eq!(name_of(&options, Some(3)), "Brick");
    assert_eq!(name_of(&options, Some(5)), "Stone");
    assert_eq!(name_of(&options, Some(9)), UNNAMED);
    assert_eq!(name_of(&options, None), "—");
}

#[test]
fn requests_wait_for_the_frame_to_apply_them() {
    let mut state = EditorState::default();
    assert_eq!(state.scene_path, DEFAULT_SCENE_PATH);
    state.request_spawn(SpawnKind::Cube);
    state.request_scene(SceneRequest::Save);
    let taken = state.take_requests();
    assert_eq!(taken, Requests { spawn: Some(SpawnKind::Cube), despawn: None, scene: Some(SceneRequest::Save) });
    assert_eq!(state.take_requests(), Requests { spawn: None, despawn: None, scene: None });

    assert!(!state.take_script_reload_request());
    state.request_script_reload();
    assert!(state.take_script_reload_request());
    assert!(!state.take_script_reload_request());
}

#[test]
fn the_selection_follows_what_was_applied() {
    let cube = Entity { index: 4, generation: 0 };
    let other = Entity { index: 5, generation: 0 };
    let mut state = EditorState::default();
    state.applied(Applied { spawned: Some(cube), despawned: None, loaded: false });
    assert_eq!(state.selected, Some(cube));
    state.applied(Applied { spawned: None, despawned: Some(other), loaded: false });
    assert_eq!(state.selected, Some(cube));
    state.request_despawn(cube);
    state.applied(Applied { spawned: None, despawned: Some(cube), loaded: false });
    assert_eq!(state.selected, None);
    state.applied(Applied { spawned: Some(other), despawned: None, loaded: true });
    assert_eq!(state.selected, None);
}

#[test]
fn the_default_layout_holds_every_tool_exactly_once() {
    let layout = default_tab_groups();
    for tab in Tab::ALL {
        assert_eq!(
            layout.iter().flatten().filter(|t| **t == tab).count(),
            1,
            "{} is not in the default layout exactly once",
            tab.title()
        );
    }
}

#[test]
fn a_reopened_tool_comes_back_beside_its_default_neighbour() {
    let open = [Tab::Hierarchy, Tab::Scene, Tab::Performance, Tab::Inspector];
    assert_eq!(restore_neighbour(Tab::Environment, &open), Some(Tab::Performance));
    assert_eq!(restore_neighbour(Tab::Scripts, &open), None);
    assert_eq!(restore_neighbour(Tab::Hierarchy, &open), None);
    assert_eq!(
        toggle_action(Tab::Console, TabPlace::Closed, &[Tab::Scripts]),
        DockAction::Restore { beside: Some(Tab::Scripts) }
    );
    assert_eq!(toggle_action(Tab::Console, TabPlace::Docked, &[Tab::Console]), DockAction::Close);
    assert_eq!(toggle_action(Tab::Console, TabPlace::Floating, &[Tab::Console]), DockAction::Close);
}

#[test]
fn floating_is_symmetric() {
    let open = [Tab::Environment, Tab::Scene];
    assert_eq!(toggle_float_action(Tab::Scene, TabPlace::Docked, &open), DockAction::Float);
    assert_eq!(
        toggle_float_action(Tab::Scene, TabPlace::Floating, &open),
        DockAction::Return { beside: Some(Tab::Environment) }
    );
    assert_eq!(toggle_float_action(Tab::Scene, TabPlace::Closed, &open), DockAction::Nothing);
    assert!(TabPlace::Floating.is_floating() && TabPlace::Floating.is_open());
    assert!(!TabPlace::Docked.is_floating() && TabPlace::Docked.is_open());
    assert!(!TabPlace::Closed.is_open());
}
