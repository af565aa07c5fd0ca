use orrin_core::editor::theme::{Theme, ThemeSet, BUILT_IN};

#[test]
fn selecting_an_absent_theme_keeps_the_current_one() {
    let mut set = ThemeSet::default();
    assert!(!set.select("Nothing By That Name"));
    assert_eq!(set.active().name, BUILT_IN);
}

fn named(name: &str) -> Theme {
    Theme { name: name.to_string(), ..Theme::default() }
}

#[test]
fn loaded_themes_follow_the_built_in() {
    let set = ThemeSet::with_loaded(vec![named("Void"), named("Paper")]);
    assert_eq!(set.names(), vec![BUILT_IN, "Void", "Paper"]);
    assert_eq!(set.active().name, BUILT_IN);
}

#[test]
fn selecting_changes_only_when_the_choice_moves() {
    let mut set = ThemeSet::with_loaded(vec![named("Void"), named("Paper"), named("Void")]);
    assert!(set.select("Void"));
    assert_eq!(set.active().name, "Void");
    // Already active.
    assert!(!set.select("Void"));
    assert!(set.select("Paper"));
    assert!(set.select(BUILT_IN));
    assert_eq!(set.active().accent, [80, 140, 255]);
}

#[test]
fn the_built_in_theme_is_the_default() {
    let theme = Theme::default();
    assert_eq!(theme.name, BUILT_IN);
    assert_eq!(theme.text, [214, 218, 224]);
    assert_eq!(theme.panel, [24, 25, 28]);
    assert_eq!(theme.accent, [80, 140, 255]);
}
