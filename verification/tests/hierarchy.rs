use orrin_core::editor::hierarchy::{contains, resolve_visible, visible_rows};

fn labels(names: &[&str]) -> Vec<String> {
    names.iter().map(|name| name.to_string()).collect()
}

#[test]
fn searching_hides_the_rows_that_do_not_match() {
    let rows = labels(&["Ground plane", "Key light"]);
    let children = vec![Vec::new(), Vec::new()];
    assert_eq!(visible_rows(&rows, &children, "key"), vec![false, true]);
}

#[test]
fn a_parent_survives_a_search_its_child_matches() {
    let rows = labels(&["Rig", "Muzzle flash", "Holster"]);
    let children = vec![vec![1, 2], Vec::new(), Vec::new()];
    assert_eq!(visible_rows(&rows, &children, "muzzle"), vec![true, true, false]);
}

#[test]
fn a_match_lights_up_its_whole_ancestry() {
    let rows = labels(&["World", "Player", "Camera", "Sun"]);
    let children = vec![vec![1, 3], vec![2], Vec::new(), Vec::new()];
    assert_eq!(visible_rows(&rows, &children, "  CAM "), vec![true, true, true, false]);
}

#[test]
fn an_empty_query_keeps_every_row() {
    let rows = labels(&["a", "b"]);
    let children = vec![Vec::new(), Vec::new()];
    assert_eq!(visible_rows(&rows, &children, "   "), vec![true, true]);
    assert_eq!(visible_rows(&rows, &children, "zzz"), vec![false, false]);
}

#[test]
fn a_match_keeps_its_ancestors_and_nothing_else() {
    let children = vec![vec![1, 4], vec![2, 3], Vec::new(), Vec::new(), Vec::new()];
    assert_eq!(
        resolve_visible(vec![false, false, false, true, false], &children),
        vec![true, true, false, true, false]
    );
    assert_eq!(resolve_visible(vec![false; 5], &children), vec![false; 5]);
}

#[test]
fn containment_is_character_for_character() {
    assert!(contains("muzzle flash", "flash"));
    assert!(contains("abc", ""));
    assert!(!contains("ab", "abc"));
    assert!(!contains("Muzzle", "muzzle"));
}

#[test]
fn a_query_is_trimmed_of_any_unicode_whitespace() {
    let rows = labels(&["Camera", "Sun"]);
    let children = vec![Vec::new(), Vec::new()];
    for query in ["\u{3000}cam\u{2003}", "\t\ncam\r\u{85}", "\u{a0}CAM\u{202f}"] {
        assert_eq!(visible_rows(&rows, &children, query), vec![true, false], "{query:?}");
    }
    assert_eq!(visible_rows(&rows, &children, "\u{2029}\u{1680}\u{205f}"), vec![true, true]);
    assert_eq!(visible_rows(&rows, &children, "c a"), vec![false, false]);
}
