use love_api::game_source::{serve_file, uses_bundled_font, ArchiveIndex};
use love_api::patches::ScriptAssets;

fn index(names: &[&str]) -> ArchiveIndex {
    let mut index = ArchiveIndex::new(b"/games".to_vec());
    for name in names {
        index.add_entry(name.as_bytes(), name.ends_with('/'));
    }
    index
}

fn sorted(items: Vec<Vec<u8>>) -> Vec<String> {
    let mut names: Vec<String> = items.into_iter().map(|v| String::from_utf8(v).unwrap()).collect();
    names.sort();
    names
}

#[test]
fn files_are_found_with_either_separator() {
    let index = index(&["resources\\textures\\1x\\cards.png", "main.lua", "engine/"]);
    assert!(index.file_exists(b"resources/textures/1x/cards.png"));
    assert!(index.file_exists(b"resources\\textures\\1x\\cards.png"));
    assert!(index.file_exists(b"main.lua"));
    assert!(!index.file_exists(b"engine/"));
    assert!(!index.file_exists(b"game.lua"));
    assert_eq!(index.archive_name(b"main.lua"), Some(b"main.lua".to_vec()));
    assert_eq!(index.archive_name(b"game.lua"), None);
    assert_eq!(index.source_base_directory(), b"/games".to_vec());
}

#[test]
fn each_file_is_indexed_once() {
    let mut index = index(&["a/b.lua"]);
    index.add_entry(b"a\\b.lua", false);
    assert_eq!(sorted(index.list_directory(b"a")), vec!["b.lua"]);
}

#[test]
fn directories_are_the_prefixes_of_files() {
    let index = index(&["resources/sounds/chips1.ogg", "resources/shaders/foil.fs", "main.lua"]);
    assert!(index.is_directory(b"resources"));
    assert!(index.is_directory(b"resources/"));
    assert!(index.is_directory(b"resources\\sounds"));
    assert!(!index.is_directory(b"resource"));
    assert!(!index.is_directory(b"main.lua"));
}

#[test]
fn listings_name_each_child_once() {
    let index = index(&[
        "resources/sounds/chips1.ogg",
        "resources/sounds/chips2.ogg",
        "resources/shaders/foil.fs",
        "main.lua",
    ]);
    assert_eq!(sorted(index.list_directory(b"")), vec!["main.lua", "resources"]);
    assert_eq!(sorted(index.list_directory(b"resources")), vec!["shaders", "sounds"]);
    assert_eq!(sorted(index.list_directory(b"resources/sounds/")), vec!["chips1.ogg", "chips2.ogg"]);
    assert!(index.list_directory(b"missing").is_empty());
}

#[test]
fn the_handheld_swaps_only_the_game_font() {
    assert!(uses_bundled_font("resources/fonts/m6x11plus.ttf", true));
    assert!(uses_bundled_font("resources\\fonts\\m6x11plus.ttf", true));
    assert!(!uses_bundled_font("resources/fonts/m6x11plus.ttf", false));
    assert!(!uses_bundled_font("resources/fonts/other.ttf", true));
}

fn assets() -> ScriptAssets {
    ScriptAssets {
        menu_clock: Vec::new(),
        music: Vec::new(),
        deck_layout: Vec::new(),
        ui_draw: Vec::new(),
        scalar_collision: Vec::new(),
        classified_moveables: Vec::new(),
    }
}

#[test]
fn only_the_controller_script_gains_the_input_dispatch() {
    let script = b"function Controller:update(dt)\n    self.pressed_buttons = {}\nend\n".to_vec();
    let mut other = script.clone();
    serve_file("engine/other.lua", &mut other, false, &assets());
    assert_eq!(other, script);
    let mut data = b"plain data".to_vec();
    serve_file("engine/controller.lua", &mut data, false, &assets());
    assert_eq!(data, b"plain data".to_vec());
}
