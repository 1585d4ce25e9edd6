use love_api::shaders::{card_shader_for_source, vector_name};

#[test]
fn card_shaders_are_recognized_from_balatro_paths() {
    assert_eq!(card_shader_for_source("resources/shaders/foil.fs"), 3);
    assert_eq!(card_shader_for_source("resources\\shaders\\holo.fs"), 4);
    assert_eq!(card_shader_for_source("resources/shaders/polychrome.fs"), 5);
    assert_eq!(card_shader_for_source("resources/shaders/negative_shine.fs"), 10);
}

#[test]
fn card_shaders_are_recognized_from_source_text() {
    assert_eq!(card_shader_for_source("extern vec2 foil;\nvec4 effect() {}"), 3);
    assert_eq!(card_shader_for_source("extern vec2 hologram;\nvec4 effect() {}"), 9);
    assert_eq!(card_shader_for_source("vec4 effect() {}"), 0);
}

#[test]
fn vector_names_match_the_effects_they_name() {
    assert_eq!(vector_name(0), None);
    assert_eq!(vector_name(12), None);
    for effect in 1..=11u8 {
        let name = vector_name(effect).unwrap();
        assert_eq!(card_shader_for_source(name), effect);
        assert_eq!(card_shader_for_source(&format!("resources/shaders/{name}.fs")), effect);
    }
    assert_eq!(vector_name(10), Some("negative_shine"));
}

#[test]
fn names_without_extern_do_not_count() {
    assert_eq!(card_shader_for_source("vec2 foil; vec4 effect() {}"), 0);
    assert_eq!(card_shader_for_source("shaders/background.fs"), 0);
    assert_eq!(card_shader_for_source("extern vec2 negative_shine; // negative"), 10);
}
