use love_api::patches::{patch_miyoo_script, ScriptAssets};

fn assets() -> ScriptAssets {
    ScriptAssets {
        menu_clock: Vec::new(),
        music: Vec::new(),
        deck_layout: Vec::new(),
        ui_draw: Vec::new(),
        scalar_collision: Vec::new(),
        classified_moveables: Vec::new(),
    }
}

#[test]
fn miyoo_globals_use_low_cost_render_settings() {
    let mut script =
            b"self.F_MUTE = false\nself.F_SOUND_THREAD = true\ntexture_scaling = 2\nshadows = 'On'\nself.TILE_H = 11.5\nself.MOVEABLES = {}"
                .to_vec();
    patch_miyoo_script("globals.lua", &mut script, &assets());
    let script = String::from_utf8(script).unwrap();
    assert!(script.contains("self.F_MUTE = os.getenv('BALATRO_AUDIO') ~= '1'"));
    assert!(script.contains("self.F_SOUND_THREAD = false"));
    assert!(script.contains("texture_scaling = 1"));
    assert!(script.contains("shadows = 'Off'"));
    assert!(script.contains("self.SVMM_HANDHELD_LAYOUT"));
    assert!(script.contains("self.SVMM_UPDATEABLES = {}"));
}

#[test]
fn miyoo_reflows_the_widescreen_room_for_a_handheld_display() {
    let mut resize = b"if w/h < G.window_prev.orig_ratio then\n\t\tG.TILESCALE = G.window_prev.orig_scale*w/G.window_prev.w\n\telse\n\t\tG.TILESCALE = G.window_prev.orig_scale*h/G.window_prev.h\n\tend\nif w/h < G.window_prev.orig_ratio then\n\t\t\tG.ROOM.T.x = G.ROOM_PADDING_W\n\t\t\tG.ROOM.T.y = (h/(G.TILESIZE*G.TILESCALE) - (G.ROOM.T.h+G.ROOM_PADDING_H))/2 + G.ROOM_PADDING_H/2\n\t\telse".to_vec();
    patch_miyoo_script("main.lua", &mut resize, &assets());
    let resize = String::from_utf8(resize).unwrap();
    assert!(resize.contains("G.TILESCALE = w/(G.TILESIZE*G.TILE_W)"));
    assert!(resize.contains("G.ROOM.T.x = 0"));
    assert!(resize.contains("G.ROOM.T.y = (h/(G.TILESIZE*G.TILESCALE) - G.ROOM.T.h)/2"));

    let mut game =
        b"config = {align=('cli'), offset = {x=-0.7,y=0},major = G.ROOM_ATTACH}".to_vec();
    patch_miyoo_script("game.lua", &mut game, &assets());
    let game = String::from_utf8(game).unwrap();
    assert!(game.contains("G.SVMM_HANDHELD_LAYOUT and 0 or -0.7"));

    let mut positions =
            b"G.hand.T.x = G.TILE_W - G.hand.T.w - 2.85\nG.hand.T.y = G.TILE_H - G.hand.T.h\nG.deck.T.x = G.TILE_W - G.deck.T.w - 0.5"
                .to_vec();
    patch_miyoo_script("functions/common_events.lua", &mut positions, &assets());
    let positions = String::from_utf8(positions).unwrap();
    assert!(positions.contains("G.SVMM_HANDHELD_LAYOUT and 2.35 or 2.85"));
    assert!(positions.contains("G.SVMM_HANDHELD_LAYOUT and 1.15 or 0"));
    assert!(positions.contains("G.SVMM_HANDHELD_LAYOUT and 0.1 or 0.5"));

    let mut hud = b"minh = 30, padding = 0.08".to_vec();
    patch_miyoo_script("functions/UI_definitions.lua", &mut hud, &assets());
    let hud = String::from_utf8(hud).unwrap();
    assert!(hud.contains("minh = G.SVMM_HANDHELD_LAYOUT and 0 or 30"));
}

#[test]
fn miyoo_exposes_trimmed_score_update_to_selective_jit() {
    let mut script = b"function Game:update(dt)\nend".to_vec();
    patch_miyoo_script("game.lua", &mut script, &assets());
    let script = String::from_utf8(script).unwrap();
    assert!(script.contains("SVMM_UPDATE_JIT_FUNCTIONS = {score_intensity = modulate_sound}"));
}

#[test]
fn unrelated_files_are_unchanged() {
    let mut script = b"texture_scaling = 2".to_vec();
    patch_miyoo_script("main.lua", &mut script, &assets());
    assert_eq!(script, b"texture_scaling = 2");
}

#[test]
fn miyoo_font_raster_size_preserves_layout_scale() {
    let mut script = b"render_scale = self.TILESIZE*10, FONTSCALE = 0.1, squish = 1\nrender_scale = self.TILESIZE*7, FONTSCALE = 0.12, squish = 1".to_vec();
    patch_miyoo_script("game.lua", &mut script, &assets());
    let script = String::from_utf8(script).unwrap();
    assert!(script.contains("self.TILESIZE*2.5, FONTSCALE = 0.4, LAYOUT_FONTSCALE = 0.1"));
    assert!(script.contains("self.TILESIZE*2, FONTSCALE = 0.42, LAYOUT_FONTSCALE = 0.12"));
}

#[test]
fn miyoo_dynatext_keeps_original_spacing_and_motion_scale() {
    let mut script = br#"
function DynaText:init(config)
    self.config = config
    self.shadow = config.shadow
    self.font = config.font or G.LANG.font
end
local tx = width + 2.7*(self.config.spacing or 0)*G.TILESCALE*self.font.FONTSCALE
local float = (self.font.FONTSCALE/G.TILESIZE)*2000*math.sin(t)
love.graphics.translate(self.config.spacing*self.font.FONTSCALE/G.TILESIZE, 0)
local x = 0.5*(letter.dims.x - letter.offset.x)*self.font.FONTSCALE/G.TILESIZE
local y = 0.5*(letter.dims.y - letter.offset.y)*self.font.FONTSCALE/G.TILESIZE
"#
    .to_vec();
    patch_miyoo_script("engine/text.lua", &mut script, &assets());
    let script = String::from_utf8(script).unwrap();

    assert!(script
        .contains("self.layout_font_scale = self.font.LAYOUT_FONTSCALE or self.font.FONTSCALE"));
    assert!(script.contains("G.TILESCALE*self.layout_font_scale"));
    assert!(script.contains("(self.layout_font_scale/G.TILESIZE)*2000"));
    assert!(script.contains("self.config.spacing*self.layout_font_scale/G.TILESIZE"));
    assert!(script
        .contains("letter.dims.x*self.font.FONTSCALE - letter.offset.x*self.layout_font_scale"));
    assert!(script
        .contains("letter.dims.y*self.font.FONTSCALE - letter.offset.y*self.layout_font_scale"));
}

#[test]
fn miyoo_draws_directly_to_the_screen() {
    let mut script = b"love.graphics.setCanvas{self.CANVAS}\n        love.graphics.draw(self.CANVAS, 0, 0)\nlove.graphics.setCanvas(G.AA_CANVAS)\n    if G.AA_CANVAS then \n        love.graphics.push()\n            love.graphics.scale(1/G.CANV_SCALE)\n            love.graphics.draw(G.AA_CANVAS, 0, 0)\n        love.graphics.pop()\n    end".to_vec();
    patch_miyoo_script("game.lua", &mut script, &assets());
    let script = String::from_utf8(script).unwrap();

    assert!(script.contains("love.graphics.setCanvas()"));
    assert!(!script.contains("love.graphics.setCanvas{self.CANVAS}"));
    assert!(!script.contains("love.graphics.draw(self.CANVAS, 0, 0)"));
    assert!(!script.contains("love.graphics.setCanvas(G.AA_CANVAS)"));
    assert!(!script.contains("love.graphics.draw(G.AA_CANVAS, 0, 0)"));
}

#[test]
fn miyoo_removes_the_unused_final_shader_pass() {
    let mut script = b"love.graphics.pop()\n    \n    love.graphics.setCanvas(G.AA_CANVAS)\n    G.SHADERS['CRT']:send('time', 400)\n    love.graphics.draw(self.CANVAS, 0, 0)\n    timer_checkpoint('canvas', 'draw')".to_vec();
    patch_miyoo_script("game.lua", &mut script, &assets());
    let script = String::from_utf8(script).unwrap();
    assert!(!script.contains("G.SHADERS['CRT']:send"));
    assert!(!script.contains("love.graphics.draw(self.CANVAS"));
    assert!(script.contains("love.graphics.setShader()"));
    assert!(script.contains("timer_checkpoint('canvas', 'draw')"));
}

#[test]
fn miyoo_tracks_only_moveables_that_need_updates() {
    let mut script = b"function Moveable:init()\n    table.insert(G.MOVEABLES, self)\n    if getmetatable(self) == Moveable then \n    end\nend\nfunction Moveable:remove()\n    for k, v in pairs(G.MOVEABLES) do\n    end\nend".to_vec();
    patch_miyoo_script("engine/moveable.lua", &mut script, &assets());
    let script = String::from_utf8(script).unwrap();
    assert!(script.contains("local needs_update = update ~= Node.update"));
    assert!(script.contains("kind == G.UIT.O"));
    assert!(script.contains("kind == G.UIT.T and config.ref_table and config.ref_value"));
    assert!(!script.contains("config.func or config.button or config.button_UIE"));
    assert!(script.contains("table.insert(G.SVMM_UPDATEABLES, self)"));
    assert!(script.contains("table.remove(G.SVMM_UPDATEABLES, i)"));
}

#[test]
fn miyoo_disables_ui_shadows_when_objects_are_created() {
    let mut ui = b"function UIElement:init(config)\n    self.config = config or {}\n    if self.config and self.config.object then self.config.object.parent = self end\nend".to_vec();
    patch_miyoo_script("engine/ui.lua", &mut ui, &assets());
    let ui = String::from_utf8(ui).unwrap();
    assert!(ui.contains("self.config.shadow = nil"));
    assert!(ui.contains("self.config.emboss = nil"));
    assert!(ui.contains("self.config.line_emboss = nil"));

    let mut text = b"function DynaText:init(config)\n    self.config = config\n    self.shadow = config.shadow\nend".to_vec();
    patch_miyoo_script("engine/text.lua", &mut text, &assets());
    let text = String::from_utf8(text).unwrap();
    assert!(text.contains("self.config.shadow = false"));
    assert!(text.contains("self.shadow = false"));
}

#[test]
fn miyoo_draw_hash_tracks_overlay_without_debug_draw_calls() {
    let mut misc = b"function add_to_drawhash(obj)\n  if obj then \n    G.DRAW_HASH[#G.DRAW_HASH+1] = obj\n  end\nend"
            .to_vec();
    patch_miyoo_script("functions/misc_functions.lua", &mut misc, &assets());
    let misc = String::from_utf8(misc).unwrap();
    assert!(misc.contains("obj.under_overlay = G.under_overlay"));

    let mut node =
        b"function Node:draw()\n    self:draw_boundingrect()\n    add_to_drawhash(self)\nend"
            .to_vec();
    patch_miyoo_script("engine/node.lua", &mut node, &assets());
    let node = String::from_utf8(node).unwrap();
    assert!(!node.contains("self:draw_boundingrect()"));
}

#[test]
fn miyoo_cards_skip_the_disabled_shadow_pass() {
    let mut card_area =
            b"self.ARGS.draw_layers = self.ARGS.draw_layers or self.config.draw_layers or {'shadow', 'card'}"
                .to_vec();
    patch_miyoo_script("cardarea.lua", &mut card_area, &assets());
    let card_area = String::from_utf8(card_area).unwrap();
    assert!(card_area.contains("self.config.draw_layers or {'card'}"));
    assert!(!card_area.contains("{'shadow', 'card'}"));

    let mut card = b"    self.children.shadow = Moveable(0, 0, 0, 0)\nif (layer == 'shadow' or layer == 'both') then".to_vec();
    patch_miyoo_script("card.lua", &mut card, &assets());
    let card = String::from_utf8(card).unwrap();
    assert!(!card.contains("children.shadow"));
    assert!(card.contains("layer == 'card' and G.SETTINGS.GRAPHICS.shadows ~= 'On'"));
}
