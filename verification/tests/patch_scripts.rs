use love_api::patches::{patch_controller_input, patch_miyoo_script, ScriptAssets, MIYOO_MOVEABLE_MOVE};

fn assets() -> ScriptAssets {
    ScriptAssets {
        menu_clock: Vec::new(),
        music: Vec::new(),
        deck_layout: Vec::new(),
        ui_draw: Vec::new(),
        scalar_collision: Vec::new(),
        classified_moveables: Vec::new(),
    }
}

#[test]
fn controller_dispatches_ordered_input_before_original_button_handling() {
    let mut source = br#"
function Controller:update(dt)
    self:set_HID_flags(self:update_axis(dt))
    original_input(self, dt)
end
"#
    .to_vec();
    patch_controller_input(&mut source);
    let once = source.clone();
    patch_controller_input(&mut source);
    assert_eq!(source, once);
    let lua = mlua::Lua::new();
    lua.load(
        r#"
        Controller = {set_HID_flags = function() end, update_axis = function() end}
        order = {}
        original_input = function()
            assert(order[1] == 0.02)
            order[2] = true
        end
    "#,
    )
    .exec()
    .unwrap();
    lua.load(&source).exec().unwrap();
    lua.load(
        r#"
        Controller.miyoo_dispatch = function(_, dt) order[1] = dt end
        Controller:update(0.02)
        assert(order[2])
    "#,
    )
    .exec()
    .unwrap();
}

#[test]
fn removed_ui_releases_only_its_owned_text_once() {
    let mut source = br#"
            UIElement = {}
            released, removed = 0, 0
function UIElement:remove()
            removed = removed + 1
end
            local text = {release = function() released = released + 1 end}
            local ui = setmetatable({config = {text_drawable = text}}, {__index = UIElement})
            ui:remove()
            assert(released == 1 and ui.config.text_drawable == nil)
            ui:remove()
            assert(released == 1 and removed == 2)
        "#
    .to_vec();
    patch_miyoo_script("engine/ui.lua", &mut source, &assets());
    mlua::Lua::new().load(&source).exec().unwrap();
}

#[test]
fn miyoo_keeps_the_game_sound_path_enabled() {
    let mut script = br#"
function modulate_sound(dt)
  --volume of the splash screen is set here
  return 'original sound path'
end
G = {F_MUTE = false}
"#
    .to_vec();
    patch_miyoo_script("functions/misc_functions.lua", &mut script, &assets());
    let lua = mlua::Lua::new();
    lua.load(&script).exec().unwrap();
    let value: String = lua
        .load("return modulate_sound(0.016)")
        .eval()
        .expect("sound update should execute");
    assert_eq!(value, "original sound path");
}

#[test]
fn miyoo_muted_sound_update_keeps_visual_score_intensity() {
    let mut script = br#"
function modulate_sound(dt)
  --volume of the splash screen is set here
  error('muted sound work should not run')
end
G = {
  F_MUTE = true,
  ARGS = {chip_flames = {real_intensity = 3, change = 2}},
  GAME = {
    current_round = {current_hand = {chips = 12, mult = 3}},
    blind = {chips = 100}
  }
}
modulate_sound(0.016)
"#
    .to_vec();
    patch_miyoo_script("functions/misc_functions.lua", &mut script, &assets());
    let lua = mlua::Lua::new();
    lua.load(&script).exec().unwrap();
    let values: (f64, f64) = lua
        .load("return G.ARGS.score_intensity.earned_score, G.ARGS.score_intensity.required_score")
        .eval()
        .expect("muted sound modulation should execute");
    assert_eq!(values, (36.0, 100.0));
}

#[test]
fn miyoo_dynatext_skips_only_constant_idle_labels() {
    let mut script = br#"
function DynaText:init(config)
    self.config = config
    self.shadow = config.shadow
    self.font = config.font or G.LANG.font
    self:update_text(true)
    if self.config.maxw then return end
end
function DynaText:update(dt)
    self:update_text()
    self:align_letters()
end
"#
    .to_vec();
    patch_miyoo_script("engine/text.lua", &mut script, &assets());
    let script = String::from_utf8(script).unwrap();

    assert!(script.contains("self._svmm_can_idle = #self.config.string == 1"));
    assert!(script.contains("first_string.ref_table"));
    assert!(script.contains("not self.config.float and not self.config.bump"));
    assert!(script.contains("not self.config.pop_in"));
    assert!(script.contains("not self.config.pop_out"));
    assert!(script.contains("not self.config.pulse"));
    assert!(script.contains("not self.config.quiver then return end"));
    mlua::Lua::new()
        .load(&script)
        .into_function()
        .expect("patched DynaText should parse");
}

#[test]
fn miyoo_moveables_skip_only_settled_movement() {
    let mut script = b"function test()\n    self.CALCING = nil\n    if self.role.role_type == 'Glued' then\n        return\n    elseif self.role.role_type == 'Minor' then\n        if false or\n            self.role.xy_bond == 'Weak' or \n            self.role.r_bond == 'Weak' then  \n            return\n        end\n    end\nend"
            .to_vec();
    patch_miyoo_script("engine/moveable.lua", &mut script, &assets());
    let script = String::from_utf8(script).unwrap();
    assert!(script.contains("self.role.role_type == 'Major' and self.STATIONARY"));
    assert!(MIYOO_MOVEABLE_MOVE.contains("not classified_active and role_type == 'Major'"));
    assert!(script.contains("not self.config.refresh_movement"));
    assert!(script.contains("states.drag.is or states.hover.is"));
    assert!(script.contains("math.abs(velocity.x) > 0.01"));
    assert!(!script.contains("self.role.xy_bond == 'Weak' or"));
    assert!(!script.lines().any(|line| line.starts_with('+')));
    mlua::Lua::new()
        .load(&script)
        .into_function()
        .expect("patched moveable script should parse");
}

#[test]
fn miyoo_minor_transform_matches_bond_rules() {
    let mut script = br#"
Moveable = {}
function Moveable:move_with_major(dt)
    error('original move_with_major was not replaced')
end
function Moveable:move_xy(dt)
    self.calls.xy = self.calls.xy + 1
    self.VT.x, self.VT.y = self.T.x + dt, self.T.y - dt
end
function Moveable:move_r(dt, velocity)
    self.calls.r = self.calls.r + 1
    self.VT.r = self.T.r - dt
end
function Moveable:move_scale(dt)
    self.calls.scale = self.calls.scale + 1
    self.VT.scale = self.T.scale + dt
end
function Moveable:move_wh(dt)
    self.calls.wh = self.calls.wh + 1
    self.VT.w, self.VT.h = self.T.w + dt, self.T.h - dt
end
function Moveable:move_juice(dt)
    self.calls.juice = self.calls.juice + 1
    self.juice = {r = 0.1, scale = 0.2}
end
function Moveable:get_major()
    return {major = self, offset = {x = 0.5, y = -0.25}}
end

G = {ROOM = {T = {w = 20}}}
local major = setmetatable({
    T = {x = 10, y = 20, w = 4, h = 6, r = 0, scale = 2},
    VT = {x = 11, y = 19, w = 5, h = 7, r = 0, scale = 3}
}, {__index = Moveable})

local function minor(bond)
    return setmetatable({
        role = {
            role_type = 'Minor', major = major, offset = {x = 1, y = 2},
            xy_bond = bond, r_bond = bond, scale_bond = bond, wh_bond = bond
        },
        T = {x = 0, y = 0, w = 2, h = 2, r = 0.25, scale = 0.5},
        VT = {x = 0, y = 0, w = 2, h = 2, r = 0, scale = 0.5},
        velocity = {x = 0, y = 0, r = 0, scale = 0},
        shadow_parrallax = {x = 0, y = 0},
        calls = {juice = 0, xy = 0, r = 0, scale = 0, wh = 0}
    }, {__index = Moveable})
end

local function result(item)
    return string.format(
        '%.4f,%.4f,%.4f,%.4f,%.4f,%.4f,%.4f;%d,%d,%d,%d,%d',
        item.T.x, item.T.y, item.VT.x, item.VT.y, item.VT.r,
        item.VT.scale, item.shadow_parrallax.x,
        item.calls.juice, item.calls.xy, item.calls.r,
        item.calls.scale, item.calls.wh)
end

local strong = minor('Strong')
strong:move_with_major(0.3)
local weak = minor('Weak')
weak:move_with_major(0.3)
return result(strong), result(weak), strong.VT.w, strong.VT.h,
    weak.VT.w, weak.VT.h
"#
    .to_vec();
    patch_miyoo_script("engine/moveable.lua", &mut script, &assets());
    let (strong, weak, strong_w, strong_h, weak_w, weak_h): (String, String, f64, f64, f64, f64) =
        mlua::Lua::new()
            .load(&script)
            .eval()
            .expect("optimized minor movement should execute");

    assert_eq!(
        strong,
        "11.5000,21.7500,12.2500,20.7500,0.3500,0.9500,0.3750;1,0,0,0,0"
    );
    assert_eq!(
        weak,
        "11.5000,21.7500,11.8000,21.4500,-0.0500,0.8000,0.3750;1,1,1,1,1"
    );
    assert!((strong_w - 2.5).abs() < f64::EPSILON);
    assert!((strong_h - 7.0 / 3.0).abs() < f64::EPSILON);
    assert!((weak_w - 2.3).abs() < f64::EPSILON);
    assert!((weak_h - 1.7).abs() < f64::EPSILON);
}

#[test]
fn miyoo_ui_updates_keep_callbacks_without_debug_tracking() {
    let mut script = br#"UIElement = {}
function UIElement:update(dt)
    G.ARGS.FUNC_TRACKER = G.ARGS.FUNC_TRACKER or {}
    if self.config.button_delay then
        self.config.button_temp = self.config.button or self.config.button_temp
        self.config.button = nil
        self.config.button_delay_progress = (G.TIMERS.REAL - self.config.button_delay_start)/self.config.button_delay
        if G.TIMERS.REAL >= self.config.button_delay_end then self.config.button_delay = nil end
    end
    if self.config.button_temp and not self.config.button_delay then self.config.button = self.config.button_temp end
    if self.button_clicked then self.button_clicked = nil end
    if self.config and self.config.func then
        G.ARGS.FUNC_TRACKER[self.config.func] = (G.ARGS.FUNC_TRACKER[self.config.func] or 0) + 1
        G.FUNCS[self.config.func](self)
    end
    if self.UIT == G.UIT.T then self:update_text() end
    if self.UIT == G.UIT.O then self:update_object() end
    Node.update(self, dt)
end
local calls = 0
G = {ARGS = {}, TIMERS = {REAL = 1}, UIT = {T = 1, O = 2}, FUNCS = {tick = function() calls = calls + 1 end}}
local element = {config = {func = 'tick'}, UIT = 3}
setmetatable(element, {__index = UIElement})
element:update(0.016)
return calls"#
            .to_vec();
    patch_miyoo_script("engine/ui.lua", &mut script, &assets());
    let script = String::from_utf8(script).unwrap();
    assert!(!script.contains("FUNC_TRACKER"));
    assert!(!script.contains("Node.update"));
    let calls: i64 = mlua::Lua::new()
        .load(&script)
        .eval()
        .expect("patched UI update should execute");
    assert_eq!(calls, 1);
}

#[test]
fn miyoo_pixelated_rects_reuse_native_polygon_data() {
    let mut script = b"function UIElement:draw_pixellated_rect(_type)\n    love.graphics.polygon((_type == 'line' or _type == 'line_emboss') and 'line' or \"fill\", self.pixellated_rect[_type].vertices)\nend"
            .to_vec();
    patch_miyoo_script("engine/ui.lua", &mut script, &assets());
    let script = String::from_utf8(script).unwrap();
    assert!(script.contains("polygon.native = polygon.native or love.graphics.newPolygonData"));
    assert!(script.contains("if _native_only then return polygon.native end"));
    assert!(script.contains("love.graphics.drawPolygonData"));
    assert!(!script.contains("love.graphics.polygon("));
    mlua::Lua::new()
        .load("UIElement = {}\nlove = {graphics = {}}\n".to_owned() + &script)
        .into_function()
        .expect("patched pixelated rectangle draw should parse");
}

#[test]
fn miyoo_prep_draw_batches_transform_setup() {
    let mut script = b"function prep_draw(moveable, scale, rotate, offset)\n    love.graphics.push()\n    love.graphics.scale(G.TILESCALE*G.TILESIZE)\nend\n\nfunction get_chosen_triangle_from_rect()\nend"
            .to_vec();
    patch_miyoo_script("functions/misc_functions.lua", &mut script, &assets());
    let script = String::from_utf8(script).unwrap();
    assert!(script.contains("love.graphics._pushTransform("));
    assert!(!script.contains("love.graphics.push()"));
    mlua::Lua::new()
        .load(&script)
        .into_function()
        .expect("batched transform setup should parse");
}

#[test]
fn miyoo_sprite_draw_uses_single_software_shader_update() {
    let mut script = b"function Sprite:draw_shader(_shader, _shadow_height, _send, _no_tilt, other_obj, ms, mr, mx, my, custom_shader, tilt_shadow)\n    if G.SETTINGS.reduced_motion then _no_tilt = true end\nend".to_vec();
    patch_miyoo_script("engine/sprite.lua", &mut script, &assets());
    let script = String::from_utf8(script).unwrap();
    assert!(script.contains("love.graphics._setSoftwareShader("));
    assert!(script.contains("if not custom_shader and _shader ~= 'vortex' then"));
    let lua = mlua::Lua::new();
    lua.load("Sprite = {}\n".to_owned() + &script)
        .exec()
        .unwrap();
    lua.load(
        r#"
            local sent, drawn, reset
            love = {graphics = {
                _setSoftwareShader = function(...) sent = {...} end,
                setShader = function() reset = true end
            }}
            G = {SETTINGS = {}, SHADERS = {holo = {}}, C = {CLEAR = {0, 0, 0, 0}}}
            local values = {1.25, 42}
            local major = {ID = 12, dissolve = 0.3}
            local sprite = setmetatable({role = {draw_major = major},
                draw_self = function() drawn = true end}, {__index = Sprite})
            sprite:draw_shader('holo', nil, values)
            assert(sent[1] == G.SHADERS.holo and sent[7] == values)
            assert(sent[2] == 0.3 and sent[3] == false)
            assert(sent[4] == 123.33412*(major.ID/1.14212)%3000)
            assert(drawn and reset)
        "#,
    )
    .exec()
    .unwrap();
}

#[test]
fn miyoo_plain_cards_bypass_special_effect_branches() {
    let mut card = b"function Card:draw(layer)\n    layer = layer or 'both'\n\n    self.hover_tilt = 1\n    \n    if not self.states.visible then return end\n    self.children.center:draw_shader('dissolve')\nend"
            .to_vec();
    patch_miyoo_script("card.lua", &mut card, &assets());
    let card = String::from_utf8(card).unwrap();
    assert!(card.contains("local function SVMM_draw_plain_card(card)"));
    assert!(card.contains("self.config.center == G.P_CENTERS.c_base"));
    assert!(card.contains("SVMM_draw_plain_card(self)"));
    assert!(card.contains("children.center:draw_shader('dissolve')"));
    mlua::Lua::new()
        .load("Card = {}\n".to_owned() + &card)
        .into_function()
        .expect("plain card fast path should parse");
}

#[test]
fn miyoo_skips_idle_base_card_updates() {
    let mut card = b"function Card:update(dt)\n    if self.flipping == 'f2b' then\n        self.updated = true\n    end\nend"
            .to_vec();
    patch_miyoo_script("card.lua", &mut card, &assets());
    let card = String::from_utf8(card).unwrap();
    assert!(card.contains("self.config.center == G.P_CENTERS.c_base"));
    assert!(card.contains("not self.ability.perma_debuff then return"));
    mlua::Lua::new()
        .load("Card = {}\n".to_owned() + &card)
        .into_function()
        .expect("base card update fast path should parse");
}
