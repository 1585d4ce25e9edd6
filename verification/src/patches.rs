use vstd::prelude::*;
use vstd::string::*;
use vstd::utf8::*;

use crate::text::{
    concat_bytes, contains, contains_bytes, find, find_bytes, find_bytes_from, find_from,
    lemma_contains_prefix, lemma_contains_self, lemma_contains_suffix, replace_all,
    replace_all_bytes, replace_first, replace_first_bytes, splice, splice_bytes, same_bytes,
    normalize, normalize_path, lemma_find_bound, lemma_removal_leaves_none, occurs_at, one_line,
    starts_lines,
};

verus! {


/// The controller line after which queued handheld input is dispatched.
pub const CONTROLLER_PHASE: &'static str = "    self:set_HID_flags(self:update_axis(dt))";

/// The dispatch call placed after the controller phase line.
pub const CONTROLLER_DISPATCH: &'static str = "\n    if self.miyoo_dispatch then self:miyoo_dispatch(dt) end";

/// The flag a patched controller script sets, which also marks it as patched.
pub const CONTROLLER_MARKER: &'static str = "Controller.miyoo_input_phase = true";

pub const NEWLINE: &'static str = "\n";

/// Whether `bytes` is valid UTF-8.
#[verifier::external_body]
pub(crate) fn is_utf8(bytes: &[u8]) -> (r: bool)
    ensures
        r == valid_utf8(bytes@),
{
    std::str::from_utf8(bytes).is_ok()
}

/// The controller script with handheld input dispatched right after its phase line: applied
/// to valid UTF-8 that has the phase line and is not yet patched; other input is unchanged.
pub open spec fn controller_patched(data: Seq<u8>) -> Seq<u8> {
    let phase = CONTROLLER_PHASE.spec_bytes();
    let marker = CONTROLLER_MARKER.spec_bytes();
    if valid_utf8(data) && contains(data, phase) && !contains(data, marker) {
        replace_first(data, phase, phase + CONTROLLER_DISPATCH.spec_bytes()) + (NEWLINE.spec_bytes() + marker
            + NEWLINE.spec_bytes())
    } else {
        data
    }
}

/// Makes the game's controller update dispatch queued handheld input before its own button
/// handling.
pub fn patch_controller_input(data: &mut Vec<u8>)
    ensures
        final(data)@ == controller_patched(old(data)@),
{
    let phase = CONTROLLER_PHASE.as_bytes();
    let marker = CONTROLLER_MARKER.as_bytes();
    if !is_utf8(data.as_slice()) {
        return;
    }
    if contains_bytes(data.as_slice(), phase) && !contains_bytes(data.as_slice(), marker) {
        let with_dispatch = concat_bytes(phase, CONTROLLER_DISPATCH.as_bytes());
        let replaced = replace_first_bytes(data.as_slice(), phase, with_dispatch.as_slice());
        let line = concat_bytes(NEWLINE.as_bytes(), marker);
        let suffix = concat_bytes(line.as_slice(), NEWLINE.as_bytes());
        *data = concat_bytes(replaced.as_slice(), suffix.as_slice());
    }
}

/// Patching the controller script a second time changes nothing.
pub proof fn law_controller_patch_idempotent(data: Seq<u8>)
    ensures
        controller_patched(controller_patched(data)) == controller_patched(data),
{
    let once = controller_patched(data);
    if once != data {
        let marker = CONTROLLER_MARKER.spec_bytes();
        let nl = NEWLINE.spec_bytes();
        let replaced = replace_first(data, CONTROLLER_PHASE.spec_bytes(), CONTROLLER_PHASE.spec_bytes()
            + CONTROLLER_DISPATCH.spec_bytes());
        lemma_contains_self(marker);
        lemma_contains_suffix(nl, marker, marker);
        lemma_contains_prefix(nl + marker, nl, marker);
        lemma_contains_suffix(replaced, nl + marker + nl, marker);
        assert(once == replaced + (nl + marker + nl));
    }
}

/// Sets the software shader once per sprite draw, inserted after the reduced-motion check of `Sprite:draw_shader`.
pub const MIYOO_SPRITE_SHADER_FAST_PATH: &'static str = r#"
    if not custom_shader and _shader ~= 'vortex' then
        local draw_major = self.role.draw_major or self
        if _shadow_height then
            self.VT.y = self.VT.y - draw_major.shadow_parrallax.y*_shadow_height
            self.VT.x = self.VT.x - draw_major.shadow_parrallax.x*_shadow_height
            self.VT.scale = self.VT.scale*(1-0.2*_shadow_height)
        end

        local dissolve_colours = draw_major.dissolve_colours
        love.graphics._setSoftwareShader(
            G.SHADERS[_shader or 'dissolve'],
            math.abs(draw_major.dissolve or 0),
            not not _shadow_height,
            123.33412*(draw_major.ID/1.14212 or 12.5123152)%3000,
            dissolve_colours and dissolve_colours[1] or G.C.CLEAR,
            dissolve_colours and dissolve_colours[2] or G.C.CLEAR,
            _send
        )

        if other_obj then
            self:draw_from(other_obj, ms, mr, mx, my)
        else
            self:draw_self()
        end
        love.graphics.setShader()

        if _shadow_height then
            self.VT.y = self.VT.y + draw_major.shadow_parrallax.y*_shadow_height
            self.VT.x = self.VT.x + draw_major.shadow_parrallax.x*_shadow_height
            self.VT.scale = self.VT.scale/(1-0.2*_shadow_height)
        end
        return
    end
"#;

/// `Moveable:move` that skips settled major moveables and updates only the transform parts that change.
pub const MIYOO_MOVEABLE_MOVE: &'static str = r#"function Moveable:move(dt, classified_active)
    local game = G
    local frame_move = game.FRAMES.MOVE
    local frame = self.FRAME
    if frame.MOVE >= frame_move then return end
    frame.OLD_MAJOR = frame.MAJOR
    frame.MAJOR = nil
    frame.MOVE = frame_move
    if not self.created_on_pause and game.SETTINGS.paused then return end

    local alignment = self.alignment
    local previous, offset = alignment.prev_offset, alignment.offset
    if alignment.prev_type ~= alignment.type or
        previous.x ~= offset.x or previous.y ~= offset.y then
        Moveable.align_to_major(self)
    end
    self.CALCING = nil

    local role = self.role
    local role_type = role.role_type
    if not classified_active and role_type == 'Major' and self.STATIONARY then
        local transform, visible = self.T, self.VT
        local velocity, pinch, states = self.velocity, self.pinch, self.states
        if not self.NEW_ALIGNMENT and not self.config.refresh_movement and
            not self.juice and not alignment.lr_clamp and
            not pinch.x and not pinch.y and
            not (self.zoom and (states.drag.is or states.hover.is)) and
            transform.x == visible.x and transform.y == visible.y and
            transform.w == visible.w and transform.h == visible.h and
            transform.r == visible.r and transform.scale == visible.scale and
            velocity.x == 0 and velocity.y == 0 and
            velocity.r == 0 and velocity.scale == 0 then
                self.NEW_ALIGNMENT = false
                return
        end
    end

    if role_type == 'Glued' then
        local major = role.major
        if major then Moveable.glue_to_major(self, major) end
    elseif role_type == 'Minor' then
        local major = role.major
        if major then
            if major.FRAME.MOVE < frame_move then major:move(dt) end
            self.STATIONARY = major.STATIONARY
            if not self.STATIONARY or self.NEW_ALIGNMENT or
                self.config.refresh_movement or self.juice or
                role.xy_bond == 'Weak' or role.r_bond == 'Weak' then
                    self.CALCING = true
                    Moveable.move_with_major(self, dt)
            end
        end
    elseif role_type == 'Major' then
        self.STATIONARY = true
        local transform, visible = self.T, self.VT
        local velocity, pinch, states = self.velocity, self.pinch, self.states
        local juice = self.juice
        if juice then Moveable.move_juice(self, dt); juice = self.juice end
        if transform.x ~= visible.x or transform.y ~= visible.y or
            math.abs(velocity.x) > 0.01 or math.abs(velocity.y) > 0.01 then
            Moveable.move_xy(self, dt)
        end
        if transform.r ~= visible.r or math.abs(velocity.r) > 0.001 or
            velocity.x ~= 0 or (juice and juice.r ~= 0) then
            Moveable.move_r(self, dt, velocity)
        end
        if transform.scale ~= visible.scale or math.abs(velocity.scale) > 0.001 or
            juice or (self.zoom and (states.drag.is or states.hover.is)) then
            Moveable.move_scale(self, dt)
        end
        if (transform.w ~= visible.w and not pinch.x) or
            (transform.h ~= visible.h and not pinch.y) or
            (visible.w > 0 and pinch.x) or (visible.h > 0 and pinch.y) then
            Moveable.move_wh(self, dt)
        end
        local room = game.ROOM
        if room and (self._svmm_parallax_x ~= transform.x or
            self._svmm_parallax_w ~= transform.w or
            self._svmm_parallax_room_w ~= room.T.w) then
            self.shadow_parrallax.x =
                (transform.x + transform.w/2 - room.T.w/2)/(room.T.w/2)*1.5
            self._svmm_parallax_x = transform.x
            self._svmm_parallax_w = transform.w
            self._svmm_parallax_room_w = room.T.w
        end
    end
    if alignment and alignment.lr_clamp then Moveable.lr_clamp(self) end
    self.NEW_ALIGNMENT = false
end

"#;

/// `Moveable:move_with_major` with the rotation of the offset skipped for unrotated majors.
pub const MIYOO_MOVE_WITH_MAJOR: &'static str = r#"function Moveable:move_with_major(dt)
    local role = self.role
    if role.role_type ~= 'Minor' then return end

    local major_tab = Moveable.get_major(role.major)
    local major = major_tab.major
    local offset_x = role.offset.x + major_tab.offset.x
    local offset_y = role.offset.y + major_tab.offset.y
    local weak_r = role.r_bond == 'Weak'
    local rotated_x, rotated_y
    if weak_r then
        rotated_x, rotated_y = offset_x, offset_y
    else
        local rotation = major.VT.r
        if rotation < 0.0001 and rotation > -0.0001 then
            rotated_x, rotated_y = offset_x, offset_y
        else
            local transform = self.T
            local half_w = -transform.w/2 + major.T.w/2
            local half_h = -transform.h/2 + major.T.h/2
            local adjusted_x = offset_x - half_w
            local adjusted_y = offset_y - half_h
            local cosine, sine = math.cos(rotation), math.sin(rotation)
            rotated_x = adjusted_x*cosine - adjusted_y*sine + half_w
            rotated_y = adjusted_x*sine + adjusted_y*cosine + half_h
        end
    end

    Moveable.move_juice(self, dt)
    local transform, visible = self.T, self.VT
    transform.x = major.T.x + rotated_x
    transform.y = major.T.y + rotated_y

    if role.xy_bond == 'Weak' then
        Moveable.move_xy(self, dt)
    else
        visible.x = major.VT.x + rotated_x
        visible.y = major.VT.y + rotated_y
    end

    local juice = self.juice
    if weak_r then
        Moveable.move_r(self, dt, self.velocity)
    else
        visible.r = transform.r + major.VT.r + (juice and juice.r or 0)
    end

    if role.scale_bond == 'Weak' then
        Moveable.move_scale(self, dt)
    else
        visible.scale = transform.scale*(major.VT.scale/major.T.scale) +
            (juice and juice.scale or 0)
    end

    if role.wh_bond == 'Weak' then
        Moveable.move_wh(self, dt)
    else
        visible.x = visible.x + (0.5*(1 - major.VT.w/major.T.w)*transform.w)
        visible.w = transform.w*(major.VT.w/major.T.w)
        visible.h = transform.h*(major.VT.h/major.T.h)
    end

    local room = G.ROOM
    if room and (self._svmm_parallax_x ~= transform.x or
        self._svmm_parallax_w ~= transform.w or
        self._svmm_parallax_room_w ~= room.T.w) then
        self.shadow_parrallax.x =
            (transform.x + transform.w/2 - room.T.w/2)/(room.T.w/2)*1.5
        self._svmm_parallax_x = transform.x
        self._svmm_parallax_w = transform.w
        self._svmm_parallax_room_w = room.T.w
    end
end

"#;

/// `prep_draw` that sets up the whole draw transform with one call.
pub const MIYOO_PREP_DRAW: &'static str = r#"function prep_draw(moveable, scale, rotate, offset)
    local visible = moveable.VT
    local layered = moveable.layered_parallax
    local parent = moveable.parent
    local parent_layered = parent and parent.layered_parallax
    local offset_x = offset and offset.x or 0
    local offset_y = offset and offset.y or 0
    local parallax_x = (layered and layered.x) or (parent_layered and parent_layered.x) or 0
    local parallax_y = (layered and layered.y) or (parent_layered and parent_layered.y) or 0
    local object_scale = visible.scale*scale
    love.graphics._pushTransform(
        G.TILESCALE*G.TILESIZE,
        visible.x+visible.w/2+offset_x+parallax_x,
        visible.y+visible.h/2+offset_y+parallax_y,
        visible.r+(rotate or 0),
        -scale*visible.w*visible.scale/2,
        -scale*visible.h*visible.scale/2,
        object_scale)
end
"#;

/// Draws a plain playing card without the special-effect branches.
pub const MIYOO_CARD_DRAW_FAST_PATH: &'static str = r#"local function SVMM_draw_plain_card(card)
    local states = card.states
    local tilt = card.tilt_var
    if not tilt then
        tilt = {mx = 0, my = 0, dx = 0, dy = 0, amt = 0}
        card.tilt_var = tilt
    end
    local tilt_factor = 0.3
    if states.focus.is then
        tilt.mx = G.CONTROLLER.cursor_position.x + tilt.dx*card.T.w*G.TILESCALE*G.TILESIZE
        tilt.my = G.CONTROLLER.cursor_position.y + tilt.dy*card.T.h*G.TILESCALE*G.TILESIZE
        tilt.amt = math.abs(card.hover_offset.y + card.hover_offset.x - 1 + tilt.dx + tilt.dy - 1)*tilt_factor
    elseif states.hover.is then
        tilt.mx, tilt.my = G.CONTROLLER.cursor_position.x, G.CONTROLLER.cursor_position.y
        tilt.amt = math.abs(card.hover_offset.y + card.hover_offset.x - 1)*tilt_factor
    elseif card.ambient_tilt then
        local tilt_angle = G.TIMERS.REAL*(1.56 + (card.ID/1.14212)%1) + card.ID/1.35122
        tilt.mx = ((0.5 + 0.5*card.ambient_tilt*math.cos(tilt_angle))*card.VT.w+card.VT.x+G.ROOM.T.x)*G.TILESIZE*G.TILESCALE
        tilt.my = ((0.5 + 0.5*card.ambient_tilt*math.sin(tilt_angle))*card.VT.h+card.VT.y+G.ROOM.T.y)*G.TILESIZE*G.TILESCALE
        tilt.amt = card.ambient_tilt*(0.5+math.cos(tilt_angle))*tilt_factor
    end

    local children = card.children
    if card.area ~= G.hand and children.focused_ui then children.focused_ui:draw() end
    children.center:draw_shader('dissolve')
    if children.front then children.front:draw_shader('dissolve') end
    for key, child in pairs(children) do
        if key ~= 'focused_ui' and key ~= 'front' and key ~= 'back' and
            key ~= 'soul_parts' and key ~= 'center' and key ~= 'floating_sprite' and
            key ~= 'shadow' and key ~= 'use_button' and key ~= 'buy_button' and
            key ~= 'buy_and_use_button' and key ~= 'debuff' and key ~= 'price' and
            key ~= 'particles' and key ~= 'h_popup' then
            child:draw()
        end
    end
    if card.area == G.hand and children.focused_ui then children.focused_ui:draw() end
    add_to_drawhash(card)
end

"#;

/// The start of `Card:draw`, sending plain cards to the fast path.
pub const MIYOO_CARD_DRAW_ENTRY: &'static str = r#"function Card:draw(layer)
    layer = layer or 'both'

    self.hover_tilt = 1

    if not self.states.visible then return end

    local children = self.children
    if layer == 'card' and self.sprite_facing == 'front' and not self.vortex and
        self.ability.set == 'Default' and self.config.center == G.P_CENTERS.c_base and
        not self.edition and not self.seal and not self.debuff and not self.greyed and
        not self.sticker and not self.sticker_run and
        not children.particles and not children.price and not children.buy_button and
        not children.buy_and_use_button and not children.use_button then
        G.shared_shadow = children.center
        SVMM_draw_plain_card(self)
        return
    end
"#;

/// The start of the UI element draw function that is replaced.
pub const UI_DRAW_START: &'static str = "function UIElement:draw_self()";

/// The function that follows the replaced UI element draw function.
pub const UI_DRAW_END: &'static str = "function UIElement:draw_pixellated_rect";

pub const MOVE_START: &'static str = "function Moveable:move(dt)";

pub const MOVE_END: &'static str = "function Moveable:lr_clamp()";

pub const MOVE_WITH_MAJOR_START: &'static str = "function Moveable:move_with_major(dt)";

pub const MOVE_WITH_MAJOR_END: &'static str = "function Moveable:move_xy(dt)";

/// The line of `Sprite:draw_shader` after which the shader fast path is inserted.
pub const SPRITE_MARKER: &'static str = "function Sprite:draw_shader(_shader, _shadow_height, _send, _no_tilt, other_obj, ms, mr, mx, my, custom_shader, tilt_shadow)\n    if G.SETTINGS.reduced_motion then _no_tilt = true end";

pub const PREP_DRAW_START: &'static str = "function prep_draw(moveable, scale, rotate, offset)";

pub const PREP_DRAW_END: &'static str = "function get_chosen_triangle_from_rect";

/// The start of `Card:draw` that the plain-card fast path precedes and replaces.
pub const CARD_MARKER: &'static str = "function Card:draw(layer)\n    layer = layer or 'both'\n\n    self.hover_tilt = 1\n    \n    if not self.states.visible then return end";

/// The call that marks a game script whose moveable loop was replaced.
pub const MOVEABLE_UPDATE_CALL: &'static str = "SVMM_update_moveables(self, move_dt, dt*self.SPEEDFACTOR)";

/// The start of the final canvas pass of `Game:draw`.
pub const FINAL_PASS_START: &'static str = "love.graphics.pop()\n    \n    love.graphics.setCanvas()";

/// The checkpoint that ends the final canvas pass.
pub const FINAL_PASS_END: &'static str = "    timer_checkpoint('canvas', 'draw')";

/// What the final canvas pass becomes.
pub const FINAL_PASS_REPLACEMENT: &'static str = "love.graphics.pop()\n\n    love.graphics.setShader()\n\n";

/// The debug outline draw removed from drawing scripts.
pub const BOUNDING_RECT_DRAW: &'static str = "    self:draw_boundingrect()\n";

pub const EMPTY: &'static str = "";

/// The game scripts that the handheld build patches.
#[derive(Clone, Copy, PartialEq, Eq, Structural)]
pub enum ScriptKind {
    Globals,
    Game,
    Main,
    CommonEvents,
    UiDefinitions,
    Moveable,
    CardArea,
    Card,
    Ui,
    Text,
    MiscFunctions,
    Node,
    Particles,
    CardCharacter,
    Sprite,
    Event,
}

/// The script a normalized path names, if the handheld build patches it.
pub open spec fn script_kind(path: Seq<u8>) -> Option<ScriptKind> {
    if path == "globals.lua".spec_bytes() {
        Some(ScriptKind::Globals)
    } else if path == "game.lua".spec_bytes() {
        Some(ScriptKind::Game)
    } else if path == "main.lua".spec_bytes() {
        Some(ScriptKind::Main)
    } else if path == "functions/common_events.lua".spec_bytes() {
        Some(ScriptKind::CommonEvents)
    } else if path == "functions/UI_definitions.lua".spec_bytes() {
        Some(ScriptKind::UiDefinitions)
    } else if path == "engine/moveable.lua".spec_bytes() {
        Some(ScriptKind::Moveable)
    } else if path == "cardarea.lua".spec_bytes() {
        Some(ScriptKind::CardArea)
    } else if path == "card.lua".spec_bytes() {
        Some(ScriptKind::Card)
    } else if path == "engine/ui.lua".spec_bytes() {
        Some(ScriptKind::Ui)
    } else if path == "engine/text.lua".spec_bytes() {
        Some(ScriptKind::Text)
    } else if path == "functions/misc_functions.lua".spec_bytes() {
        Some(ScriptKind::MiscFunctions)
    } else if path == "engine/node.lua".spec_bytes() {
        Some(ScriptKind::Node)
    } else if path == "engine/particles.lua".spec_bytes() {
        Some(ScriptKind::Particles)
    } else if path == "card_character.lua".spec_bytes() {
        Some(ScriptKind::CardCharacter)
    } else if path == "engine/sprite.lua".spec_bytes() {
        Some(ScriptKind::Sprite)
    } else if path == "engine/event.lua".spec_bytes() {
        Some(ScriptKind::Event)
    } else {
        None
    }
}

/// The text substitutions applied, in order, to a script of each kind.
pub open spec fn miyoo_rules(kind: ScriptKind) -> Seq<(&'static str, &'static str)> {
    match kind {
        ScriptKind::Globals => seq![
            (
                "self.F_MUTE = false",
                "self.F_MUTE = os.getenv('BALATRO_AUDIO') ~= '1'",
            ),
            (
                "self.F_SOUND_THREAD = true",
                "self.F_SOUND_THREAD = false",
            ),
            (
                "self.F_VIDEO_SETTINGS = true",
                "self.F_VIDEO_SETTINGS = false",
            ),
            (
                "self.F_VERBOSE = true",
                "self.F_VERBOSE = false",
            ),
            (
                "texture_scaling = 2",
                "texture_scaling = 1",
            ),
            (
                "shadows = 'On'",
                "shadows = 'Off'",
            ),
            (
                "self.TILE_H = 11.5",
                "self.TILE_H = 11.5\n    self.SVMM_HANDHELD_LAYOUT = os.getenv('BALATRO_HANDHELD_LAYOUT') ~= '0'",
            ),
            (
                "self.MOVEABLES = {}",
                "self.MOVEABLES = {}\n    self.SVMM_UPDATEABLES = {}\n    self.SVMM_MAJORS = {}\n    self.SVMM_MINORS = {}\n    self.SVMM_GLUED = {}",
            ),
        ],
        ScriptKind::Game => seq![
            (
                "config = {align='tm', offset = {x=0,y=-0.8},major = self.hand, bond = 'Weak'}",
                "config = {instance_type='POPUP', align='tm', offset = {x=0,y=-0.8},major = self.hand, bond = 'Weak'}",
            ),
            (
                "function Game:update(dt)",
                "SVMM_UPDATE_JIT_FUNCTIONS = {score_intensity = modulate_sound}\n\nfunction Game:update(dt)",
            ),
            (
                "self.SETTINGS.GRAPHICS.texture_scaling = self.SETTINGS.GRAPHICS.texture_scaling or 2",
                "self.SETTINGS.GRAPHICS.texture_scaling = 1\n    self.SETTINGS.GRAPHICS.shadows = 'Off'\n    self.SETTINGS.GRAPHICS.crt = 0\n    self.SETTINGS.GRAPHICS.bloom = 0",
            ),
            (
                "config = {align=('cli'), offset = {x=-0.7,y=0},major = G.ROOM_ATTACH}",
                "config = {align=('cli'), offset = {x=G.SVMM_HANDHELD_LAYOUT and 0 or -0.7,y=0},major = G.ROOM_ATTACH}",
            ),
            (
                "render_scale = self.TILESIZE*10",
                "render_scale = self.TILESIZE*2.5",
            ),
            (
                "FONTSCALE = 0.1, squish",
                "FONTSCALE = 0.4, LAYOUT_FONTSCALE = 0.1, squish",
            ),
            (
                "render_scale = self.TILESIZE*7",
                "render_scale = self.TILESIZE*2",
            ),
            (
                "FONTSCALE = 0.12, squish",
                "FONTSCALE = 0.42, LAYOUT_FONTSCALE = 0.12, squish",
            ),
            (
                "love.graphics.setCanvas{self.CANVAS}",
                "love.graphics.setCanvas()",
            ),
            (
                "        love.graphics.draw(self.CANVAS, 0, 0)",
                "        -- The software renderer already drew this frame to the screen.",
            ),
            (
                "love.graphics.setCanvas(G.AA_CANVAS)",
                "love.graphics.setCanvas()",
            ),
            (
                "    if G.AA_CANVAS then \n        love.graphics.push()\n            love.graphics.scale(1/G.CANV_SCALE)\n            love.graphics.draw(G.AA_CANVAS, 0, 0)\n        love.graphics.pop()\n    end",
                "    -- CRT and antialiasing are disabled, so there is no final canvas to composite.",
            ),
            (
                "        for k, v in pairs(self.MOVEABLES) do\n            if v.FRAME.MOVE < G.FRAMES.MOVE then v:move(move_dt) end\n        end\n                    timer_checkpoint('move', 'update')\n        \n        for k, v in pairs(self.MOVEABLES) do\n            v:update(dt*self.SPEEDFACTOR)\n            v.states.collide.is = false\n        end",
                "        SVMM_update_moveables(self, move_dt, dt*self.SPEEDFACTOR)",
            ),
            (
                "for k, v in pairs(self.I.NODE) do",
                "for i = 1, #self.I.NODE do\n        local v = self.I.NODE[i]",
            ),
            (
                "for k, v in pairs(self.I.MOVEABLE) do",
                "for i = 1, #self.I.MOVEABLE do\n        local v = self.I.MOVEABLE[i]",
            ),
            (
                "for k, v in pairs(self.I.UIBOX) do",
                "for i = 1, #self.I.UIBOX do\n            local v = self.I.UIBOX[i]",
            ),
            (
                "for k, v in pairs(self.I.CARDAREA) do",
                "for i = 1, #self.I.CARDAREA do\n            local v = self.I.CARDAREA[i]",
            ),
            (
                "for k, v in pairs(self.I.CARD) do",
                "for i = 1, #self.I.CARD do\n            local v = self.I.CARD[i]",
            ),
            (
                "for k, v in pairs(self.I.ALERT) do",
                "for i = 1, #self.I.ALERT do\n        local v = self.I.ALERT[i]",
            ),
            (
                "for k, v in pairs(self.I.POPUP) do",
                "for i = 1, #self.I.POPUP do\n        local v = self.I.POPUP[i]",
            ),
        ],
        ScriptKind::Main => seq![
            (
                "if w/h < G.window_prev.orig_ratio then\n\t\tG.TILESCALE = G.window_prev.orig_scale*w/G.window_prev.w\n\telse\n\t\tG.TILESCALE = G.window_prev.orig_scale*h/G.window_prev.h\n\tend",
                "if G.SVMM_HANDHELD_LAYOUT then\n\t\tG.TILESCALE = w/(G.TILESIZE*G.TILE_W)\n\telseif w/h < G.window_prev.orig_ratio then\n\t\tG.TILESCALE = G.window_prev.orig_scale*w/G.window_prev.w\n\telse\n\t\tG.TILESCALE = G.window_prev.orig_scale*h/G.window_prev.h\n\tend",
            ),
            (
                "if w/h < G.window_prev.orig_ratio then\n\t\t\tG.ROOM.T.x = G.ROOM_PADDING_W\n\t\t\tG.ROOM.T.y = (h/(G.TILESIZE*G.TILESCALE) - (G.ROOM.T.h+G.ROOM_PADDING_H))/2 + G.ROOM_PADDING_H/2\n\t\telse",
                "if G.SVMM_HANDHELD_LAYOUT then\n\t\t\tG.ROOM.T.x = 0\n\t\t\tG.ROOM.T.y = (h/(G.TILESIZE*G.TILESCALE) - G.ROOM.T.h)/2\n\t\telseif w/h < G.window_prev.orig_ratio then\n\t\t\tG.ROOM.T.x = G.ROOM_PADDING_W\n\t\t\tG.ROOM.T.y = (h/(G.TILESIZE*G.TILESCALE) - (G.ROOM.T.h+G.ROOM_PADDING_H))/2 + G.ROOM_PADDING_H/2\n\t\telse",
            ),
        ],
        ScriptKind::CommonEvents => seq![
            (
                "G.hand.T.x = G.TILE_W - G.hand.T.w - 2.85",
                "G.hand.T.x = G.TILE_W - G.hand.T.w - (G.SVMM_HANDHELD_LAYOUT and 2.35 or 2.85)",
            ),
            (
                "G.hand.T.y = G.TILE_H - G.hand.T.h",
                "G.hand.T.y = G.TILE_H - G.hand.T.h - (G.SVMM_HANDHELD_LAYOUT and 1.15 or 0)",
            ),
            (
                "G.deck.T.x = G.TILE_W - G.deck.T.w - 0.5",
                "G.deck.T.x = G.TILE_W - G.deck.T.w - (G.SVMM_HANDHELD_LAYOUT and 0.1 or 0.5)",
            ),
        ],
        ScriptKind::UiDefinitions => seq![
            (
                "minh = 30, padding = 0.08",
                "minh = G.SVMM_HANDHELD_LAYOUT and 0 or 30, padding = 0.08",
            ),
        ],
        ScriptKind::Moveable => seq![
            (
                "    table.insert(G.MOVEABLES, self)\n    if getmetatable(self) == Moveable then ",
                "    table.insert(G.MOVEABLES, self)\n    local update = self.update\n    local needs_update = update ~= Node.update\n    if needs_update and UIElement and update == UIElement.update then\n        local config = self.config\n        local kind = self.UIT\n        needs_update = kind == G.UIT.O or\n            (kind == G.UIT.T and config.ref_table and config.ref_value) or\n            config.func or config.button_delay\n    end\n    if needs_update then table.insert(G.SVMM_UPDATEABLES, self) end\n    if getmetatable(self) == Moveable then ",
            ),
            (
                "function Moveable:remove()\n    for k, v in pairs(G.MOVEABLES) do",
                "function Moveable:remove()\n    for i = 1, #G.SVMM_UPDATEABLES do\n        if G.SVMM_UPDATEABLES[i] == self then\n            table.remove(G.SVMM_UPDATEABLES, i)\n            break\n        end\n    end\n    for k, v in pairs(G.MOVEABLES) do",
            ),
            (
                "    self.CALCING = nil\n    if self.role.role_type == 'Glued' then",
                "    self.CALCING = nil\n    local velocity = self.velocity\n    local states = self.states\n    if self.role.role_type == 'Major' and self.STATIONARY and\n        not self.NEW_ALIGNMENT and not self.config.refresh_movement and\n        not self.juice and not self.alignment.lr_clamp and\n        not self.pinch.x and not self.pinch.y and\n        not (self.zoom and (states.drag.is or states.hover.is)) and\n        self.T.x == self.VT.x and self.T.y == self.VT.y and\n        self.T.w == self.VT.w and self.T.h == self.VT.h and\n        self.T.r == self.VT.r and self.T.scale == self.VT.scale and\n        velocity.x == 0 and velocity.y == 0 and\n        velocity.r == 0 and velocity.scale == 0 then\n            self.NEW_ALIGNMENT = false\n            return\n    end\n    if self.role.role_type == 'Glued' then",
            ),
            (
                "            self.role.xy_bond == 'Weak' or \n            self.role.r_bond == 'Weak' then  ",
                "            (self.role.xy_bond == 'Weak' and\n                (self.T.x ~= self.VT.x or self.T.y ~= self.VT.y or\n                 math.abs(velocity.x) > 0.01 or math.abs(velocity.y) > 0.01)) or\n            (self.role.r_bond == 'Weak' and\n                (self.T.r ~= self.VT.r or math.abs(velocity.r) > 0.001)) or\n            (self.zoom and (states.drag.is or states.hover.is)) then  ",
            ),
        ],
        ScriptKind::CardArea => seq![
            (
                "self.ARGS.draw_layers = self.ARGS.draw_layers or self.config.draw_layers or {'shadow', 'card'}",
                "self.ARGS.draw_layers = self.ARGS.draw_layers or self.config.draw_layers or {'card'}",
            ),
            (
                "scale = 0.3, colour = G.C.WHITE",
                "scale = 0.5, colour = G.C.WHITE",
            ),
        ],
        ScriptKind::Card => seq![
            (
                "    self.children.shadow = Moveable(0, 0, 0, 0)\n",
                "",
            ),
            (
                "if (layer == 'shadow' or layer == 'both') then",
                "if (layer == 'shadow' or layer == 'both' or (layer == 'card' and G.SETTINGS.GRAPHICS.shadows ~= 'On')) then",
            ),
            (
                "function Card:update(dt)\n    if self.flipping == 'f2b' then",
                "function Card:update(dt)\n    if self.ability.set == 'Default' and self.config.center == G.P_CENTERS.c_base and\n        not self.flipping and not self.children.focused_ui and\n        not self.ability.perma_debuff then return end\n    if self.flipping == 'f2b' then",
            ),
        ],
        ScriptKind::Ui => seq![
            (
                "function UIElement:remove()\n",
                "function UIElement:remove()\n    if self.config and self.config.text_drawable then\n        self.config.text_drawable:release()\n        self.config.text_drawable = nil\n    end\n",
            ),
            (
                "function UIElement:draw_pixellated_rect(_type, _parallax, _emboss, _progress)",
                "function UIElement:draw_pixellated_rect(_type, _parallax, _emboss, _progress, _native_only)",
            ),
            (
                "    self.config = config or {}\n    if self.config and self.config.object then",
                "    self.config = config or {}\n    self.config.shadow = nil\n    self.config.emboss = nil\n    self.config.line_emboss = nil\n    if self.config.object then",
            ),
            (
                "function UIElement:update(dt)\n    G.ARGS.FUNC_TRACKER = G.ARGS.FUNC_TRACKER or {}\n    if self.config.button_delay then\n        self.config.button_temp = self.config.button or self.config.button_temp\n        self.config.button = nil\n        self.config.button_delay_progress = (G.TIMERS.REAL - self.config.button_delay_start)/self.config.button_delay\n        if G.TIMERS.REAL >= self.config.button_delay_end then self.config.button_delay = nil end\n    end\n    if self.config.button_temp and not self.config.button_delay then self.config.button = self.config.button_temp end\n    if self.button_clicked then self.button_clicked = nil end\n    if self.config and self.config.func then\n        G.ARGS.FUNC_TRACKER[self.config.func] = (G.ARGS.FUNC_TRACKER[self.config.func] or 0) + 1\n        G.FUNCS[self.config.func](self)\n    end\n    if self.UIT == G.UIT.T then self:update_text() end\n    if self.UIT == G.UIT.O then self:update_object() end\n    Node.update(self, dt)\nend",
                "function UIElement:update(dt)\n    local config = self.config\n    if config.button_delay then\n        config.button_temp = config.button or config.button_temp\n        config.button = nil\n        config.button_delay_progress = (G.TIMERS.REAL - config.button_delay_start)/config.button_delay\n        if G.TIMERS.REAL >= config.button_delay_end then config.button_delay = nil end\n    end\n    if config.button_temp and not config.button_delay then config.button = config.button_temp end\n    if self.button_clicked then self.button_clicked = nil end\n    if config.func then G.FUNCS[config.func](self) end\n    local kind = self.UIT\n    if kind == G.UIT.T then self:update_text() end\n    if kind == G.UIT.O then self:update_object() end\nend",
            ),
            (
                "    love.graphics.polygon((_type == 'line' or _type == 'line_emboss') and 'line' or \"fill\", self.pixellated_rect[_type].vertices)\nend",
                "    local polygon = self.pixellated_rect[_type]\n    polygon.native = polygon.native or love.graphics.newPolygonData(polygon.vertices)\n    if _native_only then return polygon.native end\n    love.graphics.drawPolygonData((_type == 'line' or _type == 'line_emboss') and 'line' or \"fill\", polygon.native)\nend",
            ),
        ],
        ScriptKind::Text => seq![
            (
                "    self.config = config\n    self.shadow = config.shadow",
                "    self.config = config\n    self.config.shadow = false\n    self.shadow = false",
            ),
            (
                "    self.font = config.font or G.LANG.font",
                "    self.font = config.font or G.LANG.font\n    self.layout_font_scale = self.font.LAYOUT_FONTSCALE or self.font.FONTSCALE",
            ),
            (
                "    self:update_text(true)\n    if self.config.maxw",
                "    self:update_text(true)\n    local first_string = self.config.string[1]\n    self._svmm_can_idle = #self.config.string == 1 and\n        not (type(first_string) == 'table' and first_string.ref_table) and\n        not self.config.float and not self.config.bump and not self.config.rotate and\n        not self.config.pulse and not self.config.quiver\n    if self.config.maxw",
            ),
            (
                "function DynaText:update(dt)\n    self:update_text()\n    self:align_letters()\nend",
                "function DynaText:update(dt)\n    if self._svmm_can_idle and not self.config.pop_in and\n        not self.config.pop_out and not self.config.pulse and\n        not self.config.quiver then return end\n    self:update_text()\n    self:align_letters()\nend",
            ),
            (
                " + 2.7*(self.config.spacing or 0)*G.TILESCALE*self.font.FONTSCALE",
                " + 2.7*(self.config.spacing or 0)*G.TILESCALE*self.layout_font_scale",
            ),
            (
                "(self.font.FONTSCALE/G.TILESIZE)*2000*math.sin",
                "(self.layout_font_scale/G.TILESIZE)*2000*math.sin",
            ),
            (
                "self.text_offset.x*self.font.FONTSCALE/G.TILESIZE",
                "self.text_offset.x*self.layout_font_scale/G.TILESIZE",
            ),
            (
                "self.text_offset.y*self.font.FONTSCALE/G.TILESIZE",
                "self.text_offset.y*self.layout_font_scale/G.TILESIZE",
            ),
            (
                "self.config.spacing*self.font.FONTSCALE/G.TILESIZE",
                "self.config.spacing*self.layout_font_scale/G.TILESIZE",
            ),
            (
                "0.5*(letter.dims.x - letter.offset.x)*self.font.FONTSCALE/G.TILESIZE",
                "0.5*(letter.dims.x*self.font.FONTSCALE - letter.offset.x*self.layout_font_scale)/G.TILESIZE",
            ),
            (
                "0.5*(letter.dims.y - letter.offset.y)*self.font.FONTSCALE/G.TILESIZE",
                "0.5*(letter.dims.y*self.font.FONTSCALE - letter.offset.y*self.layout_font_scale)/G.TILESIZE",
            ),
            (
                "self.shadow_parrallax.x/math.sqrt(self.shadow_parrallax.y*self.shadow_parrallax.y + self.shadow_parrallax.x*self.shadow_parrallax.x)*self.font.FONTSCALE/G.TILESIZE",
                "self.shadow_parrallax.x/math.sqrt(self.shadow_parrallax.y*self.shadow_parrallax.y + self.shadow_parrallax.x*self.shadow_parrallax.x)*self.layout_font_scale/G.TILESIZE",
            ),
            (
                "self.shadow_parrallax.y/math.sqrt(self.shadow_parrallax.y*self.shadow_parrallax.y + self.shadow_parrallax.x*self.shadow_parrallax.x)*self.font.FONTSCALE/G.TILESIZE",
                "self.shadow_parrallax.y/math.sqrt(self.shadow_parrallax.y*self.shadow_parrallax.y + self.shadow_parrallax.x*self.shadow_parrallax.x)*self.layout_font_scale/G.TILESIZE",
            ),
        ],
        ScriptKind::MiscFunctions => seq![
            (
                "function PLAY_SOUND(args)",
                "function PLAY_SOUND(args, defer_play)",
            ),
            (
                "  love.audio.play(s.sound)",
                "  if not defer_play then love.audio.play(s.sound) end",
            ),
            (
                "  if obj then \n    G.DRAW_HASH[#G.DRAW_HASH+1] = obj",
                "  if obj then \n    obj.under_overlay = G.under_overlay\n    G.DRAW_HASH[#G.DRAW_HASH+1] = obj",
            ),
            (
                "function modulate_sound(dt)\n  --volume of the splash screen is set here",
                "function modulate_sound(dt)\n  if G.F_MUTE then\n    local intensity = G.ARGS.score_intensity or {}\n    G.ARGS.score_intensity = intensity\n    local hand = G.GAME.current_round.current_hand\n    intensity.earned_score = type(hand.chips) == 'number' and\n      type(hand.mult) == 'number' and hand.chips*hand.mult or 0\n    intensity.required_score = G.GAME.blind and G.GAME.blind.chips or 0\n    return\n  end\n  --volume of the splash screen is set here",
            ),
        ],
        _ => Seq::empty(),
    }
}

fn miyoo_rule_table(kind: ScriptKind) -> (table: Vec<(&'static str, &'static str)>)
    ensures
        table@ == miyoo_rules(kind),
{
    let mut table: Vec<(&'static str, &'static str)> = Vec::new();
    match kind {
        ScriptKind::Globals => {
            table.push((
                "self.F_MUTE = false",
                "self.F_MUTE = os.getenv('BALATRO_AUDIO') ~= '1'",
            ));
            table.push((
                "self.F_SOUND_THREAD = true",
                "self.F_SOUND_THREAD = false",
            ));
            table.push((
                "self.F_VIDEO_SETTINGS = true",
                "self.F_VIDEO_SETTINGS = false",
            ));
            table.push((
                "self.F_VERBOSE = true",
                "self.F_VERBOSE = false",
            ));
            table.push((
                "texture_scaling = 2",
                "texture_scaling = 1",
            ));
            table.push((
                "shadows = 'On'",
                "shadows = 'Off'",
            ));
            table.push((
                "self.TILE_H = 11.5",
                "self.TILE_H = 11.5\n    self.SVMM_HANDHELD_LAYOUT = os.getenv('BALATRO_HANDHELD_LAYOUT') ~= '0'",
            ));
            table.push((
                "self.MOVEABLES = {}",
                "self.MOVEABLES = {}\n    self.SVMM_UPDATEABLES = {}\n    self.SVMM_MAJORS = {}\n    self.SVMM_MINORS = {}\n    self.SVMM_GLUED = {}",
            ));
        },
        ScriptKind::Game => {
            table.push((
                "config = {align='tm', offset = {x=0,y=-0.8},major = self.hand, bond = 'Weak'}",
                "config = {instance_type='POPUP', align='tm', offset = {x=0,y=-0.8},major = self.hand, bond = 'Weak'}",
            ));
            table.push((
                "function Game:update(dt)",
                "SVMM_UPDATE_JIT_FUNCTIONS = {score_intensity = modulate_sound}\n\nfunction Game:update(dt)",
            ));
            table.push((
                "self.SETTINGS.GRAPHICS.texture_scaling = self.SETTINGS.GRAPHICS.texture_scaling or 2",
                "self.SETTINGS.GRAPHICS.texture_scaling = 1\n    self.SETTINGS.GRAPHICS.shadows = 'Off'\n    self.SETTINGS.GRAPHICS.crt = 0\n    self.SETTINGS.GRAPHICS.bloom = 0",
            ));
            table.push((
                "config = {align=('cli'), offset = {x=-0.7,y=0},major = G.ROOM_ATTACH}",
                "config = {align=('cli'), offset = {x=G.SVMM_HANDHELD_LAYOUT and 0 or -0.7,y=0},major = G.ROOM_ATTACH}",
            ));
            table.push((
                "render_scale = self.TILESIZE*10",
                "render_scale = self.TILESIZE*2.5",
            ));
            table.push((
                "FONTSCALE = 0.1, squish",
                "FONTSCALE = 0.4, LAYOUT_FONTSCALE = 0.1, squish",
            ));
            table.push((
                "render_scale = self.TILESIZE*7",
                "render_scale = self.TILESIZE*2",
            ));
            table.push((
                "FONTSCALE = 0.12, squish",
                "FONTSCALE = 0.42, LAYOUT_FONTSCALE = 0.12, squish",
            ));
            table.push((
                "love.graphics.setCanvas{self.CANVAS}",
                "love.graphics.setCanvas()",
            ));
            table.push((
                "        love.graphics.draw(self.CANVAS, 0, 0)",
                "        -- The software renderer already drew this frame to the screen.",
            ));
            table.push((
                "love.graphics.setCanvas(G.AA_CANVAS)",
                "love.graphics.setCanvas()",
            ));
            table.push((
                "    if G.AA_CANVAS then \n        love.graphics.push()\n            love.graphics.scale(1/G.CANV_SCALE)\n            love.graphics.draw(G.AA_CANVAS, 0, 0)\n        love.graphics.pop()\n    end",
                "    -- CRT and antialiasing are disabled, so there is no final canvas to composite.",
            ));
            table.push((
                "        for k, v in pairs(self.MOVEABLES) do\n            if v.FRAME.MOVE < G.FRAMES.MOVE then v:move(move_dt) end\n        end\n                    timer_checkpoint('move', 'update')\n        \n        for k, v in pairs(self.MOVEABLES) do\n            v:update(dt*self.SPEEDFACTOR)\n            v.states.collide.is = false\n        end",
                "        SVMM_update_moveables(self, move_dt, dt*self.SPEEDFACTOR)",
            ));
            table.push((
                "for k, v in pairs(self.I.NODE) do",
                "for i = 1, #self.I.NODE do\n        local v = self.I.NODE[i]",
            ));
            table.push((
                "for k, v in pairs(self.I.MOVEABLE) do",
                "for i = 1, #self.I.MOVEABLE do\n        local v = self.I.MOVEABLE[i]",
            ));
            table.push((
                "for k, v in pairs(self.I.UIBOX) do",
                "for i = 1, #self.I.UIBOX do\n            local v = self.I.UIBOX[i]",
            ));
            table.push((
                "for k, v in pairs(self.I.CARDAREA) do",
                "for i = 1, #self.I.CARDAREA do\n            local v = self.I.CARDAREA[i]",
            ));
            table.push((
                "for k, v in pairs(self.I.CARD) do",
                "for i = 1, #self.I.CARD do\n            local v = self.I.CARD[i]",
            ));
            table.push((
                "for k, v in pairs(self.I.ALERT) do",
                "for i = 1, #self.I.ALERT do\n        local v = self.I.ALERT[i]",
            ));
            table.push((
                "for k, v in pairs(self.I.POPUP) do",
                "for i = 1, #self.I.POPUP do\n        local v = self.I.POPUP[i]",
            ));
        },
        ScriptKind::Main => {
            table.push((
                "if w/h < G.window_prev.orig_ratio then\n\t\tG.TILESCALE = G.window_prev.orig_scale*w/G.window_prev.w\n\telse\n\t\tG.TILESCALE = G.window_prev.orig_scale*h/G.window_prev.h\n\tend",
                "if G.SVMM_HANDHELD_LAYOUT then\n\t\tG.TILESCALE = w/(G.TILESIZE*G.TILE_W)\n\telseif w/h < G.window_prev.orig_ratio then\n\t\tG.TILESCALE = G.window_prev.orig_scale*w/G.window_prev.w\n\telse\n\t\tG.TILESCALE = G.window_prev.orig_scale*h/G.window_prev.h\n\tend",
            ));
            table.push((
                "if w/h < G.window_prev.orig_ratio then\n\t\t\tG.ROOM.T.x = G.ROOM_PADDING_W\n\t\t\tG.ROOM.T.y = (h/(G.TILESIZE*G.TILESCALE) - (G.ROOM.T.h+G.ROOM_PADDING_H))/2 + G.ROOM_PADDING_H/2\n\t\telse",
                "if G.SVMM_HANDHELD_LAYOUT then\n\t\t\tG.ROOM.T.x = 0\n\t\t\tG.ROOM.T.y = (h/(G.TILESIZE*G.TILESCALE) - G.ROOM.T.h)/2\n\t\telseif w/h < G.window_prev.orig_ratio then\n\t\t\tG.ROOM.T.x = G.ROOM_PADDING_W\n\t\t\tG.ROOM.T.y = (h/(G.TILESIZE*G.TILESCALE) - (G.ROOM.T.h+G.ROOM_PADDING_H))/2 + G.ROOM_PADDING_H/2\n\t\telse",
            ));
        },
        ScriptKind::CommonEvents => {
            table.push((
                "G.hand.T.x = G.TILE_W - G.hand.T.w - 2.85",
                "G.hand.T.x = G.TILE_W - G.hand.T.w - (G.SVMM_HANDHELD_LAYOUT and 2.35 or 2.85)",
            ));
            table.push((
                "G.hand.T.y = G.TILE_H - G.hand.T.h",
                "G.hand.T.y = G.TILE_H - G.hand.T.h - (G.SVMM_HANDHELD_LAYOUT and 1.15 or 0)",
            ));
            table.push((
                "G.deck.T.x = G.TILE_W - G.deck.T.w - 0.5",
                "G.deck.T.x = G.TILE_W - G.deck.T.w - (G.SVMM_HANDHELD_LAYOUT and 0.1 or 0.5)",
            ));
        },
        ScriptKind::UiDefinitions => {
            table.push((
                "minh = 30, padding = 0.08",
                "minh = G.SVMM_HANDHELD_LAYOUT and 0 or 30, padding = 0.08",
            ));
        },
        ScriptKind::Moveable => {
            table.push((
                "    table.insert(G.MOVEABLES, self)\n    if getmetatable(self) == Moveable then ",
                "    table.insert(G.MOVEABLES, self)\n    local update = self.update\n    local needs_update = update ~= Node.update\n    if needs_update and UIElement and update == UIElement.update then\n        local config = self.config\n        local kind = self.UIT\n        needs_update = kind == G.UIT.O or\n            (kind == G.UIT.T and config.ref_table and config.ref_value) or\n            config.func or config.button_delay\n    end\n    if needs_update then table.insert(G.SVMM_UPDATEABLES, self) end\n    if getmetatable(self) == Moveable then ",
            ));
            table.push((
                "function Moveable:remove()\n    for k, v in pairs(G.MOVEABLES) do",
                "function Moveable:remove()\n    for i = 1, #G.SVMM_UPDATEABLES do\n        if G.SVMM_UPDATEABLES[i] == self then\n            table.remove(G.SVMM_UPDATEABLES, i)\n            break\n        end\n    end\n    for k, v in pairs(G.MOVEABLES) do",
            ));
            table.push((
                "    self.CALCING = nil\n    if self.role.role_type == 'Glued' then",
                "    self.CALCING = nil\n    local velocity = self.velocity\n    local states = self.states\n    if self.role.role_type == 'Major' and self.STATIONARY and\n        not self.NEW_ALIGNMENT and not self.config.refresh_movement and\n        not self.juice and not self.alignment.lr_clamp and\n        not self.pinch.x and not self.pinch.y and\n        not (self.zoom and (states.drag.is or states.hover.is)) and\n        self.T.x == self.VT.x and self.T.y == self.VT.y and\n        self.T.w == self.VT.w and self.T.h == self.VT.h and\n        self.T.r == self.VT.r and self.T.scale == self.VT.scale and\n        velocity.x == 0 and velocity.y == 0 and\n        velocity.r == 0 and velocity.scale == 0 then\n            self.NEW_ALIGNMENT = false\n            return\n    end\n    if self.role.role_type == 'Glued' then",
            ));
            table.push((
                "            self.role.xy_bond == 'Weak' or \n            self.role.r_bond == 'Weak' then  ",
                "            (self.role.xy_bond == 'Weak' and\n                (self.T.x ~= self.VT.x or self.T.y ~= self.VT.y or\n                 math.abs(velocity.x) > 0.01 or math.abs(velocity.y) > 0.01)) or\n            (self.role.r_bond == 'Weak' and\n                (self.T.r ~= self.VT.r or math.abs(velocity.r) > 0.001)) or\n            (self.zoom and (states.drag.is or states.hover.is)) then  ",
            ));
        },
        ScriptKind::CardArea => {
            table.push((
                "self.ARGS.draw_layers = self.ARGS.draw_layers or self.config.draw_layers or {'shadow', 'card'}",
                "self.ARGS.draw_layers = self.ARGS.draw_layers or self.config.draw_layers or {'card'}",
            ));
            table.push((
                "scale = 0.3, colour = G.C.WHITE",
                "scale = 0.5, colour = G.C.WHITE",
            ));
        },
        ScriptKind::Card => {
            table.push((
                "    self.children.shadow = Moveable(0, 0, 0, 0)\n",
                "",
            ));
            table.push((
                "if (layer == 'shadow' or layer == 'both') then",
                "if (layer == 'shadow' or layer == 'both' or (layer == 'card' and G.SETTINGS.GRAPHICS.shadows ~= 'On')) then",
            ));
            table.push((
                "function Card:update(dt)\n    if self.flipping == 'f2b' then",
                "function Card:update(dt)\n    if self.ability.set == 'Default' and self.config.center == G.P_CENTERS.c_base and\n        not self.flipping and not self.children.focused_ui and\n        not self.ability.perma_debuff then return end\n    if self.flipping == 'f2b' then",
            ));
        },
        ScriptKind::Ui => {
            table.push((
                "function UIElement:remove()\n",
                "function UIElement:remove()\n    if self.config and self.config.text_drawable then\n        self.config.text_drawable:release()\n        self.config.text_drawable = nil\n    end\n",
            ));
            table.push((
                "function UIElement:draw_pixellated_rect(_type, _parallax, _emboss, _progress)",
                "function UIElement:draw_pixellated_rect(_type, _parallax, _emboss, _progress, _native_only)",
            ));
            table.push((
                "    self.config = config or {}\n    if self.config and self.config.object then",
                "    self.config = config or {}\n    self.config.shadow = nil\n    self.config.emboss = nil\n    self.config.line_emboss = nil\n    if self.config.object then",
            ));
            table.push((
                "function UIElement:update(dt)\n    G.ARGS.FUNC_TRACKER = G.ARGS.FUNC_TRACKER or {}\n    if self.config.button_delay then\n        self.config.button_temp = self.config.button or self.config.button_temp\n        self.config.button = nil\n        self.config.button_delay_progress = (G.TIMERS.REAL - self.config.button_delay_start)/self.config.button_delay\n        if G.TIMERS.REAL >= self.config.button_delay_end then self.config.button_delay = nil end\n    end\n    if self.config.button_temp and not self.config.button_delay then self.config.button = self.config.button_temp end\n    if self.button_clicked then self.button_clicked = nil end\n    if self.config and self.config.func then\n        G.ARGS.FUNC_TRACKER[self.config.func] = (G.ARGS.FUNC_TRACKER[self.config.func] or 0) + 1\n        G.FUNCS[self.config.func](self)\n    end\n    if self.UIT == G.UIT.T then self:update_text() end\n    if self.UIT == G.UIT.O then self:update_object() end\n    Node.update(self, dt)\nend",
                "function UIElement:update(dt)\n    local config = self.config\n    if config.button_delay then\n        config.button_temp = config.button or config.button_temp\n        config.button = nil\n        config.button_delay_progress = (G.TIMERS.REAL - config.button_delay_start)/config.button_delay\n        if G.TIMERS.REAL >= config.button_delay_end then config.button_delay = nil end\n    end\n    if config.button_temp and not config.button_delay then config.button = config.button_temp end\n    if self.button_clicked then self.button_clicked = nil end\n    if config.func then G.FUNCS[config.func](self) end\n    local kind = self.UIT\n    if kind == G.UIT.T then self:update_text() end\n    if kind == G.UIT.O then self:update_object() end\nend",
            ));
            table.push((
                "    love.graphics.polygon((_type == 'line' or _type == 'line_emboss') and 'line' or \"fill\", self.pixellated_rect[_type].vertices)\nend",
                "    local polygon = self.pixellated_rect[_type]\n    polygon.native = polygon.native or love.graphics.newPolygonData(polygon.vertices)\n    if _native_only then return polygon.native end\n    love.graphics.drawPolygonData((_type == 'line' or _type == 'line_emboss') and 'line' or \"fill\", polygon.native)\nend",
            ));
        },
        ScriptKind::Text => {
            table.push((
                "    self.config = config\n    self.shadow = config.shadow",
                "    self.config = config\n    self.config.shadow = false\n    self.shadow = false",
            ));
            table.push((
                "    self.font = config.font or G.LANG.font",
                "    self.font = config.font or G.LANG.font\n    self.layout_font_scale = self.font.LAYOUT_FONTSCALE or self.font.FONTSCALE",
            ));
            table.push((
                "    self:update_text(true)\n    if self.config.maxw",
                "    self:update_text(true)\n    local first_string = self.config.string[1]\n    self._svmm_can_idle = #self.config.string == 1 and\n        not (type(first_string) == 'table' and first_string.ref_table) and\n        not self.config.float and not self.config.bump and not self.config.rotate and\n        not self.config.pulse and not self.config.quiver\n    if self.config.maxw",
            ));
            table.push((
                "function DynaText:update(dt)\n    self:update_text()\n    self:align_letters()\nend",
                "function DynaText:update(dt)\n    if self._svmm_can_idle and not self.config.pop_in and\n        not self.config.pop_out and not self.config.pulse and\n        not self.config.quiver then return end\n    self:update_text()\n    self:align_letters()\nend",
            ));
            table.push((
                " + 2.7*(self.config.spacing or 0)*G.TILESCALE*self.font.FONTSCALE",
                " + 2.7*(self.config.spacing or 0)*G.TILESCALE*self.layout_font_scale",
            ));
            table.push((
                "(self.font.FONTSCALE/G.TILESIZE)*2000*math.sin",
                "(self.layout_font_scale/G.TILESIZE)*2000*math.sin",
            ));
            table.push((
                "self.text_offset.x*self.font.FONTSCALE/G.TILESIZE",
                "self.text_offset.x*self.layout_font_scale/G.TILESIZE",
            ));
            table.push((
                "self.text_offset.y*self.font.FONTSCALE/G.TILESIZE",
                "self.text_offset.y*self.layout_font_scale/G.TILESIZE",
            ));
            table.push((
                "self.config.spacing*self.font.FONTSCALE/G.TILESIZE",
                "self.config.spacing*self.layout_font_scale/G.TILESIZE",
            ));
            table.push((
                "0.5*(letter.dims.x - letter.offset.x)*self.font.FONTSCALE/G.TILESIZE",
                "0.5*(letter.dims.x*self.font.FONTSCALE - letter.offset.x*self.layout_font_scale)/G.TILESIZE",
            ));
            table.push((
                "0.5*(letter.dims.y - letter.offset.y)*self.font.FONTSCALE/G.TILESIZE",
                "0.5*(letter.dims.y*self.font.FONTSCALE - letter.offset.y*self.layout_font_scale)/G.TILESIZE",
            ));
            table.push((
                "self.shadow_parrallax.x/math.sqrt(self.shadow_parrallax.y*self.shadow_parrallax.y + self.shadow_parrallax.x*self.shadow_parrallax.x)*self.font.FONTSCALE/G.TILESIZE",
                "self.shadow_parrallax.x/math.sqrt(self.shadow_parrallax.y*self.shadow_parrallax.y + self.shadow_parrallax.x*self.shadow_parrallax.x)*self.layout_font_scale/G.TILESIZE",
            ));
            table.push((
                "self.shadow_parrallax.y/math.sqrt(self.shadow_parrallax.y*self.shadow_parrallax.y + self.shadow_parrallax.x*self.shadow_parrallax.x)*self.font.FONTSCALE/G.TILESIZE",
                "self.shadow_parrallax.y/math.sqrt(self.shadow_parrallax.y*self.shadow_parrallax.y + self.shadow_parrallax.x*self.shadow_parrallax.x)*self.layout_font_scale/G.TILESIZE",
            ));
        },
        ScriptKind::MiscFunctions => {
            table.push((
                "function PLAY_SOUND(args)",
                "function PLAY_SOUND(args, defer_play)",
            ));
            table.push((
                "  love.audio.play(s.sound)",
                "  if not defer_play then love.audio.play(s.sound) end",
            ));
            table.push((
                "  if obj then \n    G.DRAW_HASH[#G.DRAW_HASH+1] = obj",
                "  if obj then \n    obj.under_overlay = G.under_overlay\n    G.DRAW_HASH[#G.DRAW_HASH+1] = obj",
            ));
            table.push((
                "function modulate_sound(dt)\n  --volume of the splash screen is set here",
                "function modulate_sound(dt)\n  if G.F_MUTE then\n    local intensity = G.ARGS.score_intensity or {}\n    G.ARGS.score_intensity = intensity\n    local hand = G.GAME.current_round.current_hand\n    intensity.earned_score = type(hand.chips) == 'number' and\n      type(hand.mult) == 'number' and hand.chips*hand.mult or 0\n    intensity.required_score = G.GAME.blind and G.GAME.blind.chips or 0\n    return\n  end\n  --volume of the splash screen is set here",
            ));
        },
        _ => {},
    }
    assert(table@ =~= miyoo_rules(kind));
    table
}

fn classify(path: &[u8]) -> (kind: Option<ScriptKind>)
    ensures
        kind == script_kind(path@),
{
    if same_bytes(path, "globals.lua".as_bytes()) {
        return Some(ScriptKind::Globals);
    }
    if same_bytes(path, "game.lua".as_bytes()) {
        return Some(ScriptKind::Game);
    }
    if same_bytes(path, "main.lua".as_bytes()) {
        return Some(ScriptKind::Main);
    }
    if same_bytes(path, "functions/common_events.lua".as_bytes()) {
        return Some(ScriptKind::CommonEvents);
    }
    if same_bytes(path, "functions/UI_definitions.lua".as_bytes()) {
        return Some(ScriptKind::UiDefinitions);
    }
    if same_bytes(path, "engine/moveable.lua".as_bytes()) {
        return Some(ScriptKind::Moveable);
    }
    if same_bytes(path, "cardarea.lua".as_bytes()) {
        return Some(ScriptKind::CardArea);
    }
    if same_bytes(path, "card.lua".as_bytes()) {
        return Some(ScriptKind::Card);
    }
    if same_bytes(path, "engine/ui.lua".as_bytes()) {
        return Some(ScriptKind::Ui);
    }
    if same_bytes(path, "engine/text.lua".as_bytes()) {
        return Some(ScriptKind::Text);
    }
    if same_bytes(path, "functions/misc_functions.lua".as_bytes()) {
        return Some(ScriptKind::MiscFunctions);
    }
    if same_bytes(path, "engine/node.lua".as_bytes()) {
        return Some(ScriptKind::Node);
    }
    if same_bytes(path, "engine/particles.lua".as_bytes()) {
        return Some(ScriptKind::Particles);
    }
    if same_bytes(path, "card_character.lua".as_bytes()) {
        return Some(ScriptKind::CardCharacter);
    }
    if same_bytes(path, "engine/sprite.lua".as_bytes()) {
        return Some(ScriptKind::Sprite);
    }
    if same_bytes(path, "engine/event.lua".as_bytes()) {
        return Some(ScriptKind::Event);
    }
    None
}

/// Applies the substitutions in order, each to every occurrence left by the previous ones.
pub open spec fn apply_rules(s: Seq<u8>, rules: Seq<(&'static str, &'static str)>) -> Seq<u8>
    decreases rules.len(),
{
    if rules.len() == 0 {
        s
    } else {
        apply_rules(replace_all(s, rules[0].0.spec_bytes(), rules[0].1.spec_bytes()), rules.drop_first())
    }
}

proof fn lemma_apply_rules_step(s: Seq<u8>, rules: Seq<(&'static str, &'static str)>, i: int)
    requires
        0 <= i < rules.len(),
    ensures
        apply_rules(s, rules.subrange(i, rules.len() as int)) == apply_rules(
            replace_all(s, rules[i].0.spec_bytes(), rules[i].1.spec_bytes()),
            rules.subrange(i + 1, rules.len() as int),
        ),
{
    let rest = rules.subrange(i, rules.len() as int);
    assert(rest.drop_first() =~= rules.subrange(i + 1, rules.len() as int));
    assert(rest[0] == rules[i]);
}

fn apply_rule_table(s: Vec<u8>, rules: &Vec<(&'static str, &'static str)>) -> (r: Vec<u8>)
    ensures
        r@ == apply_rules(s@, rules@),
{
    let mut s = s;
    let mut i: usize = 0;
    let ghost start = s@;
    assert(rules@.subrange(0, rules@.len() as int) =~= rules@);
    while i < rules.len()
        invariant
            i <= rules@.len(),
            apply_rules(start, rules@) == apply_rules(s@, rules@.subrange(i as int, rules@.len() as int)),
        decreases rules@.len() - i,
    {
        let (from, to) = rules[i];
        proof {
            lemma_apply_rules_step(s@, rules@, i as int);
        }
        s = replace_all_bytes(s.as_slice(), from.as_bytes(), to.as_bytes());
        i += 1;
    }
    assert(rules@.subrange(i as int, rules@.len() as int) =~= Seq::<(&'static str, &'static str)>::empty());
    s
}

/// `s` with the text from the first `start` up to the first `end` replaced by `with`, when
/// both occur and `start` comes first.
pub open spec fn replace_between(s: Seq<u8>, start: Seq<u8>, end: Seq<u8>, with: Seq<u8>) -> Seq<u8> {
    match (find(s, start), find(s, end)) {
        (Some(a), Some(b)) => if a < b { splice(s, a, b, with) } else { s },
        _ => s,
    }
}

proof fn lemma_find_bounds(s: Seq<u8>, pat: Seq<u8>, i: int)
    requires
        0 <= i,
    ensures
        find_from(s, pat, i) matches Some(k) ==> i <= k && k + pat.len() <= s.len(),
    decreases s.len() + 1 - i,
{
    if i + pat.len() <= s.len() && !crate::text::occurs_at(s, pat, i) {
        lemma_find_bounds(s, pat, i + 1);
    }
}

fn replace_between_bytes(s: Vec<u8>, start: &[u8], end: &[u8], with: &[u8]) -> (r: Vec<u8>)
    ensures
        r@ == replace_between(s@, start@, end@, with@),
{
    let a = find_bytes(s.as_slice(), start);
    let b = find_bytes(s.as_slice(), end);
    match (a, b) {
        (Some(a), Some(b)) => {
            if a < b {
                proof {
                    lemma_find_bounds(s@, end@, 0);
                }
                splice_bytes(s.as_slice(), a, b, with)
            } else {
                s
            }
        },
        _ => s,
    }
}

/// `s` with `text` inserted right after the first occurrence of `marker`.
pub open spec fn insert_after(s: Seq<u8>, marker: Seq<u8>, text: Seq<u8>) -> Seq<u8> {
    match find(s, marker) {
        Some(a) => splice(s, a + marker.len(), a + marker.len(), text),
        None => s,
    }
}

fn insert_after_bytes(s: Vec<u8>, marker: &[u8], text: &[u8]) -> (r: Vec<u8>)
    ensures
        r@ == insert_after(s@, marker@, text@),
{
    match find_bytes(s.as_slice(), marker) {
        Some(a) => {
            proof {
                lemma_find_bounds(s@, marker@, 0);
            }
            let _n = s.len();
            splice_bytes(s.as_slice(), a + marker.len(), a + marker.len(), text)
        },
        None => s,
    }
}

/// Inserts the plain-card fast path before the start of `Card:draw`, then replaces that start
/// (found again after the inserted text) with the fast-path entry.
pub open spec fn card_fast_path(s: Seq<u8>) -> Seq<u8> {
    let marker = CARD_MARKER.spec_bytes();
    let fast = MIYOO_CARD_DRAW_FAST_PATH.spec_bytes();
    match find(s, marker) {
        Some(start) => {
            let t = splice(s, start, start, fast);
            match find_from(t, marker, start + fast.len()) {
                Some(e) => splice(t, e, e + marker.len(), MIYOO_CARD_DRAW_ENTRY.spec_bytes()),
                None => t,
            }
        },
        None => s,
    }
}

fn card_fast_path_bytes(s: Vec<u8>) -> (r: Vec<u8>)
    ensures
        r@ == card_fast_path(s@),
{
    let marker = CARD_MARKER.as_bytes();
    let fast = MIYOO_CARD_DRAW_FAST_PATH.as_bytes();
    match find_bytes(s.as_slice(), marker) {
        Some(start) => {
            proof {
                lemma_find_bounds(s@, marker@, 0);
            }
            let t = splice_bytes(s.as_slice(), start, start, fast);
            assert(t@.len() == s@.len() + fast@.len());
            let _n = t.len();
            match find_bytes_from(t.as_slice(), marker, start + fast.len()) {
                Some(e) => {
                    proof {
                        lemma_find_bounds(t@, marker@, start + fast@.len());
                    }
                    splice_bytes(t.as_slice(), e, e + marker.len(), MIYOO_CARD_DRAW_ENTRY.as_bytes())
                },
                None => t,
            }
        },
        None => s,
    }
}

/// Replaces the final canvas pass of `Game:draw` with a shader reset.
pub open spec fn drop_final_pass(s: Seq<u8>) -> Seq<u8> {
    match find(s, FINAL_PASS_START.spec_bytes()) {
        Some(a) => match find_from(s, FINAL_PASS_END.spec_bytes(), a) {
            Some(e) => splice(s, a, e, FINAL_PASS_REPLACEMENT.spec_bytes()),
            None => s,
        },
        None => s,
    }
}

fn drop_final_pass_bytes(s: Vec<u8>) -> (r: Vec<u8>)
    ensures
        r@ == drop_final_pass(s@),
{
    match find_bytes(s.as_slice(), FINAL_PASS_START.as_bytes()) {
        Some(a) => {
            proof {
                lemma_find_bounds(s@, FINAL_PASS_START.spec_bytes(), 0);
            }
            match find_bytes_from(s.as_slice(), FINAL_PASS_END.as_bytes(), a) {
                Some(e) => {
                    proof {
                        lemma_find_bounds(s@, FINAL_PASS_END.spec_bytes(), a as int);
                    }
                    splice_bytes(s.as_slice(), a, e, FINAL_PASS_REPLACEMENT.as_bytes())
                },
                None => s,
            }
        },
        None => s,
    }
}

/// Scripts whose debug outline draws are removed.
pub open spec fn drops_bounding_rects(kind: ScriptKind) -> bool {
    matches!(kind, ScriptKind::Node | ScriptKind::Moveable | ScriptKind::Ui | ScriptKind::Sprite
        | ScriptKind::Particles | ScriptKind::Card | ScriptKind::CardArea | ScriptKind::CardCharacter)
}

/// Lua source that the handheld build adds to game scripts.
pub struct ScriptAssets {
    /// Appended to `engine/event.lua`.
    pub menu_clock: Vec<u8>,
    /// Appended to `functions/misc_functions.lua`.
    pub music: Vec<u8>,
    /// Appended to `functions/UI_definitions.lua`.
    pub deck_layout: Vec<u8>,
    /// Replaces `UIElement:draw_self` in `engine/ui.lua`.
    pub ui_draw: Vec<u8>,
    /// Appended to `engine/node.lua`.
    pub scalar_collision: Vec<u8>,
    /// Prepended to a `game.lua` whose moveable loop was replaced.
    pub classified_moveables: Vec<u8>,
}

/// The text after the substitutions `s` with the Lua added and the functions replaced, as it
/// reaches the removal of debug draws.
pub open spec fn before_outline_removal(kind: ScriptKind, s: Seq<u8>, assets: &ScriptAssets) -> Seq<u8> {
    let s1 = if kind == ScriptKind::Event { s + assets.menu_clock@ } else { s };
    let s2 = if kind == ScriptKind::MiscFunctions { s1 + assets.music@ } else { s1 };
    let s3 = if kind == ScriptKind::UiDefinitions { s2 + assets.deck_layout@ } else { s2 };
    let s4 = if kind == ScriptKind::Ui {
        replace_between(s3, UI_DRAW_START.spec_bytes(), UI_DRAW_END.spec_bytes(), assets.ui_draw@)
    } else {
        s3
    };
    let s5 = if kind == ScriptKind::Node { s4 + assets.scalar_collision@ } else { s4 };
    let s6 = if kind == ScriptKind::Moveable {
        replace_between(
            replace_between(s5, MOVE_START.spec_bytes(), MOVE_END.spec_bytes(), MIYOO_MOVEABLE_MOVE.spec_bytes()),
            MOVE_WITH_MAJOR_START.spec_bytes(),
            MOVE_WITH_MAJOR_END.spec_bytes(),
            MIYOO_MOVE_WITH_MAJOR.spec_bytes(),
        )
    } else {
        s5
    };
    let s7 = if kind == ScriptKind::Sprite {
        insert_after(s6, SPRITE_MARKER.spec_bytes(), MIYOO_SPRITE_SHADER_FAST_PATH.spec_bytes())
    } else {
        s6
    };
    let s8 = if kind == ScriptKind::MiscFunctions {
        replace_between(s7, PREP_DRAW_START.spec_bytes(), PREP_DRAW_END.spec_bytes(), MIYOO_PREP_DRAW.spec_bytes())
    } else {
        s7
    };
    let s9 = if kind == ScriptKind::Card { card_fast_path(s8) } else { s8 };
    let s10 = if kind == ScriptKind::Game && contains(s9, MOVEABLE_UPDATE_CALL.spec_bytes()) {
        assets.classified_moveables@ + s9
    } else {
        s9
    };
    if kind == ScriptKind::Game { drop_final_pass(s10) } else { s10 }
}

/// The steps after the substitutions: appended and inserted Lua, replaced functions, and
/// removed debug draws, in order.
pub open spec fn finish_script(kind: ScriptKind, s: Seq<u8>, assets: &ScriptAssets) -> Seq<u8> {
    let s11 = before_outline_removal(kind, s, assets);
    if drops_bounding_rects(kind) {
        replace_all(s11, BOUNDING_RECT_DRAW.spec_bytes(), EMPTY.spec_bytes())
    } else {
        s11
    }
}

/// A game script as the handheld build runs it: scripts it does not patch, and text that is
/// not UTF-8, are unchanged.
pub open spec fn miyoo_patched(path: Seq<u8>, data: Seq<u8>, assets: &ScriptAssets) -> Seq<u8> {
    match script_kind(normalize_path(path)) {
        None => data,
        Some(kind) => if valid_utf8(data) {
            finish_script(kind, apply_rules(data, miyoo_rules(kind)), assets)
        } else {
            data
        },
    }
}

fn finish_script_bytes(kind: ScriptKind, s: Vec<u8>, assets: &ScriptAssets) -> (r: Vec<u8>)
    ensures
        r@ == finish_script(kind, s@, assets),
{
    let mut s = s;
    if kind == ScriptKind::Event {
        s = concat_bytes(s.as_slice(), assets.menu_clock.as_slice());
    }
    if kind == ScriptKind::MiscFunctions {
        s = concat_bytes(s.as_slice(), assets.music.as_slice());
    }
    if kind == ScriptKind::UiDefinitions {
        s = concat_bytes(s.as_slice(), assets.deck_layout.as_slice());
    }
    if kind == ScriptKind::Ui {
        s = replace_between_bytes(s, UI_DRAW_START.as_bytes(), UI_DRAW_END.as_bytes(), assets.ui_draw.as_slice());
    }
    if kind == ScriptKind::Node {
        s = concat_bytes(s.as_slice(), assets.scalar_collision.as_slice());
    }
    if kind == ScriptKind::Moveable {
        s = replace_between_bytes(s, MOVE_START.as_bytes(), MOVE_END.as_bytes(), MIYOO_MOVEABLE_MOVE.as_bytes());
        s = replace_between_bytes(
            s,
            MOVE_WITH_MAJOR_START.as_bytes(),
            MOVE_WITH_MAJOR_END.as_bytes(),
            MIYOO_MOVE_WITH_MAJOR.as_bytes(),
        );
    }
    if kind == ScriptKind::Sprite {
        s = insert_after_bytes(s, SPRITE_MARKER.as_bytes(), MIYOO_SPRITE_SHADER_FAST_PATH.as_bytes());
    }
    if kind == ScriptKind::MiscFunctions {
        s = replace_between_bytes(s, PREP_DRAW_START.as_bytes(), PREP_DRAW_END.as_bytes(), MIYOO_PREP_DRAW.as_bytes());
    }
    if kind == ScriptKind::Card {
        s = card_fast_path_bytes(s);
    }
    if kind == ScriptKind::Game && contains_bytes(s.as_slice(), MOVEABLE_UPDATE_CALL.as_bytes()) {
        s = concat_bytes(assets.classified_moveables.as_slice(), s.as_slice());
    }
    if kind == ScriptKind::Game {
        s = drop_final_pass_bytes(s);
    }
    let drops = match kind {
        ScriptKind::Node | ScriptKind::Moveable | ScriptKind::Ui | ScriptKind::Sprite | ScriptKind::Particles
        | ScriptKind::Card | ScriptKind::CardArea | ScriptKind::CardCharacter => true,
        _ => false,
    };
    if drops {
        s = replace_all_bytes(s.as_slice(), BOUNDING_RECT_DRAW.as_bytes(), EMPTY.as_bytes());
    }
    s
}

/// Patches a game script for the handheld build: low-cost render settings, the handheld
/// layout, faster update and draw paths, and the added Lua that `assets` holds.
pub fn patch_miyoo_script(file_path: &str, data: &mut Vec<u8>, assets: &ScriptAssets)
    ensures
        final(data)@ == miyoo_patched(file_path.spec_bytes(), old(data)@, assets),
{
    let normalized = normalize(file_path.as_bytes());
    let kind = match classify(normalized.as_slice()) {
        Some(kind) => kind,
        None => return,
    };
    if !is_utf8(data.as_slice()) {
        return;
    }
    let rules = miyoo_rule_table(kind);
    let mut script: Vec<u8> = Vec::new();
    std::mem::swap(&mut script, data);
    let script = apply_rule_table(script, &rules);
    *data = finish_script_bytes(kind, script, assets);
}

/// The debug outline draw is one line: it ends with its only newline.
proof fn lemma_outline_draw_is_one_line()
    ensures
        one_line(BOUNDING_RECT_DRAW.spec_bytes()),
{
    reveal_strlit("    self:draw_boundingrect()\n");
    broadcast use vstd::string::is_ascii_spec_bytes;
    assert(is_ascii(BOUNDING_RECT_DRAW));
}

/// The scripts of nodes, moveables, UI elements, sprites, particles, cards, card areas and
/// card characters come out with no debug outline draw left: where each such draw reaching
/// the last step is a line of its own, the patched script contains none.
pub proof fn law_outline_draws_are_removed(path: Seq<u8>, data: Seq<u8>, assets: &ScriptAssets, kind: ScriptKind)
    requires
        script_kind(normalize_path(path)) == Some(kind),
        kind == ScriptKind::Node || kind == ScriptKind::Moveable || kind == ScriptKind::Ui || kind == ScriptKind::Sprite
            || kind == ScriptKind::Particles || kind == ScriptKind::Card || kind == ScriptKind::CardArea
            || kind == ScriptKind::CardCharacter,
        valid_utf8(data),
        starts_lines(
            before_outline_removal(kind, apply_rules(data, miyoo_rules(kind)), assets),
            BOUNDING_RECT_DRAW.spec_bytes(),
            true,
        ),
    ensures
        !contains(miyoo_patched(path, data, assets), BOUNDING_RECT_DRAW.spec_bytes()),
{
    let pat = BOUNDING_RECT_DRAW.spec_bytes();
    let before = before_outline_removal(kind, apply_rules(data, miyoo_rules(kind)), assets);
    lemma_outline_draw_is_one_line();
    lemma_removal_leaves_none(before, pat, true);
    let out = miyoo_patched(path, data, assets);
    assert(out == replace_all(before, pat, EMPTY.spec_bytes()));
    reveal_strlit("");
    assert(EMPTY.spec_bytes() =~= Seq::<u8>::empty());
    lemma_find_bound(out, pat);
    if let Some(k) = find(out, pat) {
        assert(occurs_at(replace_all(before, pat, Seq::empty()), pat, k));
    }
}

} // verus!
