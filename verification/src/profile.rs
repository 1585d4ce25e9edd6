use vstd::prelude::*;

verus! {

/// Draw-call counters and timings collected while native profiling is enabled.
#[derive(Clone, Copy, Debug, PartialEq, Eq, Structural)]
pub struct DrawProfile {
    pub axis_calls: u64,
    pub axis_ns: u64,
    pub rotated_calls: u64,
    pub rotated_ns: u64,
    pub nearest_calls: u64,
    pub nearest_ns: u64,
    pub linear_calls: u64,
    pub linear_ns: u64,
    pub box_calls: u64,
    pub box_ns: u64,
    pub effect_calls: u64,
    pub effect_ns: u64,
    pub axis_pixels: u64,
    pub mask_calls: u64,
    pub mask_ns: u64,
    pub mask_pixels: u64,
    pub draw_calls: u64,
    pub draw_ns: u64,
    pub ui_cache_hits: u64,
    pub ui_cache_misses: u64,
    pub ui_simple_fills: u64,
    pub ui_scanline_fills: u64,
    pub ui_scanline_axis: u64,
    pub ui_scanline_tiny_rotation: u64,
    pub ui_scanline_small_rotation: u64,
    pub ui_scanline_large_rotation: u64,
    pub ui_polygon_lines: u64,
    pub ui_text_draws: u64,
    pub clear_calls: u64,
    pub clear_ns: u64,
    pub rect_calls: u64,
    pub rect_ns: u64,
    pub line_calls: u64,
    pub line_ns: u64,
    pub ellipse_calls: u64,
    pub ellipse_ns: u64,
    pub polygon_calls: u64,
    pub polygon_ns: u64,
    pub stencil_calls: u64,
    pub stencil_ns: u64,
    pub deferred_calls: u64,
    pub deferred_ns: u64,
}

/// One counter of a draw profile.
#[derive(Clone, Copy, Debug, PartialEq, Eq, Structural)]
pub enum DrawCounter {
    AxisCalls,
    AxisNs,
    RotatedCalls,
    RotatedNs,
    NearestCalls,
    NearestNs,
    LinearCalls,
    LinearNs,
    BoxCalls,
    BoxNs,
    EffectCalls,
    EffectNs,
    AxisPixels,
    MaskCalls,
    MaskNs,
    MaskPixels,
    DrawCalls,
    DrawNs,
    UiCacheHits,
    UiCacheMisses,
    UiSimpleFills,
    UiScanlineFills,
    UiScanlineAxis,
    UiScanlineTinyRotation,
    UiScanlineSmallRotation,
    UiScanlineLargeRotation,
    UiPolygonLines,
    UiTextDraws,
    ClearCalls,
    ClearNs,
    RectCalls,
    RectNs,
    LineCalls,
    LineNs,
    EllipseCalls,
    EllipseNs,
    PolygonCalls,
    PolygonNs,
    StencilCalls,
    StencilNs,
    DeferredCalls,
    DeferredNs,
}

impl DrawProfile {
    /// A profile with every counter at zero.
    pub open spec fn spec_zero() -> DrawProfile {
        DrawProfile {
            axis_calls: 0,
            axis_ns: 0,
            rotated_calls: 0,
            rotated_ns: 0,
            nearest_calls: 0,
            nearest_ns: 0,
            linear_calls: 0,
            linear_ns: 0,
            box_calls: 0,
            box_ns: 0,
            effect_calls: 0,
            effect_ns: 0,
            axis_pixels: 0,
            mask_calls: 0,
            mask_ns: 0,
            mask_pixels: 0,
            draw_calls: 0,
            draw_ns: 0,
            ui_cache_hits: 0,
            ui_cache_misses: 0,
            ui_simple_fills: 0,
            ui_scanline_fills: 0,
            ui_scanline_axis: 0,
            ui_scanline_tiny_rotation: 0,
            ui_scanline_small_rotation: 0,
            ui_scanline_large_rotation: 0,
            ui_polygon_lines: 0,
            ui_text_draws: 0,
            clear_calls: 0,
            clear_ns: 0,
            rect_calls: 0,
            rect_ns: 0,
            line_calls: 0,
            line_ns: 0,
            ellipse_calls: 0,
            ellipse_ns: 0,
            polygon_calls: 0,
            polygon_ns: 0,
            stencil_calls: 0,
            stencil_ns: 0,
            deferred_calls: 0,
            deferred_ns: 0,
        }
    }

    pub fn zero() -> (p: DrawProfile)
        ensures
            p == DrawProfile::spec_zero(),
    {
        DrawProfile {
            axis_calls: 0,
            axis_ns: 0,
            rotated_calls: 0,
            rotated_ns: 0,
            nearest_calls: 0,
            nearest_ns: 0,
            linear_calls: 0,
            linear_ns: 0,
            box_calls: 0,
            box_ns: 0,
            effect_calls: 0,
            effect_ns: 0,
            axis_pixels: 0,
            mask_calls: 0,
            mask_ns: 0,
            mask_pixels: 0,
            draw_calls: 0,
            draw_ns: 0,
            ui_cache_hits: 0,
            ui_cache_misses: 0,
            ui_simple_fills: 0,
            ui_scanline_fills: 0,
            ui_scanline_axis: 0,
            ui_scanline_tiny_rotation: 0,
            ui_scanline_small_rotation: 0,
            ui_scanline_large_rotation: 0,
            ui_polygon_lines: 0,
            ui_text_draws: 0,
            clear_calls: 0,
            clear_ns: 0,
            rect_calls: 0,
            rect_ns: 0,
            line_calls: 0,
            line_ns: 0,
            ellipse_calls: 0,
            ellipse_ns: 0,
            polygon_calls: 0,
            polygon_ns: 0,
            stencil_calls: 0,
            stencil_ns: 0,
            deferred_calls: 0,
            deferred_ns: 0,
        }
    }

    /// The value of one counter.
    pub open spec fn counter(self, c: DrawCounter) -> u64 {
        match c {
            DrawCounter::AxisCalls => self.axis_calls,
            DrawCounter::AxisNs => self.axis_ns,
            DrawCounter::RotatedCalls => self.rotated_calls,
            DrawCounter::RotatedNs => self.rotated_ns,
            DrawCounter::NearestCalls => self.nearest_calls,
            DrawCounter::NearestNs => self.nearest_ns,
            DrawCounter::LinearCalls => self.linear_calls,
            DrawCounter::LinearNs => self.linear_ns,
            DrawCounter::BoxCalls => self.box_calls,
            DrawCounter::BoxNs => self.box_ns,
            DrawCounter::EffectCalls => self.effect_calls,
            DrawCounter::EffectNs => self.effect_ns,
            DrawCounter::AxisPixels => self.axis_pixels,
            DrawCounter::MaskCalls => self.mask_calls,
            DrawCounter::MaskNs => self.mask_ns,
            DrawCounter::MaskPixels => self.mask_pixels,
            DrawCounter::DrawCalls => self.draw_calls,
            DrawCounter::DrawNs => self.draw_ns,
            DrawCounter::UiCacheHits => self.ui_cache_hits,
            DrawCounter::UiCacheMisses => self.ui_cache_misses,
            DrawCounter::UiSimpleFills => self.ui_simple_fills,
            DrawCounter::UiScanlineFills => self.ui_scanline_fills,
            DrawCounter::UiScanlineAxis => self.ui_scanline_axis,
            DrawCounter::UiScanlineTinyRotation => self.ui_scanline_tiny_rotation,
            DrawCounter::UiScanlineSmallRotation => self.ui_scanline_small_rotation,
            DrawCounter::UiScanlineLargeRotation => self.ui_scanline_large_rotation,
            DrawCounter::UiPolygonLines => self.ui_polygon_lines,
            DrawCounter::UiTextDraws => self.ui_text_draws,
            DrawCounter::ClearCalls => self.clear_calls,
            DrawCounter::ClearNs => self.clear_ns,
            DrawCounter::RectCalls => self.rect_calls,
            DrawCounter::RectNs => self.rect_ns,
            DrawCounter::LineCalls => self.line_calls,
            DrawCounter::LineNs => self.line_ns,
            DrawCounter::EllipseCalls => self.ellipse_calls,
            DrawCounter::EllipseNs => self.ellipse_ns,
            DrawCounter::PolygonCalls => self.polygon_calls,
            DrawCounter::PolygonNs => self.polygon_ns,
            DrawCounter::StencilCalls => self.stencil_calls,
            DrawCounter::StencilNs => self.stencil_ns,
            DrawCounter::DeferredCalls => self.deferred_calls,
            DrawCounter::DeferredNs => self.deferred_ns,
        }
    }

    /// Adds `amount` to one counter, wrapping around on overflow as an atomic counter does.
    pub fn add(&mut self, c: DrawCounter, amount: u64)
        ensures
            forall|d: DrawCounter| #[trigger] final(self).counter(d) == if d == c {
                old(self).counter(d).wrapping_add(amount)
            } else {
                old(self).counter(d)
            },
    {
        match c {
            DrawCounter::AxisCalls => self.axis_calls = self.axis_calls.wrapping_add(amount),
            DrawCounter::AxisNs => self.axis_ns = self.axis_ns.wrapping_add(amount),
            DrawCounter::RotatedCalls => self.rotated_calls = self.rotated_calls.wrapping_add(amount),
            DrawCounter::RotatedNs => self.rotated_ns = self.rotated_ns.wrapping_add(amount),
            DrawCounter::NearestCalls => self.nearest_calls = self.nearest_calls.wrapping_add(amount),
            DrawCounter::NearestNs => self.nearest_ns = self.nearest_ns.wrapping_add(amount),
            DrawCounter::LinearCalls => self.linear_calls = self.linear_calls.wrapping_add(amount),
            DrawCounter::LinearNs => self.linear_ns = self.linear_ns.wrapping_add(amount),
            DrawCounter::BoxCalls => self.box_calls = self.box_calls.wrapping_add(amount),
            DrawCounter::BoxNs => self.box_ns = self.box_ns.wrapping_add(amount),
            DrawCounter::EffectCalls => self.effect_calls = self.effect_calls.wrapping_add(amount),
            DrawCounter::EffectNs => self.effect_ns = self.effect_ns.wrapping_add(amount),
            DrawCounter::AxisPixels => self.axis_pixels = self.axis_pixels.wrapping_add(amount),
            DrawCounter::MaskCalls => self.mask_calls = self.mask_calls.wrapping_add(amount),
            DrawCounter::MaskNs => self.mask_ns = self.mask_ns.wrapping_add(amount),
            DrawCounter::MaskPixels => self.mask_pixels = self.mask_pixels.wrapping_add(amount),
            DrawCounter::DrawCalls => self.draw_calls = self.draw_calls.wrapping_add(amount),
            DrawCounter::DrawNs => self.draw_ns = self.draw_ns.wrapping_add(amount),
            DrawCounter::UiCacheHits => self.ui_cache_hits = self.ui_cache_hits.wrapping_add(amount),
            DrawCounter::UiCacheMisses => self.ui_cache_misses = self.ui_cache_misses.wrapping_add(amount),
            DrawCounter::UiSimpleFills => self.ui_simple_fills = self.ui_simple_fills.wrapping_add(amount),
            DrawCounter::UiScanlineFills => self.ui_scanline_fills = self.ui_scanline_fills.wrapping_add(amount),
            DrawCounter::UiScanlineAxis => self.ui_scanline_axis = self.ui_scanline_axis.wrapping_add(amount),
            DrawCounter::UiScanlineTinyRotation => self.ui_scanline_tiny_rotation = self.ui_scanline_tiny_rotation.wrapping_add(amount),
            DrawCounter::UiScanlineSmallRotation => self.ui_scanline_small_rotation = self.ui_scanline_small_rotation.wrapping_add(amount),
            DrawCounter::UiScanlineLargeRotation => self.ui_scanline_large_rotation = self.ui_scanline_large_rotation.wrapping_add(amount),
            DrawCounter::UiPolygonLines => self.ui_polygon_lines = self.ui_polygon_lines.wrapping_add(amount),
            DrawCounter::UiTextDraws => self.ui_text_draws = self.ui_text_draws.wrapping_add(amount),
            DrawCounter::ClearCalls => self.clear_calls = self.clear_calls.wrapping_add(amount),
            DrawCounter::ClearNs => self.clear_ns = self.clear_ns.wrapping_add(amount),
            DrawCounter::RectCalls => self.rect_calls = self.rect_calls.wrapping_add(amount),
            DrawCounter::RectNs => self.rect_ns = self.rect_ns.wrapping_add(amount),
            DrawCounter::LineCalls => self.line_calls = self.line_calls.wrapping_add(amount),
            DrawCounter::LineNs => self.line_ns = self.line_ns.wrapping_add(amount),
            DrawCounter::EllipseCalls => self.ellipse_calls = self.ellipse_calls.wrapping_add(amount),
            DrawCounter::EllipseNs => self.ellipse_ns = self.ellipse_ns.wrapping_add(amount),
            DrawCounter::PolygonCalls => self.polygon_calls = self.polygon_calls.wrapping_add(amount),
            DrawCounter::PolygonNs => self.polygon_ns = self.polygon_ns.wrapping_add(amount),
            DrawCounter::StencilCalls => self.stencil_calls = self.stencil_calls.wrapping_add(amount),
            DrawCounter::StencilNs => self.stencil_ns = self.stencil_ns.wrapping_add(amount),
            DrawCounter::DeferredCalls => self.deferred_calls = self.deferred_calls.wrapping_add(amount),
            DrawCounter::DeferredNs => self.deferred_ns = self.deferred_ns.wrapping_add(amount),
        }
    }
}

/// Where draw calls and their timings are counted while native profiling is enabled.
pub struct DrawCounters {
    pub enabled: bool,
    pub current: DrawProfile,
}

impl DrawCounters {
    /// Counters that count only when `enabled`.
    pub fn new(enabled: bool) -> (counters: Self)
        ensures
            counters.enabled == enabled,
            counters.current == DrawProfile::spec_zero(),
    {
        DrawCounters { enabled, current: DrawProfile::zero() }
    }
}

/// Takes the counts collected since the last take and restarts them from zero, or `None`
/// when profiling is disabled.
pub fn take_draw_profile(counters: &mut DrawCounters) -> (profile: Option<DrawProfile>)
    ensures
        final(counters).enabled == old(counters).enabled,
        !old(counters).enabled ==> profile is None && final(counters).current == old(counters).current,
        old(counters).enabled ==> profile == Some(old(counters).current) && final(counters).current
            == DrawProfile::spec_zero(),
{
    if !counters.enabled {
        return None;
    }
    let profile = counters.current;
    counters.current = DrawProfile::zero();
    Some(profile)
}

/// Times one draw operation: it counts the call when started and adds the elapsed time
/// when finished, both only while profiling is enabled.
pub struct ProfileTimer {
    pub started: Option<u64>,
    pub elapsed: DrawCounter,
}

impl ProfileTimer {
    /// Starts timing at `now` (nanoseconds of a monotonic clock), counting one call.
    pub fn start(counters: &mut DrawCounters, calls: DrawCounter, elapsed: DrawCounter, now: u64) -> (timer: Self)
        ensures
            final(counters).enabled == old(counters).enabled,
            timer.elapsed == elapsed,
            old(counters).enabled ==> timer.started == Some(now) && forall|d: DrawCounter| #[trigger] final(counters).current.counter(d) == if d == calls {
                old(counters).current.counter(d).wrapping_add(1)
            } else {
                old(counters).current.counter(d)
            },
            !old(counters).enabled ==> timer.started is None && final(counters).current == old(counters).current,
    {
        if counters.enabled {
            counters.current.add(calls, 1);
            ProfileTimer { started: Some(now), elapsed }
        } else {
            ProfileTimer { started: None, elapsed }
        }
    }

    /// Stops timing at `now`, adding the time since the start to the elapsed counter.
    pub fn finish(self, counters: &mut DrawCounters, now: u64)
        ensures
            final(counters).enabled == old(counters).enabled,
            self.started matches Some(s) ==> forall|d: DrawCounter| #[trigger] final(counters).current.counter(d) == if d == self.elapsed {
                old(counters).current.counter(d).wrapping_add(if now >= s { (now - s) as u64 } else { 0 })
            } else {
                old(counters).current.counter(d)
            },
            self.started is None ==> final(counters).current == old(counters).current,
    {
        if let Some(started) = self.started {
            let spent = if now >= started { now - started } else { 0 };
            counters.current.add(self.elapsed, spent);
        }
    }
}

} // verus!
