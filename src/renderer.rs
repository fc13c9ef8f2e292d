use vstd::prelude::*;
use vstd::arithmetic::div_mod::{
    lemma_fundamental_div_mod,
    lemma_fundamental_div_mod_converse,
    lemma_div_is_ordered,
    lemma_div_by_multiple,
};
use crate::pixel::{Rgba, opaque, lemma_rgba_eq};
use crate::action::{Action, ActionKind, Index};
use crate::frame::{DynamicFrame, PixelFormat, index_of, stored};
use crate::gradient::{ColorStep, Gradient, gradient_color, sorted_by_weight};
use vstd::seq_lib::to_multiset_build;

verus! {

/// One channel of [`color_lerp`]: from black at 0 to `c` at one half, then to
/// white at 1, for the fraction `num / den`, rounded down.
pub open spec fn lerp_two(c: u8, num: int, den: int) -> u8 {
    if 2 * num < den {
        (c * (2 * num) / den) as u8
    } else {
        (c + (255 - c) * (2 * num - den) / den) as u8
    }
}

/// The two-segment interpolation of `color` at the fraction `num / den`:
/// black at 0, `color` at one half, white at 1; always opaque.
pub open spec fn color_lerp_spec(color: Rgba, num: int, den: int) -> Rgba {
    opaque(
        lerp_two(color.0[0], num, den),
        lerp_two(color.0[1], num, den),
        lerp_two(color.0[2], num, den),
    )
}

/// The phase of timestamp `t` in a period: `(t - 1) mod period`, in `0..period`.
pub open spec fn phase(t: int, period: int) -> int {
    (t - 1) % period
}

/// Each action's coordinate lies inside a `w` by `h` picture.
pub open spec fn all_in_bounds(acts: Seq<Action>, w: int, h: int) -> bool {
    forall|i: int| 0 <= i < acts.len() ==> acts[i].x < w && acts[i].y < h
}

/// Pixels after writing, action by action, the color that `color` gives each
/// action at its coordinate, as a frame of format `fmt` and width `w` stores it.
pub open spec fn paint(
    pixels: Seq<Rgba>,
    w: int,
    fmt: PixelFormat,
    acts: Seq<Action>,
    color: spec_fn(Action) -> Rgba,
) -> Seq<Rgba>
    decreases acts.len(),
{
    if acts.len() == 0 {
        pixels
    } else {
        let a = acts.last();
        paint(pixels, w, fmt, acts.drop_last(), color).update(
            index_of(w, a.x as int, a.y as int),
            stored(fmt, color(a)),
        )
    }
}

proof fn lemma_lerp_two(c: u8, num: int, den: int)
    requires
        0 <= num <= den,
        den > 0,
    ensures
        2 * num < den ==> 0 <= c * (2 * num) / den <= c,
        2 * num >= den ==> 0 <= (255 - c) * (2 * num - den) / den <= 255 - c,
{
    if 2 * num < den {
        assert(0 <= c * (2 * num) <= c * den) by (nonlinear_arith)
            requires
                0 <= 2 * num < den,
                0 <= c,
        ;
        lemma_div_is_ordered(0, c * (2 * num), den);
        lemma_div_is_ordered(c * (2 * num), c * den, den);
        lemma_div_by_multiple(c as int, den);
    } else {
        assert(0 <= (255 - c) * (2 * num - den) <= (255 - c) * den) by (nonlinear_arith)
            requires
                0 <= 2 * num - den <= den,
                0 <= 255 - c,
        ;
        lemma_div_is_ordered(0, (255 - c) * (2 * num - den), den);
        lemma_div_is_ordered((255 - c) * (2 * num - den), (255 - c) * den, den);
        lemma_div_by_multiple(255 - c, den);
    }
}

fn lerp_two_exec(c: u8, num: u64, den: u64) -> (r: u8)
    requires
        num <= den,
        den > 0,
    ensures
        r == lerp_two(c, num as int, den as int),
{
    proof {
        lemma_lerp_two(c, num as int, den as int);
    }
    let n2 = 2 * (num as u128);
    let d = den as u128;
    if n2 < d {
        proof {
            assert(c * n2 <= 255 * 0x2_0000_0000_0000_0000) by (nonlinear_arith)
                requires
                    c <= 255,
                    n2 <= 0x2_0000_0000_0000_0000,
            ;
        }
        ((c as u128) * n2 / d) as u8
    } else {
        proof {
            assert((255 - c) * (n2 - d) <= 255 * 0x2_0000_0000_0000_0000) by (nonlinear_arith)
                requires
                    c <= 255,
                    n2 - d <= 0x2_0000_0000_0000_0000,
                    n2 >= d,
            ;
        }
        (c as u128 + (255 - c as u128) * (n2 - d) / d) as u8
    }
}

/// Interpolates from black through `color` to white at the fraction `num / den`:
/// each channel scales from 0 to its value over the first half, then from its
/// value to 255 over the second half, rounded down. The result is opaque.
pub fn color_lerp(color: Rgba, num: u64, den: u64) -> (r: Rgba)
    requires
        num <= den,
        den > 0,
    ensures
        r == color_lerp_spec(color, num as int, den as int),
{
    let r = Rgba(
        [
            lerp_two_exec(color.0[0], num, den),
            lerp_two_exec(color.0[1], num, den),
            lerp_two_exec(color.0[2], num, den),
            255,
        ],
    );
    proof {
        lemma_rgba_eq(r, color_lerp_spec(color, num as int, den as int));
    }
    r
}

/// At 0 the interpolation is black, at one half it is the color made opaque,
/// and at 1 it is white, for every color and every way of writing the fraction.
pub proof fn lemma_color_lerp_ends(color: Rgba, den: int)
    requires
        den > 0,
    ensures
        color_lerp_spec(color, 0, den) == opaque(0, 0, 0),
        color_lerp_spec(color, den, 2 * den) == opaque(color.0[0], color.0[1], color.0[2]),
        color_lerp_spec(color, den, den) == opaque(255, 255, 255),
{
    assert forall|c: u8| lerp_two(c, 0, den) == 0 && lerp_two(c, den, 2 * den) == c && lerp_two(
        c,
        den,
        den,
    ) == 255 by {
        assert(c * (2 * 0) == 0 && (255 - c) * (2 * den - 2 * den) == 0) by (nonlinear_arith);
        assert(0int / den == 0);
        assert((255 - c) * (2 * den - den) / den == 255 - c) by {
            lemma_div_by_multiple(255 - c, den);
        }
    }
}

/// `(t - 1) mod period` for a timestamp.
fn phase_exec(t: i64, period: u64) -> (r: u64)
    requires
        period > 0,
    ensures
        r as int == phase(t as int, period as int),
        r < period,
{
    if t >= 1 {
        ((t - 1) as u64) % period
    } else {
        let a = (1 - (t as i128)) as u64;
        let m = a % period;
        proof {
            lemma_fundamental_div_mod(a as int, period as int);
            let q = a as int / period as int;
            if m == 0 {
                assert(t - 1 == (-q) * period + 0) by (nonlinear_arith)
                    requires
                        a == period * q + m,
                        m == 0,
                        t - 1 == -a,
                ;
                lemma_fundamental_div_mod_converse(t - 1, period as int, -q, 0);
            } else {
                assert(t - 1 == (-q - 1) * period + (period - m)) by (nonlinear_arith)
                    requires
                        a == period * q + m,
                        t - 1 == -a,
                ;
                lemma_fundamental_div_mod_converse(t - 1, period as int, -q - 1, period - m);
            }
        }
        if m == 0 {
            0
        } else {
            period - m
        }
    }
}

/// The color of the kind of an action.
pub open spec fn kind_color(kind: ActionKind) -> Rgba {
    match kind {
        ActionKind::Undo => opaque(255, 0, 255),
        ActionKind::Place => opaque(0, 0, 255),
        ActionKind::Overwrite => opaque(0, 255, 255),
        ActionKind::Rollback => opaque(0, 255, 0),
        ActionKind::RollbackUndo => opaque(255, 255, 0),
        ActionKind::Nuke => opaque(255, 0, 0),
    }
}

/// The channel value `255 * phase / period`, rounded down.
pub open spec fn phase_channel(t: int, period: int) -> u8 {
    (phase(t, period) * 255 / period) as u8
}

/// The color of an action under the combined style: the phases of its
/// timestamp within a second, a minute and an hour as red, green and blue.
pub open spec fn combined_color(a: Action) -> Rgba {
    opaque(
        phase_channel(a.time as int, 1000),
        phase_channel(a.time as int, 60000),
        phase_channel(a.time as int, 3600000),
    )
}

/// Writes one pixel per action, in order, with the color that `color_of`
/// gives it; shared by the styles that keep no state of their own.
fn paint_actions<F: Fn(&Action) -> Rgba>(
    actions: &[Action],
    frame: &mut DynamicFrame,
    color_of: F,
    color: Ghost<spec_fn(Action) -> Rgba>,
)
    requires
        old(frame).wf(),
        all_in_bounds(actions@, old(frame).width(), old(frame).height()),
        forall|i: int| 0 <= i < actions@.len() ==> color_of.requires((&actions@[i],)),
        forall|a: &Action, r: Rgba| color_of.ensures((a,), r) ==> r == color@(*a),
    ensures
        final(frame).wf(),
        final(frame).format() == old(frame).format(),
        final(frame).width() == old(frame).width(),
        final(frame).height() == old(frame).height(),
        final(frame).pixels() == paint(
            old(frame).pixels(),
            old(frame).width(),
            old(frame).format(),
            actions@,
            color@,
        ),
{
    let ghost start = frame.pixels();
    let ghost w = frame.width();
    let ghost h = frame.height();
    let ghost fmt = frame.format();
    let mut k: usize = 0;
    while k < actions.len()
        invariant
            frame.wf(),
            frame.format() == fmt,
            frame.width() == w,
            frame.height() == h,
            all_in_bounds(actions@, w, h),
            forall|i: int| 0 <= i < actions@.len() ==> color_of.requires((&actions@[i],)),
            forall|a: &Action, r: Rgba| color_of.ensures((a,), r) ==> r == color@(*a),
            0 <= k <= actions@.len(),
            frame.pixels() == paint(start, w, fmt, actions@.subrange(0, k as int), color@),
        decreases actions@.len() - k,
    {
        let a = &actions[k];
        let c = color_of(a);
        frame.put_pixel(a.x, a.y, c);
        assert(actions@.subrange(0, k + 1).drop_last() =~= actions@.subrange(0, k as int));
        k = k + 1;
    }
    assert(actions@.subrange(0, actions@.len() as int) =~= actions@);
}

/// The color that the normal style writes for an action: its palette entry,
/// or the background's pixel where the index is absent, transparent or past
/// the palette's end, or black where the background has no such pixel.
pub open spec fn normal_color(palette: Seq<Rgba>, background: DynamicFrame, a: Action) -> Rgba {
    if a.index is Some && a.index.unwrap() is Color && a.index.unwrap()->Color_0 < palette.len() {
        palette[a.index.unwrap()->Color_0 as int]
    } else if a.x < background.width() && a.y < background.height() {
        background.pixels()[index_of(background.width(), a.x as int, a.y as int)]
    } else {
        opaque(0, 0, 0)
    }
}

/// The color that a time-phase style writes: `color_lerp` of its color at
/// the phase of the timestamp within the period.
pub open spec fn placement_color(color: Rgba, period: int, a: Action) -> Rgba {
    color_lerp_spec(color, phase(a.time as int, period), period)
}

/// Replays actions with their palette colors.
#[derive(Debug, Clone)]
pub struct RendererNormal {
    background: DynamicFrame,
    palette: Vec<Rgba>,
}

impl RendererNormal {
    pub closed spec fn background(&self) -> DynamicFrame {
        self.background
    }

    pub closed spec fn palette(&self) -> Seq<Rgba> {
        self.palette@
    }

    pub fn new(background: DynamicFrame, palette: Vec<Rgba>) -> (r: RendererNormal)
        ensures
            r.background() == background,
            r.palette() == palette@,
    {
        RendererNormal { background, palette }
    }

    /// Writes each action's palette color, falling back to the background.
    pub fn update(&self, actions: &[Action], frame: &mut DynamicFrame)
        requires
            self.background().wf(),
            old(frame).wf(),
            all_in_bounds(actions@, old(frame).width(), old(frame).height()),
        ensures
            final(frame).wf(),
            final(frame).format() == old(frame).format(),
            final(frame).width() == old(frame).width(),
            final(frame).height() == old(frame).height(),
            final(frame).pixels() == paint(
                old(frame).pixels(),
                old(frame).width(),
                old(frame).format(),
                actions@,
                |a: Action| normal_color(self.palette(), self.background(), a),
            ),
    {
        let bg = &self.background;
        let pal = &self.palette;
        let color_of = |a: &Action| -> (r: Rgba)
            requires
                bg.wf(),
            ensures
                r == normal_color(pal@, *bg, *a),
            {
                if let Some(Index::Color(i)) = a.index {
                    if i < pal.len() {
                        return pal[i];
                    }
                }
                match bg.get_pixel_checked(a.x, a.y) {
                    Some(p) => p,
                    None => Rgba::black(),
                }
            };
        paint_actions(
            actions,
            frame,
            color_of,
            Ghost(|a: Action| normal_color(self.palette(), self.background(), a)),
        );
    }
}

/// Marks every pixel that an action touched.
#[derive(Debug, Clone, Copy)]
pub struct RendererVirgin;

impl RendererVirgin {
    /// Writes black at each action's coordinate.
    pub fn update(&self, actions: &[Action], frame: &mut DynamicFrame)
        requires
            old(frame).wf(),
            all_in_bounds(actions@, old(frame).width(), old(frame).height()),
        ensures
            final(frame).wf(),
            final(frame).format() == old(frame).format(),
            final(frame).width() == old(frame).width(),
            final(frame).height() == old(frame).height(),
            final(frame).pixels() == paint(
                old(frame).pixels(),
                old(frame).width(),
                old(frame).format(),
                actions@,
                |a: Action| opaque(0, 0, 0),
            ),
    {
        let color_of = |a: &Action| -> (r: Rgba)
            ensures
                r == opaque(0, 0, 0),
            { Rgba::black() };
        paint_actions(actions, frame, color_of, Ghost(|a: Action| opaque(0, 0, 0)));
    }
}

/// Colors pixels by the kind of the action that placed them.
#[derive(Debug, Clone, Copy)]
pub struct RendererAction;

impl RendererAction {
    /// Writes the color of each action's kind.
    pub fn update(&self, actions: &[Action], frame: &mut DynamicFrame)
        requires
            old(frame).wf(),
            all_in_bounds(actions@, old(frame).width(), old(frame).height()),
            forall|i: int| 0 <= i < actions@.len() ==> actions@[i].kind.is_some(),
        ensures
            final(frame).wf(),
            final(frame).format() == old(frame).format(),
            final(frame).width() == old(frame).width(),
            final(frame).height() == old(frame).height(),
            final(frame).pixels() == paint(
                old(frame).pixels(),
                old(frame).width(),
                old(frame).format(),
                actions@,
                |a: Action| kind_color(a.kind.unwrap()),
            ),
    {
        let color_of = |a: &Action| -> (r: Rgba)
            requires
                a.kind.is_some(),
            ensures
                r == kind_color(a.kind.unwrap()),
            {
                match a.kind {
                    Some(ActionKind::Undo) => Rgba([255, 0, 255, 255]),
                    Some(ActionKind::Place) => Rgba([0, 0, 255, 255]),
                    Some(ActionKind::Overwrite) => Rgba([0, 255, 255, 255]),
                    Some(ActionKind::Rollback) => Rgba([0, 255, 0, 255]),
                    Some(ActionKind::RollbackUndo) => Rgba([255, 255, 0, 255]),
                    _ => Rgba([255, 0, 0, 255]),
                }
            };
        paint_actions(actions, frame, color_of, Ghost(|a: Action| kind_color(a.kind.unwrap())));
    }
}

/// Colors pixels by the phase of their timestamp within a period.
#[derive(Debug, Clone, Copy)]
pub struct RendererPlacement {
    step: i64,
    color: Rgba,
}

impl RendererPlacement {
    pub closed spec fn period(&self) -> int {
        self.step as int
    }

    pub closed spec fn color(&self) -> Rgba {
        self.color
    }

    /// A renderer over periods of `step` milliseconds.
    pub fn new(color: Rgba, step: i64) -> (r: RendererPlacement)
        requires
            step > 0,
        ensures
            r.period() == step,
            r.color() == color,
    {
        RendererPlacement { step, color }
    }

    /// Writes each action's phase color.
    pub fn update(&self, actions: &[Action], frame: &mut DynamicFrame)
        requires
            self.period() > 0,
            old(frame).wf(),
            all_in_bounds(actions@, old(frame).width(), old(frame).height()),
        ensures
            final(frame).wf(),
            final(frame).format() == old(frame).format(),
            final(frame).width() == old(frame).width(),
            final(frame).height() == old(frame).height(),
            final(frame).pixels() == paint(
                old(frame).pixels(),
                old(frame).width(),
                old(frame).format(),
                actions@,
                |a: Action| placement_color(self.color(), self.period(), a),
            ),
    {
        let period = self.step as u64;
        let color = self.color;
        let color_of = |a: &Action| -> (r: Rgba)
            requires
                period > 0,
            ensures
                r == placement_color(color, period as int, *a),
            {
                let ph = phase_exec(a.time, period);
                color_lerp(color, ph, period)
            };
        paint_actions(
            actions,
            frame,
            color_of,
            Ghost(|a: Action| placement_color(self.color(), self.period(), a)),
        );
    }
}

/// The channel `255 * phase / period` of a timestamp.
fn phase_channel_exec(t: i64, period: u64) -> (r: u8)
    requires
        0 < period <= 3600000,
    ensures
        r == phase_channel(t as int, period as int),
{
    let ph = phase_exec(t, period);
    proof {
        lemma_div_is_ordered((ph * 255) as int, (period * 255) as int, period as int);
        lemma_div_by_multiple(255, period as int);
        assert(ph * 255 <= period * 255);
    }
    (ph * 255 / period) as u8
}

/// Colors pixels by the phases of their timestamp within a second, a minute
/// and an hour.
#[derive(Debug, Clone, Copy)]
pub struct RendererCombined;

impl RendererCombined {
    /// Writes each action's combined phase color.
    pub fn update(&self, actions: &[Action], frame: &mut DynamicFrame)
        requires
            old(frame).wf(),
            all_in_bounds(actions@, old(frame).width(), old(frame).height()),
        ensures
            final(frame).wf(),
            final(frame).format() == old(frame).format(),
            final(frame).width() == old(frame).width(),
            final(frame).height() == old(frame).height(),
            final(frame).pixels() == paint(
                old(frame).pixels(),
                old(frame).width(),
                old(frame).format(),
                actions@,
                |a: Action| combined_color(a),
            ),
    {
        let color_of = |a: &Action| -> (r: Rgba)
            ensures
                r == combined_color(*a),
            {
                let r = phase_channel_exec(a.time, 1000);
                let g = phase_channel_exec(a.time, 60000);
                let b = phase_channel_exec(a.time, 3600000);
                Rgba([r, g, b, 255])
            };
        paint_actions(actions, frame, color_of, Ghost(|a: Action| combined_color(a)));
    }
}

/// The linear index of each action's coordinate.
pub open spec fn visits(acts: Seq<Action>, w: int) -> Seq<int> {
    acts.map_values(|a: Action| index_of(w, a.x as int, a.y as int))
}

/// Visit counters after counting each action once at its coordinate; a
/// counter stops at `u32::MAX`.
pub open spec fn counted(totals: Seq<u32>, w: int, acts: Seq<Action>) -> Seq<u32> {
    Seq::new(
        totals.len(),
        |i: int|
            {
                let c = totals[i] + visits(acts, w).to_multiset().count(i);
                if c > u32::MAX {
                    u32::MAX
                } else {
                    c as u32
                }
            },
    )
}

/// The control points of the activity ramp.
pub open spec fn activity_stops() -> Seq<ColorStep> {
    seq![
        ColorStep { color: Rgba([11, 21, 97, 255]), weight: 0 },
        ColorStep { color: Rgba([32, 156, 194, 255]), weight: 10 },
        ColorStep { color: Rgba([122, 222, 142, 255]), weight: 50 },
        ColorStep { color: Rgba([245, 250, 212, 255]), weight: 100 },
        ColorStep { color: Rgba([247, 151, 45, 255]), weight: 500 },
        ColorStep { color: Rgba([211, 17, 34, 255]), weight: 1000 },
        ColorStep { color: Rgba([0, 0, 0, 255]), weight: 5000 },
        ColorStep { color: Rgba([131, 22, 161, 255]), weight: 10000 },
        ColorStep { color: Rgba([240, 101, 243, 255]), weight: 50000 },
    ]
}

/// The color of a pixel visited `count` times under the activity style.
pub open spec fn activity_color(count: u32) -> Rgba {
    gradient_color(activity_stops(), count as int)
}

/// The activity ramp as a [`Gradient`].
fn activity_gradient() -> (g: Gradient)
    ensures
        g.wf(),
        g.stops() == activity_stops(),
{
    let b = Gradient::builder().push(Rgba([11, 21, 97, 255]), 0).push(
        Rgba([32, 156, 194, 255]),
        10,
    ).push(Rgba([122, 222, 142, 255]), 50).push(Rgba([245, 250, 212, 255]), 100).push(
        Rgba([247, 151, 45, 255]),
        500,
    ).push(Rgba([211, 17, 34, 255]), 1000).push(Rgba([0, 0, 0, 255]), 5000).push(
        Rgba([131, 22, 161, 255]),
        10000,
    ).push(Rgba([240, 101, 243, 255]), 50000);
    assert(b.steps() =~= activity_stops());
    assert(sorted_by_weight(activity_stops()));
    b.build()
}

/// Colors pixels by how often they were placed, on a fixed ramp.
#[derive(Debug, Clone)]
pub struct RendererActivity {
    totals_map: Vec<u32>,
    width: u32,
    height: u32,
    gradient: Gradient,
}

impl RendererActivity {
    pub closed spec fn totals(&self) -> Seq<u32> {
        self.totals_map@
    }

    pub closed spec fn width(&self) -> int {
        self.width as int
    }

    pub closed spec fn height(&self) -> int {
        self.height as int
    }

    pub closed spec fn wf(&self) -> bool {
        &&& self.totals_map@.len() == self.width * self.height
        &&& self.gradient.wf()
        &&& self.gradient.stops() == activity_stops()
    }

    /// A renderer for a `width` by `height` canvas with no visits counted.
    pub fn new(width: u32, height: u32) -> (r: RendererActivity)
        requires
            width * height <= usize::MAX,
        ensures
            r.wf(),
            r.width() == width,
            r.height() == height,
            r.totals() == Seq::new((width * height) as nat, |i: int| 0u32),
    {
        let n = width as usize * height as usize;
        let totals_map = vec![0u32; n];
        let r = RendererActivity { totals_map, width, height, gradient: activity_gradient() };
        assert(r.totals() =~= Seq::new((width * height) as nat, |i: int| 0u32));
        r
    }

    /// Counts each action at its coordinate, then colors every pixel by its count.
    pub fn update(&mut self, actions: &[Action], frame: &mut DynamicFrame)
        requires
            old(self).wf(),
            old(frame).wf(),
            old(frame).width() == old(self).width(),
            old(frame).height() == old(self).height(),
            all_in_bounds(actions@, old(self).width(), old(self).height()),
        ensures
            final(self).wf(),
            final(self).width() == old(self).width(),
            final(self).height() == old(self).height(),
            final(self).totals() == counted(old(self).totals(), old(self).width(), actions@),
            final(frame).wf(),
            final(frame).format() == old(frame).format(),
            final(frame).width() == old(frame).width(),
            final(frame).height() == old(frame).height(),
            final(frame).pixels() == final(self).totals().map_values(
                |c: u32| stored(old(frame).format(), activity_color(c)),
            ),
    {
        broadcast use vstd::seq_lib::group_to_multiset_ensures;

        let ghost w = self.width();
        let ghost h = self.height();
        let ghost start = self.totals_map@;
        let mut k: usize = 0;
        assert(visits(actions@.subrange(0, 0), w) =~= Seq::<int>::empty());
        assert(self.totals_map@ =~= counted(start, w, actions@.subrange(0, 0)));
        while k < actions.len()
            invariant
                self.wf(),
                self.width() == w,
                self.height() == h,
                start.len() == w * h,
                all_in_bounds(actions@, w, h),
                0 <= k <= actions@.len(),
                self.totals_map@ == counted(start, w, actions@.subrange(0, k as int)),
            decreases actions@.len() - k,
        {
            let a = &actions[k];
            let len = self.totals_map.len();
            proof {
                crate::frame::lemma_index_in(w, h, a.x as int, a.y as int);
            }
            let i = a.x as usize + a.y as usize * self.width as usize;
            let t = self.totals_map[i];
            self.totals_map.set(i, t.saturating_add(1));
            proof {
                let prev = actions@.subrange(0, k as int);
                let next = actions@.subrange(0, k + 1);
                assert(visits(next, w) =~= visits(prev, w).push(i as int));
                to_multiset_build(visits(prev, w), i as int);
                assert(self.totals_map@ =~= counted(start, w, next));
            }
            k = k + 1;
        }
        assert(actions@.subrange(0, actions@.len() as int) =~= actions@);
        let n = self.totals_map.len();
        let mut pixels: Vec<Rgba> = Vec::new();
        let mut j: usize = 0;
        while j < n
            invariant
                self.wf(),
                n == self.totals_map@.len(),
                0 <= j <= n,
                pixels@ =~= self.totals_map@.subrange(0, j as int).map_values(
                    |c: u32| activity_color(c),
                ),
            decreases n - j,
        {
            let c = self.gradient.at(self.totals_map[j] as i64);
            pixels.push(c);
            j = j + 1;
        }
        frame.put_from_vec(&pixels);
        assert(frame.pixels() =~= self.totals().map_values(
            |c: u32| stored(old(frame).format(), activity_color(c)),
        ));
    }
}

/// Visit counts depend on the visited coordinates alone, not on the order of
/// the visits: batches that visit each coordinate equally often leave equal
/// counters, and so equal colors.
pub proof fn lemma_activity_order_free(totals: Seq<u32>, w: int, a1: Seq<Action>, a2: Seq<Action>)
    requires
        visits(a1, w).to_multiset() == visits(a2, w).to_multiset(),
    ensures
        counted(totals, w, a1) == counted(totals, w, a2),
        counted(totals, w, a1).map_values(|c: u32| activity_color(c)) == counted(
            totals,
            w,
            a2,
        ).map_values(|c: u32| activity_color(c)),
{
    assert(counted(totals, w, a1) =~= counted(totals, w, a2));
}

/// Counting two batches one after the other leaves the same counters as
/// counting them as one batch; so over any number of updates the counters,
/// and the colors, depend only on how often each coordinate was visited in
/// all of them together.
pub proof fn lemma_activity_batches(totals: Seq<u32>, w: int, a: Seq<Action>, b: Seq<Action>)
    ensures
        counted(counted(totals, w, a), w, b) == counted(totals, w, a + b),
{
    assert(visits(a + b, w) =~= visits(a, w) + visits(b, w));
    vstd::seq_lib::lemma_multiset_commutative(visits(a, w), visits(b, w));
    assert(counted(counted(totals, w, a), w, b) =~= counted(totals, w, a + b));
}

/// Two renderers fed two batches each end with equal counters, and so equal
/// colors, when the four batches visit each coordinate equally often in all:
/// neither the order of the visits nor how they were split into batches
/// matters.
pub proof fn lemma_activity_split_free(
    totals: Seq<u32>,
    w: int,
    a1: Seq<Action>,
    b1: Seq<Action>,
    a2: Seq<Action>,
    b2: Seq<Action>,
)
    requires
        visits(a1 + b1, w).to_multiset() == visits(a2 + b2, w).to_multiset(),
    ensures
        counted(counted(totals, w, a1), w, b1) == counted(counted(totals, w, a2), w, b2),
        counted(counted(totals, w, a1), w, b1).map_values(|c: u32| activity_color(c)) == counted(
            counted(totals, w, a2),
            w,
            b2,
        ).map_values(|c: u32| activity_color(c)),
{
    lemma_activity_batches(totals, w, a1, b1);
    lemma_activity_batches(totals, w, a2, b2);
    lemma_activity_order_free(totals, w, a1 + b1, a2 + b2);
}

/// The last timestamp seen at each pixel after recording each action at its
/// coordinate, in order.
pub open spec fn record(map: Seq<Option<i64>>, w: int, acts: Seq<Action>) -> Seq<Option<i64>>
    decreases acts.len(),
{
    if acts.len() == 0 {
        map
    } else {
        let a = acts.last();
        record(map, w, acts.drop_last()).update(index_of(w, a.x as int, a.y as int), Some(a.time))
    }
}

/// The heat style's step counter after the actions: a timestamp past the
/// current boundary `step * counter` moves the counter to the step after the
/// one holding it.
pub open spec fn advance(counter: int, step: int, acts: Seq<Action>) -> int
    decreases acts.len(),
{
    if acts.len() == 0 {
        counter
    } else {
        let prev = advance(counter, step, acts.drop_last());
        let t = acts.last().time as int;
        if t > step * prev {
            t / step + 1
        } else {
            prev
        }
    }
}

/// Intensity `peak` at age 0 or less, falling linearly to 0 at age `window`,
/// rounded down.
pub open spec fn heat_level(age: int, window: int, peak: int) -> int {
    if age <= 0 {
        peak
    } else if age >= window {
        0
    } else {
        peak * (window - age) / window
    }
}

/// The heat style's color of a pixel last placed at `last`, seen at `now`.
pub open spec fn heat_color(last: Option<i64>, now: int, window: int) -> Rgba {
    match last {
        None => opaque(0, 0, 0),
        Some(t) => opaque(
            heat_level(now - t, window, 205) as u8,
            heat_level(now - t, window, 92) as u8,
            heat_level(now - t, window, 92) as u8,
        ),
    }
}

proof fn lemma_heat_level(age1: int, age2: int, window: int, peak: int)
    requires
        window > 0,
        peak >= 0,
        age1 <= age2,
    ensures
        0 <= heat_level(age2, window, peak) <= heat_level(age1, window, peak) <= peak,
{
    if 0 < age1 && age1 < window {
        assert(0 <= peak * (window - age1) <= peak * window) by (nonlinear_arith)
            requires
                0 < age1 < window,
                peak >= 0,
        ;
        lemma_div_is_ordered(peak * (window - age1), peak * window, window);
        lemma_div_by_multiple(peak, window);
        lemma_div_is_ordered(0, peak * (window - age1), window);
        if age2 < window {
            assert(0 <= peak * (window - age2) <= peak * (window - age1)) by (nonlinear_arith)
                requires
                    age1 <= age2 < window,
                    peak >= 0,
            ;
            lemma_div_is_ordered(peak * (window - age2), peak * (window - age1), window);
            lemma_div_is_ordered(0, peak * (window - age2), window);
        }
    } else if age1 <= 0 && 0 < age2 && age2 < window {
        assert(0 <= peak * (window - age2) <= peak * window) by (nonlinear_arith)
            requires
                0 < age2 < window,
                peak >= 0,
        ;
        lemma_div_is_ordered(peak * (window - age2), peak * window, window);
        lemma_div_by_multiple(peak, window);
        lemma_div_is_ordered(0, peak * (window - age2), window);
    }
}

/// A pixel shows full heat at the moment it is placed, fades as time goes
/// on without ever rising or going below black, and is black once the window
/// has passed.
pub proof fn lemma_heat_fades(t: i64, window: int, now1: int, now2: int)
    requires
        window > 0,
    ensures
        heat_color(Some(t), t as int, window) == opaque(205, 92, 92),
        now1 >= t + window ==> heat_color(Some(t), now1, window) == opaque(0, 0, 0),
        t <= now1 <= now2 ==> forall|c: int|
            0 <= c < 3 ==> heat_color(Some(t), now2, window).0[c] <= heat_color(
                Some(t),
                now1,
                window,
            ).0[c],
{
    if now1 <= now2 {
        lemma_heat_level(now1 - t, now2 - t, window, 205);
        lemma_heat_level(now1 - t, now2 - t, window, 92);
    }
}

/// Colors pixels by how recently they were placed, fading over a window.
#[derive(Debug, Clone)]
pub struct RendererHeat {
    heat_map: Vec<Option<i64>>,
    width: u32,
    height: u32,
    step: i64,
    current_step: i128,
    window: i64,
}

impl RendererHeat {
    pub closed spec fn last_seen(&self) -> Seq<Option<i64>> {
        self.heat_map@
    }

    pub closed spec fn width(&self) -> int {
        self.width as int
    }

    pub closed spec fn height(&self) -> int {
        self.height as int
    }

    pub closed spec fn step(&self) -> int {
        self.step as int
    }

    pub closed spec fn counter(&self) -> int {
        self.current_step as int
    }

    pub closed spec fn window(&self) -> int {
        self.window as int
    }

    pub closed spec fn wf(&self) -> bool {
        &&& self.heat_map@.len() == self.width * self.height
        &&& self.step > 0
        &&& self.window > 0
        &&& self.current_step >= 1
        &&& self.step * self.current_step <= i64::MAX + self.step
    }

    /// A renderer for a `width` by `height` canvas over steps of `step`
    /// milliseconds, fading over `window` milliseconds.
    pub fn new(width: u32, height: u32, step: i64, window: i64) -> (r: RendererHeat)
        requires
            width * height <= usize::MAX,
            step > 0,
            window > 0,
        ensures
            r.wf(),
            r.width() == width,
            r.height() == height,
            r.step() == step,
            r.window() == window,
            r.counter() == 1,
            r.last_seen() == Seq::new((width * height) as nat, |i: int| None::<i64>),
    {
        let n = width as usize * height as usize;
        let heat_map: Vec<Option<i64>> = vec![None; n];
        let r = RendererHeat { heat_map, width, height, step, current_step: 1, window };
        assert(r.last_seen() =~= Seq::new((width * height) as nat, |i: int| None::<i64>));
        r
    }

    /// Records each action's timestamp at its coordinate and moves the step
    /// counter on, then colors every pixel by its age at the current step's end.
    pub fn update(&mut self, actions: &[Action], frame: &mut DynamicFrame)
        requires
            old(self).wf(),
            old(frame).wf(),
            old(frame).width() == old(self).width(),
            old(frame).height() == old(self).height(),
            all_in_bounds(actions@, old(self).width(), old(self).height()),
        ensures
            final(self).wf(),
            final(self).width() == old(self).width(),
            final(self).height() == old(self).height(),
            final(self).step() == old(self).step(),
            final(self).window() == old(self).window(),
            final(self).last_seen() == record(old(self).last_seen(), old(self).width(), actions@),
            final(self).counter() == advance(old(self).counter(), old(self).step(), actions@),
            final(frame).wf(),
            final(frame).format() == old(frame).format(),
            final(frame).width() == old(frame).width(),
            final(frame).height() == old(frame).height(),
            final(frame).pixels() == final(self).last_seen().map_values(
                |e: Option<i64>|
                    stored(
                        old(frame).format(),
                        heat_color(e, final(self).step() * final(self).counter(), final(self).window()),
                    ),
            ),
    {
        let ghost w = self.width();
        let ghost h = self.height();
        let ghost map0 = self.heat_map@;
        let ghost cs0 = self.counter();
        let mut k: usize = 0;
        while k < actions.len()
            invariant
                self.wf(),
                self.width() == w,
                self.height() == h,
                self.step() == old(self).step(),
                self.window() == old(self).window(),
                all_in_bounds(actions@, w, h),
                0 <= k <= actions@.len(),
                self.heat_map@ == record(map0, w, actions@.subrange(0, k as int)),
                self.counter() == advance(cs0, self.step(), actions@.subrange(0, k as int)),
            decreases actions@.len() - k,
        {
            let a = &actions[k];
            let len = self.heat_map.len();
            proof {
                crate::frame::lemma_index_in(w, h, a.x as int, a.y as int);
            }
            let i = a.x as usize + a.y as usize * self.width as usize;
            self.heat_map.set(i, Some(a.time));
            let boundary = (self.step as i128) * self.current_step;
            if (a.time as i128) > boundary {
                proof {
                    assert(self.step * self.current_step >= self.step) by (nonlinear_arith)
                        requires
                            self.current_step >= 1,
                            self.step > 0,
                    ;
                }
                let q = (a.time as u64) / (self.step as u64);
                proof {
                    lemma_fundamental_div_mod(a.time as int, self.step as int);
                    assert(self.step * (q + 1) <= i64::MAX + self.step) by (nonlinear_arith)
                        requires
                            a.time == self.step * q + (a.time % self.step),
                            a.time % self.step >= 0,
                            a.time <= i64::MAX,
                    ;
                }
                self.current_step = q as i128 + 1;
            }
            proof {
                let prev = actions@.subrange(0, k as int);
                let next = actions@.subrange(0, k + 1);
                assert(next.drop_last() =~= prev);
            }
            k = k + 1;
        }
        assert(actions@.subrange(0, actions@.len() as int) =~= actions@);
        let now = (self.step as i128) * self.current_step;
        let n = self.heat_map.len();
        let mut pixels: Vec<Rgba> = Vec::new();
        let mut j: usize = 0;
        while j < n
            invariant
                self.wf(),
                n == self.heat_map@.len(),
                now == self.step() * self.counter(),
                0 <= j <= n,
                pixels@ =~= self.heat_map@.subrange(0, j as int).map_values(
                    |e: Option<i64>| heat_color(e, now as int, self.window()),
                ),
            decreases n - j,
        {
            let c = heat_pixel(self.heat_map[j], now, self.window);
            pixels.push(c);
            j = j + 1;
        }
        frame.put_from_vec(&pixels);
        assert(frame.pixels() =~= self.last_seen().map_values(
            |e: Option<i64>|
                stored(old(frame).format(), heat_color(e, self.step() * self.counter(), self.window())),
        ));
    }
}

/// One channel of the heat color.
fn heat_channel(age: i128, window: i64, peak: u8) -> (r: u8)
    requires
        window > 0,
        -0x4_0000_0000_0000_0000 <= age <= 0x4_0000_0000_0000_0000,
    ensures
        r as int == heat_level(age as int, window as int, peak as int),
{
    proof {
        lemma_heat_level(age as int, age as int, window as int, peak as int);
    }
    if age <= 0 {
        peak
    } else if age >= window as i128 {
        0
    } else {
        proof {
            assert(peak * (window - age) <= 255 * 0x1_0000_0000_0000_0000) by (nonlinear_arith)
                requires
                    peak <= 255,
                    0 < window - age <= 0x1_0000_0000_0000_0000,
            ;
        }
        ((peak as i128) * (window as i128 - age) / (window as i128)) as u8
    }
}

/// The heat color of one pixel.
fn heat_pixel(last: Option<i64>, now: i128, window: i64) -> (r: Rgba)
    requires
        window > 0,
        0 <= now <= 0x1_0000_0000_0000_0000,
    ensures
        r == heat_color(last, now as int, window as int),
{
    match last {
        None => Rgba::black(),
        Some(t) => {
            let age = now - t as i128;
            let r = Rgba(
                [
                    heat_channel(age, window, 205),
                    heat_channel(age, window, 92),
                    heat_channel(age, window, 92),
                    255,
                ],
            );
            proof {
                lemma_rgba_eq(r, heat_color(last, now as int, window as int));
            }
            r
        },
    }
}

/// The least timestamp among `lo` and the actions' timestamps.
pub open spec fn fold_min(lo: Option<i64>, acts: Seq<Action>) -> Option<i64>
    decreases acts.len(),
{
    if acts.len() == 0 {
        lo
    } else {
        let t = acts.last().time;
        match fold_min(lo, acts.drop_last()) {
            Some(m) => Some(if t < m { t } else { m }),
            None => Some(t),
        }
    }
}

/// The greatest timestamp among `hi` and the actions' timestamps.
pub open spec fn fold_max(hi: Option<i64>, acts: Seq<Action>) -> Option<i64>
    decreases acts.len(),
{
    if acts.len() == 0 {
        hi
    } else {
        let t = acts.last().time;
        match fold_max(hi, acts.drop_last()) {
            Some(m) => Some(if t > m { t } else { m }),
            None => Some(t),
        }
    }
}

/// The age style's color of a pixel last placed at `last`, where `lo` and
/// `hi` are the oldest and newest timestamps seen: `color_lerp` of blue at
/// the pixel's place between them; black where the pixel was never placed.
/// Where the oldest and newest coincide the place is undefined (zero over
/// zero); such a pixel is taken as the newest and drawn white, a choice of
/// this library, where a float division would have given black.
pub open spec fn age_color(last: Option<i64>, lo: Option<i64>, hi: Option<i64>) -> Rgba {
    match last {
        None => opaque(0, 0, 0),
        Some(t) => {
            let l = lo.unwrap() as int;
            let h = hi.unwrap() as int;
            if h == l {
                color_lerp_spec(opaque(0, 0, 255), 1, 1)
            } else {
                color_lerp_spec(opaque(0, 0, 255), t - l, h - l)
            }
        },
    }
}

/// Colors pixels by when they were last placed, between the oldest and the
/// newest placement seen.
#[derive(Debug, Clone)]
pub struct RendererAge {
    age_map: Vec<Option<i64>>,
    width: u32,
    height: u32,
    min: Option<i64>,
    max: Option<i64>,
}

impl RendererAge {
    pub closed spec fn last_seen(&self) -> Seq<Option<i64>> {
        self.age_map@
    }

    pub closed spec fn width(&self) -> int {
        self.width as int
    }

    pub closed spec fn height(&self) -> int {
        self.height as int
    }

    pub closed spec fn oldest(&self) -> Option<i64> {
        self.min
    }

    pub closed spec fn newest(&self) -> Option<i64> {
        self.max
    }

    pub closed spec fn wf(&self) -> bool {
        &&& self.age_map@.len() == self.width * self.height
        &&& self.min.is_some() == self.max.is_some()
        &&& forall|i: int|
            0 <= i < self.age_map@.len() && (#[trigger] self.age_map@[i]).is_some() ==> {
                &&& self.min.is_some()
                &&& self.min.unwrap() <= self.age_map@[i].unwrap() <= self.max.unwrap()
            }
    }

    /// A renderer for a `width` by `height` canvas with nothing placed.
    pub fn new(width: u32, height: u32) -> (r: RendererAge)
        requires
            width * height <= usize::MAX,
        ensures
            r.wf(),
            r.width() == width,
            r.height() == height,
            r.oldest() is None,
            r.newest() is None,
            r.last_seen() == Seq::new((width * height) as nat, |i: int| None::<i64>),
    {
        let n = width as usize * height as usize;
        let age_map: Vec<Option<i64>> = vec![None; n];
        let r = RendererAge { age_map, width, height, min: None, max: None };
        assert(r.last_seen() =~= Seq::new((width * height) as nat, |i: int| None::<i64>));
        r
    }

    /// Records each action's timestamp at its coordinate and widens the span
    /// of timestamps seen, then colors every pixel by its place in that span.
    pub fn update(&mut self, actions: &[Action], frame: &mut DynamicFrame)
        requires
            old(self).wf(),
            old(frame).wf(),
            old(frame).width() == old(self).width(),
            old(frame).height() == old(self).height(),
            all_in_bounds(actions@, old(self).width(), old(self).height()),
        ensures
            final(self).wf(),
            final(self).width() == old(self).width(),
            final(self).height() == old(self).height(),
            final(self).last_seen() == record(old(self).last_seen(), old(self).width(), actions@),
            final(self).oldest() == fold_min(old(self).oldest(), actions@),
            final(self).newest() == fold_max(old(self).newest(), actions@),
            final(frame).wf(),
            final(frame).format() == old(frame).format(),
            final(frame).width() == old(frame).width(),
            final(frame).height() == old(frame).height(),
            final(frame).pixels() == final(self).last_seen().map_values(
                |e: Option<i64>|
                    stored(old(frame).format(), age_color(e, final(self).oldest(), final(self).newest())),
            ),
    {
        let ghost w = self.width();
        let ghost h = self.height();
        let ghost map0 = self.age_map@;
        let ghost lo0 = self.min;
        let ghost hi0 = self.max;
        let mut k: usize = 0;
        while k < actions.len()
            invariant
                self.wf(),
                self.width() == w,
                self.height() == h,
                all_in_bounds(actions@, w, h),
                0 <= k <= actions@.len(),
                self.age_map@ == record(map0, w, actions@.subrange(0, k as int)),
                self.min == fold_min(lo0, actions@.subrange(0, k as int)),
                self.max == fold_max(hi0, actions@.subrange(0, k as int)),
            decreases actions@.len() - k,
        {
            let a = &actions[k];
            let t = a.time;
            let len = self.age_map.len();
            proof {
                crate::frame::lemma_index_in(w, h, a.x as int, a.y as int);
            }
            let i = a.x as usize + a.y as usize * self.width as usize;
            let ghost before = self.age_map@;
            self.min = match self.min {
                Some(m) => Some(if t < m { t } else { m }),
                None => Some(t),
            };
            self.max = match self.max {
                Some(m) => Some(if t > m { t } else { m }),
                None => Some(t),
            };
            self.age_map.set(i, Some(t));
            proof {
                assert forall|j: int|
                    0 <= j < self.age_map@.len() && (#[trigger] self.age_map@[j]).is_some() implies {
                    &&& self.min.is_some()
                    &&& self.min.unwrap() <= self.age_map@[j].unwrap() <= self.max.unwrap()
                } by {
                    if j != i {
                        assert(before[j] == self.age_map@[j]);
                    }
                }
                let prev = actions@.subrange(0, k as int);
                let next = actions@.subrange(0, k + 1);
                assert(next.drop_last() =~= prev);
            }
            k = k + 1;
        }
        assert(actions@.subrange(0, actions@.len() as int) =~= actions@);
        let n = self.age_map.len();
        let mut pixels: Vec<Rgba> = Vec::new();
        let mut j: usize = 0;
        while j < n
            invariant
                self.wf(),
                n == self.age_map@.len(),
                0 <= j <= n,
                pixels@ =~= self.age_map@.subrange(0, j as int).map_values(
                    |e: Option<i64>| age_color(e, self.min, self.max),
                ),
            decreases n - j,
        {
            let e = self.age_map[j];
            let c = match e {
                None => Rgba::black(),
                Some(t) => {
                    let l = self.min.unwrap();
                    let hi = self.max.unwrap();
                    if hi == l {
                        color_lerp(Rgba([0, 0, 255, 255]), 1, 1)
                    } else {
                        color_lerp(
                            Rgba([0, 0, 255, 255]),
                            (t as i128 - l as i128) as u64,
                            (hi as i128 - l as i128) as u64,
                        )
                    }
                },
            };
            pixels.push(c);
            j = j + 1;
        }
        frame.put_from_vec(&pixels);
        assert(frame.pixels() =~= self.last_seen().map_values(
            |e: Option<i64>| stored(old(frame).format(), age_color(e, self.oldest(), self.newest())),
        ));
    }
}

} // verus!
