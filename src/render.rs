use vstd::prelude::*;
use crate::pixel::{Rgba, opaque};
use crate::action::Action;
use crate::region::Region;
use crate::text::same_text;
use crate::frame::{DynamicFrame, stored};
use crate::batch::{Step, batch_ends, run_ends, chunk_ends, time_keys, splits};
use crate::renderer::{
    RendererNormal,
    RendererHeat,
    RendererVirgin,
    RendererActivity,
    RendererAction,
    RendererPlacement,
    RendererCombined,
    RendererAge,
    all_in_bounds,
    paint,
    normal_color,
    placement_color,
    kind_color,
    combined_color,
    counted,
    activity_color,
    record,
    advance,
    heat_color,
    fold_min,
    fold_max,
    age_color,
};

verus! {

/// The style in which actions are drawn.
#[derive(Debug, Clone, Copy, PartialEq, Eq, Structural)]
pub enum MethodKind {
    Normal,
    /// Heat fading over this many milliseconds.
    Heatmap(i64),
    Virgin,
    Activity,
    Action,
    Milliseconds,
    Seconds,
    Minutes,
    Combined,
    Age,
}

impl MethodKind {
    /// A style that can be drawn: a heat window is positive.
    pub open spec fn wf(&self) -> bool {
        match self {
            MethodKind::Heatmap(w) => *w > 0,
            _ => true,
        }
    }

    /// The plain replay.
    pub fn default_kind() -> (r: MethodKind)
        ensures
            r == MethodKind::Normal,
    {
        MethodKind::Normal
    }
}

/// A style as it is named on the command line; `heat` fades over three hours.
#[derive(Debug, Clone, Copy, PartialEq, Eq, Structural)]
pub enum RenderMethod {
    Normal,
    Heat(i64),
    Virgin,
    Activity,
    Action,
    Milliseconds,
    Seconds,
    Minutes,
    Combined,
    Age,
}

/// The name of a style.
pub open spec fn method_name(m: RenderMethod) -> Seq<char> {
    match m {
        RenderMethod::Normal => "normal"@,
        RenderMethod::Heat(_) => "heat"@,
        RenderMethod::Virgin => "virgin"@,
        RenderMethod::Activity => "activity"@,
        RenderMethod::Action => "action"@,
        RenderMethod::Milliseconds => "milliseconds"@,
        RenderMethod::Seconds => "seconds"@,
        RenderMethod::Minutes => "minutes"@,
        RenderMethod::Combined => "combined"@,
        RenderMethod::Age => "age"@,
    }
}

impl RenderMethod {
    /// The style's name.
    pub fn to_string(&self) -> (r: String)
        ensures
            r@ == method_name(*self),
    {
        let s = match self {
            RenderMethod::Normal => "normal",
            RenderMethod::Heat(_) => "heat",
            RenderMethod::Virgin => "virgin",
            RenderMethod::Activity => "activity",
            RenderMethod::Action => "action",
            RenderMethod::Milliseconds => "milliseconds",
            RenderMethod::Seconds => "seconds",
            RenderMethod::Minutes => "minutes",
            RenderMethod::Combined => "combined",
            RenderMethod::Age => "age",
        };
        s.to_owned()
    }

    /// The style with the given name, or `Err` for any other text.
    pub fn try_from(value: &str) -> (r: Result<RenderMethod, ()>)
        ensures
            r matches Ok(m) ==> method_name(m) == value@ && (m matches RenderMethod::Heat(w) ==> w
                == 10800000),
            r is Err <==> (forall|m: RenderMethod| method_name(m) != value@),
    {
        let all = [
            RenderMethod::Normal,
            RenderMethod::Heat(10800000),
            RenderMethod::Virgin,
            RenderMethod::Activity,
            RenderMethod::Action,
            RenderMethod::Milliseconds,
            RenderMethod::Seconds,
            RenderMethod::Minutes,
            RenderMethod::Combined,
            RenderMethod::Age,
        ];
        let mut i: usize = 0;
        while i < 10
            invariant
                all@ == seq![
                    RenderMethod::Normal,
                    RenderMethod::Heat(10800000),
                    RenderMethod::Virgin,
                    RenderMethod::Activity,
                    RenderMethod::Action,
                    RenderMethod::Milliseconds,
                    RenderMethod::Seconds,
                    RenderMethod::Minutes,
                    RenderMethod::Combined,
                    RenderMethod::Age,
                ],
                0 <= i <= 10,
                forall|j: int| 0 <= j < i ==> method_name(all@[j]) != value@,
            decreases 10 - i,
        {
            let m = all[i];
            let name = m.to_string();
            if same_text(name.as_str(), value) {
                return Ok(m);
            }
            i = i + 1;
        }
        assert forall|m: RenderMethod| method_name(m) != value@ by {
            match m {
                RenderMethod::Normal => assert(method_name(all@[0]) != value@),
                RenderMethod::Heat(_) => assert(method_name(all@[1]) != value@),
                RenderMethod::Virgin => assert(method_name(all@[2]) != value@),
                RenderMethod::Activity => assert(method_name(all@[3]) != value@),
                RenderMethod::Action => assert(method_name(all@[4]) != value@),
                RenderMethod::Milliseconds => assert(method_name(all@[5]) != value@),
                RenderMethod::Seconds => assert(method_name(all@[6]) != value@),
                RenderMethod::Minutes => assert(method_name(all@[7]) != value@),
                RenderMethod::Combined => assert(method_name(all@[8]) != value@),
                RenderMethod::Age => assert(method_name(all@[9]) != value@),
            }
        }
        Err(())
    }

    /// The drawing style this names.
    pub fn kind(&self) -> (r: MethodKind)
        ensures
            r == (match *self {
                RenderMethod::Normal => MethodKind::Normal,
                RenderMethod::Heat(w) => MethodKind::Heatmap(w),
                RenderMethod::Virgin => MethodKind::Virgin,
                RenderMethod::Activity => MethodKind::Activity,
                RenderMethod::Action => MethodKind::Action,
                RenderMethod::Milliseconds => MethodKind::Milliseconds,
                RenderMethod::Seconds => MethodKind::Seconds,
                RenderMethod::Minutes => MethodKind::Minutes,
                RenderMethod::Combined => MethodKind::Combined,
                RenderMethod::Age => MethodKind::Age,
            }),
    {
        match *self {
            RenderMethod::Normal => MethodKind::Normal,
            RenderMethod::Heat(w) => MethodKind::Heatmap(w),
            RenderMethod::Virgin => MethodKind::Virgin,
            RenderMethod::Activity => MethodKind::Activity,
            RenderMethod::Action => MethodKind::Action,
            RenderMethod::Milliseconds => MethodKind::Milliseconds,
            RenderMethod::Seconds => MethodKind::Seconds,
            RenderMethod::Minutes => MethodKind::Minutes,
            RenderMethod::Combined => MethodKind::Combined,
            RenderMethod::Age => MethodKind::Age,
        }
    }
}

/// The period and color of the time-phase styles.
pub open spec fn phase_style(kind: MethodKind) -> (int, Rgba) {
    match kind {
        MethodKind::Milliseconds => (1000, opaque(255, 0, 0)),
        MethodKind::Seconds => (60000, opaque(0, 255, 0)),
        _ => (3600000, opaque(0, 0, 255)),
    }
}

/// One drawing style with its state.
#[derive(Debug, Clone)]
pub enum Renderer {
    Normal(RendererNormal),
    Heat(RendererHeat),
    Virgin(RendererVirgin),
    Activity(RendererActivity),
    Action(RendererAction),
    Placement(RendererPlacement),
    Combined(RendererCombined),
    Age(RendererAge),
}

impl Renderer {
    /// The renderer's state is sound, for a canvas `w` by `h`.
    pub open spec fn fits(&self, w: int, h: int) -> bool {
        match self {
            Renderer::Normal(r) => r.background().wf(),
            Renderer::Heat(r) => r.wf() && r.width() == w && r.height() == h,
            Renderer::Activity(r) => r.wf() && r.width() == w && r.height() == h,
            Renderer::Age(r) => r.wf() && r.width() == w && r.height() == h,
            Renderer::Placement(r) => r.period() > 0,
            _ => true,
        }
    }

    /// Drawing `acts` took the renderer from `r0` to `r1` and the frame
    /// from `f0` to `f1`, as the style says.
    pub open spec fn drew(
        r0: Renderer,
        r1: Renderer,
        f0: DynamicFrame,
        f1: DynamicFrame,
        acts: Seq<Action>,
    ) -> bool {
        let w = f0.width();
        let fmt = f0.format();
        match r0 {
            Renderer::Normal(r) => r1 == r0 && f1.pixels() == paint(
                f0.pixels(),
                w,
                fmt,
                acts,
                |a: Action| normal_color(r.palette(), r.background(), a),
            ),
            Renderer::Virgin(_) => r1 == r0 && f1.pixels() == paint(
                f0.pixels(),
                w,
                fmt,
                acts,
                |a: Action| opaque(0, 0, 0),
            ),
            Renderer::Action(_) => r1 == r0 && f1.pixels() == paint(
                f0.pixels(),
                w,
                fmt,
                acts,
                |a: Action| kind_color(a.kind.unwrap()),
            ),
            Renderer::Placement(r) => r1 == r0 && f1.pixels() == paint(
                f0.pixels(),
                w,
                fmt,
                acts,
                |a: Action| placement_color(r.color(), r.period(), a),
            ),
            Renderer::Combined(_) => r1 == r0 && f1.pixels() == paint(
                f0.pixels(),
                w,
                fmt,
                acts,
                |a: Action| combined_color(a),
            ),
            Renderer::Activity(r) => match r1 {
                Renderer::Activity(s) => {
                    &&& s.width() == r.width()
                    &&& s.height() == r.height()
                    &&& s.totals() == counted(r.totals(), r.width(), acts)
                    &&& f1.pixels() == s.totals().map_values(
                        |c: u32| stored(fmt, activity_color(c)),
                    )
                },
                _ => false,
            },
            Renderer::Heat(r) => match r1 {
                Renderer::Heat(s) => {
                    &&& s.width() == r.width()
                    &&& s.height() == r.height()
                    &&& s.step() == r.step()
                    &&& s.window() == r.window()
                    &&& s.last_seen() == record(r.last_seen(), r.width(), acts)
                    &&& s.counter() == advance(r.counter(), r.step(), acts)
                    &&& f1.pixels() == s.last_seen().map_values(
                        |e: Option<i64>|
                            stored(fmt, heat_color(e, s.step() * s.counter(), s.window())),
                    )
                },
                _ => false,
            },
            Renderer::Age(r) => match r1 {
                Renderer::Age(s) => {
                    &&& s.width() == r.width()
                    &&& s.height() == r.height()
                    &&& s.last_seen() == record(r.last_seen(), r.width(), acts)
                    &&& s.oldest() == fold_min(r.oldest(), acts)
                    &&& s.newest() == fold_max(r.newest(), acts)
                    &&& f1.pixels() == s.last_seen().map_values(
                        |e: Option<i64>| stored(fmt, age_color(e, s.oldest(), s.newest())),
                    )
                },
                _ => false,
            },
        }
    }

    /// The renderer for a style over the given background and palette.
    pub fn new(method: MethodKind, background: &DynamicFrame, palette: Vec<Rgba>, step: Step) -> (r: Renderer)
        requires
            method.wf(),
            step.wf(),
            background.wf(),
            background.width() * background.height() <= usize::MAX,
        ensures
            r.fits(background.width(), background.height()),
            match method {
                MethodKind::Normal => r is Normal,
                MethodKind::Heatmap(_) => r is Heat,
                MethodKind::Virgin => r is Virgin,
                MethodKind::Activity => r is Activity,
                MethodKind::Action => r is Action,
                MethodKind::Milliseconds | MethodKind::Seconds | MethodKind::Minutes => r matches Renderer::Placement(p) && p.period() == phase_style(method).0 && p.color() == phase_style(method).1,
                MethodKind::Combined => r is Combined,
                MethodKind::Age => r is Age,
            },
            r matches Renderer::Normal(n) ==> n.background().wf() && n.background().format()
                == background.format() && n.background().width() == background.width()
                && n.background().height() == background.height() && n.background().pixels()
                == background.pixels() && n.palette() == palette@,
            r matches Renderer::Heat(h) ==> h.step() == step.size() && h.counter() == 1 && h.window() == (match method {
                MethodKind::Heatmap(w) => w as int,
                _ => 0,
            }) && h.last_seen() == Seq::new(
                (background.width() * background.height()) as nat,
                |i: int| None::<i64>,
            ),
            r matches Renderer::Activity(a) ==> a.totals() == Seq::new(
                (background.width() * background.height()) as nat,
                |i: int| 0u32,
            ),
            r matches Renderer::Age(a) ==> a.oldest() is None && a.newest() is None && a.last_seen() == Seq::new(
                (background.width() * background.height()) as nat,
                |i: int| None::<i64>,
            ),
    {
        let (width, height) = background.dimensions();
        match method {
            MethodKind::Normal => Renderer::Normal(RendererNormal::new(background.clone_frame(), palette)),
            MethodKind::Heatmap(window) => Renderer::Heat(RendererHeat::new(width, height, step.get(), window)),
            MethodKind::Virgin => Renderer::Virgin(RendererVirgin),
            MethodKind::Activity => Renderer::Activity(RendererActivity::new(width, height)),
            MethodKind::Action => Renderer::Action(RendererAction),
            MethodKind::Milliseconds => Renderer::Placement(RendererPlacement::new(Rgba([255, 0, 0, 255]), 1000)),
            MethodKind::Seconds => Renderer::Placement(RendererPlacement::new(Rgba([0, 255, 0, 255]), 60000)),
            MethodKind::Minutes => Renderer::Placement(RendererPlacement::new(Rgba([0, 0, 255, 255]), 3600000)),
            MethodKind::Combined => Renderer::Combined(RendererCombined),
            MethodKind::Age => Renderer::Age(RendererAge::new(width, height)),
        }
    }

    /// Draws one frame's actions onto `frame`.
    pub fn update(&mut self, actions: &[Action], frame: &mut DynamicFrame)
        requires
            old(self).fits(old(frame).width(), old(frame).height()),
            old(frame).wf(),
            all_in_bounds(actions@, old(frame).width(), old(frame).height()),
            (*old(self)) is Action ==> forall|i: int| 0 <= i < actions@.len() ==> actions@[i].kind.is_some(),
        ensures
            final(self).fits(old(frame).width(), old(frame).height()),
            final(frame).wf(),
            final(frame).format() == old(frame).format(),
            final(frame).width() == old(frame).width(),
            final(frame).height() == old(frame).height(),
            Renderer::drew(*old(self), *final(self), *old(frame), *final(frame), actions@),
    {
        match self {
            Renderer::Normal(r) => r.update(actions, frame),
            Renderer::Heat(r) => r.update(actions, frame),
            Renderer::Virgin(r) => r.update(actions, frame),
            Renderer::Activity(r) => r.update(actions, frame),
            Renderer::Action(r) => r.update(actions, frame),
            Renderer::Placement(r) => r.update(actions, frame),
            Renderer::Combined(r) => r.update(actions, frame),
            Renderer::Age(r) => r.update(actions, frame),
        }
    }
}

/// Where the slice of batch `i` starts: where the batch before it ended.
pub open spec fn batch_start(ends: Seq<usize>, i: int) -> int {
    if i == 0 {
        0
    } else {
        ends[i - 1] as int
    }
}

/// A render in progress: the background frame comes first, then each batch
/// of actions is drawn onto the frame in turn, one frame per batch.
#[derive(Debug)]
pub struct RenderSession {
    renderer: Renderer,
    frame: DynamicFrame,
    actions: Vec<Action>,
    ends: Vec<usize>,
    next: usize,
}

impl RenderSession {
    pub closed spec fn renderer(&self) -> Renderer {
        self.renderer
    }

    pub closed spec fn frame_spec(&self) -> DynamicFrame {
        self.frame
    }

    pub closed spec fn actions(&self) -> Seq<Action> {
        self.actions@
    }

    pub closed spec fn ends(&self) -> Seq<usize> {
        self.ends@
    }

    /// How many batches have been drawn.
    pub closed spec fn position(&self) -> int {
        self.next as int
    }

    pub closed spec fn wf(&self) -> bool {
        &&& self.frame.wf()
        &&& self.renderer.fits(self.frame.width(), self.frame.height())
        &&& splits(self.ends@, self.actions@.len() as int)
        &&& self.next <= self.ends@.len()
        &&& all_in_bounds(self.actions@, self.frame.width(), self.frame.height())
        &&& self.renderer is Action ==> forall|i: int|
            0 <= i < self.actions@.len() ==> self.actions@[i].kind.is_some()
    }

    /// A session that draws `actions` over `background`, split by `step`.
    pub fn new(renderer: Renderer, background: DynamicFrame, actions: Vec<Action>, step: Step) -> (s: RenderSession)
        requires
            background.wf(),
            renderer.fits(background.width(), background.height()),
            step.wf(),
            all_in_bounds(actions@, background.width(), background.height()),
            renderer is Action ==> forall|i: int|
                0 <= i < actions@.len() ==> actions@[i].kind.is_some(),
        ensures
            s.wf(),
            s.renderer() == renderer,
            s.frame_spec() == background,
            s.actions() == actions@,
            s.position() == 0,
            s.ends().map_values(|e: usize| e as int) == (match step {
                Step::Time(t) => run_ends(time_keys(actions@, t as int)),
                Step::Pixels(c) => chunk_ends(actions@.len() as int, c as int),
            }),
    {
        let ends = batch_ends(actions.as_slice(), step);
        RenderSession { renderer, frame: background, actions, ends, next: 0 }
    }

    /// The frame as drawn so far.
    pub fn frame(&self) -> (r: &DynamicFrame)
        ensures
            *r == self.frame_spec(),
    {
        &self.frame
    }

    /// Whether every batch has been drawn.
    pub fn is_done(&self) -> (r: bool)
        ensures
            r == (self.position() >= self.ends().len()),
    {
        self.next >= self.ends.len()
    }

    /// Draws the next batch, if any is left, and says whether it did.
    pub fn advance(&mut self) -> (r: bool)
        requires
            old(self).wf(),
        ensures
            final(self).wf(),
            final(self).actions() == old(self).actions(),
            final(self).ends() == old(self).ends(),
            r == (old(self).position() < old(self).ends().len()),
            r ==> final(self).position() == old(self).position() + 1 && Renderer::drew(
                old(self).renderer(),
                final(self).renderer(),
                old(self).frame_spec(),
                final(self).frame_spec(),
                old(self).actions().subrange(
                    batch_start(old(self).ends(), old(self).position()),
                    old(self).ends()[old(self).position()] as int,
                ),
            ),
            !r ==> *final(self) == *old(self),
    {
        if self.next >= self.ends.len() {
            return false;
        }
        let start = if self.next == 0 {
            0
        } else {
            self.ends[self.next - 1]
        };
        let end = self.ends[self.next];
        let slice = vstd::slice::slice_subrange(self.actions.as_slice(), start, end);
        proof {
            let sub = slice@;
            assert forall|i: int| 0 <= i < sub.len() implies sub[i].x < self.frame.width()
                && sub[i].y < self.frame.height() by {
                assert(sub[i] == self.actions@[start + i]);
            }
            if self.renderer is Action {
                assert forall|i: int| 0 <= i < sub.len() implies sub[i].kind.is_some() by {
                    assert(sub[i] == self.actions@[start + i]);
                }
            }
        }
        self.renderer.update(slice, &mut self.frame);
        self.next = self.next + 1;
        true
    }
}

/// The canvas for actions bounded by `bounds` (end excluded): its size, and
/// the offset that moves the bounds' start to the origin.
pub fn canvas_from_bounds(bounds: &Region) -> (r: ((u32, u32), (u32, u32)))
    requires
        bounds.wf(),
    ensures
        r.0 == ((bounds.end_spec().0 - bounds.start_spec().0) as u32, (bounds.end_spec().1
            - bounds.start_spec().1) as u32),
        r.1 == bounds.start_spec(),
{
    ((bounds.width(), bounds.height()), bounds.start())
}

/// The actions with `(dx, dy)` moved to the origin, or `None` where an action
/// lies before it on either axis.
pub fn relocate(actions: &[Action], dx: u32, dy: u32) -> (r: Option<Vec<Action>>)
    ensures
        r is Some <==> forall|i: int| 0 <= i < actions@.len() ==> actions@[i].x >= dx && actions@[i].y >= dy,
        r matches Some(v) ==> v@.len() == actions@.len() && forall|i: int|
            0 <= i < actions@.len() ==> {
                &&& #[trigger] v@[i].x == actions@[i].x - dx
                &&& v@[i].y == actions@[i].y - dy
                &&& v@[i].time == actions@[i].time
                &&& v@[i].user == actions@[i].user
                &&& v@[i].index == actions@[i].index
                &&& v@[i].kind == actions@[i].kind
            },
{
    let mut out: Vec<Action> = Vec::new();
    let mut k: usize = 0;
    while k < actions.len()
        invariant
            0 <= k <= actions@.len(),
            out@.len() == k,
            forall|i: int| 0 <= i < k ==> actions@[i].x >= dx && actions@[i].y >= dy,
            forall|i: int|
                0 <= i < k ==> {
                    &&& #[trigger] out@[i].x == actions@[i].x - dx
                    &&& out@[i].y == actions@[i].y - dy
                    &&& out@[i].time == actions@[i].time
                    &&& out@[i].user == actions@[i].user
                    &&& out@[i].index == actions@[i].index
                    &&& out@[i].kind == actions@[i].kind
                },
        decreases actions@.len() - k,
    {
        let a = &actions[k];
        if a.x < dx || a.y < dy {
            return None;
        }
        let user = match &a.user {
            Some(id) => Some(id.duplicate()),
            None => None,
        };
        out.push(Action { time: a.time, user, x: a.x - dx, y: a.y - dy, index: a.index, kind: a.kind });
        k = k + 1;
    }
    Some(out)
}

/// The smallest region that holds every action's coordinate, with its end
/// one past the largest coordinate on each axis; `None` for no actions, or
/// where a coordinate is `u32::MAX` and the end would not fit.
pub fn action_bounds(actions: &[Action]) -> (r: Option<Region>)
    ensures
        r is Some <==> actions@.len() > 0 && forall|i: int|
            0 <= i < actions@.len() ==> actions@[i].x < u32::MAX && actions@[i].y < u32::MAX,
        r matches Some(g) ==> {
            &&& g.wf()
            &&& forall|i: int|
                0 <= i < actions@.len() ==> g.start_spec().0 <= #[trigger] actions@[i].x
                    < g.end_spec().0 && g.start_spec().1 <= actions@[i].y < g.end_spec().1
            &&& exists|i: int| 0 <= i < actions@.len() && actions@[i].x == g.start_spec().0
            &&& exists|i: int| 0 <= i < actions@.len() && actions@[i].y == g.start_spec().1
            &&& exists|i: int| 0 <= i < actions@.len() && actions@[i].x + 1 == g.end_spec().0
            &&& exists|i: int| 0 <= i < actions@.len() && actions@[i].y + 1 == g.end_spec().1
        },
{
    if actions.len() == 0 {
        return None;
    }
    let mut x1 = actions[0].x;
    let mut y1 = actions[0].y;
    let mut x2 = actions[0].x;
    let mut y2 = actions[0].y;
    let ghost mut ix1: int = 0;
    let ghost mut iy1: int = 0;
    let ghost mut ix2: int = 0;
    let ghost mut iy2: int = 0;
    let mut k: usize = 1;
    while k < actions.len()
        invariant
            1 <= k <= actions@.len(),
            0 <= ix1 < k && actions@[ix1].x == x1,
            0 <= iy1 < k && actions@[iy1].y == y1,
            0 <= ix2 < k && actions@[ix2].x == x2,
            0 <= iy2 < k && actions@[iy2].y == y2,
            forall|i: int|
                0 <= i < k ==> x1 <= #[trigger] actions@[i].x <= x2 && y1 <= actions@[i].y <= y2,
        decreases actions@.len() - k,
    {
        let a = &actions[k];
        if a.x < x1 {
            x1 = a.x;
            proof { ix1 = k as int; }
        }
        if a.x > x2 {
            x2 = a.x;
            proof { ix2 = k as int; }
        }
        if a.y < y1 {
            y1 = a.y;
            proof { iy1 = k as int; }
        }
        if a.y > y2 {
            y2 = a.y;
            proof { iy2 = k as int; }
        }
        k = k + 1;
    }
    if x2 == u32::MAX || y2 == u32::MAX {
        return None;
    }
    Region::new(x1, y1, x2 + 1, y2 + 1)
}

} // verus!
