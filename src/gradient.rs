use vstd::prelude::*;
use vstd::arithmetic::div_mod::{
    lemma_fundamental_div_mod,
    lemma_fundamental_div_mod_converse,
    lemma_div_is_ordered,
    lemma_div_by_multiple,
};
use vstd::seq_lib::to_multiset_insert;
use vstd::seq_lib::to_multiset_build;
use crate::pixel::{Rgba, lemma_rgba_eq};

verus! {

/// One control point of a gradient: a color at a weight.
#[derive(Debug, Clone, Copy, PartialEq, Eq)]
pub struct ColorStep {
    pub color: Rgba,
    pub weight: u32,
}

/// Control points sorted by weight, ascending.
pub open spec fn sorted_by_weight(s: Seq<ColorStep>) -> bool {
    forall|i: int, j: int| 0 <= i < j < s.len() ==> s[i].weight <= s[j].weight
}

/// One channel interpolated linearly between `c0` at weight `w0` and `c1` at
/// weight `w1`, rounded down; exactly `c0` at `w0`.
pub open spec fn lerp_channel(c0: u8, c1: u8, w0: int, w1: int, w: int) -> int {
    if w == w0 {
        c0 as int
    } else {
        c0 + ((c1 - c0) * (w - w0)) / (w1 - w0)
    }
}

/// The color interpolated between two control points, channel by channel.
pub open spec fn lerp_step(a: ColorStep, b: ColorStep, w: int) -> Rgba {
    Rgba(
        [
            lerp_channel(a.color.0[0], b.color.0[0], a.weight as int, b.weight as int, w) as u8,
            lerp_channel(a.color.0[1], b.color.0[1], a.weight as int, b.weight as int, w) as u8,
            lerp_channel(a.color.0[2], b.color.0[2], a.weight as int, b.weight as int, w) as u8,
            lerp_channel(a.color.0[3], b.color.0[3], a.weight as int, b.weight as int, w) as u8,
        ],
    )
}

/// The color at weight `w`, looking from control point `i` on for the first
/// pair whose weights bound `w`; the last color where none does.
pub open spec fn window_color(s: Seq<ColorStep>, w: int, i: int) -> Rgba
    decreases s.len() - i,
{
    if i < 0 || i + 1 >= s.len() {
        s.last().color
    } else if s[i].weight <= w <= s[i + 1].weight {
        lerp_step(s[i], s[i + 1], w)
    } else {
        window_color(s, w, i + 1)
    }
}

/// The color of a gradient with control points `s` at weight `w`: the first
/// color below the domain, the last above it, interpolated inside it.
pub open spec fn gradient_color(s: Seq<ColorStep>, w: int) -> Rgba {
    if w < s[0].weight {
        s[0].color
    } else {
        window_color(s, w, 0)
    }
}

/// The control points of weight `w`, in their order.
pub open spec fn with_weight(s: Seq<ColorStep>, w: u32) -> Seq<ColorStep> {
    s.filter(weight_is(w))
}

/// A control point has weight `w`.
pub open spec fn weight_is(w: u32) -> spec_fn(ColorStep) -> bool {
    |c: ColorStep| c.weight == w
}

proof fn lemma_none_with_weight(s: Seq<ColorStep>, w: u32)
    requires
        forall|i: int| 0 <= i < s.len() ==> s[i].weight != w,
    ensures
        with_weight(s, w) == Seq::<ColorStep>::empty(),
    decreases s.len(),
{
    if s.len() > 0 {
        lemma_none_with_weight(s.drop_last(), w);
        s.drop_last().lemma_filter_push(s.last(), weight_is(w));
        assert(s.drop_last().push(s.last()) =~= s);
    } else {
        assert(s.filter(weight_is(w)).len() == 0) by {
            s.filter_lemma(weight_is(w));
        }
    }
    assert(with_weight(s, w) =~= Seq::<ColorStep>::empty());
}

/// A color ramp over weighted control points.
#[derive(Debug, Clone)]
pub struct Gradient {
    colors: Vec<ColorStep>,
    min_weight: u32,
    max_weight: u32,
}

/// Collects control points for a [`Gradient`].
#[derive(Debug)]
pub struct GradientBuilder {
    colors: Vec<ColorStep>,
}

proof fn lemma_neg_div(a: int, d: int)
    requires
        a >= 0,
        d > 0,
    ensures
        (-a) / d == -((a + d - 1) / d),
{
    lemma_fundamental_div_mod(a + d - 1, d);
    let q = (a + d - 1) / d;
    let m = (a + d - 1) % d;
    assert(-a == (-q) * d + (d - 1 - m)) by (nonlinear_arith)
        requires
            a + d - 1 == d * q + m,
    ;
    lemma_fundamental_div_mod_converse(-a, d, -q, d - 1 - m);
}

/// One channel between two control points, for `w0 <= w <= w1`.
fn lerp_u8(c0: u8, c1: u8, w0: u32, w1: u32, w: i64) -> (r: u8)
    requires
        w0 <= w <= w1,
    ensures
        r as int == lerp_channel(c0, c1, w0 as int, w1 as int, w as int),
{
    if w == w0 as i64 {
        return c0;
    }
    let t = (w - w0 as i64) as u64;
    let d = (w1 - w0) as u64;
    if c1 >= c0 {
        let a = (c1 - c0) as u64;
        proof {
            assert(a * t <= a * d) by (nonlinear_arith)
                requires
                    0 <= t <= d,
                    0 <= a,
            ;
            assert(a * d <= 255 * 0xffff_ffff) by (nonlinear_arith)
                requires
                    a <= 255,
                    d <= 0xffff_ffff,
            ;
            lemma_div_is_ordered((a * t) as int, (a * d) as int, d as int);
            lemma_div_by_multiple(a as int, d as int);
        }
        let step = (a * t / d) as u8;
        c0 + step
    } else {
        let a = (c0 - c1) as u64;
        proof {
            assert(a * t <= a * d) by (nonlinear_arith)
                requires
                    0 <= t <= d,
                    0 <= a,
            ;
            assert(a * d <= 255 * 0xffff_ffff) by (nonlinear_arith)
                requires
                    a <= 255,
                    d <= 0xffff_ffff,
            ;
            assert(a * t + d - 1 < a * d + d);
            lemma_div_is_ordered((a * t + d - 1) as int, (a * d + d - 1) as int, d as int);
            lemma_fundamental_div_mod_converse((a * d + d - 1) as int, d as int, a as int, d - 1);
            lemma_neg_div((a * t) as int, d as int);
            assert((c1 - c0) * (w - w0) == -(a * t)) by (nonlinear_arith)
                requires
                    a == c0 - c1,
                    t == w - w0,
            ;
        }
        let step = ((a * t + d - 1) / d) as u8;
        c0 - step
    }
}

/// The color interpolated between two control points, for weights between them.
fn lerp_color(a: ColorStep, b: ColorStep, w: i64) -> (r: Rgba)
    requires
        a.weight <= w <= b.weight,
    ensures
        r == lerp_step(a, b, w as int),
{
    let r = Rgba(
        [
            lerp_u8(a.color.0[0], b.color.0[0], a.weight, b.weight, w),
            lerp_u8(a.color.0[1], b.color.0[1], a.weight, b.weight, w),
            lerp_u8(a.color.0[2], b.color.0[2], a.weight, b.weight, w),
            lerp_u8(a.color.0[3], b.color.0[3], a.weight, b.weight, w),
        ],
    );
    proof {
        lemma_rgba_eq(r, lerp_step(a, b, w as int));
    }
    r
}

impl Gradient {
    /// The control points, sorted by weight.
    pub closed spec fn stops(&self) -> Seq<ColorStep> {
        self.colors@
    }

    pub closed spec fn wf(&self) -> bool {
        &&& self.colors@.len() > 0
        &&& sorted_by_weight(self.colors@)
        &&& self.min_weight == self.colors@[0].weight
        &&& self.max_weight == self.colors@.last().weight
    }

    /// An empty builder.
    pub fn builder() -> (b: GradientBuilder)
        ensures
            b.steps() == Seq::<ColorStep>::empty(),
    {
        GradientBuilder { colors: Vec::new() }
    }

    /// The color at `weight`.
    pub fn at(&self, weight: i64) -> (r: Rgba)
        requires
            self.wf(),
        ensures
            r == gradient_color(self.stops(), weight as int),
    {
        if weight < self.colors[0].weight as i64 {
            return self.colors[0].color;
        }
        let n = self.colors.len();
        let mut i: usize = 0;
        while i + 1 < n
            invariant
                n == self.colors@.len(),
                n > 0,
                0 <= i < n,
                weight >= self.colors@[0].weight,
                window_color(self.colors@, weight as int, 0) == window_color(
                    self.colors@,
                    weight as int,
                    i as int,
                ),
            decreases n - i,
        {
            let a = self.colors[i];
            let b = self.colors[i + 1];
            if a.weight as i64 <= weight && weight <= b.weight as i64 {
                assert(window_color(self.colors@, weight as int, i as int) == lerp_step(
                    a,
                    b,
                    weight as int,
                ));
                return lerp_color(a, b, weight);
            }
            i = i + 1;
        }
        self.colors[n - 1].color
    }

    /// The control points, sorted by weight.
    pub fn colors(&self) -> (r: &[ColorStep])
        ensures
            r@ == self.stops(),
    {
        self.colors.as_slice()
    }

    /// The weights of the first and the last control point.
    pub fn domain(&self) -> (r: (u32, u32))
        requires
            self.wf(),
        ensures
            r.0 == self.stops()[0].weight,
            r.1 == self.stops().last().weight,
    {
        (self.min_weight, self.max_weight)
    }
}

impl GradientBuilder {
    /// The control points collected so far, in the order given.
    pub closed spec fn steps(&self) -> Seq<ColorStep> {
        self.colors@
    }

    /// Adds one control point.
    pub fn push(self, color: Rgba, weight: u32) -> (b: GradientBuilder)
        ensures
            b.steps() == self.steps().push(ColorStep { color, weight }),
    {
        let mut colors = self.colors;
        colors.push(ColorStep { color, weight });
        GradientBuilder { colors }
    }

    /// Adds one control point for each color, at the weight of the same index.
    pub fn push_slice(self, colors: &[Rgba], weights: &[u32]) -> (b: GradientBuilder)
        requires
            colors@.len() == weights@.len(),
        ensures
            b.steps() == self.steps() + Seq::new(
                colors@.len(),
                |i: int| ColorStep { color: colors@[i], weight: weights@[i] },
            ),
    {
        let mut out = self.colors;
        let ghost start = out@;
        let mut i: usize = 0;
        while i < colors.len()
            invariant
                colors@.len() == weights@.len(),
                0 <= i <= colors@.len(),
                out@ =~= start + Seq::new(
                    i as nat,
                    |k: int| ColorStep { color: colors@[k], weight: weights@[k] },
                ),
            decreases colors@.len() - i,
        {
            out.push(ColorStep { color: colors[i], weight: weights[i] });
            i = i + 1;
        }
        GradientBuilder { colors: out }
    }

    /// The gradient over the collected control points, sorted by weight;
    /// points of equal weight keep the order in which they came.
    pub fn build(self) -> (g: Gradient)
        requires
            self.steps().len() > 0,
        ensures
            g.wf(),
            sorted_by_weight(g.stops()),
            g.stops().to_multiset() == self.steps().to_multiset(),
            sorted_by_weight(self.steps()) ==> g.stops() == self.steps(),
            forall|w: u32| #[trigger] with_weight(g.stops(), w) == with_weight(self.steps(), w),
    {
        let src = self.colors;
        let n = src.len();
        let mut sorted: Vec<ColorStep> = Vec::new();
        let mut k: usize = 0;
        proof {
            broadcast use vstd::seq_lib::group_to_multiset_ensures;

            assert(src@.subrange(0, 0) =~= sorted@);
        }
        while k < n
            invariant
                n == src@.len(),
                0 <= k <= n,
                sorted_by_weight(sorted@),
                sorted@.len() == k,
                sorted@.to_multiset() == src@.subrange(0, k as int).to_multiset(),
                sorted_by_weight(src@) ==> sorted@ == src@.subrange(0, k as int),
                forall|w: u32| #[trigger] with_weight(sorted@, w) == with_weight(src@.subrange(0, k as int), w),
            decreases n - k,
        {
            let e = src[k];
            proof {
                if sorted_by_weight(src@) {
                    assert forall|m: int| 0 <= m < sorted@.len() implies sorted@[m].weight <= e.weight by {
                        assert(sorted@[m] == src@[m]);
                    }
                }
            }
            let mut j: usize = 0;
            while j < sorted.len() && sorted[j].weight <= e.weight
                invariant
                    0 <= j <= sorted@.len(),
                    forall|m: int| 0 <= m < j ==> sorted@[m].weight <= e.weight,
                    sorted_by_weight(src@) ==> forall|m: int|
                        0 <= m < sorted@.len() ==> sorted@[m].weight <= e.weight,
                decreases sorted@.len() - j,
            {
                j = j + 1;
            }
            let ghost before = sorted@;
            sorted.insert(j, e);
            proof {
                if sorted_by_weight(src@) {
                    assert(j == before.len());
                    assert(sorted@ =~= src@.subrange(0, k + 1));
                }
                to_multiset_insert(before, j as int, e);
                let b0 = before.subrange(0, j as int);
                let b1 = before.subrange(j as int, before.len() as int);
                assert(before =~= b0 + b1);
                assert(sorted@ =~= b0 + seq![e] + b1);
                assert forall|w: u32| #[trigger] with_weight(sorted@, w) == with_weight(
                    src@.subrange(0, k + 1),
                    w,
                ) by {
                    let p = weight_is(w);
                    Seq::filter_distributes_over_add(b0, b1, p);
                    Seq::filter_distributes_over_add(b0 + seq![e], b1, p);
                    Seq::filter_distributes_over_add(b0, seq![e], p);
                    src@.subrange(0, k as int).lemma_filter_push(e, p);
                    assert(seq![e] =~= Seq::<ColorStep>::empty().push(e));
                    Seq::<ColorStep>::empty().lemma_filter_push(e, p);
                    assert(Seq::<ColorStep>::empty().filter(p).len() == 0) by {
                        Seq::<ColorStep>::empty().filter_lemma(p);
                    }
                    assert(with_weight(before, w) == with_weight(src@.subrange(0, k as int), w));
                    assert(with_weight(sorted@, w) == b0.filter(p) + seq![e].filter(p) + b1.filter(p));
                    assert(with_weight(before, w) == b0.filter(p) + b1.filter(p));
                    assert(src@.subrange(0, k + 1) =~= src@.subrange(0, k as int).push(e));
                    if w == e.weight {
                        assert(p(e));
                        assert(seq![e].filter(p) == seq![e]);
                        assert forall|i: int| 0 <= i < b1.len() implies b1[i].weight != w by {
                            assert(before[j + i].weight > e.weight);
                        }
                        lemma_none_with_weight(b1, w);
                        assert(b1.filter(p) == Seq::<ColorStep>::empty());
                        assert(with_weight(before, w) =~= b0.filter(p));
                        assert(with_weight(src@.subrange(0, k + 1), w) == with_weight(
                            src@.subrange(0, k as int),
                            w,
                        ).push(e));
                        assert(with_weight(sorted@, w) =~= with_weight(src@.subrange(0, k + 1), w));
                    } else {
                        assert(!p(e));
                        assert(seq![e].filter(p) == Seq::<ColorStep>::empty());
                        assert(with_weight(src@.subrange(0, k + 1), w) == with_weight(
                            src@.subrange(0, k as int),
                            w,
                        ));
                        assert(with_weight(sorted@, w) =~= with_weight(src@.subrange(0, k + 1), w));
                    }
                }
                assert(src@.subrange(0, k + 1) =~= src@.subrange(0, k as int).push(e));
                to_multiset_build(src@.subrange(0, k as int), e);
                assert forall|a: int, b: int| 0 <= a < b < sorted@.len() implies sorted@[a].weight
                    <= sorted@[b].weight by {
                    if a < j && b > j {
                        assert(before[a].weight <= e.weight);
                        if j < before.len() {
                            assert(before[j as int].weight > e.weight);
                            assert(before[j as int].weight <= before[b - 1].weight);
                        }
                    } else if a == j as int {
                        assert(before[j as int].weight > e.weight);
                        if (j as int) < b - 1 {
                            assert(before[j as int].weight <= before[b - 1].weight);
                        }
                    } else if b == j as int {
                        assert(before[a].weight <= e.weight);
                    } else if b < j {
                        assert(before[a].weight <= before[b].weight);
                    } else {
                        assert(before[a - 1].weight <= before[b - 1].weight);
                    }
                }
            }
            k = k + 1;
        }
        assert(src@.subrange(0, n as int) =~= src@);
        let min_weight = sorted[0].weight;
        let max_weight = sorted[n - 1].weight;
        Gradient { colors: sorted, min_weight, max_weight }
    }
}

/// The gradient over control points at weights 0, 10 and 100: at 5 it takes
/// the color half way between the first two points, rounded down; below the
/// domain the first color and above it the last.
pub proof fn lemma_three_stop_gradient(a: Rgba, b: Rgba, c: Rgba)
    ensures
        ({
            let s = seq![
                ColorStep { color: a, weight: 0 },
                ColorStep { color: b, weight: 10 },
                ColorStep { color: c, weight: 100 },
            ];
            &&& forall|ch: int|
                0 <= ch < 4 ==> gradient_color(s, 5).0[ch] as int == a.0[ch] + (b.0[ch] - a.0[ch])
                    / 2
            &&& gradient_color(s, -5) == a
            &&& gradient_color(s, 1000) == c
        }),
{
    let s = seq![
        ColorStep { color: a, weight: 0 },
        ColorStep { color: b, weight: 10 },
        ColorStep { color: c, weight: 100 },
    ];
    reveal_with_fuel(window_color, 4);
    assert(gradient_color(s, 5) == lerp_step(s[0], s[1], 5));
    assert forall|ch: int| 0 <= ch < 4 implies gradient_color(s, 5).0[ch] as int == a.0[ch] + (
    b.0[ch] - a.0[ch]) / 2 by {
        let d = b.0[ch] - a.0[ch];
        assert(d * 5 / 10 == d / 2) by {
            lemma_fundamental_div_mod(d, 2);
            lemma_fundamental_div_mod_converse(d * 5, 10, d / 2, (d % 2) * 5);
        }
        assert(0 <= a.0[ch] + d / 2 <= 255) by {
            lemma_fundamental_div_mod(d, 2);
        }
    }
    assert(gradient_color(s, 1000) == c);
}

} // verus!
