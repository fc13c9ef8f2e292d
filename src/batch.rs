use vstd::prelude::*;
use vstd::arithmetic::div_mod::{lemma_fundamental_div_mod, lemma_fundamental_div_mod_converse};
use crate::action::Action;

verus! {

/// How the actions are split into frames.
#[derive(Debug, Clone, Copy, PartialEq, Eq, Structural)]
pub enum Step {
    /// One frame for each window of this many milliseconds that holds actions.
    Time(i64),
    /// One frame for each run of this many actions.
    Pixels(i64),
}

impl Step {
    pub open spec fn size(&self) -> int {
        match self {
            Step::Time(s) => *s as int,
            Step::Pixels(s) => *s as int,
        }
    }

    /// A step that splits anything: its size is positive.
    pub open spec fn wf(&self) -> bool {
        self.size() > 0
    }

    /// The step's size, in milliseconds or in actions.
    pub fn get(&self) -> (r: i64)
        ensures
            r == self.size(),
    {
        match self {
            Step::Time(s) => *s,
            Step::Pixels(s) => *s,
        }
    }

    /// Fifteen minutes.
    pub fn default_step() -> (r: Step)
        ensures
            r == Step::Time(900000),
    {
        Step::Time(900000)
    }
}

/// The time window of a timestamp: `floor(t / step)`.
pub open spec fn time_key(t: int, step: int) -> int {
    t / step
}

/// The window of each action's timestamp.
pub open spec fn time_keys(acts: Seq<Action>, step: int) -> Seq<int> {
    acts.map_values(|a: Action| time_key(a.time as int, step))
}

/// The end of each run of equal neighbouring keys: a run goes on while the
/// key stays the same, and the last run ends at the length.
pub open spec fn run_ends(keys: Seq<int>) -> Seq<int>
    decreases keys.len(),
{
    if keys.len() == 0 {
        Seq::empty()
    } else {
        let prev = run_ends(keys.drop_last());
        if keys.len() >= 2 && keys.last() == keys[keys.len() - 2] {
            prev.update(prev.len() - 1, keys.len() as int)
        } else {
            prev.push(keys.len() as int)
        }
    }
}

/// The ends of runs of `step` items over `n` items; the last run may be short.
pub open spec fn chunk_ends(n: int, step: int) -> Seq<int> {
    Seq::new(
        ((n + step - 1) / step) as nat,
        |j: int|
            if (j + 1) * step < n {
                (j + 1) * step
            } else {
                n
            },
    )
}

/// Frame ends that split `n` actions into non-empty slices, in order: they
/// rise strictly, each is at most `n`, and the last is `n`.
pub open spec fn splits(ends: Seq<usize>, n: int) -> bool {
    &&& forall|i: int, j: int| 0 <= i < j < ends.len() ==> ends[i] < ends[j]
    &&& forall|i: int| 0 <= i < ends.len() ==> 0 < #[trigger] ends[i] <= n
    &&& ends.len() > 0 ==> ends.last() == n
    &&& n > 0 ==> ends.len() > 0
}

/// `floor(t / step)` for a positive step.
pub fn floor_div(t: i64, step: i64) -> (r: i64)
    requires
        step > 0,
    ensures
        r == time_key(t as int, step as int),
{
    if t >= 0 {
        ((t as u64) / (step as u64)) as i64
    } else {
        let a = (-(t as i128) - 1) as u64;
        let q = a / (step as u64);
        proof {
            lemma_fundamental_div_mod(a as int, step as int);
            let r = a as int % step as int;
            assert(t == (-(q as int) - 1) * step + (step - r - 1)) by (nonlinear_arith)
                requires
                    a == step * q + r,
                    t == -a - 1,
            ;
            lemma_fundamental_div_mod_converse(t as int, step as int, -(q as int) - 1, step - r - 1);
            assert(q <= a);
        }
        -(q as i64) - 1
    }
}

/// Where each frame's actions end when grouped by time window: a frame for
/// each run of actions whose timestamps fall in the same window of `step`
/// milliseconds. A window that no action falls in gets no frame.
pub fn time_batches(actions: &[Action], step: i64) -> (ends: Vec<usize>)
    requires
        step > 0,
    ensures
        ends@.map_values(|e: usize| e as int) == run_ends(time_keys(actions@, step as int)),
        splits(ends@, actions@.len() as int),
{
    let ghost keys = time_keys(actions@, step as int);
    let mut ends: Vec<usize> = Vec::new();
    let mut prev: i64 = 0;
    let mut k: usize = 0;
    while k < actions.len()
        invariant
            step > 0,
            keys == time_keys(actions@, step as int),
            0 <= k <= actions@.len(),
            ends@.map_values(|e: usize| e as int) == run_ends(keys.subrange(0, k as int)),
            k > 0 ==> ends@.len() > 0 && prev == keys[k - 1],
            splits(ends@, k as int),
        decreases actions@.len() - k,
    {
        let key = floor_div(actions[k].time, step);
        let ghost sub = keys.subrange(0, k + 1);
        proof {
            assert(sub.drop_last() =~= keys.subrange(0, k as int));
        }
        if k > 0 && key == prev {
            let last = ends.len() - 1;
            ends.set(last, k + 1);
            assert(ends@.map_values(|e: usize| e as int) =~= run_ends(sub));
        } else {
            ends.push(k + 1);
            assert(ends@.map_values(|e: usize| e as int) =~= run_ends(sub));
        }
        prev = key;
        k = k + 1;
    }
    assert(keys.subrange(0, actions@.len() as int) =~= keys);
    ends
}

/// Where each frame's actions end when grouped by count: runs of `step`
/// actions, the last one possibly shorter.
pub fn count_batches(n: usize, step: usize) -> (ends: Vec<usize>)
    requires
        step > 0,
    ensures
        ends@.map_values(|e: usize| e as int) == chunk_ends(n as int, step as int),
        splits(ends@, n as int),
{
    let mut ends: Vec<usize> = Vec::new();
    let mut e: usize = 0;
    let mut j: usize = 0;
    while e < n
        invariant
            step > 0,
            0 <= e <= n,
            ends@.len() == j,
            j <= n,
            e == (if j * step < n { j * step } else { n as int }),
            j > 0 ==> (j - 1) * step < n,
            forall|i: int|
                0 <= i < j ==> ends@[i] == (if (i + 1) * step < n { (i + 1) * step } else { n as int }),
            splits(ends@, e as int),
        decreases n - e,
    {
        proof {
            assert(j * step < n);
            assert((j + 1) * step == j * step + step) by (nonlinear_arith);
            assert(j <= j * step) by (nonlinear_arith)
                requires
                    step >= 1,
                    j >= 0,
            ;
        }
        e = if n - e > step {
            e + step
        } else {
            n
        };
        ends.push(e);
        j = j + 1;
    }
    proof {
        let s = step as int;
        if j > 0 {
            assert(j * s >= n);
            assert(n + s - 1 == j * s + (n - (j - 1) * s - 1)) by (nonlinear_arith);
            assert((j - 1) * s == j * s - s) by (nonlinear_arith);
            lemma_fundamental_div_mod_converse(n + s - 1, s, j as int, n - (j - 1) * s - 1);
        } else {
            assert(n == 0);
            lemma_fundamental_div_mod_converse(n + s - 1, s, 0, s - 1);
        }
    }
    assert(ends@.map_values(|e: usize| e as int) =~= chunk_ends(n as int, step as int));
    ends
}

/// Where each frame's actions end, by the step's policy.
pub fn batch_ends(actions: &[Action], step: Step) -> (ends: Vec<usize>)
    requires
        step.wf(),
    ensures
        ends@.map_values(|e: usize| e as int) == (match step {
            Step::Time(s) => run_ends(time_keys(actions@, s as int)),
            Step::Pixels(s) => chunk_ends(actions@.len() as int, s as int),
        }),
        splits(ends@, actions@.len() as int),
{
    match step {
        Step::Time(s) => time_batches(actions, s),
        Step::Pixels(s) => {
            let size: usize = if s as u64 > usize::MAX as u64 {
                usize::MAX
            } else {
                s as usize
            };
            let ends = count_batches(actions.len(), size);
            proof {
                if s as u64 > usize::MAX as u64 {
                    let n = actions@.len() as int;
                    assert(chunk_ends(n, size as int) =~= chunk_ends(n, s as int)) by {
                        if n > 0 {
                            lemma_fundamental_div_mod_converse(n + size - 1, size as int, 1, n - 1);
                            lemma_fundamental_div_mod_converse(n + s - 1, s as int, 1, n - 1);
                        } else {
                            lemma_fundamental_div_mod_converse(n + size - 1, size as int, 0, size - 1);
                            lemma_fundamental_div_mod_converse(n + s - 1, s as int, 0, s - 1);
                        }
                    }
                }
            }
            ends
        },
    }
}

} // verus!
