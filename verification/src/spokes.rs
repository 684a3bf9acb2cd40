//! The spoke table: one brightness and one colour for each spoke of the nova.
//!
//! The table is generic in what a brightness and a colour are. It is filled by
//! a walk: a step function is applied over and over, each time to the state
//! that the step before left behind, and each step yields the next spoke. So a
//! spoke may depend on all the spokes before it, and the order of the spokes is
//! part of the result. Once built, the table is read around the circle: the
//! spoke after the last one is the first.

use crate::error::NovaError;
use vstd::prelude::*;

verus! {

/// A table of at least one spoke, held as two parallel sequences.
pub struct SpokeTable<B, C> {
    brightness: Vec<B>,
    color: Vec<C>,
}

/// `spokes` is what a walk of `step` from `start` yields, and `states` are the
/// states that it passes through: the first is `start`, and each step takes one
/// state to the next and gives one spoke.
pub open spec fn is_walk<S, B, C, F: Fn(S) -> (S, B, C)>(
    step: F,
    start: S,
    states: Seq<S>,
    spokes: Seq<(B, C)>,
) -> bool {
    &&& states.len() == spokes.len() + 1
    &&& states[0] == start
    &&& forall|i: int|
        0 <= i < spokes.len() ==> call_ensures(
            step,
            (states[i],),
            (states[i + 1], (#[trigger] spokes[i]).0, spokes[i].1),
        )
}

impl<B, C> View for SpokeTable<B, C> {
    type V = Seq<(B, C)>;

    /// The spokes in order, each as its brightness and its colour.
    closed spec fn view(&self) -> Seq<(B, C)> {
        Seq::new(self.brightness@.len(), |i: int| (self.brightness@[i], self.color@[i]))
    }
}

impl<B, C> SpokeTable<B, C> {
    #[verifier::type_invariant]
    spec fn parallel(self) -> bool {
        &&& self.brightness@.len() == self.color@.len()
        &&& self.brightness@.len() > 0
    }

    /// The index of the spoke that `i` stands for, counted around the circle.
    pub open spec fn wrap(self, i: int) -> int {
        i % (self@.len() as int)
    }

    /// Builds the table of `n_spokes` spokes by walking `step` from `start`.
    ///
    /// A table without spokes is refused. Otherwise the table holds exactly
    /// `n_spokes` spokes, and they are the ones that `step` gave, in the order
    /// in which it gave them, when it was applied first to `start` and then
    /// each time to the state it had returned the time before.
    pub fn generate<S, F>(n_spokes: usize, start: S, step: F) -> (r: Result<Self, NovaError>)
        where F: Fn(S) -> (S, B, C)
        requires
            call_requires(step, (start,)),
            forall|s: S, out: (S, B, C)| #[trigger]
                call_ensures(step, (s,), out) ==> call_requires(step, (out.0,)),
        ensures
            n_spokes == 0 <==> r == Err::<Self, NovaError>(NovaError::NoSpokes),
            n_spokes > 0 <==> r is Ok,
            r is Ok ==> r->Ok_0@.len() == n_spokes,
            r is Ok ==> exists|states: Seq<S>| #[trigger] is_walk(step, start, states, r->Ok_0@),
    {
        if n_spokes == 0 {
            return Err(NovaError::NoSpokes);
        }
        let mut brightness: Vec<B> = Vec::new();
        let mut color: Vec<C> = Vec::new();
        let mut state = start;
        let ghost mut states: Seq<S> = seq![start];
        let mut i: usize = 0;
        while i < n_spokes
            invariant
                i <= n_spokes,
                brightness@.len() == i,
                color@.len() == i,
                states.len() == i + 1,
                states[0] == start,
                states[i as int] == state,
                call_requires(step, (state,)),
                forall|s: S, out: (S, B, C)| #[trigger]
                    call_ensures(step, (s,), out) ==> call_requires(step, (out.0,)),
                forall|k: int|
                    0 <= k < i ==> call_ensures(
                        step,
                        (states[k],),
                        (states[k + 1], #[trigger] brightness@[k], color@[k]),
                    ),
            decreases n_spokes - i,
        {
            let (next, b, c) = step(state);
            proof {
                states = states.push(next);
            }
            brightness.push(b);
            color.push(c);
            state = next;
            i += 1;
        }
        let table = SpokeTable { brightness, color };
        proof {
            // The table holds the spokes in the order of the walk.
            assert forall|k: int| 0 <= k < table@.len() implies call_ensures(
                step,
                (states[k],),
                (states[k + 1], (#[trigger] table@[k]).0, table@[k].1),
            ) by {
                assert(table@[k] == (table.brightness@[k], table.color@[k]));
            }
        }
        let r = Ok(table);
        assert(is_walk(step, start, states, r->Ok_0@));
        r
    }

    /// The number of spokes, which is never zero.
    pub fn len(&self) -> (n: usize)
        ensures
            n == self@.len(),
            n > 0,
    {
        proof {
            use_type_invariant(self);
        }
        self.brightness.len()
    }

    /// The brightness of every spoke, in order.
    pub fn brightness(&self) -> (values: &[B])
        ensures
            values@.len() == self@.len(),
            forall|i: int| 0 <= i < values@.len() ==> values@[i] == (#[trigger] self@[i]).0,
    {
        proof {
            use_type_invariant(self);
        }
        self.brightness.as_slice()
    }

    /// The colour of every spoke, in order.
    pub fn colors(&self) -> (values: &[C])
        ensures
            values@.len() == self@.len(),
            forall|i: int| 0 <= i < values@.len() ==> values@[i] == (#[trigger] self@[i]).1,
    {
        proof {
            use_type_invariant(self);
        }
        self.color.as_slice()
    }

    /// The brightness and the colour of spoke `i`, counted around the circle.
    pub fn spoke(&self, i: usize) -> (r: (&B, &C))
        ensures
            self@.len() > 0,
            (*r.0, *r.1) == self@[self.wrap(i as int)],
    {
        proof {
            use_type_invariant(self);
        }
        let k: usize = i % self.brightness.len();
        (&self.brightness[k], &self.color[k])
    }

    /// The index of the spoke that follows spoke `i` around the circle.
    pub fn successor(&self, i: usize) -> (j: usize)
        ensures
            self@.len() > 0,
            j == self.wrap(i + 1),
            j < self@.len(),
    {
        proof {
            use_type_invariant(self);
        }
        let n: usize = self.brightness.len();
        let k: usize = i % n;
        proof {
            lemma_successor_wraps(i as int, n as int);
        }
        if k + 1 == n {
            0
        } else {
            k + 1
        }
    }

    /// The two spokes between which position `i` lies: spoke `i` and the one
    /// that follows it, both counted around the circle.
    pub fn span(&self, i: usize) -> (r: ((&B, &C), (&B, &C)))
        ensures
            self@.len() > 0,
            (*r.0.0, *r.0.1) == self@[self.wrap(i as int)],
            (*r.1.0, *r.1.1) == self@[self.wrap(i + 1)],
    {
        let j = self.successor(i);
        proof {
            vstd::arithmetic::div_mod::lemma_small_mod(j as nat, self@.len());
        }
        (self.spoke(i), self.spoke(j))
    }
}

/// Going one step on from `i` around a circle of `n` places: the place after
/// the one that `i` stands for, and the first place after the last.
proof fn lemma_successor_wraps(i: int, n: int)
    requires
        0 <= i,
        0 < n,
    ensures
        (i + 1) % n == if i % n + 1 == n {
            0
        } else {
            i % n + 1
        },
{
    let k = i % n;
    vstd::arithmetic::div_mod::lemma_fundamental_div_mod(i, n);
    if k + 1 == n {
        assert(i + 1 == n * (i / n + 1)) by (nonlinear_arith)
            requires
                i == n * (i / n) + k,
                k + 1 == n,
        ;
        vstd::arithmetic::div_mod::lemma_mod_multiples_basic(i / n + 1, n);
        assert(n * (i / n + 1) == (i / n + 1) * n) by (nonlinear_arith);
    } else {
        assert(i + 1 == (i / n) * n + (k + 1)) by (nonlinear_arith)
            requires
                i == n * (i / n) + k,
        ;
        vstd::arithmetic::div_mod::lemma_fundamental_div_mod_converse(i + 1, n, i / n, k + 1);
    }
}

/// A walk whose steps do not move the hue gives every spoke one and the same
/// colour, that of the hue at the start. Here `hue` says what the hue of a
/// state is, and `tint` what colour a step gives at a hue.
pub proof fn lemma_steady_walk<S, B, C, H, F: Fn(S) -> (S, B, C)>(
    step: F,
    start: S,
    states: Seq<S>,
    spokes: Seq<(B, C)>,
    hue: spec_fn(S) -> H,
    tint: spec_fn(H) -> C,
)
    requires
        is_walk(step, start, states, spokes),
        forall|s: S, out: (S, B, C)| #[trigger]
            call_ensures(step, (s,), out) ==> hue(out.0) == hue(s) && out.2 == tint(hue(s)),
    ensures
        forall|i: int| 0 <= i < spokes.len() ==> (#[trigger] spokes[i]).1 == tint(hue(start)),
{
    assert forall|i: int| 0 <= i < spokes.len() implies (#[trigger] spokes[i]).1 == tint(
        hue(start),
    ) by {
        lemma_steady_states(step, start, states, spokes, hue, tint, i);
    }
}

/// In a walk whose steps do not move the hue, every state has the hue of the
/// start.
proof fn lemma_steady_states<S, B, C, H, F: Fn(S) -> (S, B, C)>(
    step: F,
    start: S,
    states: Seq<S>,
    spokes: Seq<(B, C)>,
    hue: spec_fn(S) -> H,
    tint: spec_fn(H) -> C,
    i: int,
)
    requires
        is_walk(step, start, states, spokes),
        forall|s: S, out: (S, B, C)| #[trigger]
            call_ensures(step, (s,), out) ==> hue(out.0) == hue(s) && out.2 == tint(hue(s)),
        0 <= i < spokes.len(),
    ensures
        hue(states[i]) == hue(start),
        hue(states[i + 1]) == hue(start),
        spokes[i].1 == tint(hue(start)),
    decreases i,
{
    if i > 0 {
        lemma_steady_states(step, start, states, spokes, hue, tint, i - 1);
    }
    assert(call_ensures(step, (states[i],), (states[i + 1], spokes[i].0, spokes[i].1)));
}

} // verus!
