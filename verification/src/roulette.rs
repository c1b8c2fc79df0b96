//! The wheel and its outcome sources.

use rand::rngs::ThreadRng;
use rand::seq::SliceRandom;
use vstd::arithmetic::div_mod::lemma_add_mod_noop;
use vstd::arithmetic::div_mod::lemma_small_mod;
use vstd::prelude::*;

use crate::enums::ConfigError;
use crate::enums::RouletteColor;

verus! {

/// The colour at position `i` of a wheel of `size` positions: black and red
/// in turn, and green at the last position of a wheel of odd size.
pub open spec fn wheel_slot(size: nat, i: int) -> RouletteColor {
    if size % 2 == 1 && i == size - 1 {
        RouletteColor::GREEN
    } else if i % 2 == 0 {
        RouletteColor::BLACK
    } else {
        RouletteColor::RED
    }
}

/// The positions of a wheel of `size` positions, in order.
pub open spec fn wheel_layout(size: nat) -> Seq<RouletteColor> {
    Seq::new(size, |i: int| wheel_slot(size, i))
}

/// How often `c` occurs in `s`.
pub open spec fn count_color(s: Seq<RouletteColor>, c: RouletteColor) -> nat
    decreases s.len(),
{
    if s.len() == 0 {
        0
    } else {
        count_color(s.drop_last(), c) + if s.last() == c {
            1nat
        } else {
            0nat
        }
    }
}

/// The error that a wheel of `size` positions, without green if `no_green`,
/// is refused with; `None` where the wheel can be built.
pub open spec fn wheel_config_error(size: nat, no_green: bool) -> Option<ConfigError> {
    if size % 2 == 0 && !no_green {
        Some(ConfigError::GreenNeedsOddSize)
    } else if size % 2 == 1 && no_green {
        Some(ConfigError::NoGreenNeedsEvenSize)
    } else if size == 0 {
        Some(ConfigError::EmptyWheel)
    } else {
        None
    }
}

/// In a sequence that holds black at its even places and red at its odd
/// places, half of the places, rounded up, are black, the rest are red, and
/// none is green.
pub proof fn lemma_count_alternating(s: Seq<RouletteColor>)
    requires
        forall|i: int| 0 <= i < s.len() ==> s[i] == wheel_slot(0, i),
    ensures
        count_color(s, RouletteColor::BLACK) == (s.len() + 1) / 2,
        count_color(s, RouletteColor::RED) == s.len() / 2,
        count_color(s, RouletteColor::GREEN) == 0,
    decreases s.len(),
{
    if s.len() > 0 {
        lemma_count_alternating(s.drop_last());
    }
}

/// A wheel of odd size holds green once, and red and black `(size - 1) / 2`
/// times each.
pub proof fn lemma_wheel_with_green_counts(size: nat)
    requires
        size % 2 == 1,
    ensures
        count_color(wheel_layout(size), RouletteColor::GREEN) == 1,
        count_color(wheel_layout(size), RouletteColor::RED) == (size - 1) / 2,
        count_color(wheel_layout(size), RouletteColor::BLACK) == (size - 1) / 2,
{
    let w = wheel_layout(size);
    assert(w.last() == RouletteColor::GREEN);
    lemma_count_alternating(w.drop_last());
}

/// A wheel of even size holds no green, and red and black `size / 2` times
/// each.
pub proof fn lemma_wheel_without_green_counts(size: nat)
    requires
        size % 2 == 0,
    ensures
        count_color(wheel_layout(size), RouletteColor::GREEN) == 0,
        count_color(wheel_layout(size), RouletteColor::RED) == size / 2,
        count_color(wheel_layout(size), RouletteColor::BLACK) == size / 2,
{
    lemma_count_alternating(wheel_layout(size));
}

/// A wheel is refused exactly where its size is even and green is wanted,
/// odd and green is not wanted, or zero.
pub proof fn lemma_mismatch_is_refused(size: nat, no_green: bool)
    ensures
        (size % 2 == 0) != no_green ==> wheel_config_error(size, no_green) is Some,
        wheel_config_error(size, no_green) is None <==> size > 0 && (size % 2 == 0) == no_green,
{
}

/// Says why a wheel of `size` positions, without green if `no_green`, cannot
/// be built, or that it can.
pub fn check_wheel(size: usize, no_green: bool) -> (r: Option<ConfigError>)
    ensures
        r == wheel_config_error(size as nat, no_green),
{
    let size_is_even = size % 2 == 0;
    if size_is_even && !no_green {
        Some(ConfigError::GreenNeedsOddSize)
    } else if !size_is_even && no_green {
        Some(ConfigError::NoGreenNeedsEvenSize)
    } else if size == 0 {
        Some(ConfigError::EmptyWheel)
    } else {
        None
    }
}

/// A source of outcomes for a wheel.
pub trait RouletteChooser: Sized {
    /// The source is in a state from which it can draw.
    spec fn wf(&self) -> bool;

    /// Whether a draw over `colors` may give `result` and leave the source
    /// as `next`.
    spec fn draws(&self, colors: Seq<RouletteColor>, result: RouletteColor, next: Self) -> bool;

    /// Draws one outcome for a wheel with the positions `colors`.
    fn play(&mut self, colors: &Vec<RouletteColor>) -> (r: RouletteColor)
        requires
            old(self).wf(),
            colors@.len() > 0,
        ensures
            final(self).wf(),
            old(self).draws(colors@, r, *final(self)),
    ;
}

/// Whether a source that starts as `sources[0]` may give the outcomes
/// `outcomes` one after the other over the positions `layout`, passing
/// through the states `sources`.
pub open spec fn draw_chain<T: RouletteChooser>(
    layout: Seq<RouletteColor>,
    sources: Seq<T>,
    outcomes: Seq<RouletteColor>,
) -> bool {
    &&& sources.len() == outcomes.len() + 1
    &&& forall|i: int|
        0 <= i < outcomes.len() ==> (#[trigger] sources[i]).draws(layout, outcomes[i], sources[i + 1])
}

/// A wheel: its positions in order, and the source of its outcomes.
#[derive(Debug, Clone)]
pub struct Roulette<T> {
    colors: Vec<RouletteColor>,
    chooser: T,
}

impl<T> Roulette<T> where T: RouletteChooser {
    /// The positions of the wheel.
    pub closed spec fn layout(&self) -> Seq<RouletteColor> {
        self.colors@
    }

    /// The outcome source of the wheel.
    pub closed spec fn source(&self) -> T {
        self.chooser
    }

    /// The wheel has at least one position, its positions are those of a
    /// wheel of its size, and its source can draw.
    pub open spec fn wf(&self) -> bool {
        &&& self.layout().len() > 0
        &&& self.layout() == wheel_layout(self.layout().len())
        &&& self.source().wf()
    }

    /// Builds the wheel of `size` positions, with the green position unless
    /// `no_green`, over the source `chooser`.
    pub fn new(size: usize, no_green: bool, chooser: T) -> (r: Result<Self, ConfigError>)
        requires
            chooser.wf(),
        ensures
            match r {
                Ok(w) => {
                    &&& wheel_config_error(size as nat, no_green) is None
                    &&& w.layout() == wheel_layout(size as nat)
                    &&& w.source() == chooser
                    &&& w.wf()
                },
                Err(e) => wheel_config_error(size as nat, no_green) == Some(e),
            },
    {
        match check_wheel(size, no_green) {
            Some(e) => {
                return Err(e);
            },
            None => {},
        }
        let pairs: usize = size / 2;
        let mut colors: Vec<RouletteColor> = Vec::new();
        let mut i: usize = 0;
        while i < pairs
            invariant
                i <= pairs,
                pairs == size / 2,
                colors@.len() == 2 * i,
                forall|k: int| 0 <= k < colors@.len() ==> colors@[k] == wheel_slot(size as nat, k),
            decreases pairs - i,
        {
            colors.push(RouletteColor::BLACK);
            colors.push(RouletteColor::RED);
            i += 1;
        }
        if !no_green {
            colors.push(RouletteColor::GREEN);
        }
        assert(colors@ =~= wheel_layout(size as nat));
        Ok(Self { colors, chooser })
    }

    /// Draws one outcome from the wheel's source.
    pub fn play(&mut self) -> (r: RouletteColor)
        requires
            old(self).wf(),
        ensures
            final(self).wf(),
            final(self).layout() == old(self).layout(),
            old(self).source().draws(old(self).layout(), r, final(self).source()),
    {
        self.chooser.play(&self.colors)
    }

    /// The positions of the wheel, in order.
    pub fn colors(&self) -> (r: &Vec<RouletteColor>)
        ensures
            r@ == self.layout(),
    {
        &self.colors
    }
}

/// What `rand`'s `SliceRandom::choose` hands back for a slice and
/// `ThreadRng`: nothing for an empty slice, else one of the slice's elements.
/// Which element is left open.
#[verifier::external_body]
fn choose_color(rng: &mut ThreadRng, colors: &Vec<RouletteColor>) -> (r: Option<RouletteColor>)
    ensures
        colors@.len() == 0 ==> r is None,
        colors@.len() > 0 ==> r is Some && colors@.contains(r->0),
{
    colors.choose(rng).copied()
}

/// `rand`'s `thread_rng`: a handle to the random source of the calling
/// thread. Nothing is claimed of what it will draw.
#[verifier::external_body]
pub(crate) fn thread_source() -> ThreadRng {
    rand::thread_rng()
}

/// `rand`'s `ThreadRng`, carried through as it is: nothing inside it is
/// read here.
#[verifier::external_type_specification]
#[verifier::external_body]
pub struct ExThreadRng(ThreadRng);

/// The random source: each draw is one of the wheel's positions.
impl RouletteChooser for ThreadRng {
    open spec fn wf(&self) -> bool {
        true
    }

    open spec fn draws(&self, colors: Seq<RouletteColor>, result: RouletteColor, next: Self) -> bool {
        colors.contains(result)
    }

    fn play(&mut self, colors: &Vec<RouletteColor>) -> (r: RouletteColor) {
        match choose_color(self, colors) {
            Some(c) => c,
            None => colors[0],
        }
    }
}

/// A source that repeats a fixed sequence of outcomes, whatever the wheel
/// holds.
pub struct BiasedRouletteChoser {
    sequence: Vec<RouletteColor>,
    last_index: usize,
}

impl BiasedRouletteChoser {
    /// The sequence that the source repeats.
    pub closed spec fn outcomes(&self) -> Seq<RouletteColor> {
        self.sequence@
    }

    /// The place in the sequence of the next outcome.
    pub closed spec fn position(&self) -> nat {
        self.last_index as nat
    }

    /// A source at the start of `sequence`; an empty sequence is refused.
    pub fn new(sequence: Vec<RouletteColor>) -> (r: Result<Self, ConfigError>)
        ensures
            match r {
                Ok(c) => sequence@.len() > 0 && c.outcomes() == sequence@ && c.position() == 0
                    && c.wf(),
                Err(e) => sequence@.len() == 0 && e == ConfigError::EmptySequence,
            },
    {
        if sequence.len() == 0 {
            return Err(ConfigError::EmptySequence);
        }
        Ok(Self { sequence, last_index: 0 })
    }
}

impl RouletteChooser for BiasedRouletteChoser {
    open spec fn wf(&self) -> bool {
        self.position() < self.outcomes().len()
    }

    open spec fn draws(&self, colors: Seq<RouletteColor>, result: RouletteColor, next: Self) -> bool {
        &&& result == self.outcomes()[self.position() as int]
        &&& next.outcomes() == self.outcomes()
        &&& next.position() == (self.position() + 1) % self.outcomes().len()
    }

    fn play(&mut self, colors: &Vec<RouletteColor>) -> (r: RouletteColor) {
        let len: usize = self.sequence.len();
        let r = self.sequence[self.last_index];
        self.last_index = (self.last_index + 1) % len;
        r
    }
}

/// Every outcome of the random source is a position of the wheel.
pub proof fn lemma_random_draws_are_positions(
    layout: Seq<RouletteColor>,
    sources: Seq<ThreadRng>,
    outcomes: Seq<RouletteColor>,
)
    requires
        draw_chain(layout, sources, outcomes),
    ensures
        forall|i: int| 0 <= i < outcomes.len() ==> layout.contains(#[trigger] outcomes[i]),
{
    assert forall|i: int| 0 <= i < outcomes.len() implies layout.contains(
        #[trigger] outcomes[i],
    ) by {
        assert(sources[i].draws(layout, outcomes[i], sources[i + 1]));
    }
}

/// The fixed source keeps its sequence, and after `i` draws it stands `i`
/// places further on, counted round the sequence.
pub proof fn lemma_fixed_source_advances(
    layout: Seq<RouletteColor>,
    sources: Seq<BiasedRouletteChoser>,
    outcomes: Seq<RouletteColor>,
    i: int,
)
    requires
        sources[0].wf(),
        draw_chain(layout, sources, outcomes),
        0 <= i <= outcomes.len(),
    ensures
        sources[i].outcomes() == sources[0].outcomes(),
        sources[i].position() == (sources[0].position() + i) % (sources[0].outcomes().len() as int),
    decreases i,
{
    let len = sources[0].outcomes().len() as int;
    if i == 0 {
        lemma_small_mod(sources[0].position(), len as nat);
    } else {
        lemma_fixed_source_advances(layout, sources, outcomes, i - 1);
        assert(sources[i - 1].draws(layout, outcomes[i - 1], sources[i]));
        lemma_add_mod_noop(sources[0].position() + i - 1, 1, len);
        if len > 1 {
            lemma_small_mod(1, len as nat);
        }
    }
}

/// The fixed source gives its sequence in order and starts again after the
/// last element: the draw number `i` is the element `i` places after the
/// place where the source started, counted round the sequence.
pub proof fn lemma_fixed_source_cycles(
    layout: Seq<RouletteColor>,
    sources: Seq<BiasedRouletteChoser>,
    outcomes: Seq<RouletteColor>,
    i: int,
)
    requires
        sources[0].wf(),
        draw_chain(layout, sources, outcomes),
        0 <= i < outcomes.len(),
    ensures
        outcomes[i] == sources[0].outcomes()[(sources[0].position() + i) % (
        sources[0].outcomes().len() as int)],
{
    lemma_fixed_source_advances(layout, sources, outcomes, i);
    assert(sources[i].draws(layout, outcomes[i], sources[i + 1]));
}

} // verus!
