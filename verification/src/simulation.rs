//! One player's run: the rounds in order, the colour of each round, and the
//! rounds at which the progress is observed.

use rand::rngs::ThreadRng;
use vstd::prelude::*;

use crate::enums::RouletteColor;
use crate::player::after_bet;
use crate::player::balance;
use crate::player::bet_fits;
use crate::player::fresh_stats;
use crate::player::stake_for;
use crate::player::RoulettePlayer;
use crate::player::RoulettePlayerStats;
use crate::player::StatsView;
use crate::enums::ConfigError;
use crate::roulette::draw_chain;
use crate::roulette::lemma_random_draws_are_positions;
use crate::roulette::thread_source;
use crate::roulette::wheel_config_error;
use crate::roulette::wheel_layout;
use crate::roulette::Roulette;
use crate::roulette::RouletteChooser;

verus! {

/// The colour that is bet on in a round: red in the even rounds, black in
/// the odd ones.
pub open spec fn round_color(round: nat) -> RouletteColor {
    if round % 2 == 0 {
        RouletteColor::RED
    } else {
        RouletteColor::BLACK
    }
}

/// The distance between two observed rounds: a hundredth of the rounds, and
/// at least one.
pub open spec fn progress_interval(total_rounds: nat) -> nat {
    if total_rounds / 100 >= 1 {
        total_rounds / 100
    } else {
        1
    }
}

/// Whether the progress is observed after the round `round` of
/// `total_rounds`: at every multiple of the interval, and at the last round.
pub open spec fn progress_due(round: nat, total_rounds: nat) -> bool {
    round % progress_interval(total_rounds) == 0 || round + 1 == total_rounds
}

/// The statistics after the rounds whose outcomes are `outcomes`, each round
/// bet on its colour with the stake that the statistics before it ask for.
pub open spec fn after_rounds(s: StatsView, outcomes: Seq<RouletteColor>) -> StatsView
    decreases outcomes.len(),
{
    if outcomes.len() == 0 {
        s
    } else {
        let before = after_rounds(s, outcomes.drop_last());
        after_bet(
            before,
            stake_for(before, None),
            outcomes.last() == round_color((outcomes.len() - 1) as nat),
        )
    }
}

/// What is observed of a player after a round.
#[derive(Debug, Clone, Copy, PartialEq, Eq, Structural)]
pub struct ProgressObservation {
    /// The round after which the observation was made, counted from zero.
    pub round: usize,
    pub win_amount: i128,
    pub lost_amount: i128,
    pub balance: i128,
}

/// The observation after the round `round`, at the statistics `s`.
pub open spec fn observation_at(round: nat, s: StatsView) -> ProgressObservation {
    ProgressObservation {
        round: round as usize,
        win_amount: s.win_amount as i128,
        lost_amount: s.lost_amount as i128,
        balance: balance(s) as i128,
    }
}

/// The observations of a run of `total_rounds` rounds, as far as it has the
/// outcomes `outcomes`.
pub open spec fn observations_of(
    s: StatsView,
    outcomes: Seq<RouletteColor>,
    total_rounds: nat,
) -> Seq<ProgressObservation>
    decreases outcomes.len(),
{
    if outcomes.len() == 0 {
        Seq::empty()
    } else {
        let earlier = observations_of(s, outcomes.drop_last(), total_rounds);
        let round = (outcomes.len() - 1) as nat;
        if progress_due(round, total_rounds) {
            earlier.push(observation_at(round, after_rounds(s, outcomes)))
        } else {
            earlier
        }
    }
}

/// Whether a run of `total_rounds` rounds that starts at the statistics `s`
/// and at the wheel `wheel`, and ends after `played` rounds at `end` and
/// `end_wheel` with the observations `observations`, went through the
/// outcomes `outcomes` and the states `sources` of the wheel's source.
pub open spec fn is_run<T: RouletteChooser>(
    s: StatsView,
    wheel: Roulette<T>,
    total_rounds: nat,
    played: nat,
    end: StatsView,
    end_wheel: Roulette<T>,
    observations: Seq<ProgressObservation>,
    outcomes: Seq<RouletteColor>,
    sources: Seq<T>,
) -> bool {
    &&& outcomes.len() == played
    &&& draw_chain(wheel.layout(), sources, outcomes)
    &&& sources[0] == wheel.source()
    &&& sources[played as int] == end_wheel.source()
    &&& end_wheel.layout() == wheel.layout()
    &&& end == after_rounds(s, outcomes)
    &&& observations == observations_of(s, outcomes, total_rounds)
}

/// The colour that is bet on in the round `round`.
pub fn bet_color(round: usize) -> (r: RouletteColor)
    ensures
        r == round_color(round as nat),
{
    if round % 2 == 0 {
        RouletteColor::RED
    } else {
        RouletteColor::BLACK
    }
}

/// Whether the progress is observed after the round `round` of
/// `total_rounds`.
pub fn is_progress_round(round: usize, total_rounds: usize) -> (r: bool)
    ensures
        r == progress_due(round as nat, total_rounds as nat),
{
    let hundredth: usize = total_rounds / 100;
    let interval: usize = if hundredth >= 1 {
        hundredth
    } else {
        1
    };
    round % interval == 0 || (round < total_rounds && round == total_rounds - 1)
}

/// What a run of rounds gives.
#[derive(Debug)]
pub struct PlayedRounds {
    /// How many rounds were played.
    pub played: usize,
    /// The observations made on the way, in order.
    pub observations: Vec<ProgressObservation>,
}

/// Plays `rounds` rounds in order, each on the colour of its round and with
/// the stake that the losing streak asks for, and observes the progress at
/// the rounds where it is due. The run ends early only before a bet that
/// does not fit the machine.
pub fn play_rounds<T: RouletteChooser>(player: &mut RoulettePlayer<'_, T>, rounds: usize) -> (r:
    PlayedRounds)
    requires
        old(player).wf(),
    ensures
        final(player).wf(),
        *final(final(player).roulette) == *final(old(player).roulette),
        r.played <= rounds,
        r.played < rounds ==> !bet_fits(final(player).stats()@, None),
        exists|outcomes: Seq<RouletteColor>, sources: Seq<T>|
            #[trigger] is_run(
                old(player).stats()@,
                old(player).wheel(),
                rounds as nat,
                r.played as nat,
                final(player).stats()@,
                final(player).wheel(),
                r.observations@,
                outcomes,
                sources,
            ),
{
    let mut observations: Vec<ProgressObservation> = Vec::new();
    let mut round: usize = 0;
    let ghost start = old(player).stats()@;
    let ghost wheel = old(player).wheel();
    let ghost mut outcomes: Seq<RouletteColor> = Seq::empty();
    let ghost mut sources: Seq<T> = seq![old(player).wheel().source()];
    while round < rounds
        invariant
            round <= rounds,
            start == old(player).stats()@,
            wheel == old(player).wheel(),
            player.wf(),
            *final(player.roulette) == *final(old(player).roulette),
            is_run(
                start,
                wheel,
                rounds as nat,
                round as nat,
                player.stats()@,
                player.wheel(),
                observations@,
                outcomes,
                sources,
            ),
        decreases rounds - round,
    {
        match player.try_bet(bet_color(round), None) {
            None => {
                let run = PlayedRounds { played: round, observations };
                assert(is_run(
                    old(player).stats()@,
                    old(player).wheel(),
                    rounds as nat,
                    run.played as nat,
                    player.stats()@,
                    player.wheel(),
                    run.observations@,
                    outcomes,
                    sources,
                ));
                return run;
            },
            Some(outcome) => {
                proof {
                    let next_outcomes = outcomes.push(outcome.result);
                    let next_sources = sources.push(player.wheel().source());
                    assert(next_outcomes.drop_last() =~= outcomes);
                    assert forall|i: int| 0 <= i < next_outcomes.len() implies (
                    #[trigger] next_sources[i]).draws(
                        wheel.layout(),
                        next_outcomes[i],
                        next_sources[i + 1],
                    ) by {
                        if i < outcomes.len() {
                            assert(sources[i].draws(wheel.layout(), outcomes[i], sources[i + 1]));
                        }
                    }
                    outcomes = next_outcomes;
                    sources = next_sources;
                }
                if is_progress_round(round, rounds) {
                    observations.push(
                        ProgressObservation {
                            round,
                            win_amount: player.stats.win_amount,
                            lost_amount: player.stats.lost_amount,
                            balance: player.stats.get_balance(),
                        },
                    );
                }
                round += 1;
            },
        }
    }
    let run = PlayedRounds { played: round, observations };
    assert(is_run(
        old(player).stats()@,
        old(player).wheel(),
        rounds as nat,
        run.played as nat,
        player.stats()@,
        player.wheel(),
        run.observations@,
        outcomes,
        sources,
    ));
    run
}

/// What one player's whole run gives.
#[derive(Debug)]
pub struct PlayerRun {
    /// The statistics at the end of the run.
    pub stats: RoulettePlayerStats,
    /// How many rounds were played.
    pub played: usize,
    /// The observations made on the way, in order.
    pub observations: Vec<ProgressObservation>,
}

/// Sets a new player of the given name at the wheel and plays `rounds`
/// rounds with it; see [`play_rounds`].
pub fn simulate_player<T: RouletteChooser>(
    name: String,
    roulette: &mut Roulette<T>,
    max_loss_streak: usize,
    minimum_bet: u64,
    rounds: usize,
) -> (r: PlayerRun)
    requires
        old(roulette).wf(),
    ensures
        final(roulette).wf(),
        r.stats.wf(),
        r.played <= rounds,
        r.played < rounds ==> !bet_fits(r.stats@, None),
        exists|outcomes: Seq<RouletteColor>, sources: Seq<T>|
            #[trigger] is_run(
                fresh_stats(name@, max_loss_streak as nat, minimum_bet as nat),
                *old(roulette),
                rounds as nat,
                r.played as nat,
                r.stats@,
                *final(roulette),
                r.observations@,
                outcomes,
                sources,
            ),
{
    let mut player = RoulettePlayer::new(name, roulette, max_loss_streak, minimum_bet);
    let ghost start = player.stats()@;
    let ghost wheel = player.wheel();
    let run = play_rounds(&mut player, rounds);
    let ghost end_wheel = player.wheel();
    let ghost (outcomes, sources) = choose|outcomes: Seq<RouletteColor>, sources: Seq<T>|
        #[trigger] is_run(
            start,
            wheel,
            rounds as nat,
            run.played as nat,
            player.stats()@,
            end_wheel,
            run.observations@,
            outcomes,
            sources,
        );
    let stats = player.into_stats();
    let whole = PlayerRun { stats, played: run.played, observations: run.observations };
    assert(is_run(
        start,
        wheel,
        rounds as nat,
        whole.played as nat,
        whole.stats@,
        end_wheel,
        whole.observations@,
        outcomes,
        sources,
    ));
    whole
}

/// Whether a run of `total_rounds` rounds at a wheel with the positions
/// `layout`, which starts at the statistics `s` and ends after `played`
/// rounds at `end` with the observations `observations`, went through the
/// outcomes `outcomes`, each of them a position of the wheel.
pub open spec fn is_random_run(
    s: StatsView,
    layout: Seq<RouletteColor>,
    total_rounds: nat,
    played: nat,
    end: StatsView,
    observations: Seq<ProgressObservation>,
    outcomes: Seq<RouletteColor>,
) -> bool {
    &&& outcomes.len() == played
    &&& forall|i: int| 0 <= i < outcomes.len() ==> layout.contains(#[trigger] outcomes[i])
    &&& end == after_rounds(s, outcomes)
    &&& observations == observations_of(s, outcomes, total_rounds)
}

/// Builds a wheel of `table_size` positions with a random source of its
/// own, sets a new player at it and plays `rounds` rounds; a wheel that
/// cannot be built is refused before anything is played.
pub fn simulate_random_player(
    name: String,
    table_size: usize,
    no_green: bool,
    max_loss_streak: usize,
    minimum_bet: u64,
    rounds: usize,
) -> (r: Result<PlayerRun, ConfigError>)
    ensures
        match r {
            Err(e) => wheel_config_error(table_size as nat, no_green) == Some(e),
            Ok(run) => {
                &&& wheel_config_error(table_size as nat, no_green) is None
                &&& run.stats.wf()
                &&& run.played <= rounds
                &&& run.played < rounds ==> !bet_fits(run.stats@, None)
                &&& exists|outcomes: Seq<RouletteColor>| #[trigger]
                    is_random_run(
                        fresh_stats(name@, max_loss_streak as nat, minimum_bet as nat),
                        wheel_layout(table_size as nat),
                        rounds as nat,
                        run.played as nat,
                        run.stats@,
                        run.observations@,
                        outcomes,
                    )
            },
        },
{
    let mut roulette = match Roulette::new(table_size, no_green, thread_source()) {
        Ok(w) => w,
        Err(e) => {
            return Err(e);
        },
    };
    let ghost wheel = roulette;
    let ghost start = fresh_stats(name@, max_loss_streak as nat, minimum_bet as nat);
    let run = simulate_player(name, &mut roulette, max_loss_streak, minimum_bet, rounds);
    proof {
        let (outcomes, sources) = choose|outcomes: Seq<RouletteColor>, sources: Seq<ThreadRng>| #[trigger]
            is_run(
                start,
                wheel,
                rounds as nat,
                run.played as nat,
                run.stats@,
                roulette,
                run.observations@,
                outcomes,
                sources,
            );
        lemma_random_draws_are_positions(wheel.layout(), sources, outcomes);
        assert(is_random_run(
            start,
            wheel_layout(table_size as nat),
            rounds as nat,
            run.played as nat,
            run.stats@,
            run.observations@,
            outcomes,
        ));
    }
    Ok(run)
}

} // verus!
