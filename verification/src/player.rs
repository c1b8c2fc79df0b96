//! The player: the stake that follows from the losing streak, and the
//! statistics that each bet updates.

use vstd::arithmetic::power::lemma_pow0;
use vstd::arithmetic::power::lemma_pow_increases;
use vstd::arithmetic::power::lemma_pow_positive;
use vstd::arithmetic::power::pow;
use vstd::prelude::*;

use crate::enums::RouletteColor;
use crate::roulette::Roulette;
use crate::roulette::RouletteChooser;

verus! {

/// What a player is set up with.
#[derive(Debug, Clone, Copy)]
pub struct RoulettePlayerConfig {
    /// The losing streak at which the streak starts again from zero.
    pub max_loss_streak: usize,
    /// The stake of a player who is not on a losing streak.
    pub minimum_bet: u64,
}

/// The running statistics of one player.
#[derive(Debug)]
pub struct RoulettePlayerStats {
    pub player_name: String,
    pub played_games: usize,
    pub win_count: usize,
    /// The sum of the stakes won; never negative.
    pub win_amount: i128,
    pub loss_count: usize,
    /// The sum of the stakes lost, negated; never positive.
    pub lost_amount: i128,
    /// How often the losing streak reached the configured maximum.
    pub lost_in_a_row_count: usize,
    pub highest_loss_streak_count: usize,
    pub losing_streak: usize,
    /// The largest stake placed so far.
    pub biggest_best: u64,
    pub config: RoulettePlayerConfig,
}

/// The statistics as mathematical values.
pub struct StatsView {
    pub player_name: Seq<char>,
    pub played_games: nat,
    pub win_count: nat,
    pub win_amount: int,
    pub loss_count: nat,
    pub lost_amount: int,
    pub lost_in_a_row_count: nat,
    pub highest_loss_streak_count: nat,
    pub losing_streak: nat,
    pub biggest_best: nat,
    pub max_loss_streak: nat,
    pub minimum_bet: nat,
}

impl View for RoulettePlayerStats {
    type V = StatsView;

    open spec fn view(&self) -> StatsView {
        StatsView {
            player_name: self.player_name@,
            played_games: self.played_games as nat,
            win_count: self.win_count as nat,
            win_amount: self.win_amount as int,
            loss_count: self.loss_count as nat,
            lost_amount: self.lost_amount as int,
            lost_in_a_row_count: self.lost_in_a_row_count as nat,
            highest_loss_streak_count: self.highest_loss_streak_count as nat,
            losing_streak: self.losing_streak as nat,
            biggest_best: self.biggest_best as nat,
            max_loss_streak: self.config.max_loss_streak as nat,
            minimum_bet: self.config.minimum_bet as nat,
        }
    }
}

/// The statistics of a player who has not bet yet.
pub open spec fn fresh_stats(name: Seq<char>, max_loss_streak: nat, minimum_bet: nat) -> StatsView {
    StatsView {
        player_name: name,
        played_games: 0,
        win_count: 0,
        win_amount: 0,
        loss_count: 0,
        lost_amount: 0,
        lost_in_a_row_count: 0,
        highest_loss_streak_count: 0,
        losing_streak: 0,
        biggest_best: 0,
        max_loss_streak,
        minimum_bet,
    }
}

/// The balance: what was won plus what was lost, the latter being negative.
pub open spec fn balance(s: StatsView) -> int {
    s.win_amount + s.lost_amount
}

/// The counters agree with each other, the amount won is not negative and
/// the amount lost is not positive.
pub open spec fn stats_wf(s: StatsView) -> bool {
    &&& s.win_amount >= 0
    &&& s.lost_amount <= 0
    &&& s.win_count <= s.played_games
    &&& s.loss_count <= s.played_games
    &&& s.losing_streak <= s.loss_count
    &&& s.lost_in_a_row_count <= s.loss_count
}

/// The stake without an override: the minimum bet outside a losing streak,
/// else twice the minimum bet, raised to the power of the streak.
pub open spec fn streak_stake(minimum_bet: nat, losing_streak: nat) -> nat {
    if losing_streak == 0 {
        minimum_bet
    } else {
        pow((2 * minimum_bet) as int, losing_streak) as nat
    }
}

/// The stake of the next bet: the override where there is one.
pub open spec fn stake_for(s: StatsView, custom_bet_value: Option<u64>) -> nat {
    match custom_bet_value {
        Some(v) => v as nat,
        None => streak_stake(s.minimum_bet, s.losing_streak),
    }
}

/// The larger of two numbers.
pub open spec fn larger(a: nat, b: nat) -> nat {
    if a >= b {
        a
    } else {
        b
    }
}

/// The statistics once a bet of `stake` is placed and the wheel has turned:
/// one more game, and the largest stake so far.
pub open spec fn after_stake(s: StatsView, stake: nat) -> StatsView {
    StatsView {
        played_games: s.played_games + 1,
        biggest_best: larger(s.biggest_best, stake),
        ..s
    }
}

/// The statistics once a placed bet of `stake` is booked as won.
pub open spec fn after_win(s: StatsView, stake: nat) -> StatsView {
    StatsView {
        win_count: s.win_count + 1,
        win_amount: s.win_amount + stake,
        highest_loss_streak_count: larger(s.highest_loss_streak_count, s.losing_streak),
        losing_streak: 0,
        ..s
    }
}

/// The statistics once a placed bet of `stake` is booked as lost.
pub open spec fn after_loss(s: StatsView, stake: nat) -> StatsView {
    let t = StatsView {
        loss_count: s.loss_count + 1,
        lost_amount: s.lost_amount - stake,
        losing_streak: s.losing_streak + 1,
        ..s
    };
    if t.losing_streak == s.max_loss_streak {
        StatsView {
            lost_in_a_row_count: s.lost_in_a_row_count + 1,
            losing_streak: 0,
            highest_loss_streak_count: s.max_loss_streak,
            ..t
        }
    } else {
        t
    }
}

/// The statistics after a whole bet of `stake`.
pub open spec fn after_bet(s: StatsView, stake: nat, won: bool) -> StatsView {
    if won {
        after_win(after_stake(s, stake), stake)
    } else {
        after_loss(after_stake(s, stake), stake)
    }
}

/// Whether the next bet fits the machine: its stake is a `u64`, the count of
/// games can grow by one, and both amounts have room for the stake.
pub open spec fn bet_fits(s: StatsView, custom_bet_value: Option<u64>) -> bool {
    &&& stake_for(s, custom_bet_value) <= u64::MAX
    &&& s.played_games < usize::MAX
    &&& s.win_amount + stake_for(s, custom_bet_value) <= i128::MAX
    &&& s.lost_amount - stake_for(s, custom_bet_value) >= i128::MIN
}

impl Clone for RoulettePlayerStats {
    fn clone(&self) -> (r: Self)
        ensures
            r == *self,
    {
        RoulettePlayerStats {
            player_name: self.player_name.clone(),
            played_games: self.played_games,
            win_count: self.win_count,
            win_amount: self.win_amount,
            loss_count: self.loss_count,
            lost_amount: self.lost_amount,
            lost_in_a_row_count: self.lost_in_a_row_count,
            highest_loss_streak_count: self.highest_loss_streak_count,
            losing_streak: self.losing_streak,
            biggest_best: self.biggest_best,
            config: self.config,
        }
    }
}

impl RoulettePlayerStats {
    /// See [`stats_wf`].
    pub open spec fn wf(&self) -> bool {
        stats_wf(self@)
    }

    /// Whether the statistics are well formed.
    pub fn is_valid(&self) -> (r: bool)
        ensures
            r == self.wf(),
    {
        self.win_amount >= 0 && self.lost_amount <= 0 && self.win_count <= self.played_games
            && self.loss_count <= self.played_games && self.losing_streak <= self.loss_count
            && self.lost_in_a_row_count <= self.loss_count
    }

    /// The statistics of a player who has not bet yet.
    pub fn new(config: &RoulettePlayerConfig, player_name: String) -> (r: Self)
        ensures
            r@ == fresh_stats(
                player_name@,
                config.max_loss_streak as nat,
                config.minimum_bet as nat,
            ),
            r.config == *config,
            r.wf(),
    {
        Self {
            player_name,
            played_games: 0,
            win_count: 0,
            win_amount: 0,
            loss_count: 0,
            lost_amount: 0,
            biggest_best: 0,
            lost_in_a_row_count: 0,
            highest_loss_streak_count: 0,
            config: *config,
            losing_streak: 0,
        }
    }

    /// The balance: the amount won plus the amount lost.
    pub fn get_balance(&self) -> (r: i128)
        requires
            self.wf(),
        ensures
            r == balance(self@),
    {
        self.win_amount + self.lost_amount
    }

    /// Whether the player is ahead: the balance is above zero.
    pub fn won(&self) -> (r: bool)
        requires
            self.wf(),
        ensures
            r == (balance(self@) > 0),
    {
        self.get_balance() > 0
    }
}

/// What one bet came to.
#[derive(Debug, Clone, Copy, PartialEq, Eq, Structural)]
pub struct BetOutcome {
    /// The stake that was placed.
    pub stake: u64,
    /// The colour that the wheel gave.
    pub result: RouletteColor,
    /// Whether that is the colour that was bet on.
    pub won: bool,
}

/// Twice `minimum_bet`, raised to the power of `losing_streak`, where that
/// is a `u64`.
pub fn raised_stake(minimum_bet: u64, losing_streak: usize) -> (r: Option<u64>)
    ensures
        match r {
            Some(s) => s == pow(2 * minimum_bet, losing_streak as nat),
            None => pow(2 * minimum_bet, losing_streak as nat) > u64::MAX,
        },
{
    if losing_streak == 0 {
        proof {
            lemma_pow0(2 * minimum_bet);
        }
        return Some(1);
    }
    if minimum_bet == 0 {
        proof {
            lemma_pow_of_zero(losing_streak as nat);
        }
        return Some(0);
    }
    if minimum_bet > u64::MAX / 2 {
        proof {
            lemma_pow_at_least_base((2 * minimum_bet) as nat, losing_streak as nat);
        }
        return None;
    }
    let base: u64 = 2 * minimum_bet;
    let mut acc: u64 = 1;
    let mut i: usize = 0;
    proof {
        lemma_pow0(base as int);
    }
    while i < losing_streak
        invariant
            i <= losing_streak,
            base == 2 * minimum_bet,
            base >= 2,
            acc == pow(base as int, i as nat),
        decreases losing_streak - i,
    {
        proof {
            reveal(pow);
            assert(pow(base as int, (i + 1) as nat) == base * pow(base as int, i as nat));
        }
        if acc > u64::MAX / base {
            proof {
                assert(acc * base > u64::MAX) by (nonlinear_arith)
                    requires
                        acc > u64::MAX / base,
                        base >= 2,
                ;
                lemma_pow_increases(base as nat, (i + 1) as nat, losing_streak as nat);
            }
            return None;
        }
        assert(acc * base <= u64::MAX) by (nonlinear_arith)
            requires
                acc <= u64::MAX / base,
                base >= 2,
        ;
        acc = acc * base;
        i += 1;
    }
    Some(acc)
}

/// A player at a wheel.
#[derive(Debug)]
pub struct RoulettePlayer<'a, T> where T: RouletteChooser {
    /// The wheel that the player bets at, borrowed for the player's time.
    pub roulette: &'a mut Roulette<T>,
    pub stats: RoulettePlayerStats,
    /// The configuration; the statistics carry the same.
    pub config: RoulettePlayerConfig,
}

impl<'a, T> RoulettePlayer<'a, T> where T: RouletteChooser {
    /// The player's statistics.
    pub open spec fn stats(&self) -> RoulettePlayerStats {
        self.stats
    }

    /// The wheel that the player bets at.
    pub open spec fn wheel(&self) -> Roulette<T> {
        *self.roulette
    }

    /// The wheel and the statistics are well formed, and the statistics
    /// carry the player's configuration.
    pub open spec fn wf(&self) -> bool {
        &&& self.roulette.wf()
        &&& self.stats.wf()
        &&& self.stats.config == self.config
    }

    /// A player of the given name at the wheel `roulette`, who has not bet
    /// yet.
    pub fn new(
        name: String,
        roulette: &'a mut Roulette<T>,
        max_loss_streak: usize,
        minimum_bet: u64,
    ) -> (r: Self)
        requires
            old(roulette).wf(),
        ensures
            r.wf(),
            r.wheel() == *old(roulette),
            *final(r.roulette) == *final(roulette),
            r.stats()@ == fresh_stats(name@, max_loss_streak as nat, minimum_bet as nat),
    {
        let config = RoulettePlayerConfig { max_loss_streak, minimum_bet };
        Self { stats: RoulettePlayerStats::new(&config, name), roulette, config }
    }

    /// The stake of the next bet, where it is a `u64`.
    pub fn next_stake(&self, custom_bet_value: Option<u64>) -> (r: Option<u64>)
        requires
            self.wf(),
        ensures
            match r {
                Some(s) => s == stake_for(self.stats()@, custom_bet_value),
                None => stake_for(self.stats()@, custom_bet_value) > u64::MAX,
            },
    {
        match custom_bet_value {
            Some(set_bet_value) => Some(set_bet_value),
            None => if self.stats.losing_streak > 0 {
                raised_stake(self.config.minimum_bet, self.stats.losing_streak)
            } else {
                Some(self.config.minimum_bet)
            },
        }
    }

    /// Whether the next bet fits the machine; see [`bet_fits`].
    pub fn can_bet(&self, custom_bet_value: Option<u64>) -> (r: bool)
        requires
            self.wf(),
        ensures
            r == bet_fits(self.stats()@, custom_bet_value),
    {
        match self.next_stake(custom_bet_value) {
            None => false,
            Some(stake) => {
                self.stats.played_games < usize::MAX && self.stats.win_amount <= i128::MAX - (
                stake as i128) && self.stats.lost_amount >= i128::MIN + (stake as i128)
            },
        }
    }

    /// Places one bet on the colour `bet`: fixes the stake, draws from the
    /// wheel and books the win or the loss.
    pub fn bet(&mut self, bet: RouletteColor, custom_bet_value: Option<u64>) -> (r: BetOutcome)
        requires
            old(self).wf(),
            bet_fits(old(self).stats()@, custom_bet_value),
        ensures
            final(self).wf(),
            r.stake == stake_for(old(self).stats()@, custom_bet_value),
            r.won == (r.result == bet),
            final(self).stats()@ == after_bet(old(self).stats()@, r.stake as nat, r.won),
            final(self).wheel().layout() == old(self).wheel().layout(),
            *final(final(self).roulette) == *final(old(self).roulette),
            old(self).wheel().source().draws(
                old(self).wheel().layout(),
                r.result,
                final(self).wheel().source(),
            ),
    {
        let bet_value: u64 = match self.next_stake(custom_bet_value) {
            Some(v) => v,
            None => 0,
        };
        if bet_value > self.stats.biggest_best {
            self.stats.biggest_best = bet_value;
        }
        let roulette_result = self.roulette.play();
        self.stats.played_games += 1;
        let won = roulette_result == bet;
        if won {
            self.win(bet_value);
        } else {
            self.lose(bet_value);
        }
        BetOutcome { stake: bet_value, result: roulette_result, won }
    }

    /// Places the bet where it fits the machine, and changes nothing where
    /// it does not.
    pub fn try_bet(&mut self, bet: RouletteColor, custom_bet_value: Option<u64>) -> (r: Option<
        BetOutcome,
    >)
        requires
            old(self).wf(),
        ensures
            final(self).wf(),
            *final(final(self).roulette) == *final(old(self).roulette),
            r is Some <==> bet_fits(old(self).stats()@, custom_bet_value),
            r is None ==> final(self).stats() == old(self).stats() && final(self).wheel() == old(
                self,
            ).wheel(),
            r is Some ==> {
                &&& r->0.stake == stake_for(old(self).stats()@, custom_bet_value)
                &&& r->0.won == (r->0.result == bet)
                &&& final(self).stats()@ == after_bet(
                    old(self).stats()@,
                    r->0.stake as nat,
                    r->0.won,
                )
                &&& final(self).wheel().layout() == old(self).wheel().layout()
                &&& old(self).wheel().source().draws(
                    old(self).wheel().layout(),
                    r->0.result,
                    final(self).wheel().source(),
                )
            },
    {
        if self.can_bet(custom_bet_value) {
            Some(self.bet(bet, custom_bet_value))
        } else {
            None
        }
    }

    /// Books a bet of `bet_value` that was won.
    fn win(&mut self, bet_value: u64)
        requires
            old(self).stats.win_count < usize::MAX,
            old(self).stats.win_amount + bet_value <= i128::MAX,
        ensures
            final(self).roulette == old(self).roulette,
            final(self).config == old(self).config,
            final(self).stats.config == old(self).stats.config,
            final(self).stats@ == after_win(old(self).stats@, bet_value as nat),
    {
        self.stats.win_count += 1;
        self.stats.win_amount += bet_value as i128;
        if self.stats.losing_streak > self.stats.highest_loss_streak_count {
            self.stats.highest_loss_streak_count = self.stats.losing_streak;
        }
        self.stats.losing_streak = 0;
    }

    /// Books a bet of `bet_value` that was lost.
    fn lose(&mut self, bet_value: u64)
        requires
            old(self).stats.config == old(self).config,
            old(self).stats.loss_count < usize::MAX,
            old(self).stats.losing_streak <= old(self).stats.loss_count,
            old(self).stats.lost_in_a_row_count <= old(self).stats.loss_count,
            old(self).stats.lost_amount - bet_value >= i128::MIN,
        ensures
            final(self).roulette == old(self).roulette,
            final(self).config == old(self).config,
            final(self).stats.config == old(self).stats.config,
            final(self).stats@ == after_loss(old(self).stats@, bet_value as nat),
    {
        self.stats.loss_count += 1;
        self.stats.lost_amount -= bet_value as i128;
        self.stats.losing_streak += 1;
        if self.stats.losing_streak == self.config.max_loss_streak {
            self.stats.lost_in_a_row_count += 1;
            self.stats.losing_streak = 0;
            self.stats.highest_loss_streak_count = self.config.max_loss_streak;
        }
    }

    /// Ends the player's time at the wheel and hands out the statistics.
    /// The wheel is then left as it stands.
    pub fn into_stats(self) -> (r: RoulettePlayerStats)
        ensures
            r == self.stats(),
            *final(self.roulette) == self.wheel(),
    {
        self.stats
    }

    /// A copy of the statistics as they stand.
    pub fn get_stats(&self) -> (r: RoulettePlayerStats)
        ensures
            r == self.stats(),
    {
        self.stats.clone()
    }
}

/// The statistics after the bets `bets` in order, each given by its stake
/// and by whether it was won.
pub open spec fn after_bets(s: StatsView, bets: Seq<(nat, bool)>) -> StatsView
    decreases bets.len(),
{
    if bets.len() == 0 {
        s
    } else {
        after_bet(after_bets(s, bets.drop_last()), bets.last().0, bets.last().1)
    }
}

/// What the bets `bets` come to: the stakes won less the stakes lost.
pub open spec fn net_gain(bets: Seq<(nat, bool)>) -> int
    decreases bets.len(),
{
    if bets.len() == 0 {
        0
    } else {
        net_gain(bets.drop_last()) + if bets.last().1 {
            bets.last().0 as int
        } else {
            -(bets.last().0 as int)
        }
    }
}

/// Whatever the bets, the statistics stay well formed: above all the amount
/// lost never rises above zero and the amount won never falls below it. The
/// balance, which is their sum, moves by what the bets come to, and each bet
/// counts as one game.
pub proof fn lemma_bets_keep_amounts_signed(s: StatsView, bets: Seq<(nat, bool)>)
    requires
        stats_wf(s),
    ensures
        stats_wf(after_bets(s, bets)),
        after_bets(s, bets).lost_amount <= 0,
        after_bets(s, bets).win_amount >= 0,
        balance(after_bets(s, bets)) == after_bets(s, bets).win_amount + after_bets(
            s,
            bets,
        ).lost_amount,
        balance(after_bets(s, bets)) == balance(s) + net_gain(bets),
        after_bets(s, bets).played_games == s.played_games + bets.len(),
        after_bets(s, bets).max_loss_streak == s.max_loss_streak,
        after_bets(s, bets).minimum_bet == s.minimum_bet,
        after_bets(s, bets).player_name == s.player_name,
    decreases bets.len(),
{
    if bets.len() > 0 {
        lemma_bets_keep_amounts_signed(s, bets.drop_last());
    }
}

/// While fewer bets have been lost in a row than the maximum asks for, the
/// losing streak is their number and the count of maximal streaks stands.
pub proof fn lemma_streak_grows(s: StatsView, bets: Seq<(nat, bool)>)
    requires
        s.losing_streak == 0,
        bets.len() < s.max_loss_streak,
        forall|i: int| 0 <= i < bets.len() ==> !bets[i].1,
    ensures
        after_bets(s, bets).losing_streak == bets.len(),
        after_bets(s, bets).lost_in_a_row_count == s.lost_in_a_row_count,
        after_bets(s, bets).max_loss_streak == s.max_loss_streak,
    decreases bets.len(),
{
    if bets.len() > 0 {
        lemma_streak_grows(s, bets.drop_last());
    }
}

/// A player who is on no streak and then loses as many bets in a row as the
/// maximum asks for has one more maximal streak on record and is on no
/// streak again; the highest streak on record is the maximum. One more lost
/// bet starts the count again from zero.
pub proof fn lemma_max_streak_resets(s: StatsView, bets: Seq<(nat, bool)>, stake: nat)
    requires
        s.losing_streak == 0,
        s.max_loss_streak >= 1,
        bets.len() == s.max_loss_streak,
        forall|i: int| 0 <= i < bets.len() ==> !bets[i].1,
    ensures
        after_bets(s, bets).lost_in_a_row_count == s.lost_in_a_row_count + 1,
        after_bets(s, bets).losing_streak == 0,
        after_bets(s, bets).highest_loss_streak_count == s.max_loss_streak,
        s.max_loss_streak > 1 ==> {
            &&& after_bet(after_bets(s, bets), stake, false).losing_streak == 1
            &&& after_bet(after_bets(s, bets), stake, false).lost_in_a_row_count
                == s.lost_in_a_row_count + 1
        },
        s.max_loss_streak == 1 ==> {
            &&& after_bet(after_bets(s, bets), stake, false).losing_streak == 0
            &&& after_bet(after_bets(s, bets), stake, false).lost_in_a_row_count
                == s.lost_in_a_row_count + 2
        },
{
    lemma_streak_grows(s, bets.drop_last());
}

/// Zero to a power above zero is zero.
proof fn lemma_pow_of_zero(e: nat)
    requires
        e > 0,
    ensures
        pow(0, e) == 0,
{
    reveal(pow);
}

/// A power above zero of a number above zero is at least that number.
proof fn lemma_pow_at_least_base(b: nat, e: nat)
    requires
        b > 0,
        e > 0,
    ensures
        pow(b as int, e) >= b,
{
    reveal(pow);
    lemma_pow_positive(b as int, (e - 1) as nat);
    assert(b * pow(b as int, (e - 1) as nat) >= b) by (nonlinear_arith)
        requires
            b > 0,
            pow(b as int, (e - 1) as nat) > 0,
    ;
}

} // verus!
