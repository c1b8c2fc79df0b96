//! The report over many players: their ranking by balance, how many of them
//! are ahead, and the rate of those in percent.

use itertools::Itertools;
use std::cmp::Ordering;
use vstd::prelude::*;
use vstd::seq_lib::seq_to_set_is_finite;
use vstd::set_lib::lemma_int_range;
use vstd::set_lib::lemma_subset_equality;
use vstd::set_lib::set_int_range;

use crate::player::balance;
use crate::player::RoulettePlayerStats;

verus! {

/// Whether the player at place `a` of `stats` stands before the one at place
/// `b` in the ranking: by the lower balance, and among equal balances by the
/// earlier place.
pub open spec fn ranks_before(stats: Seq<RoulettePlayerStats>, a: int, b: int) -> bool {
    balance(stats[a]@) < balance(stats[b]@) || (balance(stats[a]@) == balance(stats[b]@) && a < b)
}

/// Whether `order` lists places of `stats`, one for each player, in rising
/// order of balance, players of equal balance in the order of their places.
pub open spec fn is_ranking(order: Seq<usize>, stats: Seq<RoulettePlayerStats>) -> bool {
    &&& order.len() == stats.len()
    &&& forall|i: int| 0 <= i < order.len() ==> #[trigger] order[i] < stats.len()
    &&& forall|i: int, j: int|
        0 <= i < j < order.len() ==> ranks_before(
            stats,
            #[trigger] order[i] as int,
            #[trigger] order[j] as int,
        )
}

/// How many of the players are ahead.
pub open spec fn won_count(stats: Seq<RoulettePlayerStats>) -> nat
    decreases stats.len(),
{
    if stats.len() == 0 {
        0
    } else {
        won_count(stats.drop_last()) + if balance(stats.last()@) > 0 {
            1nat
        } else {
            0nat
        }
    }
}

/// The share of `won` in `total` in percent, rounded to the nearest whole
/// number, a half upwards; zero where `total` is zero.
pub open spec fn win_rate(won: nat, total: nat) -> nat {
    if total == 0 {
        0
    } else {
        (200 * won + total) / (2 * total)
    }
}

/// Every player's statistics are well formed.
pub open spec fn all_wf(stats: Seq<RoulettePlayerStats>) -> bool {
    forall|i: int| 0 <= i < stats.len() ==> (#[trigger] stats[i]).wf()
}

/// The order of two players by balance.
pub fn compare_by_balance(a: &RoulettePlayerStats, b: &RoulettePlayerStats) -> (r: Ordering)
    requires
        a.wf(),
        b.wf(),
    ensures
        match r {
            Ordering::Less => balance(a@) < balance(b@),
            Ordering::Equal => balance(a@) == balance(b@),
            Ordering::Greater => balance(a@) > balance(b@),
        },
{
    let x: i128 = a.get_balance();
    let y: i128 = b.get_balance();
    if x < y {
        Ordering::Less
    } else if x == y {
        Ordering::Equal
    } else {
        Ordering::Greater
    }
}

/// The places of `stats` as `itertools`' `Itertools::sorted_by` orders them
/// under [`compare_by_balance`]. That function sorts with `slice::sort_by`,
/// which keeps equal elements in the order in which they came, and here they
/// come in the order of their places.
#[verifier::external_body]
fn sorted_places(stats: &Vec<RoulettePlayerStats>) -> (r: Vec<usize>)
    requires
        all_wf(stats@),
    ensures
        is_ranking(r@, stats@),
{
    stats.iter().enumerate().sorted_by(|a, b| compare_by_balance(a.1, b.1)).map(|p| p.0).collect()
}

/// What is reported over all players.
#[derive(Debug)]
pub struct Report {
    /// The places of the players, lowest balance first.
    pub ranking: Vec<usize>,
    /// How many players there are.
    pub total_games: usize,
    /// How many of them are ahead.
    pub won_games: usize,
    /// The rate of those who are ahead, in percent.
    pub win_rate_percent: usize,
}

/// Counts the players who are ahead.
pub fn count_won(stats: &Vec<RoulettePlayerStats>) -> (r: usize)
    requires
        all_wf(stats@),
    ensures
        r == won_count(stats@),
        r <= stats@.len(),
{
    let mut won_games: usize = 0;
    let mut i: usize = 0;
    while i < stats.len()
        invariant
            i <= stats@.len(),
            all_wf(stats@),
            won_games == won_count(stats@.take(i as int)),
            won_games <= i,
        decreases stats@.len() - i,
    {
        assert(stats@.take(i + 1).drop_last() =~= stats@.take(i as int));
        if stats[i].won() {
            won_games += 1;
        }
        i += 1;
    }
    assert(stats@.take(i as int) =~= stats@);
    won_games
}

/// The rate of `won_games` in `total_games` in percent, rounded to the
/// nearest whole number; zero where there are no games.
pub fn win_rate_percent(won_games: usize, total_games: usize) -> (r: usize)
    requires
        won_games <= total_games,
    ensures
        r == win_rate(won_games as nat, total_games as nat),
        r <= 100,
{
    if total_games == 0 {
        return 0;
    }
    let n: u128 = 200 * (won_games as u128) + (total_games as u128);
    let d: u128 = 2 * (total_games as u128);
    assert(n / d <= 100) by (nonlinear_arith)
        requires
            n < 101 * d,
            d > 0,
    ;
    (n / d) as usize
}

/// Ranks the players by balance and counts those who are ahead.
pub fn summarize(stats: &Vec<RoulettePlayerStats>) -> (r: Report)
    requires
        all_wf(stats@),
    ensures
        is_ranking(r.ranking@, stats@),
        r.total_games == stats@.len(),
        r.won_games == won_count(stats@),
        r.win_rate_percent == win_rate(won_count(stats@), stats@.len()),
{
    let ranking = sorted_places(stats);
    let total_games: usize = stats.len();
    let won_games: usize = count_won(stats);
    Report {
        ranking,
        total_games,
        won_games,
        win_rate_percent: win_rate_percent(won_games, total_games),
    }
}

/// No place occurs twice in a ranking, and the balances rise along it.
pub proof fn lemma_ranking_is_sorted(order: Seq<usize>, stats: Seq<RoulettePlayerStats>)
    requires
        is_ranking(order, stats),
    ensures
        forall|i: int, j: int| 0 <= i < j < order.len() ==> order[i] != order[j],
        forall|i: int, j: int|
            0 <= i < j < order.len() ==> balance(stats[order[i] as int]@) <= balance(
                stats[order[j] as int]@,
            ),
{
    assert forall|i: int, j: int| 0 <= i < j < order.len() implies order[i] != order[j]
        && balance(stats[order[i] as int]@) <= balance(stats[order[j] as int]@) by {
        assert(ranks_before(stats, order[i] as int, order[j] as int));
    }
}

/// Where there are players, the rate is the whole number nearest to the
/// exact percentage: it is off by at most a half. It never exceeds 100 while
/// no more players are ahead than there are.
pub proof fn lemma_win_rate_is_nearest(won: nat, total: nat)
    requires
        total > 0,
    ensures
        -total <= 2 * (win_rate(won, total) * total - 100 * won) <= total,
        won <= total ==> win_rate(won, total) <= 100,
{
    let n = 200 * won + total;
    let d = 2 * total;
    let q = n / d;
    assert(q * d <= n < (q + 1) * d) by (nonlinear_arith)
        requires
            q == n / d,
            d > 0,
            n >= 0,
    ;
    assert(q * d == 2 * (q * total)) by (nonlinear_arith)
        requires
            d == 2 * total,
    ;
    assert((q + 1) * d == 2 * (q * total) + 2 * total) by (nonlinear_arith)
        requires
            d == 2 * total,
    ;
    if won <= total {
        assert(q <= 100) by (nonlinear_arith)
            requires
                q * d <= n,
                n <= 201 * total,
                d == 2 * total,
                total > 0,
        ;
    }
}

/// Every place stands in a ranking: no player is left out.
pub proof fn lemma_ranking_lists_every_place(
    order: Seq<usize>,
    stats: Seq<RoulettePlayerStats>,
    place: int,
)
    requires
        is_ranking(order, stats),
        0 <= place < stats.len(),
    ensures
        exists|i: int| 0 <= i < order.len() && order[i] == place,
{
    lemma_ranking_is_sorted(order, stats);
    let places = order.map_values(|p: usize| p as int);
    let all = set_int_range(0, stats.len() as int);
    assert(places.no_duplicates());
    places.unique_seq_to_set();
    seq_to_set_is_finite(places);
    lemma_int_range(0, stats.len() as int);
    assert forall|p: int| places.to_set().contains(p) implies all.contains(p) by {
        let i = choose|i: int| 0 <= i < places.len() && places[i] == p;
        assert(order[i] < stats.len());
    }
    lemma_subset_equality(places.to_set(), all);
    assert(places.to_set().contains(place));
    let i = choose|i: int| 0 <= i < places.len() && places[i] == place;
    assert(order[i] == place);
}

} // verus!
