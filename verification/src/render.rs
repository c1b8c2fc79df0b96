//! The text of the report: numbers in decimal, a player's summary, and the
//! line over all players.

use vstd::prelude::*;

use crate::player::balance;
use crate::player::RoulettePlayerStats;
use crate::player::StatsView;
use crate::simulation::ProgressObservation;

verus! {

/// The character of the decimal digit `d`.
pub open spec fn digit_char(d: nat) -> char {
    if d == 0 {
        '0'
    } else if d == 1 {
        '1'
    } else if d == 2 {
        '2'
    } else if d == 3 {
        '3'
    } else if d == 4 {
        '4'
    } else if d == 5 {
        '5'
    } else if d == 6 {
        '6'
    } else if d == 7 {
        '7'
    } else if d == 8 {
        '8'
    } else {
        '9'
    }
}

/// The decimal digits of `n`, the highest first, without leading zeros.
pub open spec fn digits(n: nat) -> Seq<char>
    decreases n,
{
    if n < 10 {
        seq![digit_char(n)]
    } else {
        digits(n / 10).push(digit_char(n % 10))
    }
}

/// `count` zeros.
pub open spec fn zeros(count: nat) -> Seq<char> {
    Seq::new(count, |i: int| '0')
}

/// The sign of `n` as it is written: a minus for a negative number.
pub open spec fn sign_text(n: int) -> Seq<char> {
    if n < 0 {
        seq!['-']
    } else {
        Seq::empty()
    }
}

/// How many zeros fill `n` up to `width` characters, the sign included.
pub open spec fn fill_count(n: int, width: nat) -> nat {
    let used = sign_text(n).len() + digits(vstd::math::abs(n)).len();
    if used < width {
        (width - used) as nat
    } else {
        0
    }
}

/// `n` in decimal, filled up with zeros between sign and digits to at least
/// `width` characters.
pub open spec fn padded(n: int, width: nat) -> Seq<char> {
    sign_text(n) + zeros(fill_count(n, width)) + digits(vstd::math::abs(n))
}

/// `n` in decimal.
pub open spec fn decimal(n: int) -> Seq<char> {
    padded(n, 0)
}

/// The summary of one player.
pub open spec fn summary_text(s: StatsView) -> Seq<char> {
    "\n"@ + s.player_name + " {\n  rounds: "@ + decimal(s.played_games as int) + " (won: "@
        + padded(s.win_count as int, 6) + " lost: "@ + padded(s.loss_count as int, 6) + " lost_"@
        + decimal(s.max_loss_streak as int) + "_in_a_row: "@ + padded(
        s.lost_in_a_row_count as int,
        6,
    ) + ")\n  highest_loss_streak_count:"@ + decimal(s.highest_loss_streak_count as int)
        + " biggest_bet$: "@ + decimal(s.biggest_best as int) + "\n  won$:   "@ + padded(
        s.win_amount,
        10,
    ) + " \n  lost$:  "@ + padded(s.lost_amount, 10) + "\n  result: "@ + padded(balance(s), 10)
        + "\n}"@
}

/// The line over all players.
pub open spec fn aggregate_text(total: nat, won: nat, percent: nat) -> Seq<char> {
    "played "@ + decimal(total as int) + " games, won "@ + decimal(won as int) + " games ("@
        + decimal(percent as int) + "%)"@
}

/// The name of the player with the number `number`.
pub open spec fn player_name_text(number: nat) -> Seq<char> {
    "Player"@ + decimal(number as int)
}

/// The line that tells an observation of the player with the number
/// `number`.
pub open spec fn progress_text(number: nat, o: ProgressObservation) -> Seq<char> {
    player_name_text(number) + " Bet#: "@ + decimal(o.round as int) + " Won:"@ + decimal(
        o.win_amount as int,
    ) + " Lost:"@ + decimal(o.lost_amount as int) + " Balance: "@ + decimal(o.balance as int)
}

/// `String::push` of std appends the character to the string.
pub assume_specification[ String::push ](s: &mut String, ch: char)
    ensures
        final(s)@ == old(s)@.push(ch),
;

/// `String::push_str` of std appends the slice to the string.
pub assume_specification[ String::push_str ](s: &mut String, string: &str)
    ensures
        final(s)@ == old(s)@ + string@,
;

/// The character of the digit `d`.
fn digit(d: u128) -> (c: char)
    requires
        d < 10,
    ensures
        c == digit_char(d as nat),
{
    if d == 0 {
        '0'
    } else if d == 1 {
        '1'
    } else if d == 2 {
        '2'
    } else if d == 3 {
        '3'
    } else if d == 4 {
        '4'
    } else if d == 5 {
        '5'
    } else if d == 6 {
        '6'
    } else if d == 7 {
        '7'
    } else if d == 8 {
        '8'
    } else {
        '9'
    }
}

/// Appends `n` in decimal to `out`, filled up with zeros to `width`
/// characters.
pub fn push_padded(out: &mut String, n: i128, width: usize)
    ensures
        final(out)@ == old(out)@ + padded(n as int, width as nat),
{
    let negative = n < 0;
    let magnitude: u128 = if negative {
        ((-(n + 1)) as u128) + 1
    } else {
        n as u128
    };
    assert(magnitude == vstd::math::abs(n as int));
    let mut low_first: Vec<char> = Vec::new();
    let mut rest: u128 = magnitude;
    let ghost mut tail: Seq<char> = Seq::empty();
    while rest >= 10
        invariant
            digits(magnitude as nat) =~= digits(rest as nat) + tail,
            low_first@.len() == tail.len(),
            forall|i: int|
                0 <= i < tail.len() ==> low_first@[i] == #[trigger] tail[tail.len() - 1 - i],
        decreases rest,
    {
        let c = digit(rest % 10);
        proof {
            let longer = seq![c] + tail;
            assert forall|i: int| 0 <= i < longer.len() implies low_first@.push(c)[i]
                == #[trigger] longer[longer.len() - 1 - i] by {
                if i < tail.len() {
                    assert(longer[longer.len() - 1 - i] == tail[tail.len() - 1 - i]);
                }
            }
            tail = longer;
        }
        low_first.push(c);
        rest = rest / 10;
    }
    let c = digit(rest);
    proof {
        let longer = seq![c] + tail;
        assert forall|i: int| 0 <= i < longer.len() implies low_first@.push(c)[i]
            == #[trigger] longer[longer.len() - 1 - i] by {
            if i < tail.len() {
                assert(longer[longer.len() - 1 - i] == tail[tail.len() - 1 - i]);
            }
        }
        tail = longer;
        assert(tail =~= digits(magnitude as nat));
    }
    low_first.push(c);
    if negative {
        out.push('-');
    }
    let ghost signed = out@;
    assert(signed =~= old(out)@ + sign_text(n as int));
    let target: usize = if negative && width > 0 {
        width - 1
    } else {
        width
    };
    let mut k: usize = low_first.len();
    while k < target
        invariant
            low_first@.len() <= k,
            k <= target || k == low_first@.len(),
            out@ =~= signed + zeros((k - low_first@.len()) as nat),
        decreases target - k,
    {
        out.push('0');
        k += 1;
    }
    let ghost filled = out@;
    assert(filled =~= old(out)@ + sign_text(n as int) + zeros(fill_count(n as int, width as nat)));
    let mut i: usize = low_first.len();
    while i > 0
        invariant
            i <= low_first@.len(),
            low_first@.len() == tail.len(),
            forall|j: int|
                0 <= j < tail.len() ==> low_first@[j] == #[trigger] tail[tail.len() - 1 - j],
            out@ =~= filled + tail.take(tail.len() - i),
        decreases i,
    {
        i -= 1;
        proof {
            assert(low_first@[i as int] == tail[tail.len() - 1 - i]);
        }
        out.push(low_first[i]);
    }
    assert(tail.take(tail.len() as int) =~= tail);
}

impl RoulettePlayerStats {
    /// The player's summary as text.
    pub fn summary(&self) -> (r: String)
        requires
            self.wf(),
        ensures
            r@ == summary_text(self@),
    {
        let mut out = String::new();
        out.push_str("\n");
        out.push_str(self.player_name.as_str());
        out.push_str(" {\n  rounds: ");
        push_padded(&mut out, self.played_games as i128, 0);
        out.push_str(" (won: ");
        push_padded(&mut out, self.win_count as i128, 6);
        out.push_str(" lost: ");
        push_padded(&mut out, self.loss_count as i128, 6);
        out.push_str(" lost_");
        push_padded(&mut out, self.config.max_loss_streak as i128, 0);
        out.push_str("_in_a_row: ");
        push_padded(&mut out, self.lost_in_a_row_count as i128, 6);
        out.push_str(")\n  highest_loss_streak_count:");
        push_padded(&mut out, self.highest_loss_streak_count as i128, 0);
        out.push_str(" biggest_bet$: ");
        push_padded(&mut out, self.biggest_best as i128, 0);
        out.push_str("\n  won$:   ");
        push_padded(&mut out, self.win_amount, 10);
        out.push_str(" \n  lost$:  ");
        push_padded(&mut out, self.lost_amount, 10);
        out.push_str("\n  result: ");
        push_padded(&mut out, self.get_balance(), 10);
        out.push_str("\n}");
        out
    }
}

/// The line over all players: how many there are, how many of them are
/// ahead, and the rate of those in percent.
pub fn aggregate_line(total_games: usize, won_games: usize, win_rate_percent: usize) -> (r: String)
    ensures
        r@ == aggregate_text(total_games as nat, won_games as nat, win_rate_percent as nat),
{
    let mut out = String::new();
    out.push_str("played ");
    push_padded(&mut out, total_games as i128, 0);
    out.push_str(" games, won ");
    push_padded(&mut out, won_games as i128, 0);
    out.push_str(" games (");
    push_padded(&mut out, win_rate_percent as i128, 0);
    out.push_str("%)");
    out
}

/// The name of the player with the number `number`.
pub fn player_name(number: usize) -> (r: String)
    ensures
        r@ == player_name_text(number as nat),
{
    let mut out = String::new();
    out.push_str("Player");
    push_padded(&mut out, number as i128, 0);
    out
}

/// The line that tells an observation of the player with the number
/// `number`.
pub fn progress_line(number: usize, observation: &ProgressObservation) -> (r: String)
    ensures
        r@ == progress_text(number as nat, *observation),
{
    let mut out = player_name(number);
    out.push_str(" Bet#: ");
    push_padded(&mut out, observation.round as i128, 0);
    out.push_str(" Won:");
    push_padded(&mut out, observation.win_amount, 0);
    out.push_str(" Lost:");
    push_padded(&mut out, observation.lost_amount, 0);
    out.push_str(" Balance: ");
    push_padded(&mut out, observation.balance, 0);
    out
}

} // verus!
