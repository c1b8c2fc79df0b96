use roulette_simulation::enums::RouletteColor;
use roulette_simulation::player::RoulettePlayer;
use roulette_simulation::player::RoulettePlayerConfig;
use roulette_simulation::player::RoulettePlayerStats;
use roulette_simulation::render::aggregate_line;
use roulette_simulation::render::player_name;
use roulette_simulation::render::progress_line;
use roulette_simulation::render::push_padded;
use roulette_simulation::roulette::BiasedRouletteChoser;
use roulette_simulation::roulette::Roulette;
use roulette_simulation::simulation::ProgressObservation;

fn padded(n: i128, width: usize) -> String {
    let mut out = String::new();
    push_padded(&mut out, n, width);
    out
}

#[test]
fn numbers_are_written_in_decimal() {
    assert_eq!(padded(0, 0), "0");
    assert_eq!(padded(7, 0), "7");
    assert_eq!(padded(10, 0), "10");
    assert_eq!(padded(1234567890, 0), "1234567890");
    assert_eq!(padded(-1, 0), "-1");
    assert_eq!(padded(-120, 0), "-120");
    assert_eq!(padded(i128::MAX, 0), format!("{}", i128::MAX));
    assert_eq!(padded(i128::MIN, 0), format!("{}", i128::MIN));
}

#[test]
fn numbers_are_filled_with_zeros_after_the_sign() {
    assert_eq!(padded(0, 6), "000000");
    assert_eq!(padded(1, 6), "000001");
    assert_eq!(padded(123456, 6), "123456");
    assert_eq!(padded(1234567, 6), "1234567");
    assert_eq!(padded(-7, 10), "-000000007");
    assert_eq!(padded(-7, 2), "-7");
    assert_eq!(padded(-7, 1), "-7");
    assert_eq!(padded(-7, 3), "-07");
    for n in [-100000i128, -12, -1, 0, 5, 99, 100, 4096, 99999999999] {
        for width in 0..14usize {
            assert_eq!(padded(n, width), format!("{:0width$}", n, width = width));
        }
    }
}

#[test]
fn text_is_appended() {
    let mut out = "balance: ".to_string();
    push_padded(&mut out, -42, 0);
    assert_eq!(out, "balance: -42");
}

#[test]
fn summary_of_three_losses_and_a_win() {
    let sequence = vec![
        RouletteColor::BLACK,
        RouletteColor::BLACK,
        RouletteColor::BLACK,
        RouletteColor::RED,
    ];
    let mut wheel =
        Roulette::new(37, false, BiasedRouletteChoser::new(sequence).unwrap()).unwrap();
    let mut player = RoulettePlayer::new("Martingale".to_string(), &mut wheel, 4, 1);
    for _ in 0..4 {
        player.bet(RouletteColor::RED, None);
    }
    let expected = "
Martingale {
  rounds: 4 (won: 000001 lost: 000003 lost_4_in_a_row: 000000)
  highest_loss_streak_count:3 biggest_bet$: 8
  won$:   0000000008 
  lost$:  -000000007
  result: 0000000001
}";
    assert_eq!(player.get_stats().summary(), expected);
}

#[test]
fn summary_of_a_new_player() {
    let config = RoulettePlayerConfig { max_loss_streak: 20, minimum_bet: 1 };
    let stats = RoulettePlayerStats::new(&config, "Player0".to_string());
    let expected = format!(
        "
{} {{
  rounds: {} (won: {:06} lost: {:06} lost_{}_in_a_row: {:06})
  highest_loss_streak_count:{} biggest_bet$: {}
  won$:   {:010} 
  lost$:  {:010}
  result: {:010}
}}",
        "Player0", 0, 0, 0, 20, 0, 0, 0, 0, 0, 0
    );
    assert_eq!(stats.summary(), expected);
}

#[test]
fn line_over_all_players() {
    assert_eq!(aggregate_line(1000, 437, 44), "played 1000 games, won 437 games (44%)");
    assert_eq!(aggregate_line(0, 0, 0), "played 0 games, won 0 games (0%)");
}

#[test]
fn players_are_named_by_number() {
    assert_eq!(player_name(0), "Player0");
    assert_eq!(player_name(999), "Player999");
}

#[test]
fn line_of_an_observation() {
    let observation =
        ProgressObservation { round: 990, win_amount: 1200, lost_amount: -1350, balance: -150 };
    assert_eq!(
        progress_line(17, &observation),
        "Player17 Bet#: 990 Won:1200 Lost:-1350 Balance: -150"
    );
}
