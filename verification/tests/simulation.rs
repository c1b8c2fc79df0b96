use roulette_simulation::enums::ConfigError;
use roulette_simulation::enums::RouletteColor;
use roulette_simulation::player::RoulettePlayer;
use roulette_simulation::roulette::BiasedRouletteChoser;
use roulette_simulation::roulette::Roulette;
use roulette_simulation::simulation::bet_color;
use roulette_simulation::simulation::is_progress_round;
use roulette_simulation::simulation::play_rounds;
use roulette_simulation::simulation::simulate_player;
use roulette_simulation::simulation::simulate_random_player;
use roulette_simulation::simulation::ProgressObservation;

fn wheel_with(sequence: Vec<RouletteColor>) -> Roulette<BiasedRouletteChoser> {
    Roulette::new(37, false, BiasedRouletteChoser::new(sequence).unwrap()).unwrap()
}

#[test]
fn colours_alternate_by_round() {
    assert_eq!(bet_color(0), RouletteColor::RED);
    assert_eq!(bet_color(1), RouletteColor::BLACK);
    assert_eq!(bet_color(2), RouletteColor::RED);
    assert_eq!(bet_color(usize::MAX), RouletteColor::BLACK);
}

#[test]
fn progress_rounds() {
    assert!(is_progress_round(0, 1000));
    assert!(!is_progress_round(1, 1000));
    assert!(is_progress_round(10, 1000));
    assert!(is_progress_round(990, 1000));
    assert!(!is_progress_round(995, 1000));
    assert!(is_progress_round(999, 1000));
    assert!(is_progress_round(3, 50));
    assert!(is_progress_round(0, 0));
    assert!(is_progress_round(5, 100));
    assert!(!is_progress_round(5, 250));
    assert!(is_progress_round(6, 250));
    assert!(is_progress_round(249, 250));
}

#[test]
fn rounds_are_played_in_order_on_alternating_colours() {
    let mut wheel = wheel_with(vec![RouletteColor::BLACK]);
    let run = simulate_player("Alternating".to_string(), &mut wheel, 4, 1, 6);
    assert_eq!(run.played, 6);
    assert_eq!(run.stats.played_games, 6);
    assert_eq!(run.stats.win_count, 3);
    assert_eq!(run.stats.loss_count, 3);
    assert_eq!(run.stats.win_amount, 2 + 2 + 2);
    assert_eq!(run.stats.lost_amount, -3);
    assert_eq!(
        run.observations,
        vec![
            ProgressObservation { round: 0, win_amount: 0, lost_amount: -1, balance: -1 },
            ProgressObservation { round: 1, win_amount: 2, lost_amount: -1, balance: 1 },
            ProgressObservation { round: 2, win_amount: 2, lost_amount: -2, balance: 0 },
            ProgressObservation { round: 3, win_amount: 4, lost_amount: -2, balance: 2 },
            ProgressObservation { round: 4, win_amount: 4, lost_amount: -3, balance: 1 },
            ProgressObservation { round: 5, win_amount: 6, lost_amount: -3, balance: 3 },
        ]
    );
    assert_eq!(wheel.play(), RouletteColor::BLACK);
}

#[test]
fn long_runs_are_observed_every_hundredth_and_at_the_end() {
    let mut wheel = wheel_with(vec![RouletteColor::RED, RouletteColor::BLACK]);
    let mut player = RoulettePlayer::new("Lucky".to_string(), &mut wheel, 4, 1);
    let run = play_rounds(&mut player, 250);
    assert_eq!(run.played, 250);
    let rounds: Vec<usize> = run.observations.iter().map(|o| o.round).collect();
    let mut expected: Vec<usize> = (0..125).map(|k| 2 * k).collect();
    expected.push(249);
    assert_eq!(rounds, expected);
    let last = run.observations[run.observations.len() - 1];
    assert_eq!(last.win_amount, 250);
    assert_eq!(last.lost_amount, 0);
    assert_eq!(last.balance, 250);
    assert_eq!(player.get_stats().win_count, 250);
}

#[test]
fn a_run_stops_before_a_bet_that_does_not_fit() {
    let mut wheel = wheel_with(vec![RouletteColor::GREEN]);
    let run = simulate_player("Doomed".to_string(), &mut wheel, 0, 1, 100);
    assert_eq!(run.played, 64);
    assert_eq!(run.stats.played_games, 64);
    assert_eq!(run.stats.losing_streak, 64);
    assert_eq!(run.stats.lost_amount, -(1 + ((1i128 << 64) - 2)));
    assert_eq!(run.observations.len(), 64);
}

#[test]
fn no_rounds_no_observations() {
    let mut wheel = wheel_with(vec![RouletteColor::GREEN]);
    let run = simulate_player("Idle".to_string(), &mut wheel, 4, 1, 0);
    assert_eq!(run.played, 0);
    assert_eq!(run.stats.played_games, 0);
    assert!(run.observations.is_empty());
    assert_eq!(run.stats.player_name, "Idle");
}

#[test]
fn random_player_plays_all_rounds() {
    let run = simulate_random_player("Player0".to_string(), 37, false, 20, 1, 1000).unwrap();
    assert_eq!(run.played, 1000);
    assert_eq!(run.stats.played_games, 1000);
    assert_eq!(run.stats.win_count + run.stats.loss_count, 1000);
    assert!(run.stats.lost_amount <= 0);
    assert!(run.stats.win_amount >= 0);
    assert_eq!(run.observations.len(), 101);
    assert_eq!(run.observations[100].round, 999);
    assert_eq!(run.observations[100].balance, run.stats.get_balance());
    assert_eq!(run.stats.player_name, "Player0");
    assert_eq!(run.stats.config.max_loss_streak, 20);
}

#[test]
fn random_player_needs_a_valid_wheel() {
    let refused = simulate_random_player("Player0".to_string(), 36, false, 20, 1, 10);
    assert_eq!(refused.err(), Some(ConfigError::GreenNeedsOddSize));
    let refused = simulate_random_player("Player0".to_string(), 37, true, 20, 1, 10);
    assert_eq!(refused.err(), Some(ConfigError::NoGreenNeedsEvenSize));
    let refused = simulate_random_player("Player0".to_string(), 0, true, 20, 1, 10);
    assert_eq!(refused.err(), Some(ConfigError::EmptyWheel));
}
