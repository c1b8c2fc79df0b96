use rand::thread_rng;
use roulette_simulation::enums::ConfigError;
use roulette_simulation::enums::RouletteColor;
use roulette_simulation::roulette::check_wheel;
use roulette_simulation::roulette::BiasedRouletteChoser;
use roulette_simulation::roulette::Roulette;
use roulette_simulation::roulette::RouletteChooser;

fn count(colors: &Vec<RouletteColor>, c: RouletteColor) -> usize {
    colors.iter().filter(|x| **x == c).count()
}

fn fixed(sequence: Vec<RouletteColor>) -> BiasedRouletteChoser {
    BiasedRouletteChoser::new(sequence).unwrap()
}

#[test]
fn odd_wheel_has_one_green_and_equal_halves() {
    for size in [1usize, 3, 5, 37, 101] {
        let wheel = Roulette::new(size, false, fixed(vec![RouletteColor::RED])).unwrap();
        let colors = wheel.colors();
        assert_eq!(colors.len(), size);
        assert_eq!(count(colors, RouletteColor::GREEN), 1);
        assert_eq!(count(colors, RouletteColor::RED), (size - 1) / 2);
        assert_eq!(count(colors, RouletteColor::BLACK), (size - 1) / 2);
    }
}

#[test]
fn even_wheel_has_no_green_and_equal_halves() {
    for size in [2usize, 4, 36, 100] {
        let wheel = Roulette::new(size, true, fixed(vec![RouletteColor::RED])).unwrap();
        let colors = wheel.colors();
        assert_eq!(colors.len(), size);
        assert_eq!(count(colors, RouletteColor::GREEN), 0);
        assert_eq!(count(colors, RouletteColor::RED), size / 2);
        assert_eq!(count(colors, RouletteColor::BLACK), size / 2);
    }
}

#[test]
fn wheel_of_five_is_laid_out_in_order() {
    let wheel = Roulette::new(5, false, fixed(vec![RouletteColor::RED])).unwrap();
    assert_eq!(
        wheel.colors(),
        &vec![
            RouletteColor::BLACK,
            RouletteColor::RED,
            RouletteColor::BLACK,
            RouletteColor::RED,
            RouletteColor::GREEN,
        ]
    );
    let wheel = Roulette::new(4, true, fixed(vec![RouletteColor::RED])).unwrap();
    assert_eq!(
        wheel.colors(),
        &vec![
            RouletteColor::BLACK,
            RouletteColor::RED,
            RouletteColor::BLACK,
            RouletteColor::RED,
        ]
    );
}

#[test]
fn mismatched_wheel_is_refused() {
    let even_with_green = Roulette::new(36, false, fixed(vec![RouletteColor::RED]));
    assert_eq!(even_with_green.err(), Some(ConfigError::GreenNeedsOddSize));
    let odd_without_green = Roulette::new(37, true, fixed(vec![RouletteColor::RED]));
    assert_eq!(odd_without_green.err(), Some(ConfigError::NoGreenNeedsEvenSize));
    let nothing_with_green = Roulette::new(0, false, fixed(vec![RouletteColor::RED]));
    assert_eq!(nothing_with_green.err(), Some(ConfigError::GreenNeedsOddSize));
}

#[test]
fn empty_wheel_is_refused() {
    let wheel = Roulette::new(0, true, fixed(vec![RouletteColor::RED]));
    assert_eq!(wheel.err(), Some(ConfigError::EmptyWheel));
}

#[test]
fn check_wheel_agrees_with_the_constructor() {
    assert_eq!(check_wheel(37, false), None);
    assert_eq!(check_wheel(36, true), None);
    assert_eq!(check_wheel(36, false), Some(ConfigError::GreenNeedsOddSize));
    assert_eq!(check_wheel(37, true), Some(ConfigError::NoGreenNeedsEvenSize));
    assert_eq!(check_wheel(0, true), Some(ConfigError::EmptyWheel));
}

#[test]
fn empty_sequence_is_refused() {
    assert_eq!(BiasedRouletteChoser::new(Vec::new()).err(), Some(ConfigError::EmptySequence));
}

#[test]
fn error_messages_differ() {
    assert_eq!(
        ConfigError::EmptySequence.message(),
        "Needs to have a sequence of at least 1 item"
    );
    assert_eq!(
        ConfigError::GreenNeedsOddSize.message(),
        "Size must be odd if you want the GREEN piece"
    );
    assert_eq!(
        ConfigError::NoGreenNeedsEvenSize.message(),
        "Size must be even if you don't want the GREEN piece"
    );
    assert_eq!(ConfigError::EmptyWheel.message(), "Size must be at least 1");
}

#[test]
fn fixed_source_wraps_round() {
    let sequence = vec![RouletteColor::RED, RouletteColor::BLACK, RouletteColor::GREEN];
    let mut wheel = Roulette::new(37, false, fixed(sequence.clone())).unwrap();
    for i in 0..10usize {
        assert_eq!(wheel.play(), sequence[i % 3]);
    }
    assert_eq!(wheel.colors().len(), 37);
}

#[test]
fn fixed_source_ignores_the_positions() {
    let mut source = fixed(vec![RouletteColor::GREEN]);
    let positions = vec![RouletteColor::BLACK, RouletteColor::RED];
    assert_eq!(source.play(&positions), RouletteColor::GREEN);
    assert_eq!(source.play(&positions), RouletteColor::GREEN);
}

#[test]
fn random_source_draws_positions_of_the_wheel() {
    let mut wheel = Roulette::new(2, true, thread_rng()).unwrap();
    let mut seen_black = false;
    let mut seen_red = false;
    for _ in 0..400 {
        match wheel.play() {
            RouletteColor::BLACK => seen_black = true,
            RouletteColor::RED => seen_red = true,
            RouletteColor::GREEN => panic!("a wheel without green gave green"),
        }
    }
    assert!(seen_black && seen_red);
}

#[test]
fn random_source_on_a_single_position() {
    let mut wheel = Roulette::new(1, false, thread_rng()).unwrap();
    for _ in 0..20 {
        assert_eq!(wheel.play(), RouletteColor::GREEN);
    }
}
