//! The colours of the wheel and the ways a configuration can be wrong.

use vstd::prelude::*;

verus! {

/// The colour of one position of the wheel.
#[allow(non_camel_case_types)]
#[derive(Debug, Clone, Copy, PartialEq, Eq, Structural)]
pub enum RouletteColor {
    RED,
    BLACK,
    GREEN,
}

/// Why a wheel or an outcome source cannot be built.
#[derive(Debug, Clone, Copy, PartialEq, Eq, Structural)]
pub enum ConfigError {
    /// A wheel with the green position has an odd size.
    GreenNeedsOddSize,
    /// A wheel without the green position has an even size.
    NoGreenNeedsEvenSize,
    /// A wheel has at least one position.
    EmptyWheel,
    /// A fixed sequence of outcomes has at least one element.
    EmptySequence,
}

impl ConfigError {
    /// The message that belongs to the error.
    pub fn message(&self) -> (r: &'static str)
        ensures
            r@ == config_error_text(*self),
    {
        match self {
            ConfigError::GreenNeedsOddSize => "Size must be odd if you want the GREEN piece",
            ConfigError::NoGreenNeedsEvenSize => "Size must be even if you don't want the GREEN piece",
            ConfigError::EmptyWheel => "Size must be at least 1",
            ConfigError::EmptySequence => "Needs to have a sequence of at least 1 item",
        }
    }
}

/// The text of each error.
pub open spec fn config_error_text(e: ConfigError) -> Seq<char> {
    match e {
        ConfigError::GreenNeedsOddSize => "Size must be odd if you want the GREEN piece"@,
        ConfigError::NoGreenNeedsEvenSize => "Size must be even if you don't want the GREEN piece"@,
        ConfigError::EmptyWheel => "Size must be at least 1"@,
        ConfigError::EmptySequence => "Needs to have a sequence of at least 1 item"@,
    }
}

} // verus!
