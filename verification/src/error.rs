//! The errors of the simulator.

use vstd::prelude::*;
use vstd::std_specs::convert::FromSpecImpl;
use vstd::string::to_string_from_display_ensures;

verus! {

/// `std::io::Error`, the error of an input or output operation. Nothing is
/// known of what such a value holds: it is only carried along.
#[verifier::external_type_specification]
#[verifier::external_body]
pub struct ExIoError(std::io::Error);

/// Why a run was given up.
#[derive(Debug)]
pub enum TuringMachineError {
    /// A line of the program does not hold the five tokens of a rule.
    Parse(String),
    /// A token is not one of the values that are accepted in its place.
    Transformation(String),
    /// The command line does not name what is needed.
    Args(String),
    /// Reading or writing failed.
    Io(std::io::Error),
}

/// An error with its text as a sequence of characters.
pub enum Failure {
    Parse(Seq<char>),
    Transformation(Seq<char>),
    Args(Seq<char>),
    Io(std::io::Error),
}

impl View for TuringMachineError {
    type V = Failure;

    open spec fn view(&self) -> Failure {
        match self {
            TuringMachineError::Parse(s) => Failure::Parse(s@),
            TuringMachineError::Transformation(s) => Failure::Transformation(s@),
            TuringMachineError::Args(s) => Failure::Args(s@),
            TuringMachineError::Io(e) => Failure::Io(*e),
        }
    }
}

impl From<std::io::Error> for TuringMachineError {
    fn from(v: std::io::Error) -> (r: Self) {
        Self::Io(v)
    }
}

impl FromSpecImpl<std::io::Error> for TuringMachineError {
    open spec fn obeys_from_spec() -> bool {
        true
    }

    open spec fn from_spec(v: std::io::Error) -> Self {
        Self::Io(v)
    }
}

impl TuringMachineError {
    /// The text that describes the error: the one it was made with, or for
    /// an input or output error the one that the error itself displays.
    pub fn message(&self) -> (r: String)
        ensures
            match self@ {
                Failure::Parse(m) | Failure::Transformation(m) | Failure::Args(m) => r@ == m,
                Failure::Io(e) => to_string_from_display_ensures::<std::io::Error>(&e, r),
            },
    {
        match self {
            Self::Parse(s) | Self::Transformation(s) | Self::Args(s) => s.clone(),
            Self::Io(e) => e.to_string(),
        }
    }
}

} // verus!
