//! What setting up the logger decides: where lines go, which severities pass
//! by default, and whether filter directives from the environment apply.

use log::LevelFilter;
use vstd::prelude::*;

verus! {

/// `log::LevelFilter`, read by Verus as the crate defines it: `Off` and one
/// variant for each severity.
#[verifier::external_type_specification]
pub struct ExLevelFilter(LevelFilter);

/// The environment variable that holds the filter directives.
pub const FILTER_VARIABLE: &'static str = "RUST_LOG";

/// The stream that log lines are written to.
#[derive(Clone, Copy, Debug, PartialEq, Eq, Structural)]
pub enum Stream {
    Stdout,
    Stderr,
}

/// The settings that the logger is installed with.
pub struct LoggerSetup {
    /// Where lines are written.
    pub target: Stream,
    /// The least severe level that passes where no directive says otherwise.
    pub default_level: LevelFilter,
    /// Filter directives to parse on top of the default, if any.
    pub directives: Option<String>,
}

/// The directives that a filter variable asks for: its value, unless the
/// variable is unset or empty.
pub open spec fn directives_of(filter_var: Option<Seq<char>>) -> Option<Seq<char>> {
    match filter_var {
        Some(value) => if value.len() > 0 {
            Some(value)
        } else {
            None
        },
        None => None,
    }
}

impl LoggerSetup {
    /// The directives as text.
    pub open spec fn directive_text(self) -> Option<Seq<char>> {
        match self.directives {
            Some(value) => Some(value@),
            None => None,
        }
    }
}

/// Decides the logger's settings from the value of the filter variable, as
/// read once at start-up: lines go to standard output, `Info` and above pass,
/// and a value that is set and not empty is taken as filter directives.
pub fn init_logger(filter_var: Option<String>) -> (setup: LoggerSetup)
    ensures
        setup.target == Stream::Stdout,
        setup.default_level == LevelFilter::Info,
        setup.directive_text() == directives_of(
            match filter_var {
                Some(value) => Some(value@),
                None => None,
            },
        ),
{
    let directives = match filter_var {
        Some(value) => if value.as_str().is_empty() {
            None
        } else {
            Some(value)
        },
        None => None,
    };
    LoggerSetup { target: Stream::Stdout, default_level: LevelFilter::Info, directives }
}

} // verus!
