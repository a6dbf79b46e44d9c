//! How much the program says while it works.
use vstd::prelude::*;

verus! {

/// How much is logged.
#[derive(Clone, Copy, Debug, PartialEq, Eq, Structural)]
pub enum Verbosity {
    Off,
    Error,
    Warn,
    Info,
    Debug,
    Trace,
}

/// Why the flags were refused.
#[derive(Clone, Copy, Debug, PartialEq, Eq, Structural)]
pub enum FlagError {
    /// The program was asked to say more and to say less at once.
    QuietAndVerbose,
}

/// The verbosity where neither more nor less was asked for.
pub const DEFAULT_LEVEL: u8 = 3;

/// The verbosity of a level: the levels from one to five name the kinds of
/// message from errors to traces, whatever lies below is silence and
/// whatever lies above is everything.
pub open spec fn level_of(level: int) -> Verbosity {
    if level <= 0 {
        Verbosity::Off
    } else if level == 1 {
        Verbosity::Error
    } else if level == 2 {
        Verbosity::Warn
    } else if level == 3 {
        Verbosity::Info
    } else if level == 4 {
        Verbosity::Debug
    } else {
        Verbosity::Trace
    }
}

/// Reads the two counts of flags: each `verbose` raises the level by one and
/// each `quiet` lowers it by one. Both at once are refused.
pub fn verbosity(verbose: usize, quiet: usize) -> (level: Result<Verbosity, FlagError>)
    ensures
        level is Err == (verbose != 0 && quiet != 0),
        level matches Ok(v) ==> v == level_of(DEFAULT_LEVEL + verbose - quiet),
        level matches Err(e) ==> e == FlagError::QuietAndVerbose,
{
    if verbose != 0 && quiet != 0 {
        return Err(FlagError::QuietAndVerbose);
    }
    if quiet >= 3 {
        Ok(Verbosity::Off)
    } else if quiet == 2 {
        Ok(Verbosity::Error)
    } else if quiet == 1 {
        Ok(Verbosity::Warn)
    } else if verbose == 0 {
        Ok(Verbosity::Info)
    } else if verbose == 1 {
        Ok(Verbosity::Debug)
    } else {
        Ok(Verbosity::Trace)
    }
}

} // verus!
