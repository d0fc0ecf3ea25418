//! The meaning of the options that the program is started with.
use vstd::prelude::*;
use vstd::string::*;
use crate::direction::Direction;
use crate::text::{parse_port, port_value, to_chars, trim, trim_end, trim_start};

verus! {

/// How much is logged.
#[derive(Debug, Clone, Copy, PartialEq, Eq, Structural)]
pub enum Level {
    /// Errors.
    Error,
    /// Warnings too.
    Warn,
    /// Messages too.
    Info,
    /// Details too.
    Debug,
    /// Everything.
    Trace,
}

/// The level for a number of verbosity flags: more flags never log less, and from four on
/// everything is logged.
pub open spec fn level_of(verbosity: nat) -> Level {
    if verbosity == 0 {
        Level::Error
    } else if verbosity == 1 {
        Level::Warn
    } else if verbosity == 2 {
        Level::Info
    } else if verbosity == 3 {
        Level::Debug
    } else {
        Level::Trace
    }
}

/// The level for a number of verbosity flags.
pub fn level(verbosity: u64) -> (level: Level)
    ensures
        level == level_of(verbosity as nat),
{
    match verbosity {
        0 => Level::Error,
        1 => Level::Warn,
        2 => Level::Info,
        3 => Level::Debug,
        _ => Level::Trace,
    }
}

/// The end of the tunnel for the name of a mode.
pub open spec fn direction_of(mode: Seq<char>) -> Option<Direction> {
    if mode == "ws_to_tcp"@ {
        Some(Direction::ServerSide)
    } else if mode == "tcp_to_ws"@ {
        Some(Direction::ClientSide)
    } else {
        None
    }
}

/// The end of the tunnel for the name of a mode.
pub fn direction(mode: &String) -> (dir: Option<Direction>)
    ensures
        dir == direction_of(mode@),
{
    if *mode == "ws_to_tcp".to_owned() {
        Some(Direction::ServerSide)
    } else if *mode == "tcp_to_ws".to_owned() {
        Some(Direction::ClientSide)
    } else {
        None
    }
}

/// The port of the status page, with or without white space around it.
pub fn stat_port(value: &str) -> (port: Option<u16>)
    ensures
        port == port_value(trim_end(trim_start(value@))),
{
    parse_port(trim(to_chars(value).as_slice()))
}

/// What the status page says to a name.
pub fn hello(name: &str) -> (text: String)
    ensures
        text@ == "Hello, "@ + name@ + "!"@,
{
    "Hello, ".to_owned().concat(name).concat("!")
}

// ---------------------------------------------------------------------------
// Laws
// ---------------------------------------------------------------------------

/// How verbose a level is.
pub open spec fn rank(level: Level) -> nat {
    match level {
        Level::Error => 0,
        Level::Warn => 1,
        Level::Info => 2,
        Level::Debug => 3,
        Level::Trace => 4,
    }
}

/// Adding verbosity flags never makes the output less verbose, and makes it more verbose
/// as long as there is a level left.
pub proof fn lemma_more_flags_log_more(fewer: nat, more: nat)
    requires
        fewer < more,
    ensures
        rank(level_of(fewer)) <= rank(level_of(more)),
        level_of(fewer) !is Trace ==> rank(level_of(fewer)) < rank(level_of(more)),
{
}

/// No flag logs errors alone, and each one adds a level up to the most verbose.
pub proof fn lemma_level(verbosity: nat)
    ensures
        verbosity == 0 ==> level_of(verbosity) is Error,
        verbosity == 1 ==> level_of(verbosity) is Warn,
        verbosity == 2 ==> level_of(verbosity) is Info,
        verbosity == 3 ==> level_of(verbosity) is Debug,
        verbosity >= 4 ==> level_of(verbosity) is Trace,
{
}

/// There are two modes, one for each end of the tunnel, and no other.
pub proof fn lemma_modes(mode: Seq<char>)
    ensures
        mode == seq!['w', 's', '_', 't', 'o', '_', 't', 'c', 'p'] <==> direction_of(mode) == Some(
            Direction::ServerSide,
        ),
        mode == seq!['t', 'c', 'p', '_', 't', 'o', '_', 'w', 's'] <==> direction_of(mode) == Some(
            Direction::ClientSide,
        ),
{
    reveal_strlit("ws_to_tcp");
    reveal_strlit("tcp_to_ws");
    let server = seq!['w', 's', '_', 't', 'o', '_', 't', 'c', 'p'];
    let client = seq!['t', 'c', 'p', '_', 't', 'o', '_', 'w', 's'];
    assert("ws_to_tcp"@ =~= server);
    assert("tcp_to_ws"@ =~= client);
    assert(server[0] != client[0]);
}

} // verus!
