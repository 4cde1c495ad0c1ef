//! What a connection does with each line it reads, and how connections are
//! numbered.
use vstd::prelude::*;
use crate::engine::Command;
use crate::graphics_data::Graphic;

verus! {

/// The fate of one protocol line.
#[derive(Debug)]
pub enum LineOutcome {
    /// Hand the command to the engine.
    Submit(Command),
    /// The line did not parse: report it and read on.
    Malformed,
    /// Neither a drawable nor a deletion: warn and drop it.
    NoIntent,
}

/// Routes a parsed line (`None` when it did not parse) from connection
/// `client_id`: a graphic with a drawable, or with a time-to-live of exactly
/// zero, becomes a command; any other graphic carries no intent.
pub fn route_line(client_id: usize, parsed: Option<Graphic>) -> (r: LineOutcome)
    ensures
        match parsed {
            None => r is Malformed,
            Some(g) => if g.drawable is Some || g.ttl == 0 {
                r == LineOutcome::Submit(Command { client_id, graphic: g })
            } else {
                r is NoIntent
            },
        },
{
    match parsed {
        None => LineOutcome::Malformed,
        Some(graphic) => {
            if graphic.drawable.is_some() || graphic.ttl == 0 {
                LineOutcome::Submit(Command { client_id, graphic })
            } else {
                LineOutcome::NoIntent
            }
        },
    }
}

/// The number of the next accepted connection: one more, wrapping around.
pub fn next_client_id(current: usize) -> (r: usize)
    ensures
        r == (if current == usize::MAX { 0 } else { current + 1 }),
{
    if current == usize::MAX {
        0
    } else {
        current + 1
    }
}

} // verus!
