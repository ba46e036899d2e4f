use vstd::prelude::*;
use crate::model::{Block, Frame, StreamInfo};

verus! {

/// Which structural unit the parser expects next.
#[derive(Clone, Copy, Debug, PartialEq, Eq, Structural)]
pub enum ParserState {
    Marker,
    Metadata,
    Frame,
}

/// Position of a state in the order Marker, Metadata, Frame.
pub open spec fn rank(s: ParserState) -> int {
    match s {
        ParserState::Marker => 0,
        ParserState::Metadata => 1,
        ParserState::Frame => 2,
    }
}

/// What a grammar reports for one attempt at the front of a byte window.
#[derive(Clone, Debug)]
pub enum Parsed<T> {
    /// One unit was read from the first `usize` bytes of the window.
    Done(T, usize),
    /// The window ends before the unit does.
    Incomplete,
    /// The bytes are not a unit of this kind.
    Error,
}

/// Outcome of one step of the parser on a byte window.
#[derive(Clone, Copy, Debug, PartialEq, Eq, Structural)]
pub enum Step {
    /// A unit was consumed from the first `usize` bytes; continue with the rest.
    Progress(usize),
    /// The window is too short for the next unit.
    NeedMore,
    /// The bytes cannot be parsed.
    Failed,
}

/// What the driver does with the byte window after a parser step.
#[derive(Clone, Copy, Debug, PartialEq, Eq, Structural)]
pub enum Action {
    /// Drop the first `usize` bytes of the window and step again.
    Consume(usize),
    /// Make more bytes available and step again.
    Refill,
    /// Abandon the parse.
    Fail,
}

/// The driver's decision after a step: consume what a unit used, fetch more
/// bytes when the window was too short and the input goes on, fail otherwise.
pub open spec fn action_of(step: Step, at_end: bool) -> Action {
    match step {
        Step::Progress(n) => Action::Consume(n),
        Step::NeedMore => if at_end { Action::Fail } else { Action::Refill },
        Step::Failed => Action::Fail,
    }
}

/// Decides what the driver does after a step; `at_end` tells whether every
/// byte of the input is already available.
pub fn next_action(step: Step, at_end: bool) -> (a: Action)
    ensures
        a == action_of(step, at_end),
{
    match step {
        Step::Progress(n) => Action::Consume(n),
        Step::NeedMore => if at_end { Action::Fail } else { Action::Refill },
        Step::Failed => Action::Fail,
    }
}

/// The byte-level grammar of metadata block bodies and frames, supplied by
/// the caller. Nothing is assumed of what it returns: the parser checks that
/// a reported length lies within the window and that a frame fits the stream.
pub trait Grammar {
    /// Attempts one metadata block at the front of `input`.
    fn metadata_block(&self, input: &[u8]) -> Parsed<Block>;

    /// Attempts one frame at the front of `input`, for a stream with parameters `info`.
    fn frame(&self, input: &[u8], info: &StreamInfo) -> Parsed<Frame>;
}

/// The four bytes that open every stream: "fLaC".
pub open spec fn marker_bytes() -> Seq<u8> {
    seq![0x66u8, 0x4cu8, 0x61u8, 0x43u8]
}

/// Result of reading the stream marker at the front of `input`.
pub open spec fn marker_step(input: Seq<u8>) -> Step {
    if input.len() < 4 {
        Step::NeedMore
    } else if input.subrange(0, 4) == marker_bytes() {
        Step::Progress(4)
    } else {
        Step::Failed
    }
}

/// Reads the stream marker at the front of `input`.
pub fn parse_marker(input: &[u8]) -> (r: Step)
    ensures
        r == marker_step(input@),
{
    if input.len() < 4 {
        return Step::NeedMore;
    }
    let ok = input[0] == 0x66u8 && input[1] == 0x4cu8 && input[2] == 0x61u8 && input[3] == 0x43u8;
    if ok {
        assert(input@.subrange(0, 4) =~= marker_bytes());
        Step::Progress(4)
    } else {
        assert(input@.subrange(0, 4) != marker_bytes() || ok) by {
            if input@.subrange(0, 4) == marker_bytes() {
                assert(input@.subrange(0, 4)[0] == input@[0]);
                assert(input@.subrange(0, 4)[1] == input@[1]);
                assert(input@.subrange(0, 4)[2] == input@[2]);
                assert(input@.subrange(0, 4)[3] == input@[3]);
            }
        }
        Step::Failed
    }
}

} // verus!
