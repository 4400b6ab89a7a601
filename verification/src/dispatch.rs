//! The course of a run: chunks of input come in, one after the other, and
//! for each of them it is decided what is to be done.
//!
//! Reading the input and running or printing a command are left to the
//! caller. The caller reads a chunk up to and including the next delimiter,
//! hands it to [`Dispatcher::step`], does what the answer says and goes on
//! until the answer is to finish.

use crate::run::{command_line_of, Options, Rargs, RargsView};
use vstd::prelude::*;
use vstd::utf8::{decode_utf8, valid_utf8};

verus! {

/// The byte that ends a line.
pub const LINE_FEED: u8 = 10;

/// The byte that may stand before the line feed at the end of a line.
pub const CARRIAGE_RETURN: u8 = 13;

/// The byte that ends a chunk where the input is delimited by NUL bytes.
pub const NUL: u8 = 0;

/// A chunk without the delimiter at its end: without a carriage return and a
/// line feed, or else without a line feed or a NUL byte.
pub open spec fn stripped(chunk: Seq<u8>) -> Seq<u8> {
    let len = chunk.len() as int;
    if len >= 2 && chunk[len - 2] == CARRIAGE_RETURN && chunk[len - 1] == LINE_FEED {
        chunk.take(len - 2)
    } else if len >= 1 && (chunk[len - 1] == LINE_FEED || chunk[len - 1] == NUL) {
        chunk.take(len - 1)
    } else {
        chunk
    }
}

/// Takes the delimiter off the end of a chunk.
pub fn strip_line_ending(buffer: &mut Vec<u8>)
    ensures
        final(buffer)@ == stripped(old(buffer)@),
{
    let len: usize = buffer.len();
    if len >= 2 && buffer[len - 2] == CARRIAGE_RETURN && buffer[len - 1] == LINE_FEED {
        buffer.pop();
        buffer.pop();
    } else if len >= 1 && (buffer[len - 1] == LINE_FEED || buffer[len - 1] == NUL) {
        buffer.pop();
    }
}

/// `String::from_utf8`: the text that the bytes encode, where they are
/// valid UTF-8, and nothing where they are not.
#[verifier::external_body]
fn decode(bytes: Vec<u8>) -> (text: Option<String>)
    ensures
        text is Some <==> valid_utf8(bytes@),
        text matches Some(text) ==> text@ == decode_utf8(bytes@),
{
    String::from_utf8(bytes).ok()
}

/// `num_cpus::get`: the number of processors at hand, which is at least 1.
#[verifier::external_body]
fn available_cpus() -> (count: usize)
    ensures
        count >= 1,
{
    num_cpus::get()
}

/// The number of threads of a run: the one asked for, if it is not 0; else
/// the one asked for under the old name, if none was asked for under the new
/// one and it is not 0; else the number of processors.
pub open spec fn threads_of(threads: Option<usize>, worker: Option<usize>, available: usize) -> usize {
    match (threads, worker) {
        (Some(n), _) if n > 0 => n,
        (None, Some(n)) if n > 0 => n,
        _ => available,
    }
}

/// The number of threads of a run on a machine with `available` processors.
pub fn choose_threads(threads: Option<usize>, worker: Option<usize>, available: usize) -> (count:
    usize)
    ensures
        count == threads_of(threads, worker, available),
{
    match (threads, worker) {
        (Some(n), _) if n > 0 => n,
        (None, Some(n)) if n > 0 => n,
        _ => available,
    }
}

/// The number of threads of a run on this machine. It is never 0.
pub fn num_threads(opts: &Options) -> (count: usize)
    ensures
        count >= 1,
        exists|available: usize| available >= 1 && count == threads_of(opts.threads, opts.worker, available),
{
    let available = available_cpus();
    choose_threads(opts.threads, opts.worker, available)
}

/// How far a run has come.
#[derive(Debug, Clone, Copy, PartialEq, Eq, Structural)]
pub enum Phase {
    /// More input is awaited.
    Reading,
    /// The input has come to its end.
    Done,
    /// The input could not be read, or was no text.
    Failed,
}

/// What reading the input gave.
#[derive(Debug, PartialEq, Eq)]
pub enum Input {
    /// The bytes up to and including the next delimiter, or up to the end of
    /// the input where no delimiter follows.
    Chunk(Vec<u8>),
    /// The end of the input.
    End,
    /// A failure to read.
    Error,
}

/// What is to be done next.
#[derive(Debug, PartialEq, Eq)]
pub enum Action {
    /// Run the command for this line, which has this number.
    Execute(String, i32),
    /// Print this text: the command as it would be run.
    Print(String),
    /// Wait for the commands that run and leave with this status.
    Finish(i32),
}

/// An action as plain values.
pub enum ActionView {
    /// Run the command for this line, which has this number.
    Execute(Seq<char>, i32),
    /// Print this text.
    Print(Seq<char>),
    /// Leave with this status.
    Finish(i32),
}

impl View for Action {
    type V = ActionView;

    open spec fn view(&self) -> ActionView {
        match self {
            Action::Execute(line, line_num) => ActionView::Execute(line@, *line_num),
            Action::Print(text) => ActionView::Print(text@),
            Action::Finish(status) => ActionView::Finish(*status),
        }
    }
}

/// The state of a run between two chunks of input.
#[derive(Debug, Clone, Copy, PartialEq, Eq, Structural)]
pub struct Dispatcher {
    /// Whether commands are printed and not run.
    pub dry_run: bool,
    /// The byte that ends a chunk.
    pub delimiter: u8,
    /// The number of the next line.
    pub line_num: i32,
    /// How far the run has come.
    pub phase: Phase,
}

/// The number of the line after line `line_num`. After the largest number
/// the count goes on with the smallest.
pub open spec fn following(line_num: i32) -> i32 {
    if line_num == i32::MAX {
        i32::MIN
    } else {
        (line_num + 1) as i32
    }
}

/// The state at the start of the run that `opts` asks for.
pub open spec fn start_of(opts: Options) -> Dispatcher {
    Dispatcher {
        dry_run: opts.dryrun,
        delimiter: if opts.read0 {
            NUL
        } else {
            LINE_FEED
        },
        line_num: opts.startnum,
        phase: Phase::Reading,
    }
}

/// The state after `input` and what is to be done about it.
///
/// A run that is over stays over. The end of the input ends the run with
/// status 0, a failure to read with status 1. A chunk loses its delimiter;
/// if what is left is no valid UTF-8 the run ends with status 1, else it is
/// a line and takes the next number. The command for a line is printed in a
/// dry run and is to be run otherwise.
pub open spec fn advance(state: Dispatcher, run: RargsView, input: Input) -> (Dispatcher, ActionView) {
    match state.phase {
        Phase::Done => (state, ActionView::Finish(0)),
        Phase::Failed => (state, ActionView::Finish(1)),
        Phase::Reading => match input {
            Input::End => (Dispatcher { phase: Phase::Done, ..state }, ActionView::Finish(0)),
            Input::Error => (Dispatcher { phase: Phase::Failed, ..state }, ActionView::Finish(1)),
            Input::Chunk(chunk) => {
                let bytes = stripped(chunk@);
                if valid_utf8(bytes) {
                    let line = decode_utf8(bytes);
                    let next = Dispatcher { line_num: following(state.line_num), ..state };
                    if state.dry_run {
                        (next, ActionView::Print(command_line_of(run, line, state.line_num as int)))
                    } else {
                        (next, ActionView::Execute(line, state.line_num))
                    }
                } else {
                    (Dispatcher { phase: Phase::Failed, ..state }, ActionView::Finish(1))
                }
            },
        },
    }
}

/// Whether `input` is a chunk that holds a line of text.
pub open spec fn is_line(input: Input) -> bool {
    input matches Input::Chunk(chunk) && valid_utf8(stripped(chunk@))
}

/// The state after all of `inputs`, one after the other.
pub open spec fn advance_all(state: Dispatcher, run: RargsView, inputs: Seq<Input>) -> Dispatcher
    decreases inputs.len(),
{
    if inputs.len() == 0 {
        state
    } else {
        advance(advance_all(state, run, inputs.drop_last()), run, inputs.last()).0
    }
}

/// Lines are numbered in the order in which they come in: after `n` lines
/// the run still reads, and the next line takes the number of the first
/// plus `n`.
pub proof fn law_lines_are_numbered_in_order(state: Dispatcher, run: RargsView, inputs: Seq<Input>)
    requires
        state.phase == Phase::Reading,
        forall|k: int| 0 <= k < inputs.len() ==> is_line(#[trigger] inputs[k]),
        state.line_num + inputs.len() <= i32::MAX,
    ensures
        advance_all(state, run, inputs) == (Dispatcher {
            line_num: (state.line_num + inputs.len()) as i32,
            ..state
        }),
    decreases inputs.len(),
{
    if inputs.len() > 0 {
        let earlier = inputs.drop_last();
        assert forall|k: int| 0 <= k < earlier.len() implies is_line(#[trigger] earlier[k]) by {
            assert(earlier[k] == inputs[k]);
        }
        law_lines_are_numbered_in_order(state, run, earlier);
        assert(is_line(inputs[inputs.len() - 1]));
    }
}

/// A run that is over stays over, with the status it ended with.
pub proof fn law_finished_run_stays_finished(state: Dispatcher, run: RargsView, input: Input)
    requires
        state.phase != Phase::Reading,
    ensures
        advance(state, run, input).0 == state,
        advance(state, run, input).1 == ActionView::Finish(
            if state.phase == Phase::Done {
                0i32
            } else {
                1i32
            },
        ),
{
}

impl Dispatcher {
    /// The state at the start of a run.
    pub fn new(opts: &Options) -> (state: Self)
        ensures
            state == start_of(*opts),
    {
        Dispatcher {
            dry_run: opts.dryrun,
            delimiter: if opts.read0 {
                NUL
            } else {
                LINE_FEED
            },
            line_num: opts.startnum,
            phase: Phase::Reading,
        }
    }

    /// Takes what reading the input gave and says what is to be done.
    pub fn step(&mut self, rargs: &Rargs, input: Input) -> (action: Action)
        ensures
            (*final(self), action@) == advance(*old(self), rargs@, input),
    {
        match self.phase {
            Phase::Done => Action::Finish(0),
            Phase::Failed => Action::Finish(1),
            Phase::Reading => match input {
                Input::End => {
                    self.phase = Phase::Done;
                    Action::Finish(0)
                },
                Input::Error => {
                    self.phase = Phase::Failed;
                    Action::Finish(1)
                },
                Input::Chunk(chunk) => {
                    let mut buffer = chunk;
                    strip_line_ending(&mut buffer);
                    match decode(buffer) {
                        Some(line) => {
                            let line_num = self.line_num;
                            self.line_num = line_num.wrapping_add(1);
                            if self.dry_run {
                                Action::Print(rargs.command_line(line.as_str(), line_num))
                            } else {
                                Action::Execute(line, line_num)
                            }
                        },
                        None => {
                            self.phase = Phase::Failed;
                            Action::Finish(1)
                        },
                    }
                },
            },
        }
    }
}

} // verus!
