//! Serving one connection: read the request line, resolve its path, read the
//! file behind it and answer.
//!
//! Reading the socket and the file system is the caller's part. The decisions
//! are made here, one step at a time: the caller reports what its last
//! operation brought as an [`Event`] and is told what to do next as an
//! [`Action`], until the exchange is [`Stage::Finished`].

use crate::request::{parse_request_line, Request};
use crate::response::{respond, response_text, Status};
use crate::routes::App;
use vstd::prelude::*;
use vstd::string::*;

verus! {

/// The page that is served, with status 404, where no other can be.
pub const NOT_FOUND_PAGE: &'static str = "./pages/404.html";

/// How far the exchange on one connection has come.
#[derive(Debug, Clone, Copy, PartialEq, Eq, Structural)]
pub enum Stage {
    /// Nothing was read yet; the first line of the request is awaited.
    AwaitingLine,
    /// The file registered for the request path is being read.
    AwaitingResource,
    /// The not-found page is being read.
    AwaitingFallback,
    /// The connection was answered or given up; it is to be closed.
    Finished,
}

/// What the caller's last operation brought.
#[derive(Debug, PartialEq, Eq)]
pub enum Event {
    /// The first line of the request, without its line terminator.
    Line(String),
    /// The stream ended or failed before a full line arrived.
    NoLine,
    /// The contents of the file that was asked for.
    Contents(String),
    /// The file that was asked for could not be read.
    ReadFailed,
}

/// What the caller is to do next.
#[derive(Debug, PartialEq, Eq)]
pub enum Action {
    /// Read the file at this path, then report `Contents` or `ReadFailed`.
    ReadFile(String),
    /// Write this response, then close the connection.
    Respond(String),
    /// Close the connection without writing anything.
    Close,
}

/// An [`Action`] with its texts as plain character sequences.
pub ghost enum Instruction {
    ReadFile(Seq<char>),
    Respond(Seq<char>),
    Close,
}

impl View for Action {
    type V = Instruction;

    open spec fn view(&self) -> Instruction {
        match self {
            Action::ReadFile(path) => Instruction::ReadFile(path@),
            Action::Respond(response) => Instruction::Respond(response@),
            Action::Close => Instruction::Close,
        }
    }
}

/// The stage that follows `stage` on `event`, and what is to be done.
///
/// - A line that does not parse is answered with status 400 and no body.
/// - A line whose path is registered has the registered file read; any other
///   line has the not-found page read.
/// - The registered file, once read, is served with status 200; where it
///   cannot be read, the not-found page is read instead.
/// - The not-found page, once read, is served with status 404; where it
///   cannot be read, the answer is status 500 with no body.
/// - Without a line, and on any event that the stage does not wait for, the
///   connection is closed unanswered.
pub open spec fn step(table: Map<Seq<char>, Seq<char>>, stage: Stage, event: Event) -> (
    Stage,
    Instruction,
) {
    match (stage, event) {
        (Stage::AwaitingLine, Event::Line(line)) => match parse_request_line(line@) {
            None => (
                Stage::Finished,
                Instruction::Respond(response_text(Status::BadRequest, Seq::empty())),
            ),
            Some(request) => if table.contains_key(request.path) {
                (Stage::AwaitingResource, Instruction::ReadFile(table[request.path]))
            } else {
                (Stage::AwaitingFallback, Instruction::ReadFile(NOT_FOUND_PAGE@))
            },
        },
        (Stage::AwaitingResource, Event::Contents(body)) => (
            Stage::Finished,
            Instruction::Respond(response_text(Status::Success, body@)),
        ),
        (Stage::AwaitingResource, Event::ReadFailed) => (
            Stage::AwaitingFallback,
            Instruction::ReadFile(NOT_FOUND_PAGE@),
        ),
        (Stage::AwaitingFallback, Event::Contents(body)) => (
            Stage::Finished,
            Instruction::Respond(response_text(Status::NotFound, body@)),
        ),
        (Stage::AwaitingFallback, Event::ReadFailed) => (
            Stage::Finished,
            Instruction::Respond(response_text(Status::InternalServerError, Seq::empty())),
        ),
        _ => (Stage::Finished, Instruction::Close),
    }
}

/// How many more events an exchange in this stage can take at most.
pub open spec fn events_left(stage: Stage) -> nat {
    match stage {
        Stage::AwaitingLine => 3,
        Stage::AwaitingResource => 2,
        Stage::AwaitingFallback => 1,
        Stage::Finished => 0,
    }
}

/// Every exchange ends: each step brings it nearer to `Finished`, where it
/// stays. The caller is asked to read a file exactly while the exchange
/// goes on, and is told to answer or to close exactly when it is over.
pub proof fn lemma_exchange_progresses(
    table: Map<Seq<char>, Seq<char>>,
    stage: Stage,
    event: Event,
)
    ensures
        stage != Stage::Finished ==> events_left(step(table, stage, event).0) < events_left(stage),
        stage == Stage::Finished ==> step(table, stage, event) == (
            Stage::Finished,
            Instruction::Close,
        ),
        step(table, stage, event).1 is ReadFile <==> step(table, stage, event).0
            != Stage::Finished,
{
}

/// The event by which the caller reports what reading a file brought.
pub open spec fn read_event(outcome: Option<String>) -> Event {
    match outcome {
        Some(contents) => Event::Contents(contents),
        None => Event::ReadFailed,
    }
}

/// The last instruction of an exchange that goes on from `stage` with
/// `event`, where `read` says what reading each file brings and the caller
/// follows at most `reads` instructions to read one.
pub open spec fn last_instruction(
    table: Map<Seq<char>, Seq<char>>,
    stage: Stage,
    event: Event,
    read: spec_fn(Seq<char>) -> Option<String>,
    reads: nat,
) -> Instruction
    decreases reads,
{
    let (next, instruction) = step(table, stage, event);
    match instruction {
        Instruction::ReadFile(path) => if reads > 0 {
            last_instruction(table, next, read_event(read(path)), read, (reads - 1) as nat)
        } else {
            instruction
        },
        _ => instruction,
    }
}

/// What a request line is answered with in the end, where `read` says what
/// reading each file brings: status 400 for a line that does not parse;
/// the registered file with status 200 where the path is registered and its
/// file can be read; else the not-found page with status 404; and status
/// 500 with no body where that page cannot be read either.
pub open spec fn answer(
    table: Map<Seq<char>, Seq<char>>,
    line: Seq<char>,
    read: spec_fn(Seq<char>) -> Option<String>,
) -> Seq<char> {
    match parse_request_line(line) {
        None => response_text(Status::BadRequest, Seq::empty()),
        Some(request) => if table.contains_key(request.path) && read(
            table[request.path],
        ) is Some {
            response_text(Status::Success, read(table[request.path])->0@)
        } else if read(NOT_FOUND_PAGE@) is Some {
            response_text(Status::NotFound, read(NOT_FOUND_PAGE@)->0@)
        } else {
            response_text(Status::InternalServerError, Seq::empty())
        },
    }
}

/// An exchange that starts with a request line ends, after two file reads
/// at most, in the response that `answer` describes.
pub proof fn lemma_exchange_answers(
    table: Map<Seq<char>, Seq<char>>,
    line: String,
    read: spec_fn(Seq<char>) -> Option<String>,
)
    ensures
        last_instruction(table, Stage::AwaitingLine, Event::Line(line), read, 2)
            == Instruction::Respond(answer(table, line@, read)),
{
    reveal_with_fuel(last_instruction, 3);
}

/// An exchange on a connection that brings no line ends at once, unanswered.
pub proof fn lemma_no_line_closes(
    table: Map<Seq<char>, Seq<char>>,
    read: spec_fn(Seq<char>) -> Option<String>,
    reads: nat,
)
    ensures
        last_instruction(table, Stage::AwaitingLine, Event::NoLine, read, reads)
            == Instruction::Close,
{
}

impl App {
    /// Takes the exchange on one connection one step further: given the
    /// stage it is in and what the caller's last operation brought, returns
    /// the next stage and what the caller is to do.
    pub fn handle_request(&self, stage: Stage, event: Event) -> (next: (Stage, Action))
        ensures
            next.0 == step(self@, stage, event).0,
            next.1@ == step(self@, stage, event).1,
    {
        proof {
            reveal_strlit("");
            assert(""@ == Seq::<char>::empty());
        }
        match (stage, event) {
            (Stage::AwaitingLine, Event::Line(line)) => {
                match Request::new(line.as_str()) {
                    Err(_) => (Stage::Finished, Action::Respond(respond(Status::BadRequest, ""))),
                    Ok(request) => match self.resolve(request.path) {
                        Some(file) => (
                            Stage::AwaitingResource,
                            Action::ReadFile(String::from_str(file)),
                        ),
                        None => (
                            Stage::AwaitingFallback,
                            Action::ReadFile(String::from_str(NOT_FOUND_PAGE)),
                        ),
                    },
                }
            },
            (Stage::AwaitingResource, Event::Contents(body)) => (
                Stage::Finished,
                Action::Respond(respond(Status::Success, body.as_str())),
            ),
            (Stage::AwaitingResource, Event::ReadFailed) => (
                Stage::AwaitingFallback,
                Action::ReadFile(String::from_str(NOT_FOUND_PAGE)),
            ),
            (Stage::AwaitingFallback, Event::Contents(body)) => (
                Stage::Finished,
                Action::Respond(respond(Status::NotFound, body.as_str())),
            ),
            (Stage::AwaitingFallback, Event::ReadFailed) => (
                Stage::Finished,
                Action::Respond(respond(Status::InternalServerError, "")),
            ),
            _ => (Stage::Finished, Action::Close),
        }
    }
}

} // verus!
