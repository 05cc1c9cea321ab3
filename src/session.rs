//! The per-connection handler as a state machine: it is fed each outcome of a
//! line read and answers with what to do next.
use vstd::prelude::*;
use crate::message::{announcement, announcement_text, chat_line, chat_text, trim_end_of, trim_line_end};

verus! {

/// Where a connection stands.
pub enum Session {
    /// No line has been read yet; the first one names the client.
    AwaitingName,
    /// The client is known under `name`; each line is a chat line.
    Active { name: String },
    /// The input has ended or failed; nothing more is submitted.
    Closed,
}

/// The outcome of one attempt to read a line from the client.
pub enum ReadOutcome {
    /// A line, with its newline if the input had one.
    Line(String),
    /// The read returned no bytes: the client closed its side.
    EndOfStream,
    /// The read failed.
    Failed,
}

/// What the handler does after a read.
pub enum HandlerAction {
    /// Submit this message to the broadcaster, then read again.
    Submit(String),
    /// Stop reading: the connection has ended.
    Stop,
    /// Stop reading and report the failed read; only this connection ends.
    Abort,
}

/// The mathematical state of a session.
pub ghost enum Phase {
    AwaitingName,
    Active(Seq<char>),
    Closed,
}

/// The mathematical form of a handler action.
pub ghost enum Reaction {
    Submit(Seq<char>),
    Stop,
    Abort,
}

impl View for Session {
    type V = Phase;

    open spec fn view(&self) -> Phase {
        match self {
            Session::AwaitingName => Phase::AwaitingName,
            Session::Active { name } => Phase::Active(name@),
            Session::Closed => Phase::Closed,
        }
    }
}

impl View for HandlerAction {
    type V = Reaction;

    open spec fn view(&self) -> Reaction {
        match self {
            HandlerAction::Submit(m) => Reaction::Submit(m@),
            HandlerAction::Stop => Reaction::Stop,
            HandlerAction::Abort => Reaction::Abort,
        }
    }
}

/// The effect of reading `line` in phase `p`: the next phase and the message
/// submitted, if any.
pub open spec fn on_line(p: Phase, line: Seq<char>) -> (Phase, Option<Seq<char>>) {
    match p {
        Phase::AwaitingName => {
            let name = trim_end_of(line);
            (Phase::Active(name), Some(announcement_text(name)))
        },
        Phase::Active(name) => (p, Some(chat_text(name, line))),
        Phase::Closed => (p, None),
    }
}

/// The phase after reading `lines` in order, and the messages submitted on the
/// way, in order.
pub open spec fn feed(p: Phase, lines: Seq<Seq<char>>) -> (Phase, Seq<Seq<char>>)
    decreases lines.len(),
{
    if lines.len() == 0 {
        (p, Seq::empty())
    } else {
        let (q, sent) = feed(p, lines.drop_last());
        let (r, m) = on_line(q, lines.last());
        match m {
            Some(msg) => (r, sent.push(msg)),
            None => (r, sent),
        }
    }
}

impl Session {
    /// A session on a connection that has just been accepted.
    pub fn new() -> (r: Self)
        ensures
            r@ == Phase::AwaitingName,
    {
        Session::AwaitingName
    }

    /// The display name, once the client has given one.
    pub fn display_name(&self) -> (r: Option<&str>)
        ensures
            self@ is Active <==> r is Some,
            r matches Some(n) ==> self@ == Phase::Active(n@),
    {
        match self {
            Session::Active { name } => Some(name.as_str()),
            _ => None,
        }
    }

    /// Advances the session by one read outcome. A line yields the message to
    /// submit (the announcement for the first line, a chat line after it);
    /// the end of input stops the handler and a failed read aborts it, and
    /// either way the session is closed for good.
    pub fn step(&mut self, outcome: ReadOutcome) -> (r: HandlerAction)
        ensures
            outcome matches ReadOutcome::Line(l) ==> ({
                let (p, m) = on_line(old(self)@, l@);
                &&& final(self)@ == p
                &&& m matches Some(msg) ==> r@ == Reaction::Submit(msg)
                &&& m is None ==> r@ == Reaction::Stop
            }),
            outcome is EndOfStream ==> final(self)@ == Phase::Closed && r@ == Reaction::Stop,
            outcome is Failed ==> final(self)@ == Phase::Closed && r@ == Reaction::Abort,
    {
        match outcome {
            ReadOutcome::Line(line) => {
                match self {
                    Session::AwaitingName => {
                        let name = trim_line_end(line.as_str());
                        let notice = announcement(name.as_str());
                        *self = Session::Active { name };
                        HandlerAction::Submit(notice)
                    },
                    Session::Active { name } => HandlerAction::Submit(chat_line(name.as_str(), line.as_str())),
                    Session::Closed => HandlerAction::Stop,
                }
            },
            ReadOutcome::EndOfStream => {
                *self = Session::Closed;
                HandlerAction::Stop
            },
            ReadOutcome::Failed => {
                *self = Session::Closed;
                HandlerAction::Abort
            },
        }
    }
}

} // verus!
