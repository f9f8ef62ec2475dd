//! The decisions of a query dispatch. The caller performs each step (dial
//! a connection, send an envelope, read a response) and reports what
//! happened; the dispatcher answers with the next step.

use vstd::prelude::*;
use crate::protocol::{spec_is_retryable, is_retryable, QueryType, ReqlError, ResponseType};

verus! {

/// The state of one connection: its stream, the last token it issued and
/// whether an I/O failure has broken it.
#[derive(Debug)]
pub struct Connection<S> {
    pub stream: S,
    pub token: u64,
    pub broken: bool,
}

impl<S> Connection<S> {
    pub open spec fn spec_token(&self) -> u64 {
        self.token
    }

    pub open spec fn spec_broken(&self) -> bool {
        self.broken
    }

    /// A connection over a freshly authenticated stream.
    pub fn new(stream: S) -> (c: Connection<S>)
        ensures
            c.stream == stream,
            c.spec_token() == 0,
            !c.spec_broken(),
    {
        Connection { stream, token: 0, broken: false }
    }

    pub fn token(&self) -> (t: u64)
        ensures
            t == self.spec_token(),
    {
        self.token
    }

    pub fn set_token(&mut self, t: u64)
        ensures
            final(self).spec_token() == t,
            final(self).spec_broken() == old(self).spec_broken(),
            final(self).stream == old(self).stream,
    {
        self.token = t;
    }

    pub fn broken(&self) -> (b: bool)
        ensures
            b == self.spec_broken(),
    {
        self.broken
    }

    pub fn set_boken(&mut self, b: bool)
        ensures
            final(self).spec_broken() == b,
            final(self).spec_token() == old(self).spec_token(),
            final(self).stream == old(self).stream,
    {
        self.broken = b;
    }

    /// A fresh token for a new query: one more than the last, so tokens on
    /// one connection are unique and increasing. None once they run out.
    pub fn next_token(&mut self) -> (t: Option<u64>)
        ensures
            old(self).spec_token() == u64::MAX ==> t is None && *final(self) == *old(self),
            old(self).spec_token() < u64::MAX ==> t == Some((old(self).spec_token() + 1) as u64)
                && final(self).spec_token() == old(self).spec_token() + 1,
            final(self).spec_broken() == old(self).spec_broken(),
            final(self).stream == old(self).stream,
    {
        if self.token == u64::MAX {
            None
        } else {
            self.token = self.token + 1;
            Some(self.token)
        }
    }
}

/// What happened when the caller performed the last step.
#[derive(Debug)]
pub enum Event {
    /// A ready connection was obtained.
    Connected,
    /// No connection could be obtained.
    ConnectFailed(ReqlError),
    /// The envelope was written and flushed.
    Sent,
    /// Writing or flushing failed.
    SendFailed(ReqlError),
    /// Reading the response failed.
    ReadFailed(ReqlError),
    /// A response was read and classified; on success its rows have been
    /// handed to the result sink.
    Response(Result<ResponseType, ReqlError>),
    /// The receiving side of the result sink is gone.
    SinkClosed,
}

/// What the caller does next.
#[derive(Debug)]
pub enum Step {
    /// Obtain a new connection.
    Connect,
    /// Send an envelope of this type on the current connection: the
    /// query itself for `Start`, under a fresh token of that connection
    /// (`Connection::next_token`); the request for the next batch for
    /// `Continue`, under the token of the query it continues, which is how
    /// the server finds the cursor.
    Send(QueryType),
    /// Read the response.
    Read,
    /// The query is complete.
    Done,
    /// The query failed with this error.
    Fail(ReqlError),
    /// The caller stopped listening: give up without further retries.
    Abort,
}

/// The retry accounting of one dispatch.
#[derive(Debug, Clone, Copy, PartialEq, Eq, Structural)]
pub struct Dispatch {
    /// Retries allowed after the first attempt.
    pub budget: u8,
    /// Retries spent so far.
    pub used: u8,
}

impl Dispatch {
    pub open spec fn wf(self) -> bool {
        self.used <= self.budget
    }

    /// After a failure `e` that may be retried: a new connection while the
    /// budget lasts, else the failure itself.
    pub open spec fn spec_retry(self, e: ReqlError) -> (Dispatch, Step) {
        if self.used < self.budget {
            (Dispatch { used: (self.used + 1) as u8, ..self }, Step::Connect)
        } else {
            (self, Step::Fail(e))
        }
    }

    /// The next state and step after `ev`.
    pub open spec fn spec_next(self, ev: Event) -> (Dispatch, Step) {
        match ev {
            Event::Connected => (self, Step::Send(QueryType::Start)),
            Event::Sent => (self, Step::Read),
            Event::ConnectFailed(e) => self.spec_retry(e),
            Event::SendFailed(e) => self.spec_retry(e),
            Event::ReadFailed(e) => self.spec_retry(e),
            Event::Response(Ok(t)) => if t == ResponseType::SuccessPartial {
                (self, Step::Send(QueryType::Continue))
            } else {
                (self, Step::Done)
            },
            Event::Response(Err(e)) => if spec_is_retryable(e) {
                self.spec_retry(e)
            } else {
                (self, Step::Fail(e))
            },
            Event::SinkClosed => (self, Step::Abort),
        }
    }

    /// A dispatch that may retry `budget` times; its first step is to
    /// obtain a connection.
    pub fn new(budget: u8) -> (r: (Dispatch, Step))
        ensures
            r.0 == (Dispatch { budget, used: 0 }),
            r.1 is Connect,
    {
        (Dispatch { budget, used: 0 }, Step::Connect)
    }

    fn retry(&mut self, e: ReqlError) -> (s: Step)
        requires
            old(self).wf(),
        ensures
            (*final(self), s) == old(self).spec_retry(e),
    {
        if self.used < self.budget {
            self.used = self.used + 1;
            Step::Connect
        } else {
            Step::Fail(e)
        }
    }

    /// Decides the next step from what the last one produced.
    pub fn next(&mut self, ev: Event) -> (s: Step)
        requires
            old(self).wf(),
        ensures
            (*final(self), s) == old(self).spec_next(ev),
            final(self).wf(),
            final(self).budget == old(self).budget,
            old(self).used <= final(self).used <= old(self).used + 1,
    {
        match ev {
            Event::Connected => Step::Send(QueryType::Start),
            Event::Sent => Step::Read,
            Event::ConnectFailed(e) => self.retry(e),
            Event::SendFailed(e) => self.retry(e),
            Event::ReadFailed(e) => self.retry(e),
            Event::Response(Ok(t)) => {
                if t == ResponseType::SuccessPartial {
                    Step::Send(QueryType::Continue)
                } else {
                    Step::Done
                }
            },
            Event::Response(Err(e)) => {
                if is_retryable(&e) {
                    self.retry(e)
                } else {
                    Step::Fail(e)
                }
            },
            Event::SinkClosed => Step::Abort,
        }
    }
}

} // verus!
