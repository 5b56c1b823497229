use vstd::prelude::*;
use vstd::utf8::encode_utf8;

use crate::codec::{decode_request, spec_decode, DecodeError, Request};
use crate::task::TaskKind;

verus! {

/// The two states of a connection handler.
#[derive(Clone, Copy, Debug, PartialEq, Eq, Structural)]
pub enum ConnState {
    /// Waiting for the next line of the connection.
    Reading,
    /// Terminal: no further reads or writes.
    Closed,
}

/// What a read of the next line gave.
pub enum ReadEvent {
    /// The peer closed the stream: zero bytes were read.
    Eof,
    /// The read failed.
    Failed,
    /// A line, with its line terminator.
    Line(String),
}

/// What the handler does next.
#[derive(Clone, Copy, Debug, PartialEq, Eq, Structural)]
pub enum Action {
    /// Release the connection; the handler ends.
    Close,
    /// The line was rejected: write nothing and read the next line.
    ReadNext,
    /// Run an ordinary task, write its result byte, then read the next line.
    Run(Request),
    /// Pass the admission gate, run the CPU-intensive task, release the slot,
    /// write the result byte, then read the next line.
    RunGated(Request),
}

/// The action that runs a decoded request.
pub open spec fn run_action(req: Request) -> Action {
    if req.kind == TaskKind::CpuIntensive {
        Action::RunGated(req)
    } else {
        Action::Run(req)
    }
}

/// The handler's step on a line given as bytes.
pub open spec fn line_step(line: Seq<u8>) -> (ConnState, Action) {
    match spec_decode(line) {
        Err(_) => (ConnState::Reading, Action::ReadNext),
        Ok(req) => (ConnState::Reading, run_action(req)),
    }
}

/// The handler's step on a line given as bytes, from either state.
pub open spec fn step_of(state: ConnState, line: Seq<u8>) -> (ConnState, Action) {
    match state {
        ConnState::Closed => (ConnState::Closed, Action::Close),
        ConnState::Reading => line_step(line),
    }
}

impl ConnState {
    /// The handler's transition on the outcome of a read.
    pub fn on_read(self, ev: &ReadEvent) -> (r: (ConnState, Action))
        ensures
            self == ConnState::Closed ==> r == (ConnState::Closed, Action::Close),
            self == ConnState::Reading ==> match ev {
                ReadEvent::Eof => r == (ConnState::Closed, Action::Close),
                ReadEvent::Failed => r == (ConnState::Closed, Action::Close),
                ReadEvent::Line(l) => r == line_step(encode_utf8(l@)),
            },
            ev matches ReadEvent::Line(l) ==> r == step_of(self, encode_utf8(l@)),
    {
        match self {
            ConnState::Closed => (ConnState::Closed, Action::Close),
            ConnState::Reading => match ev {
                ReadEvent::Eof => (ConnState::Closed, Action::Close),
                ReadEvent::Failed => (ConnState::Closed, Action::Close),
                ReadEvent::Line(l) => match decode_request(l.as_str()) {
                    Err(_) => (ConnState::Reading, Action::ReadNext),
                    Ok(req) => {
                        if req.kind.is_cpu_intensive() {
                            (ConnState::Reading, Action::RunGated(req))
                        } else {
                            (ConnState::Reading, Action::Run(req))
                        }
                    },
                },
            },
        }
    }
}

/// The requests that a connection's lines yield, in the order of the lines:
/// rejected lines yield none.
pub open spec fn requests_of(lines: Seq<Seq<u8>>) -> Seq<Request>
    decreases lines.len(),
{
    if lines.len() == 0 {
        Seq::empty()
    } else {
        requests_of(lines.drop_last()) + match spec_decode(lines.last()) {
            Ok(req) => seq![req],
            Err(_) => Seq::empty(),
        }
    }
}

/// The request that a line runs, if the handler runs one for it.
pub open spec fn request_of_step(s: (ConnState, Action)) -> Option<Request> {
    match s.1 {
        Action::Run(req) => Some(req),
        Action::RunGated(req) => Some(req),
        _ => None,
    }
}

/// The handler runs a request for a line exactly when the line decodes, and
/// runs that request; a rejected line leaves the connection open.
pub proof fn lemma_line_step(line: Seq<u8>)
    ensures
        line_step(line).0 == ConnState::Reading,
        request_of_step(line_step(line)) == match spec_decode(line) {
            Ok(req) => Some(req),
            Err(_) => None::<Request>,
        },
{
}

/// Replies keep the order of requests: the lines `a` and then the lines `b`
/// yield the requests of `a` followed by those of `b`.
pub proof fn lemma_requests_in_order(a: Seq<Seq<u8>>, b: Seq<Seq<u8>>)
    ensures
        requests_of(a + b) == requests_of(a) + requests_of(b),
    decreases b.len(),
{
    if b.len() == 0 {
        assert(a + b =~= a);
        assert(requests_of(b) =~= Seq::<Request>::empty());
        assert(requests_of(a) + requests_of(b) =~= requests_of(a));
    } else {
        assert((a + b).drop_last() =~= a + b.drop_last());
        assert((a + b).last() == b.last());
        lemma_requests_in_order(a, b.drop_last());
        let tail = match spec_decode(b.last()) {
            Ok(req) => seq![req],
            Err(_) => Seq::<Request>::empty(),
        };
        assert(requests_of(a) + requests_of(b.drop_last()) + tail =~= requests_of(a) + (
        requests_of(b.drop_last()) + tail));
    }
}

/// On a connection whose lines all decode, the i-th reply answers the i-th
/// line.
pub proof fn lemma_reply_per_line(lines: Seq<Seq<u8>>)
    requires
        forall|i: int| 0 <= i < lines.len() ==> spec_decode(#[trigger] lines[i]) is Ok,
    ensures
        requests_of(lines).len() == lines.len(),
        forall|i: int|
            0 <= i < lines.len() ==> spec_decode(#[trigger] lines[i]) == Ok::<Request, DecodeError>(
                requests_of(lines)[i],
            ),
    decreases lines.len(),
{
    if lines.len() > 0 {
        let init = lines.drop_last();
        assert forall|i: int| 0 <= i < init.len() implies spec_decode(#[trigger] init[i]) is Ok by {
            assert(init[i] == lines[i]);
        }
        lemma_reply_per_line(init);
        assert(spec_decode(lines[lines.len() - 1]) is Ok);
        assert forall|i: int| 0 <= i < lines.len() implies spec_decode(#[trigger] lines[i])
            == Ok::<Request, DecodeError>(requests_of(lines)[i]) by {
            if i < init.len() {
                assert(init[i] == lines[i]);
            }
        }
    }
}

/// The state and the requests run, in order, after a handler starting in
/// `Reading` steps through `lines` one by one.
pub open spec fn run_lines(lines: Seq<Seq<u8>>) -> (ConnState, Seq<Request>)
    decreases lines.len(),
{
    if lines.len() == 0 {
        (ConnState::Reading, Seq::empty())
    } else {
        let prev = run_lines(lines.drop_last());
        let step = step_of(prev.0, lines.last());
        (
            step.0,
            prev.1 + match request_of_step(step) {
                Some(req) => seq![req],
                None => Seq::empty(),
            },
        )
    }
}

/// A handler stepping through a connection's lines never closes on a line,
/// and runs exactly the requests of the lines that decode, in the order of
/// the lines: the replies come in the order of the requests.
pub proof fn lemma_handler_runs_in_order(lines: Seq<Seq<u8>>)
    ensures
        run_lines(lines) == (ConnState::Reading, requests_of(lines)),
    decreases lines.len(),
{
    if lines.len() > 0 {
        lemma_handler_runs_in_order(lines.drop_last());
        lemma_line_step(lines.last());
        let step = step_of(ConnState::Reading, lines.last());
        let tail = match request_of_step(step) {
            Some(req) => seq![req],
            None => Seq::<Request>::empty(),
        };
        let want = match spec_decode(lines.last()) {
            Ok(req) => seq![req],
            Err(_) => Seq::<Request>::empty(),
        };
        assert(tail == want);
    }
}

} // verus!
