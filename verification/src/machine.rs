//! The transaction state machine: how the bytes of one flow turn into
//! transactions.

use crate::head::{
    parse_request_head, parse_response_head, request_head, response_head, RequestParse,
    RequestParseView, ResponseParse, ResponseParseView, HEADER_CAPACITY,
};
use crate::text::{append_sse_events, chars_of, lossy_text, sse_events, utf8_lossy};
use crate::transaction::{new_transaction, HttpTransaction, TransactionState, TransactionView};
use vstd::math::min;
use vstd::prelude::*;

verus! {

/// The state of one flow: the payload that no transaction has consumed yet,
/// and the transaction in progress, if there is one.
#[derive(Debug)]
pub struct StreamBuffer {
    pub data: Vec<u8>,
    pub current_tx: Option<HttpTransaction>,
}

pub struct StreamView {
    pub data: Seq<u8>,
    pub current_tx: Option<TransactionView>,
}

pub open spec fn transaction_view(tx: Option<HttpTransaction>) -> Option<TransactionView> {
    match tx {
        Some(t) => Some(t@),
        None => None,
    }
}

impl View for StreamBuffer {
    type V = StreamView;

    open spec fn view(&self) -> StreamView {
        StreamView { data: self.data@, current_tx: transaction_view(self.current_tx) }
    }
}

impl StreamView {
    /// At most one transaction is open, and it still waits for bytes.
    pub open spec fn wf(self) -> bool {
        match self.current_tx {
            Some(tx) => tx.in_progress(),
            None => true,
        }
    }

    /// The stream after `payload` has arrived.
    pub open spec fn extended(self, payload: Seq<u8>) -> StreamView {
        StreamView { data: self.data + payload, ..self }
    }

    /// Whether the stream carries an event-stream response, which never
    /// ends.
    pub open spec fn streams_events(self) -> bool {
        match self.current_tx {
            Some(tx) => tx.is_sse,
            None => false,
        }
    }

    /// How many events the open transaction holds.
    pub open spec fn event_count(self) -> nat {
        match self.current_tx {
            Some(tx) => tx.res_body_events.len(),
            None => 0,
        }
    }
}

/// What the state machine hands to its sink.
#[derive(Debug)]
pub enum Emission {
    /// A framed transaction whose response has arrived in full. The stream
    /// has let go of it.
    Complete(HttpTransaction),
    /// An event-stream transaction that has gained events, as it stands
    /// now. The stream keeps it.
    SseUpdate(HttpTransaction),
}

pub enum EmissionView {
    Complete(TransactionView),
    SseUpdate(TransactionView),
}

impl View for Emission {
    type V = EmissionView;

    open spec fn view(&self) -> EmissionView {
        match self {
            Emission::Complete(tx) => EmissionView::Complete(tx@),
            Emission::SseUpdate(tx) => EmissionView::SseUpdate(tx@),
        }
    }
}

pub open spec fn emission_views(emissions: Seq<Emission>) -> Seq<EmissionView> {
    emissions.map_values(|e: Emission| e@)
}

pub open spec fn emission_view(emission: Option<Emission>) -> Option<EmissionView> {
    match emission {
        Some(e) => Some(e@),
        None => None,
    }
}

/// The outcome of one step of the state machine.
pub struct StepView {
    pub stream: StreamView,
    /// How many bytes the step took from the front of the buffer.
    pub consumed: nat,
    pub emission: Option<EmissionView>,
}

/// A step that takes `n` bytes.
pub open spec fn advance(
    s: StreamView,
    n: int,
    tx: Option<TransactionView>,
    emission: Option<EmissionView>,
) -> StepView {
    StepView {
        stream: StreamView { data: s.data.skip(n), current_tx: tx },
        consumed: n as nat,
        emission,
    }
}

/// A step that finds nothing to do.
pub open spec fn stay(s: StreamView) -> StepView {
    StepView { stream: s, consumed: 0, emission: None }
}

/// The step from a stream without a transaction: a complete request head
/// at the front of the buffer opens one.
pub open spec fn step_idle(s: StreamView) -> StepView {
    match request_head(s.data, HEADER_CAPACITY as nat) {
        RequestParseView::Complete(head) => if 0 < head.consumed <= s.data.len() {
            advance(s, head.consumed as int, Some(new_transaction(head)), None)
        } else {
            stay(s)
        },
        _ => stay(s),
    }
}

/// The step in the request body: the body takes what it misses, as far as
/// the buffer reaches.
pub open spec fn step_request_body(s: StreamView, tx: TransactionView) -> StepView {
    let n = min(tx.request_missing(), s.data.len() as int);
    if n > 0 {
        advance(s, n, Some(tx.take_request_body(s.data.take(n))), None)
    } else {
        stay(s)
    }
}

/// The step that waits for the response: a complete response head at the
/// front of the buffer is recorded, and completes the transaction where it
/// announces neither an event stream nor a body.
pub open spec fn step_response_header(s: StreamView, tx: TransactionView) -> StepView {
    match response_head(s.data, HEADER_CAPACITY as nat) {
        ResponseParseView::Complete(head) => if 0 < head.consumed <= s.data.len() {
            let next = tx.take_response_head(head);
            if !next.is_sse && next.expected_res_len == 0 {
                advance(s, head.consumed as int, None, Some(EmissionView::Complete(next)))
            } else {
                advance(s, head.consumed as int, Some(next), None)
            }
        } else {
            stay(s)
        },
        _ => stay(s),
    }
}

/// The step in a framed response body: the body takes what it misses, as
/// far as the buffer reaches, and the transaction is complete once nothing
/// is missing.
pub open spec fn step_framed_body(s: StreamView, tx: TransactionView) -> StepView {
    let n = min(tx.response_missing(), s.data.len() as int);
    if n > 0 {
        let next = tx.take_response_body(s.data.take(n));
        if next.res_body_bytes.len() >= next.expected_res_len {
            advance(s, n, None, Some(EmissionView::Complete(next)))
        } else {
            advance(s, n, Some(next), None)
        }
    } else {
        stay(s)
    }
}

/// The step in an event stream: the whole buffer is read as text, its
/// events join the transaction, and the sink hears of it where there was
/// at least one.
pub open spec fn step_event_stream(s: StreamView, tx: TransactionView) -> StepView {
    if s.data.len() > 0 {
        let events = sse_events(utf8_lossy(s.data));
        let next = tx.take_events(events);
        advance(
            s,
            s.data.len() as int,
            Some(next),
            if events.len() > 0 {
                Some(EmissionView::SseUpdate(next))
            } else {
                None
            },
        )
    } else {
        stay(s)
    }
}

/// One step of the state machine.
pub open spec fn step(s: StreamView) -> StepView {
    match s.current_tx {
        None => step_idle(s),
        Some(tx) => match tx.state {
            TransactionState::RequestBody => step_request_body(s, tx),
            TransactionState::ResponseHeader => step_response_header(s, tx),
            TransactionState::ResponseBody => if tx.is_sse {
                step_event_stream(s, tx)
            } else {
                step_framed_body(s, tx)
            },
        },
    }
}

/// The outcome of running the state machine until a step takes nothing.
pub struct RunView {
    pub stream: StreamView,
    /// How many bytes all steps together took from the front of the buffer.
    pub consumed: nat,
    pub emissions: Seq<EmissionView>,
}

pub open spec fn emitted(emission: Option<EmissionView>) -> Seq<EmissionView> {
    match emission {
        Some(e) => seq![e],
        None => Seq::empty(),
    }
}

/// The state machine run to its fixed point: step after step, until one
/// takes no byte.
pub open spec fn run(s: StreamView) -> RunView
    decreases s.data.len(),
{
    let first = step(s);
    if 0 < first.consumed <= s.data.len() {
        let rest = run(first.stream);
        RunView {
            stream: rest.stream,
            consumed: first.consumed + rest.consumed,
            emissions: emitted(first.emission) + rest.emissions,
        }
    } else {
        RunView { stream: s, consumed: 0, emissions: Seq::empty() }
    }
}

/// A step never takes more than the buffer holds, takes its bytes from the
/// front, leaves the stream well formed, and changes nothing where it
/// takes nothing.
pub proof fn lemma_step_shape(s: StreamView)
    requires
        s.wf(),
    ensures
        step(s).consumed <= s.data.len(),
        step(s).stream.data == s.data.skip(step(s).consumed as int),
        step(s).stream.wf(),
        step(s).consumed == 0 ==> step(s) == stay(s),
{
    assert(s.data.skip(0) =~= s.data);
    match s.current_tx {
        None => {},
        Some(tx) => {
            if tx.state == TransactionState::RequestBody {
                let n = min(tx.request_missing(), s.data.len() as int);
                assert(s.data.take(n).len() == n);
            } else if tx.state == TransactionState::ResponseBody && !tx.is_sse {
                let n = min(tx.response_missing(), s.data.len() as int);
                assert(s.data.take(n).len() == n);
            }
        },
    }
}

impl StreamBuffer {
    /// The state of a flow on which nothing has arrived.
    pub fn new() -> (stream: StreamBuffer)
        ensures
            stream@ == (StreamView { data: Seq::empty(), current_tx: None }),
            stream@.wf(),
    {
        StreamBuffer { data: Vec::new(), current_tx: None }
    }
}

/// Takes one step of the state machine on the unconsumed bytes `rest`.
/// Returns how many of them the step took, and what it emits.
pub fn step_stream(current_tx: &mut Option<HttpTransaction>, rest: &[u8]) -> (out: (
    usize,
    Option<Emission>,
))
    requires
        (StreamView { data: rest@, current_tx: transaction_view(*old(current_tx)) }).wf(),
    ensures
        ({
            let before = StreamView { data: rest@, current_tx: transaction_view(*old(current_tx)) };
            &&& out.0 == step(before).consumed
            &&& transaction_view(*final(current_tx)) == step(before).stream.current_tx
            &&& emission_view(out.1) == step(before).emission
        }),
{
    let ghost before = StreamView { data: rest@, current_tx: transaction_view(*old(current_tx)) };
    match current_tx.take() {
        None => match parse_request_head(rest, HEADER_CAPACITY) {
            RequestParse::Complete(head) => {
                if 0 < head.consumed && head.consumed <= rest.len() {
                    *current_tx = Some(HttpTransaction::new(&head));
                    (head.consumed, None)
                } else {
                    (0, None)
                }
            },
            _ => (0, None),
        },
        Some(mut tx) => match tx.state {
            TransactionState::RequestBody => {
                let missing: usize = tx.expected_req_len - tx.req_body_bytes.len();
                let n: usize = if missing <= rest.len() {
                    missing
                } else {
                    rest.len()
                };
                if n > 0 {
                    tx.req_body_bytes.extend_from_slice(&rest[0..n]);
                    assert(tx.req_body_bytes@ =~= before.current_tx.unwrap().req_body_bytes
                        + rest@.take(n as int));
                    if tx.req_body_bytes.len() >= tx.expected_req_len {
                        tx.state = TransactionState::ResponseHeader;
                    }
                }
                *current_tx = Some(tx);
                (n, None)
            },
            TransactionState::ResponseHeader => match parse_response_head(rest, HEADER_CAPACITY) {
                ResponseParse::Complete(head) => {
                    if 0 < head.consumed && head.consumed <= rest.len() {
                        tx.record_response_head(&head);
                        if !tx.is_sse && tx.expected_res_len == 0 {
                            (head.consumed, Some(Emission::Complete(tx)))
                        } else {
                            *current_tx = Some(tx);
                            (head.consumed, None)
                        }
                    } else {
                        *current_tx = Some(tx);
                        (0, None)
                    }
                },
                _ => {
                    *current_tx = Some(tx);
                    (0, None)
                },
            },
            TransactionState::ResponseBody => {
                if tx.is_sse {
                    if rest.len() > 0 {
                        let text = lossy_text(rest);
                        let chars = chars_of(text.as_str());
                        let grew = append_sse_events(chars.as_slice(), &mut tx.res_body_events);
                        let emission = if grew {
                            Some(Emission::SseUpdate(tx.snapshot()))
                        } else {
                            None
                        };
                        *current_tx = Some(tx);
                        (rest.len(), emission)
                    } else {
                        *current_tx = Some(tx);
                        (0, None)
                    }
                } else {
                    let missing: usize = tx.expected_res_len - tx.res_body_bytes.len();
                    let n: usize = if missing <= rest.len() {
                        missing
                    } else {
                        rest.len()
                    };
                    if n > 0 {
                        tx.res_body_bytes.extend_from_slice(&rest[0..n]);
                        assert(tx.res_body_bytes@ =~= before.current_tx.unwrap().res_body_bytes
                            + rest@.take(n as int));
                        if tx.res_body_bytes.len() >= tx.expected_res_len {
                            (n, Some(Emission::Complete(tx)))
                        } else {
                            *current_tx = Some(tx);
                            (n, None)
                        }
                    } else {
                        *current_tx = Some(tx);
                        (0, None)
                    }
                }
            },
        },
    }
}

/// The stream as the state machine sees it when the first `pos` bytes of
/// the buffer have been consumed.
pub open spec fn unconsumed(stream: StreamBuffer, pos: int) -> StreamView {
    StreamView { data: stream.data@.skip(pos), current_tx: transaction_view(stream.current_tx) }
}

/// What a run of the state machine achieved.
#[derive(Debug)]
pub struct Progress {
    /// The emissions of the run, in the order in which they came about.
    pub emissions: Vec<Emission>,
    /// How many bytes the run took from the front of the buffer.
    pub consumed: usize,
}

/// Runs the state machine on a stream until a step takes nothing: the
/// consumed bytes leave the front of the buffer, and every transaction
/// completed or extended on the way is handed back.
pub fn process_stream(stream: &mut StreamBuffer) -> (progress: Progress)
    requires
        old(stream)@.wf(),
    ensures
        final(stream)@ == run(old(stream)@).stream,
        final(stream)@.wf(),
        emission_views(progress.emissions@) == run(old(stream)@).emissions,
        progress.consumed == run(old(stream)@).consumed,
        progress.consumed <= old(stream).data@.len(),
        final(stream).data@ == old(stream).data@.skip(progress.consumed as int),
{
    let mut emissions: Vec<Emission> = Vec::new();
    let mut pos: usize = 0;
    let len: usize = stream.data.len();
    let ghost goal = run(old(stream)@);
    assert(stream.data@.skip(0) =~= stream.data@);
    assert(emission_views(emissions@) + goal.emissions =~= goal.emissions);
    loop
        invariant_except_break
            goal.stream == run(unconsumed(*stream, pos as int)).stream,
            goal.consumed == pos + run(unconsumed(*stream, pos as int)).consumed,
            goal.emissions == emission_views(emissions@) + run(
                unconsumed(*stream, pos as int),
            ).emissions,
        invariant
            pos <= len == stream.data@.len(),
            stream.data@ == old(stream).data@,
            unconsumed(*stream, pos as int).wf(),
        ensures
            goal.stream == unconsumed(*stream, pos as int),
            goal.consumed == pos,
            goal.emissions == emission_views(emissions@),
        decreases len - pos,
    {
        let ghost cur = unconsumed(*stream, pos as int);
        proof {
            lemma_step_shape(cur);
        }
        let rest = vstd::slice::slice_subrange(stream.data.as_slice(), pos, len);
        assert(rest@ =~= cur.data);
        let (n, emission) = step_stream(&mut stream.current_tx, rest);
        if n == 0 {
            assert(emission_views(emissions@) + Seq::<EmissionView>::empty() =~= emission_views(
                emissions@,
            ));
            break;
        }
        let ghost so_far = emission_views(emissions@);
        match emission {
            Some(e) => {
                emissions.push(e);
                assert(emission_views(emissions@) =~= so_far.push(e@));
            },
            None => {},
        }
        assert(stream.data@.skip(pos as int).skip(n as int) =~= stream.data@.skip(pos + n));
        assert(so_far + run(cur).emissions =~= emission_views(emissions@) + run(
            step(cur).stream,
        ).emissions);
        pos += n;
    }
    if pos > 0 {
        let rest = stream.data.split_off(pos);
        stream.data = rest;
        assert(stream.data@ =~= old(stream).data@.skip(pos as int));
    }
    Progress { emissions, consumed: pos }
}

} // verus!
