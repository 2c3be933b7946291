//! What holds of every run of the state machine.

use crate::head::{request_head, response_head, HEADER_CAPACITY};
use crate::machine::{
    emitted, lemma_step_shape, run, stay, step, EmissionView, RunView, StepView, StreamView,
};
use crate::table::ingest_stream;
use crate::transaction::{state_rank, TransactionState, TransactionView};
use vstd::math::min;
use vstd::prelude::*;

verus! {

/// What holds of every emitted transaction: a completed one is a framed
/// transaction with its whole response, an update is an event stream.
pub open spec fn emission_wf(e: EmissionView) -> bool {
    match e {
        EmissionView::Complete(tx) => tx.completed(),
        EmissionView::SseUpdate(tx) => tx.wf() && tx.is_sse && tx.res_body_events.len() > 0,
    }
}

/// How many of the emissions are event-stream updates.
pub open spec fn count_updates(emissions: Seq<EmissionView>) -> nat
    decreases emissions.len(),
{
    if emissions.len() == 0 {
        0
    } else {
        count_updates(emissions.drop_last()) + if emissions.last() is SseUpdate {
            1nat
        } else {
            0nat
        }
    }
}

/// The completed transactions among the emissions, in order.
pub open spec fn completions(emissions: Seq<EmissionView>) -> Seq<TransactionView>
    decreases emissions.len(),
{
    if emissions.len() == 0 {
        Seq::empty()
    } else {
        match emissions.last() {
            EmissionView::Complete(tx) => completions(emissions.drop_last()).push(tx),
            EmissionView::SseUpdate(_) => completions(emissions.drop_last()),
        }
    }
}

/// A run takes its bytes from the front of the buffer and leaves the rest:
/// the buffer afterwards is the buffer before without the bytes consumed.
pub proof fn lemma_run_consumes_prefix(s: StreamView)
    requires
        s.wf(),
    ensures
        run(s).consumed <= s.data.len(),
        run(s).stream.data == s.data.skip(run(s).consumed as int),
        run(s).stream.data.len() == s.data.len() - run(s).consumed,
    decreases s.data.len(),
{
    lemma_step_shape(s);
    let first = step(s);
    if 0 < first.consumed <= s.data.len() {
        lemma_run_consumes_prefix(first.stream);
        assert(s.data.skip(first.consumed as int).skip(run(first.stream).consumed as int)
            =~= s.data.skip(run(s).consumed as int));
    } else {
        assert(s.data.skip(0) =~= s.data);
    }
}

/// After the arrival of a payload the buffer holds what it held before and
/// the payload, without the bytes that the state machine consumed.
pub proof fn lemma_ingest_buffer_length(s: StreamView, payload: Seq<u8>)
    requires
        s.wf(),
    ensures
        ingest_stream(s, payload).stream.data.len() == s.data.len() + payload.len()
            - ingest_stream(s, payload).consumed,
        ingest_stream(s, payload).stream.data == (s.data + payload).skip(
            ingest_stream(s, payload).consumed as int,
        ),
{
    if payload.len() == 0 {
        assert((s.data + payload).skip(0) =~= s.data);
    } else {
        lemma_run_consumes_prefix(s.extended(payload));
    }
}

/// No body ever grows beyond its declared length: a run leaves the stream
/// well formed, and every transaction that it emits is well formed.
pub proof fn lemma_run_keeps_bounds(s: StreamView)
    requires
        s.wf(),
    ensures
        run(s).stream.wf(),
        forall|i: int| 0 <= i < run(s).emissions.len() ==> emission_wf(#[trigger] run(s).emissions[i]),
    decreases s.data.len(),
{
    lemma_step_shape(s);
    let first = step(s);
    if 0 < first.consumed <= s.data.len() {
        lemma_step_emission(s);
        lemma_run_keeps_bounds(first.stream);
    }
}

/// What a single step emits is well formed, and a completed transaction
/// leaves the stream in the step that emits it, so that no later step can
/// emit it again; a transaction leaves the stream in no other way.
pub proof fn lemma_step_emission(s: StreamView)
    requires
        s.wf(),
    ensures
        step(s).emission matches Some(e) ==> emission_wf(e),
        step(s).emission matches Some(EmissionView::Complete(_)) ==> s.current_tx is Some
            && step(s).stream.current_tx is None,
        step(s).emission matches Some(EmissionView::SseUpdate(tx)) ==> step(s).stream.current_tx
            == Some(tx),
        s.current_tx is Some && step(s).stream.current_tx is None ==> step(s).emission matches Some(
            EmissionView::Complete(_),
        ),
{
    match s.current_tx {
        None => {},
        Some(tx) => {
            if tx.state == TransactionState::ResponseBody && !tx.is_sse {
                let n = min(tx.response_missing(), s.data.len() as int);
                assert(s.data.take(n).len() == n);
            }
        },
    }
}

/// The phase of a transaction only ever advances, from the request body
/// to the response head to the response body: a step leaves the open
/// transaction in its phase or moves it to a later one, a completed
/// transaction is emitted in the last phase, a new transaction starts in
/// one of the first two, and a transaction becomes an event stream only
/// when its response head is read.
pub proof fn lemma_state_only_advances(s: StreamView)
    requires
        s.wf(),
    ensures
        s.current_tx is Some && step(s).stream.current_tx is Some ==> ({
            let before = s.current_tx->0;
            let after = step(s).stream.current_tx->0;
            &&& state_rank(before.state) <= state_rank(after.state)
            &&& after.req_header_text == before.req_header_text
            &&& !before.is_sse && after.is_sse ==> before.state == TransactionState::ResponseHeader
        }),
        s.current_tx is Some && step(s).emission is Some && step(s).emission->0 is Complete ==> ({
            let before = s.current_tx->0;
            let after = step(s).emission->0->Complete_0;
            &&& state_rank(before.state) <= state_rank(after.state)
            &&& after.state == TransactionState::ResponseBody
            &&& after.req_header_text == before.req_header_text
        }),
        s.current_tx is None && step(s).stream.current_tx is Some ==> ({
            let opened = step(s).stream.current_tx->0;
            opened.state != TransactionState::ResponseBody && !opened.is_sse
        }),
{
}

/// What a single step contributes to the counts of a run.
pub proof fn lemma_emitted_counts(e: Option<EmissionView>)
    ensures
        count_updates(emitted(e)) == (if e is Some && e->0 is SseUpdate {
            1nat
        } else {
            0nat
        }),
        completions(emitted(e)) == (match e {
            Some(EmissionView::Complete(tx)) => seq![tx],
            _ => Seq::empty(),
        }),
{
    reveal_with_fuel(count_updates, 2);
    reveal_with_fuel(completions, 2);
    if e is Some {
        assert(emitted(e).drop_last() =~= Seq::<EmissionView>::empty());
        assert(completions(emitted(e)) =~= (match e {
            Some(EmissionView::Complete(tx)) => seq![tx],
            _ => Seq::empty(),
        }));
    }
}

/// Once a stream carries an event stream it does so for good: a run emits
/// no completed transaction, consumes the whole buffer, and emits exactly
/// one update if the buffer held an event, and none otherwise.
pub proof fn lemma_event_stream_run(s: StreamView)
    requires
        s.wf(),
        s.streams_events(),
    ensures
        run(s).stream.streams_events(),
        run(s).stream.data.len() == 0,
        completions(run(s).emissions).len() == 0,
        run(s).stream.event_count() >= s.event_count(),
        count_updates(run(s).emissions) == (if run(s).stream.event_count() > s.event_count() {
            1nat
        } else {
            0nat
        }),
{
    let first = step(s);
    if s.data.len() > 0 {
        let after = run(first.stream);
        assert(first.stream.data.len() == 0);
        assert(step(first.stream) == stay(first.stream));
        assert(after.emissions =~= Seq::<EmissionView>::empty());
        assert(run(s).emissions =~= emitted(first.emission));
        lemma_emitted_counts(first.emission);
    }
}

/// Joining two runs of emissions adds up their updates.
pub proof fn lemma_count_updates_concat(a: Seq<EmissionView>, b: Seq<EmissionView>)
    ensures
        count_updates(a + b) == count_updates(a) + count_updates(b),
    decreases b.len(),
{
    if b.len() == 0 {
        assert(a + b =~= a);
    } else {
        lemma_count_updates_concat(a, b.drop_last());
        assert((a + b).drop_last() =~= a + b.drop_last());
    }
}

/// The number of updates that a run emits is the number of runs that add
/// an event, counted for this one: one if the open transaction holds more
/// events after the run than before it, and none otherwise.
pub proof fn lemma_run_updates_once(s: StreamView)
    requires
        s.wf(),
    ensures
        count_updates(run(s).emissions) == (if run(s).stream.event_count() > s.event_count() {
            1nat
        } else {
            0nat
        }),
    decreases s.data.len(),
{
    if s.streams_events() {
        lemma_event_stream_run(s);
    } else {
        lemma_step_shape(s);
        let first = step(s);
        if 0 < first.consumed <= s.data.len() {
            lemma_step_emission(s);
            lemma_run_updates_once(first.stream);
            lemma_count_updates_concat(emitted(first.emission), run(first.stream).emissions);
            assert(first.emission !is Some || first.emission->0 is Complete);
            lemma_emitted_counts(first.emission);
            assert(first.stream.event_count() == 0);
            assert(s.event_count() == 0);
        }
    }
}

/// For every arrival of payload, the number of updates emitted is one if
/// the arrival added an event, and none otherwise.
pub proof fn lemma_ingest_updates_once(s: StreamView, payload: Seq<u8>)
    requires
        s.wf(),
    ensures
        count_updates(ingest_stream(s, payload).emissions) == (if ingest_stream(
            s,
            payload,
        ).stream.event_count() > s.event_count() {
            1nat
        } else {
            0nat
        }),
{
    if payload.len() > 0 {
        lemma_run_updates_once(s.extended(payload));
    }
}

/// Joining two runs of emissions joins their completed transactions.
pub proof fn lemma_completions_concat(a: Seq<EmissionView>, b: Seq<EmissionView>)
    ensures
        completions(a + b) == completions(a) + completions(b),
    decreases b.len(),
{
    if b.len() == 0 {
        assert(a + b =~= a);
        assert(completions(a) + completions(b) =~= completions(a));
    } else {
        lemma_completions_concat(a, b.drop_last());
        assert((a + b).drop_last() =~= a + b.drop_last());
        assert(completions(a + b) =~= completions(a) + completions(b));
    }
}

/// The verdict of the parser on a complete head does not change when
/// bytes are appended after it.
pub open spec fn heads_are_prefix_stable() -> bool {
    &&& forall|data: Seq<u8>, more: Seq<u8>|
        request_head(data, HEADER_CAPACITY as nat) is Complete ==> #[trigger] request_head(
            data + more,
            HEADER_CAPACITY as nat,
        ) == request_head(data, HEADER_CAPACITY as nat)
    &&& forall|data: Seq<u8>, more: Seq<u8>|
        response_head(data, HEADER_CAPACITY as nat) is Complete ==> #[trigger] response_head(
            data + more,
            HEADER_CAPACITY as nat,
        ) == response_head(data, HEADER_CAPACITY as nat)
}

/// Two streams agree when they are the same, or when both carry an event
/// stream, whose events depend on how the payload was cut.
pub open spec fn agree(x: StreamView, y: StreamView) -> bool {
    x == y || (x.wf() && y.wf() && x.streams_events() && y.streams_events())
}

/// A body phase in which the buffer does not hold all that the body
/// misses.
pub open spec fn body_outruns_buffer(x: StreamView) -> bool {
    match x.current_tx {
        Some(tx) => match tx.state {
            TransactionState::RequestBody => x.data.len() < tx.request_missing(),
            TransactionState::ResponseHeader => false,
            TransactionState::ResponseBody => !tx.is_sse && x.data.len() < tx.response_missing(),
        },
        None => false,
    }
}

/// A step that does not take the whole buffer into a body is the same step
/// when more bytes stand behind the buffer.
proof fn lemma_step_with_more(x: StreamView, more: Seq<u8>)
    requires
        x.wf(),
        heads_are_prefix_stable(),
        !x.streams_events(),
        !body_outruns_buffer(x),
        0 < step(x).consumed,
    ensures
        step(x.extended(more)) == (StepView {
            stream: step(x).stream.extended(more),
            consumed: step(x).consumed,
            emission: step(x).emission,
        }),
{
    lemma_step_shape(x);
    let n = step(x).consumed as int;
    let y = x.extended(more);
    assert(y.data.skip(n) =~= x.data.skip(n) + more);
    assert(y.data.take(n) =~= x.data.take(n));
    match x.current_tx {
        None => {
            assert(request_head(x.data, HEADER_CAPACITY as nat) is Complete);
            assert(request_head(x.data + more, HEADER_CAPACITY as nat) == request_head(
                x.data,
                HEADER_CAPACITY as nat,
            ));
        },
        Some(tx) => {
            if tx.state == TransactionState::ResponseHeader {
                assert(response_head(x.data, HEADER_CAPACITY as nat) is Complete);
                assert(response_head(x.data + more, HEADER_CAPACITY as nat) == response_head(
                    x.data,
                    HEADER_CAPACITY as nat,
                ));
            }
        },
    }
}

/// A body that takes the whole buffer and still misses bytes takes the
/// bytes that arrive later just as it would have taken them at once.
proof fn lemma_body_in_two(x: StreamView, more: Seq<u8>)
    requires
        x.wf(),
        !x.streams_events(),
        body_outruns_buffer(x),
    ensures
        run(x).stream == step(x).stream,
        run(x).emissions == Seq::<EmissionView>::empty(),
        run(run(x).stream.extended(more)).stream == run(x.extended(more)).stream,
        run(run(x).stream.extended(more)).emissions == run(x.extended(more)).emissions,
{
    lemma_step_shape(x);
    let tx = x.current_tx->0;
    let len = x.data.len() as int;
    let held = step(x).stream;
    assert(x.data.take(len) =~= x.data);
    if len == 0 {
        assert(step(x) == stay(x));
        assert(held == x);
    } else {
        assert(held.data.len() == 0);
        assert(step(held) == stay(held));
        assert(run(x).emissions =~= Seq::<EmissionView>::empty());
    }
    assert(run(x).stream == held);
    let late = held.extended(more);
    let whole = x.extended(more);
    assert(late.data =~= more);
    if more.len() == 0 {
        assert(whole.data =~= x.data);
        assert(whole == x);
        assert(late == held);
        if len > 0 {
            assert(run(held).stream == held);
            assert(run(held).emissions =~= Seq::<EmissionView>::empty());
        }
    } else {
        let missing = if tx.state == TransactionState::RequestBody {
            tx.request_missing()
        } else {
            tx.response_missing()
        };
        let n_whole = min(missing, len + more.len());
        let n_late = n_whole - len;
        assert(n_late == min(missing - len, more.len() as int));
        assert(n_late > 0);
        assert(whole.data.take(n_whole) =~= x.data + more.take(n_late));
        assert(whole.data.skip(n_whole) =~= more.skip(n_late));
        assert(late.data.take(n_late) =~= more.take(n_late));
        assert(late.data.skip(n_late) =~= more.skip(n_late));
        let held_tx = held.current_tx->0;
        if tx.state == TransactionState::RequestBody {
            assert(held_tx.req_body_bytes + more.take(n_late) =~= tx.req_body_bytes + (x.data
                + more.take(n_late)));
        } else {
            assert(held_tx.res_body_bytes + more.take(n_late) =~= tx.res_body_bytes + (x.data
                + more.take(n_late)));
        }
        assert(step(late).stream == step(whole).stream);
        assert(step(late).emission == step(whole).emission);
        assert(step(late).consumed == n_late);
        assert(step(whole).consumed == n_whole);
    }
}

/// Cutting the payload in two changes no completed transaction: running the
/// state machine on a buffer and then again after more bytes have arrived
/// completes the same transactions, in the same order, as one run on the
/// buffer with those bytes behind it. Where the stream does not end up in
/// an event stream, the two ways also leave the same stream and emit the
/// same emissions. This holds if the parser's verdict on a complete head
/// does not change when bytes are appended after it.
pub proof fn lemma_run_in_two(x: StreamView, more: Seq<u8>)
    requires
        x.wf(),
        heads_are_prefix_stable(),
    ensures
        ({
            let first = run(x);
            let second = run(first.stream.extended(more));
            let whole = run(x.extended(more));
            &&& agree(second.stream, whole.stream)
            &&& completions(first.emissions + second.emissions) == completions(whole.emissions)
            &&& !whole.stream.streams_events() ==> first.emissions + second.emissions
                == whole.emissions
        }),
    decreases x.data.len(),
{
    let first = run(x);
    let second = run(first.stream.extended(more));
    let whole = run(x.extended(more));
    let head = step(x);
    lemma_step_shape(x);
    lemma_run_keeps_bounds(x);
    lemma_run_keeps_bounds(first.stream.extended(more));
    lemma_run_keeps_bounds(x.extended(more));
    if x.streams_events() {
        lemma_event_stream_run(x);
        lemma_event_stream_run(first.stream.extended(more));
        lemma_event_stream_run(x.extended(more));
        lemma_completions_concat(first.emissions, second.emissions);
        assert(completions(first.emissions) =~= Seq::<TransactionView>::empty());
        assert(completions(second.emissions) =~= Seq::<TransactionView>::empty());
        assert(completions(whole.emissions) =~= Seq::<TransactionView>::empty());
        assert(completions(first.emissions + second.emissions) =~= completions(whole.emissions));
    } else if body_outruns_buffer(x) {
        lemma_body_in_two(x, more);
        assert(first.emissions + second.emissions =~= second.emissions);
    } else if head.consumed == 0 {
        assert(first.stream == x);
        assert(first.emissions + second.emissions =~= second.emissions);
    } else {
        lemma_step_with_more(x, more);
        lemma_run_in_two(head.stream, more);
        let first_rest = run(head.stream);
        let whole_rest = run(head.stream.extended(more));
        assert(first.stream == first_rest.stream);
        assert(first.emissions == emitted(head.emission) + first_rest.emissions);
        assert(whole.stream == whole_rest.stream);
        assert(whole.emissions == emitted(head.emission) + whole_rest.emissions);
        assert(first.emissions + second.emissions =~= emitted(head.emission) + (
        first_rest.emissions + second.emissions));
        lemma_completions_concat(emitted(head.emission), first_rest.emissions + second.emissions);
        lemma_completions_concat(emitted(head.emission), whole_rest.emissions);
    }
}

/// The bytes of all chunks, in order.
pub open spec fn concat(chunks: Seq<Seq<u8>>) -> Seq<u8>
    decreases chunks.len(),
{
    if chunks.len() == 0 {
        Seq::empty()
    } else {
        concat(chunks.drop_last()) + chunks.last()
    }
}

/// What the arrival of several payloads, one after the other, does to a
/// stream.
pub open spec fn ingest_all(s: StreamView, chunks: Seq<Seq<u8>>) -> RunView
    decreases chunks.len(),
{
    if chunks.len() == 0 {
        RunView { stream: s, consumed: 0, emissions: Seq::empty() }
    } else {
        let earlier = ingest_all(s, chunks.drop_last());
        let last = ingest_stream(earlier.stream, chunks.last());
        RunView {
            stream: last.stream,
            consumed: earlier.consumed + last.consumed,
            emissions: earlier.emissions + last.emissions,
        }
    }
}

/// Chunking does not change what completes: however a payload is cut into
/// consecutive chunks, their arrival one after the other completes the same
/// transactions, in the same order, as the arrival of the whole payload at
/// once. Where the stream does not end up in an event stream, the two ways
/// also emit the same emissions and leave the same stream. This holds if
/// the parser's verdict on a complete head does not change when bytes are
/// appended after it.
pub proof fn lemma_chunking_invariance(s: StreamView, chunks: Seq<Seq<u8>>)
    requires
        s.wf(),
        heads_are_prefix_stable(),
    ensures
        ({
            let cut = ingest_all(s, chunks);
            let whole = ingest_stream(s, concat(chunks));
            &&& cut.stream.wf()
            &&& agree(cut.stream, whole.stream)
            &&& completions(cut.emissions) == completions(whole.emissions)
            &&& !whole.stream.streams_events() ==> cut.emissions == whole.emissions && cut.stream
                == whole.stream
        }),
    decreases chunks.len(),
{
    if chunks.len() > 0 {
        let init = chunks.drop_last();
        let last = chunks.last();
        lemma_chunking_invariance(s, init);
        let cut_init = ingest_all(s, init);
        let whole_init = ingest_stream(s, concat(init));
        let cut = ingest_all(s, chunks);
        let whole = ingest_stream(s, concat(chunks));
        let cut_last = ingest_stream(cut_init.stream, last);
        if last.len() == 0 {
            assert(concat(chunks) =~= concat(init));
            assert(cut.emissions =~= cut_init.emissions);
        } else {
            let x = s.extended(concat(init));
            assert(x.extended(last) =~= s.extended(concat(chunks))) by {
                assert((s.data + concat(init)) + last =~= s.data + (concat(init) + last));
            }
            lemma_run_keeps_bounds(cut_init.stream.extended(last));
            lemma_run_keeps_bounds(s.extended(concat(chunks)));
            lemma_completions_concat(cut_init.emissions, cut_last.emissions);
            if concat(init).len() == 0 {
                assert(x.data =~= s.data);
                assert(x == s);
                assert(concat(chunks) =~= last);
                assert(completions(cut_init.emissions) =~= Seq::<TransactionView>::empty());
                if cut_init.stream == s {
                    if !s.streams_events() {
                        assert(cut.emissions =~= whole.emissions);
                    } else {
                        lemma_event_stream_run(s.extended(last));
                    }
                    assert(completions(cut.emissions) =~= completions(whole.emissions));
                } else {
                    lemma_event_stream_run(cut_init.stream.extended(last));
                    lemma_event_stream_run(s.extended(last));
                    assert(completions(cut.emissions) =~= completions(whole.emissions));
                }
            } else {
                lemma_run_keeps_bounds(x);
                lemma_run_in_two(x, last);
                let second = run(whole_init.stream.extended(last));
                lemma_run_keeps_bounds(whole_init.stream.extended(last));
                lemma_completions_concat(whole_init.emissions, second.emissions);
                if cut_init.stream == whole_init.stream {
                    if whole.stream.streams_events() {
                        assert(completions(cut.emissions) =~= completions(whole.emissions));
                    } else {
                        if whole_init.stream.streams_events() {
                            lemma_event_stream_run(whole_init.stream.extended(last));
                        }
                        assert(cut.emissions =~= whole.emissions);
                    }
                } else {
                    lemma_event_stream_run(cut_init.stream.extended(last));
                    lemma_event_stream_run(whole_init.stream.extended(last));
                    assert(completions(cut.emissions) =~= completions(whole.emissions));
                }
            }
        }
    } else {
        assert(concat(chunks) =~= Seq::<u8>::empty());
    }
}

} // verus!
