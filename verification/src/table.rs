//! The flows under observation, each with its stream.

use crate::flow::FlowKey;
use crate::machine::{
    emission_views, process_stream, run, transaction_view, Progress, RunView, StreamBuffer,
    StreamView,
};
use crate::transaction::{HttpTransaction, TransactionView};
use vstd::prelude::*;

verus! {

/// One flow and the state of its stream.
#[derive(Debug)]
pub struct FlowEntry {
    pub key: FlowKey,
    pub stream: StreamBuffer,
}

pub struct FlowView {
    pub key: FlowKey,
    pub stream: StreamView,
}

impl View for FlowEntry {
    type V = FlowView;

    open spec fn view(&self) -> FlowView {
        FlowView { key: self.key, stream: self.stream@ }
    }
}

/// All flows seen so far, in the order in which they were first seen. A
/// flow stays in the table for good.
#[derive(Debug)]
pub struct FlowTable {
    flows: Vec<FlowEntry>,
}

pub open spec fn flow_views(flows: Seq<FlowEntry>) -> Seq<FlowView> {
    flows.map_values(|e: FlowEntry| e@)
}

impl View for FlowTable {
    type V = Seq<FlowView>;

    closed spec fn view(&self) -> Seq<FlowView> {
        flow_views(self.flows@)
    }
}

/// No key occurs twice, and every stream is well formed.
pub open spec fn table_wf(flows: Seq<FlowView>) -> bool {
    &&& forall|i: int, j: int|
        0 <= i < j < flows.len() ==> (#[trigger] flows[i]).key != (#[trigger] flows[j]).key
    &&& forall|i: int| 0 <= i < flows.len() ==> (#[trigger] flows[i]).stream.wf()
}

pub open spec fn has_flow(flows: Seq<FlowView>, key: FlowKey) -> bool {
    exists|i: int| 0 <= i < flows.len() && (#[trigger] flows[i]).key == key
}

/// Where the flow `key` stands in the table.
pub open spec fn flow_index(flows: Seq<FlowView>, key: FlowKey) -> int {
    choose|i: int| 0 <= i < flows.len() && (#[trigger] flows[i]).key == key
}

/// The stream on which nothing has arrived yet.
pub open spec fn fresh_stream() -> StreamView {
    StreamView { data: Seq::empty(), current_tx: None }
}

/// The stream of the flow `key`: the one in the table, or a fresh one where
/// the flow has not been seen.
pub open spec fn stream_of(flows: Seq<FlowView>, key: FlowKey) -> StreamView {
    if has_flow(flows, key) {
        flows[flow_index(flows, key)].stream
    } else {
        fresh_stream()
    }
}

/// The table with `stream` as the stream of the flow `key`; a flow not yet
/// in the table joins it at the end.
pub open spec fn with_stream(flows: Seq<FlowView>, key: FlowKey, stream: StreamView) -> Seq<
    FlowView,
> {
    if has_flow(flows, key) {
        flows.update(flow_index(flows, key), FlowView { key, stream })
    } else {
        flows.push(FlowView { key, stream })
    }
}

/// The table after the flow `key` has let go of its open transaction; its
/// buffer stays as it is.
pub open spec fn without_transaction(flows: Seq<FlowView>, key: FlowKey) -> Seq<FlowView> {
    if has_flow(flows, key) {
        with_stream(
            flows,
            key,
            StreamView { data: stream_of(flows, key).data, current_tx: None },
        )
    } else {
        flows
    }
}

/// What the arrival of `payload` does to a stream: nothing where the
/// payload is empty; otherwise the payload joins the buffer and the state
/// machine runs.
pub open spec fn ingest_stream(s: StreamView, payload: Seq<u8>) -> RunView {
    if payload.len() == 0 {
        RunView { stream: s, consumed: 0, emissions: Seq::empty() }
    } else {
        run(s.extended(payload))
    }
}

/// The transactions that a final flush hands out: of each flow, in table
/// order, the open transaction whose request has been read.
pub open spec fn pending(flows: Seq<FlowView>) -> Seq<TransactionView>
    decreases flows.len(),
{
    if flows.len() == 0 {
        Seq::empty()
    } else {
        let earlier = pending(flows.drop_last());
        match flows.last().stream.current_tx {
            Some(tx) => if tx.req_header_text.len() > 0 {
                earlier.push(tx)
            } else {
                earlier
            },
            None => earlier,
        }
    }
}

pub open spec fn transaction_views(txs: Seq<HttpTransaction>) -> Seq<TransactionView> {
    txs.map_values(|t: HttpTransaction| t@)
}

/// Finds the flow `key` among `flows`.
fn find_flow(flows: &[FlowEntry], key: &FlowKey) -> (found: Option<usize>)
    requires
        table_wf(flow_views(flows@)),
    ensures
        found is Some == has_flow(flow_views(flows@), *key),
        found matches Some(i) ==> i == flow_index(flow_views(flows@), *key) && i < flows@.len(),
{
    let ghost views = flow_views(flows@);
    let mut i: usize = 0;
    while i < flows.len()
        invariant
            i <= flows@.len(),
            views == flow_views(flows@),
            table_wf(views),
            forall|j: int| 0 <= j < i ==> (#[trigger] views[j]).key != *key,
        decreases flows@.len() - i,
    {
        if flows[i].key == *key {
            assert(views[i as int].key == *key);
            return Some(i);
        }
        i += 1;
    }
    None
}

/// Hands `payload` to the stream of the flow `key` among `flows`.
fn ingest_flows(flows: &mut Vec<FlowEntry>, key: FlowKey, payload: &[u8]) -> (progress: Progress)
    requires
        table_wf(flow_views(old(flows)@)),
    ensures
        table_wf(flow_views(final(flows)@)),
        flow_views(final(flows)@) == (if payload@.len() == 0 {
            flow_views(old(flows)@)
        } else {
            with_stream(
                flow_views(old(flows)@),
                key,
                ingest_stream(stream_of(flow_views(old(flows)@), key), payload@).stream,
            )
        }),
        emission_views(progress.emissions@) == ingest_stream(
            stream_of(flow_views(old(flows)@), key),
            payload@,
        ).emissions,
        progress.consumed == ingest_stream(
            stream_of(flow_views(old(flows)@), key),
            payload@,
        ).consumed,
        progress.consumed <= stream_of(flow_views(old(flows)@), key).data.len() + payload@.len(),
        stream_of(flow_views(final(flows)@), key).data == (stream_of(
            flow_views(old(flows)@),
            key,
        ).data + payload@).skip(progress.consumed as int),
{
    let ghost before = flow_views(flows@);
    let ghost prior = stream_of(before, key);
    if payload.len() == 0 {
        let emissions: Vec<crate::machine::Emission> = Vec::new();
        assert(emission_views(emissions@) =~= Seq::empty());
        assert((prior.data + payload@).skip(0) =~= prior.data);
        return Progress { emissions, consumed: 0 };
    }
    let at: usize = match find_flow(flows.as_slice(), &key) {
        Some(i) => i,
        None => {
            flows.push(FlowEntry { key, stream: StreamBuffer::new() });
            assert(flow_views(flows@) =~= before.push(FlowView { key, stream: fresh_stream() }));
            flows.len() - 1
        },
    };
    let ghost staged = flow_views(flows@);
    assert(staged[at as int].key == key && staged[at as int].stream == prior);
    let entry = &mut flows[at];
    entry.stream.data.extend_from_slice(payload);
    assert(entry.stream@ == prior.extended(payload@)) by {
        assert(entry.stream.data@ =~= prior.data + payload@);
    }
    let progress = process_stream(&mut entry.stream);
    proof {
        let outcome = ingest_stream(prior, payload@);
        let after = flow_views(flows@);
        assert(after =~= staged.update(at as int, FlowView { key, stream: outcome.stream }));
        assert(after =~= with_stream(before, key, outcome.stream));
        assert(after[at as int].key == key);
        assert(has_flow(after, key));
        assert(table_wf(after));
    }
    progress
}

impl FlowTable {
    #[verifier::type_invariant]
    spec fn well_formed(self) -> bool {
        table_wf(self@)
    }

    /// A table without flows.
    pub fn new() -> (table: FlowTable)
        ensures
            table@ == Seq::<FlowView>::empty(),
            table_wf(table@),
    {
        let table = FlowTable { flows: Vec::new() };
        assert(table@ =~= Seq::<FlowView>::empty());
        table
    }

    /// Finds the flow `key`.
    pub fn find(&self, key: &FlowKey) -> (found: Option<usize>)
        ensures
            found is Some == has_flow(self@, *key),
            found matches Some(i) ==> i == flow_index(self@, *key) && i < self@.len(),
    {
        proof {
            use_type_invariant(self);
        }
        find_flow(self.flows.as_slice(), key)
    }

    /// Takes in the payload of one TCP segment of the flow `key`: the bytes
    /// join the buffer of that flow, and the state machine runs on it. The
    /// first payload of a flow creates its stream. An empty payload changes
    /// nothing.
    pub fn ingest(&mut self, key: FlowKey, payload: &[u8]) -> (progress: Progress)
        ensures
            table_wf(old(self)@),
            table_wf(final(self)@),
            final(self)@ == (if payload@.len() == 0 {
                old(self)@
            } else {
                with_stream(
                    old(self)@,
                    key,
                    ingest_stream(stream_of(old(self)@, key), payload@).stream,
                )
            }),
            emission_views(progress.emissions@) == ingest_stream(
                stream_of(old(self)@, key),
                payload@,
            ).emissions,
            progress.consumed == ingest_stream(stream_of(old(self)@, key), payload@).consumed,
            progress.consumed <= stream_of(old(self)@, key).data.len() + payload@.len(),
            stream_of(final(self)@, key).data == (stream_of(old(self)@, key).data
                + payload@).skip(progress.consumed as int),
    {
        proof {
            use_type_invariant(&*self);
        }
        let mut flows: Vec<FlowEntry> = Vec::new();
        assert(flow_views(flows@) =~= Seq::<FlowView>::empty());
        core::mem::swap(&mut self.flows, &mut flows);
        let progress = ingest_flows(&mut flows, key, payload);
        self.flows = flows;
        progress
    }

    /// Ends the open transaction of the flow `key` and hands it out. The
    /// state machine never ends an event stream by itself; a host that
    /// knows that one is over ends it here, and the next bytes of the flow
    /// are read as a request.
    pub fn end_transaction(&mut self, key: &FlowKey) -> (ended: Option<HttpTransaction>)
        ensures
            transaction_view(ended) == stream_of(old(self)@, *key).current_tx,
            final(self)@ == without_transaction(old(self)@, *key),
    {
        proof {
            use_type_invariant(&*self);
        }
        let ghost before = self@;
        let mut flows: Vec<FlowEntry> = Vec::new();
        assert(flow_views(flows@) =~= Seq::<FlowView>::empty());
        core::mem::swap(&mut self.flows, &mut flows);
        let ended = match find_flow(flows.as_slice(), key) {
            Some(at) => {
                let entry = &mut flows[at];
                let ended = entry.stream.current_tx.take();
                assert(flow_views(flows@) =~= without_transaction(before, *key));
                ended
            },
            None => None,
        };
        self.flows = flows;
        ended
    }

    /// Hands out, at the end of the capture, a copy of every open
    /// transaction whose request has been read, in table order.
    pub fn flush_final(&self) -> (open: Vec<HttpTransaction>)
        ensures
            transaction_views(open@) == pending(self@),
    {
        let mut open: Vec<HttpTransaction> = Vec::new();
        let mut i: usize = 0;
        assert(self@.take(0) =~= Seq::<FlowView>::empty());
        assert(transaction_views(open@) =~= pending(self@.take(0)));
        while i < self.flows.len()
            invariant
                i <= self.flows@.len(),
                transaction_views(open@) == pending(self@.take(i as int)),
            decreases self.flows@.len() - i,
        {
            let ghost so_far = transaction_views(open@);
            assert(self@.take(i + 1).drop_last() =~= self@.take(i as int));
            assert(self@.take(i + 1).last() == self.flows@[i as int]@);
            match &self.flows[i].stream.current_tx {
                Some(tx) => {
                    if !tx.req_header_text.as_str().is_empty() {
                        let copy = tx.snapshot();
                        open.push(copy);
                        assert(transaction_views(open@) =~= so_far.push(tx@));
                    }
                },
                None => {},
            }
            i += 1;
        }
        assert(self@.take(i as int) =~= self@);
        open
    }

    /// The flows of the table, in the order in which they were first seen.
    pub fn flows(&self) -> (flows: &[FlowEntry])
        ensures
            flow_views(flows@) == self@,
            table_wf(self@),
    {
        proof {
            use_type_invariant(self);
        }
        self.flows.as_slice()
    }
}

} // verus!
