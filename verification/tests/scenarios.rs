use flowtrace::flow::{FlowKey, IpAddress};
use flowtrace::machine::{Emission, Progress};
use flowtrace::table::FlowTable;
use flowtrace::transaction::{HttpTransaction, TransactionState};

const FRAMED: &str = "GET /a HTTP/1.1\r\nHost: x\r\n\r\nHTTP/1.1 200 OK\r\nContent-Length: 2\r\n\r\nok";

fn key() -> FlowKey {
    FlowKey::new(IpAddress::V4(0x0a00_0001), 1, IpAddress::V4(0x0a00_0002), 2)
}

fn completed(progress: &Progress) -> Vec<&HttpTransaction> {
    progress
        .emissions
        .iter()
        .filter_map(|e| match e {
            Emission::Complete(tx) => Some(tx),
            Emission::SseUpdate(_) => None,
        })
        .collect()
}

fn updates(progress: &Progress) -> Vec<&HttpTransaction> {
    progress
        .emissions
        .iter()
        .filter_map(|e| match e {
            Emission::SseUpdate(tx) => Some(tx),
            Emission::Complete(_) => None,
        })
        .collect()
}

#[test]
fn framed_transaction_in_a_single_chunk() {
    let mut table = FlowTable::new();
    let progress = table.ingest(key(), FRAMED.as_bytes());
    assert_eq!(progress.emissions.len(), 1);
    let done = completed(&progress);
    assert_eq!(done.len(), 1);
    assert_eq!(done[0].res_body_bytes, b"ok".to_vec());
    assert_eq!(done[0].expected_res_len, 2);
    assert_eq!(done[0].state, TransactionState::ResponseBody);
    assert!(!done[0].is_sse);
    assert_eq!(progress.consumed, FRAMED.len());
    assert_eq!(table.flows().len(), 1);
    assert!(table.flows()[0].stream.data.is_empty());
    assert!(table.flows()[0].stream.current_tx.is_none());
}

#[test]
fn framed_request_with_body() {
    let mut table = FlowTable::new();
    let payload =
        "POST /a HTTP/1.1\r\nContent-Length: 3\r\n\r\nfooHTTP/1.1 204 No Content\r\nContent-Length: 0\r\n\r\n";
    let progress = table.ingest(key(), payload.as_bytes());
    let done = completed(&progress);
    assert_eq!(progress.emissions.len(), 1);
    assert_eq!(done.len(), 1);
    assert_eq!(done[0].req_body_bytes, b"foo".to_vec());
    assert_eq!(done[0].expected_req_len, 3);
    assert!(done[0].res_body_bytes.is_empty());
    assert_eq!(done[0].expected_res_len, 0);
}

#[test]
fn framed_transaction_byte_by_byte() {
    let mut whole = FlowTable::new();
    let at_once = whole.ingest(key(), FRAMED.as_bytes());
    let expected = completed(&at_once);

    let mut table = FlowTable::new();
    let mut seen: Vec<HttpTransaction> = Vec::new();
    for b in FRAMED.as_bytes() {
        let progress = table.ingest(key(), &[*b]);
        for e in progress.emissions {
            match e {
                Emission::Complete(tx) => seen.push(tx),
                Emission::SseUpdate(_) => panic!("no event stream here"),
            }
        }
    }
    assert_eq!(seen.len(), 1);
    assert_eq!(expected.len(), 1);
    assert_eq!(seen[0].req_header_text, expected[0].req_header_text);
    assert_eq!(seen[0].req_body_bytes, expected[0].req_body_bytes);
    assert_eq!(seen[0].res_header_text, expected[0].res_header_text);
    assert_eq!(seen[0].res_body_bytes, expected[0].res_body_bytes);
    assert_eq!(seen[0].res_body_bytes, b"ok".to_vec());
    assert_eq!(seen[0].expected_req_len, expected[0].expected_req_len);
    assert_eq!(seen[0].expected_res_len, expected[0].expected_res_len);
    assert_eq!(seen[0].is_sse, expected[0].is_sse);
    assert_eq!(seen[0].state, expected[0].state);
}

#[test]
fn event_stream_response() {
    let mut table = FlowTable::new();
    let payload = "GET /e HTTP/1.1\r\n\r\nHTTP/1.1 200 OK\r\nContent-Type: text/event-stream\r\n\r\ndata: {\"n\":1}\n\ndata: {\"n\":2}\n\n";
    let progress = table.ingest(key(), payload.as_bytes());
    assert!(completed(&progress).is_empty());
    let seen = updates(&progress);
    assert_eq!(seen.len(), 1);
    assert!(seen[0].is_sse);
    assert_eq!(
        seen[0].res_body_events,
        vec!["data: {\"n\":1}".to_string(), "data: {\"n\":2}".to_string()]
    );
    let kept = table.flows()[0].stream.current_tx.as_ref().unwrap();
    assert!(kept.is_sse);
    assert_eq!(kept.res_body_events.len(), 2);
    assert_eq!(kept.state, TransactionState::ResponseBody);
    assert!(table.flows()[0].stream.data.is_empty());
}

#[test]
fn both_directions_share_one_stream() {
    let a = IpAddress::V4(0xc0a8_0001);
    let b = IpAddress::V4(0xc0a8_0002);
    let mut table = FlowTable::new();
    let first = table.ingest(FlowKey::new(a, 1, b, 2), b"GET /a HTTP/1.1\r\nHost: x\r\n\r\n");
    assert!(first.emissions.is_empty());
    let second =
        table.ingest(FlowKey::new(b, 2, a, 1), b"HTTP/1.1 200 OK\r\nContent-Length: 2\r\n\r\nok");
    assert_eq!(table.flows().len(), 1);
    let done = completed(&second);
    assert_eq!(done.len(), 1);
    assert_eq!(done[0].res_body_bytes, b"ok".to_vec());
    assert_eq!(
        done[0].req_header_text,
        "\u{1b}[1;32m▶ REQUEST: GET /a\u{1b}[0m\n  Host: x\n"
    );
    assert_eq!(
        done[0].res_header_text,
        "\u{1b}[1;34m◀ RESPONSE: 200 OK\u{1b}[0m\n  Content-Length: 2\n"
    );
}
