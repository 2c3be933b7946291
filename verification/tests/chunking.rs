use flowtrace::flow::{FlowKey, IpAddress};
use flowtrace::machine::Emission;
use flowtrace::table::FlowTable;
use flowtrace::transaction::{HttpTransaction, TransactionState};

const TRAFFIC: &[u8] = b"POST /a HTTP/1.1\r\nHost: x\r\nContent-Length: 7\r\n\r\n{\"q\":1}HTTP/1.1 200 OK\r\nContent-Length: 2\r\n\r\nokGET /b HTTP/1.1\r\n\r\nHTTP/1.1 204 No Content\r\n\r\nGET /c HTTP/1.1\r\n\r\nHTTP/1.1 200 OK\r\nContent-Length: 5\r\n\r\nhel";

type Summary = (String, Vec<u8>, usize, String, Vec<u8>, usize, bool, TransactionState);

fn summary(tx: &HttpTransaction) -> Summary {
    (
        tx.req_header_text.clone(),
        tx.req_body_bytes.clone(),
        tx.expected_req_len,
        tx.res_header_text.clone(),
        tx.res_body_bytes.clone(),
        tx.expected_res_len,
        tx.is_sse,
        tx.state,
    )
}

fn run(chunks: &[&[u8]]) -> (Vec<Summary>, Vec<u8>, Option<Summary>) {
    let key = FlowKey::new(IpAddress::V4(1), 1, IpAddress::V4(2), 2);
    let mut table = FlowTable::new();
    let mut completed = Vec::new();
    for chunk in chunks {
        for e in table.ingest(key, chunk).emissions {
            match e {
                Emission::Complete(tx) => completed.push(summary(&tx)),
                Emission::SseUpdate(_) => panic!("no event stream here"),
            }
        }
    }
    match table.flows().first() {
        Some(entry) => {
            (completed, entry.stream.data.clone(), entry.stream.current_tx.as_ref().map(summary))
        }
        None => (completed, Vec::new(), None),
    }
}

#[test]
fn the_whole_traffic_completes_two_transactions() {
    let (completed, rest, open) = run(&[TRAFFIC]);
    assert_eq!(completed.len(), 2);
    assert_eq!(completed[0].1, b"{\"q\":1}".to_vec());
    assert_eq!(completed[0].4, b"ok".to_vec());
    assert_eq!(completed[1].0, "\u{1b}[1;32m▶ REQUEST: GET /b\u{1b}[0m\n");
    assert_eq!(completed[1].3, "\u{1b}[1;34m◀ RESPONSE: 204 No Content\u{1b}[0m\n");
    assert!(rest.is_empty());
    let open = open.unwrap();
    assert_eq!(open.4, b"hel".to_vec());
    assert_eq!(open.5, 5);
    assert_eq!(open.7, TransactionState::ResponseBody);
}

#[test]
fn every_cut_in_two_gives_the_same_transactions() {
    let whole = run(&[TRAFFIC]);
    for at in 0..=TRAFFIC.len() {
        assert_eq!(run(&[&TRAFFIC[..at], &TRAFFIC[at..]]), whole);
    }
}

#[test]
fn every_chunk_size_gives_the_same_transactions() {
    let whole = run(&[TRAFFIC]);
    for size in 1..=40 {
        let chunks: Vec<&[u8]> = TRAFFIC.chunks(size).collect();
        assert_eq!(run(&chunks), whole);
    }
}

#[test]
fn uneven_cuts_give_the_same_transactions() {
    let whole = run(&[TRAFFIC]);
    let mut seed: u32 = 12345;
    for _ in 0..200 {
        let mut chunks: Vec<&[u8]> = Vec::new();
        let mut at = 0;
        while at < TRAFFIC.len() {
            seed = seed.wrapping_mul(1_103_515_245).wrapping_add(12345);
            let step = ((seed >> 16) % 23) as usize;
            let end = (at + step).min(TRAFFIC.len());
            chunks.push(&TRAFFIC[at..end]);
            at = end;
        }
        assert_eq!(run(&chunks), whole);
    }
}

#[test]
fn empty_chunks_between_the_others_change_nothing() {
    let whole = run(&[TRAFFIC]);
    assert_eq!(run(&[b"", &TRAFFIC[..30], b"", b"", &TRAFFIC[30..], b""]), whole);
    assert_eq!(run(&[b"", b""]), (Vec::new(), Vec::new(), None));
}
