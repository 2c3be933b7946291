use flowtrace::machine::{process_stream, Emission, StreamBuffer};
use flowtrace::render::{chars_start_with, output_transaction, pretty_json, push_pretty_json, render_flush};
use flowtrace::table::FlowTable;
use flowtrace::flow::{FlowKey, IpAddress};
use flowtrace::transaction::HttpTransaction;

const CYAN_RULE: &str = "\u{1b}[1;36m=====================================================\u{1b}[0m\n";

fn emitted(data: &[u8]) -> Vec<HttpTransaction> {
    let mut stream = StreamBuffer::new();
    stream.data.extend_from_slice(data);
    process_stream(&mut stream)
        .emissions
        .into_iter()
        .map(|e| match e {
            Emission::Complete(tx) => tx,
            Emission::SseUpdate(tx) => tx,
        })
        .collect()
}

#[test]
fn json_is_pretty_printed_behind_the_indent() {
    assert_eq!(pretty_json("{\"n\":1}", "    "), "    {\n      \"n\": 1\n    }\n");
    assert_eq!(pretty_json("[1,{\"a\":[]}]", "> "), "> [\n>   1,\n>   {\n>     \"a\": []\n>   }\n> ]\n");
    assert_eq!(pretty_json("17", ""), "17\n");
    assert_eq!(pretty_json("\"a\\nb\"", "  "), "  \"a\\nb\"\n");
}

#[test]
fn a_data_prefix_and_blanks_are_stripped_before_parsing() {
    assert_eq!(pretty_json("data: {\"n\":1}", "  "), "  {\n    \"n\": 1\n  }\n");
    assert_eq!(pretty_json("data:   [ ]  ", "  "), "  []\n");
    assert_eq!(pretty_json("  null\n", "-"), "-null\n");
    assert_eq!(pretty_json("data: data: 1", "  "), "  data: data: 1\n");
    assert_eq!(pretty_json(" data: 1", "  "), "   data: 1\n");
}

#[test]
fn what_is_no_json_is_shown_as_it_is() {
    assert_eq!(pretty_json("ok", "    "), "    ok\n");
    assert_eq!(pretty_json("", "    "), "    \n");
    assert_eq!(pretty_json("data: hello ", "  "), "  data: hello \n");
    assert_eq!(pretty_json("{\"n\":", "  "), "  {\"n\":\n");
    assert_eq!(pretty_json("a\nb", "  "), "  a\nb\n");
}

#[test]
fn pretty_json_is_appended_to_what_is_there() {
    let mut out = String::from("head\n");
    push_pretty_json(&mut out, "true", "  ");
    assert_eq!(out, "head\n  true\n");
}

#[test]
fn prefixes_are_compared_character_by_character() {
    let chars: Vec<char> = ": ping 1".chars().collect();
    let ping: Vec<char> = ": ping".chars().collect();
    assert!(chars_start_with(&chars, &ping));
    assert!(chars_start_with(&chars, &[]));
    assert!(chars_start_with(&ping, &ping));
    assert!(!chars_start_with(&ping, &chars));
    assert!(!chars_start_with(&chars, &[':', 'p']));
}

#[test]
fn a_framed_transaction_is_shown_between_two_rules() {
    let mut done = emitted(
        b"POST /a HTTP/1.1\r\nContent-Length: 7\r\n\r\n{\"q\":1}HTTP/1.1 200 OK\r\nContent-Length: 2\r\n\r\nok",
    );
    assert_eq!(done.len(), 1);
    let text = output_transaction(&mut done[0]);
    let expected = String::new()
        + "\n\u{1b}[1;36m==================== TRANSACTION ====================\u{1b}[0m\n"
        + "\u{1b}[1;32m▶ REQUEST: POST /a\u{1b}[0m\n"
        + "  Content-Length: 7\n"
        + "\n"
        + "  \u{1b}[90m[Request Body]\u{1b}[0m\n"
        + "    {\n      \"q\": 1\n    }\n"
        + "\n"
        + "\u{1b}[1;34m◀ RESPONSE: 200 OK\u{1b}[0m\n"
        + "  Content-Length: 2\n"
        + "\n"
        + "  \u{1b}[90m[Response Body]\u{1b}[0m\n"
        + "    ok\n"
        + CYAN_RULE
        + "\n";
    assert_eq!(text, expected);
    assert!(done[0].req_already_emitted);
}

#[test]
fn a_framed_transaction_is_shown_once() {
    let mut done = emitted(b"GET /a HTTP/1.1\r\n\r\nHTTP/1.1 204 No Content\r\n\r\n");
    let first = output_transaction(&mut done[0]);
    let expected = String::new()
        + "\n\u{1b}[1;36m==================== TRANSACTION ====================\u{1b}[0m\n"
        + "\u{1b}[1;32m▶ REQUEST: GET /a\u{1b}[0m\n"
        + "\n"
        + "\n"
        + "\u{1b}[1;34m◀ RESPONSE: 204 No Content\u{1b}[0m\n"
        + "\n"
        + CYAN_RULE
        + "\n";
    assert_eq!(first, expected);
    assert!(done[0].req_already_emitted);
    assert_eq!(output_transaction(&mut done[0]), "");
    assert!(done[0].req_already_emitted);
}

#[test]
fn an_event_stream_is_shown_in_full_each_time() {
    let mut seen = emitted(
        b"GET /e HTTP/1.1\r\n\r\nHTTP/1.1 200 OK\r\nContent-Type: text/event-stream\r\n\r\ndata: {\"n\":1}\n\n: ping 7\n\ndata: plain\n\n",
    );
    assert_eq!(seen.len(), 1);
    let text = output_transaction(&mut seen[0]);
    let expected = String::new()
        + "\n\u{1b}[1;35m[SSE 会话更新 - 累计事件: 3]\u{1b}[0m\n"
        + "\u{1b}[1;32m▶ REQUEST: GET /e\u{1b}[0m\n"
        + "\n"
        + "\n"
        + "\u{1b}[1;34m◀ RESPONSE: 200 OK\u{1b}[0m\n"
        + "  Content-Type: text/event-stream\n"
        + "\n"
        + "    \u{1b}[33m[Event 1]\u{1b}[0m\n"
        + "      {\n        \"n\": 1\n      }\n"
        + "    \u{1b}[90m[2] : ping 7\u{1b}[0m\n"
        + "    \u{1b}[33m[Event 3]\u{1b}[0m\n"
        + "      data: plain\n"
        + "\u{1b}[1;35m--------------------------------------------------\u{1b}[0m\n";
    assert_eq!(text, expected);
    assert!(!seen[0].req_already_emitted);
    assert_eq!(output_transaction(&mut seen[0]), expected);
}

#[test]
fn a_flush_after_the_request_shows_the_request_only() {
    let mut table = FlowTable::new();
    let key = FlowKey::new(IpAddress::V4(1), 1, IpAddress::V4(2), 2);
    let progress = table.ingest(key, b"GET /a HTTP/1.1\r\nHost: x\r\n\r\n");
    assert!(progress.emissions.is_empty());
    let open = table.flush_final();
    assert_eq!(open.len(), 1);
    let text = render_flush(&open[0]);
    let expected = String::new()
        + "\u{1b}[1;32m▶ REQUEST: GET /a\u{1b}[0m\n"
        + "  Host: x\n"
        + "\n"
        + CYAN_RULE;
    assert_eq!(text, expected);
    assert!(!text.contains("RESPONSE"));
}

#[test]
fn a_flush_shows_what_has_arrived_of_the_response() {
    let mut stream = StreamBuffer::new();
    stream.data.extend_from_slice(
        b"POST /a HTTP/1.1\r\nContent-Length: 2\r\n\r\n{}HTTP/1.1 200 OK\r\nContent-Length: 9\r\n\r\n[1,",
    );
    assert!(process_stream(&mut stream).emissions.is_empty());
    let text = render_flush(stream.current_tx.as_ref().unwrap());
    let expected = String::new()
        + "\u{1b}[1;32m▶ REQUEST: POST /a\u{1b}[0m\n"
        + "  Content-Length: 2\n"
        + "\n"
        + "  \u{1b}[90m[Request Body]\u{1b}[0m\n"
        + "    {}\n"
        + "\n"
        + "\u{1b}[1;34m◀ RESPONSE: 200 OK\u{1b}[0m\n"
        + "  Content-Length: 9\n"
        + "\n"
        + "  \u{1b}[90m[Response Body]\u{1b}[0m\n"
        + "    [1,\n"
        + CYAN_RULE;
    assert_eq!(text, expected);
}

#[test]
fn a_flush_shows_the_events_of_an_event_stream() {
    let mut stream = StreamBuffer::new();
    stream.data.extend_from_slice(
        b"GET /e HTTP/1.1\r\n\r\nHTTP/1.1 200 OK\r\nContent-Type: text/event-stream\r\n\r\n: ping\n\n",
    );
    process_stream(&mut stream);
    let text = render_flush(stream.current_tx.as_ref().unwrap());
    let expected = String::new()
        + "\u{1b}[1;32m▶ REQUEST: GET /e\u{1b}[0m\n"
        + "\n"
        + "\n"
        + "\u{1b}[1;34m◀ RESPONSE: 200 OK\u{1b}[0m\n"
        + "  Content-Type: text/event-stream\n"
        + "\n"
        + "    \u{1b}[90m[1] : ping\u{1b}[0m\n"
        + CYAN_RULE;
    assert_eq!(text, expected);
}

#[test]
fn a_body_that_is_no_text_is_shown_with_replacement_characters() {
    let mut done = emitted(b"GET / HTTP/1.1\r\n\r\nHTTP/1.1 200 OK\r\nContent-Length: 3\r\n\r\na\xffb");
    let text = output_transaction(&mut done[0]);
    assert!(text.contains("  \u{1b}[90m[Response Body]\u{1b}[0m\n    a\u{fffd}b\n"));
}
