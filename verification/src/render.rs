//! The transcript: transactions as coloured text for a terminal.

use crate::text::{
    chars_of, decimal_text, lossy_text, push_chars, push_decimal, trim, trim_bounds, utf8_lossy,
};
use crate::transaction::{HttpTransaction, TransactionView};
use vstd::prelude::*;

verus! {

/// The canonical pretty form, indented by two blanks per level, of the JSON
/// value that `text` spells; `None` where `text` is no JSON.
pub uninterp spec fn json_pretty_form(text: Seq<char>) -> Option<Seq<char>>;

/// Reads `text` as JSON with `serde_json::from_str`, into a
/// `serde_json::Value`, and writes that value with
/// `serde_json::to_string_pretty`. The outcome depends on the text alone;
/// the contract names it and claims nothing else. A failure of either call
/// yields `None`.
#[verifier::external_body]
pub(crate) fn json_pretty(text: &str) -> (pretty: Option<String>)
    ensures
        (match pretty {
            Some(p) => Some(p@),
            None => None,
        }) == json_pretty_form(text@),
{
    let value: serde_json::Value = serde_json::from_str(text).ok()?;
    serde_json::to_string_pretty(&value).ok()
}

/// `s` begins with `prefix`.
pub open spec fn starts_with(s: Seq<char>, prefix: Seq<char>) -> bool {
    prefix.len() <= s.len() && s.take(prefix.len() as int) == prefix
}

/// The text that is tried as JSON: `raw` without a leading `data: `, and
/// trimmed.
pub open spec fn json_candidate(raw: Seq<char>) -> Seq<char> {
    if starts_with(raw, "data: "@) {
        trim(raw.skip("data: "@.len() as int))
    } else {
        trim(raw)
    }
}

/// The offset of the first line feed in `text`, or the length of `text`
/// where it has none.
pub open spec fn first_newline(text: Seq<char>) -> int
    decreases text.len(),
{
    if text.len() == 0 {
        0
    } else if text[0] == '\n' {
        0
    } else {
        1 + first_newline(text.skip(1))
    }
}

/// A line without the carriage return that ended it.
pub open spec fn strip_cr(line: Seq<char>) -> Seq<char> {
    if line.len() > 0 && line.last() == '\r' {
        line.drop_last()
    } else {
        line
    }
}

/// Every line of `text` behind `indent`, each ended by a line feed. Lines
/// end at a line feed, with the carriage return before it if there is one;
/// the end of the last line may be missing.
pub open spec fn indent_lines(text: Seq<char>, indent: Seq<char>) -> Seq<char>
    decreases text.len(),
{
    if text.len() == 0 {
        Seq::empty()
    } else {
        let cut = first_newline(text);
        if 0 <= cut < text.len() {
            indent + strip_cr(text.take(cut)) + "\n"@ + indent_lines(text.skip(cut + 1), indent)
        } else {
            indent + text + "\n"@
        }
    }
}

/// A body or an event as it is shown: pretty-printed where it is JSON,
/// and as it is otherwise, behind `indent`.
pub open spec fn pretty_json_text(raw: Seq<char>, indent: Seq<char>) -> Seq<char> {
    match json_pretty_form(json_candidate(raw)) {
        Some(pretty) => indent_lines(pretty, indent),
        None => indent + raw + "\n"@,
    }
}

/// Tells whether `chars` begins with `prefix`.
pub fn chars_start_with(chars: &[char], prefix: &[char]) -> (r: bool)
    ensures
        r == starts_with(chars@, prefix@),
{
    if prefix.len() > chars.len() {
        return false;
    }
    let mut i: usize = 0;
    while i < prefix.len()
        invariant
            i <= prefix@.len() <= chars@.len(),
            forall|j: int| 0 <= j < i ==> chars@[j] == #[trigger] prefix@[j],
        decreases prefix@.len() - i,
    {
        if chars[i] != prefix[i] {
            assert(chars@.take(prefix@.len() as int)[i as int] != prefix@[i as int]);
            return false;
        }
        i += 1;
    }
    assert(chars@.take(prefix@.len() as int) =~= prefix@);
    true
}

fn find_newline(chars: &[char], from: usize) -> (cut: usize)
    requires
        from <= chars@.len(),
    ensures
        from <= cut <= chars@.len(),
        cut == from + first_newline(chars@.skip(from as int)),
{
    let mut i: usize = from;
    while i < chars.len() && chars[i] != '\n'
        invariant
            from <= i <= chars@.len(),
            from + first_newline(chars@.skip(from as int)) == i + first_newline(
                chars@.skip(i as int),
            ),
        decreases chars@.len() - i,
    {
        assert(chars@.skip(i as int).skip(1) =~= chars@.skip(i + 1));
        i += 1;
    }
    i
}

fn push_indented_lines(out: &mut String, chars: &[char], indent: &str)
    ensures
        final(out)@ == old(out)@ + indent_lines(chars@, indent@),
{
    let len: usize = chars.len();
    let mut start: usize = 0;
    assert(chars@.skip(0) =~= chars@);
    while start < len
        invariant
            start <= len == chars@.len(),
            out@ + indent_lines(chars@.skip(start as int), indent@) == old(out)@ + indent_lines(
                chars@,
                indent@,
            ),
        decreases len - start,
    {
        let ghost rest = chars@.skip(start as int);
        let ghost before = out@;
        let cut = find_newline(chars, start);
        out.append(indent);
        if cut < len {
            let end: usize = if cut > start && chars[cut - 1] == '\r' {
                cut - 1
            } else {
                cut
            };
            push_chars(out, chars, start, end);
            out.append("\n");
            proof {
                assert(rest.take(cut - start) =~= chars@.subrange(start as int, cut as int));
                assert(strip_cr(rest.take(cut - start)) =~= chars@.subrange(
                    start as int,
                    end as int,
                ));
                assert(rest.skip(cut - start + 1) =~= chars@.skip(cut + 1));
                assert(out@ =~= before + (indent@ + strip_cr(rest.take(cut - start)) + "\n"@));
                assert(out@ + indent_lines(chars@.skip(cut + 1), indent@) =~= before
                    + indent_lines(rest, indent@));
            }
            start = cut + 1;
        } else {
            push_chars(out, chars, start, len);
            out.append("\n");
            proof {
                assert(chars@.subrange(start as int, len as int) =~= rest);
                assert(chars@.skip(len as int) =~= Seq::<char>::empty());
                assert(out@ =~= before + (indent@ + rest + "\n"@));
                assert(out@ + indent_lines(chars@.skip(len as int), indent@) =~= before
                    + indent_lines(rest, indent@));
            }
            start = len;
        }
    }
    assert(chars@.skip(start as int) =~= Seq::<char>::empty());
    assert(out@ + indent_lines(Seq::<char>::empty(), indent@) =~= out@);
}

/// Appends a body or an event to `out` as it is shown.
pub fn push_pretty_json(out: &mut String, raw: &str, indent: &str)
    ensures
        final(out)@ == old(out)@ + pretty_json_text(raw@, indent@),
{
    let chars = chars_of(raw);
    let prefix = chars_of("data: ");
    let from: usize = if chars_start_with(chars.as_slice(), prefix.as_slice()) {
        prefix.len()
    } else {
        0
    };
    let (a, b) = trim_bounds(chars.as_slice(), from, chars.len());
    let mut candidate = String::new();
    push_chars(&mut candidate, chars.as_slice(), a, b);
    proof {
        assert(chars@.subrange(from as int, chars@.len() as int) =~= chars@.skip(from as int));
        assert(chars@.skip(0) =~= chars@);
        assert(candidate@ =~= json_candidate(raw@));
    }
    match json_pretty(candidate.as_str()) {
        Some(pretty) => {
            let lines = chars_of(pretty.as_str());
            push_indented_lines(out, lines.as_slice(), indent);
        },
        None => {
            out.append(indent);
            out.append(raw);
            out.append("\n");
            assert(out@ =~= old(out)@ + (indent@ + raw@ + "\n"@));
        },
    }
}

/// Renders a body or an event: pretty-printed where it is JSON, and as it
/// is otherwise, every line behind `indent`.
pub fn pretty_json(raw: &str, indent: &str) -> (text: String)
    ensures
        text@ == pretty_json_text(raw@, indent@),
{
    let mut text = String::new();
    push_pretty_json(&mut text, raw, indent);
    assert(text@ =~= pretty_json_text(raw@, indent@));
    text
}

/// A body under its dim label; nothing for an empty body.
pub open spec fn body_text(label: Seq<char>, body: Seq<u8>) -> Seq<char> {
    if body.len() > 0 {
        "  \x1b[90m["@ + label + "]\x1b[0m\n"@ + pretty_json_text(utf8_lossy(body), "    "@)
    } else {
        Seq::empty()
    }
}

/// The event with number `number` as it is shown: a keep-alive comment
/// dimmed on one line, any other event pretty-printed under a yellow label.
pub open spec fn event_text(number: nat, event: Seq<char>) -> Seq<char> {
    if starts_with(event, ": ping"@) {
        "    \x1b[90m["@ + decimal_text(number) + "] "@ + event + "\x1b[0m\n"@
    } else {
        "    \x1b[33m[Event "@ + decimal_text(number) + "]\x1b[0m\n"@ + pretty_json_text(
            event,
            "      "@,
        )
    }
}

/// All events as they are shown, numbered from 1.
pub open spec fn events_text(events: Seq<Seq<char>>) -> Seq<char>
    decreases events.len(),
{
    if events.len() == 0 {
        Seq::empty()
    } else {
        events_text(events.drop_last()) + event_text(events.len(), events.last())
    }
}

/// The request of a transaction as it is shown: head, then body.
pub open spec fn request_block(tx: TransactionView) -> Seq<char> {
    tx.req_header_text + "\n"@ + body_text("Request Body"@, tx.req_body_bytes)
}

/// An event stream as it is shown after an update: a magenta label with
/// the number of events so far, the request, the response head, every
/// event, and a magenta rule.
pub open spec fn session_text(tx: TransactionView) -> Seq<char> {
    "\n\x1b[1;35m[SSE 会话更新 - 累计事件: "@ + decimal_text(tx.res_body_events.len()) + "]\x1b[0m\n"@
        + request_block(tx) + "\n"@ + tx.res_header_text + "\n"@ + events_text(tx.res_body_events)
        + "\x1b[1;35m--------------------------------------------------\x1b[0m\n"@
}

/// A framed transaction as it is shown: between two bright-cyan rules the
/// request, the response head and the response body.
pub open spec fn exchange_text(tx: TransactionView) -> Seq<char> {
    "\n\x1b[1;36m==================== TRANSACTION ====================\x1b[0m\n"@ + request_block(tx)
        + "\n"@ + tx.res_header_text + "\n"@ + body_text("Response Body"@, tx.res_body_bytes)
        + "\x1b[1;36m=====================================================\x1b[0m\n\n"@
}

/// What is shown of an emitted transaction: an event stream in full, each
/// time; a framed transaction once, and nothing after that.
pub open spec fn output_text(tx: TransactionView) -> Seq<char> {
    if tx.is_sse {
        session_text(tx)
    } else if !tx.req_already_emitted {
        exchange_text(tx)
    } else {
        Seq::empty()
    }
}

/// The response of an unfinished transaction as far as it has arrived.
pub open spec fn partial_response_text(tx: TransactionView) -> Seq<char> {
    (if tx.res_header_text.len() > 0 {
        "\n"@ + tx.res_header_text + "\n"@
    } else {
        Seq::empty()
    }) + body_text("Response Body"@, tx.res_body_bytes) + events_text(tx.res_body_events)
}

/// What a final flush shows of an unfinished transaction: the request,
/// what has arrived of the response, and a bright-cyan rule.
pub open spec fn flush_text(tx: TransactionView) -> Seq<char> {
    request_block(tx) + partial_response_text(tx)
        + "\x1b[1;36m=====================================================\x1b[0m\n"@
}

fn push_body(out: &mut String, label: &str, body: &[u8])
    ensures
        final(out)@ == old(out)@ + body_text(label@, body@),
{
    if body.len() > 0 {
        out.append("  \x1b[90m[");
        out.append(label);
        out.append("]\x1b[0m\n");
        let text = lossy_text(body);
        push_pretty_json(out, text.as_str(), "    ");
        assert(out@ =~= old(out)@ + body_text(label@, body@));
    } else {
        assert(out@ =~= old(out)@ + Seq::<char>::empty());
    }
}

fn push_event(out: &mut String, number: usize, event: &str)
    ensures
        final(out)@ == old(out)@ + event_text(number as nat, event@),
{
    let chars = chars_of(event);
    let ping = chars_of(": ping");
    if chars_start_with(chars.as_slice(), ping.as_slice()) {
        out.append("    \x1b[90m[");
        push_decimal(out, number);
        out.append("] ");
        out.append(event);
        out.append("\x1b[0m\n");
        assert(out@ =~= old(out)@ + event_text(number as nat, event@));
    } else {
        out.append("    \x1b[33m[Event ");
        push_decimal(out, number);
        out.append("]\x1b[0m\n");
        push_pretty_json(out, event, "      ");
        assert(out@ =~= old(out)@ + event_text(number as nat, event@));
    }
}

fn push_events(out: &mut String, events: &Vec<String>)
    ensures
        final(out)@ == old(out)@ + events_text(events.deep_view()),
{
    let ghost all = events.deep_view();
    let mut i: usize = 0;
    assert(all.take(0) =~= Seq::<Seq<char>>::empty());
    assert(out@ =~= old(out)@ + events_text(all.take(0)));
    while i < events.len()
        invariant
            i <= events@.len(),
            all == events.deep_view(),
            out@ == old(out)@ + events_text(all.take(i as int)),
        decreases events@.len() - i,
    {
        push_event(out, i + 1, events[i].as_str());
        proof {
            assert(all.take(i + 1).drop_last() =~= all.take(i as int));
            assert(all.take(i + 1).last() == events@[i as int]@);
            assert(out@ =~= old(out)@ + events_text(all.take(i + 1)));
        }
        i += 1;
    }
    assert(all.take(i as int) =~= all);
}

fn push_request_block(out: &mut String, tx: &HttpTransaction)
    ensures
        final(out)@ == old(out)@ + request_block(tx@),
{
    out.append(tx.req_header_text.as_str());
    out.append("\n");
    push_body(out, "Request Body", tx.req_body_bytes.as_slice());
    assert(out@ =~= old(out)@ + request_block(tx@));
}

fn render_session(tx: &HttpTransaction) -> (text: String)
    ensures
        text@ == session_text(tx@),
{
    let mut text = String::new();
    text.append("\n\x1b[1;35m[SSE 会话更新 - 累计事件: ");
    push_decimal(&mut text, tx.res_body_events.len());
    text.append("]\x1b[0m\n");
    push_request_block(&mut text, tx);
    text.append("\n");
    text.append(tx.res_header_text.as_str());
    text.append("\n");
    push_events(&mut text, &tx.res_body_events);
    text.append("\x1b[1;35m--------------------------------------------------\x1b[0m\n");
    assert(text@ =~= session_text(tx@));
    text
}

fn render_exchange(tx: &HttpTransaction) -> (text: String)
    ensures
        text@ == exchange_text(tx@),
{
    let mut text = String::new();
    text.append("\n\x1b[1;36m==================== TRANSACTION ====================\x1b[0m\n");
    push_request_block(&mut text, tx);
    text.append("\n");
    text.append(tx.res_header_text.as_str());
    text.append("\n");
    push_body(&mut text, "Response Body", tx.res_body_bytes.as_slice());
    text.append("\x1b[1;36m=====================================================\x1b[0m\n\n");
    assert(text@ =~= exchange_text(tx@));
    text
}

/// Renders an emitted transaction for the transcript, and marks a framed
/// transaction as shown.
pub fn output_transaction(tx: &mut HttpTransaction) -> (text: String)
    ensures
        text@ == output_text(old(tx)@),
        final(tx)@ == (TransactionView {
            req_already_emitted: old(tx)@.req_already_emitted || !old(tx)@.is_sse,
            ..old(tx)@
        }),
{
    if tx.is_sse {
        render_session(tx)
    } else if !tx.req_already_emitted {
        let text = render_exchange(tx);
        tx.req_already_emitted = true;
        text
    } else {
        String::new()
    }
}

/// Renders, at the end of the capture, what has arrived of an unfinished
/// transaction.
pub fn render_flush(tx: &HttpTransaction) -> (text: String)
    ensures
        text@ == flush_text(tx@),
{
    let mut text = String::new();
    push_request_block(&mut text, tx);
    let ghost start = text@;
    if !tx.res_header_text.as_str().is_empty() {
        text.append("\n");
        text.append(tx.res_header_text.as_str());
        text.append("\n");
    }
    push_body(&mut text, "Response Body", tx.res_body_bytes.as_slice());
    push_events(&mut text, &tx.res_body_events);
    assert(text@ =~= start + partial_response_text(tx@));
    text.append("\x1b[1;36m=====================================================\x1b[0m\n");
    assert(text@ =~= flush_text(tx@));
    text
}

} // verus!
