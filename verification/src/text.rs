//! Text as sequences of characters: decoding, trimming, decimal numbers and
//! the blank-line framing of event streams.

use vstd::prelude::*;

verus! {

/// The text that a lossy UTF-8 decoding of `bytes` yields: valid sequences
/// decode to their characters, and each invalid one to U+FFFD.
pub uninterp spec fn utf8_lossy(bytes: Seq<u8>) -> Seq<char>;

/// Decodes bytes as UTF-8 with `String::from_utf8_lossy`. The decoding
/// depends on the bytes alone; the contract names its result and claims
/// nothing else of it.
#[verifier::external_body]
pub(crate) fn lossy_text(bytes: &[u8]) -> (text: String)
    ensures
        text@ == utf8_lossy(bytes@),
{
    String::from_utf8_lossy(bytes).into_owned()
}

/// Appends one character with `String::push`.
#[verifier::external_body]
pub(crate) fn push_char(text: &mut String, c: char)
    ensures
        final(text)@ == old(text)@.push(c),
{
    text.push(c);
}

/// The characters of a string, in order.
pub fn chars_of(text: &str) -> (chars: Vec<char>)
    ensures
        chars@ == text@,
{
    let mut chars: Vec<char> = Vec::new();
    for c in it: text.chars()
        invariant
            chars@ == it.seq().take(it.index() as int),
            it.seq() == text@,
    {
        chars.push(c);
    }
    chars
}

/// Appends the characters `chars[from..to]` to `out`.
pub fn push_chars(out: &mut String, chars: &[char], from: usize, to: usize)
    requires
        from <= to <= chars@.len(),
    ensures
        final(out)@ == old(out)@ + chars@.subrange(from as int, to as int),
{
    let mut i: usize = from;
    while i < to
        invariant
            from <= i <= to <= chars@.len(),
            out@ == old(out)@ + chars@.subrange(from as int, i as int),
        decreases to - i,
    {
        push_char(out, chars[i]);
        assert(chars@.subrange(from as int, i + 1) =~= chars@.subrange(from as int, i as int).push(
            chars@[i as int],
        ));
        i += 1;
    }
}

/// The characters with the Unicode property `White_Space`.
pub open spec fn is_whitespace(c: char) -> bool {
    let n = c as u32;
    ||| 0x09 <= n <= 0x0d
    ||| n == 0x20
    ||| n == 0x85
    ||| n == 0xa0
    ||| n == 0x1680
    ||| 0x2000 <= n <= 0x200a
    ||| n == 0x2028
    ||| n == 0x2029
    ||| n == 0x202f
    ||| n == 0x205f
    ||| n == 0x3000
}

pub open spec fn trim_start(s: Seq<char>) -> Seq<char>
    decreases s.len(),
{
    if s.len() > 0 && is_whitespace(s.first()) {
        trim_start(s.drop_first())
    } else {
        s
    }
}

pub open spec fn trim_end(s: Seq<char>) -> Seq<char>
    decreases s.len(),
{
    if s.len() > 0 && is_whitespace(s.last()) {
        trim_end(s.drop_last())
    } else {
        s
    }
}

/// `s` without its leading and trailing whitespace.
pub open spec fn trim(s: Seq<char>) -> Seq<char> {
    trim_end(trim_start(s))
}

/// The offset of the first blank-line break (two line feeds in a row) in
/// `text`, or the length of `text` where it has none.
pub open spec fn first_break(text: Seq<char>) -> int
    decreases text.len(),
{
    if text.len() < 2 {
        text.len() as int
    } else if text[0] == '\n' && text[1] == '\n' {
        0
    } else {
        1 + first_break(text.skip(1))
    }
}

/// The events of an event stream: the blocks between blank-line breaks,
/// each trimmed, without those that trimming leaves empty.
pub open spec fn sse_events(text: Seq<char>) -> Seq<Seq<char>>
    decreases text.len(),
{
    let cut = first_break(text);
    let block = trim(text.take(cut));
    let here = if block.len() > 0 {
        seq![block]
    } else {
        Seq::empty()
    };
    if 0 <= cut && cut + 2 <= text.len() {
        here + sse_events(text.skip(cut + 2))
    } else {
        here
    }
}

/// The character of a decimal digit.
pub open spec fn digit_char(d: nat) -> char {
    ((0x30 + d) as u8) as char
}

/// A number written in decimal, without sign or leading zeros.
pub open spec fn decimal_text(n: nat) -> Seq<char>
    decreases n,
{
    if n < 10 {
        seq![digit_char(n)]
    } else {
        decimal_text(n / 10).push(digit_char(n % 10))
    }
}

/// Tells whether `c` is whitespace.
pub fn char_is_whitespace(c: char) -> (r: bool)
    ensures
        r == is_whitespace(c),
{
    let n: u32 = c as u32;
    (0x09 <= n && n <= 0x0d) || n == 0x20 || n == 0x85 || n == 0xa0 || n == 0x1680 || (0x2000 <= n
        && n <= 0x200a) || n == 0x2028 || n == 0x2029 || n == 0x202f || n == 0x205f || n == 0x3000
}

/// Finds the bounds of `chars[from..to]` without its leading and trailing
/// whitespace.
pub fn trim_bounds(chars: &[char], from: usize, to: usize) -> (bounds: (usize, usize))
    requires
        from <= to <= chars@.len(),
    ensures
        from <= bounds.0 <= bounds.1 <= to,
        chars@.subrange(bounds.0 as int, bounds.1 as int) == trim(
            chars@.subrange(from as int, to as int),
        ),
{
    let ghost whole = chars@.subrange(from as int, to as int);
    let mut a: usize = from;
    while a < to && char_is_whitespace(chars[a])
        invariant
            from <= a <= to <= chars@.len(),
            trim_start(whole) == trim_start(chars@.subrange(a as int, to as int)),
        decreases to - a,
    {
        assert(chars@.subrange(a as int, to as int).drop_first() =~= chars@.subrange(
            a + 1,
            to as int,
        ));
        a += 1;
    }
    let ghost front = chars@.subrange(a as int, to as int);
    assert(trim_start(whole) == front);
    let mut b: usize = to;
    while b > a && char_is_whitespace(chars[b - 1])
        invariant
            a <= b <= to <= chars@.len(),
            trim_end(front) == trim_end(chars@.subrange(a as int, b as int)),
            front == chars@.subrange(a as int, to as int),
        decreases b - a,
    {
        assert(chars@.subrange(a as int, b as int).drop_last() =~= chars@.subrange(
            a as int,
            b - 1,
        ));
        b -= 1;
    }
    (a, b)
}

/// Finds the first blank-line break at or after `from`.
pub fn find_break(chars: &[char], from: usize) -> (cut: usize)
    requires
        from <= chars@.len(),
    ensures
        from <= cut <= chars@.len(),
        cut == from + first_break(chars@.skip(from as int)),
        cut == chars@.len() || cut + 2 <= chars@.len(),
{
    let len: usize = chars.len();
    let mut i: usize = from;
    while len - i >= 2
        invariant
            from <= i <= len,
            len == chars@.len(),
            from + first_break(chars@.skip(from as int)) == i + first_break(chars@.skip(i as int)),
        decreases len - i,
    {
        if chars[i] == '\n' && chars[i + 1] == '\n' {
            return i;
        }
        assert(chars@.skip(i as int).skip(1) =~= chars@.skip(i + 1));
        i += 1;
    }
    len
}

/// Appends to `events` the events that `chars` holds, and tells whether
/// there was any.
pub fn append_sse_events(chars: &[char], events: &mut Vec<String>) -> (grew: bool)
    ensures
        final(events).deep_view() == old(events).deep_view() + sse_events(chars@),
        grew == (sse_events(chars@).len() > 0),
{
    let len: usize = chars.len();
    let mut grew = false;
    let mut start: usize = 0;
    let ghost mut found: Seq<Seq<char>> = Seq::empty();
    assert(chars@.skip(0) =~= chars@);
    assert(events.deep_view() + found =~= events.deep_view());
    loop
        invariant_except_break
            events.deep_view() == old(events).deep_view() + found,
            sse_events(chars@) == found + sse_events(chars@.skip(start as int)),
            grew == (found.len() > 0),
        invariant
            start <= len == chars@.len(),
        ensures
            events.deep_view() == old(events).deep_view() + sse_events(chars@),
            grew == (sse_events(chars@).len() > 0),
        decreases len - start,
    {
        let ghost rest = chars@.skip(start as int);
        let cut = find_break(chars, start);
        let (a, b) = trim_bounds(chars, start, cut);
        assert(rest.take(cut - start) =~= chars@.subrange(start as int, cut as int));
        let ghost before = events.deep_view();
        if a < b {
            let mut event = String::new();
            push_chars(&mut event, chars, a, b);
            assert(event@ =~= chars@.subrange(a as int, b as int));
            events.push(event);
            assert(events.deep_view() =~= before.push(event@));
            proof {
                found = found.push(event@);
            }
            grew = true;
        }
        let ghost here = if a < b {
            seq![chars@.subrange(a as int, b as int)]
        } else {
            Seq::empty()
        };
        assert(events.deep_view() =~= before + here);
        if len - cut >= 2 {
            assert(rest.skip(cut - start + 2) =~= chars@.skip(cut + 2));
            assert(sse_events(rest) == here + sse_events(chars@.skip(cut + 2)));
            assert(sse_events(chars@) =~= found + sse_events(chars@.skip(cut + 2)));
            start = cut + 2;
        } else {
            assert(sse_events(rest) == here);
            assert(sse_events(chars@) =~= found);
            break;
        }
    }
    grew
}

fn digit_of(d: usize) -> (c: char)
    requires
        d < 10,
    ensures
        c == digit_char(d as nat),
{
    ((0x30 + d) as u8) as char
}

/// Appends `n` in decimal to `out`.
pub fn push_decimal(out: &mut String, n: usize)
    ensures
        final(out)@ == old(out)@ + decimal_text(n as nat),
    decreases n,
{
    if n >= 10 {
        push_decimal(out, n / 10);
    }
    push_char(out, digit_of(n % 10));
    assert(out@ =~= old(out)@ + decimal_text(n as nat));
}

} // verus!
