//! What instructions, their frames and their boundaries are, in terms of what
//! is on the wire.

use crate::protocol::{
    behind_semicolon, byte_len, byte_number, char_prefix, digit_byte, digits_end, element_end,
    frame_end, frame_outcome, frames, lead_width, length_at, parse_elements, parsed, remainder,
    separator_at, skip_chars, step_at, ParseError, Step,
};
use crate::text::{first_at, lemma_first_at, lemma_first_at_is, unsigned_upto};
use vstd::prelude::*;
use vstd::utf8::*;

verus! {

// ── Texts ──
/// Nothing, and a bare terminator, hold no instruction. Without a dot there is
/// no element.
pub proof fn law_no_element(s: Seq<char>)
    requires
        forall|i: int| 0 <= i < s.len() ==> s[i] != '.',
    ensures
        s.len() == 0 || s == seq![';'] ==> parsed(s) == Err::<Seq<Seq<char>>, ParseError>(
            ParseError::Empty,
        ),
        s.len() > 0 && s != seq![';'] ==> parsed(s) == Err::<Seq<Seq<char>>, ParseError>(
            ParseError::MalformedElement,
        ),
{
    let t = if s.len() > 0 && s.last() == ';' {
        s.drop_last()
    } else {
        s
    };
    lemma_first_at(t, '.');
    if s.len() == 1 && s.last() == ';' {
        assert(s =~= seq![';']);
    }
    if first_at(t, '.') < t.len() {
        assert(t[first_at(t, '.') as int] == s[first_at(t, '.') as int]);
    }
}

/// An element is what its length says. A prefix that is no number is told, and
/// so is a length that the text cannot give: too few bytes, or an end inside a
/// character. Behind the element the text ends or a comma leads to the next.
pub proof fn law_element_by_element(length: Seq<char>, e: Seq<char>, rest: Seq<char>, n: nat)
    requires
        forall|i: int| 0 <= i < length.len() ==> length[i] != '.',
    ensures
        ({
            let s = length + seq!['.'] + e;
            let read = unsigned_upto(length, usize::MAX as nat);
            &&& read is None ==> parse_elements(s) == Err::<Seq<Seq<char>>, ParseError>(
                ParseError::InvalidLength,
            )
            &&& read == Some(n) && n > byte_len(e) ==> parse_elements(s) == Err::<
                Seq<Seq<char>>,
                ParseError,
            >(ParseError::Truncated)
            &&& read == Some(byte_len(e)) ==> parse_elements(s) == Ok::<Seq<Seq<char>>, ParseError>(
                seq![e],
            )
            &&& read == Some(byte_len(e)) && rest.len() > 0 && rest[0] != ',' ==> parse_elements(
                s + rest,
            ) == Err::<Seq<Seq<char>>, ParseError>(ParseError::UnexpectedChar)
            &&& read == Some(byte_len(e)) && rest.len() > 0 && rest[0] == ',' ==> match parse_elements(
                rest.skip(1),
            ) {
                Ok(v) => parse_elements(s + rest) == Ok::<Seq<Seq<char>>, ParseError>(seq![e] + v),
                Err(x) => parse_elements(s + rest) == Err::<Seq<Seq<char>>, ParseError>(x),
            }
        }),
{
    lemma_element_front(length, e, rest);
    lemma_element_front(length, e, Seq::empty());
    let s = length + seq!['.'] + e;
    assert(s + Seq::<char>::empty() =~= s);
    assert(e + Seq::<char>::empty() =~= e);
    if n > byte_len(e) {
        lemma_prefix_too_long(e, n);
    }
    lemma_prefix_is(e, rest);
    lemma_prefix_is(e, Seq::empty());
    assert((e + rest).take(e.len() as int) =~= e);
    assert((e + rest).skip(e.len() as int) =~= rest);
    assert(e.take(e.len() as int) =~= e);
    assert(e.skip(e.len() as int) =~= Seq::<char>::empty());
}

proof fn lemma_element_front(length: Seq<char>, e: Seq<char>, rest: Seq<char>)
    requires
        forall|i: int| 0 <= i < length.len() ==> length[i] != '.',
    ensures
        ({
            let s = length + seq!['.'] + e + rest;
            &&& first_at(s, '.') == length.len()
            &&& s.take(length.len() as int) == length
            &&& s.skip(length.len() as int + 1) == e + rest
            &&& length.len() < s.len()
        }),
{
    let s = length + seq!['.'] + e + rest;
    assert forall|i: int| 0 <= i < length.len() implies s[i] != '.' by {
        assert(s[i] == length[i]);
    }
    assert(s[length.len() as int] == '.');
    lemma_first_at_is(s, '.', length.len() as int);
    assert(s.take(length.len() as int) =~= length);
    assert(s.skip(length.len() as int + 1) =~= e + rest);
}

proof fn lemma_prefix_too_long(e: Seq<char>, n: nat)
    requires
        n > byte_len(e),
    ensures
        char_prefix(e, n) is None,
    decreases e.len(),
{
    if e.len() > 0 {
        let w = byte_len(e) - byte_len(e.drop_first());
        if w <= n {
            lemma_prefix_too_long(e.drop_first(), (n - w) as nat);
        }
    }
}

proof fn lemma_prefix_is(e: Seq<char>, rest: Seq<char>)
    ensures
        char_prefix(e + rest, byte_len(e)) == Some(e.len()),
    decreases e.len(),
{
    if e.len() > 0 {
        lemma_prefix_is(e.drop_first(), rest);
        assert((e + rest).drop_first() =~= e.drop_first() + rest);
    }
}

/// The terminator is not part of the last element, and may be missing.
pub proof fn law_terminator(s: Seq<char>)
    requires
        s.len() > 0,
    ensures
        parsed(s.push(';')) == parse_elements(s),
        s.last() != ';' ==> parsed(s) == parse_elements(s),
{
    assert(s.push(';').drop_last() =~= s);
}

/// How each error reads.
pub proof fn law_parse_messages()
    ensures
        ParseError::Empty.message_spec() == "empty instruction"@,
        ParseError::MalformedElement.message_spec() == "malformed element (missing '.')"@,
        ParseError::InvalidLength.message_spec() == "invalid length prefix"@,
        ParseError::Truncated.message_spec() == "instruction truncated"@,
        ParseError::UnexpectedChar.message_spec() == "unexpected character in instruction"@,
{
}

// ── Frames ──
/// A frame that does not begin with a length ends behind its first semicolon,
/// and the stream goes on from there.
pub proof fn law_garbage_is_skipped(garbage: Seq<u8>, rest: Seq<u8>)
    requires
        garbage.len() > 0,
        !(0x30 <= garbage[0] <= 0x39),
        forall|i: int| 0 <= i < garbage.len() ==> garbage[i] != 0x3b,
    ensures
        ({
            let b = garbage.push(0x3b) + rest;
            &&& frames(b) == seq![garbage.push(0x3b)] + frames(rest)
            &&& remainder(b) == remainder(rest)
        }),
{
    let b = garbage.push(0x3b) + rest;
    let n = garbage.len();
    assert(b[0] == garbage[0]);
    assert(digits_end(b, 0) == 0);
    assert(step_at(b, 0) == Step::Bad(0));
    assert(b[n as int] == 0x3b);
    assert forall|i: int| 0 <= i < n implies b[i] != 0x3b by {
        assert(b[i] == garbage[i]);
    }
    lemma_semicolon(b, 0, n);
    assert(frame_end(b) == Some(n + 1));
    assert(b.take(n as int + 1) =~= garbage.push(0x3b));
    assert(b.skip(n as int + 1) =~= rest);
}

proof fn lemma_semicolon(b: Seq<u8>, at: nat, n: nat)
    requires
        at <= n < b.len(),
        b[n as int] == 0x3b,
        forall|i: int| at <= i < n ==> b[i] != 0x3b,
    ensures
        behind_semicolon(b, at) == Some(n + 1),
    decreases n - at,
{
    if at < n {
        assert(b[at as int] != 0x3b);
        lemma_semicolon(b, at + 1, n);
    }
}

/// Without a semicolon no frame is complete.
pub proof fn law_frames_need_a_semicolon(b: Seq<u8>)
    requires
        forall|i: int| 0 <= i < b.len() ==> b[i] != 0x3b,
    ensures
        frames(b).len() == 0,
        remainder(b) == b,
{
    lemma_no_frame(b, 0);
}

proof fn lemma_no_frame(b: Seq<u8>, pos: nat)
    requires
        forall|i: int| 0 <= i < b.len() ==> b[i] != 0x3b,
    ensures
        crate::protocol::frame_end_from(b, pos) is None,
    decreases b.len() - pos,
{
    lemma_run(b, pos);
    match step_at(b, pos) {
        Step::Bad(at) => {
            lemma_no_semicolon(b, at);
        },
        Step::Next(next) => {
            lemma_no_frame(b, next);
        },
        _ => {},
    }
}

proof fn lemma_run(b: Seq<u8>, pos: nat)
    ensures
        pos <= digits_end(b, pos),
    decreases b.len() - pos,
{
    if pos < b.len() && digit_byte(b[pos as int]) {
        lemma_run(b, pos + 1);
    }
}

proof fn lemma_no_semicolon(b: Seq<u8>, at: nat)
    requires
        forall|i: int| 0 <= i < b.len() ==> b[i] != 0x3b,
    ensures
        behind_semicolon(b, at) is None,
    decreases b.len() - at,
{
    if at < b.len() {
        lemma_no_semicolon(b, at + 1);
    }
}

/// A frame is parsed as the text that its bytes encode; bytes that encode none
/// are malformed.
pub proof fn law_frames_are_texts(frame: Seq<u8>, s: Seq<char>)
    ensures
        !valid_utf8(frame) ==> frame_outcome(frame) == Err::<Seq<Seq<char>>, ParseError>(
            ParseError::MalformedElement,
        ),
        frame_outcome(encode_utf8(s)) == parsed(s),
{
    encode_utf8_valid_utf8(s);
    encode_utf8_decode_utf8(s);
}

// ── Boundaries ──
/// The first byte of a character says how many it takes, and behind as many
/// characters as a text has stands what follows the text.
pub proof fn law_characters_are_skipped(front: Seq<u8>, s: Seq<char>, rest: Seq<u8>)
    ensures
        skip_chars(front + encode_utf8(s) + rest, front.len(), s.len()) == Some(
            front.len() + encode_utf8(s).len(),
        ),
    decreases s.len(),
{
    let b = front + encode_utf8(s) + rest;
    if s.len() > 0 {
        let c = s[0];
        let w = encode_scalar(c as u32);
        char_is_scalar(c);
        let more = encode_utf8(s.drop_first());
        assert(encode_utf8(s) == w + more);
        let t = front + w;
        law_characters_are_skipped(t, s.drop_first(), rest);
        assert(b =~= t + more + rest);
        encode_utf8_first_scalar(s);
        utf8_byte_ranges_bitwise(w[0]);
        assert(b[front.len() as int] == w[0]);
        assert(lead_width(w[0]) == w.len());
    }
}

/// The classes of bytes by which boundaries are found.
pub proof fn law_lead_bytes(b: u8)
    ensures
        b < 0x80 ==> lead_width(b) == 1,
        0x80 <= b < 0xc0 ==> lead_width(b) == 0,
        0xc0 <= b < 0xe0 ==> lead_width(b) == 2,
        0xe0 <= b < 0xf0 ==> lead_width(b) == 3,
        0xf0 <= b ==> lead_width(b) == 4,
        digit_byte(b) <==> 0x30 <= b && b <= 0x39,
{
}

/// An element with a length of one digit ends behind that many characters and
/// the separator, and only a semicolon ends the instruction.
pub proof fn law_element_ends(front: Seq<u8>, s: Seq<char>, sep: u8, rest: Seq<u8>)
    requires
        s.len() < 10,
    ensures
        ({
            let b = front + seq![(0x30 + s.len()) as u8, 0x2eu8] + encode_utf8(s) + seq![sep]
                + rest;
            let end = front.len() + 2 + encode_utf8(s).len() + 1;
            &&& sep == 0x3b ==> element_end(b, front.len()) == Some((end, true))
            &&& sep == 0x2c ==> element_end(b, front.len()) == Some((end, false))
            &&& sep != 0x3b && sep != 0x2c ==> element_end(b, front.len()) is None
        }),
{
    let d = (0x30 + s.len()) as u8;
    let b = front + seq![d, 0x2eu8] + encode_utf8(s) + seq![sep] + rest;
    let f = front + seq![d, 0x2eu8];
    let p = front.len();
    law_characters_are_skipped(f, s, seq![sep] + rest);
    assert(b =~= f + encode_utf8(s) + (seq![sep] + rest));
    assert(b[p as int] == d);
    assert(b[p as int + 1] == 0x2e);
    assert(digits_end(b, p + 1) == p + 1);
    assert(digits_end(b, p) == p + 1);
    reveal_with_fuel(byte_number, 3);
    assert(byte_number(b, p, p + 1) == s.len());
    assert(length_at(b, p) == Some((s.len(), p + 2)));
    let at = p + 2 + encode_utf8(s).len();
    assert(b[at as int] == sep);
    assert(separator_at(b, at) == if sep == 0x3b {
        Some((at + 1, true))
    } else if sep == 0x2c {
        Some((at + 1, false))
    } else {
        None
    });
}

} // verus!
