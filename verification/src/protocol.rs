//! Guacamole protocol instruction encoding and decoding.
//!
//! Wire format: `LENGTH.ELEMENT,LENGTH.ELEMENT,...;`
//! Example: `4.size,3.800,3.600;`

use crate::text::{
    all_digits, chars, decimal, digits, find_char, first_at, is_digit, joined, lemma_digits,
    lemma_first_at_is, number, parse_upto, slice_text, texts, unsigned, unsigned_upto,
};
use vstd::prelude::*;
use vstd::string::*;
use vstd::utf8::*;

verus! {

/// Maximum protocol buffer size in bytes (1 MiB). A parser whose buffer
/// grows past this drops everything that it holds.
pub const MAX_PROTOCOL_BUFFER_LEN: usize = 1_048_576;

/// Buffers of this size or above always run the full boundary scan.
pub const BOUNDARY_FAST_PATH_MAX: usize = 1024;

/// A single Guacamole protocol instruction.
#[derive(Debug, Clone, PartialEq)]
pub struct Instruction {
    /// Instruction name, e.g. `"size"`, `"select"`, `"connect"`.
    pub opcode: String,
    /// Positional arguments for the instruction, in wire order.
    pub args: Vec<String>,
}

/// Why a Guacamole instruction could not be parsed from wire format.
#[derive(Debug, Clone, Copy, PartialEq, Eq, Structural)]
#[must_use]
pub enum ParseError {
    /// The instruction contained no elements at all (empty input or a bare `;`).
    Empty,
    /// An element was missing its `.` length separator.
    MalformedElement,
    /// The length prefix was not a valid `usize` (non-numeric, negative, or overflowing).
    InvalidLength,
    /// The declared length ran past the end of the data, or cut through the middle of a UTF-8 character.
    Truncated,
    /// A character appeared where the parser expected `,` or the end of the instruction.
    UnexpectedChar,
}

impl ParseError {
    /// The message of each error.
    pub open spec fn message_spec(self) -> Seq<char> {
        match self {
            ParseError::Empty => "empty instruction"@,
            ParseError::MalformedElement => "malformed element (missing '.')"@,
            ParseError::InvalidLength => "invalid length prefix"@,
            ParseError::Truncated => "instruction truncated"@,
            ParseError::UnexpectedChar => "unexpected character in instruction"@,
        }
    }

    /// The error in words.
    pub fn message(&self) -> (r: String)
        ensures
            r@ == self.message_spec(),
    {
        match self {
            ParseError::Empty => "empty instruction".to_owned(),
            ParseError::MalformedElement => "malformed element (missing '.')".to_owned(),
            ParseError::InvalidLength => "invalid length prefix".to_owned(),
            ParseError::Truncated => "instruction truncated".to_owned(),
            ParseError::UnexpectedChar => "unexpected character in instruction".to_owned(),
        }
    }
}

// ── Byte lengths ──
/// The number of bytes that UTF-8 takes for `c`.
pub open spec fn char_width(c: char) -> nat {
    if c as u32 <= 0x7f {
        1
    } else if c as u32 <= 0x7ff {
        2
    } else if c as u32 <= 0xffff {
        3
    } else {
        4
    }
}

/// The number of bytes that UTF-8 takes for `s`.
pub open spec fn byte_len(s: Seq<char>) -> nat
    decreases s.len(),
{
    if s.len() == 0 {
        0
    } else {
        char_width(s[0]) + byte_len(s.drop_first())
    }
}

/// `byte_len` is the length of the UTF-8 encoding.
pub proof fn lemma_byte_len(s: Seq<char>)
    ensures
        byte_len(s) == encode_utf8(s).len(),
    decreases s.len(),
{
    if s.len() > 0 {
        lemma_byte_len(s.drop_first());
        char_is_scalar(s[0]);
    }
}

/// The number of bytes that UTF-8 takes for `c`.
fn width(c: char) -> (r: usize)
    ensures
        r == char_width(c),
        1 <= r <= 4,
{
    let n: u32 = c as u32;
    if n <= 0x7f {
        1
    } else if n <= 0x7ff {
        2
    } else if n <= 0xffff {
        3
    } else {
        4
    }
}

/// How many characters the prefix of `s` with exactly `n` bytes has; `None`
/// where `s` is shorter or the prefix would end inside a character.
pub open spec fn char_prefix(s: Seq<char>, n: nat) -> Option<nat>
    decreases s.len(),
{
    if n == 0 {
        Some(0)
    } else if s.len() == 0 || char_width(s[0]) > n {
        None
    } else {
        match char_prefix(s.drop_first(), (n - char_width(s[0])) as nat) {
            Some(k) => Some(k + 1),
            None => None,
        }
    }
}

/// The prefix that `char_prefix` counts has the wanted number of bytes.
pub proof fn lemma_char_prefix(s: Seq<char>, n: nat)
    ensures
        char_prefix(s, n) is Some ==> char_prefix(s, n)->0 <= s.len() && byte_len(
            s.take(char_prefix(s, n)->0 as int),
        ) == n,
    decreases s.len(),
{
    if n != 0 && s.len() > 0 && char_width(s[0]) <= n {
        let m = (n - char_width(s[0])) as nat;
        lemma_char_prefix(s.drop_first(), m);
        if char_prefix(s.drop_first(), m) is Some {
            let k = char_prefix(s, n)->0 as int;
            assert(s.take(k).drop_first() =~= s.drop_first().take(k - 1));
        }
    }
}

/// A text in front of any other is the prefix with its number of bytes.
proof fn lemma_char_prefix_of(e: Seq<char>, rest: Seq<char>)
    ensures
        char_prefix(e + rest, byte_len(e)) == Some(e.len()),
    decreases e.len(),
{
    if e.len() > 0 {
        lemma_char_prefix_of(e.drop_first(), rest);
        assert((e + rest).drop_first() =~= e.drop_first() + rest);
    }
}

/// The position in `v` behind the characters that take `n` bytes from
/// `from` on, where there is one.
fn prefix_end(v: &[char], from: usize, n: usize) -> (r: Option<usize>)
    requires
        from <= v@.len(),
    ensures
        match r {
            Some(end) => from <= end <= v@.len() && char_prefix(v@.skip(from as int), n as nat)
                == Some((end - from) as nat),
            None => char_prefix(v@.skip(from as int), n as nat) is None,
        },
{
    let ghost after = v@.skip(from as int);
    let mut end: usize = from;
    let mut left: usize = n;
    while left > 0
        invariant
            from <= end <= v@.len(),
            after == v@.skip(from as int),
            char_prefix(after, n as nat) == match char_prefix(v@.skip(end as int), left as nat) {
                Some(k) => Some((k + (end - from)) as nat),
                None => None,
            },
        decreases left,
    {
        if end >= v.len() {
            return None;
        }
        let w = width(v[end]);
        if w > left {
            return None;
        }
        proof {
            assert(v@.skip(end as int).drop_first() =~= v@.skip(end + 1));
        }
        left = left - w;
        end = end + 1;
    }
    Some(end)
}

// ── Encoding ──
/// One element on the wire: its length in bytes, a dot, its text.
pub open spec fn element(s: Seq<char>) -> Seq<char> {
    digits(byte_len(s)) + seq!['.'] + s
}

/// Elements separated by commas, without the terminator.
pub open spec fn body(elements: Seq<Seq<char>>) -> Seq<char> {
    joined(elements.map_values(|e: Seq<char>| element(e)), seq![','])
}

/// A whole instruction on the wire.
pub open spec fn wire(elements: Seq<Seq<char>>) -> Seq<char> {
    body(elements).push(';')
}

/// One element on the wire.
pub fn encode_element(s: &str) -> (r: String)
    ensures
        r@ == element(s@),
{
    let n: usize = s.as_bytes().len();
    proof {
        lemma_byte_len(s@);
    }
    let mut out = decimal(n as u64);
    out.push('.');
    out.append(s);
    proof {
        assert(digits(byte_len(s@)).push('.') =~= digits(byte_len(s@)) + seq!['.']);
    }
    out
}

// ── Parsing ──
/// The elements that a comma-separated body holds, read by their lengths.
pub open spec fn parse_elements(s: Seq<char>) -> Result<Seq<Seq<char>>, ParseError>
    decreases s.len(),
    via parse_elements_decreases
{
    let dot = first_at(s, '.');
    if dot >= s.len() {
        Err(ParseError::MalformedElement)
    } else {
        match unsigned_upto(s.take(dot as int), usize::MAX as nat) {
            None => Err(ParseError::InvalidLength),
            Some(n) => {
                let after = s.skip(dot as int + 1);
                match char_prefix(after, n) {
                    None => Err(ParseError::Truncated),
                    Some(k) => {
                        let rest = after.skip(k as int);
                        if rest.len() == 0 {
                            Ok(seq![after.take(k as int)])
                        } else if rest[0] == ',' {
                            prepend(seq![after.take(k as int)], parse_elements(rest.skip(1)))
                        } else {
                            Err(ParseError::UnexpectedChar)
                        }
                    },
                }
            },
        }
    }
}

#[via_fn]
proof fn parse_elements_decreases(s: Seq<char>) {
    let dot = first_at(s, '.');
    if dot < s.len() {
        match unsigned_upto(s.take(dot as int), usize::MAX as nat) {
            Some(n) => {
                lemma_char_prefix(s.skip(dot as int + 1), n);
            },
            None => {},
        }
    }
}

/// The elements `done` in front of the outcome for what follows them.
pub open spec fn prepend(
    done: Seq<Seq<char>>,
    more: Result<Seq<Seq<char>>, ParseError>,
) -> Result<Seq<Seq<char>>, ParseError> {
    match more {
        Ok(v) => Ok(done + v),
        Err(e) => Err(e),
    }
}

/// An instruction string without its terminator, if it has one. A semicolon
/// before the terminator is data.
pub open spec fn unterminated(s: Seq<char>) -> Seq<char> {
    if s.len() > 0 && s.last() == ';' {
        s.drop_last()
    } else {
        s
    }
}

/// What a complete instruction string parses to.
pub open spec fn parsed(s: Seq<char>) -> Result<Seq<Seq<char>>, ParseError> {
    let t = unterminated(s);
    if t.len() == 0 {
        Err(ParseError::Empty)
    } else {
        parse_elements(t)
    }
}

/// The elements of a parse outcome.
pub open spec fn outcome(r: Result<Instruction, ParseError>) -> Result<
    Seq<Seq<char>>,
    ParseError,
> {
    match r {
        Ok(i) => Ok(i.elements()),
        Err(e) => Err(e),
    }
}

impl Instruction {
    /// The opcode and the arguments, in wire order.
    pub open spec fn elements(&self) -> Seq<Seq<char>> {
        seq![self.opcode@] + texts(self.args@)
    }

    /// Build an instruction from an opcode and its argument list.
    pub fn new(opcode: &str, args: Vec<String>) -> (r: Self)
        ensures
            r.opcode@ == opcode@,
            r.args == args,
            r.elements() == seq![opcode@] + texts(args@),
    {
        Self { opcode: opcode.to_owned(), args }
    }

    /// Encode this instruction into Guacamole wire format.
    pub fn encode(&self) -> (r: String)
        ensures
            r@ == wire(self.elements()),
    {
        let ghost coded = self.elements().map_values(|e: Seq<char>| element(e));
        let mut out = encode_element(self.opcode.as_str());
        let mut i: usize = 0;
        proof {
            assert(coded.take(1)[0] == out@);
        }
        while i < self.args.len()
            invariant
                i <= self.args@.len(),
                coded == self.elements().map_values(|e: Seq<char>| element(e)),
                out@ == joined(coded.take(i + 1), seq![',']),
            decreases self.args@.len() - i,
        {
            let ghost before = out@;
            out.push(',');
            let e = encode_element(self.args[i].as_str());
            out.append(e.as_str());
            proof {
                assert(before.push(',') =~= before + seq![',']);
                assert(coded.take(i + 2).drop_last() =~= coded.take(i + 1));
                assert(self.elements()[i + 1] == self.args@[i as int]@);
            }
            i = i + 1;
        }
        proof {
            assert(coded.take(i + 1) =~= coded);
        }
        out.push(';');
        out
    }

    /// Parse a single instruction from a complete instruction string (including the trailing `;`).
    pub fn parse(data: &str) -> (r: Result<Self, ParseError>)
        ensures
            outcome(r) == parsed(data@),
    {
        let mut v = chars(data);
        if v.len() > 0 && v[v.len() - 1] == ';' {
            v.pop();
        }
        proof {
            assert(v@ =~= unterminated(data@));
        }
        if v.len() == 0 {
            return Err(ParseError::Empty);
        }
        let ghost all = v@;
        let mut found: Vec<String> = Vec::new();
        let mut pos: usize = 0;
        proof {
            assert(all.skip(0) =~= all);
            assert(texts(found@) =~= Seq::empty());
            match parse_elements(all) {
                Ok(x) => {
                    assert(Seq::<Seq<char>>::empty() + x =~= x);
                },
                Err(_) => {},
            }
        }
        loop
            invariant_except_break
                pos <= v@.len(),
                prepend(texts(found@), parse_elements(all.skip(pos as int))) == parse_elements(all),
            invariant
                v@ == all,
                parsed(data@) == parse_elements(all),
            ensures
                parse_elements(all) == Ok::<Seq<Seq<char>>, ParseError>(texts(found@)),
                found@.len() > 0,
            decreases v@.len() - pos,
        {
            let ghost s = all.skip(pos as int);
            let ghost before = found@;
            let ghost start = pos as int;
            let dot = find_char(&v, '.', pos);
            if dot >= v.len() {
                return Err(ParseError::MalformedElement);
            }
            proof {
                assert(all.subrange(pos as int, dot as int) =~= s.take(dot - pos));
            }
            let n: usize = match parse_upto(&v, pos, dot, usize::MAX as u64) {
                Some(n) => n as usize,
                None => return Err(ParseError::InvalidLength),
            };
            let ghost after = s.skip(dot - start + 1);
            proof {
                assert(after =~= all.skip(dot + 1));
            }
            let end: usize = match prefix_end(&v, dot + 1, n) {
                Some(end) => end,
                None => return Err(ParseError::Truncated),
            };
            let ghost k = end - dot - 1;
            proof {
                assert(char_prefix(after, n as nat) == Some(k as nat));
                assert(after.take(k) =~= all.subrange(dot + 1, end as int));
                assert(after.skip(k) =~= all.skip(end as int));
            }
            found.push(slice_text(&v, dot + 1, end));
            proof {
                assert(texts(found@) =~= texts(before) + seq![after.take(k)]);
            }
            if end == v.len() {
                break;
            }
            if v[end] != ',' {
                return Err(ParseError::UnexpectedChar);
            }
            pos = end + 1;
            proof {
                assert(all.skip(end as int).skip(1) =~= all.skip(pos as int));
                match parse_elements(all.skip(pos as int)) {
                    Ok(x) => {
                        assert(texts(before) + (seq![after.take(k)] + x) =~= texts(found@) + x);
                    },
                    Err(_) => {},
                }
            }
        }
        let ghost whole = found@;
        let opcode = found.remove(0);
        proof {
            assert(seq![opcode@] + texts(found@) =~= texts(whole));
        }
        Ok(Instruction { opcode, args: found })
    }
}

// ── Round trip ──
/// `joined`, read from the front.
proof fn lemma_joined_front(v: Seq<Seq<char>>, sep: Seq<char>)
    requires
        v.len() >= 2,
    ensures
        joined(v, sep) == v[0] + sep + joined(v.drop_first(), sep),
    decreases v.len(),
{
    let rest = v.drop_first();
    if v.len() == 2 {
        assert(v.drop_last()[0] == v[0]);
        assert(rest[0] == v[1]);
        assert(joined(v.drop_last(), sep) == v[0]);
    } else {
        lemma_joined_front(v.drop_last(), sep);
        assert(v.drop_last().drop_first() =~= rest.drop_last());
        assert(rest.last() == v.last());
        assert(v[0] + sep + joined(rest.drop_last(), sep) + sep + v.last() =~= v[0] + sep + (joined(
            rest.drop_last(),
            sep,
        ) + sep + v.last()));
    }
}

/// One encoded element, alone or with a comma and more behind it, is read back.
proof fn lemma_parse_front(e: Seq<char>, tail: Seq<char>)
    requires
        byte_len(e) <= usize::MAX,
        tail.len() == 0 || tail[0] == ',',
    ensures
        tail.len() == 0 ==> parse_elements(element(e) + tail) == Ok::<Seq<Seq<char>>, ParseError>(
            seq![e],
        ),
        tail.len() > 0 ==> parse_elements(element(e) + tail) == prepend(
            seq![e],
            parse_elements(tail.skip(1)),
        ),
{
    let s = element(e) + tail;
    let d = digits(byte_len(e));
    let dot = d.len() as int;
    lemma_digits(byte_len(e));
    assert forall|i: int| 0 <= i < dot implies s[i] != '.' by {
        assert(s[i] == d[i]);
    }
    assert(s[dot] == '.');
    lemma_first_at_is(s, '.', dot);
    assert(s.take(dot) =~= d);
    let after = s.skip(dot + 1);
    assert(after =~= e + tail);
    lemma_char_prefix_of(e, tail);
    assert(after.take(e.len() as int) =~= e);
    assert(after.skip(e.len() as int) =~= tail);
}

/// `body`, read from the front.
proof fn lemma_body_front(elements: Seq<Seq<char>>)
    requires
        elements.len() >= 2,
    ensures
        body(elements) == element(elements[0]) + (seq![','] + body(elements.drop_first())),
{
    let f = |e: Seq<char>| element(e);
    let coded = elements.map_values(f);
    let more = elements.drop_first();
    lemma_joined_front(coded, seq![',']);
    assert(coded.drop_first() =~= more.map_values(f));
    assert(body(elements) =~= element(elements[0]) + (seq![','] + body(more)));
}

/// The body of an instruction is read back element by element.
proof fn lemma_parse_body(elements: Seq<Seq<char>>)
    requires
        elements.len() > 0,
        forall|i: int| 0 <= i < elements.len() ==> byte_len(#[trigger] elements[i]) <= usize::MAX,
    ensures
        parse_elements(body(elements)) == Ok::<Seq<Seq<char>>, ParseError>(elements),
    decreases elements.len(),
{
    let first = elements[0];
    if elements.len() == 1 {
        lemma_parse_front(first, Seq::empty());
        assert(body(elements) == element(first));
        assert(element(first) + Seq::<char>::empty() =~= element(first));
        assert(seq![first] =~= elements);
    } else {
        let more = elements.drop_first();
        let tail = seq![','] + body(more);
        assert forall|i: int| 0 <= i < more.len() implies byte_len(#[trigger] more[i])
            <= usize::MAX by {
            assert(more[i] == elements[i + 1]);
        }
        lemma_parse_body(more);
        lemma_body_front(elements);
        assert(tail[0] == ',');
        lemma_parse_front(first, tail);
        assert(tail.skip(1) =~= body(more));
        assert(seq![first] + more =~= elements);
    }
}

/// Parsing what `encode` writes gives the instruction back.
pub proof fn law_parse_reads_encoded(elements: Seq<Seq<char>>)
    requires
        elements.len() > 0,
        forall|i: int| 0 <= i < elements.len() ==> byte_len(#[trigger] elements[i]) <= usize::MAX,
    ensures
        parsed(wire(elements)) == Ok::<Seq<Seq<char>>, ParseError>(elements),
{
    lemma_parse_body(elements);
    let b = body(elements);
    let coded = elements.map_values(|e: Seq<char>| element(e));
    assert(coded.last() == element(elements.last()));
    assert(b.len() >= coded.last().len());
    assert(wire(elements).drop_last() =~= b);
}

/// The length prefix of an encoded element counts the bytes of its text, and
/// the text follows the dot.
pub proof fn law_length_prefix(s: Seq<char>)
    ensures
        first_at(element(s), '.') == digits(encode_utf8(s).len()).len(),
        unsigned(element(s).take(first_at(element(s), '.') as int)) == Some(encode_utf8(s).len()),
        element(s).skip(first_at(element(s), '.') as int + 1) == s,
{
    lemma_byte_len(s);
    lemma_digits(byte_len(s));
    let d = digits(byte_len(s));
    let dot = d.len() as int;
    assert forall|i: int| 0 <= i < dot implies element(s)[i] != '.' by {
        assert(element(s)[i] == d[i]);
    }
    lemma_first_at_is(element(s), '.', dot);
    assert(element(s).take(dot) =~= d);
    assert(element(s).skip(dot + 1) =~= s);
}

// ── Instruction boundaries ──
/// The byte of an ASCII digit.
pub open spec fn digit_byte(b: u8) -> bool {
    0x30 <= b <= 0x39
}

/// The position behind the run of digits that starts at `pos`.
pub open spec fn digits_end(buf: Seq<u8>, pos: nat) -> nat
    decreases buf.len() - pos,
{
    if pos < buf.len() && digit_byte(buf[pos as int]) {
        digits_end(buf, pos + 1)
    } else {
        pos
    }
}

/// The number that the digits in `buf[from..to]` write.
pub open spec fn byte_number(buf: Seq<u8>, from: nat, to: nat) -> nat
    decreases to - from,
{
    if to <= from {
        0
    } else {
        byte_number(buf, from, (to - 1) as nat) * 10 + (buf[to - 1] - 0x30) as nat
    }
}

/// How many bytes the character takes that `b` leads; 0 for a byte that
/// leads none.
pub open spec fn lead_width(b: u8) -> nat {
    if b < 0x80 {
        1
    } else if b < 0xc0 {
        0
    } else if b < 0xe0 {
        2
    } else if b < 0xf0 {
        3
    } else {
        4
    }
}

/// The position behind `n` characters from `pos` on.
pub open spec fn skip_chars(buf: Seq<u8>, pos: nat, n: nat) -> Option<nat>
    decreases n,
{
    if n == 0 {
        Some(pos)
    } else if pos >= buf.len() || lead_width(buf[pos as int]) == 0 || pos + lead_width(
        buf[pos as int],
    ) > buf.len() {
        None
    } else {
        skip_chars(buf, pos + lead_width(buf[pos as int]), (n - 1) as nat)
    }
}

/// The length that the prefix at `pos` declares, with the position behind
/// its dot.
pub open spec fn length_at(buf: Seq<u8>, pos: nat) -> Option<(nat, nat)> {
    let d = digits_end(buf, pos);
    if d == pos || d >= buf.len() || buf[d as int] != 0x2e || byte_number(buf, pos, d)
        > usize::MAX {
        None
    } else {
        Some((byte_number(buf, pos, d), d + 1))
    }
}

/// The position behind the separator at `at`, and whether the separator ends
/// an instruction.
pub open spec fn separator_at(buf: Seq<u8>, at: nat) -> Option<(nat, bool)> {
    if at >= buf.len() {
        None
    } else if buf[at as int] == 0x2c {
        Some((at + 1, false))
    } else if buf[at as int] == 0x3b {
        Some((at + 1, true))
    } else {
        None
    }
}

/// The position behind the element at `pos` and its separator, and whether
/// that ends an instruction. Lengths count characters.
pub open spec fn element_end(buf: Seq<u8>, pos: nat) -> Option<(nat, bool)> {
    match length_at(buf, pos) {
        None => None,
        Some((n, data)) => match skip_chars(buf, data, n) {
            None => None,
            Some(at) => separator_at(buf, at),
        },
    }
}

/// The end of the last complete instruction in `buf[pos..]`, read element by
/// element up to the first that is incomplete or malformed; `last` where
/// there is none.
pub open spec fn scan(buf: Seq<u8>, pos: nat, last: Option<nat>) -> Option<nat>
    decreases buf.len() - pos,
    via scan_decreases
{
    match element_end(buf, pos) {
        None => last,
        Some((end, true)) => scan(buf, end, Some(end)),
        Some((end, false)) => scan(buf, end, last),
    }
}

#[via_fn]
proof fn scan_decreases(buf: Seq<u8>, pos: nat, last: Option<nat>) {
    lemma_element_end(buf, pos);
}

/// The end of the last complete instruction in `buf`.
pub open spec fn last_boundary(buf: Seq<u8>) -> Option<nat> {
    scan(buf, 0, None)
}

proof fn lemma_digits_end(buf: Seq<u8>, pos: nat)
    ensures
        pos <= digits_end(buf, pos),
        pos <= buf.len() ==> digits_end(buf, pos) <= buf.len(),
        forall|i: int| pos <= i < digits_end(buf, pos) ==> digit_byte(buf[i]),
        digits_end(buf, pos) < buf.len() ==> !digit_byte(buf[digits_end(buf, pos) as int]),
    decreases buf.len() - pos,
{
    if pos < buf.len() && digit_byte(buf[pos as int]) {
        lemma_digits_end(buf, pos + 1);
    }
}

proof fn lemma_skip_chars(buf: Seq<u8>, pos: nat, n: nat)
    ensures
        skip_chars(buf, pos, n) is Some ==> pos <= skip_chars(buf, pos, n)->0,
    decreases n,
{
    if n != 0 && pos < buf.len() {
        lemma_skip_chars(buf, pos + lead_width(buf[pos as int]), (n - 1) as nat);
    }
}

/// An element takes up room, within the buffer.
pub proof fn lemma_element_end(buf: Seq<u8>, pos: nat)
    ensures
        element_end(buf, pos) is Some ==> pos < (element_end(buf, pos)->0).0 <= buf.len(),
{
    lemma_digits_end(buf, pos);
    match length_at(buf, pos) {
        Some((n, data)) => {
            lemma_skip_chars(buf, data, n);
        },
        None => {},
    }
}

proof fn lemma_byte_number_grows(buf: Seq<u8>, from: nat, mid: nat, to: nat)
    requires
        from <= mid <= to <= buf.len(),
    ensures
        byte_number(buf, from, mid) <= byte_number(buf, from, to),
    decreases to - mid,
{
    if mid < to {
        lemma_byte_number_grows(buf, from, mid, (to - 1) as nat);
    }
}

/// The length that the prefix at `pos` declares, with the position behind
/// its dot.
fn read_length(buf: &[u8], pos: usize) -> (r: Option<(usize, usize)>)
    requires
        pos <= buf@.len(),
    ensures
        match r {
            Some((n, data)) => length_at(buf@, pos as nat) == Some((n as nat, data as nat)) && pos
                < data <= buf@.len(),
            None => length_at(buf@, pos as nat) is None,
        },
{
    let mut d: usize = pos;
    while d < buf.len() && buf[d] >= 0x30 && buf[d] <= 0x39
        invariant
            pos <= d <= buf@.len(),
            digits_end(buf@, pos as nat) == digits_end(buf@, d as nat),
        decreases buf@.len() - d,
    {
        d = d + 1;
    }
    if d == pos || d >= buf.len() || buf[d] != 0x2e {
        return None;
    }
    proof {
        lemma_digits_end(buf@, pos as nat);
    }
    let mut i: usize = pos;
    let mut n: usize = 0;
    while i < d
        invariant
            pos <= i <= d < buf@.len(),
            d == digits_end(buf@, pos as nat),
            d != pos,
            forall|j: int| pos <= j < d ==> digit_byte(buf@[j]),
            n == byte_number(buf@, pos as nat, i as nat),
        decreases d - i,
    {
        let v: usize = (buf[i] - 0x30) as usize;
        proof {
            lemma_byte_number_grows(buf@, pos as nat, (i + 1) as nat, d as nat);
            assert(byte_number(buf@, pos as nat, (i + 1) as nat) == n * 10 + v);
        }
        if n > (usize::MAX - v) / 10 {
            return None;
        }
        n = n * 10 + v;
        i = i + 1;
    }
    Some((n, d + 1))
}

/// The position behind the separator at `at`, and whether it ends an instruction.
fn read_separator(buf: &[u8], at: usize) -> (r: Option<(usize, bool)>)
    ensures
        match r {
            Some((end, last)) => separator_at(buf@, at as nat) == Some((end as nat, last)) && end
                <= buf@.len(),
            None => separator_at(buf@, at as nat) is None,
        },
{
    if at >= buf.len() {
        return None;
    }
    if buf[at] == 0x2c {
        Some((at + 1, false))
    } else if buf[at] == 0x3b {
        Some((at + 1, true))
    } else {
        None
    }
}

/// The position behind the element at `pos` and its separator.
fn read_element(buf: &[u8], pos: usize) -> (r: Option<(usize, bool)>)
    requires
        pos <= buf@.len(),
    ensures
        match r {
            Some((end, last)) => element_end(buf@, pos as nat) == Some((end as nat, last)) && pos
                < end <= buf@.len(),
            None => element_end(buf@, pos as nat) is None,
        },
{
    let (n, data): (usize, usize) = match read_length(buf, pos) {
        Some(x) => x,
        None => return None,
    };
    let mut at: usize = data;
    let mut left: usize = n;
    while left > 0
        invariant
            at <= buf@.len(),
            skip_chars(buf@, data as nat, n as nat) == skip_chars(buf@, at as nat, left as nat),
            length_at(buf@, pos as nat) == Some((n as nat, data as nat)),
        decreases left,
    {
        if at >= buf.len() {
            return None;
        }
        let b: u8 = buf[at];
        if b >= 0x80 && b < 0xc0 {
            return None;
        }
        let w: usize = if b < 0x80 {
            1
        } else if b < 0xe0 {
            2
        } else if b < 0xf0 {
            3
        } else {
            4
        };
        if w > buf.len() - at {
            return None;
        }
        at = at + w;
        left = left - 1;
    }
    proof {
        lemma_element_end(buf@, pos as nat);
    }
    read_separator(buf, at)
}

/// Find the byte offset just past the last complete Guacamole instruction in
/// `buf`. Returns `None` if no complete instruction is present.
///
/// Walks element by element using the length prefixes, which count UTF-8
/// characters, so element data with `;` in it makes no false boundary. At
/// the first malformed byte the boundary found so far is returned.
pub fn last_instruction_boundary(buf: &[u8]) -> (r: Option<usize>)
    ensures
        match r {
            Some(end) => last_boundary(buf@) == Some(end as nat),
            None => last_boundary(buf@) is None,
        },
{
    if buf.len() < BOUNDARY_FAST_PATH_MAX && buf.len() > 0 && buf[buf.len() - 1] == 0x3b
        && ascii_only(buf) {
        if fast_instruction_boundary(buf).is_some() {
            proof {
                law_fast_walk_agrees(buf@);
            }
            return Some(buf.len());
        }
    }
    let mut last: Option<usize> = None;
    let mut pos: usize = 0;
    loop
        invariant
            pos <= buf@.len(),
            last_boundary(buf@) == scan(
                buf@,
                pos as nat,
                match last {
                    Some(x) => Some(x as nat),
                    None => None,
                },
            ),
        decreases buf@.len() - pos,
    {
        match read_element(buf, pos) {
            None => return last,
            Some((end, true)) => {
                last = Some(end);
                pos = end;
            },
            Some((end, false)) => {
                pos = end;
            },
        }
    }
}

/// Whether every byte is ASCII.
pub open spec fn ascii_bytes(buf: Seq<u8>) -> bool {
    forall|i: int| 0 <= i < buf.len() ==> #[trigger] buf[i] < 0x80
}

fn ascii_only(buf: &[u8]) -> (r: bool)
    ensures
        r == ascii_bytes(buf@),
{
    let mut i: usize = 0;
    while i < buf.len()
        invariant
            i <= buf@.len(),
            forall|j: int| 0 <= j < i ==> #[trigger] buf@[j] < 0x80,
        decreases buf@.len() - i,
    {
        if buf[i] >= 0x80 {
            return false;
        }
        i = i + 1;
    }
    true
}

/// `element_end` with lengths taken as bytes.
pub open spec fn fast_element_end(buf: Seq<u8>, pos: nat) -> Option<(nat, bool)> {
    match length_at(buf, pos) {
        None => None,
        Some((n, data)) => separator_at(buf, data + n),
    }
}

/// Whether `buf[pos..]` is elements that end, with the buffer, in a complete
/// instruction, where lengths are taken as bytes.
pub open spec fn fast_walk(buf: Seq<u8>, pos: nat) -> bool
    decreases buf.len() - pos,
    via fast_walk_decreases
{
    match fast_element_end(buf, pos) {
        None => false,
        Some((end, last)) => (last && end == buf.len()) || fast_walk(buf, end),
    }
}

#[via_fn]
proof fn fast_walk_decreases(buf: Seq<u8>, pos: nat) {
    lemma_digits_end(buf, pos);
}

/// Structural walk used by the [`last_instruction_boundary`] fast path:
/// skips each element's data by its declared length and asks that the
/// instructions end exactly at the end of the buffer.
pub fn fast_instruction_boundary(buf: &[u8]) -> (r: Option<usize>)
    ensures
        r == if fast_walk(buf@, 0) {
            Some(buf@.len() as usize)
        } else {
            None
        },
{
    let whole: usize = buf.len();
    let mut pos: usize = 0;
    loop
        invariant
            pos <= buf@.len(),
            whole == buf@.len(),
            fast_walk(buf@, 0) == fast_walk(buf@, pos as nat),
        decreases buf@.len() - pos,
    {
        let (n, data): (usize, usize) = match read_length(buf, pos) {
            Some(x) => x,
            None => return None,
        };
        let at: usize = match data.checked_add(n) {
            Some(at) => at,
            None => return None,
        };
        match read_separator(buf, at) {
            None => return None,
            Some((end, last)) => {
                if last && end == whole {
                    return Some(whole);
                }
                pos = end;
            },
        }
    }
}

/// Over ASCII, `n` characters are `n` bytes.
proof fn lemma_skip_ascii(buf: Seq<u8>, pos: nat, n: nat)
    requires
        ascii_bytes(buf),
        pos <= buf.len(),
    ensures
        skip_chars(buf, pos, n) == if pos + n <= buf.len() {
            Some(pos + n)
        } else {
            None
        },
    decreases n,
{
    if n != 0 && pos < buf.len() {
        lemma_skip_ascii(buf, pos + 1, (n - 1) as nat);
    }
}

proof fn lemma_fast_walk(buf: Seq<u8>, pos: nat, last: Option<nat>)
    requires
        ascii_bytes(buf),
        pos <= buf.len(),
        last != Some(buf.len()),
    ensures
        fast_walk(buf, pos) == (scan(buf, pos, last) == Some(buf.len())),
    decreases buf.len() - pos,
{
    lemma_digits_end(buf, pos);
    match length_at(buf, pos) {
        None => {},
        Some((n, data)) => {
            lemma_skip_ascii(buf, data, n);
            assert(element_end(buf, pos) == fast_element_end(buf, pos));
            lemma_element_end(buf, pos);
            match fast_element_end(buf, pos) {
                None => {},
                Some((end, true)) => {
                    if end == buf.len() {
                        assert(element_end(buf, end) is None) by {
                            lemma_element_end(buf, end);
                        }
                        assert(scan(buf, end, Some(end)) == Some(end));
                    } else {
                        lemma_fast_walk(buf, end, Some(end));
                    }
                },
                Some((end, false)) => {
                    lemma_fast_walk(buf, end, last);
                },
            }
        },
    }
}

/// For ASCII input the structural walk is equivalent to the full scan: it
/// accepts exactly the buffers whose last complete instruction ends with
/// the buffer.
pub proof fn law_fast_walk_agrees(buf: Seq<u8>)
    requires
        ascii_bytes(buf),
    ensures
        fast_walk(buf, 0) <==> last_boundary(buf) == Some(buf.len()),
{
    lemma_fast_walk(buf, 0, None);
}

proof fn lemma_scan_bounds(buf: Seq<u8>, pos: nat, last: Option<nat>)
    requires
        last is Some ==> 0 < last->0 <= buf.len() && buf[last->0 - 1] == 0x3b,
    ensures
        scan(buf, pos, last) is Some ==> 0 < scan(buf, pos, last)->0 <= buf.len() && buf[scan(
            buf,
            pos,
            last,
        )->0 - 1] == 0x3b,
    decreases buf.len() - pos,
{
    lemma_element_end(buf, pos);
    match element_end(buf, pos) {
        None => {},
        Some((end, true)) => {
            lemma_scan_bounds(buf, end, Some(end));
        },
        Some((end, false)) => {
            lemma_scan_bounds(buf, end, last);
        },
    }
}

/// A boundary lies inside the buffer, behind a terminator.
pub proof fn law_boundary_follows_terminator(buf: Seq<u8>)
    requires
        last_boundary(buf) is Some,
    ensures
        0 < last_boundary(buf)->0 <= buf.len(),
        buf[last_boundary(buf)->0 - 1] == 0x3b,
{
    lemma_scan_bounds(buf, 0, None);
}

// ── Streaming ──
/// The byte buffer of the `bytes` crate.
#[verifier::external_type_specification]
#[verifier::external_body]
pub struct ExBytesMut(bytes::BytesMut);

/// The bytes that a buffer holds, in order.
pub uninterp spec fn buffer_bytes(b: bytes::BytesMut) -> Seq<u8>;

/// `BytesMut::with_capacity` makes a buffer that holds nothing.
#[verifier::external_body]
fn buffer_with_capacity(capacity: usize) -> (b: bytes::BytesMut)
    requires
        capacity <= isize::MAX,
    ensures
        buffer_bytes(b) == Seq::<u8>::empty(),
{
    bytes::BytesMut::with_capacity(capacity)
}

/// `BytesMut::extend_from_slice` appends the bytes of the slice. It panics
/// where the buffer would outgrow the address space.
#[verifier::external_body]
fn buffer_extend(b: &mut bytes::BytesMut, data: &[u8])
    requires
        buffer_bytes(*old(b)).len() + data@.len() <= isize::MAX,
    ensures
        buffer_bytes(*final(b)) == buffer_bytes(*old(b)) + data@,
{
    b.extend_from_slice(data)
}

/// Dereferencing a `BytesMut` gives its bytes as a slice.
#[verifier::external_body]
fn buffer_slice(b: &bytes::BytesMut) -> (r: &[u8])
    ensures
        r@ == buffer_bytes(*b),
{
    b
}

/// `BytesMut::clear` drops all bytes.
#[verifier::external_body]
fn buffer_clear(b: &mut bytes::BytesMut)
    ensures
        buffer_bytes(*final(b)) == Seq::<u8>::empty(),
{
    b.clear()
}

/// `BytesMut::split_to` takes the first `at` bytes out and leaves the rest.
#[verifier::external_body]
fn buffer_split_to(b: &mut bytes::BytesMut, at: usize) -> (r: bytes::BytesMut)
    requires
        at <= buffer_bytes(*old(b)).len(),
    ensures
        buffer_bytes(r) == buffer_bytes(*old(b)).take(at as int),
        buffer_bytes(*final(b)) == buffer_bytes(*old(b)).skip(at as int),
{
    b.split_to(at)
}

/// `std::str::from_utf8` gives the text whose encoding the bytes are, and an
/// error for bytes that are no UTF-8.
#[verifier::external_body]
pub(crate) fn utf8_text(b: &[u8]) -> (r: Option<&str>)
    ensures
        match r {
            Some(s) => valid_utf8(b@) && s.spec_bytes() == b@,
            None => !valid_utf8(b@),
        },
{
    std::str::from_utf8(b).ok()
}

/// What stands at a position of a stream of instructions.
pub ghost enum Step {
    /// The element there is not complete.
    More,
    /// There is no element there; it goes wrong at this position.
    Bad(nat),
    /// An element of an instruction that goes on at this position.
    Next(nat),
    /// The last element of an instruction that ends before this position.
    End(nat),
}

/// What stands at `pos`, read by the length prefix. Lengths count bytes.
pub open spec fn step_at(b: Seq<u8>, pos: nat) -> Step {
    let d = digits_end(b, pos);
    if d >= b.len() {
        Step::More
    } else {
        match length_at(b, pos) {
            None => Step::Bad(d),
            Some((n, data)) => if data + n >= b.len() {
                Step::More
            } else {
                match separator_at(b, data + n) {
                    None => Step::Bad(data + n),
                    Some((end, true)) => Step::End(end),
                    Some((end, false)) => Step::Next(end),
                }
            },
        }
    }
}

/// The position behind the first semicolon from `at` on.
pub open spec fn behind_semicolon(b: Seq<u8>, at: nat) -> Option<nat>
    decreases b.len() - at,
{
    if at >= b.len() {
        None
    } else if b[at as int] == 0x3b {
        Some(at + 1)
    } else {
        behind_semicolon(b, at + 1)
    }
}

/// The end of the frame whose elements from `pos` on are read: behind the
/// terminator that the length prefixes lead to, or, where they lead nowhere,
/// behind the next semicolon. Nothing where the frame is not complete.
pub open spec fn frame_end_from(b: Seq<u8>, pos: nat) -> Option<nat>
    decreases b.len() - pos,
    via frame_end_decreases
{
    match step_at(b, pos) {
        Step::More => None,
        Step::Bad(at) => behind_semicolon(b, at),
        Step::End(end) => Some(end),
        Step::Next(next) => frame_end_from(b, next),
    }
}

#[via_fn]
proof fn frame_end_decreases(b: Seq<u8>, pos: nat) {
    lemma_step_at(b, pos);
}

/// The end of the first frame of `b`.
pub open spec fn frame_end(b: Seq<u8>) -> Option<nat> {
    frame_end_from(b, 0)
}

/// The frames of `b`, each with its terminator.
pub open spec fn frames(b: Seq<u8>) -> Seq<Seq<u8>>
    decreases b.len(),
    via frames_decreases
{
    match frame_end(b) {
        Some(end) => seq![b.take(end as int)] + frames(b.skip(end as int)),
        None => Seq::empty(),
    }
}

#[via_fn]
proof fn frames_decreases(b: Seq<u8>) {
    lemma_frame_end(b, 0);
}

/// What stands behind the last frame of `b`.
pub open spec fn remainder(b: Seq<u8>) -> Seq<u8>
    decreases b.len(),
    via remainder_decreases
{
    match frame_end(b) {
        Some(end) => remainder(b.skip(end as int)),
        None => b,
    }
}

#[via_fn]
proof fn remainder_decreases(b: Seq<u8>) {
    lemma_frame_end(b, 0);
}

/// An element takes up room, within the buffer.
proof fn lemma_step_at(b: Seq<u8>, pos: nat)
    ensures
        match step_at(b, pos) {
            Step::More => true,
            Step::Bad(at) => pos <= at < b.len(),
            Step::Next(end) => pos < end <= b.len(),
            Step::End(end) => pos < end <= b.len(),
        },
{
    lemma_digits_end(b, pos);
}

proof fn lemma_behind_semicolon(b: Seq<u8>, at: nat)
    ensures
        behind_semicolon(b, at) is Some ==> at < behind_semicolon(b, at)->0 <= b.len(),
    decreases b.len() - at,
{
    if at < b.len() && b[at as int] != 0x3b {
        lemma_behind_semicolon(b, at + 1);
    }
}

proof fn lemma_frame_end(b: Seq<u8>, pos: nat)
    ensures
        frame_end_from(b, pos) is Some ==> pos < frame_end_from(b, pos)->0 <= b.len(),
    decreases b.len() - pos,
{
    lemma_step_at(b, pos);
    match step_at(b, pos) {
        Step::Bad(at) => {
            lemma_behind_semicolon(b, at);
        },
        Step::Next(next) => {
            lemma_frame_end(b, next);
        },
        _ => {},
    }
}

/// What one frame parses to.
pub open spec fn frame_outcome(frame: Seq<u8>) -> Result<Seq<Seq<char>>, ParseError> {
    if valid_utf8(frame) {
        parsed(decode_utf8(frame))
    } else {
        Err(ParseError::MalformedElement)
    }
}

/// The elements of each parse outcome.
pub open spec fn outcomes(v: Seq<Result<Instruction, ParseError>>) -> Seq<
    Result<Seq<Seq<char>>, ParseError>,
> {
    v.map_values(|r: Result<Instruction, ParseError>| outcome(r))
}

/// What each frame parses to.
pub open spec fn frame_outcomes(v: Seq<Seq<u8>>) -> Seq<Result<Seq<Seq<char>>, ParseError>> {
    v.map_values(|f: Seq<u8>| frame_outcome(f))
}

/// The end of the first frame of `b`.
fn find_frame(b: &[u8]) -> (r: Option<usize>)
    ensures
        match r {
            Some(end) => frame_end(b@) == Some(end as nat) && 0 < end <= b@.len(),
            None => frame_end(b@) is None,
        },
{
    let whole: usize = b.len();
    let mut pos: usize = 0;
    proof {
        lemma_frame_end(b@, 0);
    }
    loop
        invariant
            pos <= b@.len(),
            whole == b@.len(),
            frame_end(b@) == frame_end_from(b@, pos as nat),
            frame_end(b@) is Some ==> 0 < frame_end(b@)->0 <= b@.len(),
        decreases b@.len() - pos,
    {
        proof {
            lemma_step_at(b@, pos as nat);
            lemma_digits_end(b@, pos as nat);
        }
        let d: usize = digits_stop(b, pos);
        if d >= whole {
            return None;
        }
        let bad: usize = match read_length(b, pos) {
            None => d,
            Some((n, data)) => {
                if n >= whole - data {
                    return None;
                }
                let at: usize = data + n;
                match read_separator(b, at) {
                    Some((end, true)) => return Some(end),
                    Some((end, false)) => {
                        pos = end;
                        continue;
                    },
                    None => at,
                }
            },
        };
        return find_semicolon(b, bad);
    }
}

/// The position behind the run of digits that starts at `pos`.
fn digits_stop(b: &[u8], pos: usize) -> (d: usize)
    requires
        pos <= b@.len(),
    ensures
        d == digits_end(b@, pos as nat),
        pos <= d <= b@.len(),
{
    let mut d: usize = pos;
    while d < b.len() && b[d] >= 0x30 && b[d] <= 0x39
        invariant
            pos <= d <= b@.len(),
            digits_end(b@, pos as nat) == digits_end(b@, d as nat),
        decreases b@.len() - d,
    {
        d = d + 1;
    }
    d
}

/// The position behind the first semicolon from `at` on.
fn find_semicolon(b: &[u8], at: usize) -> (r: Option<usize>)
    requires
        at <= b@.len(),
    ensures
        match r {
            Some(end) => behind_semicolon(b@, at as nat) == Some(end as nat),
            None => behind_semicolon(b@, at as nat) is None,
        },
{
    let mut i: usize = at;
    while i < b.len()
        invariant
            at <= i <= b@.len(),
            behind_semicolon(b@, at as nat) == behind_semicolon(b@, i as nat),
        decreases b@.len() - i,
    {
        if b[i] == 0x3b {
            return Some(i + 1);
        }
        i = i + 1;
    }
    None
}

/// A run of digits that ends before the end of a buffer ends there whatever
/// follows.
proof fn lemma_digits_end_extends(a: Seq<u8>, b: Seq<u8>, pos: nat)
    requires
        digits_end(a, pos) < a.len(),
    ensures
        digits_end(a + b, pos) == digits_end(a, pos),
    decreases a.len() - pos,
{
    if pos < a.len() {
        assert((a + b)[pos as int] == a[pos as int]);
        if digit_byte(a[pos as int]) {
            lemma_digits_end_extends(a, b, pos + 1);
        }
    }
}

proof fn lemma_byte_number_extends(a: Seq<u8>, b: Seq<u8>, from: nat, to: nat)
    requires
        to <= a.len(),
    ensures
        byte_number(a + b, from, to) == byte_number(a, from, to),
    decreases to - from,
{
    if from < to {
        lemma_byte_number_extends(a, b, from, (to - 1) as nat);
        assert((a + b)[to - 1] == a[to - 1]);
    }
}

proof fn lemma_length_at_extends(a: Seq<u8>, b: Seq<u8>, pos: nat)
    requires
        digits_end(a, pos) < a.len(),
    ensures
        length_at(a + b, pos) == length_at(a, pos),
{
    let d = digits_end(a, pos);
    lemma_digits_end_extends(a, b, pos);
    lemma_byte_number_extends(a, b, pos, d);
    assert((a + b)[d as int] == a[d as int]);
}

proof fn lemma_behind_semicolon_extends(a: Seq<u8>, b: Seq<u8>, at: nat)
    requires
        behind_semicolon(a, at) is Some,
    ensures
        behind_semicolon(a + b, at) == behind_semicolon(a, at),
    decreases a.len() - at,
{
    assert((a + b)[at as int] == a[at as int]);
    if a[at as int] != 0x3b {
        lemma_behind_semicolon_extends(a, b, at + 1);
    }
}

/// A frame that is complete stays what it is when more comes in.
proof fn lemma_frame_end_extends(a: Seq<u8>, b: Seq<u8>, pos: nat)
    requires
        frame_end_from(a, pos) is Some,
    ensures
        frame_end_from(a + b, pos) == frame_end_from(a, pos),
    decreases a.len() - pos,
{
    lemma_step_at(a, pos);
    lemma_digits_end_extends(a, b, pos);
    lemma_length_at_extends(a, b, pos);
    match length_at(a, pos) {
        Some((n, data)) => {
            assert((a + b)[(data + n) as int] == a[(data + n) as int]);
        },
        None => {},
    }
    assert(step_at(a + b, pos) == step_at(a, pos));
    match step_at(a, pos) {
        Step::Bad(at) => {
            lemma_behind_semicolon_extends(a, b, at);
        },
        Step::Next(next) => {
            lemma_frame_end_extends(a, b, next);
        },
        _ => {},
    }
}

/// Feeding two chunks one after the other gives the frames, and leaves the
/// rest, that feeding them as one gives and leaves.
pub proof fn law_chunks(a: Seq<u8>, b: Seq<u8>)
    ensures
        frames(a + b) == frames(a) + frames(remainder(a) + b),
        remainder(a + b) == remainder(remainder(a) + b),
    decreases a.len(),
{
    lemma_frame_end(a, 0);
    match frame_end(a) {
        Some(end) => {
            let k = end as int;
            lemma_frame_end_extends(a, b, 0);
            assert((a + b).skip(k) =~= a.skip(k) + b);
            assert((a + b).take(k) =~= a.take(k));
            law_chunks(a.skip(k), b);
            assert(seq![a.take(k)] + (frames(a.skip(k)) + frames(remainder(a) + b)) =~= (seq![
                a.take(k),
            ] + frames(a.skip(k))) + frames(remainder(a) + b));
        },
        None => {
            assert(frames(a) + frames(a + b) =~= frames(a + b));
        },
    }
}

/// What is left over after a chunk holds no complete frame, and is no longer
/// than what went in.
pub proof fn law_remainder(b: Seq<u8>)
    ensures
        frames(remainder(b)) == Seq::<Seq<u8>>::empty(),
        remainder(b).len() <= b.len(),
    decreases b.len(),
{
    lemma_frame_end(b, 0);
    match frame_end(b) {
        Some(end) => {
            law_remainder(b.skip(end as int));
        },
        None => {},
    }
}

// ── Encoded instructions in a stream ──
/// The encoding of two texts, one after the other.
proof fn lemma_encode_concat(a: Seq<char>, b: Seq<char>)
    ensures
        encode_utf8(a + b) == encode_utf8(a) + encode_utf8(b),
    decreases a.len(),
{
    if a.len() == 0 {
        assert(a + b =~= b);
        assert(encode_utf8(a) + encode_utf8(b) =~= encode_utf8(b));
    } else {
        lemma_encode_concat(a.drop_first(), b);
        assert((a + b).drop_first() =~= a.drop_first() + b);
        assert(encode_utf8(a + b) =~= encode_utf8(a) + encode_utf8(b));
    }
}

/// The encoding of an ASCII character is its byte.
proof fn lemma_encode_one(c: char, n: u8)
    requires
        c as u32 == n,
        n < 0x80,
    ensures
        encode_utf8(seq![c]) == seq![n],
{
    let s = seq![c];
    assert(is_ascii_chars(s));
    is_ascii_chars_encode_utf8(s);
    assert(s[0] as u8 == encode_utf8(s)[0]);
    assert(encode_utf8(s) =~= seq![n]);
}

/// Digits at a position are the number that they write.
proof fn lemma_byte_number_is(b: Seq<u8>, pos: nat, s: Seq<char>)
    requires
        all_digits(s),
        pos + s.len() <= b.len(),
        forall|i: int| 0 <= i < s.len() ==> b[pos + i] == #[trigger] s[i] as u8,
    ensures
        byte_number(b, pos, pos + s.len()) == number(s),
    decreases s.len(),
{
    if s.len() > 0 {
        let t = s.drop_last();
        assert forall|i: int| 0 <= i < t.len() implies b[pos + i] == #[trigger] t[i] as u8 by {
            assert(t[i] == s[i]);
        }
        assert(all_digits(t)) by {
            assert forall|i: int| 0 <= i < t.len() implies is_digit(#[trigger] t[i]) by {
                assert(t[i] == s[i]);
            }
        }
        lemma_byte_number_is(b, pos, t);
        assert(is_digit(s[s.len() - 1]));
        assert(b[pos + s.len() - 1] == s[s.len() - 1] as u8);
    }
}

proof fn lemma_digits_end_is(b: Seq<u8>, pos: nat, k: nat)
    requires
        pos <= k < b.len(),
        forall|i: int| pos <= i < k ==> digit_byte(#[trigger] b[i]),
        !digit_byte(b[k as int]),
    ensures
        digits_end(b, pos) == k,
    decreases k - pos,
{
    if pos < k {
        assert(digit_byte(b[pos as int]));
        lemma_digits_end_is(b, pos + 1, k);
    }
}

/// The bytes of an encoded element.
pub open spec fn element_bytes(e: Seq<char>) -> Seq<u8> {
    encode_utf8(element(e))
}

/// An encoded element at a position is read: its length, and where its text
/// begins.
proof fn lemma_length_read(b: Seq<u8>, pos: nat, e: Seq<char>)
    requires
        byte_len(e) <= usize::MAX,
        pos + element_bytes(e).len() <= b.len(),
        b.subrange(pos as int, (pos + element_bytes(e).len()) as int) == element_bytes(e),
    ensures
        ({
            let data = pos + digits(byte_len(e)).len() + 1;
            &&& digits_end(b, pos) == data - 1
            &&& length_at(b, pos) == Some((byte_len(e), data as nat))
            &&& data + byte_len(e) == pos + element_bytes(e).len()
            &&& b.subrange(data as int, (data + byte_len(e)) as int) == encode_utf8(e)
        }),
{
    let n = byte_len(e);
    let d = digits(n);
    let all = element_bytes(e);
    lemma_digits(n);
    lemma_byte_len(e);
    assert(is_ascii_chars(d)) by {
        assert forall|i: int| 0 <= i < d.len() implies '\0' <= #[trigger] d[i] <= '\u{7f}' by {
            assert(is_digit(d[i]));
        }
    }
    is_ascii_chars_encode_utf8(d);
    lemma_encode_one('.', 0x2e);
    lemma_encode_concat(d, seq!['.']);
    lemma_encode_concat(d + seq!['.'], e);
    let k = d.len() as int;
    assert(all == encode_utf8(d) + seq![0x2eu8] + encode_utf8(e));
    assert forall|i: int| 0 <= i < k implies b[pos + i] == #[trigger] d[i] as u8 by {
        assert(b.subrange(pos as int, (pos + all.len()) as int)[i] == all[i]);
        assert(encode_utf8(d)[i] == d[i] as u8);
    }
    assert(b[pos + k] == 0x2e) by {
        assert(b.subrange(pos as int, (pos + all.len()) as int)[k] == all[k]);
    }
    lemma_byte_number_is(b, pos, d);
    assert forall|i: int| pos <= i < pos + k implies digit_byte(#[trigger] b[i]) by {
        assert(is_digit(d[i - pos]));
        assert(b[pos + (i - pos)] == d[i - pos] as u8);
    }
    lemma_digits_end_is(b, pos, (pos + k) as nat);
    assert(b.subrange(pos + k + 1, pos + k + 1 + n) =~= encode_utf8(e)) by {
        assert forall|i: int| 0 <= i < n implies b[pos + k + 1 + i] == encode_utf8(e)[i] by {
            assert(b.subrange(pos as int, (pos + all.len()) as int)[k + 1 + i] == all[k + 1 + i]);
        }
    }
}

/// The bytes of an encoded instruction.
pub open spec fn wire_bytes(elements: Seq<Seq<char>>) -> Seq<u8> {
    encode_utf8(wire(elements))
}

/// The bytes of an encoded instruction, read from the front.
proof fn lemma_wire_front(elements: Seq<Seq<char>>)
    requires
        elements.len() > 0,
    ensures
        elements.len() == 1 ==> wire_bytes(elements) == element_bytes(elements[0]) + seq![0x3bu8],
        elements.len() > 1 ==> wire_bytes(elements) == element_bytes(elements[0]) + seq![0x2cu8]
            + wire_bytes(elements.drop_first()),
{
    let first = element(elements[0]);
    lemma_encode_one(';', 0x3b);
    lemma_encode_one(',', 0x2c);
    if elements.len() == 1 {
        assert(body(elements) == first);
        assert(wire(elements) =~= first + seq![';']);
        lemma_encode_concat(first, seq![';']);
    } else {
        let more = wire(elements.drop_first());
        lemma_body_front(elements);
        assert(wire(elements) =~= first + seq![','] + more);
        lemma_encode_concat(first, seq![',']);
        lemma_encode_concat(first + seq![','], more);
    }
}

/// Whether every element of an instruction has a length that can be written
/// and read.
pub open spec fn fits(elements: Seq<Seq<char>>) -> bool {
    elements.len() > 0 && forall|i: int|
        0 <= i < elements.len() ==> byte_len(#[trigger] elements[i]) <= usize::MAX
}

/// An encoded instruction at a position is one frame.
proof fn lemma_frame_of_wire(b: Seq<u8>, pos: nat, elements: Seq<Seq<char>>)
    requires
        fits(elements),
        pos + wire_bytes(elements).len() <= b.len(),
        b.subrange(pos as int, (pos + wire_bytes(elements).len()) as int) == wire_bytes(elements),
    ensures
        frame_end_from(b, pos) == Some(pos + wire_bytes(elements).len()),
    decreases elements.len(),
{
    let w = wire_bytes(elements);
    let e = element_bytes(elements[0]);
    let k = e.len() as int;
    lemma_wire_front(elements);
    assert(b.subrange(pos as int, (pos + k) as int) =~= e) by {
        assert forall|i: int| 0 <= i < k implies b[pos + i] == e[i] by {
            assert(b.subrange(pos as int, (pos + w.len()) as int)[i] == w[i]);
        }
    }
    assert(b[pos + k] == w[k]) by {
        assert(b.subrange(pos as int, (pos + w.len()) as int)[k] == w[k]);
    }
    lemma_length_read(b, pos, elements[0]);
    if elements.len() > 1 {
        let more = elements.drop_first();
        assert forall|i: int| 0 <= i < more.len() implies byte_len(#[trigger] more[i])
            <= usize::MAX by {
            assert(more[i] == elements[i + 1]);
        }
        let next = (pos + k + 1) as nat;
        let v = wire_bytes(more);
        assert(b.subrange(next as int, (next + v.len()) as int) =~= v) by {
            assert forall|i: int| 0 <= i < v.len() implies b[next + i] == v[i] by {
                assert(b.subrange(pos as int, (pos + w.len()) as int)[k + 1 + i] == w[k + 1 + i]);
            }
        }
        lemma_frame_of_wire(b, next, more);
        assert(step_at(b, pos) == Step::Next(next));
    } else {
        assert(step_at(b, pos) == Step::End((pos + k + 1) as nat));
    }
}

/// An encoded instruction at the front of a stream is its first frame,
/// whatever its elements hold, and the frame parses to the instruction.
pub proof fn law_receive_reads_encoded(elements: Seq<Seq<char>>, rest: Seq<u8>)
    requires
        fits(elements),
    ensures
        frames(wire_bytes(elements) + rest) == seq![wire_bytes(elements)] + frames(rest),
        remainder(wire_bytes(elements) + rest) == remainder(rest),
        frame_outcome(wire_bytes(elements)) == Ok::<Seq<Seq<char>>, ParseError>(elements),
{
    let w = wire_bytes(elements);
    let b = w + rest;
    assert(b.subrange(0, w.len() as int) =~= w);
    lemma_frame_of_wire(b, 0, elements);
    assert(b.take(w.len() as int) =~= w);
    assert(b.skip(w.len() as int) =~= rest);
    encode_utf8_valid_utf8(wire(elements));
    encode_utf8_decode_utf8(wire(elements));
    law_parse_reads_encoded(elements);
}

/// Over a stretch of ASCII, characters are bytes.
proof fn lemma_skip_ascii_stretch(b: Seq<u8>, pos: nat, n: nat)
    requires
        pos + n <= b.len(),
        forall|i: int| pos <= i < pos + n ==> #[trigger] b[i] < 0x80,
    ensures
        skip_chars(b, pos, n) == Some(pos + n),
    decreases n,
{
    if n > 0 {
        assert(b[pos as int] < 0x80);
        lemma_skip_ascii_stretch(b, pos + 1, (n - 1) as nat);
    }
}

/// Whether every element of an instruction is ASCII.
pub open spec fn ascii_elements(elements: Seq<Seq<char>>) -> bool {
    forall|i: int| 0 <= i < elements.len() ==> is_ascii_chars(#[trigger] elements[i])
}

/// An encoded ASCII element at a position ends before its separator.
proof fn lemma_element_of_wire(b: Seq<u8>, pos: nat, e: Seq<char>)
    requires
        byte_len(e) <= usize::MAX,
        is_ascii_chars(e),
        pos + element_bytes(e).len() < b.len(),
        b.subrange(pos as int, (pos + element_bytes(e).len()) as int) == element_bytes(e),
    ensures
        element_end(b, pos) == separator_at(b, pos + element_bytes(e).len()),
{
    lemma_length_read(b, pos, e);
    is_ascii_chars_encode_utf8(e);
    lemma_byte_len(e);
    let data = pos + digits(byte_len(e)).len() + 1;
    assert forall|i: int| data <= i < data + byte_len(e) implies #[trigger] b[i] < 0x80 by {
        assert(b.subrange(data as int, (data + byte_len(e)) as int)[i - data] == encode_utf8(e)[i - data]);
        assert(e[i - data] as u8 == encode_utf8(e)[i - data]);
        assert(e[i - data] <= '\u{7f}');
    }
    lemma_skip_ascii_stretch(b, data as nat, byte_len(e));
}

/// The scan passes over an encoded ASCII instruction and takes its end as a
/// boundary.
proof fn lemma_scan_wire(b: Seq<u8>, pos: nat, elements: Seq<Seq<char>>, last: Option<nat>)
    requires
        fits(elements),
        ascii_elements(elements),
        pos + wire_bytes(elements).len() <= b.len(),
        b.subrange(pos as int, (pos + wire_bytes(elements).len()) as int) == wire_bytes(elements),
    ensures
        ({
            let end = (pos + wire_bytes(elements).len()) as nat;
            scan(b, pos, last) == scan(b, end, Some(end))
        }),
    decreases elements.len(),
{
    let w = wire_bytes(elements);
    let e = element_bytes(elements[0]);
    let k = e.len() as int;
    lemma_wire_front(elements);
    assert(b.subrange(pos as int, (pos + k) as int) =~= e) by {
        assert forall|i: int| 0 <= i < k implies b[pos + i] == e[i] by {
            assert(b.subrange(pos as int, (pos + w.len()) as int)[i] == w[i]);
        }
    }
    assert(b[pos + k] == w[k]) by {
        assert(b.subrange(pos as int, (pos + w.len()) as int)[k] == w[k]);
    }
    lemma_element_of_wire(b, pos, elements[0]);
    if elements.len() > 1 {
        let more = elements.drop_first();
        assert forall|i: int| 0 <= i < more.len() implies byte_len(#[trigger] more[i])
            <= usize::MAX by {
            assert(more[i] == elements[i + 1]);
        }
        assert forall|i: int| 0 <= i < more.len() implies is_ascii_chars(#[trigger] more[i]) by {
            assert(more[i] == elements[i + 1]);
        }
        let next = (pos + k + 1) as nat;
        let v = wire_bytes(more);
        assert(b.subrange(next as int, (next + v.len()) as int) =~= v) by {
            assert forall|i: int| 0 <= i < v.len() implies b[next + i] == v[i] by {
                assert(b.subrange(pos as int, (pos + w.len()) as int)[k + 1 + i] == w[k + 1 + i]);
            }
        }
        lemma_scan_wire(b, next, more, last);
    }
}

proof fn lemma_skip_chars_extends(a: Seq<u8>, b: Seq<u8>, pos: nat, n: nat)
    requires
        skip_chars(a, pos, n) is Some,
    ensures
        skip_chars(a + b, pos, n) == skip_chars(a, pos, n),
    decreases n,
{
    if n > 0 {
        assert((a + b)[pos as int] == a[pos as int]);
        lemma_skip_chars_extends(a, b, pos + lead_width(a[pos as int]), (n - 1) as nat);
    }
}

/// An element that is complete stays what it is when more comes in.
proof fn lemma_element_end_extends(a: Seq<u8>, b: Seq<u8>, pos: nat)
    requires
        element_end(a, pos) is Some,
    ensures
        element_end(a + b, pos) == element_end(a, pos),
{
    lemma_digits_end(a, pos);
    lemma_length_at_extends(a, b, pos);
    match length_at(a, pos) {
        Some((n, data)) => {
            lemma_skip_chars_extends(a, b, data, n);
            let at = skip_chars(a, data, n)->0;
            assert((a + b)[at as int] == a[at as int]);
        },
        None => {},
    }
}

/// The scan finds no boundary in an encoded ASCII instruction of which some
/// is missing at the end.
proof fn lemma_scan_prefix(
    a: Seq<u8>,
    missing: Seq<u8>,
    pos: nat,
    elements: Seq<Seq<char>>,
    last: Option<nat>,
)
    requires
        fits(elements),
        ascii_elements(elements),
        missing.len() > 0,
        pos + wire_bytes(elements).len() == a.len() + missing.len(),
        (a + missing).subrange(pos as int, (pos + wire_bytes(elements).len()) as int) == wire_bytes(
            elements,
        ),
    ensures
        scan(a, pos, last) == last,
    decreases elements.len(),
{
    let b = a + missing;
    let w = wire_bytes(elements);
    let e = element_bytes(elements[0]);
    let k = e.len() as int;
    lemma_wire_front(elements);
    assert(b.subrange(pos as int, (pos + k) as int) =~= e) by {
        assert forall|i: int| 0 <= i < k implies b[pos + i] == e[i] by {
            assert(b.subrange(pos as int, (pos + w.len()) as int)[i] == w[i]);
        }
    }
    assert(b[pos + k] == w[k]) by {
        assert(b.subrange(pos as int, (pos + w.len()) as int)[k] == w[k]);
    }
    lemma_element_of_wire(b, pos, elements[0]);
    if element_end(a, pos) is Some {
        lemma_element_end_extends(a, missing, pos);
        lemma_element_end(a, pos);
        let next = (pos + k + 1) as nat;
        if elements.len() > 1 {
            let more = elements.drop_first();
            assert forall|i: int| 0 <= i < more.len() implies byte_len(#[trigger] more[i])
                <= usize::MAX by {
                assert(more[i] == elements[i + 1]);
            }
            assert forall|i: int| 0 <= i < more.len() implies is_ascii_chars(
                #[trigger] more[i],
            ) by {
                assert(more[i] == elements[i + 1]);
            }
            let v = wire_bytes(more);
            assert(b.subrange(next as int, (next + v.len()) as int) =~= v) by {
                assert forall|i: int| 0 <= i < v.len() implies b[next + i] == v[i] by {
                    assert(b.subrange(pos as int, (pos + w.len()) as int)[k + 1 + i] == w[k + 1 + i]);
                }
            }
            lemma_scan_prefix(a, missing, next, more, last);
        }
    }
}

/// The bytes of encoded instructions, one after the other.
pub open spec fn stream_bytes(instructions: Seq<Seq<Seq<char>>>) -> Seq<u8>
    decreases instructions.len(),
{
    if instructions.len() == 0 {
        Seq::empty()
    } else {
        stream_bytes(instructions.drop_last()) + wire_bytes(instructions.last())
    }
}

/// Encoded instructions in a row are the first frames of a stream, one each;
/// what follows them is framed as if it stood alone.
pub proof fn law_receive_reads_stream(instructions: Seq<Seq<Seq<char>>>, rest: Seq<u8>)
    requires
        forall|i: int| 0 <= i < instructions.len() ==> fits(#[trigger] instructions[i]),
    ensures
        frames(stream_bytes(instructions) + rest) == instructions.map_values(
            |e: Seq<Seq<char>>| wire_bytes(e),
        ) + frames(rest),
        remainder(stream_bytes(instructions) + rest) == remainder(rest),
    decreases instructions.len(),
{
    let all = instructions.map_values(|e: Seq<Seq<char>>| wire_bytes(e));
    if instructions.len() == 0 {
        assert(stream_bytes(instructions) + rest =~= rest);
        assert(all + frames(rest) =~= frames(rest));
    } else {
        let front = instructions.drop_last();
        let last = instructions.last();
        assert(last == instructions[instructions.len() - 1]);
        assert forall|i: int| 0 <= i < front.len() implies fits(#[trigger] front[i]) by {
            assert(front[i] == instructions[i]);
        }
        law_receive_reads_stream(front, wire_bytes(last) + rest);
        law_receive_reads_encoded(last, rest);
        assert(stream_bytes(instructions) + rest =~= stream_bytes(front) + (wire_bytes(last)
            + rest));
        let before = front.map_values(|e: Seq<Seq<char>>| wire_bytes(e));
        assert(all =~= before.push(wire_bytes(last)));
        assert(before + (seq![wire_bytes(last)] + frames(rest)) =~= all + frames(rest));
    }
}

/// Whether every instruction is ASCII, with lengths that can be written and
/// read.
pub open spec fn ascii_stream(instructions: Seq<Seq<Seq<char>>>) -> bool {
    forall|i: int|
        0 <= i < instructions.len() ==> fits(#[trigger] instructions[i]) && ascii_elements(
            instructions[i],
        )
}

/// The scan passes over encoded ASCII instructions.
proof fn lemma_scan_stream(instructions: Seq<Seq<Seq<char>>>, rest: Seq<u8>)
    requires
        ascii_stream(instructions),
    ensures
        ({
            let s = stream_bytes(instructions);
            last_boundary(s + rest) == scan(
                s + rest,
                s.len(),
                if instructions.len() == 0 {
                    None
                } else {
                    Some(s.len())
                },
            )
        }),
    decreases instructions.len(),
{
    if instructions.len() > 0 {
        let front = instructions.drop_last();
        let f = stream_bytes(front);
        let w = wire_bytes(instructions.last());
        assert forall|i: int| 0 <= i < front.len() implies fits(#[trigger] front[i])
            && ascii_elements(front[i]) by {
            assert(front[i] == instructions[i]);
        }
        assert(instructions[instructions.len() - 1] == instructions.last());
        lemma_scan_stream(front, w + rest);
        let b = stream_bytes(instructions) + rest;
        assert(f + (w + rest) =~= b);
        assert(b.subrange(f.len() as int, (f.len() + w.len()) as int) =~= w);
        lemma_scan_wire(
            b,
            f.len(),
            instructions.last(),
            if front.len() == 0 {
                None
            } else {
                Some(f.len())
            },
        );
    }
}

/// The boundary of encoded ASCII instructions, followed by another of which
/// some is missing at the end, is the end of the last complete one, whatever
/// the elements hold.
pub proof fn law_boundary_of_encoded(
    instructions: Seq<Seq<Seq<char>>>,
    another: Seq<Seq<char>>,
    k: int,
)
    requires
        instructions.len() > 0,
        ascii_stream(instructions),
        fits(another),
        ascii_elements(another),
        0 <= k < wire_bytes(another).len(),
    ensures
        last_boundary(stream_bytes(instructions) + wire_bytes(another).take(k)) == Some(
            stream_bytes(instructions).len(),
        ),
{
    let s = stream_bytes(instructions);
    let w = wire_bytes(another);
    lemma_scan_stream(instructions, w.take(k));
    let a = s + w.take(k);
    let missing = w.skip(k);
    assert((a + missing).subrange(s.len() as int, (s.len() + w.len()) as int) =~= w);
    lemma_scan_prefix(a, missing, s.len(), another, Some(s.len()));
}

// ── Flushing at a boundary ──
/// What a scan finds does not depend on what was found before it.
proof fn lemma_scan_last(b: Seq<u8>, pos: nat, last: Option<nat>)
    ensures
        scan(b, pos, last) == match scan(b, pos, None) {
            None => last,
            Some(k) => Some(k),
        },
        scan(b, pos, None) is Some ==> scan(b, pos, None)->0 > pos,
    decreases b.len() - pos,
{
    lemma_element_end(b, pos);
    match element_end(b, pos) {
        None => {},
        Some((end, true)) => {
            lemma_scan_last(b, end, Some(end));
        },
        Some((end, false)) => {
            lemma_scan_last(b, end, last);
        },
    }
}

proof fn lemma_digits_end_shifts(p: Seq<u8>, c: Seq<u8>, pos: nat)
    ensures
        digits_end(p + c, p.len() + pos) == p.len() + digits_end(c, pos),
    decreases c.len() - pos,
{
    if pos < c.len() {
        assert((p + c)[(p.len() + pos) as int] == c[pos as int]);
        if digit_byte(c[pos as int]) {
            lemma_digits_end_shifts(p, c, pos + 1);
        }
    }
}

proof fn lemma_byte_number_shifts(p: Seq<u8>, c: Seq<u8>, from: nat, to: nat)
    requires
        to <= c.len(),
    ensures
        byte_number(p + c, p.len() + from, p.len() + to) == byte_number(c, from, to),
    decreases to - from,
{
    if from < to {
        lemma_byte_number_shifts(p, c, from, (to - 1) as nat);
        assert((p + c)[p.len() + to - 1] == c[to - 1]);
    }
}

proof fn lemma_skip_chars_shifts(p: Seq<u8>, c: Seq<u8>, pos: nat, n: nat)
    ensures
        skip_chars(p + c, p.len() + pos, n) == match skip_chars(c, pos, n) {
            Some(at) => Some((p.len() + at) as nat),
            None => None,
        },
    decreases n,
{
    if n > 0 && pos < c.len() {
        assert((p + c)[(p.len() + pos) as int] == c[pos as int]);
        lemma_skip_chars_shifts(p, c, pos + lead_width(c[pos as int]), (n - 1) as nat);
    }
}

/// An element is read the same wherever it stands.
proof fn lemma_element_end_shifts(p: Seq<u8>, c: Seq<u8>, pos: nat)
    ensures
        element_end(p + c, p.len() + pos) == match element_end(c, pos) {
            Some((end, t)) => Some(((p.len() + end) as nat, t)),
            None => None,
        },
{
    let b = p + c;
    let d = digits_end(c, pos);
    lemma_digits_end_shifts(p, c, pos);
    if d < c.len() {
        lemma_byte_number_shifts(p, c, pos, d);
        assert(b[(p.len() + d) as int] == c[d as int]);
    }
    match length_at(c, pos) {
        Some((n, data)) => {
            lemma_skip_chars_shifts(p, c, data, n);
            match skip_chars(c, data, n) {
                Some(at) => {
                    if at < c.len() {
                        assert(b[(p.len() + at) as int] == c[at as int]);
                    }
                },
                None => {},
            }
        },
        None => {},
    }
}

/// A scan finds the same wherever the buffer's end stands.
proof fn lemma_scan_shifts(p: Seq<u8>, c: Seq<u8>, pos: nat)
    ensures
        scan(p + c, p.len() + pos, None) == match scan(c, pos, None) {
            Some(k) => Some((p.len() + k) as nat),
            None => None,
        },
    decreases c.len() - pos,
{
    lemma_element_end(c, pos);
    lemma_element_end_shifts(p, c, pos);
    match element_end(c, pos) {
        None => {},
        Some((end, true)) => {
            lemma_scan_shifts(p, c, end);
            lemma_scan_last(p + c, p.len() + end, Some((p.len() + end) as nat));
            lemma_scan_last(c, end, Some(end));
        },
        Some((end, false)) => {
            lemma_scan_shifts(p, c, end);
        },
    }
}

proof fn lemma_skip_chars_stops(a: Seq<u8>, b: Seq<u8>, pos: nat, n: nat)
    requires
        skip_chars(a + b, pos, n) is Some,
        skip_chars(a + b, pos, n)->0 <= a.len(),
    ensures
        skip_chars(a, pos, n) == skip_chars(a + b, pos, n),
    decreases n,
{
    if n > 0 {
        let w = lead_width((a + b)[pos as int]);
        lemma_skip_chars(a + b, pos + w, (n - 1) as nat);
        assert((a + b)[pos as int] == a[pos as int]);
        lemma_skip_chars_stops(a, b, pos + w, (n - 1) as nat);
    }
}

proof fn lemma_digits_end_stops(a: Seq<u8>, b: Seq<u8>, pos: nat)
    requires
        digits_end(a + b, pos) < a.len(),
    ensures
        digits_end(a, pos) == digits_end(a + b, pos),
    decreases a.len() - pos,
{
    lemma_digits_end(a + b, pos);
    assert((a + b)[pos as int] == a[pos as int]);
    if digit_byte(a[pos as int]) {
        lemma_digits_end_stops(a, b, pos + 1);
    }
}

/// What follows an element does not matter to it.
proof fn lemma_element_end_stops(a: Seq<u8>, b: Seq<u8>, pos: nat)
    requires
        element_end(a + b, pos) is Some,
        (element_end(a + b, pos)->0).0 <= a.len(),
    ensures
        element_end(a, pos) == element_end(a + b, pos),
{
    let (n, data) = length_at(a + b, pos)->0;
    lemma_digits_end(a + b, pos);
    lemma_skip_chars(a + b, data, n);
    lemma_digits_end_stops(a, b, pos);
    lemma_length_at_extends(a, b, pos);
    lemma_skip_chars_stops(a, b, data, n);
    let at = skip_chars(a, data, n)->0;
    assert((a + b)[at as int] == a[at as int]);
}

/// A scan that ends at a boundary passes it, whatever follows.
proof fn lemma_scan_passes(a: Seq<u8>, b: Seq<u8>, more: Seq<u8>, pos: nat)
    requires
        pos < a.len(),
        scan(a + b, pos, None) == Some(a.len()),
    ensures
        scan(a + more, pos, None) == scan(a + more, a.len(), Some(a.len())),
    decreases a.len() - pos,
{
    let whole = a + b;
    lemma_element_end(whole, pos);
    let (end, t) = element_end(whole, pos)->0;
    lemma_scan_last(whole, end, Some(end));
    assert(end <= a.len()) by {
        if end > a.len() {
            assert(scan(whole, end, None) is Some ==> scan(whole, end, None)->0 > end);
        }
    }
    lemma_element_end_stops(a, b, pos);
    lemma_element_end_extends(a, more, pos);
    if end < a.len() {
        assert(scan(whole, end, None) == Some(a.len()));
        lemma_scan_passes(a, b, more, end);
        lemma_scan_last(a + more, end, Some(end));
        lemma_scan_last(a + more, a.len(), Some(a.len()));
    } else if !t {
        assert(scan(whole, end, None) == Some(a.len()));
    }
}

/// Nothing is lost where a buffer is flushed at its boundary, and more bytes
/// never lower it: what is flushed is complete, and the rest with what follows
/// goes on from there.
pub proof fn law_boundary_flushes(a: Seq<u8>, b: Seq<u8>)
    requires
        last_boundary(a) is Some,
    ensures
        ({
            let k = last_boundary(a)->0;
            &&& last_boundary(a.take(k as int)) == Some(k)
            &&& last_boundary(a + b) == Some(
                (k + match last_boundary(a.skip(k as int) + b) {
                    Some(j) => j,
                    None => 0,
                }) as nat,
            )
        }),
{
    let k = last_boundary(a)->0;
    law_boundary_follows_terminator(a);
    let p = a.take(k as int);
    let rest = a.skip(k as int);
    let none = Seq::<u8>::empty();
    assert(p + rest =~= a);
    assert(p + none =~= p);
    assert(p + (rest + b) =~= a + b);
    lemma_scan_passes(p, rest, none, 0);
    lemma_scan_passes(p, rest, rest + b, 0);
    lemma_scan_shifts(p, none, 0);
    lemma_scan_shifts(p, rest + b, 0);
    lemma_scan_last(p + none, k, Some(k));
    lemma_scan_last(p + (rest + b), k, Some(k));
    lemma_element_end(none, 0);
}

/// Streaming parser that accumulates data and yields complete instructions.
pub struct InstructionParser {
    buffer: bytes::BytesMut,
}

impl Default for InstructionParser {
    fn default() -> (r: Self)
        ensures
            r.pending() == Seq::<u8>::empty(),
    {
        InstructionParser { buffer: buffer_with_capacity(8192) }
    }
}

impl InstructionParser {
    /// The bytes that wait for their terminator.
    pub closed spec fn pending(&self) -> Seq<u8> {
        buffer_bytes(self.buffer)
    }

    /// Create an empty parser, ready to receive data.
    pub fn new() -> (r: Self)
        ensures
            r.pending() == Seq::<u8>::empty(),
    {
        InstructionParser { buffer: buffer_with_capacity(8192) }
    }

    /// Feed data into the parser and return any complete instructions. Frames
    /// follow the length prefixes: a semicolon inside an element ends nothing.
    /// Where the buffer would exceed its cap, all of it is dropped.
    pub fn receive(&mut self, data: &str) -> (r: Vec<Result<Instruction, ParseError>>)
        ensures
            ({
                let all = old(self).pending() + data.spec_bytes();
                if all.len() > MAX_PROTOCOL_BUFFER_LEN {
                    final(self).pending() == Seq::<u8>::empty() && r@.len() == 0
                } else {
                    final(self).pending() == remainder(all) && outcomes(r@) == frame_outcomes(
                        frames(all),
                    )
                }
            }),
            final(self).pending().len() <= MAX_PROTOCOL_BUFFER_LEN,
    {
        let ghost all = self.pending() + data.spec_bytes();
        let mut results: Vec<Result<Instruction, ParseError>> = Vec::new();
        let held: usize = buffer_slice(&self.buffer).len();
        let fresh: usize = data.as_bytes().len();
        if held > MAX_PROTOCOL_BUFFER_LEN || fresh > MAX_PROTOCOL_BUFFER_LEN - held {
            buffer_clear(&mut self.buffer);
            return results;
        }
        buffer_extend(&mut self.buffer, data.as_bytes());
        proof {
            law_remainder(all);
            assert(outcomes(results@) + frame_outcomes(frames(all)) =~= frame_outcomes(
                frames(all),
            ));
        }
        loop
            invariant_except_break
                outcomes(results@) + frame_outcomes(frames(buffer_bytes(self.buffer)))
                    == frame_outcomes(frames(all)),
            invariant
                remainder(buffer_bytes(self.buffer)) == remainder(all),
            ensures
                buffer_bytes(self.buffer) == remainder(all),
                outcomes(results@) == frame_outcomes(frames(all)),
            decreases buffer_bytes(self.buffer).len(),
        {
            let ghost here = buffer_bytes(self.buffer);
            let ghost before = results@;
            let end: usize = match find_frame(buffer_slice(&self.buffer)) {
                Some(end) => end,
                None => {
                    proof {
                        assert(frame_outcomes(frames(here)) =~= Seq::empty());
                        assert(outcomes(results@) + frame_outcomes(frames(here)) =~= outcomes(
                            results@,
                        ));
                    }
                    break;
                },
            };
            let taken = buffer_split_to(&mut self.buffer, end);
            let ghost f = here.take(end as int);
            let one = match utf8_text(buffer_slice(&taken)) {
                Some(s) => {
                    proof {
                        encode_utf8_decode_utf8(s@);
                    }
                    Instruction::parse(s)
                },
                None => Err(ParseError::MalformedElement),
            };
            proof {
                let tail = here.skip(end as int);
                assert(outcome(one) == frame_outcome(f));
                assert(frame_outcomes(frames(here)) =~= seq![frame_outcome(f)] + frame_outcomes(
                    frames(tail),
                ));
                assert(outcomes(before.push(one)) =~= outcomes(before).push(outcome(one)));
                assert(outcomes(before) + (seq![frame_outcome(f)] + frame_outcomes(frames(tail)))
                    =~= outcomes(before.push(one)) + frame_outcomes(frames(tail)));
            }
            results.push(one);
        }
        results
    }
}

} // verus!
