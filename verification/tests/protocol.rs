use persea::protocol::{
    encode_element, fast_instruction_boundary, last_instruction_boundary, Instruction,
    InstructionParser, ParseError,
};

#[test]
fn test_encode_simple() {
    let inst = Instruction::new("size", vec!["800".into(), "600".into()]);
    assert_eq!(inst.encode(), "4.size,3.800,3.600;");
}

#[test]
fn test_encode_no_args() {
    let inst = Instruction::new("nop", vec![]);
    assert_eq!(inst.encode(), "3.nop;");
}

#[test]
fn test_encode_select() {
    let inst = Instruction::new("select", vec!["ssh".into()]);
    assert_eq!(inst.encode(), "6.select,3.ssh;");
}

#[test]
fn test_parse_simple() {
    let inst = Instruction::parse("4.size,3.800,3.600").unwrap();
    assert_eq!(inst.opcode, "size");
    assert_eq!(inst.args, vec!["800", "600"]);
}

#[test]
fn test_parse_with_semicolon() {
    let inst = Instruction::parse("4.size,3.800,3.600;").unwrap();
    assert_eq!(inst.opcode, "size");
    assert_eq!(inst.args, vec!["800", "600"]);
}

#[test]
fn test_parse_no_args() {
    let inst = Instruction::parse("3.nop").unwrap();
    assert_eq!(inst.opcode, "nop");
    assert!(inst.args.is_empty());
}

#[test]
fn test_roundtrip() {
    let original = Instruction::new(
        "connect",
        vec![
            "10.0.0.5".into(),
            "22".into(),
            "admin".into(),
            "password123".into(),
        ],
    );
    let encoded = original.encode();
    let parsed = Instruction::parse(&encoded).unwrap();
    assert_eq!(original, parsed);
}

#[test]
fn test_streaming_parser() {
    let mut parser = InstructionParser::new();

    // Feed partial data
    let results = parser.receive("4.size,3.80");
    assert!(results.is_empty());

    // Complete the instruction and start another
    let results = parser.receive("0,3.600;3.nop;");
    assert_eq!(results.len(), 2);
    assert_eq!(results[0].as_ref().unwrap().opcode, "size");
    assert_eq!(results[1].as_ref().unwrap().opcode, "nop");
}

// ── Adversarial parser cases ───────────────────────────────────────────
// guacd is a trust boundary: even under compromise, the persea parser
// must refuse to panic, must reject malformed frames cleanly, and must
// bound memory. Every negative case here should produce a ParseError or
// be dropped by the 1 MiB buffer cap — never a panic or OOM.

#[test]
fn parse_rejects_length_longer_than_data() {
    // Claims 10 bytes but only 3 are present.
    let err = Instruction::parse("10.abc").unwrap_err();
    assert!(matches!(err, ParseError::Truncated));
}

#[test]
fn parse_rejects_non_numeric_length() {
    let err = Instruction::parse("x.size").unwrap_err();
    assert!(matches!(err, ParseError::InvalidLength));
}

#[test]
fn parse_rejects_negative_length() {
    // `-1` is not valid usize — must be rejected, not cast.
    let err = Instruction::parse("-1.x").unwrap_err();
    assert!(matches!(err, ParseError::InvalidLength));
}

#[test]
fn parse_rejects_overflow_length() {
    // 2^65 overflows usize on every platform and must be a clean error.
    let err = Instruction::parse("36893488147419103232.x").unwrap_err();
    assert!(matches!(err, ParseError::InvalidLength));
}

#[test]
fn parse_rejects_missing_dot() {
    let err = Instruction::parse("4size").unwrap_err();
    assert!(matches!(err, ParseError::MalformedElement));
}

#[test]
fn parse_rejects_unexpected_separator() {
    // After the element body we must see `,` or end. A bare letter
    // should produce UnexpectedChar, not silently continue.
    let err = Instruction::parse("4.sizeX3.800").unwrap_err();
    assert!(matches!(err, ParseError::UnexpectedChar));
}

#[test]
fn parse_rejects_empty() {
    assert!(matches!(
        Instruction::parse("").unwrap_err(),
        ParseError::Empty
    ));
    assert!(matches!(
        Instruction::parse(";").unwrap_err(),
        ParseError::Empty
    ));
}

#[test]
fn parse_rejects_split_multibyte_char() {
    // '€' is three bytes (E2 82 AC). Claiming length 2 would split the
    // char on a non-boundary — parser must reject rather than panic.
    let bad = "2.€";
    let err = Instruction::parse(bad).unwrap_err();
    assert!(matches!(err, ParseError::Truncated));
}

#[test]
fn parse_accepts_correct_multibyte_length() {
    // Correct byte-length for '€' is 3.
    let inst = Instruction::parse("3.€").unwrap();
    assert_eq!(inst.opcode, "€");
}

#[test]
fn parse_accepts_zero_length_element() {
    let inst = Instruction::parse("3.nop,0.,3.foo").unwrap();
    assert_eq!(inst.opcode, "nop");
    assert_eq!(inst.args, vec!["", "foo"]);
}

#[test]
fn parse_accepts_embedded_semicolon_within_length() {
    // Length includes the `;` so it's part of the element, not a
    // terminator. The caller's framing must respect length; this test
    // proves parse() honours the length over the semicolon.
    let inst = Instruction::parse("5.a;b;c").unwrap();
    assert_eq!(inst.opcode, "a;b;c");
}

#[test]
fn streaming_parser_caps_buffer_at_1_mib() {
    // Feed > 1 MiB in a single receive with no terminator. The buffer
    // must clear in-place rather than grow unbounded, and the call
    // must return cleanly without panicking. After the clear, a fresh
    // well-formed frame parses normally.
    let mut parser = InstructionParser::new();
    let huge = "x".repeat(1_100_000);
    let out = parser.receive(&huge);
    // Over-cap input is dropped entirely (no partial instruction yield).
    assert!(out.is_empty());
    // Fresh input parses correctly — buffer is empty, no residue.
    let out2 = parser.receive("3.nop;");
    assert_eq!(out2.len(), 1);
    assert_eq!(out2[0].as_ref().unwrap().opcode, "nop");
}

#[test]
fn streaming_parser_split_at_every_boundary() {
    // Feed a well-formed frame byte-by-byte; the parser must assemble
    // correctly regardless of where chunks break.
    let full = "4.size,3.800,3.600;3.nop;";
    let mut parser = InstructionParser::new();
    let mut all = Vec::new();
    for ch in full.chars() {
        let mut buf = [0u8; 4];
        let s = ch.encode_utf8(&mut buf);
        all.extend(parser.receive(s));
    }
    assert_eq!(all.len(), 2);
    assert_eq!(all[0].as_ref().unwrap().opcode, "size");
    assert_eq!(all[1].as_ref().unwrap().opcode, "nop");
}

#[test]
fn streaming_parser_emits_error_for_malformed_frame() {
    // A malformed-but-terminated frame yields a Result::Err, not a panic.
    let mut parser = InstructionParser::new();
    let out = parser.receive("not-a-valid-instruction;3.nop;");
    assert_eq!(out.len(), 2);
    assert!(out[0].is_err());
    assert_eq!(out[1].as_ref().unwrap().opcode, "nop");
}

#[test]
fn boundary_empty_buffer() {
    assert_eq!(last_instruction_boundary(b""), None);
}

#[test]
fn boundary_complete_instruction() {
    let s = b"4.size,3.800,3.600;";
    assert_eq!(last_instruction_boundary(s), Some(s.len()));
}

#[test]
fn boundary_partial_no_terminator() {
    assert_eq!(last_instruction_boundary(b"4.size,3.80"), None);
}

#[test]
fn boundary_two_instructions_first_complete() {
    let s = b"4.size,3.800,3.600;3.foo";
    assert_eq!(last_instruction_boundary(s), Some(19));
}

#[test]
fn boundary_two_instructions_both_complete() {
    let s = b"4.size,3.800,3.600;3.nop;";
    assert_eq!(last_instruction_boundary(s), Some(s.len()));
}

#[test]
fn boundary_ignores_semicolon_inside_element_value() {
    // Clipboard text containing `;`: the embedded `;` MUST NOT be treated
    // as an instruction terminator. Length prefix 11 covers "hello;world".
    let s = b"9.clipboard,1.0,11.hello;world;";
    assert_eq!(last_instruction_boundary(s), Some(s.len()));
}

#[test]
fn boundary_partial_when_split_inside_element_data() {
    // Reader landed mid-clipboard-element: only "hello;" of the 11-char
    // value is present. The trailing `;` is data, not a terminator.
    let s = b"9.clipboard,1.0,11.hello;";
    assert_eq!(last_instruction_boundary(s), None);
}

#[test]
fn boundary_empty_opcode_ping() {
    // `0.,4.ping,13.1234567890123;` — empty opcode (length 0) is valid.
    let s = b"0.,4.ping,13.1234567890123;";
    assert_eq!(last_instruction_boundary(s), Some(s.len()));
}

#[test]
fn boundary_handles_utf8_multibyte_in_element() {
    // "café" — 4 UTF-8 chars, 5 bytes. Length prefix counts characters.
    let s = "9.clipboard,1.0,4.café;".as_bytes();
    assert_eq!(last_instruction_boundary(s), Some(s.len()));
}

#[test]
fn boundary_truncated_mid_multibyte() {
    // "9.clipboard,1.0,4.caf" + first byte of "é" only — must not advance.
    let mut s = b"9.clipboard,1.0,4.caf".to_vec();
    s.push(0xC3); // first byte of `é` (UTF-8 0xC3 0xA9)
    assert_eq!(last_instruction_boundary(&s), None);
}

#[test]
fn boundary_returns_last_complete_when_trailing_garbage() {
    // First instruction is complete; what follows is malformed. We
    // should still report the first boundary so the proxy can flush it.
    let s = b"3.nop;garbage";
    assert_eq!(last_instruction_boundary(s), Some(6));
}

#[test]
fn encoded_instructions_are_read_back() {
    // Encoded instructions read back.
    {
        let cases = [
            ("a", vec![]),
            ("connect", vec!["", "x,y", "3.nop;tail", "€uro"]),
            ("", vec!["ping", "1234567890123"]),
            ("key", vec!["- /:._", "0"]),
        ];
        for (opcode, args) in cases {
            let ins = Instruction::new(opcode, args.iter().map(|a| a.to_string()).collect());
            assert_eq!(Instruction::parse(&ins.encode()).unwrap(), ins);
        }
    }
    // Length prefix counts bytes.
    {
        assert_eq!(encode_element("café"), "5.café");
        assert_eq!(encode_element(""), "0.");
    }
    // Only the terminator is dropped.
    {
        let tricky = ["a;", ";", "a;;", "a,b;", "", "é;"];
        for opcode in tricky {
            for arg in tricky {
                let inst = Instruction::new(opcode, vec![arg.to_string()]);
                assert_eq!(Instruction::parse(&inst.encode()).unwrap(), inst);
            }
            let inst = Instruction::new(opcode, vec![]);
            assert_eq!(Instruction::parse(&inst.encode()).unwrap(), inst);
        }
        assert_eq!(Instruction::parse("2.a;;").unwrap().opcode, "a;");
        assert_eq!(Instruction::parse("3.a;b").unwrap().opcode, "a;b");
        assert!(matches!(Instruction::parse(";"), Err(ParseError::Empty)));
        assert!(Instruction::parse(";;").is_err());
    }
}

#[test]
fn fast_walk_finds_whole_buffers() {
    let s = b"4.size,3.800,3.600;3.nop;";
    assert_eq!(fast_instruction_boundary(s), Some(s.len()));
    assert_eq!(fast_instruction_boundary(b"4.size,3.80"), None);
    assert_eq!(fast_instruction_boundary(b""), None);
}

#[test]
fn parse_errors_have_messages() {
    assert_eq!(ParseError::Empty.message(), "empty instruction");
    assert_eq!(
        ParseError::MalformedElement.message(),
        "malformed element (missing '.')"
    );
    assert_eq!(ParseError::InvalidLength.message(), "invalid length prefix");
    assert_eq!(ParseError::Truncated.message(), "instruction truncated");
    assert_eq!(
        ParseError::UnexpectedChar.message(),
        "unexpected character in instruction"
    );
}

#[test]
fn framing_follows_the_lengths() {
    let mut parser = InstructionParser::new();
    let out = parser.receive("5.a;b;c;");
    assert_eq!(out.len(), 1);
    assert_eq!(out[0].as_ref().unwrap().opcode, "a;b;c");
    // The same, in every pair of chunks, with another instruction behind it.
    let text = "9.clipboard,4.x;y;,2.\u{e9};3.nop;";
    for cut in (0..=text.len()).filter(|i| text.is_char_boundary(*i)) {
        let mut parser = InstructionParser::new();
        let mut all = parser.receive(&text[..cut]);
        all.extend(parser.receive(&text[cut..]));
        assert_eq!(all.len(), 2, "cut at {cut}");
        let first = all[0].as_ref().unwrap();
        assert_eq!(first.opcode, "clipboard");
        assert_eq!(first.args, vec!["x;y;", "\u{e9}"]);
        assert_eq!(all[1].as_ref().unwrap().opcode, "nop");
    }
    // What is no element ends with the next semicolon.
    let mut parser = InstructionParser::new();
    let out = parser.receive("4.sizeX;3.nop;99999999999999999999999.x;3.nop;");
    assert_eq!(out.len(), 4);
    assert!(out[0].is_err() && out[2].is_err());
    assert_eq!(out[1].as_ref().unwrap().opcode, "nop");
    assert_eq!(out[3].as_ref().unwrap().opcode, "nop");
}

#[test]
fn a_full_buffer_is_kept_and_one_byte_more_is_dropped() {
    let open = format!("1048567.{}", "x".repeat(1_048_567));
    assert_eq!(open.len(), 1_048_575);
    // The terminator is the last byte that there is room for.
    let mut parser = InstructionParser::new();
    assert!(parser.receive(&open).is_empty());
    let out = parser.receive(";");
    assert_eq!(out.len(), 1);
    assert_eq!(out[0].as_ref().unwrap().opcode.len(), 1_048_567);
    // One byte more, and all of it is dropped, the complete instruction too.
    let mut parser = InstructionParser::new();
    assert!(parser.receive(&open).is_empty());
    assert!(parser.receive(";3.nop;").is_empty());
    let out = parser.receive("3.nop;");
    assert_eq!(out.len(), 1);
    assert!(out[0].is_ok());
}

#[test]
fn boundary_of_encoded_instructions_and_a_prefix() {
    let a = Instruction::new("key;,", vec!["1.2;".into(), "".into()]).encode();
    let b = Instruction::new("sync", vec!["12;34".into()]).encode();
    let long = Instruction::new("blob", vec!["x;".repeat(900)]).encode();
    for s in [a.clone(), format!("{a}{b}"), format!("{b}{long}")] {
        for next in [&a, &b, &long] {
            for k in 0..next.len() {
                let buffer = format!("{s}{}", &next[..k]);
                assert_eq!(last_instruction_boundary(buffer.as_bytes()), Some(s.len()));
                // What is flushed there is complete, and the rest goes on.
                assert_eq!(last_instruction_boundary(s.as_bytes()), Some(s.len()));
                if k > 0 && k % 7 == 0 {
                    let more = format!("{buffer}{}{b}", &next[k..]);
                    let rest = last_instruction_boundary(&more.as_bytes()[s.len()..]);
                    assert_eq!(
                        last_instruction_boundary(more.as_bytes()),
                        rest.map(|r| s.len() + r)
                    );
                }
            }
        }
    }
}
