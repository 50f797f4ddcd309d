use huffr::interp::{ErrorKind, Interpreter, LineOutcome};
use huffr::encoder::EncodingError;
use huffr::token::{Token, TokenKind};

fn src(s: &str) -> Vec<u8> {
    s.as_bytes().to_vec()
}

fn literal(text: &str, start: usize, end: usize) -> Token {
    Token { kind: TokenKind::Literal(text.as_bytes().to_vec()), start, end }
}

fn opcode(text: &str, start: usize, end: usize) -> Token {
    Token { kind: TokenKind::Opcode(text.as_bytes().to_vec()), start, end }
}

fn ws(start: usize, end: usize) -> Token {
    Token { kind: TokenKind::Whitespace, start, end }
}

fn word(bytes: &[u8]) -> Vec<u8> {
    bytes.to_vec()
}

#[test]
fn literal_line_assembles_to_push() {
    // Source line "0x01" becomes the one-byte push with payload 0x01.
    let source = src("0x01\n");
    let tokens = vec![literal("01", 0, 4), ws(4, 5)];
    let mut interp = Interpreter::new(source, tokens);
    assert_eq!(interp.lines.len(), 1);
    let r = interp.process_line(0);
    assert_eq!(r, Ok(LineOutcome::Execute));
    assert_eq!(interp.bytecode, vec![0x60u8, 0x01u8]);
    // The external stack machine would now report the stack [1]; merge it.
    interp.annotate_by_substring(0, &vec![word(&[0x01])]);
    assert_eq!(interp.huff_output[0], src("0x01 // [0x01]"));
    assert_eq!(interp.render_output(), src("0x01 // [0x01]\n"));
}

#[test]
fn zero_literal_line_emits_zero_push_only() {
    // Source line "0x00" assembles to the zero push with no payload byte.
    let source = src("0x00\n");
    let tokens = vec![literal("00", 0, 4), ws(4, 5)];
    let mut interp = Interpreter::new(source, tokens);
    let r = interp.process_line(0);
    assert_eq!(r, Ok(LineOutcome::Execute));
    assert_eq!(interp.bytecode, vec![0x5fu8]);
    interp.annotate_by_substring(0, &vec![word(&[0x00])]);
    assert_eq!(interp.huff_output[0], src("0x00 // [0x00]"));
}

#[test]
fn buffer_grows_across_lines() {
    // Two literal lines and an add-style opcode line leave the whole
    // program in the buffer; the stack after the third line is [3].
    let source = src("0x01\n0x02\nadd\n");
    let tokens = vec![
        literal("01", 0, 4),
        ws(4, 5),
        literal("02", 5, 9),
        ws(9, 10),
        opcode("01", 10, 13),
        ws(13, 14),
    ];
    let mut interp = Interpreter::new(source, tokens);
    assert_eq!(interp.lines.len(), 3);
    assert_eq!(interp.process_line(0), Ok(LineOutcome::Execute));
    assert_eq!(interp.bytecode, vec![0x60u8, 0x01]);
    assert_eq!(interp.process_line(1), Ok(LineOutcome::Execute));
    assert_eq!(interp.bytecode, vec![0x60u8, 0x01, 0x60, 0x02]);
    assert_eq!(interp.process_line(2), Ok(LineOutcome::Execute));
    assert_eq!(interp.bytecode, vec![0x60u8, 0x01, 0x60, 0x02, 0x01]);
    interp.annotate_by_substring(2, &vec![word(&[0x03])]);
    assert_eq!(interp.render_output(), src("0x01\n0x02\nadd // [0x03]\n"));
}

#[test]
fn macro_boundary_resets_buffer() {
    // A macro-boundary token always leaves an empty buffer behind and
    // executes nothing for its line.
    let source = src("add\nmacro x\n");
    let tokens = vec![
        opcode("01", 0, 3),
        ws(3, 4),
        Token { kind: TokenKind::MacroKeyword, start: 4, end: 9 },
        ws(11, 12),
    ];
    let mut interp = Interpreter::new(source, tokens);
    assert_eq!(interp.process_line(0), Ok(LineOutcome::Execute));
    assert!(!interp.bytecode.is_empty());
    assert_eq!(interp.process_line(1), Ok(LineOutcome::MacroBoundary));
    assert!(interp.bytecode.is_empty());
}

#[test]
fn macro_boundary_ends_line_at_once() {
    // Tokens after the boundary are never reached, even failing ones.
    let source = src("macro zz\n");
    let tokens = vec![
        Token { kind: TokenKind::MacroKeyword, start: 0, end: 5 },
        opcode("zz", 6, 8),
        ws(8, 9),
    ];
    let mut interp = Interpreter::new(source, tokens);
    assert_eq!(interp.process_line(0), Ok(LineOutcome::MacroBoundary));
    assert!(interp.bytecode.is_empty());
}

#[test]
fn empty_line_is_skipped() {
    let source = src("\n");
    let tokens = vec![ws(0, 1)];
    let mut interp = Interpreter::new(source, tokens);
    assert_eq!(interp.process_line(0), Ok(LineOutcome::Skip));
    assert!(interp.bytecode.is_empty());
}

#[test]
fn bad_opcode_reports_assembly_error() {
    let source = src("zz\n");
    let tokens = vec![opcode("zz", 0, 2), ws(2, 3)];
    let mut interp = Interpreter::new(source, tokens);
    let r = interp.process_line(0);
    let e = r.unwrap_err();
    assert_eq!(e.kind, ErrorKind::Assembly);
    assert_eq!(e.line, 0);
    assert_eq!((e.token_start, e.token_end), (0, 2));
    assert!(interp.bytecode.is_empty());
}

#[test]
fn bad_literal_reports_encoding_error() {
    let source = src("0xzz\n");
    let tokens = vec![literal("zz", 0, 4), ws(4, 5)];
    let mut interp = Interpreter::new(source, tokens);
    let e = interp.process_line(0).unwrap_err();
    assert_eq!(e.kind, ErrorKind::Encoding(EncodingError::InvalidHexDigits));
    assert_eq!(e.line, 0);
}

#[test]
fn wide_literal_reports_width_error() {
    let text = "ff".repeat(33);
    let mut source_text = String::from("0x");
    source_text.push_str(&text);
    source_text.push('\n');
    let source = src(&source_text);
    let tokens = vec![literal(&text, 0, 68), ws(68, 69)];
    let mut interp = Interpreter::new(source, tokens);
    let e = interp.process_line(0).unwrap_err();
    assert_eq!(e.kind, ErrorKind::Encoding(EncodingError::ExceedsMaxPushWidth));
}

#[test]
fn substring_merger_annotates_every_occurrence() {
    // The substring match hits both identical lines.
    let source = src("ab\nab\n");
    let tokens = vec![
        Token { kind: TokenKind::Ident, start: 0, end: 2 },
        ws(2, 3),
        Token { kind: TokenKind::Ident, start: 3, end: 5 },
        ws(5, 6),
    ];
    let mut interp = Interpreter::new(source, tokens);
    interp.annotate_by_substring(0, &vec![word(&[0x01])]);
    assert_eq!(interp.huff_output[0], src("ab // [0x01]"));
    assert_eq!(interp.huff_output[1], src("ab // [0x01]"));
}

#[test]
fn substring_merger_duplicates_on_reinvocation() {
    // The known defect: running the substring merger twice for the same
    // line appends the comment again.
    let source = src("ab\n");
    let tokens = vec![Token { kind: TokenKind::Ident, start: 0, end: 2 }, ws(2, 3)];
    let mut interp = Interpreter::new(source, tokens);
    interp.annotate_by_substring(0, &vec![word(&[0x01])]);
    interp.annotate_by_substring(0, &vec![word(&[0x01])]);
    assert_eq!(interp.huff_output[0], src("ab // [0x01] // [0x01]"));
}

#[test]
fn index_merger_overwrites_on_reinvocation() {
    // The hardened merger matches the physical line and overwrites.
    let source = src("ab\nab\n");
    let tokens = vec![
        Token { kind: TokenKind::Ident, start: 0, end: 2 },
        ws(2, 3),
        Token { kind: TokenKind::Ident, start: 3, end: 5 },
        ws(5, 6),
    ];
    let mut interp = Interpreter::new(source, tokens);
    interp.annotate_by_index(0, &vec![word(&[0x01])]);
    assert_eq!(interp.huff_output[0], src("ab // [0x01]"));
    assert_eq!(interp.huff_output[1], src("ab"));
    interp.annotate_by_index(0, &vec![word(&[0x02])]);
    assert_eq!(interp.huff_output[0], src("ab // [0x02]"));
    assert_eq!(interp.huff_output[1], src("ab"));
}

#[test]
fn snapshot_rendering_formats() {
    // Several words, multi-byte values and the empty stack.
    let source = src("ab\n");
    let tokens = vec![Token { kind: TokenKind::Ident, start: 0, end: 2 }, ws(2, 3)];
    let mut interp = Interpreter::new(source.clone(), tokens.clone());
    interp.annotate_by_index(0, &vec![word(&[0x01]), word(&[0x1f, 0xff]), word(&[0, 0, 0x02])]);
    assert_eq!(interp.huff_output[0], src("ab // [0x01, 0x1fff, 0x02]"));

    let mut interp2 = Interpreter::new(source, tokens);
    interp2.annotate_by_index(0, &vec![]);
    assert_eq!(interp2.huff_output[0], src("ab // []"));
}

#[test]
fn output_starts_as_source_copy() {
    let source = src("one\ntwo");
    let mut interp = Interpreter::new(source.clone(), vec![ws(3, 4)]);
    assert_eq!(interp.render_output(), source);
    assert_eq!(interp.process_line(0), Ok(LineOutcome::Skip));
}
