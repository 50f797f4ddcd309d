use huffr::segment::{join_lines, segment_tokens, split_lines};
use huffr::token::{Token, TokenKind};

fn src(s: &str) -> Vec<u8> {
    s.as_bytes().to_vec()
}

fn ident(start: usize, end: usize) -> Token {
    Token { kind: TokenKind::Ident, start, end }
}

fn ws(start: usize, end: usize) -> Token {
    Token { kind: TokenKind::Whitespace, start, end }
}

#[test]
fn one_line_per_delimiter() {
    // "a b\nc\nd": two newline-bearing tokens give exactly two lines;
    // the trailing unterminated "d" is dropped.
    let source = src("a b\nc\nd");
    let tokens = vec![
        ident(0, 1),
        ws(1, 2),
        ident(2, 3),
        ws(3, 4),
        ident(4, 5),
        ws(5, 6),
        ident(6, 7),
        Token { kind: TokenKind::Eof, start: 7, end: 7 },
    ];
    let lines = segment_tokens(&source, &tokens);
    assert_eq!(lines.len(), 2);
    assert_eq!(lines[0].len(), 2);
    assert_eq!((lines[0][0].start, lines[0][0].end), (0, 1));
    assert_eq!((lines[0][1].start, lines[0][1].end), (2, 3));
    assert_eq!(lines[1].len(), 1);
    assert_eq!((lines[1][0].start, lines[1][0].end), (4, 5));
}

#[test]
fn delimiters_never_inside_lines() {
    let source = src("x\ny\n");
    let tokens = vec![ident(0, 1), ws(1, 2), ident(2, 3), ws(3, 4)];
    let lines = segment_tokens(&source, &tokens);
    assert_eq!(lines.len(), 2);
    for line in &lines {
        for t in line {
            assert!(!matches!(t.kind, TokenKind::Whitespace));
            let text = &source[t.start..t.end];
            assert!(!text.contains(&b'\n'));
        }
    }
}

#[test]
fn insignificant_tokens_dropped() {
    let source = src("a  \n");
    let tokens = vec![
        ident(0, 1),
        ws(1, 3),
        Token { kind: TokenKind::Other, start: 3, end: 3 },
        ws(3, 4),
    ];
    let lines = segment_tokens(&source, &tokens);
    assert_eq!(lines.len(), 1);
    assert_eq!(lines[0].len(), 1);
}

#[test]
fn empty_line_between_delimiters() {
    let source = src("\n\n");
    let tokens = vec![ws(0, 1), ws(1, 2)];
    let lines = segment_tokens(&source, &tokens);
    assert_eq!(lines.len(), 2);
    assert!(lines[0].is_empty());
    assert!(lines[1].is_empty());
}

#[test]
fn split_keeps_one_line_per_newline_plus_one() {
    let lines = split_lines(&src("a\nbc\n"));
    assert_eq!(lines.len(), 3);
    assert_eq!(lines[0], src("a"));
    assert_eq!(lines[1], src("bc"));
    assert_eq!(lines[2], src(""));
}

#[test]
fn split_then_join_restores_text() {
    let text = src("one\ntwo\n\nthree");
    let joined = join_lines(&split_lines(&text));
    assert_eq!(joined, text);
}
