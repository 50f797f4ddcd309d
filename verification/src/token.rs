use vstd::prelude::*;

verus! {

/// The ASCII newline character, which marks a line boundary.
pub const NEWLINE_BYTE: u8 = 10;

/// The semantic kind of a lexed token. Opcode and literal tokens carry
/// their textual value as hexadecimal digit text (bytes of ASCII digits),
/// as handed over by the lexer; the other kinds carry no value that this
/// pipeline reads.
pub enum TokenKind {
    /// An opcode, as the hexadecimal text of its single instruction byte.
    Opcode(Vec<u8>),
    Label,
    BuiltinFunction,
    /// A numeric literal, as hexadecimal digit text without a prefix.
    Literal(Vec<u8>),
    Num,
    Ident,
    MacroKeyword,
    Whitespace,
    Eof,
    Other,
}

/// A token: a kind plus the byte-offset span `[start, end)` of its text
/// in the original source.
pub struct Token {
    pub kind: TokenKind,
    pub start: usize,
    pub end: usize,
}

/// Mathematical model of a token kind.
pub ghost enum SpecTokenKind {
    Opcode(Seq<u8>),
    Label,
    BuiltinFunction,
    Literal(Seq<u8>),
    Num,
    Ident,
    MacroKeyword,
    Whitespace,
    Eof,
    Other,
}

/// Mathematical model of a token.
pub ghost struct SpecToken {
    pub kind: SpecTokenKind,
    pub start: int,
    pub end: int,
}

pub open spec fn kind_view(k: &TokenKind) -> SpecTokenKind {
    match k {
        TokenKind::Opcode(s) => SpecTokenKind::Opcode(s@),
        TokenKind::Label => SpecTokenKind::Label,
        TokenKind::BuiltinFunction => SpecTokenKind::BuiltinFunction,
        TokenKind::Literal(s) => SpecTokenKind::Literal(s@),
        TokenKind::Num => SpecTokenKind::Num,
        TokenKind::Ident => SpecTokenKind::Ident,
        TokenKind::MacroKeyword => SpecTokenKind::MacroKeyword,
        TokenKind::Whitespace => SpecTokenKind::Whitespace,
        TokenKind::Eof => SpecTokenKind::Eof,
        TokenKind::Other => SpecTokenKind::Other,
    }
}

impl View for Token {
    type V = SpecToken;

    open spec fn view(&self) -> SpecToken {
        SpecToken { kind: kind_view(&self.kind), start: self.start as int, end: self.end as int }
    }
}

impl DeepView for Token {
    type V = SpecToken;

    open spec fn deep_view(&self) -> SpecToken {
        self@
    }
}

impl Clone for Token {
    fn clone(&self) -> (r: Self)
        ensures
            r@ == self@,
    {
        let kind = match &self.kind {
            TokenKind::Opcode(s) => TokenKind::Opcode(s.clone()),
            TokenKind::Label => TokenKind::Label,
            TokenKind::BuiltinFunction => TokenKind::BuiltinFunction,
            TokenKind::Literal(s) => TokenKind::Literal(s.clone()),
            TokenKind::Num => TokenKind::Num,
            TokenKind::Ident => TokenKind::Ident,
            TokenKind::MacroKeyword => TokenKind::MacroKeyword,
            TokenKind::Whitespace => TokenKind::Whitespace,
            TokenKind::Eof => TokenKind::Eof,
            TokenKind::Other => TokenKind::Other,
        };
        Token { kind, start: self.start, end: self.end }
    }
}

/// The token kinds that are semantically significant for assembly; the
/// rest are dropped by the line segmenter.
pub open spec fn spec_is_significant(k: SpecTokenKind) -> bool {
    match k {
        SpecTokenKind::Opcode(_) => true,
        SpecTokenKind::Label => true,
        SpecTokenKind::BuiltinFunction => true,
        SpecTokenKind::Literal(_) => true,
        SpecTokenKind::Num => true,
        SpecTokenKind::Ident => true,
        SpecTokenKind::MacroKeyword => true,
        _ => false,
    }
}

/// A token's span lies inside a source text of length `n`.
pub open spec fn spec_span_valid(t: SpecToken, n: int) -> bool {
    0 <= t.start <= t.end <= n
}

/// A token delimits a line when its underlying source text holds a
/// newline character.
pub open spec fn spec_is_delimiter(src: Seq<u8>, t: SpecToken) -> bool {
    exists|i: int| t.start <= i < t.end && src[i] == NEWLINE_BYTE
}

impl Token {
    pub fn is_significant(&self) -> (r: bool)
        ensures
            r == spec_is_significant(self@.kind),
    {
        match &self.kind {
            TokenKind::Opcode(_) => true,
            TokenKind::Label => true,
            TokenKind::BuiltinFunction => true,
            TokenKind::Literal(_) => true,
            TokenKind::Num => true,
            TokenKind::Ident => true,
            TokenKind::MacroKeyword => true,
            _ => false,
        }
    }

    /// Whether this token's source text contains a newline.
    pub fn is_delimiter(&self, src: &Vec<u8>) -> (r: bool)
        requires
            spec_span_valid(self@, src@.len() as int),
        ensures
            r == spec_is_delimiter(src@, self@),
    {
        let mut i: usize = self.start;
        while i < self.end
            invariant
                self.start <= i <= self.end,
                spec_span_valid(self@, src@.len() as int),
                forall|j: int| self.start <= j < i ==> src@[j] != NEWLINE_BYTE,
            decreases self.end - i,
        {
            if src[i] == NEWLINE_BYTE {
                return true;
            }
            i = i + 1;
        }
        false
    }
}

} // verus!
