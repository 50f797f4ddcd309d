use vstd::prelude::*;

use crate::encoder::{
    all_hex_digits, process_push, spec_all_hex, spec_hex_val, spec_is_hex_digit,
    spec_is_zero_literal, spec_push_ok, spec_push_opcode, spec_push_payload, EncodingError,
    DIGIT_NINE, DIGIT_ZERO, LOWER_A, UPPER_A, UPPER_F, ZERO_PUSH_OPCODE,
};
use crate::segment::{
    lemma_segment_clean, lemma_split_lines_count, segment_tokens, spec_newline_count, spec_segment,
    spec_split_lines, split_lines,
};
use crate::token::{
    spec_is_delimiter, spec_is_significant, spec_span_valid, SpecToken, SpecTokenKind, Token,
    TokenKind,
};

verus! {

/// What processing one line asks of the caller, who owns the external
/// execution state.
#[derive(PartialEq, Eq, Structural, Clone, Copy, Debug)]
pub enum LineOutcome {
    /// A macro-boundary token was hit: the bytecode buffer was reset, the
    /// caller must create a fresh execution state, and nothing executes
    /// for this line.
    MacroBoundary,
    /// The line assembled: the caller executes the entire bytecode buffer
    /// from offset zero and merges the resulting stack snapshot.
    Execute,
    /// The line holds no significant tokens: neither execution nor
    /// annotation happens for it.
    Skip,
}

/// The kind tag of a fatal per-line failure.
#[derive(PartialEq, Eq, Structural, Clone, Copy, Debug)]
pub enum ErrorKind {
    /// A push literal could not be encoded.
    Encoding(EncodingError),
    /// An opcode token did not parse as a single hexadecimal byte.
    Assembly,
    /// The external interpreter reported a runtime fault; raised by the
    /// caller driving the execution, never by the assembler itself.
    ExecutionFault,
}

/// A fatal error, tagged with the offending line index and token span.
#[derive(PartialEq, Eq, Structural, Clone, Copy, Debug)]
pub struct LineError {
    pub kind: ErrorKind,
    pub line: usize,
    pub token_start: usize,
    pub token_end: usize,
}

/// The numeric value of a big-endian string of hexadecimal digits.
pub open spec fn spec_hex_value(s: Seq<u8>) -> nat
    decreases s.len(),
{
    if s.len() == 0 {
        0
    } else {
        spec_hex_value(s.drop_last()) * 16 + spec_hex_val(s.last())
    }
}

/// An opcode token's text parses as a single byte.
pub open spec fn spec_opcode_ok(s: Seq<u8>) -> bool {
    s.len() > 0 && spec_all_hex(s) && spec_hex_value(s) < 256
}

/// The numeric value of one hexadecimal digit byte.
pub fn hex_val_byte(b: u8) -> (r: u8)
    requires
        spec_is_hex_digit(b),
    ensures
        r as nat == spec_hex_val(b),
{
    if b <= DIGIT_NINE {
        b - DIGIT_ZERO
    } else if b <= UPPER_F {
        b - UPPER_A + 10
    } else {
        b - LOWER_A + 10
    }
}

/// Parses an opcode's hexadecimal text as a single instruction byte.
pub fn parse_opcode_byte(text: &Vec<u8>) -> (r: Option<u8>)
    ensures
        r is Some <==> spec_opcode_ok(text@),
        r matches Some(b) ==> b as nat == spec_hex_value(text@),
{
    if text.len() == 0 {
        return None;
    }
    if !all_hex_digits(text) {
        return None;
    }
    let mut acc: u16 = 0;
    let mut too_big: bool = false;
    let mut i: usize = 0;
    while i < text.len()
        invariant
            0 <= i <= text@.len(),
            spec_all_hex(text@),
            !too_big ==> acc as nat == spec_hex_value(text@.take(i as int)) && acc < 256,
            too_big ==> spec_hex_value(text@.take(i as int)) > 255,
        decreases text@.len() - i,
    {
        proof {
            assert(text@.take(i + 1).drop_last() =~= text@.take(i as int));
            assert(text@.take(i + 1).last() == text@[i as int]);
        }
        let b = text[i];
        let d = hex_val_byte(b);
        if too_big {
            proof {
                assert(spec_hex_value(text@.take(i + 1)) == spec_hex_value(text@.take(i as int))
                    * 16 + spec_hex_val(text@[i as int]));
            }
        } else {
            let next: u16 = acc * 16 + d as u16;
            if next > 255 {
                too_big = true;
            } else {
                acc = next;
            }
        }
        i = i + 1;
    }
    proof {
        assert(text@.take(text@.len() as int) =~= text@);
    }
    if too_big {
        None
    } else {
        Some(acc as u8)
    }
}

/// A token assembles without failure.
pub open spec fn spec_token_ok(t: SpecToken) -> bool {
    match t.kind {
        SpecTokenKind::Opcode(s) => spec_opcode_ok(s),
        SpecTokenKind::Literal(s) => spec_push_ok(s),
        _ => true,
    }
}

/// The bytes a token appends to the bytecode buffer. Opcode tokens emit
/// their single byte; literal tokens emit the push opcode and, except for
/// the zero push, the payload; structural tokens emit nothing.
pub open spec fn spec_token_emit(t: SpecToken) -> Seq<u8> {
    match t.kind {
        SpecTokenKind::Opcode(s) => seq![spec_hex_value(s) as u8],
        SpecTokenKind::Literal(s) => if spec_is_zero_literal(s) {
            seq![ZERO_PUSH_OPCODE]
        } else {
            seq![spec_push_opcode(s)] + spec_push_payload(s)
        },
        _ => Seq::empty(),
    }
}

/// The error kind raised by a token that fails to assemble.
pub open spec fn spec_token_error_kind(t: SpecToken) -> ErrorKind {
    match t.kind {
        SpecTokenKind::Opcode(_) => ErrorKind::Assembly,
        SpecTokenKind::Literal(s) => ErrorKind::Encoding(
            if !spec_all_hex(s) {
                EncodingError::InvalidHexDigits
            } else {
                EncodingError::ExceedsMaxPushWidth
            },
        ),
        _ => ErrorKind::Assembly,
    }
}

/// The bytes a whole line appends, token by token in order.
pub open spec fn spec_line_emit(toks: Seq<SpecToken>) -> Seq<u8>
    decreases toks.len(),
{
    if toks.len() == 0 {
        Seq::empty()
    } else {
        spec_line_emit(toks.drop_last()) + spec_token_emit(toks.last())
    }
}

/// The first `j` tokens assemble cleanly: none fails and none is a
/// macro boundary.
pub open spec fn spec_clean_prefix(toks: Seq<SpecToken>, j: int) -> bool {
    forall|k: int|
        0 <= k < j ==> spec_token_ok(#[trigger] toks[k]) && !(toks[k].kind
            is MacroKeyword)
}

/// The line-incremental assembly pipeline. The token list, its line
/// groups and the source text are computed once and then read-only; the
/// bytecode buffer grows line by line and is reset at macro boundaries;
/// the output line set is the mutable annotated copy of the source.
///
/// The external stack machine is the caller's: after an `Execute`
/// outcome the caller runs the entire bytecode buffer from offset zero
/// on its interpreter and hands the observed operand stack back to the
/// annotation step.
pub struct Interpreter {
    /// The original source text; token spans index into it.
    pub huff_source: Vec<u8>,
    /// The lexed token stream, in source order.
    pub tokens: Vec<Token>,
    /// The significant tokens grouped into one entry per source line.
    pub lines: Vec<Vec<Token>>,
    /// The bytecode assembled so far within the current macro scope.
    pub bytecode: Vec<u8>,
    /// The annotated copy of the source, split by newline.
    pub huff_output: Vec<Vec<u8>>,
}

impl Interpreter {
    /// The structural invariant: line tokens are significant
    /// non-delimiters with spans inside the source, and the output line
    /// set still has one entry per physical source line.
    pub open spec fn wf(self) -> bool {
        &&& forall|i: int, j: int|
            0 <= i < self.lines.deep_view().len() && 0 <= j
                < self.lines.deep_view()[i].len() ==> {
                let t = #[trigger] self.lines.deep_view()[i][j];
                spec_is_significant(t.kind) && !spec_is_delimiter(self.huff_source@, t)
                    && spec_span_valid(t, self.huff_source@.len() as int)
            }
        &&& self.huff_output.deep_view().len() == spec_newline_count(self.huff_source@) + 1
    }

    /// Builds the pipeline state from the source text and its token
    /// stream: groups tokens into lines, copies the source into the
    /// output line set, and starts with an empty bytecode buffer.
    pub fn new(huff_source: Vec<u8>, tokens: Vec<Token>) -> (r: Self)
        requires
            forall|k: int|
                0 <= k < tokens@.len() ==> spec_span_valid(
                    #[trigger] tokens@[k]@,
                    huff_source@.len() as int,
                ),
        ensures
            r.wf(),
            r.huff_source@ == huff_source@,
            r.tokens.deep_view() == tokens.deep_view(),
            r.lines.deep_view() == spec_segment(huff_source@, tokens.deep_view()),
            r.huff_output.deep_view() == spec_split_lines(huff_source@),
            r.bytecode@ == Seq::<u8>::empty(),
    {
        let lines = segment_tokens(&huff_source, &tokens);
        let huff_output = split_lines(&huff_source);
        proof {
            lemma_segment_clean(huff_source@, tokens.deep_view(), huff_source@.len() as int);
            lemma_split_lines_count(huff_source@);
        }
        Interpreter { huff_source, tokens, lines, bytecode: Vec::new(), huff_output }
    }

    /// Resets the bytecode buffer at a macro boundary. The execution
    /// state is the caller's: a macro boundary obliges the caller to
    /// create a fresh one alongside this reset.
    pub fn setup_new_macro(&mut self)
        ensures
            final(self).bytecode@ == Seq::<u8>::empty(),
            final(self).huff_source == old(self).huff_source,
            final(self).tokens == old(self).tokens,
            final(self).lines == old(self).lines,
            final(self).huff_output == old(self).huff_output,
    {
        self.bytecode = Vec::new();
    }

    /// Assembles one line into the bytecode buffer.
    ///
    /// Opcode and literal tokens append their bytes; structural tokens
    /// (labels, builtins, numbers, identifiers) have no bytecode effect;
    /// a macro-boundary token discards the line's uncommitted bytes,
    /// resets the buffer, and ends the line at once. On a failing token
    /// nothing is committed and the error carries the line index and the
    /// offending token's span.
    pub fn process_line(&mut self, line_idx: usize) -> (r: Result<LineOutcome, LineError>)
        requires
            line_idx < old(self).lines@.len(),
        ensures
            final(self).huff_source == old(self).huff_source,
            final(self).tokens == old(self).tokens,
            final(self).lines == old(self).lines,
            final(self).huff_output == old(self).huff_output,
            ({
                let toks = old(self).lines.deep_view()[line_idx as int];
                &&& (forall|i: int|
                    0 <= i < toks.len() && spec_clean_prefix(toks, i) && (#[trigger] toks[i]).kind
                        is MacroKeyword ==> r == Ok::<LineOutcome, LineError>(
                        LineOutcome::MacroBoundary,
                    ) && final(self).bytecode@ == Seq::<u8>::empty())
                &&& (forall|i: int|
                    0 <= i < toks.len() && spec_clean_prefix(toks, i) && !((
                    #[trigger] toks[i]).kind is MacroKeyword) && !spec_token_ok(toks[i])
                        ==> r == Err::<LineOutcome, LineError>(
                        LineError {
                            kind: spec_token_error_kind(toks[i]),
                            line: line_idx,
                            token_start: toks[i].start as usize,
                            token_end: toks[i].end as usize,
                        },
                    ) && final(self).bytecode@ == old(self).bytecode@)
                &&& (spec_clean_prefix(toks, toks.len() as int) ==> final(self).bytecode@ == old(
                    self,
                ).bytecode@ + spec_line_emit(toks) && r == Ok::<LineOutcome, LineError>(
                    if toks.len() == 0 {
                        LineOutcome::Skip
                    } else {
                        LineOutcome::Execute
                    },
                ))
            }),
    {
        let ghost toks = self.lines.deep_view()[line_idx as int];
        let n = self.lines[line_idx].len();
        let mut emitted: Vec<u8> = Vec::new();
        let mut j: usize = 0;
        while j < n
            invariant
                0 <= j <= n,
                line_idx < self.lines@.len(),
                n == self.lines@[line_idx as int]@.len(),
                toks == self.lines.deep_view()[line_idx as int],
                toks.len() == n,
                *self == *old(self),
                spec_clean_prefix(toks, j as int),
                emitted@ == spec_line_emit(toks.take(j as int)),
            decreases n - j,
        {
            proof {
                assert(toks.take(j + 1).drop_last() =~~= toks.take(j as int));
                assert(toks.take(j + 1).last() == toks[j as int]);
                assert(self.lines.deep_view()[line_idx as int][j as int]
                    == self.lines@[line_idx as int]@[j as int]@);
            }
            let t = &self.lines[line_idx][j];
            let t_start = t.start;
            let t_end = t.end;
            let mut macro_hit: bool = false;
            match &t.kind {
                TokenKind::Opcode(text) => {
                    match parse_opcode_byte(text) {
                        Some(b) => {
                            emitted.push(b);
                        },
                        None => {
                            return Err(
                                LineError {
                                    kind: ErrorKind::Assembly,
                                    line: line_idx,
                                    token_start: t_start,
                                    token_end: t_end,
                                },
                            );
                        },
                    }
                },
                TokenKind::Literal(text) => {
                    match process_push(text) {
                        Ok(p) => {
                            let (op, payload) = p;
                            emitted.push(op);
                            if op != ZERO_PUSH_OPCODE {
                                let ghost mid = emitted@;
                                let mut q: usize = 0;
                                while q < payload.len()
                                    invariant
                                        0 <= q <= payload@.len(),
                                        emitted@ == mid + payload@.take(q as int),
                                    decreases payload@.len() - q,
                                {
                                    let pb = payload[q];
                                    emitted.push(pb);
                                    q = q + 1;
                                }
                                proof {
                                    assert(payload@.take(payload@.len() as int) =~= payload@);
                                }
                            }
                        },
                        Err(e) => {
                            return Err(
                                LineError {
                                    kind: ErrorKind::Encoding(e),
                                    line: line_idx,
                                    token_start: t_start,
                                    token_end: t_end,
                                },
                            );
                        },
                    }
                },
                TokenKind::MacroKeyword => {
                    macro_hit = true;
                },
                _ => {},
            }
            if macro_hit {
                self.setup_new_macro();
                return Ok(LineOutcome::MacroBoundary);
            }
            proof {
                assert(emitted@ =~= spec_line_emit(toks.take(j + 1)));
            }
            j = j + 1;
        }
        proof {
            assert(toks.take(n as int) =~~= toks);
        }
        let ghost committed = self.bytecode@;
        let mut q: usize = 0;
        while q < emitted.len()
            invariant
                0 <= q <= emitted@.len(),
                self.bytecode@ == committed + emitted@.take(q as int),
                self.huff_source == old(self).huff_source,
                self.tokens == old(self).tokens,
                self.lines == old(self).lines,
                self.huff_output == old(self).huff_output,
                committed == old(self).bytecode@,
            decreases emitted@.len() - q,
        {
            let b = emitted[q];
            self.bytecode.push(b);
            q = q + 1;
        }
        proof {
            assert(emitted@.take(emitted@.len() as int) =~= emitted@);
        }
        if n == 0 {
            Ok(LineOutcome::Skip)
        } else {
            Ok(LineOutcome::Execute)
        }
    }
}

} // verus!
