use vstd::prelude::*;

use crate::token::{
    spec_is_delimiter, spec_is_significant, spec_span_valid, SpecToken, Token, NEWLINE_BYTE,
};

verus! {

/// The line accumulator still open after consuming `toks`: the
/// significant tokens seen since the last delimiter token.
pub open spec fn spec_segment_acc(src: Seq<u8>, toks: Seq<SpecToken>) -> Seq<SpecToken>
    decreases toks.len(),
{
    if toks.len() == 0 {
        Seq::empty()
    } else {
        let t = toks.last();
        let rest = toks.drop_last();
        if spec_is_delimiter(src, t) {
            Seq::empty()
        } else if spec_is_significant(t.kind) {
            spec_segment_acc(src, rest).push(t)
        } else {
            spec_segment_acc(src, rest)
        }
    }
}

/// The lines closed after consuming `toks`: each delimiter token pushes
/// the accumulator (possibly empty) and is itself discarded.
pub open spec fn spec_segment(src: Seq<u8>, toks: Seq<SpecToken>) -> Seq<Seq<SpecToken>>
    decreases toks.len(),
{
    if toks.len() == 0 {
        Seq::empty()
    } else {
        let t = toks.last();
        let rest = toks.drop_last();
        if spec_is_delimiter(src, t) {
            spec_segment(src, rest).push(spec_segment_acc(src, rest))
        } else {
            spec_segment(src, rest)
        }
    }
}

/// The number of newline-bearing delimiter tokens in `toks`.
pub open spec fn spec_delimiter_count(src: Seq<u8>, toks: Seq<SpecToken>) -> int
    decreases toks.len(),
{
    if toks.len() == 0 {
        0
    } else {
        spec_delimiter_count(src, toks.drop_last()) + if spec_is_delimiter(src, toks.last()) {
            1int
        } else {
            0int
        }
    }
}

/// The segmenter emits exactly one line per delimiter token: content
/// before the final delimiter is kept, content after it is dropped.
pub proof fn lemma_segment_count(src: Seq<u8>, toks: Seq<SpecToken>)
    ensures
        spec_segment(src, toks).len() == spec_delimiter_count(src, toks),
    decreases toks.len(),
{
    if toks.len() > 0 {
        lemma_segment_count(src, toks.drop_last());
    }
}

/// Every token inside an emitted line is semantically significant, is
/// not a delimiter, and keeps a span valid for the source it came from.
pub proof fn lemma_segment_clean(src: Seq<u8>, toks: Seq<SpecToken>, n: int)
    requires
        forall|k: int| 0 <= k < toks.len() ==> spec_span_valid(#[trigger] toks[k], n),
    ensures
        forall|j: int|
            0 <= j < spec_segment_acc(src, toks).len() ==> {
                let t = #[trigger] spec_segment_acc(src, toks)[j];
                spec_is_significant(t.kind) && !spec_is_delimiter(src, t) && spec_span_valid(t, n)
            },
        forall|i: int, j: int|
            0 <= i < spec_segment(src, toks).len() && 0 <= j < spec_segment(src, toks)[i].len()
                ==> {
                let t = #[trigger] spec_segment(src, toks)[i][j];
                spec_is_significant(t.kind) && !spec_is_delimiter(src, t) && spec_span_valid(t, n)
            },
    decreases toks.len(),
{
    if toks.len() > 0 {
        let rest = toks.drop_last();
        assert(forall|k: int| 0 <= k < rest.len() ==> spec_span_valid(#[trigger] rest[k], n));
        lemma_segment_clean(src, rest, n);
    }
}

/// Content after the final delimiter is excluded: a trailing
/// non-delimiter token changes no emitted line.
pub proof fn lemma_trailing_token_excluded(src: Seq<u8>, toks: Seq<SpecToken>, t: SpecToken)
    requires
        !spec_is_delimiter(src, t),
    ensures
        spec_segment(src, toks.push(t)) == spec_segment(src, toks),
{
    assert(toks.push(t).last() == t);
    assert(toks.push(t).drop_last() =~~= toks);
}

/// Groups the significant tokens into ordered lines, one per delimiter
/// token; delimiter tokens close a line and are discarded, insignificant
/// tokens are dropped, and a trailing unterminated accumulator is not
/// emitted.
pub fn segment_tokens(src: &Vec<u8>, tokens: &Vec<Token>) -> (r: Vec<Vec<Token>>)
    requires
        forall|k: int|
            0 <= k < tokens@.len() ==> spec_span_valid(#[trigger] tokens@[k]@, src@.len() as int),
    ensures
        r.deep_view() == spec_segment(src@, tokens.deep_view()),
{
    let ghost dv = tokens.deep_view();
    let mut lines: Vec<Vec<Token>> = Vec::new();
    let mut line: Vec<Token> = Vec::new();
    let mut j: usize = 0;
    while j < tokens.len()
        invariant
            0 <= j <= tokens@.len(),
            dv == tokens.deep_view(),
            dv.len() == tokens@.len(),
            forall|k: int|
                0 <= k < tokens@.len() ==> spec_span_valid(
                    #[trigger] tokens@[k]@,
                    src@.len() as int,
                ),
            lines.deep_view() == spec_segment(src@, dv.take(j as int)),
            line.deep_view() == spec_segment_acc(src@, dv.take(j as int)),
        decreases tokens@.len() - j,
    {
        proof {
            assert(dv[j as int] == tokens@[j as int]@);
            assert(dv.take(j + 1).drop_last() =~~= dv.take(j as int));
            assert(dv.take(j + 1).last() == dv[j as int]);
        }
        let t = &tokens[j];
        if t.is_delimiter(src) {
            let ghost old_lines = lines.deep_view();
            let ghost old_line = line.deep_view();
            lines.push(line);
            line = Vec::new();
            proof {
                assert(lines.deep_view() =~~= old_lines.push(old_line));
                assert(line.deep_view() =~~= Seq::<SpecToken>::empty());
            }
        } else if t.is_significant() {
            let ghost old_line = line.deep_view();
            line.push(t.clone());
            proof {
                assert(line.deep_view() =~~= old_line.push(dv[j as int]));
            }
        }
        j = j + 1;
    }
    proof {
        assert(dv.take(tokens@.len() as int) =~~= dv);
    }
    lines
}

/// The output line still open after consuming `s`: the bytes seen since
/// the last newline.
pub open spec fn spec_split_acc(s: Seq<u8>) -> Seq<u8>
    decreases s.len(),
{
    if s.len() == 0 {
        Seq::empty()
    } else if s.last() == NEWLINE_BYTE {
        Seq::empty()
    } else {
        spec_split_acc(s.drop_last()).push(s.last())
    }
}

/// The output lines closed by a newline while consuming `s`.
pub open spec fn spec_split_closed(s: Seq<u8>) -> Seq<Seq<u8>>
    decreases s.len(),
{
    if s.len() == 0 {
        Seq::empty()
    } else if s.last() == NEWLINE_BYTE {
        spec_split_closed(s.drop_last()).push(spec_split_acc(s.drop_last()))
    } else {
        spec_split_closed(s.drop_last())
    }
}

/// The source text split into lines by newline, the newlines themselves
/// discarded; with `k` newlines this yields `k + 1` lines.
pub open spec fn spec_split_lines(s: Seq<u8>) -> Seq<Seq<u8>> {
    spec_split_closed(s).push(spec_split_acc(s))
}

/// The number of newline characters in `s`.
pub open spec fn spec_newline_count(s: Seq<u8>) -> int
    decreases s.len(),
{
    if s.len() == 0 {
        0
    } else {
        spec_newline_count(s.drop_last()) + if s.last() == NEWLINE_BYTE {
            1int
        } else {
            0int
        }
    }
}

/// Splitting yields one line more than there are newlines.
pub proof fn lemma_split_lines_count(s: Seq<u8>)
    ensures
        spec_split_lines(s).len() == spec_newline_count(s) + 1,
    decreases s.len(),
{
    if s.len() > 0 {
        lemma_split_lines_count(s.drop_last());
    }
}

/// Splits the source text into its physical lines.
pub fn split_lines(src: &Vec<u8>) -> (r: Vec<Vec<u8>>)
    ensures
        r.deep_view() == spec_split_lines(src@),
{
    let mut closed: Vec<Vec<u8>> = Vec::new();
    let mut cur: Vec<u8> = Vec::new();
    let mut i: usize = 0;
    while i < src.len()
        invariant
            0 <= i <= src@.len(),
            closed.deep_view() == spec_split_closed(src@.take(i as int)),
            cur@ == spec_split_acc(src@.take(i as int)),
        decreases src@.len() - i,
    {
        proof {
            assert(src@.take(i + 1).drop_last() =~= src@.take(i as int));
            assert(src@.take(i + 1).last() == src@[i as int]);
        }
        let b = src[i];
        if b == NEWLINE_BYTE {
            let ghost old_closed = closed.deep_view();
            let ghost old_cur = cur@;
            closed.push(cur);
            cur = Vec::new();
            proof {
                assert(closed.deep_view() =~~= old_closed.push(old_cur));
                assert(cur@ =~= Seq::<u8>::empty());
            }
        } else {
            cur.push(b);
        }
        i = i + 1;
    }
    proof {
        assert(src@.take(src@.len() as int) =~= src@);
    }
    let ghost final_closed = closed.deep_view();
    let ghost final_cur = cur@;
    closed.push(cur);
    proof {
        assert(closed.deep_view() =~~= final_closed.push(final_cur));
    }
    closed
}

/// The lines joined back into one text with a newline between each pair.
pub open spec fn spec_join_lines(lines: Seq<Seq<u8>>) -> Seq<u8>
    decreases lines.len(),
{
    if lines.len() == 0 {
        Seq::empty()
    } else if lines.len() == 1 {
        lines[0]
    } else {
        spec_join_lines(lines.drop_last()) + seq![NEWLINE_BYTE] + lines.last()
    }
}

/// Joins lines with newlines: the reconstituted annotated source text.
pub fn join_lines(lines: &Vec<Vec<u8>>) -> (r: Vec<u8>)
    ensures
        r@ == spec_join_lines(lines.deep_view()),
{
    let ghost dv = lines.deep_view();
    let mut out: Vec<u8> = Vec::new();
    let mut i: usize = 0;
    while i < lines.len()
        invariant
            0 <= i <= lines@.len(),
            dv == lines.deep_view(),
            dv.len() == lines@.len(),
            out@ == spec_join_lines(dv.take(i as int)),
        decreases lines@.len() - i,
    {
        proof {
            assert(dv.take(i + 1).drop_last() =~~= dv.take(i as int));
            assert(dv.take(i + 1).last() == dv[i as int]);
            assert(dv[i as int] == lines@[i as int]@);
        }
        if i > 0 {
            out.push(NEWLINE_BYTE);
        }
        let mut k: usize = 0;
        let ghost base = out@;
        while k < lines[i].len()
            invariant
                0 <= i < lines@.len(),
                0 <= k <= lines@[i as int]@.len(),
                out@ == base + lines@[i as int]@.take(k as int),
            decreases lines@[i as int]@.len() - k,
        {
            let b = lines[i][k];
            out.push(b);
            k = k + 1;
        }
        proof {
            assert(lines@[i as int]@.take(lines@[i as int]@.len() as int) =~= lines@[i as int]@);
            assert(out@ =~= spec_join_lines(dv.take(i + 1)));
        }
        i = i + 1;
    }
    proof {
        assert(dv.take(lines@.len() as int) =~~= dv);
    }
    out
}

} // verus!
