use vstd::prelude::*;

use crate::encoder::{spec_hex_digit, spec_hex_encode, DIGIT_ZERO, LOWER_A};
use crate::interp::Interpreter;
use crate::segment::{spec_join_lines, spec_newline_count, spec_split_lines, join_lines,
    split_lines};
use crate::token::SpecToken;

verus! {

/// The ASCII space character.
pub const SPACE: u8 = 32;

/// The ASCII `'/'` character.
pub const SLASH: u8 = 47;

/// The ASCII `','` character.
pub const COMMA: u8 = 44;

/// The ASCII `'['` character.
pub const LBRACKET: u8 = 91;

/// The ASCII `']'` character.
pub const RBRACKET: u8 = 93;

/// The ASCII `'x'` character.
pub const LOWER_X: u8 = 120;

/// A stack word with its leading zero bytes removed.
pub open spec fn spec_skip_zero_bytes(w: Seq<u8>) -> Seq<u8>
    decreases w.len(),
{
    if w.len() > 0 && w[0] == 0 {
        spec_skip_zero_bytes(w.skip(1))
    } else {
        w
    }
}

/// One big-endian stack word rendered as `0x`-prefixed lowercase
/// hexadecimal text, two digits per byte after the leading zero bytes;
/// the zero word renders as `0x00`.
pub open spec fn spec_render_word(w: Seq<u8>) -> Seq<u8> {
    seq![DIGIT_ZERO, LOWER_X] + if spec_skip_zero_bytes(w).len() == 0 {
        seq![DIGIT_ZERO, DIGIT_ZERO]
    } else {
        spec_hex_encode(spec_skip_zero_bytes(w))
    }
}

/// The words of a stack snapshot rendered in order, separated by `", "`.
pub open spec fn spec_render_words(ws: Seq<Seq<u8>>) -> Seq<u8>
    decreases ws.len(),
{
    if ws.len() == 0 {
        Seq::empty()
    } else if ws.len() == 1 {
        spec_render_word(ws[0])
    } else {
        spec_render_words(ws.drop_last()) + seq![COMMA, SPACE] + spec_render_word(ws.last())
    }
}

/// A whole stack snapshot rendered inside brackets.
pub open spec fn spec_render_snapshot(ws: Seq<Seq<u8>>) -> Seq<u8> {
    seq![LBRACKET] + spec_render_words(ws) + seq![RBRACKET]
}

/// The comment appended to an output line: `" // "` plus the snapshot.
pub open spec fn spec_annotation(ws: Seq<Seq<u8>>) -> Seq<u8> {
    seq![SPACE, SLASH, SLASH, SPACE] + spec_render_snapshot(ws)
}

/// The needle occurs in `hay` starting at offset `i`.
pub open spec fn spec_match_at(hay: Seq<u8>, needle: Seq<u8>, i: int) -> bool {
    0 <= i && i + needle.len() <= hay.len() && hay.subrange(i, i + needle.len()) == needle
}

/// The needle occurs somewhere in `hay`.
pub open spec fn spec_contains_sub(hay: Seq<u8>, needle: Seq<u8>) -> bool {
    exists|i: int| spec_match_at(hay, needle, i)
}

/// The literal source text of a non-empty line: from its first token's
/// start offset to its last token's end offset.
pub open spec fn spec_line_text(src: Seq<u8>, line: Seq<SpecToken>) -> Seq<u8> {
    src.subrange(line[0].start, line.last().end)
}

/// Appends a copy of `src` to `dst`.
pub fn append_bytes(dst: &mut Vec<u8>, src: &Vec<u8>)
    ensures
        final(dst)@ == old(dst)@ + src@,
{
    let mut i: usize = 0;
    while i < src.len()
        invariant
            0 <= i <= src@.len(),
            dst@ == old(dst)@ + src@.take(i as int),
        decreases src@.len() - i,
    {
        let b = src[i];
        dst.push(b);
        i = i + 1;
    }
    proof {
        assert(src@.take(src@.len() as int) =~= src@);
        assert(dst@ =~= old(dst)@ + src@);
    }
}

/// Copies the byte range `[a, b)` of `src` into a fresh vector.
pub fn copy_range(src: &Vec<u8>, a: usize, b: usize) -> (r: Vec<u8>)
    requires
        a <= b <= src@.len(),
    ensures
        r@ == src@.subrange(a as int, b as int),
{
    let mut out: Vec<u8> = Vec::new();
    let mut i: usize = a;
    while i < b
        invariant
            a <= i <= b <= src@.len(),
            out@ == src@.subrange(a as int, i as int),
        decreases b - i,
    {
        let byte = src[i];
        out.push(byte);
        proof {
            assert(out@ =~= src@.subrange(a as int, i + 1));
        }
        i = i + 1;
    }
    out
}

/// Stripping leading zero bytes up to the first non-zero index leaves
/// the tail of the word.
proof fn lemma_skip_zero_bytes_at(w: Seq<u8>, k: int)
    requires
        0 <= k <= w.len(),
        forall|j: int| 0 <= j < k ==> w[j] == 0,
        k < w.len() ==> w[k] != 0,
    ensures
        spec_skip_zero_bytes(w) == w.skip(k),
    decreases k,
{
    if k == 0 {
        assert(w.skip(0) =~= w);
    } else {
        lemma_skip_zero_bytes_at(w.skip(1), k - 1);
        assert(w.skip(1).skip(k - 1) =~= w.skip(k));
    }
}

/// The lowercase hexadecimal digit character for a value below 16.
pub fn hex_digit_char(n: u8) -> (r: u8)
    requires
        n < 16,
    ensures
        r == spec_hex_digit(n as nat),
{
    if n < 10 {
        DIGIT_ZERO + n
    } else {
        LOWER_A + (n - 10)
    }
}

/// Renders one big-endian stack word as `0x`-prefixed hexadecimal text.
pub fn render_word(w: &Vec<u8>) -> (r: Vec<u8>)
    ensures
        r@ == spec_render_word(w@),
{
    let n = w.len();
    let mut k: usize = 0;
    while k < n && w[k] == 0
        invariant
            0 <= k <= n,
            n == w@.len(),
            forall|j: int| 0 <= j < k ==> w@[j] == 0,
        decreases n - k,
    {
        k = k + 1;
    }
    proof {
        lemma_skip_zero_bytes_at(w@, k as int);
    }
    let mut out: Vec<u8> = Vec::new();
    out.push(DIGIT_ZERO);
    out.push(LOWER_X);
    if k == n {
        out.push(DIGIT_ZERO);
        out.push(DIGIT_ZERO);
        proof {
            assert(out@ =~= spec_render_word(w@));
        }
        return out;
    }
    let mut i: usize = k;
    while i < n
        invariant
            k <= i <= n,
            n == w@.len(),
            out@ == seq![DIGIT_ZERO, LOWER_X] + spec_hex_encode(w@.subrange(k as int, i as int)),
        decreases n - i,
    {
        proof {
            assert(w@.subrange(k as int, i + 1).drop_last() =~= w@.subrange(k as int, i as int));
            assert(w@.subrange(k as int, i + 1).last() == w@[i as int]);
        }
        let b = w[i];
        let hi = hex_digit_char(b / 16);
        let lo = hex_digit_char(b % 16);
        out.push(hi);
        out.push(lo);
        proof {
            assert(out@ =~= seq![DIGIT_ZERO, LOWER_X] + spec_hex_encode(
                w@.subrange(k as int, i + 1),
            ));
        }
        i = i + 1;
    }
    proof {
        assert(w@.subrange(k as int, n as int) =~= w@.skip(k as int));
        assert(out@ =~= spec_render_word(w@));
    }
    out
}

/// Builds the `" // [..]"` comment text for a stack snapshot.
pub fn annotation_bytes(words: &Vec<Vec<u8>>) -> (r: Vec<u8>)
    ensures
        r@ == spec_annotation(words.deep_view()),
{
    let ghost dv = words.deep_view();
    let mut out: Vec<u8> = Vec::new();
    out.push(SPACE);
    out.push(SLASH);
    out.push(SLASH);
    out.push(SPACE);
    out.push(LBRACKET);
    let mut i: usize = 0;
    while i < words.len()
        invariant
            0 <= i <= words@.len(),
            dv == words.deep_view(),
            dv.len() == words@.len(),
            out@ == seq![SPACE, SLASH, SLASH, SPACE, LBRACKET] + spec_render_words(
                dv.take(i as int),
            ),
        decreases words@.len() - i,
    {
        proof {
            assert(dv.take(i + 1).drop_last() =~~= dv.take(i as int));
            assert(dv.take(i + 1).last() == dv[i as int]);
            assert(dv[i as int] == words@[i as int]@);
        }
        if i > 0 {
            out.push(COMMA);
            out.push(SPACE);
        }
        let rendered = render_word(&words[i]);
        append_bytes(&mut out, &rendered);
        proof {
            assert(out@ =~= seq![SPACE, SLASH, SLASH, SPACE, LBRACKET] + spec_render_words(
                dv.take(i + 1),
            ));
        }
        i = i + 1;
    }
    proof {
        assert(dv.take(words@.len() as int) =~~= dv);
    }
    out.push(RBRACKET);
    proof {
        assert(out@ =~= spec_annotation(dv));
    }
    out
}

/// Naive substring search: whether `needle` occurs anywhere in `hay`.
pub fn contains_sub(hay: &Vec<u8>, needle: &Vec<u8>) -> (r: bool)
    ensures
        r == spec_contains_sub(hay@, needle@),
{
    if needle.len() > hay.len() {
        return false;
    }
    if needle.len() == 0 {
        proof {
            assert(hay@.subrange(0, 0) =~= needle@);
            assert(spec_match_at(hay@, needle@, 0));
        }
        return true;
    }
    let bound = hay.len() - needle.len();
    let mut i: usize = 0;
    while i <= bound
        invariant
            1 <= needle@.len() <= hay@.len(),
            hay@.len() <= usize::MAX,
            bound == hay@.len() - needle@.len(),
            0 <= i <= bound + 1,
            forall|p: int| 0 <= p < i ==> !spec_match_at(hay@, needle@, p),
        decreases bound + 1 - i,
    {
        let mut j: usize = 0;
        while j < needle.len() && hay[i + j] == needle[j]
            invariant
                needle@.len() <= hay@.len(),
                hay@.len() <= usize::MAX,
                0 <= i <= hay@.len() - needle@.len(),
                0 <= j <= needle@.len(),
                forall|q: int| 0 <= q < j ==> hay@[i + q] == needle@[q],
            decreases needle@.len() - j,
        {
            j = j + 1;
        }
        if j == needle.len() {
            proof {
                assert(hay@.subrange(i as int, i + needle@.len()) =~= needle@);
                assert(spec_match_at(hay@, needle@, i as int));
            }
            return true;
        }
        i = i + 1;
    }
    proof {
        assert forall|p: int| spec_match_at(hay@, needle@, p) implies false by {
            assert(0 <= p <= hay@.len() - needle@.len());
        }
    }
    false
}

/// Every prefix of a text holds at least zero and at most all of its
/// newlines.
pub proof fn lemma_newline_count_prefix(s: Seq<u8>, k: int)
    requires
        0 <= k <= s.len(),
    ensures
        0 <= spec_newline_count(s.take(k)),
        spec_newline_count(s.take(k)) <= spec_newline_count(s),
    decreases s.len(),
{
    if k == s.len() {
        assert(s.take(k) =~= s);
        lemma_newline_count_nonneg(s);
    } else {
        assert(s.take(k) =~= s.drop_last().take(k));
        lemma_newline_count_prefix(s.drop_last(), k);
    }
}

/// A newline count is never negative.
proof fn lemma_newline_count_nonneg(s: Seq<u8>)
    ensures
        0 <= spec_newline_count(s),
    decreases s.len(),
{
    if s.len() > 0 {
        lemma_newline_count_nonneg(s.drop_last());
    }
}

impl Interpreter {
    /// The substring-matching annotation merger: appends the snapshot
    /// comment to every output line that contains the processed line's
    /// literal source text as a substring. Duplicate line text is
    /// annotated at every occurrence, and repeating the call for the
    /// same line appends the comment again: the caller must invoke it
    /// at most once per line per run.
    pub fn annotate_by_substring(&mut self, line_idx: usize, snapshot: &Vec<Vec<u8>>)
        requires
            old(self).wf(),
            line_idx < old(self).lines@.len(),
            old(self).lines.deep_view()[line_idx as int].len() > 0,
            ({
                let line = old(self).lines.deep_view()[line_idx as int];
                line[0].start <= line.last().end
            }),
        ensures
            final(self).wf(),
            final(self).huff_source == old(self).huff_source,
            final(self).tokens == old(self).tokens,
            final(self).lines == old(self).lines,
            final(self).bytecode == old(self).bytecode,
            final(self).huff_output.deep_view().len() == old(self).huff_output.deep_view().len(),
            ({
                let needle = spec_line_text(
                    old(self).huff_source@,
                    old(self).lines.deep_view()[line_idx as int],
                );
                let ann = spec_annotation(snapshot.deep_view());
                forall|k: int|
                    0 <= k < old(self).huff_output.deep_view().len() ==> final(
                        self
                    ).huff_output.deep_view()[k] == if spec_contains_sub(
                        old(self).huff_output.deep_view()[k],
                        needle,
                    ) {
                        old(self).huff_output.deep_view()[k] + ann
                    } else {
                        old(self).huff_output.deep_view()[k]
                    }
            }),
    {
        let ghost odv = self.huff_output.deep_view();
        let ghost dvline = old(self).lines.deep_view()[line_idx as int];
        let line = &self.lines[line_idx];
        let first_start = line[0].start;
        let last_end = line[line.len() - 1].end;
        proof {
            assert(dvline[0] == self.lines@[line_idx as int]@[0]@);
            assert(dvline.last() == self.lines@[line_idx as int]@[self.lines@[line_idx
                as int]@.len() - 1]@);
            assert(first_start as int == dvline[0].start);
            assert(last_end as int == dvline.last().end);
        }
        let src_len = self.huff_source.len();
        assert(last_end <= src_len);
        let needle = copy_range(&self.huff_source, first_start, last_end);
        let ann = annotation_bytes(snapshot);
        let n = self.huff_output.len();
        let mut i: usize = 0;
        while i < n
            invariant
                0 <= i <= n,
                n == self.huff_output@.len(),
                self.huff_output.deep_view().len() == odv.len(),
                odv.len() == n,
                self.huff_source == old(self).huff_source,
                self.tokens == old(self).tokens,
                self.lines == old(self).lines,
                self.bytecode == old(self).bytecode,
                odv == old(self).huff_output.deep_view(),
                needle@ == spec_line_text(
                    old(self).huff_source@,
                    old(self).lines.deep_view()[line_idx as int],
                ),
                ann@ == spec_annotation(snapshot.deep_view()),
                forall|k: int| i <= k < n ==> self.huff_output.deep_view()[k] == odv[k],
                forall|k: int|
                    0 <= k < i ==> self.huff_output.deep_view()[k] == if spec_contains_sub(
                        odv[k],
                        needle@,
                    ) {
                        odv[k] + ann@
                    } else {
                        odv[k]
                    },
            decreases n - i,
        {
            let ghost pre = self.huff_output.deep_view();
            let hit = contains_sub(&self.huff_output[i], &needle);
            proof {
                assert(self.huff_output@[i as int]@ == odv[i as int]);
            }
            if hit {
                let mut updated = copy_range(&self.huff_output[i], 0, self.huff_output[i].len());
                proof {
                    assert(updated@ =~= odv[i as int]);
                }
                append_bytes(&mut updated, &ann);
                self.huff_output.set(i, updated);
                proof {
                    assert(self.huff_output.deep_view() =~~= pre.update(
                        i as int,
                        odv[i as int] + ann@,
                    ));
                }
            }
            i = i + 1;
        }
        proof {
            lemma_split_unchanged_len(*old(self), *self);
        }
    }

    /// The hardened annotation merger: matches by physical line index,
    /// derived from the first token's source offset, and overwrites the
    /// line with its pristine source text plus the comment, so that
    /// repeating the call for the same line replaces rather than
    /// duplicates the annotation.
    pub fn annotate_by_index(&mut self, line_idx: usize, snapshot: &Vec<Vec<u8>>)
        requires
            old(self).wf(),
            line_idx < old(self).lines@.len(),
            old(self).lines.deep_view()[line_idx as int].len() > 0,
        ensures
            final(self).wf(),
            final(self).huff_source == old(self).huff_source,
            final(self).tokens == old(self).tokens,
            final(self).lines == old(self).lines,
            final(self).bytecode == old(self).bytecode,
            ({
                let src = old(self).huff_source@;
                let phys = spec_newline_count(
                    src.take(old(self).lines.deep_view()[line_idx as int][0].start),
                );
                let ann = spec_annotation(snapshot.deep_view());
                &&& 0 <= phys < old(self).huff_output.deep_view().len()
                &&& final(self).huff_output.deep_view() == old(self).huff_output.deep_view().update(
                    phys,
                    spec_split_lines(src)[phys] + ann,
                )
            }),
    {
        let ghost odv = self.huff_output.deep_view();
        let line = &self.lines[line_idx];
        let first_start = line[0].start;
        proof {
            assert(self.lines.deep_view()[line_idx as int][0] == self.lines@[line_idx as int]@[0]@);
            lemma_newline_count_prefix(self.huff_source@, first_start as int);
        }
        let mut count: usize = 0;
        let mut i: usize = 0;
        while i < first_start
            invariant
                0 <= i <= first_start,
                first_start <= self.huff_source@.len(),
                count <= i,
                count as int == spec_newline_count(self.huff_source@.take(i as int)),
            decreases first_start - i,
        {
            proof {
                assert(self.huff_source@.take(i + 1).drop_last() =~= self.huff_source@.take(
                    i as int,
                ));
            }
            let b = self.huff_source[i];
            if b == crate::token::NEWLINE_BYTE {
                count = count + 1;
            }
            i = i + 1;
        }
        let phys = count;
        let ann = annotation_bytes(snapshot);
        let fresh = split_lines(&self.huff_source);
        proof {
            assert(fresh.deep_view().len() == spec_newline_count(self.huff_source@) + 1) by {
                crate::segment::lemma_split_lines_count(self.huff_source@);
            }
        }
        let mut updated = copy_range(&fresh[phys], 0, fresh[phys].len());
        proof {
            assert(updated@ =~= spec_split_lines(self.huff_source@)[phys as int]);
        }
        append_bytes(&mut updated, &ann);
        self.huff_output.set(phys, updated);
        proof {
            assert(self.huff_output.deep_view() =~~= odv.update(
                phys as int,
                spec_split_lines(self.huff_source@)[phys as int] + ann@,
            ));
        }
    }

    /// The primary artifact: the annotated source reconstituted as one
    /// text, the output lines joined by newlines.
    pub fn render_output(&self) -> (r: Vec<u8>)
        ensures
            r@ == spec_join_lines(self.huff_output.deep_view()),
    {
        join_lines(&self.huff_output)
    }
}

/// Helper fact: an element-wise unchanged or appended output line set
/// keeps its length, so the structural invariant survives annotation.
proof fn lemma_split_unchanged_len(a: Interpreter, b: Interpreter)
    requires
        a.wf(),
        b.huff_source@ == a.huff_source@,
        b.lines == a.lines,
        b.huff_output.deep_view().len() == a.huff_output.deep_view().len(),
    ensures
        b.wf(),
{
    assert(b.lines.deep_view() =~~= a.lines.deep_view());
}

} // verus!
