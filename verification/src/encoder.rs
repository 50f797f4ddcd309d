use vstd::prelude::*;

verus! {

/// Failure of the push-literal encoder.
#[derive(PartialEq, Eq, Structural, Clone, Copy, Debug)]
pub enum EncodingError {
    /// The literal text holds a character that is not a hexadecimal digit.
    InvalidHexDigits,
    /// The literal needs more than the maximum push width of 32 bytes.
    ExceedsMaxPushWidth,
}

/// The ASCII character `'0'`.
pub const DIGIT_ZERO: u8 = 48;

/// The ASCII character `'9'`.
pub const DIGIT_NINE: u8 = 57;

/// The ASCII character `'a'`.
pub const LOWER_A: u8 = 97;

/// The ASCII character `'f'`.
pub const LOWER_F: u8 = 102;

/// The ASCII character `'A'`.
pub const UPPER_A: u8 = 65;

/// The ASCII character `'F'`.
pub const UPPER_F: u8 = 70;

pub open spec fn spec_is_hex_digit(b: u8) -> bool {
    (DIGIT_ZERO <= b <= DIGIT_NINE) || (LOWER_A <= b <= LOWER_F) || (UPPER_A <= b <= UPPER_F)
}

/// The numeric value of one hexadecimal digit.
pub open spec fn spec_hex_val(b: u8) -> nat {
    if DIGIT_ZERO <= b <= DIGIT_NINE {
        (b - DIGIT_ZERO) as nat
    } else if LOWER_A <= b <= LOWER_F {
        (b - LOWER_A + 10) as nat
    } else if UPPER_A <= b <= UPPER_F {
        (b - UPPER_A + 10) as nat
    } else {
        0
    }
}

pub open spec fn spec_all_hex(s: Seq<u8>) -> bool {
    forall|i: int| 0 <= i < s.len() ==> spec_is_hex_digit(#[trigger] s[i])
}

/// The bytes encoded by an even-length string of hexadecimal digits:
/// each digit pair becomes one byte, high digit first.
pub open spec fn spec_hex_decode(s: Seq<u8>) -> Seq<u8>
    decreases s.len(),
{
    if s.len() < 2 {
        Seq::empty()
    } else {
        spec_hex_decode(s.take(s.len() - 2)) + seq![
            (spec_hex_val(s[s.len() - 2]) * 16 + spec_hex_val(s[s.len() - 1])) as u8,
        ]
    }
}

/// The lowercase hexadecimal digit for a value below 16.
pub open spec fn spec_hex_digit(n: nat) -> u8 {
    if n < 10 {
        (DIGIT_ZERO + n) as u8
    } else {
        (LOWER_A + (n - 10)) as u8
    }
}

/// The lowercase hexadecimal digit text of a byte sequence: two digits
/// for each byte.
pub open spec fn spec_hex_encode(b: Seq<u8>) -> Seq<u8>
    decreases b.len(),
{
    if b.len() == 0 {
        Seq::empty()
    } else {
        spec_hex_encode(b.drop_last()) + seq![
            spec_hex_digit((b.last() / 16) as nat),
            spec_hex_digit((b.last() % 16) as nat),
        ]
    }
}

/// The digit text with its leading `'0'` characters removed.
pub open spec fn spec_skip_zeros(s: Seq<u8>) -> Seq<u8>
    decreases s.len(),
{
    if s.len() > 0 && s[0] == DIGIT_ZERO {
        spec_skip_zeros(s.skip(1))
    } else {
        s
    }
}

/// The literal denotes the value zero: stripping leaves nothing.
pub open spec fn spec_is_zero_literal(s: Seq<u8>) -> bool {
    spec_skip_zeros(s).len() == 0
}

/// The stripped digit text, with an empty result replaced by the single
/// digit `"0"`.
pub open spec fn spec_effective(s: Seq<u8>) -> Seq<u8> {
    if spec_is_zero_literal(s) {
        seq![DIGIT_ZERO]
    } else {
        spec_skip_zeros(s)
    }
}

/// Left-pad with one `'0'` if the digit count is odd, so whole bytes can
/// be decoded.
pub open spec fn spec_pad_even(s: Seq<u8>) -> Seq<u8> {
    if s.len() % 2 == 1 {
        seq![DIGIT_ZERO] + s
    } else {
        s
    }
}

/// The payload width in bytes of a non-zero literal: the ceiling of half
/// the stripped digit count.
pub open spec fn spec_push_byte_len(s: Seq<u8>) -> int {
    (spec_skip_zeros(s).len() + 1) as int / 2
}

/// The zero-push instruction, which takes no immediate operand.
pub const ZERO_PUSH_OPCODE: u8 = 0x5f;

/// The push instruction for one payload byte; wider pushes follow it.
pub const BASE_PUSH_OPCODE: u8 = 0x60;

/// The maximum payload width of a single push instruction.
pub const MAX_PUSH_WIDTH: usize = 32;

/// A literal can be encoded: its digits are hexadecimal and its payload
/// fits the maximum push width.
pub open spec fn spec_push_ok(s: Seq<u8>) -> bool {
    spec_all_hex(s) && (spec_is_zero_literal(s) || spec_push_byte_len(s) <= MAX_PUSH_WIDTH)
}

/// The opcode byte returned by the push-literal encoder.
pub open spec fn spec_push_opcode(s: Seq<u8>) -> u8 {
    if spec_is_zero_literal(s) {
        ZERO_PUSH_OPCODE
    } else {
        (BASE_PUSH_OPCODE + spec_push_byte_len(s) - 1) as u8
    }
}

/// The payload bytes returned by the push-literal encoder. For the zero
/// literal this is the single byte `0`, which emission skips.
pub open spec fn spec_push_payload(s: Seq<u8>) -> Seq<u8> {
    spec_hex_decode(spec_pad_even(spec_effective(s)))
}

/// A lowercase hexadecimal digit: `'0'`..`'9'` or `'a'`..`'f'`.
pub open spec fn spec_is_lower_hex_digit(b: u8) -> bool {
    (DIGIT_ZERO <= b <= DIGIT_NINE) || (LOWER_A <= b <= LOWER_F)
}

/// Decoding an even-length digit string yields one byte per digit pair.
pub proof fn lemma_hex_decode_len(s: Seq<u8>)
    ensures
        spec_hex_decode(s).len() == s.len() / 2,
    decreases s.len(),
{
    if s.len() >= 2 {
        lemma_hex_decode_len(s.take(s.len() - 2));
    }
}

/// The shape of every successful push encoding: the payload of a
/// non-zero literal has exactly the ceiling of half its stripped digit
/// count in bytes and its opcode is the base push opcode offset by that
/// width minus one; the zero literal gets the zero-push opcode with the
/// single payload byte `0`, which emission skips.
pub proof fn lemma_push_encoder_shape(s: Seq<u8>)
    requires
        spec_push_ok(s),
    ensures
        !spec_is_zero_literal(s) ==> spec_push_payload(s).len() == spec_push_byte_len(s),
        !spec_is_zero_literal(s) ==> 1 <= spec_push_byte_len(s) <= MAX_PUSH_WIDTH,
        !spec_is_zero_literal(s) ==> spec_push_opcode(s) == BASE_PUSH_OPCODE + spec_push_byte_len(
            s,
        ) - 1,
        spec_is_zero_literal(s) ==> spec_push_opcode(s) == ZERO_PUSH_OPCODE && spec_push_payload(s)
            =~= seq![0u8],
{
    let e = spec_effective(s);
    let p = spec_pad_even(e);
    lemma_hex_decode_len(p);
    if spec_is_zero_literal(s) {
        assert(p =~= seq![DIGIT_ZERO, DIGIT_ZERO]);
        assert(spec_hex_decode(p) =~= seq![0u8]);
    }
}

/// Re-encoding a decoded even-length lowercase digit string gives the
/// string back.
proof fn lemma_hex_encode_decode(s: Seq<u8>)
    requires
        s.len() % 2 == 0,
        forall|i: int| 0 <= i < s.len() ==> spec_is_lower_hex_digit(#[trigger] s[i]),
    ensures
        spec_hex_encode(spec_hex_decode(s)) == s,
    decreases s.len(),
{
    if s.len() == 0 {
        assert(spec_hex_encode(spec_hex_decode(s)) =~= s);
    } else {
        let front = s.take(s.len() - 2);
        lemma_hex_encode_decode(front);
        lemma_hex_decode_len(front);
        let a = spec_hex_val(s[s.len() - 2]);
        let b = spec_hex_val(s[s.len() - 1]);
        assert(a < 16 && b < 16);
        let v = (a * 16 + b) as u8;
        assert(spec_hex_decode(s) == spec_hex_decode(front) + seq![v]);
        assert(spec_hex_decode(s).drop_last() =~= spec_hex_decode(front));
        assert(spec_hex_decode(s).last() == v);
        assert(v / 16 == a && v % 16 == b) by (nonlinear_arith)
            requires
                a < 16,
                b < 16,
                v == a * 16 + b,
        ;
        assert(spec_hex_digit(a) == s[s.len() - 2]);
        assert(spec_hex_digit(b) == s[s.len() - 1]);
        assert(spec_hex_encode(spec_hex_decode(s)) =~= s);
    }
}

/// Stripping leading zeros keeps every remaining digit lowercase.
proof fn lemma_skip_zeros_lower(s: Seq<u8>)
    requires
        forall|i: int| 0 <= i < s.len() ==> spec_is_lower_hex_digit(#[trigger] s[i]),
    ensures
        forall|i: int|
            0 <= i < spec_skip_zeros(s).len() ==> spec_is_lower_hex_digit(
                #[trigger] spec_skip_zeros(s)[i],
            ),
    decreases s.len(),
{
    if s.len() > 0 && s[0] == DIGIT_ZERO {
        assert(forall|i: int|
            0 <= i < s.skip(1).len() ==> spec_is_lower_hex_digit(#[trigger] s.skip(1)[i]));
        lemma_skip_zeros_lower(s.skip(1));
        assert(spec_skip_zeros(s) == spec_skip_zeros(s.skip(1)));
    } else {
        assert(spec_skip_zeros(s) == s);
    }
}

/// Encoding the payload back to digit text reproduces the stripped
/// digits of a lowercase literal: the re-encoded text is exactly the
/// even-padded stripped text, so dropping the single pad digit, when one
/// was added, recovers the stripped digits themselves.
pub proof fn lemma_push_round_trip(s: Seq<u8>)
    requires
        forall|i: int| 0 <= i < s.len() ==> spec_is_lower_hex_digit(#[trigger] s[i]),
    ensures
        spec_hex_encode(spec_push_payload(s)) == spec_pad_even(spec_effective(s)),
        !spec_is_zero_literal(s) && spec_skip_zeros(s).len() % 2 == 0 ==> spec_hex_encode(
            spec_push_payload(s),
        ) == spec_skip_zeros(s),
        !spec_is_zero_literal(s) && spec_skip_zeros(s).len() % 2 == 1 ==> spec_hex_encode(
            spec_push_payload(s),
        ).skip(1) == spec_skip_zeros(s),
{
    lemma_skip_zeros_lower(s);
    let e = spec_effective(s);
    let p = spec_pad_even(e);
    assert(forall|i: int| 0 <= i < e.len() ==> spec_is_lower_hex_digit(#[trigger] e[i]));
    assert(forall|i: int| 0 <= i < p.len() ==> spec_is_lower_hex_digit(#[trigger] p[i]));
    lemma_hex_encode_decode(p);
    if !spec_is_zero_literal(s) && spec_skip_zeros(s).len() % 2 == 1 {
        assert(p.skip(1) =~= spec_skip_zeros(s));
    }
}

/// Relies on `hex::decode`: on an even-length string of hexadecimal
/// digits it returns one byte per digit pair, high digit first.
#[verifier::external_body]
fn hex_decode_even(data: &Vec<u8>) -> (r: Vec<u8>)
    requires
        data@.len() % 2 == 0,
        spec_all_hex(data@),
    ensures
        r@ == spec_hex_decode(data@),
{
    hex::decode(data.as_slice()).unwrap()
}

/// Stripping leading zeros up to the first non-`'0'` index leaves the
/// tail of the sequence.
proof fn lemma_skip_zeros_at(s: Seq<u8>, k: int)
    requires
        0 <= k <= s.len(),
        forall|j: int| 0 <= j < k ==> s[j] == DIGIT_ZERO,
        k < s.len() ==> s[k] != DIGIT_ZERO,
    ensures
        spec_skip_zeros(s) == s.skip(k),
    decreases k,
{
    if k == 0 {
        assert(s.skip(0) =~= s);
    } else {
        lemma_skip_zeros_at(s.skip(1), k - 1);
        assert(s.skip(1).skip(k - 1) =~= s.skip(k));
    }
}

/// Checks that every byte of `s` is a hexadecimal digit.
pub fn all_hex_digits(s: &Vec<u8>) -> (r: bool)
    ensures
        r == spec_all_hex(s@),
{
    let mut i: usize = 0;
    while i < s.len()
        invariant
            0 <= i <= s@.len(),
            forall|j: int| 0 <= j < i ==> spec_is_hex_digit(#[trigger] s@[j]),
        decreases s@.len() - i,
    {
        let b = s[i];
        let ok = (DIGIT_ZERO <= b && b <= DIGIT_NINE) || (LOWER_A <= b && b <= LOWER_F) || (UPPER_A <= b && b <= UPPER_F);
        if !ok {
            return false;
        }
        i = i + 1;
    }
    true
}

/// The push-literal encoder: from a literal's hexadecimal digit text to
/// the matching push opcode and its immediate payload bytes.
///
/// The zero literal returns the zero-push opcode; its payload is the
/// single byte `0`, which callers must skip at emission time, since the
/// zero-push instruction takes no immediate operand.
pub fn process_push(literal: &Vec<u8>) -> (r: Result<(u8, Vec<u8>), EncodingError>)
    ensures
        r is Ok <==> spec_push_ok(literal@),
        !spec_all_hex(literal@) ==> r == Err::<(u8, Vec<u8>), EncodingError>(
            EncodingError::InvalidHexDigits,
        ),
        spec_all_hex(literal@) && !spec_push_ok(literal@) ==> r == Err::<
            (u8, Vec<u8>),
            EncodingError,
        >(EncodingError::ExceedsMaxPushWidth),
        r matches Ok(p) ==> p.0 == spec_push_opcode(literal@) && p.1@ == spec_push_payload(
            literal@,
        ),
{
    if !all_hex_digits(literal) {
        return Err(EncodingError::InvalidHexDigits);
    }

    // Find the first character that is not a leading '0'.
    let n = literal.len();
    let mut k: usize = 0;
    while k < n && literal[k as usize] == DIGIT_ZERO
        invariant
            0 <= k <= n,
            n == literal@.len(),
            forall|j: int| 0 <= j < k ==> literal@[j] == DIGIT_ZERO,
        decreases n - k,
    {
        k = k + 1;
    }
    proof {
        lemma_skip_zeros_at(literal@, k as int);
    }

    // The stripped digits, with the empty result replaced by "0".
    let mut eff: Vec<u8> = Vec::new();
    if k == n {
        eff.push(DIGIT_ZERO);
        assert(eff@ =~= spec_effective(literal@));
    } else {
        let mut i: usize = k;
        while i < n
            invariant
                k <= i <= n,
                n == literal@.len(),
                eff@ =~= literal@.subrange(k as int, i as int),
            decreases n - i,
        {
            let b = literal[i];
            eff.push(b);
            i = i + 1;
        }
        assert(eff@ =~= spec_skip_zeros(literal@));
        assert(eff@ =~= spec_effective(literal@));
    }

    // Left-pad to an even digit count.
    let mut padded: Vec<u8> = Vec::new();
    if eff.len() % 2 == 1 {
        padded.push(DIGIT_ZERO);
    }
    let mut i: usize = 0;
    while i < eff.len()
        invariant
            0 <= i <= eff@.len(),
            padded@.len() == i + if eff@.len() % 2 == 1 { 1int } else { 0int },
            padded@ =~= spec_pad_even(eff@).take(padded@.len() as int),
        decreases eff@.len() - i,
    {
        let b = eff[i];
        padded.push(b);
        i = i + 1;
    }
    assert(padded@ =~= spec_pad_even(eff@));
    assert(spec_pad_even(eff@) == spec_pad_even(spec_effective(literal@)));
    assert(spec_all_hex(padded@)) by {
        assert(forall|j: int|
            0 <= j < eff@.len() ==> spec_is_hex_digit(#[trigger] eff@[j]) || eff@[j] == DIGIT_ZERO);
    }

    let payload = hex_decode_even(&padded);

    if k == n {
        // The zero literal: the zero-push opcode carries no operand.
        return Ok((ZERO_PUSH_OPCODE, payload));
    }

    let stripped_len = n - k;
    let byte_len = stripped_len / 2 + stripped_len % 2;
    assert(byte_len == spec_push_byte_len(literal@));
    if byte_len > MAX_PUSH_WIDTH {
        return Err(EncodingError::ExceedsMaxPushWidth);
    }

    let opcode: u8 = (BASE_PUSH_OPCODE as usize + (byte_len - 1)) as u8;
    Ok((opcode, payload))
}

} // verus!
