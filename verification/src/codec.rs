//! The candidate codec: indices and fixed-length strings over an alphabet.
//!
//! An index is read as a number in base `alphabet.len()`, most significant
//! digit first, padded with leading zeros to the requested length. Digit `d`
//! stands for the alphabet's symbol at position `d`.

use vstd::arithmetic::div_mod::{
    lemma_breakdown, lemma_div_denominator, lemma_fundamental_div_mod_converse, lemma_small_mod,
};
use vstd::arithmetic::mul::lemma_mul_is_commutative;
use vstd::arithmetic::power::{lemma_pow0, lemma_pow_increases, lemma_pow_positive, pow};
use vstd::prelude::*;
use vstd::relations::injective_on;
use vstd::set_lib::{lemma_int_range, lemma_map_size, set_int_range};
use vstd::utf8::{
    decode_utf8, decode_utf8_encode_utf8, is_leading_byte_width_1, partial_valid_utf8,
    partial_valid_utf8_extend_ascii_block, valid_utf8,
};

verus! {

/// The `length` lowest base-`base` digits of `index`, most significant first.
pub open spec fn digits(index: nat, base: nat, length: nat) -> Seq<nat>
    decreases length,
{
    if length == 0 {
        Seq::empty()
    } else {
        digits(index / base, base, (length - 1) as nat).push(index % base)
    }
}

/// The symbols of the candidate with the given index: one per digit.
pub open spec fn candidate_bytes(index: nat, charset: Seq<u8>, length: nat) -> Seq<u8> {
    Seq::new(length, |p: int| charset[digits(index, charset.len(), length)[p] as int])
}

/// What `String::from_utf8_lossy` makes of a byte sequence.
pub uninterp spec fn utf8_lossy(bytes: Seq<u8>) -> Seq<char>;

/// The text that a candidate's symbols are read as: their decoding where they
/// are well-formed UTF-8, the lossy reading of them where they are not.
pub open spec fn text_of(bytes: Seq<u8>) -> Seq<char> {
    if valid_utf8(bytes) {
        decode_utf8(bytes)
    } else {
        utf8_lossy(bytes)
    }
}

/// The candidate with the given index, as text.
pub open spec fn candidate_text(index: nat, charset: Seq<u8>, length: nat) -> Seq<char> {
    text_of(candidate_bytes(index, charset, length))
}

/// The number that a sequence of base-`base` digits, most significant first,
/// stands for.
pub open spec fn digits_to_index(ds: Seq<nat>, base: nat) -> nat
    decreases ds.len(),
{
    if ds.len() == 0 {
        0
    } else {
        digits_to_index(ds.drop_last(), base) * base + ds.last()
    }
}

/// No symbol stands at two positions of the alphabet.
pub open spec fn distinct_symbols(charset: Seq<u8>) -> bool {
    forall|a: int, b: int|
        0 <= a < charset.len() && 0 <= b < charset.len() && charset[a] == charset[b] ==> a == b
}

/// Calls `String::from_utf8_lossy` and takes ownership of what it returns.
///
/// Trusted: the result is the lossy reading of the bytes, and for well-formed
/// UTF-8 it is their plain decoding, as the standard library documents.
#[verifier::external_body]
fn lossy_text(bytes: &[u8]) -> (text: String)
    ensures
        text@ == utf8_lossy(bytes@),
        valid_utf8(bytes@) ==> text@ == decode_utf8(bytes@),
{
    String::from_utf8_lossy(bytes).into_owned()
}

/// `digits` yields as many digits as were asked for, each below the base.
pub proof fn lemma_digits_shape(index: nat, base: nat, length: nat)
    requires
        base > 0,
    ensures
        digits(index, base, length).len() == length,
        forall|p: int| 0 <= p < length ==> #[trigger] digits(index, base, length)[p] < base,
    decreases length,
{
    if length > 0 {
        lemma_digits_shape(index / base, base, (length - 1) as nat);
    }
}

/// Writes the candidate with the given index into `buf`, replacing whatever
/// the buffer held.
pub fn fill_candidate(index: u64, charset: &[u8], length: usize, buf: &mut Vec<u8>)
    requires
        charset@.len() > 0,
    ensures
        final(buf)@ == candidate_bytes(index as nat, charset@, length as nat),
{
    let base: u64 = charset.len() as u64;
    buf.clear();
    while buf.len() < length
        invariant
            charset@.len() > 0,
            buf@.len() <= length,
        decreases length - buf@.len(),
    {
        buf.push(charset[0]);
    }
    let mut rest: u64 = index;
    let mut pos: usize = length;
    proof {
        lemma_digits_shape(index as nat, base as nat, length as nat);
    }
    while pos > 0
        invariant
            base == charset@.len(),
            base > 0,
            pos <= length,
            buf@.len() == length,
            digits(index as nat, base as nat, length as nat).len() == length,
            forall|p: int|
                0 <= p < pos ==> #[trigger] digits(index as nat, base as nat, length as nat)[p]
                    == digits(rest as nat, base as nat, pos as nat)[p],
            forall|p: int|
                pos <= p < length ==> #[trigger] buf@[p] == charset@[digits(
                    index as nat,
                    base as nat,
                    length as nat,
                )[p] as int],
        decreases pos,
    {
        proof {
            lemma_digits_shape((rest / base) as nat, base as nat, (pos - 1) as nat);
        }
        let digit: usize = (rest % base) as usize;
        pos = pos - 1;
        buf.set(pos, charset[digit]);
        rest = rest / base;
    }
    assert(buf@ =~= candidate_bytes(index as nat, charset@, length as nat));
}

/// Decodes `index` into the candidate of `length` symbols over `charset`.
///
/// The symbols are left in `buf`, whose earlier contents do not matter, and
/// returned as text.
pub fn index_to_candidate(index: u64, charset: &[u8], length: usize, buf: &mut Vec<u8>) -> (candidate:
    String)
    requires
        charset@.len() > 0,
    ensures
        final(buf)@ == candidate_bytes(index as nat, charset@, length as nat),
        candidate@ == candidate_text(index as nat, charset@, length as nat),
{
    fill_candidate(index, charset, length, buf);
    lossy_text(buf.as_slice())
}

/// The number of candidates of `length` symbols over an alphabet of `base`
/// symbols, or `None` where that number does not fit in 64 bits.
pub fn candidate_count(base: usize, length: usize) -> (count: Option<u64>)
    ensures
        match count {
            Some(n) => n == pow(base as int, length as nat),
            None => pow(base as int, length as nat) > u64::MAX,
        },
{
    if length == 0 {
        proof {
            lemma_pow0(base as int);
        }
        return Some(1);
    }
    if base <= 1 {
        proof {
            lemma_pow_of_small_base(base as nat, length as nat);
        }
        return Some(base as u64);
    }
    let mut count: u64 = 1;
    let mut done: usize = 0;
    proof {
        lemma_pow0(base as int);
    }
    while done < length
        invariant
            base >= 2,
            done <= length,
            count == pow(base as int, done as nat),
        decreases length - done,
    {
        assert(count * base <= u64::MAX * usize::MAX) by (nonlinear_arith)
            requires
                0 <= count <= u64::MAX,
                0 <= base <= usize::MAX,
        ;
        let wide: u128 = (count as u128) * (base as u128);
        proof {
            lemma_pow_step(base as int, done as nat);
            lemma_mul_is_commutative(count as int, base as int);
        }
        if wide > u64::MAX as u128 {
            proof {
                lemma_pow_increases(base as nat, (done + 1) as nat, length as nat);
            }
            return None;
        }
        count = wide as u64;
        done = done + 1;
    }
    Some(count)
}

/// One more factor: `b^(e+1) = b * b^e`.
proof fn lemma_pow_step(b: int, e: nat)
    ensures
        pow(b, e + 1) == b * pow(b, e),
{
    reveal(pow);
}

/// Powers of zero and of one.
proof fn lemma_pow_of_small_base(base: nat, exp: nat)
    requires
        base <= 1,
        exp > 0,
    ensures
        pow(base as int, exp) == base,
    decreases exp,
{
    lemma_pow_step(base as int, (exp - 1) as nat);
    if exp > 1 {
        lemma_pow_of_small_base(base, (exp - 1) as nat);
        assert(base * base == base) by (nonlinear_arith)
            requires
                base <= 1,
        ;
    } else {
        lemma_pow0(base as int);
    }
}

/// The digits of an index stand for it, up to the part that `length` digits
/// cannot hold.
proof fn lemma_digits_value(index: nat, base: nat, length: nat)
    requires
        base > 0,
    ensures
        pow(base as int, length) > 0,
        digits_to_index(digits(index, base, length), base) == index % (pow(
            base as int,
            length,
        ) as nat),
    decreases length,
{
    lemma_pow_positive(base as int, length);
    if length == 0 {
        lemma_pow0(base as int);
    } else {
        let shorter = (length - 1) as nat;
        let high = digits(index / base, base, shorter);
        let span = pow(base as int, shorter);
        lemma_digits_value(index / base, base, shorter);
        lemma_pow_step(base as int, shorter);
        assert(digits(index, base, length).drop_last() =~= high);
        lemma_breakdown(index as int, base as int, span);
        lemma_mul_is_commutative(base as int, ((index / base) as int) % span);
    }
}

/// Reading the digits of an index back gives the index: for every index
/// below `base^length`, `digits_to_index` undoes `digits`.
pub proof fn digits_round_trip(index: nat, base: nat, length: nat)
    requires
        base > 0,
        index < pow(base as int, length),
    ensures
        digits_to_index(digits(index, base, length), base) == index,
{
    lemma_digits_value(index, base, length);
    lemma_small_mod(index, pow(base as int, length) as nat);
}

/// The digit at position `p`, counted from the left, is
/// `(index / base^(length - 1 - p)) % base`.
pub proof fn digit_at_position(index: nat, base: nat, length: nat, p: nat)
    requires
        base > 0,
        p < length,
    ensures
        pow(base as int, (length - 1 - p) as nat) > 0,
        digits(index, base, length)[p as int] == (index as int / pow(
            base as int,
            (length - 1 - p) as nat,
        )) % (base as int),
    decreases length,
{
    let shorter = (length - 1) as nat;
    lemma_digits_shape(index / base, base, shorter);
    lemma_pow_positive(base as int, (length - 1 - p) as nat);
    if p == shorter {
        lemma_pow0(base as int);
    } else {
        let weight = pow(base as int, (shorter - 1 - p) as nat);
        digit_at_position(index / base, base, shorter, p);
        lemma_pow_step(base as int, (shorter - 1 - p) as nat);
        lemma_div_denominator(index as int, base as int, weight);
    }
}

/// The index that a string over the alphabet stands for: each symbol counts
/// as its first position in the alphabet.
pub open spec fn symbols_to_index(word: Seq<u8>, charset: Seq<u8>) -> nat {
    digits_to_index(Seq::new(word.len(), |p: int| charset.index_of(word[p]) as nat), charset.len())
}

/// Over an alphabet without repeated symbols, reading a candidate's symbols
/// back gives the index it was decoded from, for every index below
/// `len^length`.
pub proof fn candidate_round_trip(index: nat, charset: Seq<u8>, length: nat)
    requires
        charset.len() > 0,
        distinct_symbols(charset),
        index < pow(charset.len() as int, length),
    ensures
        symbols_to_index(candidate_bytes(index, charset, length), charset) == index,
{
    let base = charset.len();
    let word = candidate_bytes(index, charset, length);
    let ds = digits(index, base, length);
    lemma_digits_shape(index, base, length);
    let read = Seq::new(word.len(), |p: int| charset.index_of(word[p]) as nat);
    assert forall|p: int| 0 <= p < length implies read[p] == ds[p] by {
        assert(word[p] == charset[ds[p] as int]);
        assert(charset.contains(word[p]));
    }
    assert(read =~= ds);
    digits_round_trip(index, base, length);
}

/// Every sequence of digits below the base is the digit sequence of the
/// number it stands for, and that number is below `base^len`.
pub proof fn digits_of_value(ds: Seq<nat>, base: nat)
    requires
        base > 0,
        forall|p: int| 0 <= p < ds.len() ==> #[trigger] ds[p] < base,
    ensures
        digits_to_index(ds, base) < pow(base as int, ds.len()),
        digits(digits_to_index(ds, base), base, ds.len()) == ds,
    decreases ds.len(),
{
    if ds.len() == 0 {
        lemma_pow0(base as int);
        assert(digits(0, base, 0) =~= ds);
    } else {
        let high = ds.drop_last();
        let shorter = high.len();
        let upper = digits_to_index(high, base);
        let value = digits_to_index(ds, base);
        digits_of_value(high, base);
        lemma_pow_step(base as int, shorter);
        lemma_fundamental_div_mod_converse(
            value as int,
            base as int,
            upper as int,
            ds.last() as int,
        );
        assert(value < pow(base as int, ds.len())) by (nonlinear_arith)
            requires
                value == upper * base + ds.last(),
                ds.last() < base,
                upper < pow(base as int, shorter),
                pow(base as int, ds.len()) == base * pow(base as int, shorter),
        ;
        assert(digits(value, base, ds.len()) =~= ds);
    }
}

/// A candidate has exactly `length` symbols, each taken from the alphabet.
pub proof fn candidate_shape(index: nat, charset: Seq<u8>, length: nat)
    requires
        charset.len() > 0,
    ensures
        candidate_bytes(index, charset, length).len() == length,
        forall|p: int|
            0 <= p < length ==> charset.contains(
                #[trigger] candidate_bytes(index, charset, length)[p],
            ),
{
    lemma_digits_shape(index, charset.len(), length);
}

/// Over an alphabet without repeated symbols, two different indices below
/// `len^length` never decode to the same candidate.
pub proof fn candidates_are_distinct(i: nat, j: nat, charset: Seq<u8>, length: nat)
    requires
        charset.len() > 0,
        distinct_symbols(charset),
        i < pow(charset.len() as int, length),
        j < pow(charset.len() as int, length),
        i != j,
    ensures
        candidate_bytes(i, charset, length) != candidate_bytes(j, charset, length),
{
    let base = charset.len();
    let di = digits(i, base, length);
    let dj = digits(j, base, length);
    lemma_digits_shape(i, base, length);
    lemma_digits_shape(j, base, length);
    if candidate_bytes(i, charset, length) == candidate_bytes(j, charset, length) {
        assert forall|p: int| 0 <= p < length implies di[p] == dj[p] by {
            assert(candidate_bytes(i, charset, length)[p] == charset[di[p] as int]);
            assert(candidate_bytes(j, charset, length)[p] == charset[dj[p] as int]);
        }
        assert(di =~= dj);
        digits_round_trip(i, base, length);
        digits_round_trip(j, base, length);
    }
}

/// The candidates of `length` symbols over the alphabet, as a set.
pub open spec fn candidate_set(charset: Seq<u8>, length: nat) -> Set<Seq<u8>> {
    set_int_range(0, pow(charset.len() as int, length)).map(
        |i: int| candidate_bytes(i as nat, charset, length),
    )
}

/// Over an alphabet of `b` symbols without repeats, the indices below
/// `b^length` decode to exactly `b^length` different candidates.
pub proof fn candidates_are_counted(charset: Seq<u8>, length: nat)
    requires
        charset.len() > 0,
        distinct_symbols(charset),
    ensures
        candidate_set(charset, length).finite(),
        candidate_set(charset, length).len() == pow(charset.len() as int, length),
{
    let total = pow(charset.len() as int, length);
    let indices = set_int_range(0, total);
    let decode = |i: int| candidate_bytes(i as nat, charset, length);
    lemma_pow_positive(charset.len() as int, length);
    lemma_int_range(0, total);
    assert forall|i: int, j: int|
        indices.contains(i) && indices.contains(j) && #[trigger] decode(i) == #[trigger] decode(
            j,
        ) implies i == j by {
        if i != j {
            candidates_are_distinct(i as nat, j as nat, charset, length);
        }
    }
    assert(injective_on(decode, indices));
    lemma_map_size(indices, candidate_set(charset, length), decode);
}

/// Every string over the alphabet is the candidate of some index below
/// `len^length`, where `length` is the string's own length.
pub proof fn every_string_is_a_candidate(word: Seq<u8>, charset: Seq<u8>) -> (index: nat)
    requires
        forall|p: int| 0 <= p < word.len() ==> charset.contains(#[trigger] word[p]),
    ensures
        index < pow(charset.len() as int, word.len()),
        candidate_bytes(index, charset, word.len()) == word,
{
    let base = charset.len();
    let ds = Seq::new(word.len(), |p: int| charset.index_of(word[p]) as nat);
    if word.len() == 0 {
        lemma_pow0(base as int);
        assert(candidate_bytes(0, charset, 0) =~= word);
        0
    } else {
        assert(charset.contains(word[0]));
        assert forall|p: int| 0 <= p < ds.len() implies #[trigger] ds[p] < base && charset[ds[p] as int]
            == word[p] by {
            assert(charset.contains(word[p]));
        }
        digits_of_value(ds, base);
        let index = digits_to_index(ds, base);
        assert(candidate_bytes(index, charset, word.len()) =~= word);
        index
    }
}

/// Candidates over an alphabet of ASCII symbols are well-formed UTF-8.
pub proof fn ascii_candidates_are_utf8(index: nat, charset: Seq<u8>, length: nat)
    requires
        charset.len() > 0,
        forall|a: int| 0 <= a < charset.len() ==> #[trigger] charset[a] < 0x80,
    ensures
        valid_utf8(candidate_bytes(index, charset, length)),
{
    let bytes = candidate_bytes(index, charset, length);
    lemma_digits_shape(index, charset.len(), length);
    assert forall|p: int| 0 <= p < bytes.len() implies #[trigger] is_leading_byte_width_1(
        bytes[p],
    ) by {
        let b = bytes[p];
        assert(b < 0x80);
        assert(is_leading_byte_width_1(b)) by (bit_vector)
            requires
                b < 0x80u8,
        ;
    }
    assert(bytes.subrange(0, 0) =~= Seq::<u8>::empty());
    assert(partial_valid_utf8(bytes, 0));
    partial_valid_utf8_extend_ascii_block(bytes, 0, bytes.len() as int);
    assert(bytes.subrange(0, bytes.len() as int) =~= bytes);
}

/// Over an alphabet of ASCII symbols without repeats, two different indices
/// below `len^length` never decode to the same text.
pub proof fn ascii_candidate_texts_are_distinct(i: nat, j: nat, charset: Seq<u8>, length: nat)
    requires
        charset.len() > 0,
        distinct_symbols(charset),
        forall|a: int| 0 <= a < charset.len() ==> #[trigger] charset[a] < 0x80,
        i < pow(charset.len() as int, length),
        j < pow(charset.len() as int, length),
        i != j,
    ensures
        candidate_text(i, charset, length) != candidate_text(j, charset, length),
{
    ascii_candidates_are_utf8(i, charset, length);
    ascii_candidates_are_utf8(j, charset, length);
    candidates_are_distinct(i, j, charset, length);
    if candidate_text(i, charset, length) == candidate_text(j, charset, length) {
        text_determines_bytes(
            candidate_bytes(i, charset, length),
            candidate_bytes(j, charset, length),
        );
    }
}

/// Two well-formed byte strings that read as the same text are the same.
pub proof fn text_determines_bytes(a: Seq<u8>, b: Seq<u8>)
    requires
        valid_utf8(a),
        valid_utf8(b),
        text_of(a) == text_of(b),
    ensures
        a == b,
{
    decode_utf8_encode_utf8(a);
    decode_utf8_encode_utf8(b);
}

} // verus!
