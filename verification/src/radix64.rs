//! Radix-64 text under a given alphabet: what it is, and the calls into the
//! `base64` crate that write and read it.

use crate::error::Error;
use crate::symbols::{is_alphabet, is_arrangement, lemma_arrangement_is_alphabet, PAD};
use vstd::prelude::*;
use vstd::seq_lib::*;

verus! {

/// The byte at `k`, and zero past the end.
pub open spec fn byte_or_zero(input: Seq<u8>, k: int) -> int {
    if 0 <= k < input.len() {
        input[k] as int
    } else {
        0
    }
}

/// The `i`-th group of six bits of `input`. The input is read as one string
/// of bits, each byte from its highest bit down, with zero bits after the
/// end: three bytes hold four groups.
pub open spec fn sextet(input: Seq<u8>, i: int) -> int {
    let first = 3 * (i / 4);
    if i % 4 == 0 {
        byte_or_zero(input, first) / 4
    } else if i % 4 == 1 {
        byte_or_zero(input, first) % 4 * 16 + byte_or_zero(input, first + 1) / 16
    } else if i % 4 == 2 {
        byte_or_zero(input, first + 1) % 16 * 4 + byte_or_zero(input, first + 2) / 64
    } else {
        byte_or_zero(input, first + 2) % 64
    }
}

/// The number of symbols that encode `n` bytes: one for every six bits, begun
/// or complete.
pub open spec fn encoded_len(n: nat) -> nat {
    ((8 * n + 5) / 6) as nat
}

/// The text that encodes `input`: for each group of six bits the symbol that
/// `alphabet` holds at the group's value. Nothing is appended.
pub open spec fn encoding(alphabet: Seq<char>, input: Seq<u8>) -> Seq<char> {
    Seq::new(encoded_len(input.len()), |i: int| alphabet[sextet(input, i)])
}

/// A text of ASCII characters as bytes.
pub open spec fn text_bytes(text: Seq<char>) -> Seq<u8> {
    Seq::new(text.len(), |i: int| text[i] as u8)
}

/// `byte` is one of the symbols of `alphabet`.
pub open spec fn is_symbol(alphabet: Seq<char>, byte: u8) -> bool {
    exists|v: int| 0 <= v < alphabet.len() && #[trigger] alphabet[v] == byte as char
}

/// Every byte of `input` is a symbol of `alphabet`.
pub open spec fn all_symbols(alphabet: Seq<char>, input: Seq<u8>) -> bool {
    forall|i: int| 0 <= i < input.len() ==> is_symbol(alphabet, #[trigger] input[i])
}

/// `input` is the text that encodes `bytes`.
pub open spec fn encodes(alphabet: Seq<char>, input: Seq<u8>, bytes: Seq<u8>) -> bool {
    input == text_bytes(encoding(alphabet, bytes))
}

/// `input` is the text that encodes some bytes.
pub open spec fn decodable(alphabet: Seq<char>, input: Seq<u8>) -> bool {
    exists|bytes: Seq<u8>| encodes(alphabet, input, bytes)
}

/// The error that the engine reports for an `input` that encodes nothing.
pub uninterp spec fn decode_failure(alphabet: Seq<char>, input: Seq<u8>) -> Error;

/// `input` is symbols followed by one or two padding characters, which
/// stand in the last group of four, in its third place or later.
pub open spec fn ends_in_padding(alphabet: Seq<char>, input: Seq<u8>) -> bool {
    exists|pads: int|
        {
            &&& 1 <= pads <= 2
            &&& pads <= input.len()
            &&& (input.len() - pads) % 4 >= 2
            &&& (input.len() - pads) % 4 + pads <= 4
            &&& #[trigger] all_symbols(alphabet, input.take(input.len() - pads))
            &&& forall|i: int| input.len() - pads <= i < input.len() ==> input[i] == PAD as u8
        }
}

/// The inputs for which each error is reported, among those that encode
/// nothing.
pub open spec fn explains(alphabet: Seq<char>, input: Seq<u8>, e: Error) -> bool {
    match e {
        Error::InvalidByte(at, byte) => {
            &&& at < input.len()
            &&& input[at as int] == byte
            &&& !is_symbol(alphabet, byte)
            &&& !ends_in_padding(alphabet, input)
        },
        Error::InvalidPadding => ends_in_padding(alphabet, input),
        Error::InvalidLength(len) => {
            &&& len == input.len()
            &&& len % 4 == 1
            &&& all_symbols(alphabet, input)
        },
        Error::InvalidLastSymbol(at, byte) => {
            &&& at + 1 == input.len()
            &&& input[at as int] == byte
            &&& input.len() % 4 != 1
            &&& all_symbols(alphabet, input)
        },
    }
}

/// What reading `input` gives: the bytes that it encodes, or else the
/// engine's error.
pub open spec fn decoding(alphabet: Seq<char>, input: Seq<u8>) -> Result<Seq<u8>, Error> {
    if decodable(alphabet, input) {
        Ok(choose|bytes: Seq<u8>| encodes(alphabet, input, bytes))
    } else {
        Err(decode_failure(alphabet, input))
    }
}

/// Calls `base64::Engine::encode` on a `GeneralPurpose` engine that is made
/// from `alphabet` and set to write no padding.
///
/// Trusted: the text is the one that [`encoding`] describes. The call does
/// not fail: the length of the text of a slice always fits.
#[verifier::external_body]
pub(crate) fn radix64_encode(alphabet: &str, input: &[u8]) -> (text: String)
    requires
        is_alphabet(alphabet@),
    ensures
        text@ == encoding(alphabet@, input@),
{
    let table = base64::alphabet::Alphabet::new(alphabet).expect("alphabet");
    let config = base64::engine::general_purpose::NO_PAD.with_decode_allow_trailing_bits(false);
    base64::Engine::encode(&base64::engine::GeneralPurpose::new(&table, config), input)
}

/// Calls `base64::Engine::decode` on a `GeneralPurpose` engine that is made
/// from `alphabet` and set to refuse padding and to refuse a last symbol
/// with bits that no byte takes up.
///
/// Trusted: on success the input is the text that encodes the result. On
/// failure the input encodes nothing, and the error depends on alphabet and
/// input alone, which [`decode_failure`] names, and is the one that
/// [`explains`] gives for the input.
#[verifier::external_body]
pub(crate) fn radix64_decode(alphabet: &str, input: &[u8]) -> (out: Result<Vec<u8>, Error>)
    requires
        is_alphabet(alphabet@),
    ensures
        match out {
            Ok(bytes) => encodes(alphabet@, input@, bytes@),
            Err(e) => {
                &&& !decodable(alphabet@, input@)
                &&& e == decode_failure(alphabet@, input@)
                &&& explains(alphabet@, input@, e)
            },
        },
{
    let table = base64::alphabet::Alphabet::new(alphabet).expect("alphabet");
    let config = base64::engine::general_purpose::NO_PAD.with_decode_allow_trailing_bits(false);
    match base64::Engine::decode(&base64::engine::GeneralPurpose::new(&table, config), input) {
        Ok(bytes) => Ok(bytes),
        Err(base64::DecodeError::InvalidByte(at, byte)) => Err(Error::InvalidByte(at, byte)),
        Err(base64::DecodeError::InvalidLength(len)) => Err(Error::InvalidLength(len)),
        Err(base64::DecodeError::InvalidLastSymbol(at, byte)) => Err(
            Error::InvalidLastSymbol(at, byte),
        ),
        Err(base64::DecodeError::InvalidPadding) => Err(Error::InvalidPadding),
    }
}

/// A group of six bits has a value below 64.
pub proof fn lemma_sextet_range(input: Seq<u8>, i: int)
    ensures
        0 <= sextet(input, i) < 64,
{
}

/// The bytes can be read back from the groups of six bits.
pub proof fn lemma_byte_from_sextets(input: Seq<u8>, k: int)
    requires
        0 <= k < input.len(),
    ensures
        input[k] == if k % 3 == 0 {
            sextet(input, 4 * (k / 3)) * 4 + sextet(input, 4 * (k / 3) + 1) / 16
        } else if k % 3 == 1 {
            sextet(input, 4 * (k / 3) + 1) % 16 * 16 + sextet(input, 4 * (k / 3) + 2) / 4
        } else {
            sextet(input, 4 * (k / 3) + 2) % 4 * 64 + sextet(input, 4 * (k / 3) + 3)
        },
        4 * (k / 3) + k % 3 + 1 < encoded_len(input.len()),
{
}

/// Different bytes have different texts.
pub proof fn lemma_encoding_injective(alphabet: Seq<char>, x: Seq<u8>, y: Seq<u8>)
    requires
        is_alphabet(alphabet),
        text_bytes(encoding(alphabet, x)) == text_bytes(encoding(alphabet, y)),
    ensures
        x == y,
{
    let tx = encoding(alphabet, x);
    let ty = encoding(alphabet, y);
    assert(text_bytes(tx).len() == text_bytes(ty).len());
    assert(x.len() == y.len());
    assert forall|i: int| 0 <= i < tx.len() implies sextet(x, i) == sextet(y, i) by {
        lemma_sextet_range(x, i);
        lemma_sextet_range(y, i);
        assert(text_bytes(tx)[i] == text_bytes(ty)[i]);
        assert(tx[i] == alphabet[sextet(x, i)]);
        assert(ty[i] == alphabet[sextet(y, i)]);
    }
    assert forall|k: int| 0 <= k < x.len() implies x[k] == y[k] by {
        lemma_byte_from_sextets(x, k);
        lemma_byte_from_sextets(y, k);
    }
    assert(x =~= y);
}

/// A text holds symbols only, so never the padding character, and its
/// length is never one more than a multiple of four.
pub proof fn lemma_encoding_symbols(alphabet: Seq<char>, bytes: Seq<u8>)
    requires
        is_alphabet(alphabet),
    ensures
        all_symbols(alphabet, text_bytes(encoding(alphabet, bytes))),
        !encoding(alphabet, bytes).contains(PAD),
        encoding(alphabet, bytes).len() % 4 != 1,
{
    let text = encoding(alphabet, bytes);
    assert forall|i: int| 0 <= i < text.len() implies is_symbol(
        alphabet,
        #[trigger] text_bytes(text)[i],
    ) && text[i] != PAD by {
        lemma_sextet_range(bytes, i);
        let v = sextet(bytes, i);
        assert(alphabet[v] == text_bytes(text)[i] as char);
    }
}

/// The padding character is no symbol of any alphabet.
pub proof fn lemma_pad_is_no_symbol(alphabet: Seq<char>)
    requires
        is_alphabet(alphabet),
    ensures
        !is_symbol(alphabet, PAD as u8),
{
}

/// A text of symbols does not end in padding.
pub proof fn lemma_symbols_hold_no_padding(alphabet: Seq<char>, input: Seq<u8>)
    requires
        is_alphabet(alphabet),
        all_symbols(alphabet, input),
    ensures
        !ends_in_padding(alphabet, input),
{
    lemma_pad_is_no_symbol(alphabet);
    if ends_in_padding(alphabet, input) {
        assert(is_symbol(alphabet, input[input.len() - 1]));
    }
}

/// Reading the text that encodes `bytes` gives `bytes` back.
pub proof fn lemma_round_trip(alphabet: Seq<char>, bytes: Seq<u8>)
    requires
        is_alphabet(alphabet),
    ensures
        decoding(alphabet, text_bytes(encoding(alphabet, bytes))) == Ok::<Seq<u8>, Error>(bytes),
{
    let input = text_bytes(encoding(alphabet, bytes));
    assert(encodes(alphabet, input, bytes));
    let back = choose|back: Seq<u8>| encodes(alphabet, input, back);
    lemma_encoding_injective(alphabet, back, bytes);
}

/// A text that one alphabet wrote holds only symbols of every other, so
/// whoever reads it under another alphabet and fails can only fail on its
/// last symbol: on bits in it that belong to no byte.
pub proof fn lemma_foreign_text_failure(
    writer: Seq<char>,
    reader: Seq<char>,
    bytes: Seq<u8>,
    e: Error,
)
    requires
        is_arrangement(writer),
        is_arrangement(reader),
        explains(reader, text_bytes(encoding(writer, bytes)), e),
    ensures
        e is InvalidLastSymbol,
{
    broadcast use group_to_multiset_ensures;

    lemma_arrangement_is_alphabet(writer);
    lemma_arrangement_is_alphabet(reader);
    lemma_encoding_symbols(writer, bytes);
    let input = text_bytes(encoding(writer, bytes));
    assert forall|i: int| 0 <= i < input.len() implies is_symbol(reader, #[trigger] input[i]) by {
        let v = choose|v: int| 0 <= v < writer.len() && writer[v] == input[i] as char;
        assert(writer.contains(writer[v]));
        assert(reader.to_multiset().count(writer[v]) > 0);
        assert(reader.contains(writer[v]));
    }
    lemma_symbols_hold_no_padding(reader, input);
}

} // verus!
