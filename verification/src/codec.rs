//! The codec: an alphabet derived from a key, and texts written and read
//! with it.

use crate::alphabet::{arrange, derived_alphabet, key_weights, reversed, weigh};
use crate::checksum::checksum;
use crate::error::Error;
use crate::radix64::{
    all_symbols, decodable, decoding, encodes, encoding, ends_in_padding, explains,
    lemma_encoding_injective, lemma_encoding_symbols, lemma_round_trip,
    lemma_symbols_hold_no_padding, radix64_decode, radix64_encode, text_bytes,
};
use crate::symbols::{
    is_arrangement, lemma_arrangement_is_alphabet, symbol_at, symbols, PAD, SYMBOL_COUNT,
};
use vstd::array::array_as_slice;
use vstd::prelude::*;
use vstd::utf8::{encode_utf8, is_ascii_chars_encode_utf8};

verus! {

/// Writes and reads radix-64 text under the alphabet that a key derives.
pub struct Base64 {
    alphabet: String,
}

impl View for Base64 {
    type V = Seq<char>;

    /// The alphabet: the symbol for each value of six bits.
    closed spec fn view(&self) -> Seq<char> {
        self.alphabet@
    }
}

/// A result of reading, with the bytes as a sequence.
pub open spec fn outcome(out: Result<Vec<u8>, Error>) -> Result<Seq<u8>, Error> {
    match out {
        Ok(bytes) => Ok(bytes@),
        Err(e) => Err(e),
    }
}

impl Base64 {
    /// The alphabet of a codec is always an arrangement of the symbols.
    #[verifier::type_invariant]
    spec fn arranged(self) -> bool {
        is_arrangement(self.alphabet@)
    }

    /// The codec of `key`.
    pub fn new(key: &[u8]) -> (codec: Self)
        ensures
            codec@ == derived_alphabet(key@),
            is_arrangement(codec@),
            codec@.no_duplicates(),
            key@.len() == 0 ==> codec@ == symbols(),
    {
        Base64 { alphabet: Self::get_alphabet(key) }
    }

    /// The alphabet that `key` derives: the symbols by descending weight,
    /// symbols of equal weight in canonical order. A symbol's weight is the
    /// remainder of its checksum by the checksum of the key, read forward for
    /// symbols at even positions and backward for those at odd positions; it
    /// is zero where that checksum is zero, as it is for the empty key.
    pub fn get_alphabet(key: &[u8]) -> (alphabet: String)
        ensures
            alphabet@ == derived_alphabet(key@),
            is_arrangement(alphabet@),
            alphabet@.no_duplicates(),
            key@.len() == 0 ==> alphabet@ == symbols(),
    {
        let rev_key = reversed(key);
        let hash = checksum(key);
        let rev_hash = checksum(rev_key.as_slice());
        let mut weights: [u32; 64] = [0; 64];
        let mut i: usize = 0;
        while i < SYMBOL_COUNT
            invariant
                i <= SYMBOL_COUNT,
                forall|j: int| 0 <= j < i ==> weights@[j] == key_weights(hash, rev_hash)[j],
            decreases SYMBOL_COUNT - i,
        {
            let one: [u8; 1] = [symbol_at(i) as u8];
            assert(one@ =~= seq![crate::symbols::symbol(i as int) as u8]);
            let sum = checksum(array_as_slice(&one));
            let divisor = if i % 2 == 0 {
                hash
            } else {
                rev_hash
            };
            weights[i] = weigh(sum, divisor);
            i += 1;
        }
        assert(weights@ =~= key_weights(hash, rev_hash));
        proof {
            if key@.len() == 0 {
                crate::alphabet::lemma_equal_weights(weights@);
            }
        }
        arrange(&weights)
    }

    /// The alphabet of this codec.
    pub fn alphabet(&self) -> (alphabet: &str)
        ensures
            alphabet@ == self@,
            is_arrangement(self@),
    {
        proof {
            use_type_invariant(self);
        }
        self.alphabet.as_str()
    }

    /// The text that encodes `input`: one symbol for every six bits, and no
    /// padding. Reading the text gives `input` back.
    pub fn encode(&self, input: &[u8]) -> (text: String)
        ensures
            text@ == encoding(self@, input@),
            !text@.contains(PAD),
            decoding(self@, text_bytes(text@)) == Ok::<Seq<u8>, Error>(input@),
            encode_utf8(text@) == text_bytes(text@),
    {
        proof {
            use_type_invariant(self);
            lemma_arrangement_is_alphabet(self@);
            lemma_encoding_symbols(self@, input@);
            lemma_round_trip(self@, input@);
            is_ascii_chars_encode_utf8(encoding(self@, input@));
            assert(encode_utf8(encoding(self@, input@)) =~= text_bytes(encoding(self@, input@)));
        }
        radix64_encode(self.alphabet.as_str(), input)
    }

    /// The bytes that `input` encodes. A text that encodes nothing is
    /// refused: with `InvalidPadding` where it is symbols and then padding in
    /// the place where padding could stand, else with `InvalidByte` where a
    /// byte of it is no symbol, else with `InvalidLength` where its length is
    /// one more than a multiple of four, else with `InvalidLastSymbol`.
    pub fn decode(&self, input: &[u8]) -> (out: Result<Vec<u8>, Error>)
        ensures
            outcome(out) == decoding(self@, input@),
            out is Ok <==> decodable(self@, input@),
            out matches Ok(bytes) ==> encodes(self@, input@, bytes@),
            out matches Err(e) ==> explains(self@, input@, e),
            out matches Err(e) ==> (e is InvalidPadding <==> ends_in_padding(self@, input@)),
            out matches Err(e) ==> (e is InvalidByte <==> !all_symbols(self@, input@)
                && !ends_in_padding(self@, input@)),
            out matches Err(e) ==> (e is InvalidLength <==> all_symbols(self@, input@)
                && input@.len() % 4 == 1),
            out matches Err(e) ==> (e is InvalidLastSymbol <==> all_symbols(self@, input@)
                && input@.len() % 4 != 1),
    {
        proof {
            use_type_invariant(self);
            lemma_arrangement_is_alphabet(self@);
        }
        let out = radix64_decode(self.alphabet.as_str(), input);
        proof {
            if out is Ok {
                let chosen = choose|chosen: Seq<u8>| encodes(self@, input@, chosen);
                lemma_encoding_injective(self@, chosen, out->Ok_0@);
            } else if all_symbols(self@, input@) {
                lemma_symbols_hold_no_padding(self@, input@);
            }
        }
        out
    }
}

} // verus!
