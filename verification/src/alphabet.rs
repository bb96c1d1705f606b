//! From a key to an arrangement of the symbols.

use crate::checksum::crc32;
use crate::order::{is_stable_order, positions, sort_positions, stable_order};
use crate::symbols::{
    is_arrangement, lemma_arrangement_is_alphabet, symbol, symbol_at, symbols, SYMBOL_COUNT,
};
use vstd::array::array_as_slice;
use vstd::prelude::*;
use vstd::seq_lib::*;

verus! {

/// The weight of a symbol: the remainder of its checksum by `divisor`, and
/// zero where `divisor` is zero.
pub open spec fn weight(symbol_sum: u32, divisor: u32) -> u32 {
    if divisor == 0 {
        0
    } else {
        symbol_sum % divisor
    }
}

/// Computes [`weight`].
pub fn weigh(symbol_sum: u32, divisor: u32) -> (w: u32)
    ensures
        w == weight(symbol_sum, divisor),
{
    if divisor == 0 {
        0
    } else {
        symbol_sum % divisor
    }
}

/// The checksum of the canonical symbol at position `i`, taken alone.
pub open spec fn symbol_sum(i: int) -> u32 {
    crc32(seq![symbol(i) as u8])
}

/// The weights of the 64 symbols under the checksums of a key read forward
/// and backward: symbols at even positions are weighed by the first, those at
/// odd positions by the second.
pub open spec fn key_weights(forward: u32, backward: u32) -> Seq<u32> {
    Seq::new(
        SYMBOL_COUNT as nat,
        |i: int|
            weight(
                symbol_sum(i),
                if i % 2 == 0 {
                    forward
                } else {
                    backward
                },
            ),
    )
}

/// The symbols in the stable descending order of `weights`.
pub open spec fn arrangement(weights: Seq<u32>) -> Seq<char> {
    stable_order(weights).map_values(|p: usize| symbol(p as int))
}

/// The alphabet that `key` derives.
pub open spec fn derived_alphabet(key: Seq<u8>) -> Seq<char> {
    arrangement(key_weights(crc32(key), crc32(key.reverse())))
}

/// The same key derives the same alphabet, whenever and wherever it is
/// derived: two alphabets that are each what `key` derives are equal.
pub proof fn lemma_same_key_same_alphabet(key: Seq<u8>, first: Seq<char>, second: Seq<char>)
    requires
        first == derived_alphabet(key),
        second == derived_alphabet(key),
    ensures
        first == second,
{
}

/// Where all weights are equal, no symbol moves.
pub proof fn lemma_equal_weights(weights: Seq<u32>)
    requires
        weights.len() == SYMBOL_COUNT,
        forall|i: int, j: int| 0 <= i < j < weights.len() ==> weights[i] == weights[j],
    ensures
        arrangement(weights) == symbols(),
{
    let canonical = positions(weights.len());
    assert(is_stable_order(weights, canonical));
    crate::order::lemma_stable_order_unique(weights, canonical, stable_order(weights));
    assert(canonical.map_values(|p: usize| symbol(p as int)) =~= symbols());
}

/// Calls `String::push`, of which vstd says nothing.
///
/// Trusted: the character is appended.
#[verifier::external_body]
fn push_char(text: &mut String, c: char)
    ensures
        final(text)@ == old(text)@.push(c),
{
    text.push(c)
}

/// The bytes of `bytes` in reverse order.
pub fn reversed(bytes: &[u8]) -> (back: Vec<u8>)
    ensures
        back@ == bytes@.reverse(),
{
    let mut back: Vec<u8> = Vec::new();
    let mut left: usize = bytes.len();
    while left > 0
        invariant
            left <= bytes@.len(),
            back@.len() == bytes@.len() - left,
            forall|k: int| 0 <= k < back@.len() ==> back@[k] == bytes@[bytes@.len() - 1 - k],
        decreases left,
    {
        left -= 1;
        back.push(bytes[left]);
    }
    assert(back@ =~= bytes@.reverse());
    back
}

/// The symbols, heaviest first; symbols of equal weight keep their canonical
/// order.
pub fn arrange(weights: &[u32; 64]) -> (alphabet: String)
    ensures
        alphabet@ == arrangement(weights@),
        is_arrangement(alphabet@),
        alphabet@.no_duplicates(),
{
    let order = sort_positions(array_as_slice(weights));
    let mut alphabet = String::new();
    let mut k: usize = 0;
    while k < order.len()
        invariant
            k <= order@.len(),
            order@.len() == SYMBOL_COUNT,
            forall|l: int| 0 <= l < order@.len() ==> (#[trigger] order@[l]) < SYMBOL_COUNT,
            alphabet@ == order@.take(k as int).map_values(|p: usize| symbol(p as int)),
        decreases order@.len() - k,
    {
        let c = symbol_at(order[k]);
        push_char(&mut alphabet, c);
        assert(alphabet@ =~= order@.take(k + 1).map_values(|p: usize| symbol(p as int)));
        k += 1;
    }
    proof {
        assert(order@.take(k as int) =~= order@);
        crate::order::lemma_map_to_multiset(
            order@,
            positions(SYMBOL_COUNT as nat),
            |p: usize| symbol(p as int),
        );
        assert(positions(SYMBOL_COUNT as nat).map_values(|p: usize| symbol(p as int))
            =~= symbols());
        lemma_arrangement_is_alphabet(alphabet@);
    }
    alphabet
}

} // verus!
