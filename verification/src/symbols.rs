//! The 64 symbols and what it means to arrange them.

use vstd::prelude::*;
use vstd::seq_lib::*;

verus! {

/// Number of symbols in an alphabet.
pub const SYMBOL_COUNT: usize = 64;

/// The padding character of radix-64 texts. It is never a symbol.
pub const PAD: char = '=';

/// The symbol at position `i` of the canonical order: `A-Z`, `a-z`, `0-9`, `-`, `_`.
pub open spec fn symbol(i: int) -> char {
    if i < 26 {
        ('A' as int + i) as char
    } else if i < 52 {
        ('a' as int + (i - 26)) as char
    } else if i < 62 {
        ('0' as int + (i - 52)) as char
    } else if i == 62 {
        '-'
    } else {
        '_'
    }
}

/// The canonical order as a sequence.
pub open spec fn symbols() -> Seq<char> {
    Seq::new(SYMBOL_COUNT as nat, |i: int| symbol(i))
}

/// `a` holds the canonical symbols, each once, in some order.
pub open spec fn is_arrangement(a: Seq<char>) -> bool {
    a.to_multiset() == symbols().to_multiset()
}

/// What the radix-64 engine takes for an alphabet: 64 printable ASCII
/// characters, none of them the padding character, no two alike.
pub open spec fn is_alphabet(a: Seq<char>) -> bool {
    &&& a.len() == SYMBOL_COUNT
    &&& forall|i: int| 0 <= i < a.len() ==> 32 <= (#[trigger] a[i]) as int <= 126 && a[i] != PAD
    &&& forall|i: int, j: int| 0 <= i < j < a.len() ==> a[i] != a[j]
}

/// Every arrangement of the symbols is an alphabet.
pub proof fn lemma_arrangement_is_alphabet(a: Seq<char>)
    requires
        is_arrangement(a),
    ensures
        is_alphabet(a),
{
    broadcast use group_to_multiset_ensures;

    let all = symbols();
    to_multiset_len(a);
    to_multiset_len(all);
    assert forall|i: int| 0 <= i < a.len() implies 32 <= (#[trigger] a[i]) as int <= 126 && a[i]
        != PAD by {
        assert(a.contains(a[i]));
        assert(all.to_multiset().count(a[i]) > 0);
        assert(all.contains(a[i]));
    }
    assert(all.no_duplicates());
    all.lemma_multiset_has_no_duplicates();
    a.lemma_multiset_has_no_duplicates_conv();
}

/// Computes [`symbol`].
pub fn symbol_at(i: usize) -> (c: char)
    requires
        i < SYMBOL_COUNT,
    ensures
        c == symbol(i as int),
{
    if i < 26 {
        (65u8 + i as u8) as char
    } else if i < 52 {
        (97u8 + (i - 26) as u8) as char
    } else if i < 62 {
        (48u8 + (i - 52) as u8) as char
    } else if i == 62 {
        '-'
    } else {
        '_'
    }
}

/// The canonical order, spelled out.
pub proof fn lemma_symbols_spelled_out()
    ensures
        symbols() == "ABCDEFGHIJKLMNOPQRSTUVWXYZabcdefghijklmnopqrstuvwxyz0123456789-_"@,
{
    reveal_strlit("ABCDEFGHIJKLMNOPQRSTUVWXYZabcdefghijklmnopqrstuvwxyz0123456789-_");
    assert(symbols() =~= "ABCDEFGHIJKLMNOPQRSTUVWXYZabcdefghijklmnopqrstuvwxyz0123456789-_"@);
}

} // verus!
