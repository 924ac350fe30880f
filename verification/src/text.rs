//! The operations of the standard library that the library relies on and
//! that come without a specification.
//!
//! The two functions that call them are not proved: each states what the
//! operation that it calls does.

use vstd::prelude::*;
use vstd::relations::sorted_by;

verus! {

/// The order of pairs of integers: by the first, and among pairs with the
/// same first by the second.
pub open spec fn pair_leq(x: (u64, usize), y: (u64, usize)) -> bool {
    x.0 < y.0 || (x.0 == y.0 && x.1 <= y.1)
}

/// `pair_leq` as a relation.
pub open spec fn pair_order() -> spec_fn((u64, usize), (u64, usize)) -> bool {
    |x: (u64, usize), y: (u64, usize)| pair_leq(x, y)
}

/// The digit `d` as a character.
pub open spec fn digit(d: nat) -> char {
    seq!['0', '1', '2', '3', '4', '5', '6', '7', '8', '9'][d as int]
}

/// The number `n` in decimal notation.
pub open spec fn decimal(n: nat) -> Seq<char>
    decreases n,
{
    if n < 10 {
        seq![digit(n)]
    } else {
        decimal(n / 10).push(digit(n % 10))
    }
}

/// The identifier of the premolecule of barcode `barcode` that spans the
/// positions from `begin` to `end` of contig `tig`: the four of them,
/// the numbers in decimal notation, with `_` in between.
pub open spec fn id_text(tig: Seq<char>, barcode: Seq<char>, begin: u64, end: u64) -> Seq<char> {
    tig + seq!['_'] + barcode + seq!['_'] + decimal(begin as nat) + seq!['_'] + decimal(end as nat)
}

/// `slice::sort` on pairs of integers: the same pairs in rising order.
#[verifier::external_body]
pub(crate) fn sort_pairs(pairs: &mut Vec<(u64, usize)>)
    ensures
        sorted_by(final(pairs)@, pair_order()),
        final(pairs)@.to_multiset() == old(pairs)@.to_multiset(),
{
    pairs.sort();
}

/// `format!` on two strings and two integers, each written as `{}`, with
/// `_` in between: the strings as they are, the integers in decimal
/// notation.
#[verifier::external_body]
pub(crate) fn format_id(tig: &str, barcode: &str, begin: u64, end: u64) -> (id: String)
    ensures
        id@ == id_text(tig@, barcode@, begin, end),
{
    format!("{}_{}_{}_{}", tig, barcode, begin, end)
}

} // verus!
