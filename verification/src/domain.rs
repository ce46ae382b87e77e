//! The domain interface: a fixed, ordered sequence of symbols.
//!
//! A domain assigns each symbol the bit index equal to its position in the
//! declaration order, fixes the backing word type, and names the set type.
//! [`Named`] extends a domain with an external identifier per symbol, for
//! the ordered-list codec and for full textual rendering; a domain whose
//! symbols have no such identifiers still supports the compact rendering.

use crate::repr::ReprWord;
use vstd::prelude::*;

verus! {

/// A finite, ordered domain of symbols, each owning one bit.
///
/// The positions `0 .. count()` and the symbols are in bijection:
/// `symbol_at` and `index_of` invert each other.  The domain has between 1
/// and 128 symbols, and its backing word is wide enough for all of them.
pub trait Domain: Copy + Sized {
    /// The unsigned integer type that backs a set over this domain.
    type Repr: ReprWord;

    /// The number of symbols in the domain.
    spec fn count() -> int;

    /// The bit index of this symbol: its position in declaration order.
    spec fn index_of(self) -> int;

    /// The symbol at a given position.
    spec fn symbol_at(i: int) -> Self;

    /// The display name of the set type over this domain.
    spec fn set_name() -> Seq<char>;

    /// The domain is not empty, has at most 128 symbols, and fits the
    /// backing word.
    proof fn count_valid()
        ensures
            1 <= Self::count() <= 128,
            Self::count() <= <Self::Repr as ReprWord>::width(),
    ;

    /// Every symbol's index lies within the domain.
    proof fn index_in_range(self)
        ensures
            0 <= self.index_of() < Self::count(),
    ;

    /// A symbol is recovered from its own index.
    proof fn symbol_at_index_of(self)
        ensures
            Self::symbol_at(self.index_of()) == self,
    ;

    /// The symbol at a position carries that position as its index.
    proof fn index_of_symbol_at(i: int)
        requires
            0 <= i < Self::count(),
        ensures
            Self::symbol_at(i).index_of() == i,
    ;

    /// The number of symbols, at run time.
    fn count_exec() -> (r: usize)
        ensures
            r as int == Self::count(),
    ;

    /// This symbol's bit index, at run time.
    fn index(&self) -> (r: usize)
        ensures
            r as int == self.index_of(),
    ;

    /// The symbol at position `i`, at run time.
    fn at_index(i: usize) -> (r: Self)
        requires
            i < Self::count(),
        ensures
            r == Self::symbol_at(i as int),
    ;

    /// The display name of the set type, at run time.
    fn set_name_exec() -> (r: String)
        ensures
            r@ == Self::set_name(),
    ;
}

/// A domain whose symbols carry external identifiers, as used by the
/// ordered-list codec and by full textual rendering.
pub trait Named: Domain {
    /// The external identifier of this symbol.
    spec fn name_of(self) -> Seq<char>;

    /// Identifiers identify: distinct symbols carry distinct names, as
    /// the variants of an enumeration carry distinct identifiers.
    proof fn names_injective(a: Self, b: Self)
        ensures
            a.name_of() == b.name_of() ==> a == b,
    ;

    /// The external identifier, at run time.
    fn name(&self) -> (r: String)
        ensures
            r@ == self.name_of(),
    ;
}

/// The set of all bit indices of a domain.
pub open spec fn domain_set<S: Domain>() -> Set<int> {
    Set::new(|i: int| 0 <= i < S::count())
}

} // verus!
