//! Iteration over a set's members, in domain order.
//!
//! An iterator holds a copy of the set's backing word and clears bits from
//! the least significant end as it yields, so symbols come out in
//! ascending bit-index order — the domain's declaration order — whatever
//! the order of insertion was.

use crate::bits::{
    bit, bits_of, clear_bit, count_bits, indices_from, lemma_bit_ops, lemma_bits_imply_bound,
    lemma_bits_of_is_below, lemma_bound_implies_bits, lemma_indices_clear_below,
    lemma_indices_congruent, lemma_indices_first, lemma_indices_len, lowest_bit,
};
use crate::domain::{domain_set, Domain};
use crate::repr::ReprWord;
use crate::set::Bitset;
use vstd::prelude::*;

verus! {

broadcast use vstd::set::group_set_axioms;

/// An iterator over the symbols contained in a [`Bitset`], yielded in the
/// order in which they stand in the domain, regardless of insertion order.
pub struct BitsetIter<S: Domain> {
    items: S::Repr,
}

impl<S: Domain> BitsetIter<S> {
    /// The word holding the bits not yet yielded.
    pub closed spec fn word(self) -> u128 {
        self.items.value()
    }

    /// The positions not yet yielded, in ascending order.
    pub open spec fn remaining_indices(self) -> Seq<int> {
        indices_from(self.word(), 0)
    }

    /// Well-formedness: every remaining position lies within the domain.
    pub open spec fn wf(self) -> bool {
        bits_of(self.word()).subset_of(domain_set::<S>())
    }
}

/// An iterator never has more than 128 symbols left: one per possible
/// bit.
pub proof fn lemma_remaining_bounded<S: Domain>(it: BitsetIter<S>)
    ensures
        it@.len() <= 128,
{
    lemma_indices_len(it.word(), 0);
    assert(crate::bits::bits_below(it.word(), 0) =~= Set::<int>::empty());
    lemma_bits_of_is_below(it.word());
}

impl<S: Domain> View for BitsetIter<S> {
    type V = Seq<S>;

    /// The symbols not yet yielded, in domain order.
    open spec fn view(&self) -> Seq<S> {
        self.remaining_indices().map_values(|i: int| S::symbol_at(i))
    }
}

impl<S: Domain> Bitset<S> {
    /// The members of this set as a sequence, in domain order.
    pub open spec fn to_seq(self) -> Seq<S> {
        indices_from(self.word(), 0).map_values(|i: int| S::symbol_at(i))
    }

    /// Returns an iterator over the symbols contained in the set, in
    /// domain order.
    pub fn iter(&self) -> (r: BitsetIter<S>)
        ensures
            r@ == self.to_seq(),
            self.wf() ==> r.wf(),
    {
        BitsetIter { items: self.backing() }
    }
}

impl<S: Domain> BitsetIter<S> {
    /// Yields the next symbol: the one at the lowest remaining position.
    ///
    /// The iterator must be well-formed; one obtained from a set whose
    /// invariant was broken by an unchecked construction may hold a
    /// position that names no symbol.
    pub fn next(&mut self) -> (r: Option<S>)
        requires
            old(self).wf(),
        ensures
            final(self).wf(),
            r is Some <==> old(self)@.len() > 0,
            old(self)@.len() == 0 ==> final(self)@ == old(self)@,
            old(self)@.len() > 0 ==> r == Some(old(self)@[0]) && final(self)@ == old(
                self,
            )@.drop_first(),
    {
        let w = self.items.to_word();
        proof {
            lemma_indices_len(w, 0);
            assert(crate::bits::bits_below(w, 0) =~= Set::<int>::empty());
        }
        if w == 0 {
            proof {
                assert forall|j: u128| 0 <= j < 128 implies !(#[trigger] bit(w, j)) by {
                    lemma_bit_ops(0, 0, j);
                }
                lemma_indices_clear_below(w, 0, 128);
                assert(old(self)@.len() == 0);
            }
            return None;
        }
        let j0 = lowest_bit(w);
        proof {
            lemma_bits_of_is_below(w);
            assert(bits_of(w).contains(j0 as int));
            assert(old(self)@.len() > 0) by {
                vstd::set::axiom_set_contains_len(bits_of(w), j0 as int);
            }
            assert(domain_set::<S>().contains(j0 as int));
            S::count_valid();
        }
        let sym = S::at_index(j0);
        let w2 = clear_bit(w, j0);
        proof {
            <S::Repr as ReprWord>::width_valid();
            self.items.value_bound();
            let wd = <S::Repr as ReprWord>::width() as nat;
            lemma_bound_implies_bits(w, wd);
            assert forall|j: u128| wd <= j < 128 implies !(#[trigger] bit(w2, j)) by {}
            lemma_bits_imply_bound(w2, wd);
        }
        self.items = <S::Repr as ReprWord>::of_word(w2);
        proof {
            lemma_indices_first(w, j0 as int);
            lemma_indices_clear_below(w2, 0, j0 as int + 1);
            lemma_indices_congruent(w2, w, j0 as int + 1);
            assert(indices_from(w, 0) == seq![j0 as int] + indices_from(w, j0 as int + 1));
            assert(indices_from(w2, 0) =~= indices_from(w, 0).drop_first());
            assert(old(self)@[0] == S::symbol_at(j0 as int));
            assert(final(self)@ =~= old(self)@.drop_first());
            assert(final(self).wf()) by {
                assert forall|i: int| bits_of(w2).contains(i) implies domain_set::<S>().contains(
                    i,
                ) by {
                    assert(bits_of(w).contains(i));
                }
            }
        }
        Some(sym)
    }

    /// An exact hint: how many symbols remain, as both bounds.
    pub fn size_hint(&self) -> (r: (usize, Option<usize>))
        ensures
            r.0 as nat == self@.len(),
            r.1 == Some(r.0),
    {
        let n = count_bits(self.items.to_word());
        proof {
            lemma_indices_len(self.word(), 0);
            assert(crate::bits::bits_below(self.word(), 0) =~= Set::<int>::empty());
        }
        (n, Some(n))
    }

    /// How many symbols remain, without walking them one by one.
    pub fn count(self) -> (r: usize)
        ensures
            r as nat == self@.len(),
    {
        let n = count_bits(self.items.to_word());
        proof {
            lemma_indices_len(self.word(), 0);
            assert(crate::bits::bits_below(self.word(), 0) =~= Set::<int>::empty());
        }
        n
    }
}

impl<S: Domain> Bitset<S> {
    /// Collects the members of the set into a vector, in domain order.
    pub fn collect(&self) -> (r: Vec<S>)
        requires
            self.wf(),
        ensures
            r@ == self.to_seq(),
    {
        let mut it = self.iter();
        let mut v: Vec<S> = Vec::new();
        proof {
            assert(v@ + it@ =~= self.to_seq());
        }
        loop
            invariant
                it.wf(),
                v@ + it@ == self.to_seq(),
            ensures
                it@.len() == 0,
                v@ + it@ == self.to_seq(),
            decreases it@.len(),
        {
            let step = it.next();
            match step {
                None => {
                    break ;
                },
                Some(sym) => {
                    v.push(sym);
                    proof {
                        assert(v@ + it@ =~= self.to_seq());
                    }
                },
            }
        }
        proof {
            assert(v@ =~= self.to_seq());
        }
        v
    }

    /// The symbols of the whole domain, in declaration order.
    pub fn variants() -> (r: Vec<S>)
        ensures
            r@.len() == S::count(),
            forall|i: int| 0 <= i < S::count() ==> r@[i] == S::symbol_at(i),
    {
        proof {
            S::count_valid();
        }
        let n = S::count_exec();
        let mut v: Vec<S> = Vec::new();
        let mut i: usize = 0;
        while i < n
            invariant
                i <= n,
                n as int == S::count(),
                v@.len() == i,
                forall|k: int| 0 <= k < i ==> v@[k] == S::symbol_at(k),
            decreases n - i,
        {
            v.push(S::at_index(i));
            i = i + 1;
        }
        v
    }
}

} // verus!
