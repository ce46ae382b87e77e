//! The set type: a bit-packed set of a domain's symbols.
//!
//! A set stores one backing word and nothing else, so its layout is that
//! of the word.  The word is read through [`Bitset::word`]; the view of a
//! set is the set of bit positions at which the word is set.  A set built
//! by any constructor except [`Bitset::from_repr_unchecked`] is
//! well-formed: only positions below the domain size are set.

use crate::bits::{
    bit, bits_of, clear_bit, count_bits, lemma_bit_ops, lemma_bits_imply_bound,
    lemma_bound_implies_bits, lemma_mask_bits, lemma_mask_val_128, lemma_mask_val_mono,
    lemma_no_bits_zero, mask_val, set_bit, test_bit,
};
use crate::domain::{domain_set, Domain};
use crate::repr::ReprWord;
use vstd::prelude::*;

verus! {

broadcast use vstd::set::group_set_axioms;

/// A set of a domain's symbols, stored as one backing word.
///
/// Bit `i` of the word is set exactly when the symbol at position `i` of
/// the domain is a member.  Bits at or above the domain size are zero in
/// every well-formed set; only [`Bitset::from_repr_unchecked`] can break
/// that, and it places the burden on its caller.
#[derive(Clone, Copy)]
pub struct Bitset<S: Domain> {
    items: S::Repr,
}

impl<S: Domain> View for Bitset<S> {
    type V = Set<int>;

    open spec fn view(&self) -> Set<int> {
        bits_of(self.word())
    }
}

impl<S: Domain> Bitset<S> {
    /// The backing word of this set, read as a 128-bit value.
    pub closed spec fn word(self) -> u128 {
        self.items.value()
    }

    /// Well-formedness: every member's position lies within the domain.
    pub open spec fn wf(self) -> bool {
        self@.subset_of(domain_set::<S>())
    }

    /// The set with the given backing word value.  Private: callers go
    /// through the constructors.
    fn of_word(w: u128) -> (r: Self)
        requires
            w as nat <= mask_val(<S::Repr as ReprWord>::width() as nat),
        ensures
            r.word() == w,
    {
        Bitset { items: <S::Repr as ReprWord>::of_word(w) }
    }

    /// This set's word, raised to a `u128`.
    fn word_exec(&self) -> (w: u128)
        ensures
            w == self.word(),
    {
        self.items.to_word()
    }

    /// The backing integer itself, for the iterator to start from.
    pub(crate) fn backing(&self) -> (r: S::Repr)
        ensures
            r.value() == self.word(),
    {
        self.items
    }

    /// Creates a new empty set.
    pub fn new() -> (r: Self)
        ensures
            r@ == Set::<int>::empty(),
            r.wf(),
    {
        Self::empty()
    }

    /// Creates a new empty set.
    pub fn empty() -> (r: Self)
        ensures
            r@ == Set::<int>::empty(),
            r.wf(),
    {
        let r = Self::of_word(0);
        proof {
            assert forall|i: int| !(#[trigger] r@.contains(i)) by {
                if 0 <= i < 128 {
                    lemma_bit_ops(0, 0, i as u128);
                }
            }
            assert(r@ =~= Set::<int>::empty());
        }
        r
    }

    /// The word with one bit per symbol of the domain: the mask of the
    /// positions a well-formed set may use.
    pub fn mask() -> (r: S::Repr)
        ensures
            r.value() as nat == mask_val(S::count() as nat),
    {
        proof {
            S::count_valid();
            <S::Repr as ReprWord>::width_valid();
        }
        let n = S::count_exec();
        let mut w: u128 = 0;
        let mut i: usize = 0;
        while i < n
            invariant
                i <= n,
                n as int == S::count(),
                n <= 128,
                w as nat == mask_val(i as nat),
            decreases n - i,
        {
            proof {
                lemma_mask_val_mono((i + 1) as nat, 128);
                lemma_mask_val_128();
            }
            w = 2 * w + 1;
            i = i + 1;
        }
        proof {
            lemma_mask_val_mono(S::count() as nat, <S::Repr as ReprWord>::width() as nat);
        }
        <S::Repr as ReprWord>::of_word(w)
    }

    /// Creates a new set that contains every symbol of the domain.
    pub fn all() -> (r: Self)
        ensures
            r@ == domain_set::<S>(),
            r.wf(),
    {
        proof {
            S::count_valid();
            <S::Repr as ReprWord>::width_valid();
        }
        let m = Self::mask();
        let r = Bitset { items: m };
        proof {
            lemma_mask_val_mono(S::count() as nat, 128);
            lemma_mask_val_128();
            assert(r.word() == mask_val(S::count() as nat) as u128);
            assert forall|i: int| r@.contains(i) <==> #[trigger] domain_set::<S>().contains(i) by {
                if 0 <= i < 128 {
                    lemma_mask_bits(S::count() as nat, i as u128);
                }
            }
            assert(r@ =~= domain_set::<S>());
        }
        r
    }

    /// Returns `true` if the set is empty.
    pub fn is_empty(&self) -> (r: bool)
        ensures
            r == (self@ == Set::<int>::empty()),
    {
        let w = self.word_exec();
        proof {
            if w == 0 {
                assert forall|i: int| !(#[trigger] self@.contains(i)) by {
                    if 0 <= i < 128 {
                        lemma_bit_ops(0, 0, i as u128);
                    }
                }
                assert(self@ =~= Set::<int>::empty());
            } else {
                assert(self@.contains(lowest_set_index(w))) by {
                    lemma_nonzero_has_bit(w);
                }
            }
        }
        w == 0
    }

    /// Returns `true` if the set contains every symbol of the domain.
    pub fn is_all(&self) -> (r: bool)
        ensures
            r == (self@ == domain_set::<S>()),
    {
        proof {
            S::count_valid();
        }
        let w = self.word_exec();
        let m = Self::mask().to_word();
        proof {
            lemma_mask_val_mono(S::count() as nat, 128);
            lemma_mask_val_128();
            if w == m {
                assert forall|i: int| self@.contains(i) <==> #[trigger] domain_set::<S>().contains(
                    i,
                ) by {
                    if 0 <= i < 128 {
                        lemma_mask_bits(S::count() as nat, i as u128);
                    }
                }
                assert(self@ =~= domain_set::<S>());
            } else {
                if self@ == domain_set::<S>() {
                    assert forall|j: u128| j < 128 implies #[trigger] bit(w, j) == bit(m, j) by {
                        lemma_mask_bits(S::count() as nat, j);
                        assert(self@.contains(j as int) == domain_set::<S>().contains(j as int));
                    }
                    crate::bits::lemma_bit_ext(w, m);
                }
            }
        }
        w == m
    }

    /// Returns the number of symbols present in the set.
    pub fn len(&self) -> (r: usize)
        ensures
            r as nat == self@.len(),
    {
        count_bits(self.word_exec())
    }

    /// Returns `true` if the set contains the given symbol.
    pub fn contains(&self, item: S) -> (r: bool)
        ensures
            r == self@.contains(item.index_of()),
    {
        proof {
            item.index_in_range();
            S::count_valid();
        }
        let i = item.index();
        test_bit(self.word_exec(), i)
    }
}

impl<S: Domain> Bitset<S> {
    /// Creates a new set that contains all the symbols that are in either
    /// `self` or `other`, leaving both inputs unchanged.
    pub fn union(&self, other: &Self) -> (r: Self)
        ensures
            r@ == self@.union(other@),
            self.wf() && other.wf() ==> r.wf(),
    {
        let w = self.word_exec() | other.word_exec();
        proof {
            assert forall|j: u128| j < 128 implies #[trigger] bit(w, j) == (bit(self.word(), j)
                || bit(other.word(), j)) by {
                lemma_bit_ops(self.word(), other.word(), j);
            }
            lemma_op_fits(*self, *other, w);
            assert(bits_of(w) =~= self@.union(other@));
        }
        Self::of_word(w)
    }

    /// Creates a new set that contains all the symbols that are in both
    /// `self` and `other`, leaving both inputs unchanged.
    pub fn intersection(&self, other: &Self) -> (r: Self)
        ensures
            r@ == self@.intersect(other@),
            self.wf() && other.wf() ==> r.wf(),
    {
        let w = self.word_exec() & other.word_exec();
        proof {
            assert forall|j: u128| j < 128 implies #[trigger] bit(w, j) == (bit(self.word(), j)
                && bit(other.word(), j)) by {
                lemma_bit_ops(self.word(), other.word(), j);
            }
            lemma_op_fits(*self, *other, w);
            assert(bits_of(w) =~= self@.intersect(other@));
        }
        Self::of_word(w)
    }

    /// Creates a new set that contains all the symbols that are in `self`
    /// but not in `other`, leaving both inputs unchanged.
    pub fn difference(&self, other: &Self) -> (r: Self)
        ensures
            r@ == self@.difference(other@),
            self.wf() && other.wf() ==> r.wf(),
    {
        let w = self.word_exec() & !other.word_exec();
        proof {
            assert forall|j: u128| j < 128 implies #[trigger] bit(w, j) == (bit(self.word(), j)
                && !bit(other.word(), j)) by {
                lemma_bit_ops(other.word(), 0, j);
                lemma_bit_ops(self.word(), !other.word(), j);
            }
            lemma_op_fits(*self, *other, w);
            assert(bits_of(w) =~= self@.difference(other@));
        }
        Self::of_word(w)
    }

    /// Creates a new set that contains all the symbols that are in exactly
    /// one of `self` and `other`, leaving both inputs unchanged.
    pub fn symmetric_difference(&self, other: &Self) -> (r: Self)
        ensures
            r@ == self@.difference(other@).union(other@.difference(self@)),
            self.wf() && other.wf() ==> r.wf(),
    {
        let w = self.word_exec() ^ other.word_exec();
        proof {
            assert forall|j: u128| j < 128 implies #[trigger] bit(w, j) == (bit(self.word(), j)
                != bit(other.word(), j)) by {
                lemma_bit_ops(self.word(), other.word(), j);
            }
            lemma_op_fits(*self, *other, w);
            assert(bits_of(w) =~= self@.difference(other@).union(other@.difference(self@)));
        }
        Self::of_word(w)
    }

    /// Creates a new set that contains all the symbols of the domain that
    /// are not in `self`, leaving the input unchanged.
    pub fn complement(&self) -> (r: Self)
        ensures
            r@ == domain_set::<S>().difference(self@),
            r.wf(),
    {
        proof {
            S::count_valid();
            <S::Repr as ReprWord>::width_valid();
            lemma_mask_val_mono(S::count() as nat, 128);
            lemma_mask_val_128();
        }
        let m = Self::mask().to_word();
        let w = m & !self.word_exec();
        proof {
            assert forall|j: u128| j < 128 implies #[trigger] bit(w, j) == (j < S::count()
                && !bit(self.word(), j)) by {
                lemma_bit_ops(self.word(), 0, j);
                lemma_bit_ops(m, !self.word(), j);
                lemma_mask_bits(S::count() as nat, j);
            }
            assert forall|j: u128|
                <S::Repr as ReprWord>::width() <= j < 128 implies !(#[trigger] bit(w, j)) by {}
            lemma_bits_imply_bound(w, <S::Repr as ReprWord>::width() as nat);
            assert(bits_of(w) =~= domain_set::<S>().difference(self@));
        }
        Self::of_word(w)
    }

    /// Returns `true` if every member of `self` is a member of `other`.
    pub fn is_subset_of(&self, other: &Self) -> (r: bool)
        ensures
            r == self@.subset_of(other@),
    {
        let a = self.word_exec();
        let b = other.word_exec();
        let r = (a & b) == a;
        proof {
            assert forall|j: u128| j < 128 implies #[trigger] bit(a & b, j) == (bit(a, j) && bit(
                b,
                j,
            )) by {
                lemma_bit_ops(a, b, j);
            }
            if r {
                assert forall|i: int| self@.contains(i) implies other@.contains(i) by {
                    assert(bit(a & b, i as u128) == bit(a, i as u128));
                }
            } else {
                if self@.subset_of(other@) {
                    assert forall|j: u128| j < 128 implies #[trigger] bit(a & b, j) == bit(
                        a,
                        j,
                    ) by {
                        if bit(a, j) {
                            assert(self@.contains(j as int));
                        }
                    }
                    crate::bits::lemma_bit_ext(a & b, a);
                }
            }
        }
        r
    }

    /// Returns `true` if every member of `other` is a member of `self`.
    pub fn is_superset_of(&self, other: &Self) -> (r: bool)
        ensures
            r == other@.subset_of(self@),
    {
        other.is_subset_of(self)
    }

    /// Returns `true` if `self` and `other` have no member in common.
    pub fn is_disjoint(&self, other: &Self) -> (r: bool)
        ensures
            r == self@.disjoint(other@),
    {
        let a = self.word_exec();
        let b = other.word_exec();
        let w = a & b;
        let r = w == 0;
        proof {
            assert forall|j: u128| j < 128 implies #[trigger] bit(w, j) == (bit(a, j) && bit(
                b,
                j,
            )) by {
                lemma_bit_ops(a, b, j);
            }
            if r {
                assert forall|i: int| self@.contains(i) implies !other@.contains(i) by {
                    lemma_bit_ops(0, 0, i as u128);
                }
            } else {
                lemma_nonzero_has_bit(w);
                let i = lowest_set_index(w);
                assert(self@.contains(i) && other@.contains(i));
            }
        }
        r
    }

    /// Returns `true` if `self` and `other` are complementary: disjoint,
    /// with every symbol of the domain in one of the two.
    pub fn is_complementary(&self, other: &Self) -> (r: bool)
        ensures
            r == (self@.disjoint(other@) && self@.union(other@) == domain_set::<S>()),
    {
        let disjoint = self.is_disjoint(other);
        let covers = self.union(other).is_all();
        disjoint && covers
    }

    /// Inserts a symbol into the set.
    pub fn insert(&mut self, item: S)
        ensures
            final(self)@ == old(self)@.insert(item.index_of()),
            old(self).wf() ==> final(self).wf(),
    {
        proof {
            item.index_in_range();
            S::count_valid();
            <S::Repr as ReprWord>::width_valid();
            old(self).items.value_bound();
        }
        let i = item.index();
        let w = set_bit(self.word_exec(), i);
        proof {
            let wd = <S::Repr as ReprWord>::width() as nat;
            lemma_bound_implies_bits(self.word(), wd);
            assert forall|j: u128| wd <= j < 128 implies !(#[trigger] bit(w, j)) by {}
            lemma_bits_imply_bound(w, wd);
        }
        self.items = <S::Repr as ReprWord>::of_word(w);
        proof {
            assert(final(self)@ =~= old(self)@.insert(item.index_of()));
        }
    }

    /// Removes a symbol from the set; removing an absent symbol changes
    /// nothing.
    pub fn remove(&mut self, item: S)
        ensures
            final(self)@ == old(self)@.remove(item.index_of()),
            old(self).wf() ==> final(self).wf(),
    {
        proof {
            item.index_in_range();
            S::count_valid();
            <S::Repr as ReprWord>::width_valid();
            old(self).items.value_bound();
        }
        let i = item.index();
        let w = clear_bit(self.word_exec(), i);
        proof {
            let wd = <S::Repr as ReprWord>::width() as nat;
            lemma_bound_implies_bits(self.word(), wd);
            assert forall|j: u128| wd <= j < 128 implies !(#[trigger] bit(w, j)) by {}
            lemma_bits_imply_bound(w, wd);
        }
        self.items = <S::Repr as ReprWord>::of_word(w);
        proof {
            assert(final(self)@ =~= old(self)@.remove(item.index_of()));
        }
    }

    /// A copy of the set with the given symbol inserted.
    pub fn with(&self, item: S) -> (r: Self)
        ensures
            r@ == self@.insert(item.index_of()),
            self.wf() ==> r.wf(),
    {
        let mut r = *self;
        r.insert(item);
        r
    }

    /// A copy of the set with the given symbol removed.
    pub fn without(&self, item: S) -> (r: Self)
        ensures
            r@ == self@.remove(item.index_of()),
            self.wf() ==> r.wf(),
    {
        let mut r = *self;
        r.remove(item);
        r
    }
}

impl<S: Domain> Bitset<S> {
    /// Validity of a raw representation: no bit outside the domain is set.
    pub open spec fn valid_repr(w: u128) -> bool {
        bits_of(w).subset_of(domain_set::<S>())
    }

    /// Returns the integer representation of the set.  Bit `i` of the
    /// result carries the symbol at position `i` of the domain.
    pub fn to_repr(&self) -> (r: S::Repr)
        ensures
            r.value() == self.word(),
    {
        self.items
    }

    /// Checks whether the provided value is a valid representation: one
    /// with no bit outside the domain's positions.
    pub fn is_valid_repr(repr: S::Repr) -> (r: bool)
        ensures
            r == Self::valid_repr(repr.value()),
    {
        proof {
            S::count_valid();
        }
        let w = repr.to_word();
        let m = Self::mask().to_word();
        let masked = w & m;
        let r = masked == w;
        proof {
            lemma_mask_val_mono(S::count() as nat, 128);
            lemma_mask_val_128();
            assert forall|j: u128| j < 128 implies #[trigger] bit(masked, j) == (bit(w, j) && j
                < S::count()) by {
                lemma_bit_ops(w, m, j);
                lemma_mask_bits(S::count() as nat, j);
            }
            if r {
                assert forall|i: int| bits_of(w).contains(i) implies domain_set::<S>().contains(
                    i,
                ) by {
                    assert(bit(masked, i as u128) == bit(w, i as u128));
                }
            } else {
                if Self::valid_repr(repr.value()) {
                    assert forall|j: u128| j < 128 implies #[trigger] bit(masked, j) == bit(
                        w,
                        j,
                    ) by {
                        if bit(w, j) {
                            assert(bits_of(w).contains(j as int));
                        }
                    }
                    crate::bits::lemma_bit_ext(masked, w);
                }
            }
        }
        r
    }

    /// Creates a new set from an integer read as a bitset.  Returns
    /// nothing, and no partial result, when any bit that corresponds to no
    /// symbol is set.
    pub fn from_repr(repr: S::Repr) -> (r: Option<Self>)
        ensures
            r is Some <==> Self::valid_repr(repr.value()),
            r is Some ==> r->Some_0.word() == repr.value() && r->Some_0.wf(),
    {
        if Self::is_valid_repr(repr) {
            Some(Bitset { items: repr })
        } else {
            None
        }
    }

    /// Creates a new set from an integer read as a bitset, without
    /// checking it.
    ///
    /// The caller must guarantee [`Bitset::valid_repr`] of the value: it
    /// is stored verbatim, so a bit outside the domain breaks the set's
    /// well-formedness, and later queries, lengths and iterations read
    /// those stray bits as if they were members.  This is the single
    /// invariant-breaking entry point of the type; every other constructor
    /// masks or rejects stray bits.
    pub fn from_repr_unchecked(repr: S::Repr) -> (r: Self)
        requires
            Self::valid_repr(repr.value()),
        ensures
            r.word() == repr.value(),
            r.wf(),
    {
        Bitset { items: repr }
    }

    /// Creates a new set from an integer read as a bitset, silently
    /// discarding the bits that correspond to no symbol.
    pub fn from_repr_masked(repr: S::Repr) -> (r: Self)
        ensures
            r@ == bits_of(repr.value()).intersect(domain_set::<S>()),
            r.wf(),
    {
        proof {
            S::count_valid();
            <S::Repr as ReprWord>::width_valid();
            repr.value_bound();
        }
        let w = repr.to_word();
        let m = Self::mask().to_word();
        let kept = w & m;
        proof {
            lemma_mask_val_mono(S::count() as nat, 128);
            lemma_mask_val_128();
            assert forall|j: u128| j < 128 implies #[trigger] bit(kept, j) == (bit(w, j) && j
                < S::count()) by {
                lemma_bit_ops(w, m, j);
                lemma_mask_bits(S::count() as nat, j);
            }
            let wd = <S::Repr as ReprWord>::width() as nat;
            lemma_bound_implies_bits(w, wd);
            assert forall|j: u128| wd <= j < 128 implies !(#[trigger] bit(kept, j)) by {}
            lemma_bits_imply_bound(kept, wd);
            assert(bits_of(kept) =~= bits_of(w).intersect(domain_set::<S>()));
        }
        Self::of_word(kept)
    }

    /// Creates a new set from an integer read as a bitset, discarding the
    /// bits that correspond to no symbol and returning them beside the
    /// set: exactly the stray bits of the input are set in the second
    /// component.
    pub fn from_repr_discarded(repr: S::Repr) -> (r: (Self, S::Repr))
        ensures
            r.0@ == bits_of(repr.value()).intersect(domain_set::<S>()),
            r.0.wf(),
            bits_of(r.1.value()) == bits_of(repr.value()).difference(domain_set::<S>()),
    {
        proof {
            S::count_valid();
            <S::Repr as ReprWord>::width_valid();
            repr.value_bound();
        }
        let kept_set = Self::from_repr_masked(repr);
        let w = repr.to_word();
        let m = Self::mask().to_word();
        let stray = w & !m;
        proof {
            lemma_mask_val_mono(S::count() as nat, 128);
            lemma_mask_val_128();
            assert forall|j: u128| j < 128 implies #[trigger] bit(stray, j) == (bit(w, j) && !(j
                < S::count())) by {
                lemma_bit_ops(m, 0, j);
                lemma_bit_ops(w, !m, j);
                lemma_mask_bits(S::count() as nat, j);
            }
            let wd = <S::Repr as ReprWord>::width() as nat;
            lemma_bound_implies_bits(w, wd);
            assert forall|j: u128| wd <= j < 128 implies !(#[trigger] bit(stray, j)) by {}
            lemma_bits_imply_bound(stray, wd);
            assert(bits_of(stray) =~= bits_of(w).difference(domain_set::<S>()));
        }
        (kept_set, <S::Repr as ReprWord>::of_word(stray))
    }
}

/// The set of bit indices named by a sequence of symbols, in any order and
/// with any multiplicity.
pub open spec fn index_set<S: Domain>(s: Seq<S>) -> Set<int> {
    Set::new(|i: int| exists|k: int| 0 <= k < s.len() && (#[trigger] s[k]).index_of() == i)
}

/// Appending one symbol to a sequence adds exactly its index to the
/// indices the sequence names.
pub proof fn lemma_index_set_push<S: Domain>(t: Seq<S>, x: S)
    ensures
        index_set::<S>(t.push(x)) == index_set::<S>(t).insert(x.index_of()),
{
    let lhs = index_set::<S>(t.push(x));
    let rhs = index_set::<S>(t).insert(x.index_of());
    assert forall|i: int| lhs.contains(i) implies rhs.contains(i) by {
        let k = choose|k: int| 0 <= k < t.push(x).len() && (#[trigger] t.push(x)[k]).index_of()
            == i;
        if k < t.len() {
            assert(t[k] == t.push(x)[k]);
            assert(index_set::<S>(t).contains(i));
        } else {
            assert(t.push(x)[k] == x);
        }
    }
    assert forall|i: int| rhs.contains(i) implies lhs.contains(i) by {
        if index_set::<S>(t).contains(i) {
            let k = choose|k: int| 0 <= k < t.len() && (#[trigger] t[k]).index_of() == i;
            assert(t.push(x)[k] == t[k]);
        } else {
            assert(i == x.index_of());
            assert(t.push(x)[t.len() as int] == x);
        }
    }
    assert(lhs =~= rhs);
}

/// A sequence of symbols names only positions of the domain.
pub proof fn lemma_index_set_wf<S: Domain>(s: Seq<S>)
    ensures
        index_set::<S>(s).subset_of(domain_set::<S>()),
{
    assert forall|i: int| index_set::<S>(s).contains(i) implies domain_set::<S>().contains(i) by {
        let k = choose|k: int| 0 <= k < s.len() && (#[trigger] s[k]).index_of() == i;
        s[k].index_in_range();
    }
}

impl<S: Domain> Bitset<S> {
    /// Creates a new set holding exactly the symbols of the slice.
    /// Duplicates are idempotent and the order does not matter.
    pub fn from_slice(slice: &[S]) -> (r: Self)
        ensures
            r@ == index_set::<S>(slice@),
            r.wf(),
    {
        let mut r = Self::empty();
        let mut k: usize = 0;
        proof {
            assert(index_set::<S>(slice@.take(0)) =~= Set::<int>::empty());
        }
        while k < slice.len()
            invariant
                k <= slice@.len(),
                r@ == index_set::<S>(slice@.take(k as int)),
                r.wf(),
            decreases slice@.len() - k,
        {
            proof {
                assert(slice@.take(k + 1) =~= slice@.take(k as int).push(slice@[k as int]));
                lemma_index_set_push(slice@.take(k as int), slice@[k as int]);
            }
            r.insert(slice[k]);
            k = k + 1;
        }
        proof {
            assert(slice@.take(slice@.len() as int) =~= slice@);
        }
        r
    }

    /// Creates a new set holding exactly the symbols of the array.
    /// Duplicates are idempotent and the order does not matter.
    pub fn from<const N: usize>(symbols: [S; N]) -> (r: Self)
        ensures
            r@ == index_set::<S>(symbols@),
            r.wf(),
    {
        Self::from_slice(symbols.as_slice())
    }

    /// Creates a new set holding exactly the symbols of the array.
    /// Duplicates are idempotent and the order does not matter.
    pub fn from_array<const N: usize>(symbols: [S; N]) -> (r: Self)
        ensures
            r@ == index_set::<S>(symbols@),
            r.wf(),
    {
        Self::from_slice(symbols.as_slice())
    }

    /// Inserts every symbol of the slice into the set.  Duplicates are
    /// idempotent and the order does not matter.
    pub fn extend_from_slice(&mut self, symbols: &[S])
        ensures
            final(self)@ == old(self)@.union(index_set::<S>(symbols@)),
            old(self).wf() ==> final(self).wf(),
    {
        let more = Self::from_slice(symbols);
        let joined = self.union(&more);
        proof {
            lemma_index_set_wf::<S>(symbols@);
        }
        *self = joined;
    }

    /// Creates the singleton set of one symbol.
    pub fn from_symbol(item: S) -> (r: Self)
        ensures
            r@ == Set::<int>::empty().insert(item.index_of()),
            r.wf(),
    {
        Self::empty().with(item)
    }
}

impl<S: Domain> PartialEq for Bitset<S> {
    /// Two sets are equal exactly when their backing words are: a set has
    /// no identity beyond its bit pattern.
    fn eq(&self, other: &Self) -> (r: bool) {
        proof {
            if self.word() == other.word() {
                self.items.value_injective(other.items);
            }
        }
        self.items.to_word() == other.items.to_word()
    }
}

impl<S: Domain> Eq for Bitset<S> {

}

impl<S: Domain> vstd::std_specs::cmp::PartialEqSpecImpl for Bitset<S> {
    open spec fn obeys_eq_spec() -> bool {
        true
    }

    open spec fn eq_spec(&self, other: &Self) -> bool {
        *self == *other
    }
}

impl<S: Domain> From<S> for Bitset<S> {
    /// A symbol converts into the singleton set holding it.
    fn from(item: S) -> (r: Self) {
        let r = Self::from_symbol(item);
        proof {
            let picked = choose|b: Bitset<S>|
                b@ == Set::<int>::empty().insert(item.index_of());
            assert(exists|b: Bitset<S>| b@ == Set::<int>::empty().insert(item.index_of())) by {
                assert(r@ == Set::<int>::empty().insert(item.index_of()));
            }
            lemma_view_determines(r, picked);
        }
        r
    }
}

impl<S: Domain> vstd::std_specs::convert::FromSpecImpl<S> for Bitset<S> {
    open spec fn obeys_from_spec() -> bool {
        true
    }

    open spec fn from_spec(item: S) -> Self {
        choose|b: Bitset<S>| b@ == Set::<int>::empty().insert(item.index_of())
    }
}

impl<S: Domain> Default for Bitset<S> {
    /// The default set is empty.
    fn default() -> (r: Self)
        ensures
            r@ == Set::<int>::empty(),
            r.wf(),
    {
        Bitset::empty()
    }
}

/// Two sets with the same view are the same set: the view determines the
/// backing word, and the word determines the set.
pub proof fn lemma_view_determines<S: Domain>(a: Bitset<S>, b: Bitset<S>)
    requires
        a@ == b@,
    ensures
        a == b,
{
    assert forall|j: u128| j < 128 implies #[trigger] bit(a.word(), j) == bit(b.word(), j) by {
        assert(bit(a.word(), j) == a@.contains(j as int));
        assert(bit(b.word(), j) == b@.contains(j as int));
        assert(a@.contains(j as int) == b@.contains(j as int));
    }
    crate::bits::lemma_bit_ext(a.word(), b.word());
    a.items.value_injective(b.items);
}

/// Any word whose bits all come from two sets' words fits their common
/// backing width.
proof fn lemma_op_fits<S: Domain>(a: Bitset<S>, b: Bitset<S>, w: u128)
    requires
        forall|j: u128|
            j < 128 ==> (#[trigger] bit(w, j) ==> bit(a.word(), j) || bit(b.word(), j)),
    ensures
        w as nat <= mask_val(<S::Repr as ReprWord>::width() as nat),
{
    <S::Repr as ReprWord>::width_valid();
    a.items.value_bound();
    b.items.value_bound();
    let wd = <S::Repr as ReprWord>::width() as nat;
    lemma_bound_implies_bits(a.word(), wd);
    lemma_bound_implies_bits(b.word(), wd);
    assert forall|j: u128| wd <= j < 128 implies !(#[trigger] bit(w, j)) by {}
    lemma_bits_imply_bound(w, wd);
}

/// The least position at which `w` has a set bit, for nonzero `w`.
spec fn lowest_set_index(w: u128) -> int {
    choose|i: int| 0 <= i < 128 && #[trigger] bit(w, i as u128)
}

/// A nonzero word has a set bit.
proof fn lemma_nonzero_has_bit(w: u128)
    requires
        w != 0,
    ensures
        0 <= lowest_set_index(w) < 128 && bit(w, lowest_set_index(w) as u128),
{
    assert(exists|j: u128| j < 128 && #[trigger] bit(w, j)) by {
        if forall|j: u128| j < 128 ==> !(#[trigger] bit(w, j)) {
            lemma_no_bits_zero(w);
            assert(false);
        }
    }
    let j0 = choose|j: u128| j < 128 && #[trigger] bit(w, j);
    assert(0 <= (j0 as int) && (j0 as int) < 128 && bit(w, (j0 as int) as u128));
    assert(exists|i: int| 0 <= i < 128 && #[trigger] bit(w, i as u128));
}

} // verus!
