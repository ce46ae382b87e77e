//! The laws of the set type, stated over its contracts and proved once
//! for every domain.
//!
//! Each law takes the values that the operations' own `ensures` describe
//! and pins down how they relate: commutativity of the algebra,
//! idempotence of insertion, the exactness of the representation and
//! list codecs, and the order of iteration.

use crate::bits::{lemma_bits_of_is_below, lemma_indices_len, lemma_indices_props};
use crate::codec::{named_index_set, some_symbol_named};
use crate::domain::{domain_set, Domain, Named};
use crate::repr::ReprWord;
use crate::set::{lemma_view_determines, Bitset};
use vstd::prelude::*;
use vstd::set_lib::{lemma_int_range, lemma_len_subset, set_int_range};

verus! {

broadcast use vstd::set::group_set_axioms;

/// For every domain, the mask holds exactly the low `count` bits: its
/// value is one less than two to the domain size.
pub proof fn lemma_mask_value<S: Domain>()
    ensures
        crate::bits::mask_val(S::count() as nat) == vstd::arithmetic::power2::pow2(
            S::count() as nat,
        ) - 1,
{
    crate::bits::lemma_mask_val_pow2(S::count() as nat);
}

/// The domain's index set is finite and holds one position per symbol.
pub proof fn lemma_domain_set_len<S: Domain>()
    ensures
        domain_set::<S>().finite(),
        domain_set::<S>().len() == S::count(),
{
    S::count_valid();
    assert(domain_set::<S>() =~= set_int_range(0, S::count()));
    lemma_int_range(0, S::count());
}

/// A set's view is finite and never exceeds the width of a word.
pub proof fn lemma_view_finite<S: Domain>(b: Bitset<S>)
    ensures
        b@.finite(),
        b@.len() <= 128,
{
    lemma_bits_of_is_below(b.word());
}

/// Emptiness and fullness agree with the length: a set is empty exactly
/// when it has no members, and a well-formed set is full exactly when it
/// has one member per symbol of the domain.
pub proof fn lemma_len_agrees<S: Domain>(b: Bitset<S>)
    ensures
        (b@ == Set::<int>::empty()) <==> b@.len() == 0,
        (b@ == domain_set::<S>()) ==> b@.len() == S::count(),
        b.wf() && b@.len() == S::count() ==> b@ == domain_set::<S>(),
{
    lemma_view_finite(b);
    lemma_domain_set_len::<S>();
    if b@.len() == 0 {
        b@.lemma_len0_is_empty();
    }
    if b.wf() && b@.len() == S::count() && b@ != domain_set::<S>() {
        let missing = choose|i: int| domain_set::<S>().contains(i) && !b@.contains(i);
        assert(exists|i: int| domain_set::<S>().contains(i) && !(#[trigger] b@.contains(i))) by {
            assert(!(b@ =~= domain_set::<S>()));
        }
        b@.lemma_subset_not_in_lt(domain_set::<S>(), missing);
    }
}

/// Inserting a symbol twice builds the same set as inserting it once,
/// and removing an absent symbol changes nothing.
pub proof fn lemma_insert_remove_idempotent<S: Domain>(
    b: Bitset<S>,
    once: Bitset<S>,
    twice: Bitset<S>,
    unchanged: Bitset<S>,
    i: int,
)
    requires
        once@ == b@.insert(i),
        twice@ == once@.insert(i),
        !b@.contains(i),
        unchanged@ == b@.remove(i),
    ensures
        twice == once,
        unchanged == b,
{
    assert(twice@ =~= once@);
    lemma_view_determines(twice, once);
    assert(unchanged@ =~= b@);
    lemma_view_determines(unchanged, b);
}

/// A well-formed set survives the round trip through its raw
/// representation: its representation is valid, and decoding it yields
/// the set itself, not merely an equal one's copy with stray state.
pub proof fn lemma_repr_round_trip<S: Domain>(
    b: Bitset<S>,
    raw: S::Repr,
    decoded: Option<Bitset<S>>,
)
    requires
        b.wf(),
        raw.value() == b.word(),
        decoded is Some <==> Bitset::<S>::valid_repr(raw.value()),
        decoded is Some ==> (decoded->Some_0).word() == raw.value(),
    ensures
        decoded is Some,
        decoded->Some_0 == b,
{
    assert(Bitset::<S>::valid_repr(raw.value()));
    let d = decoded->Some_0;
    assert forall|i: int| d@.contains(i) implies b@.contains(i) by {}
    assert(d@ =~= b@);
    lemma_view_determines(d, b);
}

/// Union and intersection are commutative: the two orders build the very
/// same set.
pub proof fn lemma_union_intersection_commute<S: Domain>(
    ab: Bitset<S>,
    ba: Bitset<S>,
    iab: Bitset<S>,
    iba: Bitset<S>,
    a: Bitset<S>,
    b: Bitset<S>,
)
    requires
        ab@ == a@.union(b@),
        ba@ == b@.union(a@),
        iab@ == a@.intersect(b@),
        iba@ == b@.intersect(a@),
    ensures
        ab == ba,
        iab == iba,
{
    assert(ab@ =~= ba@);
    lemma_view_determines(ab, ba);
    assert(iab@ =~= iba@);
    lemma_view_determines(iab, iba);
}

/// What remains after taking `b` away has nothing in common with `b`.
pub proof fn lemma_difference_disjoint<S: Domain>(d: Bitset<S>, a: Bitset<S>, b: Bitset<S>)
    requires
        d@ == a@.difference(b@),
    ensures
        d@.disjoint(b@),
{
}

/// Complementing twice gives a well-formed set back unchanged, the
/// union of a set with its complement is the whole domain, and their
/// intersection is empty.
pub proof fn lemma_complement_laws<S: Domain>(
    a: Bitset<S>,
    c: Bitset<S>,
    cc: Bitset<S>,
    u: Bitset<S>,
    n: Bitset<S>,
)
    requires
        a.wf(),
        c@ == domain_set::<S>().difference(a@),
        cc@ == domain_set::<S>().difference(c@),
        u@ == a@.union(c@),
        n@ == a@.intersect(c@),
    ensures
        cc == a,
        u@ == domain_set::<S>(),
        n@ == Set::<int>::empty(),
{
    assert(cc@ =~= a@);
    lemma_view_determines(cc, a);
    assert(u@ =~= domain_set::<S>());
    assert(n@ =~= Set::<int>::empty());
}

/// Iteration yields exactly the members of a well-formed set, each once,
/// in strictly ascending domain order, whatever order they were inserted
/// in.
pub proof fn lemma_iteration_order<S: Domain>(b: Bitset<S>)
    requires
        b.wf(),
    ensures
        b.to_seq().len() == b@.len(),
        forall|t: int|
            0 <= t < b.to_seq().len() ==> b@.contains((#[trigger] b.to_seq()[t]).index_of()),
        forall|i: int|
            b@.contains(i) ==> exists|t: int|
                0 <= t < b.to_seq().len() && (#[trigger] b.to_seq()[t]).index_of() == i,
        forall|t1: int, t2: int|
            #![trigger b.to_seq()[t1], b.to_seq()[t2]]
            0 <= t1 < t2 < b.to_seq().len() ==> b.to_seq()[t1].index_of() < b.to_seq()[t2].index_of(),
{
    let w = b.word();
    let ids = crate::bits::indices_from(w, 0);
    lemma_indices_props(w, 0);
    lemma_indices_len(w, 0);
    assert(crate::bits::bits_below(w, 0) =~= Set::<int>::empty());
    assert forall|t: int| 0 <= t < b.to_seq().len() implies b@.contains(
        (#[trigger] b.to_seq()[t]).index_of(),
    ) by {
        assert(b.to_seq()[t] == S::symbol_at(ids[t]));
        assert(b@.contains(ids[t]));
        S::index_of_symbol_at(ids[t]);
    }
    assert forall|i: int| b@.contains(i) implies exists|t: int|
        0 <= t < b.to_seq().len() && (#[trigger] b.to_seq()[t]).index_of() == i by {
        assert(ids.contains(i));
        let t = choose|t: int| 0 <= t < ids.len() && ids[t] == i;
        S::index_of_symbol_at(i);
        assert(b.to_seq()[t] == S::symbol_at(i));
    }
    assert forall|t1: int, t2: int|
        #![trigger b.to_seq()[t1], b.to_seq()[t2]]
        0 <= t1 < t2 < b.to_seq().len() implies b.to_seq()[t1].index_of()
        < b.to_seq()[t2].index_of() by {
        assert(b@.contains(ids[t1]));
        assert(b@.contains(ids[t2]));
        S::index_of_symbol_at(ids[t1]);
        S::index_of_symbol_at(ids[t2]);
        assert(b.to_seq()[t1] == S::symbol_at(ids[t1]));
        assert(b.to_seq()[t2] == S::symbol_at(ids[t2]));
    }
}

/// The list codec loses nothing: the identifiers serialized from a
/// well-formed set are all known, and decoding them rebuilds exactly the
/// set they came from, whatever order the list is read in.
pub proof fn lemma_codec_round_trip<S: Named>(b: Bitset<S>, names: Seq<Seq<char>>)
    requires
        b.wf(),
        names.len() == b.to_seq().len(),
        forall|k: int| 0 <= k < names.len() ==> names[k] == (#[trigger] b.to_seq()[k]).name_of(),
    ensures
        forall|k: int| 0 <= k < names.len() ==> some_symbol_named::<S>(#[trigger] names[k]),
        named_index_set::<S>(names) == b@,
{
    lemma_iteration_order(b);
    S::count_valid();
    assert forall|k: int| 0 <= k < names.len() implies some_symbol_named::<S>(
        #[trigger] names[k],
    ) by {
        let sym = b.to_seq()[k];
        let i = sym.index_of();
        sym.index_in_range();
        sym.symbol_at_index_of();
        assert(S::symbol_at(i).name_of() == names[k]);
    }
    assert forall|i: int| named_index_set::<S>(names).contains(i) implies b@.contains(i) by {
        let k = choose|k: int|
            0 <= k < names.len() && (#[trigger] names[k]) == S::symbol_at(i).name_of();
        let sym = b.to_seq()[k];
        S::names_injective(sym, S::symbol_at(i));
        assert(sym == S::symbol_at(i));
        assert(b@.contains(sym.index_of()));
        S::index_of_symbol_at(i);
    }
    assert forall|i: int| b@.contains(i) implies named_index_set::<S>(names).contains(i) by {
        let t = choose|t: int|
            0 <= t < b.to_seq().len() && (#[trigger] b.to_seq()[t]).index_of() == i;
        let sym = b.to_seq()[t];
        sym.symbol_at_index_of();
        assert(names[t] == S::symbol_at(i).name_of());
    }
    assert(named_index_set::<S>(names) =~= b@);
}

/// Collecting a well-formed set's members and folding them back as a new
/// set rebuilds its view: the sequence of members names exactly the set's
/// positions.
pub proof fn lemma_collect_rebuilds<S: Domain>(b: Bitset<S>)
    requires
        b.wf(),
    ensures
        crate::set::index_set::<S>(b.to_seq()) == b@,
{
    lemma_iteration_order(b);
    assert forall|i: int| crate::set::index_set::<S>(b.to_seq()).contains(i) implies b@.contains(
        i,
    ) by {
        let k = choose|k: int|
            0 <= k < b.to_seq().len() && (#[trigger] b.to_seq()[k]).index_of() == i;
    }
    assert forall|i: int| b@.contains(i) implies crate::set::index_set::<S>(b.to_seq()).contains(
        i,
    ) by {
        let t = choose|t: int|
            0 <= t < b.to_seq().len() && (#[trigger] b.to_seq()[t]).index_of() == i;
    }
    assert(crate::set::index_set::<S>(b.to_seq()) =~= b@);
}

} // verus!

