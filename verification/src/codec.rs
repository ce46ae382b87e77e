//! The ordered-list codec: a set as a list of its members' identifiers.
//!
//! A set serializes as the identifiers of its members, in domain order.
//! Deserialization reads identifiers in any order and with any
//! multiplicity, folding each into the set; an identifier that names no
//! symbol of the domain is a hard failure, with no partial result.

use crate::domain::{domain_set, Named};
use crate::set::Bitset;
use vstd::prelude::*;

verus! {

broadcast use vstd::set::group_set_axioms;

/// A deserialization failure: the identifier at this position of the
/// input names no symbol of the domain.
#[derive(Clone, Copy, PartialEq, Eq, Structural, Debug)]
pub struct UnknownSymbol {
    /// The position, within the input list, of the unknown identifier.
    pub position: usize,
}

/// Whether some symbol of the domain carries this identifier.
pub open spec fn some_symbol_named<S: Named>(name: Seq<char>) -> bool {
    exists|i: int| 0 <= i < S::count() && (#[trigger] S::symbol_at(i)).name_of() == name
}

/// The bit indices of the symbols that the given identifiers name.
pub open spec fn named_index_set<S: Named>(names: Seq<Seq<char>>) -> Set<int> {
    Set::new(
        |i: int|
            0 <= i < S::count() && exists|k: int|
                0 <= k < names.len() && (#[trigger] names[k]) == S::symbol_at(i).name_of(),
    )
}

/// The symbol of the domain carrying the given identifier, if any.
pub fn find_symbol<S: Named>(name: &String) -> (r: Option<S>)
    ensures
        r is Some <==> some_symbol_named::<S>(name@),
        r is Some ==> (r->Some_0).name_of() == name@,
{
    proof {
        S::count_valid();
    }
    let n = S::count_exec();
    let mut i: usize = 0;
    while i < n
        invariant
            i <= n,
            n as int == S::count(),
            forall|k: int| 0 <= k < i ==> (#[trigger] S::symbol_at(k)).name_of() != name@,
        decreases n - i,
    {
        let sym = S::at_index(i);
        let sym_name = sym.name();
        if sym_name == *name {
            return Some(sym);
        }
        i = i + 1;
    }
    None
}

/// One identifier more names one symbol more: folding a known identifier
/// into the decoded set inserts that symbol's index.
proof fn lemma_named_index_set_push<S: Named>(names: Seq<Seq<char>>, s: S)
    ensures
        named_index_set::<S>(names.push(s.name_of())) == named_index_set::<S>(names).insert(
            s.index_of(),
        ),
{
    let nm = s.name_of();
    let lhs = named_index_set::<S>(names.push(nm));
    let rhs = named_index_set::<S>(names).insert(s.index_of());
    s.index_in_range();
    s.symbol_at_index_of();
    assert forall|i: int| lhs.contains(i) implies rhs.contains(i) by {
        let k = choose|k: int|
            0 <= k < names.push(nm).len() && (#[trigger] names.push(nm)[k]) == S::symbol_at(
                i,
            ).name_of();
        if k < names.len() {
            assert(names[k] == names.push(nm)[k]);
            assert(named_index_set::<S>(names).contains(i));
        } else {
            assert(names.push(nm)[k] == nm);
            S::names_injective(S::symbol_at(i), s);
            S::index_of_symbol_at(i);
        }
    }
    assert forall|i: int| rhs.contains(i) implies lhs.contains(i) by {
        if named_index_set::<S>(names).contains(i) {
            let k = choose|k: int|
                0 <= k < names.len() && (#[trigger] names[k]) == S::symbol_at(i).name_of();
            assert(names.push(nm)[k] == names[k]);
        } else {
            assert(i == s.index_of());
            assert(names.push(nm)[names.len() as int] == nm);
        }
    }
    assert(lhs =~= rhs);
}

impl<S: Named> Bitset<S> {
    /// Serializes the set as the identifiers of its members, in domain
    /// order.
    pub fn to_name_list(&self) -> (r: Vec<String>)
        requires
            self.wf(),
        ensures
            r@.len() == self.to_seq().len(),
            forall|k: int|
                0 <= k < r@.len() ==> (#[trigger] r@[k])@ == self.to_seq()[k].name_of(),
    {
        let symbols = self.collect();
        let mut names: Vec<String> = Vec::new();
        let mut k: usize = 0;
        while k < symbols.len()
            invariant
                k <= symbols@.len(),
                symbols@ == self.to_seq(),
                names@.len() == k,
                forall|t: int|
                    0 <= t < k ==> (#[trigger] names@[t])@ == self.to_seq()[t].name_of(),
            decreases symbols@.len() - k,
        {
            names.push(symbols[k].name());
            k = k + 1;
        }
        names
    }

    /// Deserializes a list of identifiers, in any order and with any
    /// multiplicity, into the set of the symbols they name.  An
    /// identifier that names no symbol fails the whole call: no partial
    /// set is returned, and the first offending position is reported.
    pub fn from_name_list(names: &Vec<String>) -> (r: Result<Self, UnknownSymbol>)
        ensures
            r is Ok <==> (forall|k: int|
                0 <= k < names@.len() ==> some_symbol_named::<S>((#[trigger] names@[k])@)),
            r is Ok ==> (r->Ok_0)@ == named_index_set::<S>(names@.map_values(|s: String| s@))
                && (r->Ok_0).wf(),
            r is Err ==> (r->Err_0).position < names@.len() && !some_symbol_named::<S>(
                names@[(r->Err_0).position as int]@,
            ),
    {
        let ghost all_names = names@.map_values(|s: String| s@);
        let mut result = Self::empty();
        let mut k: usize = 0;
        proof {
            assert(result@ =~= named_index_set::<S>(all_names.take(0)));
        }
        while k < names.len()
            invariant
                k <= names@.len(),
                all_names == names@.map_values(|s: String| s@),
                result@ == named_index_set::<S>(all_names.take(k as int)),
                result.wf(),
                forall|t: int|
                    0 <= t < k ==> some_symbol_named::<S>((#[trigger] names@[t])@),
            decreases names@.len() - k,
        {
            let looked = find_symbol::<S>(&names[k]);
            match looked {
                None => {
                    return Err(UnknownSymbol { position: k });
                },
                Some(sym) => {
                    proof {
                        assert(all_names.take(k + 1) =~= all_names.take(k as int).push(
                            all_names[k as int],
                        ));
                        assert(all_names[k as int] == names@[k as int]@);
                        assert(all_names[k as int] == sym.name_of());
                        lemma_named_index_set_push::<S>(all_names.take(k as int), sym);
                    }
                    result.insert(sym);
                },
            }
            k = k + 1;
        }
        proof {
            assert(all_names.take(all_names.len() as int) =~= all_names);
        }
        Ok(result)
    }
}

} // verus!
