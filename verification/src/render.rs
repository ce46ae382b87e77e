//! Textual rendering of a set: its type name, its cardinality, and its
//! members.
//!
//! The default rendering lists the members in domain order, as in
//! `Name(2){A, B}`; the compact rendering gives only the count, as in
//! `Name(2){/* 2 items */}`, for domains whose symbols carry no
//! identifiers; and the pretty rendering spreads the members over lines.

use crate::domain::{Domain, Named};
use crate::iter::BitsetIter;
use crate::set::Bitset;
use vstd::prelude::*;

verus! {

/// The character of one decimal digit.
pub open spec fn digit_char(d: nat) -> char {
    if d == 0 {
        '0'
    } else if d == 1 {
        '1'
    } else if d == 2 {
        '2'
    } else if d == 3 {
        '3'
    } else if d == 4 {
        '4'
    } else if d == 5 {
        '5'
    } else if d == 6 {
        '6'
    } else if d == 7 {
        '7'
    } else if d == 8 {
        '8'
    } else {
        '9'
    }
}

/// The decimal digits of `n`, most significant first.
pub open spec fn decimal(n: nat) -> Seq<char>
    decreases n,
{
    if n < 10 {
        seq![digit_char(n)]
    } else {
        decimal(n / 10) + seq![digit_char(n % 10)]
    }
}

/// One decimal digit, as a string.
fn digit_str(d: usize) -> (r: &'static str)
    requires
        d < 10,
    ensures
        r@ == seq![digit_char(d as nat)],
{
    proof {
        reveal_strlit("0");
        reveal_strlit("1");
        reveal_strlit("2");
        reveal_strlit("3");
        reveal_strlit("4");
        reveal_strlit("5");
        reveal_strlit("6");
        reveal_strlit("7");
        reveal_strlit("8");
        reveal_strlit("9");
    }
    let r = if d == 0 {
        "0"
    } else if d == 1 {
        "1"
    } else if d == 2 {
        "2"
    } else if d == 3 {
        "3"
    } else if d == 4 {
        "4"
    } else if d == 5 {
        "5"
    } else if d == 6 {
        "6"
    } else if d == 7 {
        "7"
    } else if d == 8 {
        "8"
    } else {
        "9"
    };
    proof {
        assert(r@ =~= seq![digit_char(d as nat)]);
    }
    r
}

/// Writes `n` in decimal.
pub fn decimal_exec(n: usize) -> (r: String)
    ensures
        r@ == decimal(n as nat),
    decreases n,
{
    if n < 10 {
        let mut s = String::new();
        s.append(digit_str(n));
        proof {
            assert(s@ =~= decimal(n as nat));
        }
        s
    } else {
        let mut s = decimal_exec(n / 10);
        s.append(digit_str(n % 10));
        proof {
            assert(s@ =~= decimal(n as nat));
        }
        s
    }
}

/// The members' identifiers joined by a comma and a space.
pub open spec fn joined_names<S: Named>(syms: Seq<S>) -> Seq<char>
    decreases syms.len(),
{
    if syms.len() == 0 {
        Seq::empty()
    } else if syms.len() == 1 {
        syms[0].name_of()
    } else {
        joined_names(syms.drop_last()) + ", "@ + syms.last().name_of()
    }
}

/// The braces part of the default rendering: the joined identifiers,
/// brace-delimited.
pub open spec fn braced_names<S: Named>(syms: Seq<S>) -> Seq<char> {
    "{"@ + joined_names(syms) + "}"@
}

/// The braces part of the compact rendering: only how many members there
/// are.
pub open spec fn compact_entries(n: nat) -> Seq<char> {
    if n == 0 {
        "{}"@
    } else if n == 1 {
        "{/* 1 item */}"@
    } else {
        "{/* "@ + decimal(n) + " items */}"@
    }
}

/// Renders, without enumerating them, how many entries a set holds.
/// This is the rendering used for domains whose symbols carry no
/// identifiers.
pub trait NoDebug {
    /// The braces part of the compact rendering, for `len` entries.
    fn debug_entries(&self, len: usize) -> (r: String)
        ensures
            r@ == compact_entries(len as nat),
    ;
}

impl<T> NoDebug for T {
    fn debug_entries(&self, len: usize) -> (r: String)
        ensures
            r@ == compact_entries(len as nat),
    {
        if len == 0 {
            String::from_str("{}")
        } else if len == 1 {
            String::from_str("{/* 1 item */}")
        } else {
            let mut s = String::from_str("{/* ");
            let digits = decimal_exec(len);
            s.append(digits.as_str());
            s.append(" items */}");
            proof {
                assert(s@ =~= compact_entries(len as nat));
            }
            s
        }
    }
}

/// Renders a set's entries through their identifiers.  Where a domain's
/// symbols support no textual rendering, [`NoDebug`] takes this type's
/// place.
pub struct DebugWrapper<S>(pub core::marker::PhantomData<S>);

impl<S: Named> DebugWrapper<S> {
    /// The braces part of the default rendering: the identifiers of the
    /// symbols the iterator will yield, in its order, brace-delimited.
    pub fn debug_entries(&self, _len: usize, entries: BitsetIter<S>) -> (r: String)
        requires
            entries.wf(),
        ensures
            r@ == braced_names(entries@),
    {
        let ghost full = entries@;
        let mut it = entries;
        let mut s = String::from_str("{");
        let mut k: usize = 0;
        proof {
            crate::iter::lemma_remaining_bounded(entries);
            assert(full.take(0) =~= Seq::<S>::empty());
            assert(s@ =~= "{"@ + joined_names(full.take(0)));
        }
        loop
            invariant
                it.wf(),
                full.len() <= 128,
                k <= full.len(),
                it@ == full.skip(k as int),
                s@ == "{"@ + joined_names::<S>(full.take(k as int)),
            ensures
                k == full.len(),
                s@ == "{"@ + joined_names::<S>(full),
            decreases full.len() - k,
        {
            let step = it.next();
            match step {
                None => {
                    proof {
                        assert(full.skip(k as int).len() == 0);
                        assert(full.take(k as int) =~= full);
                    }
                    break ;
                },
                Some(sym) => {
                    proof {
                        assert(full.skip(k as int)[0] == full[k as int]);
                        assert(sym == full[k as int]);
                    }
                    if k > 0 {
                        s.append(", ");
                    }
                    let nm = sym.name();
                    s.append(nm.as_str());
                    proof {
                        assert(full.take(k + 1).drop_last() =~= full.take(k as int));
                        assert(full.take(k + 1).last() == full[k as int]);
                        if k == 0 {
                            assert(joined_names::<S>(full.take(1)) == full[0].name_of());
                        }
                        assert(s@ =~= "{"@ + joined_names::<S>(full.take(k + 1)));
                        assert(full.skip(k + 1) =~= full.skip(k as int).drop_first());
                    }
                    k = k + 1;
                },
            }
        }
        s.append("}");
        proof {
            assert(s@ =~= braced_names::<S>(full));
        }
        s
    }
}

/// The default rendering of a set: its type's name, its cardinality in
/// parentheses, and its members' identifiers in braces, in domain order.
pub open spec fn rendered<S: Named>(b: Bitset<S>) -> Seq<char> {
    S::set_name() + "("@ + decimal(b@.len()) + ")"@ + braced_names(b.to_seq())
}

/// The compact rendering of a set: its type's name, its cardinality in
/// parentheses, and only a count inside the braces.
pub open spec fn rendered_compact<S: Domain>(b: Bitset<S>) -> Seq<char> {
    S::set_name() + "("@ + decimal(b@.len()) + ")"@ + compact_entries(b@.len())
}

impl<S: Named> Bitset<S> {
    /// Renders the set with its members listed, as in `Name(2){A, B}`.
    pub fn render(&self) -> (r: String)
        requires
            self.wf(),
        ensures
            r@ == rendered(*self),
    {
        let mut s = S::set_name_exec();
        s.append("(");
        let digits = decimal_exec(self.len());
        s.append(digits.as_str());
        s.append(")");
        let entries = DebugWrapper::<S>(core::marker::PhantomData).debug_entries(
            self.len(),
            self.iter(),
        );
        s.append(entries.as_str());
        proof {
            assert(s@ =~= rendered(*self));
        }
        s
    }
}

/// The members' identifiers, one indented line each, each line ending in
/// a comma.
pub open spec fn pretty_lines<S: Named>(syms: Seq<S>) -> Seq<char>
    decreases syms.len(),
{
    if syms.len() == 0 {
        Seq::empty()
    } else {
        pretty_lines(syms.drop_last()) + "\n    "@ + syms.last().name_of() + ","@
    }
}

/// The braces part of the pretty rendering: empty braces, or one line per
/// member between them.
pub open spec fn pretty_braced<S: Named>(syms: Seq<S>) -> Seq<char> {
    if syms.len() == 0 {
        "{}"@
    } else {
        "{"@ + pretty_lines(syms) + "\n}"@
    }
}

/// The pretty rendering of a set: as the default one, with spaces around
/// the cardinality and the members spread over indented lines.
pub open spec fn rendered_pretty<S: Named>(b: Bitset<S>) -> Seq<char> {
    S::set_name() + " ("@ + decimal(b@.len()) + ") "@ + pretty_braced(b.to_seq())
}

impl<S: Named> Bitset<S> {
    /// Renders the set over several lines, as in `Name (2) {`, one
    /// indented member per line, and a closing brace of its own.
    pub fn render_pretty(&self) -> (r: String)
        requires
            self.wf(),
        ensures
            r@ == rendered_pretty(*self),
    {
        let mut s = S::set_name_exec();
        s.append(" (");
        let digits = decimal_exec(self.len());
        s.append(digits.as_str());
        s.append(") ");
        let ghost full = self.to_seq();
        let mut it = self.iter();
        proof {
            crate::iter::lemma_remaining_bounded(it);
        }
        let probe = it.size_hint();
        if probe.0 == 0 {
            s.append("{}");
            proof {
                assert(s@ =~= rendered_pretty(*self));
            }
            return s;
        }
        s.append("{");
        let mut k: usize = 0;
        proof {
            assert(full.take(0) =~= Seq::<S>::empty());
        }
        loop
            invariant
                it.wf(),
                full.len() <= 128,
                k <= full.len(),
                it@ == full.skip(k as int),
                s@ == S::set_name() + " ("@ + decimal(self@.len()) + ") "@ + "{"@
                    + pretty_lines::<S>(full.take(k as int)),
            ensures
                k == full.len(),
                s@ == S::set_name() + " ("@ + decimal(self@.len()) + ") "@ + "{"@
                    + pretty_lines::<S>(full),
            decreases full.len() - k,
        {
            let step = it.next();
            match step {
                None => {
                    proof {
                        assert(full.skip(k as int).len() == 0);
                        assert(full.take(k as int) =~= full);
                    }
                    break ;
                },
                Some(sym) => {
                    proof {
                        assert(full.skip(k as int)[0] == full[k as int]);
                        assert(sym == full[k as int]);
                    }
                    s.append("\n    ");
                    let nm = sym.name();
                    s.append(nm.as_str());
                    s.append(",");
                    proof {
                        assert(full.take(k + 1).drop_last() =~= full.take(k as int));
                        assert(full.take(k + 1).last() == full[k as int]);
                        assert(s@ =~= S::set_name() + " ("@ + decimal(self@.len()) + ") "@ + "{"@
                            + pretty_lines::<S>(full.take(k + 1)));
                        assert(full.skip(k + 1) =~= full.skip(k as int).drop_first());
                    }
                    k = k + 1;
                },
            }
        }
        s.append("\n}");
        proof {
            assert(full.len() > 0);
            assert(s@ =~= rendered_pretty(*self));
        }
        s
    }
}

impl<S: Domain> Bitset<S> {
    /// Renders the set without enumerating its members, as in
    /// `Name(2){/* 2 items */}`.
    pub fn render_compact(&self) -> (r: String)
        ensures
            r@ == rendered_compact(*self),
    {
        let mut s = S::set_name_exec();
        s.append("(");
        let n = self.len();
        let digits = decimal_exec(n);
        s.append(digits.as_str());
        s.append(")");
        let entries = self.debug_entries(n);
        s.append(entries.as_str());
        proof {
            assert(s@ =~= rendered_compact(*self));
        }
        s
    }
}

} // verus!
