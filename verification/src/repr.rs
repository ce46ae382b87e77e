//! The backing word of a set and the choice of its width.
//!
//! A set is stored in one unsigned integer of 8, 16, 32, 64 or 128 bits.
//! [`ReprWord`] reads any such integer as a `u128` value, so that all the
//! set algebra can be specified and proved once, over 128-bit words, while
//! each concrete set keeps the exact layout of its own backing integer.
//! [`width_for`] is the width selector: the narrowest supported width with
//! one bit per symbol.

use crate::bits::{lemma_mask_val_128, lemma_mask_val_pow2, mask_val};
use vstd::arithmetic::power2::lemma2_to64;
use vstd::prelude::*;

verus! {

/// The widths a backing word may have.
pub open spec fn valid_width(w: int) -> bool {
    w == 8 || w == 16 || w == 32 || w == 64 || w == 128
}

/// An unsigned integer type that can back a set.
///
/// `value` reads the word as a `u128`; all contracts of the crate speak of
/// that reading.  A word holds `width` bits, so its value never exceeds the
/// low-`width` mask, and words with equal values are equal.
pub trait ReprWord: Copy + Sized {
    /// The word, read as an unsigned 128-bit value.
    spec fn value(self) -> u128;

    /// The number of bits this word holds.
    spec fn width() -> int;

    /// The width is one of the supported spans.
    proof fn width_valid()
        ensures
            valid_width(Self::width()),
    ;

    /// Every word's value fits in its width.
    proof fn value_bound(self)
        ensures
            self.value() as nat <= mask_val(Self::width() as nat),
    ;

    /// Reading a word as a value loses nothing.
    proof fn value_injective(self, other: Self)
        ensures
            self.value() == other.value() ==> self == other,
    ;

    /// The width, at run time.
    fn width_exec() -> (r: usize)
        ensures
            r as int == Self::width(),
    ;

    /// The word as a `u128`.
    fn to_word(self) -> (r: u128)
        ensures
            r == self.value(),
    ;

    /// The word holding a value that fits the width.
    fn of_word(w: u128) -> (r: Self)
        requires
            w as nat <= mask_val(Self::width() as nat),
        ensures
            r.value() == w,
    ;
}

impl ReprWord for u8 {
    open spec fn value(self) -> u128 {
        self as u128
    }

    open spec fn width() -> int {
        8
    }

    proof fn width_valid() {
    }

    proof fn value_bound(self) {
        lemma_mask_val_pow2(8);
        lemma2_to64();
    }

    proof fn value_injective(self, other: Self) {
    }

    fn width_exec() -> (r: usize) {
        8
    }

    fn to_word(self) -> (r: u128) {
        self as u128
    }

    fn of_word(w: u128) -> (r: Self) {
        proof {
            lemma_mask_val_pow2(8);
            lemma2_to64();
        }
        w as u8
    }
}

impl ReprWord for u16 {
    open spec fn value(self) -> u128 {
        self as u128
    }

    open spec fn width() -> int {
        16
    }

    proof fn width_valid() {
    }

    proof fn value_bound(self) {
        lemma_mask_val_pow2(16);
        lemma2_to64();
    }

    proof fn value_injective(self, other: Self) {
    }

    fn width_exec() -> (r: usize) {
        16
    }

    fn to_word(self) -> (r: u128) {
        self as u128
    }

    fn of_word(w: u128) -> (r: Self) {
        proof {
            lemma_mask_val_pow2(16);
            lemma2_to64();
        }
        w as u16
    }
}

impl ReprWord for u32 {
    open spec fn value(self) -> u128 {
        self as u128
    }

    open spec fn width() -> int {
        32
    }

    proof fn width_valid() {
    }

    proof fn value_bound(self) {
        lemma_mask_val_pow2(32);
        lemma2_to64();
    }

    proof fn value_injective(self, other: Self) {
    }

    fn width_exec() -> (r: usize) {
        32
    }

    fn to_word(self) -> (r: u128) {
        self as u128
    }

    fn of_word(w: u128) -> (r: Self) {
        proof {
            lemma_mask_val_pow2(32);
            lemma2_to64();
        }
        w as u32
    }
}

impl ReprWord for u64 {
    open spec fn value(self) -> u128 {
        self as u128
    }

    open spec fn width() -> int {
        64
    }

    proof fn width_valid() {
    }

    proof fn value_bound(self) {
        lemma_mask_val_pow2(64);
        lemma2_to64();
    }

    proof fn value_injective(self, other: Self) {
    }

    fn width_exec() -> (r: usize) {
        64
    }

    fn to_word(self) -> (r: u128) {
        self as u128
    }

    fn of_word(w: u128) -> (r: Self) {
        proof {
            lemma_mask_val_pow2(64);
            lemma2_to64();
        }
        w as u64
    }
}

impl ReprWord for u128 {
    open spec fn value(self) -> u128 {
        self
    }

    open spec fn width() -> int {
        128
    }

    proof fn width_valid() {
    }

    proof fn value_bound(self) {
        lemma_mask_val_128();
    }

    proof fn value_injective(self, other: Self) {
    }

    fn width_exec() -> (r: usize) {
        128
    }

    fn to_word(self) -> (r: u128) {
        self
    }

    fn of_word(w: u128) -> (r: Self) {
        w
    }
}

/// The width the selector picks for a domain of `n` symbols: the narrowest
/// supported span with at least one bit per symbol.
pub open spec fn chosen_width(n: int) -> int {
    if n <= 8 {
        8
    } else if n <= 16 {
        16
    } else if n <= 32 {
        32
    } else if n <= 64 {
        64
    } else {
        128
    }
}

/// The chosen width is valid, holds the domain, and no narrower valid
/// width does.
pub proof fn lemma_chosen_width_minimal(n: int)
    requires
        1 <= n <= 128,
    ensures
        valid_width(chosen_width(n)),
        n <= chosen_width(n),
        forall|w: int| valid_width(w) && n <= w ==> chosen_width(n) <= w,
{
}

/// Picks the representation width for a domain of `n` symbols, or nothing
/// when no supported width can hold it: a domain must have at least one
/// symbol and at most 128.
pub fn width_for(n: usize) -> (r: Option<usize>)
    ensures
        r is Some <==> 1 <= n <= 128,
        r is Some ==> r->Some_0 as int == chosen_width(n as int),
{
    if n == 0 || n > 128 {
        None
    } else if n <= 8 {
        Some(8)
    } else if n <= 16 {
        Some(16)
    } else if n <= 32 {
        Some(32)
    } else if n <= 64 {
        Some(64)
    } else {
        Some(128)
    }
}

/// Whether an explicitly requested width `w` may back a domain of `n`
/// symbols: the width must be supported and at least as wide as the domain,
/// and the domain must not be empty.
pub fn width_allowed(n: usize, w: usize) -> (r: bool)
    ensures
        r == (1 <= n && valid_width(w as int) && n <= w),
{
    1 <= n && (w == 8 || w == 16 || w == 32 || w == 64 || w == 128) && n <= w
}

} // verus!
