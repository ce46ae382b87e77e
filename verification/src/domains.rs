//! Ready-made domains of various sizes and widths.
//!
//! The library has no way to derive a [`Domain`] from an enumeration, so
//! each domain is written out once: the positions in declaration order,
//! the backing word, the set type's name, and, where the symbols carry
//! identifiers, a [`Named`] implementation.  These serve as worked
//! examples of the interface and back this crate's test suite.

use crate::domain::{Domain, Named};
use vstd::prelude::*;

verus! {

/// The smallest interesting domain: two symbols in one byte.
#[derive(Clone, Copy, PartialEq, Eq, Structural, Debug)]
pub enum TwoVariants {
    A,
    B,
}

impl Domain for TwoVariants {
    type Repr = u8;

    open spec fn count() -> int {
        2
    }

    open spec fn index_of(self) -> int {
        match self {
            TwoVariants::A => 0,
            TwoVariants::B => 1,
        }
    }

    open spec fn symbol_at(i: int) -> Self {
        if i == 0 {
            TwoVariants::A
        } else {
            TwoVariants::B
        }
    }

    open spec fn set_name() -> Seq<char> {
        "TwoVariantsSet"@
    }

    proof fn count_valid() {
    }

    proof fn index_in_range(self) {
    }

    proof fn symbol_at_index_of(self) {
    }

    proof fn index_of_symbol_at(i: int) {
    }

    fn count_exec() -> (r: usize) {
        2
    }

    fn index(&self) -> (r: usize) {
        match self {
            TwoVariants::A => 0,
            TwoVariants::B => 1,
        }
    }

    fn at_index(i: usize) -> (r: Self) {
        if i == 0 {
            TwoVariants::A
        } else {
            TwoVariants::B
        }
    }

    fn set_name_exec() -> (r: String) {
        String::from_str("TwoVariantsSet")
    }
}

impl Named for TwoVariants {
    open spec fn name_of(self) -> Seq<char> {
        match self {
            TwoVariants::A => "A"@,
            TwoVariants::B => "B"@,
        }
    }

    proof fn names_injective(a: Self, b: Self) {
        reveal_strlit("A");
        reveal_strlit("B");
        if a.name_of() == b.name_of() {
            assert(a.name_of().len() == b.name_of().len());
            assert(a.name_of()[0] == b.name_of()[0]);
            assert(a == b);
        }
    }

    fn name(&self) -> (r: String) {
        match self {
            TwoVariants::A => String::from_str("A"),
            TwoVariants::B => String::from_str("B"),
        }
    }
}

/// The letters A through Z: twenty-six symbols in a 32-bit word.
#[derive(Clone, Copy, PartialEq, Eq, Structural, Debug, Hash)]
pub enum Alphabet {
    A,
    B,
    C,
    D,
    E,
    F,
    G,
    H,
    I,
    J,
    K,
    L,
    M,
    N,
    O,
    P,
    Q,
    R,
    S,
    T,
    U,
    V,
    W,
    X,
    Y,
    Z,
}

impl Domain for Alphabet {
    type Repr = u32;

    open spec fn count() -> int {
        26
    }

    open spec fn index_of(self) -> int {
        match self {
            Alphabet::A => 0,
            Alphabet::B => 1,
            Alphabet::C => 2,
            Alphabet::D => 3,
            Alphabet::E => 4,
            Alphabet::F => 5,
            Alphabet::G => 6,
            Alphabet::H => 7,
            Alphabet::I => 8,
            Alphabet::J => 9,
            Alphabet::K => 10,
            Alphabet::L => 11,
            Alphabet::M => 12,
            Alphabet::N => 13,
            Alphabet::O => 14,
            Alphabet::P => 15,
            Alphabet::Q => 16,
            Alphabet::R => 17,
            Alphabet::S => 18,
            Alphabet::T => 19,
            Alphabet::U => 20,
            Alphabet::V => 21,
            Alphabet::W => 22,
            Alphabet::X => 23,
            Alphabet::Y => 24,
            Alphabet::Z => 25,
        }
    }

    open spec fn symbol_at(i: int) -> Self {
        if i == 0 {
            Alphabet::A
        } else if i == 1 {
            Alphabet::B
        } else if i == 2 {
            Alphabet::C
        } else if i == 3 {
            Alphabet::D
        } else if i == 4 {
            Alphabet::E
        } else if i == 5 {
            Alphabet::F
        } else if i == 6 {
            Alphabet::G
        } else if i == 7 {
            Alphabet::H
        } else if i == 8 {
            Alphabet::I
        } else if i == 9 {
            Alphabet::J
        } else if i == 10 {
            Alphabet::K
        } else if i == 11 {
            Alphabet::L
        } else if i == 12 {
            Alphabet::M
        } else if i == 13 {
            Alphabet::N
        } else if i == 14 {
            Alphabet::O
        } else if i == 15 {
            Alphabet::P
        } else if i == 16 {
            Alphabet::Q
        } else if i == 17 {
            Alphabet::R
        } else if i == 18 {
            Alphabet::S
        } else if i == 19 {
            Alphabet::T
        } else if i == 20 {
            Alphabet::U
        } else if i == 21 {
            Alphabet::V
        } else if i == 22 {
            Alphabet::W
        } else if i == 23 {
            Alphabet::X
        } else if i == 24 {
            Alphabet::Y
        } else {
            Alphabet::Z
        }
    }

    open spec fn set_name() -> Seq<char> {
        "AlphabetSet"@
    }

    proof fn count_valid() {
    }

    proof fn index_in_range(self) {
    }

    proof fn symbol_at_index_of(self) {
    }

    proof fn index_of_symbol_at(i: int) {
    }

    fn count_exec() -> (r: usize) {
        26
    }

    fn index(&self) -> (r: usize) {
        match self {
            Alphabet::A => 0,
            Alphabet::B => 1,
            Alphabet::C => 2,
            Alphabet::D => 3,
            Alphabet::E => 4,
            Alphabet::F => 5,
            Alphabet::G => 6,
            Alphabet::H => 7,
            Alphabet::I => 8,
            Alphabet::J => 9,
            Alphabet::K => 10,
            Alphabet::L => 11,
            Alphabet::M => 12,
            Alphabet::N => 13,
            Alphabet::O => 14,
            Alphabet::P => 15,
            Alphabet::Q => 16,
            Alphabet::R => 17,
            Alphabet::S => 18,
            Alphabet::T => 19,
            Alphabet::U => 20,
            Alphabet::V => 21,
            Alphabet::W => 22,
            Alphabet::X => 23,
            Alphabet::Y => 24,
            Alphabet::Z => 25,
        }
    }

    fn at_index(i: usize) -> (r: Self) {
        if i == 0 {
            Alphabet::A
        } else if i == 1 {
            Alphabet::B
        } else if i == 2 {
            Alphabet::C
        } else if i == 3 {
            Alphabet::D
        } else if i == 4 {
            Alphabet::E
        } else if i == 5 {
            Alphabet::F
        } else if i == 6 {
            Alphabet::G
        } else if i == 7 {
            Alphabet::H
        } else if i == 8 {
            Alphabet::I
        } else if i == 9 {
            Alphabet::J
        } else if i == 10 {
            Alphabet::K
        } else if i == 11 {
            Alphabet::L
        } else if i == 12 {
            Alphabet::M
        } else if i == 13 {
            Alphabet::N
        } else if i == 14 {
            Alphabet::O
        } else if i == 15 {
            Alphabet::P
        } else if i == 16 {
            Alphabet::Q
        } else if i == 17 {
            Alphabet::R
        } else if i == 18 {
            Alphabet::S
        } else if i == 19 {
            Alphabet::T
        } else if i == 20 {
            Alphabet::U
        } else if i == 21 {
            Alphabet::V
        } else if i == 22 {
            Alphabet::W
        } else if i == 23 {
            Alphabet::X
        } else if i == 24 {
            Alphabet::Y
        } else {
            Alphabet::Z
        }
    }

    fn set_name_exec() -> (r: String) {
        String::from_str("AlphabetSet")
    }
}

impl Named for Alphabet {
    open spec fn name_of(self) -> Seq<char> {
        match self {
            Alphabet::A => "A"@,
            Alphabet::B => "B"@,
            Alphabet::C => "C"@,
            Alphabet::D => "D"@,
            Alphabet::E => "E"@,
            Alphabet::F => "F"@,
            Alphabet::G => "G"@,
            Alphabet::H => "H"@,
            Alphabet::I => "I"@,
            Alphabet::J => "J"@,
            Alphabet::K => "K"@,
            Alphabet::L => "L"@,
            Alphabet::M => "M"@,
            Alphabet::N => "N"@,
            Alphabet::O => "O"@,
            Alphabet::P => "P"@,
            Alphabet::Q => "Q"@,
            Alphabet::R => "R"@,
            Alphabet::S => "S"@,
            Alphabet::T => "T"@,
            Alphabet::U => "U"@,
            Alphabet::V => "V"@,
            Alphabet::W => "W"@,
            Alphabet::X => "X"@,
            Alphabet::Y => "Y"@,
            Alphabet::Z => "Z"@,
        }
    }

    proof fn names_injective(a: Self, b: Self) {
        reveal_strlit("A");
        reveal_strlit("B");
        reveal_strlit("C");
        reveal_strlit("D");
        reveal_strlit("E");
        reveal_strlit("F");
        reveal_strlit("G");
        reveal_strlit("H");
        reveal_strlit("I");
        reveal_strlit("J");
        reveal_strlit("K");
        reveal_strlit("L");
        reveal_strlit("M");
        reveal_strlit("N");
        reveal_strlit("O");
        reveal_strlit("P");
        reveal_strlit("Q");
        reveal_strlit("R");
        reveal_strlit("S");
        reveal_strlit("T");
        reveal_strlit("U");
        reveal_strlit("V");
        reveal_strlit("W");
        reveal_strlit("X");
        reveal_strlit("Y");
        reveal_strlit("Z");
        if a.name_of() == b.name_of() {
            assert(a.name_of().len() == b.name_of().len());
            assert(a.name_of()[0] == b.name_of()[0]);
            assert(a == b);
        }
    }

    fn name(&self) -> (r: String) {
        match self {
            Alphabet::A => String::from_str("A"),
            Alphabet::B => String::from_str("B"),
            Alphabet::C => String::from_str("C"),
            Alphabet::D => String::from_str("D"),
            Alphabet::E => String::from_str("E"),
            Alphabet::F => String::from_str("F"),
            Alphabet::G => String::from_str("G"),
            Alphabet::H => String::from_str("H"),
            Alphabet::I => String::from_str("I"),
            Alphabet::J => String::from_str("J"),
            Alphabet::K => String::from_str("K"),
            Alphabet::L => String::from_str("L"),
            Alphabet::M => String::from_str("M"),
            Alphabet::N => String::from_str("N"),
            Alphabet::O => String::from_str("O"),
            Alphabet::P => String::from_str("P"),
            Alphabet::Q => String::from_str("Q"),
            Alphabet::R => String::from_str("R"),
            Alphabet::S => String::from_str("S"),
            Alphabet::T => String::from_str("T"),
            Alphabet::U => String::from_str("U"),
            Alphabet::V => String::from_str("V"),
            Alphabet::W => String::from_str("W"),
            Alphabet::X => String::from_str("X"),
            Alphabet::Y => String::from_str("Y"),
            Alphabet::Z => String::from_str("Z"),
        }
    }
}

/// Three kinds of comment, backed by a wider word than the three
/// symbols need: the width may be overridden upward.
#[derive(Clone, Copy, PartialEq, Eq, Structural, Debug)]
pub enum CodeComment {
    TodoSinceFirstCommit,
    BlackMagic,
    LateNightRambling,
}

impl Domain for CodeComment {
    type Repr = u16;

    open spec fn count() -> int {
        3
    }

    open spec fn index_of(self) -> int {
        match self {
            CodeComment::TodoSinceFirstCommit => 0,
            CodeComment::BlackMagic => 1,
            CodeComment::LateNightRambling => 2,
        }
    }

    open spec fn symbol_at(i: int) -> Self {
        if i == 0 {
            CodeComment::TodoSinceFirstCommit
        } else if i == 1 {
            CodeComment::BlackMagic
        } else {
            CodeComment::LateNightRambling
        }
    }

    open spec fn set_name() -> Seq<char> {
        "CodeCommentSet"@
    }

    proof fn count_valid() {
    }

    proof fn index_in_range(self) {
    }

    proof fn symbol_at_index_of(self) {
    }

    proof fn index_of_symbol_at(i: int) {
    }

    fn count_exec() -> (r: usize) {
        3
    }

    fn index(&self) -> (r: usize) {
        match self {
            CodeComment::TodoSinceFirstCommit => 0,
            CodeComment::BlackMagic => 1,
            CodeComment::LateNightRambling => 2,
        }
    }

    fn at_index(i: usize) -> (r: Self) {
        if i == 0 {
            CodeComment::TodoSinceFirstCommit
        } else if i == 1 {
            CodeComment::BlackMagic
        } else {
            CodeComment::LateNightRambling
        }
    }

    fn set_name_exec() -> (r: String) {
        String::from_str("CodeCommentSet")
    }
}

/// Three symbols with identifiers, for the ordered-list codec.
#[derive(Clone, Copy, PartialEq, Eq, Structural, Debug)]
pub enum TreeVariants {
    A,
    B,
    C,
}

impl Domain for TreeVariants {
    type Repr = u8;

    open spec fn count() -> int {
        3
    }

    open spec fn index_of(self) -> int {
        match self {
            TreeVariants::A => 0,
            TreeVariants::B => 1,
            TreeVariants::C => 2,
        }
    }

    open spec fn symbol_at(i: int) -> Self {
        if i == 0 {
            TreeVariants::A
        } else if i == 1 {
            TreeVariants::B
        } else {
            TreeVariants::C
        }
    }

    open spec fn set_name() -> Seq<char> {
        "TreeVariantsSet"@
    }

    proof fn count_valid() {
    }

    proof fn index_in_range(self) {
    }

    proof fn symbol_at_index_of(self) {
    }

    proof fn index_of_symbol_at(i: int) {
    }

    fn count_exec() -> (r: usize) {
        3
    }

    fn index(&self) -> (r: usize) {
        match self {
            TreeVariants::A => 0,
            TreeVariants::B => 1,
            TreeVariants::C => 2,
        }
    }

    fn at_index(i: usize) -> (r: Self) {
        if i == 0 {
            TreeVariants::A
        } else if i == 1 {
            TreeVariants::B
        } else {
            TreeVariants::C
        }
    }

    fn set_name_exec() -> (r: String) {
        String::from_str("TreeVariantsSet")
    }
}

impl Named for TreeVariants {
    open spec fn name_of(self) -> Seq<char> {
        match self {
            TreeVariants::A => "A"@,
            TreeVariants::B => "B"@,
            TreeVariants::C => "C"@,
        }
    }

    proof fn names_injective(a: Self, b: Self) {
        reveal_strlit("A");
        reveal_strlit("B");
        reveal_strlit("C");
        if a.name_of() == b.name_of() {
            assert(a.name_of().len() == b.name_of().len());
            assert(a.name_of()[0] == b.name_of()[0]);
            assert(a == b);
        }
    }

    fn name(&self) -> (r: String) {
        match self {
            TreeVariants::A => String::from_str("A"),
            TreeVariants::B => String::from_str("B"),
            TreeVariants::C => String::from_str("C"),
        }
    }
}

/// Another three-symbol domain with identifiers: a domain may take
/// part in decoding alone, never being serialized.
#[derive(Clone, Copy, PartialEq, Eq, Structural, Debug)]
pub enum SerdeConfigTest {
    A,
    B,
    C,
}

impl Domain for SerdeConfigTest {
    type Repr = u8;

    open spec fn count() -> int {
        3
    }

    open spec fn index_of(self) -> int {
        match self {
            SerdeConfigTest::A => 0,
            SerdeConfigTest::B => 1,
            SerdeConfigTest::C => 2,
        }
    }

    open spec fn symbol_at(i: int) -> Self {
        if i == 0 {
            SerdeConfigTest::A
        } else if i == 1 {
            SerdeConfigTest::B
        } else {
            SerdeConfigTest::C
        }
    }

    open spec fn set_name() -> Seq<char> {
        "SerdeConfigTestSet"@
    }

    proof fn count_valid() {
    }

    proof fn index_in_range(self) {
    }

    proof fn symbol_at_index_of(self) {
    }

    proof fn index_of_symbol_at(i: int) {
    }

    fn count_exec() -> (r: usize) {
        3
    }

    fn index(&self) -> (r: usize) {
        match self {
            SerdeConfigTest::A => 0,
            SerdeConfigTest::B => 1,
            SerdeConfigTest::C => 2,
        }
    }

    fn at_index(i: usize) -> (r: Self) {
        if i == 0 {
            SerdeConfigTest::A
        } else if i == 1 {
            SerdeConfigTest::B
        } else {
            SerdeConfigTest::C
        }
    }

    fn set_name_exec() -> (r: String) {
        String::from_str("SerdeConfigTestSet")
    }
}

impl Named for SerdeConfigTest {
    open spec fn name_of(self) -> Seq<char> {
        match self {
            SerdeConfigTest::A => "A"@,
            SerdeConfigTest::B => "B"@,
            SerdeConfigTest::C => "C"@,
        }
    }

    proof fn names_injective(a: Self, b: Self) {
        reveal_strlit("A");
        reveal_strlit("B");
        reveal_strlit("C");
        if a.name_of() == b.name_of() {
            assert(a.name_of().len() == b.name_of().len());
            assert(a.name_of()[0] == b.name_of()[0]);
            assert(a == b);
        }
    }

    fn name(&self) -> (r: String) {
        match self {
            SerdeConfigTest::A => String::from_str("A"),
            SerdeConfigTest::B => String::from_str("B"),
            SerdeConfigTest::C => String::from_str("C"),
        }
    }
}

/// The days of the week: seven symbols in one byte.
#[derive(Clone, Copy, PartialEq, Eq, Structural, Debug)]
pub enum Weekday {
    Mon,
    Tue,
    Wed,
    Thu,
    Fri,
    Sat,
    Sun,
}

impl Domain for Weekday {
    type Repr = u8;

    open spec fn count() -> int {
        7
    }

    open spec fn index_of(self) -> int {
        match self {
            Weekday::Mon => 0,
            Weekday::Tue => 1,
            Weekday::Wed => 2,
            Weekday::Thu => 3,
            Weekday::Fri => 4,
            Weekday::Sat => 5,
            Weekday::Sun => 6,
        }
    }

    open spec fn symbol_at(i: int) -> Self {
        if i == 0 {
            Weekday::Mon
        } else if i == 1 {
            Weekday::Tue
        } else if i == 2 {
            Weekday::Wed
        } else if i == 3 {
            Weekday::Thu
        } else if i == 4 {
            Weekday::Fri
        } else if i == 5 {
            Weekday::Sat
        } else {
            Weekday::Sun
        }
    }

    open spec fn set_name() -> Seq<char> {
        "WeekdaySet"@
    }

    proof fn count_valid() {
    }

    proof fn index_in_range(self) {
    }

    proof fn symbol_at_index_of(self) {
    }

    proof fn index_of_symbol_at(i: int) {
    }

    fn count_exec() -> (r: usize) {
        7
    }

    fn index(&self) -> (r: usize) {
        match self {
            Weekday::Mon => 0,
            Weekday::Tue => 1,
            Weekday::Wed => 2,
            Weekday::Thu => 3,
            Weekday::Fri => 4,
            Weekday::Sat => 5,
            Weekday::Sun => 6,
        }
    }

    fn at_index(i: usize) -> (r: Self) {
        if i == 0 {
            Weekday::Mon
        } else if i == 1 {
            Weekday::Tue
        } else if i == 2 {
            Weekday::Wed
        } else if i == 3 {
            Weekday::Thu
        } else if i == 4 {
            Weekday::Fri
        } else if i == 5 {
            Weekday::Sat
        } else {
            Weekday::Sun
        }
    }

    fn set_name_exec() -> (r: String) {
        String::from_str("WeekdaySet")
    }
}

/// The months of the year: twelve symbols in a 16-bit word.
#[derive(Clone, Copy, PartialEq, Eq, Structural, Debug)]
pub enum Month {
    Jan,
    Feb,
    Mar,
    Apr,
    May,
    Jun,
    Jul,
    Aug,
    Sep,
    Oct,
    Nov,
    Dec,
}

impl Domain for Month {
    type Repr = u16;

    open spec fn count() -> int {
        12
    }

    open spec fn index_of(self) -> int {
        match self {
            Month::Jan => 0,
            Month::Feb => 1,
            Month::Mar => 2,
            Month::Apr => 3,
            Month::May => 4,
            Month::Jun => 5,
            Month::Jul => 6,
            Month::Aug => 7,
            Month::Sep => 8,
            Month::Oct => 9,
            Month::Nov => 10,
            Month::Dec => 11,
        }
    }

    open spec fn symbol_at(i: int) -> Self {
        if i == 0 {
            Month::Jan
        } else if i == 1 {
            Month::Feb
        } else if i == 2 {
            Month::Mar
        } else if i == 3 {
            Month::Apr
        } else if i == 4 {
            Month::May
        } else if i == 5 {
            Month::Jun
        } else if i == 6 {
            Month::Jul
        } else if i == 7 {
            Month::Aug
        } else if i == 8 {
            Month::Sep
        } else if i == 9 {
            Month::Oct
        } else if i == 10 {
            Month::Nov
        } else {
            Month::Dec
        }
    }

    open spec fn set_name() -> Seq<char> {
        "MonthSet"@
    }

    proof fn count_valid() {
    }

    proof fn index_in_range(self) {
    }

    proof fn symbol_at_index_of(self) {
    }

    proof fn index_of_symbol_at(i: int) {
    }

    fn count_exec() -> (r: usize) {
        12
    }

    fn index(&self) -> (r: usize) {
        match self {
            Month::Jan => 0,
            Month::Feb => 1,
            Month::Mar => 2,
            Month::Apr => 3,
            Month::May => 4,
            Month::Jun => 5,
            Month::Jul => 6,
            Month::Aug => 7,
            Month::Sep => 8,
            Month::Oct => 9,
            Month::Nov => 10,
            Month::Dec => 11,
        }
    }

    fn at_index(i: usize) -> (r: Self) {
        if i == 0 {
            Month::Jan
        } else if i == 1 {
            Month::Feb
        } else if i == 2 {
            Month::Mar
        } else if i == 3 {
            Month::Apr
        } else if i == 4 {
            Month::May
        } else if i == 5 {
            Month::Jun
        } else if i == 6 {
            Month::Jul
        } else if i == 7 {
            Month::Aug
        } else if i == 8 {
            Month::Sep
        } else if i == 9 {
            Month::Oct
        } else if i == 10 {
            Month::Nov
        } else {
            Month::Dec
        }
    }

    fn set_name_exec() -> (r: String) {
        String::from_str("MonthSet")
    }
}

/// A domain whose symbols carry no identifiers: its sets render only
/// compactly.
#[derive(Clone, Copy, PartialEq, Eq, Structural, Debug)]
pub enum WithoutDebug {
    A,
    B,
}

impl Domain for WithoutDebug {
    type Repr = u8;

    open spec fn count() -> int {
        2
    }

    open spec fn index_of(self) -> int {
        match self {
            WithoutDebug::A => 0,
            WithoutDebug::B => 1,
        }
    }

    open spec fn symbol_at(i: int) -> Self {
        if i == 0 {
            WithoutDebug::A
        } else {
            WithoutDebug::B
        }
    }

    open spec fn set_name() -> Seq<char> {
        "WithoutDebugSet"@
    }

    proof fn count_valid() {
    }

    proof fn index_in_range(self) {
    }

    proof fn symbol_at_index_of(self) {
    }

    proof fn index_of_symbol_at(i: int) {
    }

    fn count_exec() -> (r: usize) {
        2
    }

    fn index(&self) -> (r: usize) {
        match self {
            WithoutDebug::A => 0,
            WithoutDebug::B => 1,
        }
    }

    fn at_index(i: usize) -> (r: Self) {
        if i == 0 {
            WithoutDebug::A
        } else {
            WithoutDebug::B
        }
    }

    fn set_name_exec() -> (r: String) {
        String::from_str("WithoutDebugSet")
    }
}

/// The ten decimal digits, in a 16-bit word.
#[derive(Clone, Copy, PartialEq, Eq, Structural, Debug)]
pub enum Digit {
    D0,
    D1,
    D2,
    D3,
    D4,
    D5,
    D6,
    D7,
    D8,
    D9,
}

impl Domain for Digit {
    type Repr = u16;

    open spec fn count() -> int {
        10
    }

    open spec fn index_of(self) -> int {
        match self {
            Digit::D0 => 0,
            Digit::D1 => 1,
            Digit::D2 => 2,
            Digit::D3 => 3,
            Digit::D4 => 4,
            Digit::D5 => 5,
            Digit::D6 => 6,
            Digit::D7 => 7,
            Digit::D8 => 8,
            Digit::D9 => 9,
        }
    }

    open spec fn symbol_at(i: int) -> Self {
        if i == 0 {
            Digit::D0
        } else if i == 1 {
            Digit::D1
        } else if i == 2 {
            Digit::D2
        } else if i == 3 {
            Digit::D3
        } else if i == 4 {
            Digit::D4
        } else if i == 5 {
            Digit::D5
        } else if i == 6 {
            Digit::D6
        } else if i == 7 {
            Digit::D7
        } else if i == 8 {
            Digit::D8
        } else {
            Digit::D9
        }
    }

    open spec fn set_name() -> Seq<char> {
        "DigitSet"@
    }

    proof fn count_valid() {
    }

    proof fn index_in_range(self) {
    }

    proof fn symbol_at_index_of(self) {
    }

    proof fn index_of_symbol_at(i: int) {
    }

    fn count_exec() -> (r: usize) {
        10
    }

    fn index(&self) -> (r: usize) {
        match self {
            Digit::D0 => 0,
            Digit::D1 => 1,
            Digit::D2 => 2,
            Digit::D3 => 3,
            Digit::D4 => 4,
            Digit::D5 => 5,
            Digit::D6 => 6,
            Digit::D7 => 7,
            Digit::D8 => 8,
            Digit::D9 => 9,
        }
    }

    fn at_index(i: usize) -> (r: Self) {
        if i == 0 {
            Digit::D0
        } else if i == 1 {
            Digit::D1
        } else if i == 2 {
            Digit::D2
        } else if i == 3 {
            Digit::D3
        } else if i == 4 {
            Digit::D4
        } else if i == 5 {
            Digit::D5
        } else if i == 6 {
            Digit::D6
        } else if i == 7 {
            Digit::D7
        } else if i == 8 {
            Digit::D8
        } else {
            Digit::D9
        }
    }

    fn set_name_exec() -> (r: String) {
        String::from_str("DigitSet")
    }
}

} // verus!
