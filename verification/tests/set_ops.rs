use enum_bitset::domains::Month;
use enum_bitset::set::Bitset;

type MonthSet = Bitset<Month>;

fn short_months() -> MonthSet {
    MonthSet::from_array([Month::Feb, Month::Apr, Month::Jun, Month::Sep, Month::Nov])
}

fn long_months() -> MonthSet {
    MonthSet::from_array([
        Month::Jan,
        Month::Mar,
        Month::May,
        Month::Jul,
        Month::Aug,
        Month::Oct,
        Month::Dec,
    ])
}

fn odd_months() -> MonthSet {
    MonthSet::from_array([Month::Jan, Month::Mar, Month::May, Month::Jul, Month::Sep, Month::Nov])
}

fn even_months() -> MonthSet {
    MonthSet::from_array([Month::Feb, Month::Apr, Month::Jun, Month::Aug, Month::Oct, Month::Dec])
}

#[test]
fn with_add_short() {
    let short = MonthSet::from_symbol(Month::Feb)
        .with(Month::Apr)
        .with(Month::Jun)
        .with(Month::Sep)
        .with(Month::Nov);
    assert!(short == short_months());
}

#[test]
fn with_add_odd() {
    let odd = MonthSet::from_symbol(Month::Jan)
        .with(Month::Mar)
        .with(Month::May)
        .with(Month::Jul)
        .with(Month::Sep)
        .with(Month::Nov);
    assert!(odd == odd_months());
}

#[test]
fn with_add_even() {
    let even = MonthSet::from_symbol(Month::Feb)
        .with(Month::Apr)
        .with(Month::Jun)
        .with(Month::Aug)
        .with(Month::Oct)
        .with(Month::Dec);
    assert!(even == even_months());
}

#[test]
fn with_add_long() {
    let long = MonthSet::from_symbol(Month::Jan)
        .with(Month::Mar)
        .with(Month::May)
        .with(Month::Jul)
        .with(Month::Aug)
        .with(Month::Oct)
        .with(Month::Dec);
    assert!(long == long_months());
}

#[test]
fn with_or_short() {
    let short = MonthSet::from_symbol(Month::Feb)
        .with(Month::Apr)
        .with(Month::Jun)
        .with(Month::Sep)
        .with(Month::Nov);
    assert!(short == short_months());
}

#[test]
fn with_or_long() {
    let long = MonthSet::from_symbol(Month::Jan)
        .with(Month::Mar)
        .with(Month::May)
        .with(Month::Jul)
        .with(Month::Aug)
        .with(Month::Oct)
        .with(Month::Dec);
    assert!(long == long_months());
}

#[test]
fn with_or_odd() {
    let odd = MonthSet::from_symbol(Month::Jan)
        .with(Month::Mar)
        .with(Month::May)
        .with(Month::Jul)
        .with(Month::Sep)
        .with(Month::Nov);
    assert!(odd == odd_months());
}

#[test]
fn with_or_even() {
    let even = MonthSet::from_symbol(Month::Feb)
        .with(Month::Apr)
        .with(Month::Jun)
        .with(Month::Aug)
        .with(Month::Oct)
        .with(Month::Dec);
    assert!(even == even_months());
}

#[test]
fn add_to_all() {
    let all = short_months().union(&long_months());
    assert!(all == MonthSet::all());

    let all = even_months().union(&odd_months());
    assert!(all == MonthSet::all());
}

#[test]
fn or_to_all() {
    let all = short_months().union(&long_months());
    assert!(all == MonthSet::all());

    let all = even_months().union(&odd_months());
    assert!(all == MonthSet::all());
}

#[test]
fn sub_remove_1() {
    let set = short_months().without(Month::Feb);
    assert!(set.len() == 4);
    assert!(set == MonthSet::from_array([Month::Apr, Month::Jun, Month::Sep, Month::Nov]));
}

#[test]
fn sub_remove_2() {
    let set = short_months().without(Month::Apr).without(Month::Sep);
    assert!(set.len() == 3);
    assert!(set == MonthSet::from_array([Month::Feb, Month::Jun, Month::Nov]));
}

#[test]
fn sub_unexisting() {
    let set = short_months().without(Month::Aug);
    assert!(set.len() == 5);
    assert!(set == short_months());
}

#[test]
fn add_existing() {
    let set = short_months().with(Month::Feb);
    assert!(set.len() == 5);
    assert!(set == short_months());
}

#[test]
fn add_unexisting() {
    let set = short_months().with(Month::Aug);
    assert!(set.len() == 6);
    assert!(
        set == MonthSet::from_array([
            Month::Feb,
            Month::Apr,
            Month::Jun,
            Month::Sep,
            Month::Nov,
            Month::Aug
        ])
    );
}

#[test]
fn symmetric_diff() {
    let set = short_months().symmetric_difference(&long_months());
    assert!(set.is_all());
}

#[test]
fn symmetric_diff_empty() {
    let set = short_months().symmetric_difference(&short_months());
    assert!(set.is_empty());
}

#[test]
fn short_but_not_odd() {
    let set = short_months().difference(&odd_months());
    assert!(set == MonthSet::from([Month::Feb, Month::Apr, Month::Jun]));
}

#[test]
fn short_or_odd_not_both() {
    let set = short_months().symmetric_difference(&odd_months());
    assert!(
        set == MonthSet::from([
            Month::Jan,
            Month::Feb,
            Month::Mar,
            Month::Apr,
            Month::May,
            Month::Jun,
            Month::Jul,
        ])
    );
}

#[test]
fn short_and_odd() {
    let set = short_months().intersection(&odd_months());
    assert!(set == MonthSet::from([Month::Sep, Month::Nov]));
}

#[test]
fn and_empty() {
    let set = short_months().intersection(&long_months());
    assert!(set.is_empty());
}

#[test]
fn ops_with_empty() {
    let empty = MonthSet::empty();
    assert!(empty.union(&short_months()) == short_months());
    assert!(empty.intersection(&short_months()).is_empty());
    assert!(short_months().difference(&empty) == short_months());
}

#[test]
fn ops_with_full() {
    let all = MonthSet::all();
    assert!(all.union(&short_months()).is_all());
    assert!(all.intersection(&short_months()) == short_months());
    assert!(all.difference(&short_months()) == long_months());
}
