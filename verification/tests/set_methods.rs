use enum_bitset::domains::Weekday;
use enum_bitset::set::Bitset;

type WeekdaySet = Bitset<Weekday>;

fn weekend_set() -> WeekdaySet {
    WeekdaySet::from_array([Weekday::Sat, Weekday::Sun])
}

fn workday_set() -> WeekdaySet {
    weekend_set().complement()
}

fn day_is_weekend(day: Weekday) -> bool {
    weekend_set().contains(day)
}

fn day_is_workday(day: Weekday) -> bool {
    workday_set().contains(day)
}

#[test]
fn weekend() {
    assert!(weekend_set() == WeekdaySet::from_array([Weekday::Sat, Weekday::Sun]));
}

#[test]
fn workdays() {
    assert!(
        workday_set()
            == WeekdaySet::from([Weekday::Mon, Weekday::Tue, Weekday::Wed, Weekday::Thu, Weekday::Fri])
    );
}

#[test]
fn is_weekend() {
    assert!(!day_is_weekend(Weekday::Mon));
    assert!(!day_is_weekend(Weekday::Tue));
    assert!(!day_is_weekend(Weekday::Wed));
    assert!(!day_is_weekend(Weekday::Thu));
    assert!(!day_is_weekend(Weekday::Fri));
    assert!(day_is_weekend(Weekday::Sat));
    assert!(day_is_weekend(Weekday::Sun));
}

#[test]
fn is_weekday() {
    assert!(day_is_workday(Weekday::Mon));
    assert!(day_is_workday(Weekday::Tue));
    assert!(day_is_workday(Weekday::Wed));
    assert!(day_is_workday(Weekday::Thu));
    assert!(day_is_workday(Weekday::Fri));
    assert!(!day_is_workday(Weekday::Sat));
    assert!(!day_is_workday(Weekday::Sun));
}

#[test]
fn is_complementary() {
    assert!(workday_set().is_complementary(&weekend_set()));
    assert!(weekend_set().is_complementary(&workday_set()));
}

#[test]
fn union_complements() {
    assert!(workday_set().union(&weekend_set()) == WeekdaySet::all());
    assert!(weekend_set().union(&workday_set()) == WeekdaySet::all());
}

#[test]
fn intersection_complements() {
    assert!(workday_set().intersection(&weekend_set()) == WeekdaySet::empty());
    assert!(weekend_set().intersection(&workday_set()) == WeekdaySet::empty());
}

#[test]
fn union_random_sets() {
    let set1 = WeekdaySet::from([Weekday::Mon, Weekday::Wed, Weekday::Fri]);
    let set2 = WeekdaySet::from([Weekday::Mon, Weekday::Tue, Weekday::Fri]);
    assert!(
        set1.union(&set2)
            == WeekdaySet::from([Weekday::Mon, Weekday::Tue, Weekday::Wed, Weekday::Fri])
    );
    assert!(
        set2.union(&set1)
            == WeekdaySet::from([Weekday::Mon, Weekday::Tue, Weekday::Wed, Weekday::Fri])
    );
}

#[test]
fn intersection_random_sets() {
    let set1 = WeekdaySet::from([Weekday::Mon, Weekday::Wed, Weekday::Fri]);
    let set2 = WeekdaySet::from([Weekday::Mon, Weekday::Tue, Weekday::Fri]);
    assert!(set1.intersection(&set2) == WeekdaySet::from([Weekday::Mon, Weekday::Fri]));
    assert!(set2.intersection(&set1) == WeekdaySet::from([Weekday::Mon, Weekday::Fri]));
}

#[test]
fn union_empty() {
    let set1 = WeekdaySet::from([Weekday::Mon, Weekday::Wed, Weekday::Fri]);
    let set2 = WeekdaySet::empty();
    assert!(set1.union(&set2) == set1);
    assert!(set2.union(&set1) == set1);
}

#[test]
fn intersection_empty() {
    let set1 = WeekdaySet::from([Weekday::Mon, Weekday::Wed, Weekday::Fri]);
    let set2 = WeekdaySet::empty();
    assert!(set1.intersection(&set2) == WeekdaySet::empty());
    assert!(set2.intersection(&set1) == WeekdaySet::empty());
}

#[test]
fn union_with_all() {
    let set1 = WeekdaySet::from([Weekday::Mon, Weekday::Wed, Weekday::Fri]);
    let set2 = WeekdaySet::all();
    assert!(set1.union(&set2) == WeekdaySet::all());
    assert!(set2.union(&set1) == WeekdaySet::all());
}

#[test]
fn intersection_with_all() {
    let set1 = WeekdaySet::from([Weekday::Mon, Weekday::Wed, Weekday::Fri]);
    let set2 = WeekdaySet::all();
    assert!(set1.intersection(&set2) == set1);
    assert!(set2.intersection(&set1) == set1);
}

#[test]
fn difference_complements() {
    assert!(workday_set().difference(&weekend_set()) == workday_set());
    assert!(weekend_set().difference(&workday_set()) == weekend_set());
}

#[test]
fn difference_random_sets() {
    let set1 = WeekdaySet::from([Weekday::Mon, Weekday::Wed, Weekday::Fri]);
    let set2 = WeekdaySet::from([Weekday::Mon, Weekday::Tue, Weekday::Fri]);
    assert!(set1.difference(&set2) == WeekdaySet::from([Weekday::Wed]));
    assert!(set2.difference(&set1) == WeekdaySet::from([Weekday::Tue]));
}

#[test]
fn difference_empty() {
    let set1 = WeekdaySet::from([Weekday::Mon, Weekday::Wed, Weekday::Fri]);
    let set2 = WeekdaySet::empty();
    assert!(set1.difference(&set2) == set1);
    assert!(set2.difference(&set1) == WeekdaySet::empty());
}

#[test]
fn difference_with_all() {
    let set1 = WeekdaySet::from([Weekday::Mon, Weekday::Wed, Weekday::Fri]);
    let set2 = WeekdaySet::all();
    assert!(set1.difference(&set2) == WeekdaySet::empty());
    assert!(
        set2.difference(&set1)
            == WeekdaySet::from([Weekday::Tue, Weekday::Thu, Weekday::Sat, Weekday::Sun])
    );
}

#[test]
fn symmetric_difference_complements() {
    assert!(workday_set().symmetric_difference(&weekend_set()) == WeekdaySet::all());
    assert!(weekend_set().symmetric_difference(&workday_set()) == WeekdaySet::all());
}

#[test]
fn symmetric_difference_random_sets() {
    let set1 = WeekdaySet::from([Weekday::Mon, Weekday::Wed, Weekday::Fri]);
    let set2 = WeekdaySet::from([Weekday::Mon, Weekday::Tue, Weekday::Fri]);
    assert!(set1.symmetric_difference(&set2) == WeekdaySet::from([Weekday::Tue, Weekday::Wed]));
    assert!(set2.symmetric_difference(&set1) == WeekdaySet::from([Weekday::Tue, Weekday::Wed]));
}

#[test]
fn symmetric_difference_empty() {
    let set1 = WeekdaySet::from([Weekday::Mon, Weekday::Wed, Weekday::Fri]);
    let set2 = WeekdaySet::empty();
    assert!(set1.symmetric_difference(&set2) == set1);
    assert!(set2.symmetric_difference(&set1) == set1);
}

#[test]
fn symmetric_difference_with_all() {
    let set1 = WeekdaySet::from([Weekday::Mon, Weekday::Wed, Weekday::Fri]);
    let set2 = WeekdaySet::all();
    assert!(
        set1.symmetric_difference(&set2)
            == WeekdaySet::from([Weekday::Tue, Weekday::Thu, Weekday::Sat, Weekday::Sun])
    );
    assert!(
        set2.symmetric_difference(&set1)
            == WeekdaySet::from([Weekday::Tue, Weekday::Thu, Weekday::Sat, Weekday::Sun])
    );
    assert!(set1.symmetric_difference(&set2) == set1.complement());
}

#[test]
fn is_subset_of_complements() {
    assert!(weekend_set().is_subset_of(&WeekdaySet::all()));
    assert!(!weekend_set().is_subset_of(&workday_set()));
    assert!(!workday_set().is_subset_of(&weekend_set()));
}

#[test]
fn is_subset_of_random_sets_1() {
    let set1 = WeekdaySet::from([Weekday::Mon, Weekday::Wed]);
    let set2 = WeekdaySet::from([Weekday::Mon, Weekday::Tue, Weekday::Wed, Weekday::Fri]);
    assert!(set1.is_subset_of(&set2));
    assert!(!set2.is_subset_of(&set1));
}

#[test]
fn is_subset_of_random_sets_2() {
    let set1 = WeekdaySet::from([Weekday::Mon, Weekday::Wed]);
    let set2 = WeekdaySet::from([Weekday::Mon, Weekday::Wed, Weekday::Fri]);
    let set3 = WeekdaySet::from([Weekday::Tue, Weekday::Thu]);

    assert!(set1.is_subset_of(&set2));
    assert!(!set2.is_subset_of(&set1));
    assert!(!set1.is_subset_of(&set3));
    assert!(set1.is_subset_of(&WeekdaySet::all()));
    assert!(WeekdaySet::empty().is_subset_of(&set1));
}

#[test]
fn is_subset_of_empty() {
    let set1 = WeekdaySet::from([Weekday::Mon, Weekday::Wed, Weekday::Fri]);
    let set2 = WeekdaySet::empty();
    assert!(!set1.is_subset_of(&set2));
    assert!(set2.is_subset_of(&set1));
}

#[test]
fn is_subset_of_all() {
    let set1 = WeekdaySet::from([Weekday::Mon, Weekday::Wed, Weekday::Fri]);
    let set2 = WeekdaySet::all();
    assert!(set1.is_subset_of(&set2));
    assert!(!set2.is_subset_of(&set1));
}

#[test]
fn is_superset_of_complements() {
    assert!(WeekdaySet::all().is_superset_of(&weekend_set()));
    assert!(!workday_set().is_superset_of(&weekend_set()));
    assert!(!weekend_set().is_superset_of(&workday_set()));
}

#[test]
fn is_superset_of_random_sets_1() {
    let set1 = WeekdaySet::from([Weekday::Mon, Weekday::Wed]);
    let set2 = WeekdaySet::from([Weekday::Mon, Weekday::Tue, Weekday::Wed, Weekday::Fri]);
    assert!(!set1.is_superset_of(&set2));
    assert!(set2.is_superset_of(&set1));
}

#[test]
fn is_superset_of_random_sets_2() {
    let set1 = WeekdaySet::from([Weekday::Mon, Weekday::Wed]);
    let set2 = WeekdaySet::from([Weekday::Mon, Weekday::Wed, Weekday::Fri]);
    let set3 = WeekdaySet::from([Weekday::Tue, Weekday::Thu]);

    assert!(!set1.is_superset_of(&set2));
    assert!(set2.is_superset_of(&set1));
    assert!(!set1.is_superset_of(&set3));
    assert!(WeekdaySet::all().is_superset_of(&set1));
    assert!(set1.is_superset_of(&WeekdaySet::empty()));
}

#[test]
fn is_superset_of_empty() {
    let set1 = WeekdaySet::from([Weekday::Mon, Weekday::Wed, Weekday::Fri]);
    let set2 = WeekdaySet::empty();
    assert!(set1.is_superset_of(&set2));
    assert!(!set2.is_superset_of(&set1));
}

#[test]
fn is_superset_of_all() {
    let set1 = WeekdaySet::from([Weekday::Mon, Weekday::Wed, Weekday::Fri]);
    let set2 = WeekdaySet::all();
    assert!(!set1.is_superset_of(&set2));
    assert!(set2.is_superset_of(&set1));
}

#[test]
fn is_disjoint_complements() {
    assert!(weekend_set().is_disjoint(&workday_set()));
    assert!(workday_set().is_disjoint(&weekend_set()));
}

#[test]
fn is_disjoint_random_sets_1() {
    let set1 = WeekdaySet::from([Weekday::Mon, Weekday::Wed]);
    let set2 = WeekdaySet::from([Weekday::Tue, Weekday::Thu]);
    assert!(set1.is_disjoint(&set2));
    assert!(set2.is_disjoint(&set1));

    let set3 = WeekdaySet::from([Weekday::Mon, Weekday::Wed]);
    let set4 = WeekdaySet::from([Weekday::Mon, Weekday::Thu]);
    assert!(!set3.is_disjoint(&set4));
    assert!(!set4.is_disjoint(&set3));
}

#[test]
fn is_disjoint_random_sets_2() {
    let set1 = WeekdaySet::from([Weekday::Mon, Weekday::Wed]);
    let set2 = WeekdaySet::from([Weekday::Tue, Weekday::Thu]);
    let set3 = WeekdaySet::from([Weekday::Mon, Weekday::Fri]);

    assert!(set1.is_disjoint(&set2));
    assert!(set2.is_disjoint(&set1));
    assert!(!set1.is_disjoint(&set3));
    assert!(WeekdaySet::empty().is_disjoint(&set1));
    assert!(!WeekdaySet::all().is_disjoint(&set1));
}

#[test]
fn self_operations() {
    let set = WeekdaySet::from([Weekday::Mon, Weekday::Wed]);
    assert!(set.union(&set) == set);
    assert!(set.intersection(&set) == set);
    assert!(set.difference(&set) == WeekdaySet::empty());
    assert!(set.symmetric_difference(&set) == WeekdaySet::empty());
}

#[test]
fn is_disjoint_empty() {
    let set1 = WeekdaySet::from([Weekday::Mon, Weekday::Wed, Weekday::Fri]);
    let set2 = WeekdaySet::empty();
    assert!(set1.is_disjoint(&set2));
    assert!(set2.is_disjoint(&set1));
}

#[test]
fn is_disjoint_all() {
    let set1 = WeekdaySet::from([Weekday::Mon, Weekday::Wed, Weekday::Fri]);
    let set2 = WeekdaySet::all();
    assert!(!set1.is_disjoint(&set2));
    assert!(!set2.is_disjoint(&set1));
}

#[test]
fn empty_with_empty_operations() {
    let empty1 = WeekdaySet::empty();
    let empty2 = WeekdaySet::empty();

    assert!(empty1.union(&empty2) == WeekdaySet::empty());
    assert!(empty1.intersection(&empty2) == WeekdaySet::empty());
    assert!(empty1.difference(&empty2) == WeekdaySet::empty());
    assert!(empty1.symmetric_difference(&empty2) == WeekdaySet::empty());
    assert!(empty1.is_subset_of(&empty2));
    assert!(empty1.is_superset_of(&empty2));
    assert!(empty1.is_disjoint(&empty2));
}

#[test]
fn all_with_all_operations() {
    let all1 = WeekdaySet::all();
    let all2 = WeekdaySet::all();

    assert!(all1.union(&all2) == WeekdaySet::all());
    assert!(all1.intersection(&all2) == WeekdaySet::all());
    assert!(all1.difference(&all2) == WeekdaySet::empty());
    assert!(all1.symmetric_difference(&all2) == WeekdaySet::empty());
    assert!(all1.is_subset_of(&all2));
    assert!(all1.is_superset_of(&all2));
    assert!(!all1.is_disjoint(&all2));
}
