use digit_pipeline::samples::person::{Bar, Person};
use digit_pipeline::samples::units::{
    difference1, difference2, old_enough, Container, Contains1, Contains2, Days, Years,
};

#[test]
fn years_to_days() {
    assert_eq!(Years(5).to_days(), Days(1825));
    assert_eq!(Years(0).to_days(), Days(0));
    assert_eq!(Years(-2).to_days(), Days(-730));
    assert_eq!(Years(42).to_days(), Days(15330));
}

#[test]
fn days_to_years_drops_partial_years() {
    assert_eq!(Days(1825).to_years(), Years(5));
    assert_eq!(Days(364).to_years(), Years(0));
    assert_eq!(Days(365).to_years(), Years(1));
    assert_eq!(Days(729).to_years(), Years(1));
    assert_eq!(Days(-364).to_years(), Years(0));
    assert_eq!(Days(-366).to_years(), Years(-1));
    assert_eq!(Days(i64::MIN).to_years(), Years(i64::MIN / 365));
}

#[test]
fn days_and_back() {
    for y in [-100i64, -1, 0, 1, 5, 18, 25_000_000_000_000_000] {
        assert_eq!(Years(y).to_days().to_years(), Years(y));
    }
}

#[test]
fn old_enough_from_eighteen() {
    assert!(!old_enough(&Years(5)));
    assert!(!old_enough(&Years(17)));
    assert!(old_enough(&Years(18)));
    assert!(old_enough(&Years(5).to_days().to_years()) == false);
    assert!(old_enough(&Days(18 * 365).to_years()));
}

#[test]
fn container_by_type_parameters() {
    let container = Container(3, 10);
    assert!(container.contains1(&3, &10));
    assert!(!container.contains1(&10, &3));
    assert!(!container.contains1(&3, &11));
    assert_eq!(container.first1(), 3);
    assert_eq!(container.last1(), 10);
    assert_eq!(difference1(&container), 7);
    assert_eq!(difference1(&Container(10, 3)), -7);
}

#[test]
fn container_by_associated_types() {
    let container = Container(3, 10);
    assert!(container.contains2(&3, &10));
    assert!(!container.contains2(&4, &10));
    assert_eq!(container.first2(), 3);
    assert_eq!(container.last2(), 10);
    assert_eq!(difference2(&container), 7);
    assert_eq!(difference2(&Container(i32::MIN, -1)), i32::MAX);
}

#[test]
fn person_says_hello() {
    let john = Person::new("John");
    assert_eq!(john.name(), "John");
    assert_eq!(john.hello(), "Hello, John!");
    assert_eq!(Person::new("").hello(), "Hello, !");
    assert_eq!(Person::new("Zo\u{eb}").hello(), "Hello, Zo\u{eb}!");
}

#[test]
fn bar_is_a_unit() {
    assert_eq!(Bar, Bar);
    assert_eq!(std::mem::size_of::<Bar>(), 0);
}
