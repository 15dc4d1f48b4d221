use pi_calc::expr::{Expr, Reg};
use pi_calc::factorial_calculator::FactorialCalculator;
use pi_calc::series::{term, SeriesPartialSum};

fn whole(n: u64) -> Box<Expr> {
    Box::new(Expr::Int(n))
}

fn entry(i: u64) -> Box<Expr> {
    Box::new(Expr::Get(Reg::Factorial(i)))
}

fn expected_term(k: u64) -> Expr {
    Expr::Div(
        Box::new(Expr::Mul(
            entry(4 * k),
            Box::new(Expr::Add(whole(1103), Box::new(Expr::Mul(whole(26390), whole(k))))),
        )),
        Box::new(Expr::Mul(
            Box::new(Expr::Pow(entry(k), 4)),
            Box::new(Expr::Pow(whole(396), 4 * k)),
        )),
    )
}

fn add_to_sum(k: u64) -> Expr {
    Expr::Add(Box::new(Expr::Get(Reg::Sum)), Box::new(expected_term(k)))
}

#[test]
fn first_entry_is_one() {
    let cache = FactorialCalculator::new(64, 5);
    assert_eq!(cache.entry(0), Expr::Int(1));
}

#[test]
fn later_entry_is_previous_entry_times_index() {
    let cache = FactorialCalculator::new(64, 5);
    assert_eq!(cache.entry(5), Expr::Mul(entry(4), whole(5)));
    assert_eq!(cache.entry(1), Expr::Mul(entry(0), whole(1)));
}

#[test]
fn get_refers_to_entry() {
    let cache = FactorialCalculator::new(64, 5);
    assert_eq!(cache.get(5), Expr::Get(Reg::Factorial(5)));
    assert_eq!(cache.get(0), Expr::Get(Reg::Factorial(0)));
}

#[test]
fn new_keeps_precision_and_size() {
    let cache = FactorialCalculator::new(100, 32);
    assert_eq!(cache.precision, 100);
    assert_eq!(cache.n, 32);
}

#[test]
fn can_serve_asks_for_four_times_the_last_index() {
    let cache = FactorialCalculator::new(64, 8);
    assert!(cache.can_serve(0, 3));
    assert!(!cache.can_serve(0, 4));
    assert!(!cache.can_serve(3, 4));
    assert!(cache.can_serve(7, 7));
    assert!(cache.can_serve(9, 2));
    let small = FactorialCalculator::new(64, 3);
    assert!(small.can_serve(0, 1));
    assert!(!small.can_serve(0, 2));
}

#[test]
fn term_zero_reads_entry_zero() {
    let cache = FactorialCalculator::new(64, 8);
    assert_eq!(term(0, &cache), expected_term(0));
}

#[test]
fn term_two_reads_entries_two_and_eight() {
    let cache = FactorialCalculator::new(64, 8);
    let expected = Expr::Div(
        Box::new(Expr::Mul(
            entry(8),
            Box::new(Expr::Add(whole(1103), Box::new(Expr::Mul(whole(26390), whole(2))))),
        )),
        Box::new(Expr::Mul(
            Box::new(Expr::Pow(entry(2), 4)),
            Box::new(Expr::Pow(whole(396), 8)),
        )),
    );
    assert_eq!(term(2, &cache), expected);
}

#[test]
fn summation_sets_zero_then_adds_each_term() {
    let cache = FactorialCalculator::new(64, 12);
    let mut sum = SeriesPartialSum::new(&(1..3), &cache);
    assert_eq!(sum.pending(), Some(Expr::Int(0)));
    assert_eq!(sum.terms_added(), 0);
    sum.advance(false);
    assert_eq!(sum.pending(), Some(add_to_sum(1)));
    sum.advance(false);
    assert_eq!(sum.terms_added(), 1);
    assert_eq!(sum.pending(), Some(add_to_sum(2)));
    assert!(!sum.is_done());
    sum.advance(false);
    assert_eq!(sum.pending(), None);
    assert!(sum.is_done());
    assert_eq!(sum.terms_added(), 2);
}

#[test]
fn summation_ignores_report_on_zero() {
    let cache = FactorialCalculator::new(64, 12);
    let mut sum = SeriesPartialSum::new(&(0..3), &cache);
    sum.advance(true);
    assert_eq!(sum.pending(), Some(add_to_sum(0)));
    assert!(!sum.is_done());
}

#[test]
fn summation_ends_when_sum_stays_unchanged() {
    let cache = FactorialCalculator::new(64, 400);
    let mut sum = SeriesPartialSum::new(&(0..100), &cache);
    sum.advance(false);
    sum.advance(false);
    sum.advance(false);
    assert_eq!(sum.pending(), Some(add_to_sum(2)));
    sum.advance(true);
    assert!(sum.is_done());
    assert_eq!(sum.pending(), None);
    assert_eq!(sum.terms_added(), 3);
    assert!(sum.terms_added() < 100);
    sum.advance(false);
    assert!(sum.is_done());
    assert_eq!(sum.terms_added(), 3);
}

#[test]
fn summation_of_empty_range_only_sets_zero() {
    let cache = FactorialCalculator::new(64, 0);
    let mut sum = SeriesPartialSum::new(&(5..5), &cache);
    assert_eq!(sum.pending(), Some(Expr::Int(0)));
    sum.advance(false);
    assert!(sum.is_done());
    assert_eq!(sum.terms_added(), 0);
}

#[test]
fn summation_of_inverted_range_holds_no_term() {
    let cache = FactorialCalculator::new(64, 0);
    let range = std::ops::Range { start: 7, end: 2 };
    let mut sum = SeriesPartialSum::new(&range, &cache);
    sum.advance(false);
    assert!(sum.is_done());
    assert_eq!(sum.terms_added(), 0);
}

#[test]
fn constructors_box_their_operands() {
    assert_eq!(Expr::plus(Expr::Int(1), Expr::Int(2)), Expr::Add(whole(1), whole(2)));
    assert_eq!(Expr::times(Expr::Int(1), Expr::Int(2)), Expr::Mul(whole(1), whole(2)));
    assert_eq!(Expr::over(Expr::Int(1), Expr::Int(2)), Expr::Div(whole(1), whole(2)));
    assert_eq!(Expr::power(Expr::Int(3), 2), Expr::Pow(whole(3), 2));
    assert_ne!(Expr::over(Expr::Int(1), Expr::Int(2)), Expr::over(Expr::Int(2), Expr::Int(1)));
}
