use cabas::client::error::AppError;
use cabas::client::number::{parse_amount, render, render_lossless};
use cabas::Rational;

fn parsed(raw: &str) -> Rational {
    parse_amount("amount", raw).expect("valid amount")
}

fn parsed_or_panic(raw: &str) -> Rational {
    parse_amount("amount", raw).expect("a rendered exact amount must re-parse")
}

#[test]
fn every_form_a_cook_types_parses_exactly() {
    assert_eq!(parsed("200"), Rational::from_integer(200));
    assert_eq!(parsed("1.5"), Rational::new(3, 2));
    // The French keyboard's comma.
    assert_eq!(parsed("1,5"), Rational::new(3, 2));
    assert_eq!(parsed("1/2"), Rational::new(1, 2));
    assert_eq!(parsed("1 1/2"), Rational::new(3, 2));
    assert_eq!(parsed("  0.25 "), Rational::new(1, 4));
    assert_eq!(parsed(".5"), Rational::new(1, 2));
}

#[test]
fn a_third_typed_as_a_fraction_stays_a_third() {
    let third = parsed("1/3");
    assert_eq!(
        third.checked_mul(&Rational::from_integer(3)).unwrap(),
        Rational::from_integer(1)
    );
}

#[test]
fn nonsense_and_non_positive_amounts_are_refused() {
    for bad in [
        "", "  ", "one", "1.5.2", "1/0", "-3", "0", "0.0", "1 2 3", "1/2/3", "1e3",
    ] {
        assert!(
            parse_amount("amount", bad).is_err(),
            "{bad:?} should not parse"
        );
    }
}

#[test]
fn whole_numbers_and_kitchen_fractions_render_exactly() {
    assert_eq!(render(Rational::from_integer(200)).text, "200");
    assert_eq!(render(Rational::new(3, 2)).text, "1 1/2");
    assert_eq!(render(Rational::new(1, 3)).text, "1/3");
    assert_eq!(render(Rational::new(2, 3)).text, "2/3");
    assert!(!render(Rational::new(1, 3)).approximate);
}

#[test]
fn tenths_are_decimals_and_not_fractions() {
    assert_eq!(render(Rational::new(13, 10)).text, "1.3");
    assert_eq!(render(Rational::new(1, 5)).text, "0.2");
    assert!(!render(Rational::new(13, 10)).approximate);
}

#[test]
fn awkward_denominators_become_decimals_that_admit_it() {
    // What an imperial conversion leaves behind: 1 oz in grams.
    let ounce = Rational::new(28_349_523_125, 1_000_000_000);
    let rendered = render(ounce);
    assert_eq!(rendered.text, "28.35");
    assert!(rendered.approximate, "a rounded amount must say so");

    // A hundredth is not a nice fraction but is an exact decimal.
    let exact = render(Rational::new(1, 20));
    assert_eq!(exact.text, "0.05");
    assert!(!exact.approximate);
}

#[test]
fn rendering_round_trips_through_parsing_when_it_is_exact() {
    for value in ["200", "1.5", "1/3", "1 1/2", "0.05"] {
        let parsed = parsed(value);
        let rendered = render(parsed);
        assert!(!rendered.approximate);
        assert_eq!(parsed_or_panic(&rendered.text), parsed, "{value}");
    }
}

#[test]
fn an_edit_form_never_loses_precision_to_its_own_rendering() {
    let ounce = Rational::new(28_349_523_125, 1_000_000_000);
    let text = render_lossless(ounce);
    assert_eq!(parsed_or_panic(&text), ounce);
    // The pretty form stays pretty when it can.
    assert_eq!(render_lossless(Rational::new(3, 2)), "1 1/2");
    assert_eq!(render_lossless(Rational::from_integer(200)), "200");
}

#[test]
fn the_refusal_names_the_field_and_what_was_typed() {
    match parse_amount("quantity", "lots") {
        Err(AppError::Invalid { field, detail }) => {
            assert_eq!(field, "quantity");
            assert_eq!(detail, "\"lots\" is not an amount \u{2014} try 200, 1.5 or 1/2");
        }
        other => panic!("expected a refusal, got {other:?}"),
    }
    match parse_amount("quantity", "0") {
        Err(AppError::Invalid { detail, .. }) => {
            assert_eq!(detail, "an amount must be greater than zero")
        }
        other => panic!("expected a refusal, got {other:?}"),
    }
}

#[test]
fn rounding_goes_half_away_from_zero_and_keeps_the_sign() {
    // Half a hundredth rounds away from zero, and says it was rounded.
    let half = render(Rational::new(1, 200));
    assert_eq!(half.text, "0.01");
    assert!(half.approximate);
    let negative = render(Rational::new(-1, 7));
    assert_eq!(negative.text, "-0.14");
    assert!(negative.approximate);
    assert_eq!(render(Rational::new(-3, 2)).text, "-1 1/2");
    assert_eq!(render(Rational::from_integer(-4)).text, "-4");
    // Too small to show: no minus sign in front of a zero.
    assert_eq!(render(Rational::new(-1, 1000)).text, "0");
    assert_eq!(render_lossless(Rational::new(-1, 7)), "-1/7");
}

#[test]
fn a_decimal_with_too_many_places_is_refused() {
    let places = |n: usize| format!("0.{}1", "0".repeat(n - 1));
    assert!(parse_amount("amount", &places(39)).is_err());
    assert_eq!(parsed(&places(38)), Rational::new(1, 100_000_000_000_000_000_000_000_000_000_000_000_000));
}

#[test]
fn an_amount_too_large_for_the_exact_range_is_refused() {
    assert!(parse_amount("amount", "170141183460469231731687303715884105728").is_err());
    assert_eq!(
        parsed("170141183460469231731687303715884105727"),
        Rational::from_integer(i128::MAX)
    );
    assert!(parse_amount("amount", "17014118346046923173168730371588410572.8").is_err());
}

#[test]
fn huge_amounts_render_exactly() {
    assert_eq!(render(Rational::from_integer(i128::MAX)).text, "170141183460469231731687303715884105727");
    assert_eq!(render(Rational::new(i128::MAX, 5)).text, "34028236692093846346337460743176821145.4");
    assert_eq!(render(Rational::new(i128::MAX, 3)).text, "56713727820156410577229101238628035242 1/3");
}
