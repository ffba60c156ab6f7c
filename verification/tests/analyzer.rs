use ffix::analysis::RangeAnalyzer;
use ffix::dyadic::Dyadic;
use ffix::error::Error;
use ffix::format::{Format, RoundingMode};
use ffix::types::Ffix;

fn number(x: f64) -> Dyadic {
    Dyadic::from_bits(x.to_bits()).unwrap()
}

fn committed(f: Format, commits: &[f64]) -> Ffix {
    let mut variable = Ffix::zero(f);
    for x in commits {
        variable.upd(Ffix::new(&number(*x), f)).unwrap();
    }
    variable
}

#[test]
fn names_and_values_must_match_in_number() {
    let f = Format::new(true, 8, 4, RoundingMode::Floor).unwrap();
    let values = vec![Ffix::zero(f), Ffix::one(f)];
    let one_name = vec![String::from("a")];
    assert!(matches!(RangeAnalyzer::new(&values, one_name), Err(Error::ArityMismatch)));
    let three_names = vec![String::from("a"), String::from("b"), String::from("c")];
    assert!(matches!(RangeAnalyzer::new(&values, three_names), Err(Error::ArityMismatch)));
    assert!(matches!(RangeAnalyzer::new(&Vec::new(), vec![String::from("a")]), Err(Error::ArityMismatch)));
    let two_names = vec![String::from("a"), String::from("b")];
    assert_eq!(RangeAnalyzer::new(&values, two_names).ok().unwrap().len(), 2);
}

#[test]
fn an_empty_analyzer_reports_nothing() {
    let analyzer = RangeAnalyzer::new(&Vec::new(), Vec::new()).ok().unwrap();
    assert_eq!(analyzer.len(), 0);
    assert!(analyzer.report().is_empty());
}

#[test]
fn the_report_keeps_the_order_and_gives_the_share_of_the_span() {
    let q8 = Format::new(true, 8, 4, RoundingMode::Floor).unwrap();
    let u8 = Format::new(false, 8, 4, RoundingMode::Floor).unwrap();
    let values = vec![
        committed(q8, &[2.5, -1.0, 0.0]),
        committed(u8, &[15.9375]),
        committed(q8, &[]),
        committed(q8, &[100.0, -100.0]),
    ];
    let names = vec![
        String::from("zeta"),
        String::from("alpha"),
        String::from("idle"),
        String::from("full"),
    ];
    let report = RangeAnalyzer::new(&values, names).ok().unwrap().report();
    assert_eq!(report.len(), 4);

    assert_eq!(report[0].name, "zeta");
    assert_eq!(report[0].lower, -16);
    assert_eq!(report[0].upper, 40);
    assert_eq!(report[0].frac_bits, 4);
    assert_eq!(report[0].percent_numerator, 5600);
    assert_eq!(report[0].percent_denominator, 255);
    let percentage = report[0].percent_numerator as f64 / report[0].percent_denominator as f64;
    assert_eq!(percentage, 100.0 * 3.5 / 15.9375);

    assert_eq!(report[1].name, "alpha");
    assert_eq!((report[1].lower, report[1].upper), (0, 255));
    assert_eq!((report[1].percent_numerator, report[1].percent_denominator), (25500, 255));

    assert_eq!(report[2].name, "idle");
    assert_eq!((report[2].lower, report[2].upper), (0, 0));
    assert_eq!((report[2].percent_numerator, report[2].percent_denominator), (0, 255));

    assert_eq!(report[3].name, "full");
    assert_eq!((report[3].lower, report[3].upper), (-128, 127));
    assert_eq!((report[3].percent_numerator, report[3].percent_denominator), (25500, 255));
}

#[test]
fn the_analyzer_holds_copies_of_the_values() {
    let f = Format::new(true, 8, 4, RoundingMode::Floor).unwrap();
    let mut values = vec![committed(f, &[1.0])];
    let analyzer = RangeAnalyzer::new(&values, vec![String::from("x")]).ok().unwrap();
    values[0].upd(Ffix::new(&number(5.0), f)).unwrap();
    let report = analyzer.report();
    assert_eq!(report[0].upper, 16);
    assert_eq!(values[0].range().upper, 80);
}
