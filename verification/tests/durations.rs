use rust_tab::dur::Duration;
use rust_tab::error::Error;

#[test]
fn new_reduces_to_lowest_terms() {
    let d = Duration::new(4, 8);
    assert_eq!(d.0, 1);
    assert_eq!(d.1, 2);
    let d = Duration::new(6, 4);
    assert_eq!(d.0, 3);
    assert_eq!(d.1, 2);
    let d = Duration::new(7, 7);
    assert_eq!(d.0, 1);
    assert_eq!(d.1, 1);
}

#[test]
fn zero_numerator_canonicalizes() {
    let d = Duration::new(0, 9);
    assert_eq!(d.0, 0);
    assert_eq!(d.1, 1);
    let z = Duration::zero();
    assert_eq!(z.0, 0);
    assert_eq!(z.1, 1);
}

#[test]
fn new_checked_rejects_zero_denominator() {
    assert!(matches!(Duration::new_checked(1, 0), Err(Error::InvalidOp(_))));
    assert!(Duration::new_checked(3, 6).is_ok());
    let d = Duration::new_checked(3, 6).unwrap();
    assert_eq!((d.0, d.1), (1, 2));
}

#[test]
fn named_constructors() {
    assert_eq!(Duration::whole(1), Duration::new(1, 1));
    assert_eq!(Duration::half(1), Duration::new(1, 2));
    assert_eq!(Duration::quarter(2), Duration::new(1, 2));
    assert_eq!(Duration::eighth(1), Duration::new(1, 8));
    assert_eq!(Duration::sixteenth(4), Duration::new(1, 4));
    assert_eq!(Duration::thirtysecond(1), Duration::new(1, 32));
    assert_eq!(Duration::sixtyfourth(2), Duration::new(1, 32));
}

#[test]
fn addition_is_exact() {
    let q = Duration::new(1, 4);
    assert_eq!(q.add_dur(q), Duration::new(1, 2));
    let a = Duration::new(1, 3);
    let b = Duration::new(1, 6);
    assert_eq!(a.add_dur(b), Duration::new(1, 2));
}

#[test]
fn add_basic_leaves_sum_unreduced() {
    let s = Duration::new(1, 4).add_basic(Duration::new(1, 4));
    assert_eq!((s.0, s.1), (8, 16));
}

#[test]
fn subtraction_saturates_at_zero() {
    let a = Duration::new(1, 8);
    let b = Duration::new(1, 2);
    assert_eq!(a.sub_dur(b), Duration::zero());
    assert_eq!(b.sub_dur(a), Duration::new(3, 8));
}

#[test]
fn add_then_sub_cancels() {
    let pairs = [
        (Duration::new(3, 8), Duration::new(1, 6)),
        (Duration::new(0, 1), Duration::new(5, 4)),
        (Duration::new(7, 16), Duration::new(7, 16)),
    ];
    for (a, b) in pairs {
        let sum = a.add_dur(b);
        assert_eq!(sum.sub_dur(b), a);
    }
}

#[test]
fn sub_self_is_zero() {
    let a = Duration::new(5, 12);
    assert_eq!(a.sub_dur(a), Duration::zero());
}

#[test]
fn dotted_and_tuplet() {
    assert_eq!(Duration::new(1, 4).dotted(), Duration::new(3, 8));
    assert_eq!(Duration::new(1, 8).tuplet(3), Duration::new(1, 12));
    assert_eq!(Duration::new(1, 2).mul_num(3), Duration::new(3, 2));
    assert_eq!(Duration::new(1, 2).div_num(4), Duration::new(1, 8));
}

#[test]
fn ordering_by_cross_multiplication() {
    assert!(Duration::new(1, 4) < Duration::new(1, 2));
    assert!(Duration::new(3, 8) > Duration::new(1, 4));
    assert!(Duration::new(2, 8) == Duration::new(1, 4));
    assert!(Duration::new(1, 1) <= Duration::new(4, 4));
}

#[test]
fn parse_base_codes() {
    assert_eq!(Duration::parse("4").unwrap(), Duration::new(1, 4));
    assert_eq!(Duration::parse("1").unwrap(), Duration::new(1, 1));
    assert_eq!(Duration::parse("32").unwrap(), Duration::new(1, 32));
}

#[test]
fn parse_dotted() {
    assert_eq!(Duration::parse("4.").unwrap(), Duration::new(3, 8));
    assert_eq!(Duration::parse("2.").unwrap(), Duration::new(3, 4));
}

#[test]
fn parse_count_prefix() {
    assert_eq!(Duration::parse("3/4").unwrap(), Duration::new(3, 4));
    assert_eq!(Duration::parse("2/8.").unwrap(), Duration::new(3, 8));
    assert_eq!(Duration::parse("0/4").unwrap(), Duration::zero());
}

#[test]
fn parse_triplet_sums_to_quarter() {
    let t = Duration::parse("3:8").unwrap();
    assert_eq!(t.add_dur(t).add_dur(t), Duration::new(1, 4));
}

#[test]
fn parse_rejects_malformed_text() {
    assert!(matches!(Duration::parse(""), Err(Error::ParseError(_))));
    assert!(matches!(Duration::parse("x"), Err(Error::ParseError(_))));
    assert!(matches!(Duration::parse("4.5"), Err(Error::ParseError(_))));
    assert!(matches!(Duration::parse("/4"), Err(Error::ParseError(_))));
    assert!(matches!(Duration::parse("4:"), Err(Error::ParseError(_))));
    assert!(matches!(Duration::parse("1/2/4"), Err(Error::ParseError(_))));
    assert!(matches!(Duration::parse("99999"), Err(Error::ParseError(_))));
}

#[test]
fn parse_rejects_zero_divisors() {
    assert!(matches!(Duration::parse("0"), Err(Error::InvalidOp(_))));
    assert!(matches!(Duration::parse("4:0"), Err(Error::InvalidOp(_))));
}

#[test]
fn icons_for_common_durations() {
    assert_eq!(Duration::new(1, 4).dur_icon(), " 4 ");
    assert_eq!(Duration::new(1, 1).dur_icon(), " 1 ");
    assert_eq!(Duration::new(3, 8).dur_icon(), " 4\u{2022}");
    assert_eq!(Duration::new(1, 12).dur_icon(), " 8\u{2153}");
    assert_eq!(Duration::new(5, 7).dur_icon(), " ? ");
}
