use multiping::doc::{write_number, Doc};
use multiping::number::{ms, Fraction, Number};
use multiping::order::sort;
use multiping::text::{align_right, decimal_text, pad, parse_number, to_chars};

fn quotient(num: i128, den: u128) -> Number {
    Number { offset: 0, gain: 1, num, den }
}

#[test]
fn milliseconds_are_rounded() {
    assert_eq!(write_number(&ms(12_340_000), 2), "12.34");
    assert_eq!(write_number(&ms(12_346_000), 2), "12.35");
    assert_eq!(write_number(&ms(999_999), 2), "1.00");
    assert_eq!(write_number(&ms(0), 2), "0.00");
    assert_eq!(write_number(&ms(4_999), 2), "0.00");
    assert_eq!(write_number(&ms(5_001), 2), "0.01");
    assert_eq!(write_number(&ms(99_950_001), 1), "100.0");
    assert_eq!(write_number(&ms(u64::MAX), 0), "18446744073710");
}

#[test]
fn ties_go_to_the_even_digit() {
    // All of these are exact in binary, so that the formatter of std sees the
    // same ties.
    let cases: [(i128, u128, usize); 12] = [
        (1, 2, 0),
        (3, 2, 0),
        (5, 2, 0),
        (7, 2, 0),
        (1, 4, 1),
        (3, 4, 1),
        (25, 4, 1),
        (75, 4, 1),
        (1, 8, 2),
        (3, 8, 2),
        (5, 8, 2),
        (1001, 8, 2),
    ];
    for (num, den, precision) in cases {
        assert_eq!(
            write_number(&quotient(num, den), precision),
            format!("{:.*}", precision, num as f64 / den as f64),
            "{num}/{den}"
        );
    }
    assert_eq!(write_number(&quotient(5, 2), 0), "2");
    assert_eq!(write_number(&quotient(1, 8), 2), "0.12");
    assert_eq!(write_number(&quotient(3, 8), 2), "0.38");
}

#[test]
fn numbers_agree_with_floating_point() {
    let mut x: u64 = 1;
    for _ in 0..2_000 {
        x = x.wrapping_mul(6_364_136_223_846_793_005).wrapping_add(1_442_695_040_888_963_407);
        let num = (x >> 40) as i128 - 8_000_000;
        let den = (x % 977 + 1) as u128;
        if num % den as i128 == 0 || (num * 20) % (den as i128) == 0 {
            continue;
        }
        assert_eq!(
            write_number(&quotient(num, den), 1),
            format!("{:.1}", num as f64 / den as f64),
            "{num}/{den}"
        );
    }
}

#[test]
fn negative_numbers() {
    assert_eq!(write_number(&quotient(-1, 2), 1), "-0.5");
    assert_eq!(write_number(&quotient(-5, 4), 1), "-1.2");
    assert_eq!(write_number(&quotient(-1, 100), 1), "-0.0");
    assert_eq!(write_number(&quotient(-1, 100), 1), format!("{:.1}", -0.01));
    assert_eq!(write_number(&Number { offset: 376, gain: -346, num: 1, den: 5 }, 1), "306.8");
    assert_eq!(write_number(&Number { offset: -10, gain: 3, num: 1, den: 2 }, 2), "-8.50");
    assert_eq!(write_number(&Number { offset: 1, gain: -3, num: 1, den: 2 }, 2), "-0.50");
    assert_eq!(write_number(&Number { offset: 1, gain: -2, num: -3, den: 7 }, 3), "1.857");
    assert_eq!(write_number(&Number { offset: 2, gain: -7, num: 6, den: 3 }, 0), "-12");
}

#[test]
fn numbers_with_large_parts() {
    let den = i128::MAX as u128;
    assert_eq!(write_number(&quotient(i128::MAX, den), 2), "1.00");
    assert_eq!(
        write_number(&Number { offset: 0, gain: 100, num: i128::MAX / 3, den }, 15),
        "33.333333333333333"
    );
    assert_eq!(
        write_number(&Number { offset: i64::MAX, gain: 2048, num: 1 << 64, den: 1 }, 0),
        "37788155234994016485375"
    );
    assert_eq!(
        write_number(&Number { offset: 160, gain: 710, num: i128::MAX - 1, den }, 1),
        "870.0"
    );
}

#[test]
fn fractions_compare() {
    let f = |num: u128, den: u128| Fraction { num, den };
    assert!(f(1, 3).less(&f(1, 2)));
    assert!(!f(1, 2).less(&f(1, 3)));
    assert!(!f(2, 4).less(&f(1, 2)));
    assert!(!f(1, 2).less(&f(2, 4)));
    assert!(f(7, 2).less(&f(4, 1)));
    assert!(f(u128::MAX - 1, u64::MAX as u128).less(&f(u128::MAX, u64::MAX as u128)));
    assert!(!f(u128::MAX, 1).less(&f(u128::MAX, 2)));
}

#[test]
fn parts_are_joined() {
    let mut d = Doc::new();
    assert_eq!(d.join(), "");
    d.text("a=");
    d.figure(ms(1_500_000), 1);
    let mut e = Doc::new();
    e.text("|");
    d.append(e);
    assert_eq!(d.join(), "a=1.5|");
}

#[test]
fn decimal_numbers() {
    assert_eq!(decimal_text(0), "0");
    assert_eq!(decimal_text(10), "10");
    assert_eq!(decimal_text(u64::MAX), "18446744073709551615");
}

#[test]
fn numbers_are_read() {
    let read = |s: &str, max: u32| parse_number(to_chars(s).as_slice(), max);
    assert_eq!(read("0", 9), Some(0));
    assert_eq!(read("007", 9), Some(7));
    assert_eq!(read("+5", 9), Some(5));
    assert_eq!(read("10", 9), None);
    assert_eq!(read("4294967295", u32::MAX), Some(u32::MAX));
    assert_eq!(read("4294967296", u32::MAX), None);
    assert_eq!(read("99999999999999999999999999", u32::MAX), None);
    for bad in ["", "+", "-1", " 1", "1 ", "1a", "++1", "٣"] {
        assert_eq!(read(bad, u32::MAX), None, "{bad:?}");
        assert!(bad.parse::<u32>().is_err());
    }
}

#[test]
fn filling_up_with_blanks() {
    assert_eq!(pad("ab", 5), "ab   ");
    assert_eq!(pad("äöü", 5), format!("{:5}", "äöü"));
    assert_eq!(pad("abcdef", 5), "abcdef");
    assert_eq!(align_right("1.5", 6), "   1.5");
    assert_eq!(align_right("1234567.5", 6), "1234567.5");
    assert_eq!(align_right("", 0), "");
}

#[test]
fn sorting_keeps_all_values() {
    assert_eq!(sort(Vec::<u64>::new()), Vec::<u64>::new());
    assert_eq!(sort(vec![3u64]), vec![3]);
    assert_eq!(sort(vec![5u64, 1, 4, 1, 5, 9, 2, 6, 5, 3]), vec![1, 1, 2, 3, 4, 5, 5, 5, 6, 9]);
    let mut v: Vec<u64> = (0..500).map(|i| (i * 7919) % 503).collect();
    let sorted = sort(v.clone());
    v.sort();
    assert_eq!(sorted, v);
}

#[test]
fn losses_agree_with_floating_point_but_for_ties() {
    for sent in 1..=300u32 {
        for lost in 0..=sent {
            if 2_000 * lost % sent == 0 && 2_000 * lost / sent % 2 == 1 {
                continue;
            }
            let n = Number { offset: 0, gain: 100, num: lost as i128, den: sent as u128 };
            let float = lost as f64 / sent as f64 * 100.0;
            assert_eq!(write_number(&n, 1), format!("{float:.1}"), "{lost}/{sent}");
        }
    }
}
