//! Numbers, text, tables and sorting.

use ssl_sim::double::Double;
use ssl_sim::names::{comes_before, count_names, Names};
use ssl_sim::sort::sort;
use ssl_sim::table::Table;
use ssl_sim::text::{
    chars_of, digit_char, join, same, string_of, to_decimal, to_lower, to_signed_decimal,
};

fn d(x: f64) -> Double {
    Double::from_bits(x.to_bits())
}

const VALUES: [f64; 10] = [
    f64::NEG_INFINITY,
    -1.5,
    -1.0,
    -5e-324,
    -0.0,
    0.0,
    5e-324,
    1.0,
    f64::INFINITY,
    f64::NAN,
];

#[test]
fn doubles_compare_as_floats_do() {
    for a in VALUES {
        assert_eq!(d(a).is_nan(), a.is_nan());
        assert_eq!(d(a).is_finite(), a.is_finite());
        assert_eq!(d(a).is_positive(), a > 0.0);
        assert_eq!(d(a).negate().to_bits(), (-a).to_bits());
        assert_eq!(d(a).negate().negate(), d(a));
        for b in VALUES {
            assert_eq!(d(a).is_less(d(b)), a < b);
            assert_eq!(d(a).is_at_most(d(b)), a <= b);
            assert_eq!(d(a).is_same(d(b)), a == b);
            let zeros = a == 0.0 && b == 0.0;
            assert_eq!(d(a).ranks_at_most(d(b)), zeros || a.total_cmp(&b).is_le());
        }
    }
    assert_eq!(Double::zero(), d(0.0));
}

#[test]
fn texts_are_built_char_by_char() {
    assert_eq!(join("Grüße ", "12"), "Grüße 12");
    assert_eq!(to_decimal(0), "0");
    assert_eq!(to_decimal(18_446_744_073_709_551_615), "18446744073709551615");
    assert_eq!(to_signed_decimal(-42), "-42");
    assert_eq!(to_signed_decimal(i64::MIN), "-9223372036854775808");
    assert_eq!(to_lower("ReAl-Time Ä"), "real-time Ä");
    assert_eq!(digit_char(11), 'b');
    assert!(same("abc", "abc") && !same("abc", "abd") && !same("abc", "ab"));
    assert_eq!(string_of(&chars_of("naïve")), "naïve");
}

#[test]
fn tables_are_ordered_maps() {
    let mut t: Table<&str> = Table::new();
    for (k, v) in [(5u64, "five"), (1, "one"), (9, "nine"), (5, "FIVE")] {
        t.insert(k, v);
    }
    assert_eq!(t.len(), 3);
    assert_eq!(t.get(5), Some(&"FIVE"));
    assert_eq!(t.get(2), None);
    let keys: Vec<u64> = (0..t.len()).map(|i| t.at(i).0).collect();
    assert_eq!(keys, vec![1, 5, 9]);
    assert_eq!(t.remove_at(1), (5, "FIVE"));
    assert_eq!(t.get(5), None);
}

#[test]
fn names_are_kept_in_order() {
    let mut n: Names<u64> = Names::new();
    for name in ["TIGERs", "AutoRef", "auto", "AutoRef"] {
        let seen = n.get(name).unwrap_or(0);
        n.put(name, seen + 1);
    }
    let listed: Vec<(String, u64)> =
        (0..n.len()).map(|i| (n.name_at(i).clone(), n.value_at(i))).collect();
    assert_eq!(
        listed,
        vec![("AutoRef".to_string(), 2), ("TIGERs".to_string(), 1), ("auto".to_string(), 1)]
    );
    assert!(comes_before("AutoRef", "TIGERs") && comes_before("a", "ab"));
    assert!(!comes_before("a", "a"));
    let counted = count_names(&vec!["x".to_string(), "y".to_string(), "x".to_string()]);
    assert_eq!((counted.get("x"), counted.get("y"), counted.get("z")), (Some(2), Some(1), None));
}

#[test]
fn sorting_orders_and_keeps_every_number() {
    let mut plain: Vec<f64> = vec![3.0, -0.0, f64::INFINITY, 0.0, -7.5, 3.0];
    let sorted = sort(&plain.iter().map(|x| d(*x)).collect());
    plain.sort_by(f64::total_cmp);
    assert_eq!(sorted, plain.iter().map(|x| d(*x)).collect::<Vec<Double>>());
    assert_eq!(sort(&vec![3u32, 1, 2, 1]), vec![1, 1, 2, 3]);
}
