//! The functions of the `math` module.

use yara_syntax::math;
use yara_syntax::math::{CorrelationSums, Points};
use yara_syntax::parser::Parser;

/// The source is a rule without errors.
fn is_rule(source: &str) -> bool {
    Parser::new(source.as_bytes()).build_cst().errors().is_empty()
}

fn entropy_of(data: &[u8]) -> Option<f64> {
    let counts = math::distribution(data)?;
    let mut entropy = 0.0;
    for count in counts {
        if count != 0 {
            let x = count as f64 / data.len() as f64;
            entropy -= x * f64::log2(x);
        }
    }
    Some(entropy)
}

fn deviation_of(data: &[u8], mean: f64) -> Option<f64> {
    let counts = math::distribution(data)?;
    let mut sum = 0.0;
    for (i, count) in counts.iter().enumerate() {
        sum += f64::abs(i as f64 - mean) * *count as f64;
    }
    Some(sum / data.len() as f64)
}

fn mean_of(data: &[u8]) -> Option<f64> {
    let counts = math::distribution(data)?;
    let mut sum = 0.0;
    for (i, count) in counts.iter().enumerate() {
        sum += i as f64 * *count as f64;
    }
    Some(sum / data.len() as f64)
}

fn serial_correlation_of(data: &[u8]) -> Option<f64> {
    let sums = math::correlation_sums(data);
    let len = data.len() as f64;
    let total = sums.total as f64 * sums.total as f64;
    let scc = (len * sums.products as f64 - total) / (len * sums.squares as f64 - total);
    if scc.is_nan() {
        Some(-100000.0)
    } else {
        Some(scc)
    }
}

fn monte_carlo_pi_of(data: &[u8]) -> Option<f64> {
    let points = math::monte_carlo_points(data);
    if points.total == 0 {
        return None;
    }
    let pi = std::f64::consts::PI;
    let guess = 4.0 * (points.inside as f64 / points.total as f64);
    Some((guess - pi).abs() / pi)
}

#[test]
fn min_and_max() {
    assert_eq!(math::min(1, 2), 1);
    assert!(is_rule("import \"math\"\nrule test { condition: math.min(1,2) == 1 }"));
    assert_eq!(math::min(-1, 0), -1);
    assert!(is_rule("import \"math\"\nrule test { condition: math.min(-1,0) == -1 }"));
    assert_eq!(math::max(1, 2), 2);
    assert!(is_rule("import \"math\"\nrule test { condition: math.max(1,2) == 2 }"));
    assert_eq!(math::max(-1, 0), 0);
    assert!(is_rule("import \"math\"\nrule test { condition: math.max(-1,0) == 0 }"));
}

#[test]
fn abs() {
    assert!(is_rule(
        "\n            import \"math\"\n            rule test { condition: math.abs(-1) == 1}"
    ));
    assert_eq!(math::abs(-1), 1);
    assert!(is_rule(
        "\n            import \"math\"\n            rule test { condition: math.abs(1) == 1}"
    ));
    assert_eq!(math::abs(1), 1);
}

#[test]
fn in_range() {
    assert!(math::in_range(1, 1, 2));
    assert!(is_rule("import \"math\"\nrule test { condition: math.in_range(1,1,2)}"));
    assert!(math::in_range(2, 1, 2));
    assert!(is_rule("import \"math\"\nrule test { condition: math.in_range(2,1,2)}"));
    assert!(!math::in_range(3, 1, 2));
    assert!(is_rule("import \"math\"\nrule test { condition: math.in_range(3,1,2)}"));
    assert!(math::in_range(10, 9, 11));
    assert!(is_rule("import \"math\"\nrule test { condition: math.in_range(10,9,11)}"));
    assert!(math::in_range(0, -1, 1));
    assert!(is_rule("import \"math\"\nrule test { condition: math.in_range(0,-1,1)}"));
}

#[test]
fn entropy() {
    assert_eq!(entropy_of(b"AAAAA"), Some(0.0));
    assert_eq!(entropy_of(b"AABB"), Some(1.0));
    let part = math::data_range(b"CCAAACC", 2, 3).unwrap();
    assert_eq!(entropy_of(part), Some(0.0));
    assert!(is_rule("import \"math\"\nrule test { condition: math.entropy(\"AAAAA\") == 0.0 }"));
}

#[test]
fn deviation() {
    assert_eq!(deviation_of(b"AAAAA", 0.0), Some(65.0));
    assert_eq!(deviation_of(b"ABAB", 65.0), Some(0.5));
    let part = math::data_range(b"ABABABAB", 2, 4).unwrap();
    assert_eq!(deviation_of(part, 65.0), Some(0.5));
    assert!(is_rule("import \"math\"\nrule test { condition: math.deviation(2, 4, 65.0) == 0.5 }"));
}

#[test]
fn mean() {
    assert_eq!(mean_of(b"ABCABC"), Some(66.0));
    let part = math::data_range(b"ABCABC", 0, 3).unwrap();
    assert_eq!(mean_of(part), Some(66.0));
    assert!(is_rule("import \"math\"\nrule test { condition: math.mean(0, 3) == 66.0 }"));
}

#[test]
fn serial_correlation() {
    assert_eq!(serial_correlation_of(b"BCA"), Some(-0.5));
    let part = math::data_range(b"ABCABC", 1, 3).unwrap();
    assert_eq!(serial_correlation_of(part), Some(-0.5));
    let part = math::data_range(b"ABCABC", 0, 0).unwrap();
    assert_eq!(serial_correlation_of(part), Some(-100000.0));
}

#[test]
fn monte_carlo_pi() {
    let part = math::data_range(b"123ABCDEF123456987DE", 3, 15).unwrap();
    assert!(monte_carlo_pi_of(part).unwrap() < 0.3);
    assert!(monte_carlo_pi_of(b"ABCDEF123456987").unwrap() < 0.3);
    assert_eq!(monte_carlo_pi_of(b"ABCDE"), None);
}

#[test]
fn extreme_integers() {
    assert_eq!(math::min(i64::MIN, i64::MAX), i64::MIN);
    assert_eq!(math::max(i64::MIN, i64::MAX), i64::MAX);
    assert_eq!(math::abs(i64::MIN + 1), i64::MAX);
    assert_eq!(math::abs(0), 0);
    assert!(!math::in_range(1, 2, 0));
}

#[test]
fn data_ranges() {
    let data = b"ABCDEF";
    assert_eq!(math::data_range(data, 0, 6), Some(&data[..]));
    assert_eq!(math::data_range(data, 2, 3), Some(&data[2..5]));
    assert_eq!(math::data_range(data, 6, 0), Some(&data[6..]));
    assert_eq!(math::data_range(data, 5, 2), None);
    assert_eq!(math::data_range(data, 7, 0), None);
    assert_eq!(math::data_range(data, -1, 1), None);
    assert_eq!(math::data_range(data, 0, -1), None);
    assert_eq!(math::data_range(data, 1, i64::MAX), None);
    assert_eq!(math::data_range(data, -1, -1), None);
    assert_eq!(math::data_range(data, 3, -2), None);
    assert_eq!(math::data_range(data, i64::MIN, 6), None);
    assert_eq!(math::data_range(data, i64::MAX, i64::MAX), None);
}

#[test]
fn distributions_of_parts() {
    let data = b"ABCABA";
    assert_eq!(math::distribution_data(data, 3, 3), math::distribution(b"ABA"));
    assert_eq!(math::distribution_data(data, 3, 3).unwrap()[65], 2);
    assert_eq!(math::distribution_data(data, 0, 6), math::distribution(data));
    assert_eq!(math::distribution_data(data, 3, 0), None);
    assert_eq!(math::distribution_data(data, 6, 0), None);
    assert_eq!(math::distribution_data(data, 3, 4), None);
    assert_eq!(math::distribution_data(data, 0, -1), None);
    assert_eq!(math::distribution_data(data, -1, 1), None);
    assert_eq!(math::distribution_data(data, i64::MAX, i64::MAX), None);
}

#[test]
fn distributions() {
    assert_eq!(math::distribution(b""), None);
    let counts = math::distribution(b"ABCABA").unwrap();
    assert_eq!(counts.len(), 256);
    assert_eq!(counts[65], 3);
    assert_eq!(counts[66], 2);
    assert_eq!(counts[67], 1);
    assert_eq!(counts[0], 0);
    // The counts add up to the length, and weighed with the bytes to the sum.
    assert_eq!(counts.iter().sum::<u64>(), 6);
    let weighed: u64 = counts.iter().enumerate().map(|(i, n)| i as u64 * n).sum();
    assert_eq!(weighed, 65 * 3 + 66 * 2 + 67);
}

#[test]
fn sums_for_the_correlation() {
    let none = CorrelationSums { products: 0, total: 0, squares: 0 };
    assert_eq!(math::correlation_sums(b""), none);
    // A byte alone comes after itself.
    let one = CorrelationSums { products: 25, total: 5, squares: 25 };
    assert_eq!(math::correlation_sums(&[5]), one);
    let three = CorrelationSums { products: 2 * 3 + 3 * 7 + 7 * 2, total: 12, squares: 62 };
    assert_eq!(math::correlation_sums(&[2, 3, 7]), three);
}

#[test]
fn points_of_the_monte_carlo_method() {
    assert_eq!(math::monte_carlo_points(b""), Points { inside: 0, total: 0 });
    assert_eq!(math::monte_carlo_points(&[0; 11]), Points { inside: 1, total: 1 });
    assert_eq!(math::monte_carlo_points(&[255; 12]), Points { inside: 0, total: 2 });
    // On the circle itself is not inside.
    assert_eq!(
        math::monte_carlo_points(&[255, 255, 255, 0, 0, 0]),
        Points { inside: 0, total: 1 }
    );
    assert_eq!(
        math::monte_carlo_points(&[255, 255, 254, 0, 0, 0]),
        Points { inside: 1, total: 1 }
    );
}

/// The sums of bytes that are rotated or reversed are the same.
#[test]
fn sums_of_a_ring() {
    let sums = math::correlation_sums(&[2, 3, 7, 11]);
    let expected = CorrelationSums { products: 6 + 21 + 77 + 22, total: 23, squares: 183 };
    assert_eq!(sums, expected);
    assert_eq!(math::correlation_sums(&[3, 7, 11, 2]), expected);
    assert_eq!(math::correlation_sums(&[7, 11, 2, 3]), expected);
    assert_eq!(math::correlation_sums(&[11, 2, 3, 7]), expected);
    assert_eq!(math::correlation_sums(&[11, 7, 3, 2]), expected);
    assert_ne!(math::correlation_sums(&[3, 2, 7, 11]), expected);
}

/// The order of the groups, and what is left over after them, does not matter.
#[test]
fn points_in_another_order() {
    let expected = Points { inside: 2, total: 3 };
    let (a, b, c) = ([0; 6], [255; 6], [1, 2, 3, 4, 5, 6]);
    assert_eq!(math::monte_carlo_points(&[a, b, c].concat()), expected);
    assert_eq!(math::monte_carlo_points(&[c, a, b].concat()), expected);
    assert_eq!(math::monte_carlo_points(&[b, c, a].concat()), expected);
    let mut longer = [b, a, c].concat();
    longer.extend([7; 5]);
    assert_eq!(math::monte_carlo_points(&longer), expected);
    assert_eq!(math::monte_carlo_points(&[0; 5]), Points { inside: 0, total: 0 });
    assert_eq!(math::monte_carlo_points(&[0; 6]), Points { inside: 1, total: 1 });
}
