use skipjackd::double::Double;
use skipjackd::named::NamedList;
use skipjackd::text;

#[test]
fn trimming_agrees_with_the_standard_library() {
    for c in (0..0x11_0000u32).filter_map(char::from_u32) {
        assert_eq!(text::is_whitespace(c), c.is_whitespace(), "{c:?}");
    }
    for s in ["", "  ", " a ", "\u{3000}a b\u{85}\n", "a"] {
        assert_eq!(text::trim(s), s.trim());
    }
}

#[test]
fn searching_agrees_with_the_standard_library() {
    for s in ["", "a", "abcabc", "aab", "äöü", "a=b=c", "==", "="] {
        for p in ["", "a", "bc", "aa", "ab", "ö", "abcabcd", "="] {
            assert_eq!(text::contains_str(s, p), s.contains(p));
            assert_eq!(text::starts_with(s, p), s.starts_with(p));
            assert_eq!(text::ends_with(s, p), s.ends_with(p));
        }
        assert_eq!(text::part_before(s, '='), s.split('=').next().unwrap());
        let parts: Vec<String> = s.split('=').map(|p| p.to_string()).collect();
        assert_eq!(text::split(s, '='), parts);
        assert_eq!(text::join(&parts, "="), s);
    }
}

#[test]
fn numbers_are_written_and_read() {
    for n in [0, 1, 9, 10, 12345, u64::MAX] {
        assert_eq!(text::decimal_of(n), n.to_string());
        assert_eq!(text::parse_number(&n.to_string(), u64::MAX), Some(n));
    }
    for n in [0, -1, 42, i64::MIN, i64::MAX] {
        assert_eq!(text::signed_decimal_of(n), n.to_string());
    }
    for s in ["", "+", "-1", "1x", " 1", "+7", "007", "18446744073709551616"] {
        assert_eq!(text::parse_number(s, u64::MAX), s.parse::<u64>().ok(), "{s}");
    }
    assert_eq!(text::parse_number("256", 255), None);
}

#[test]
fn paths_are_joined() {
    assert_eq!(text::join_path("/tmp", "a.sock"), "/tmp/a.sock");
    assert_eq!(text::join_path("/tmp/", "a.sock"), "/tmp/a.sock");
    assert_eq!(text::join_path("", "a"), "a");
    assert_eq!(text::join_path("/tmp", "/abs"), "/abs");
}

#[test]
fn reciprocals_are_those_of_the_machine() {
    let check = |n: u64| {
        let bits = Double::reciprocal(n).to_bits();
        assert_eq!(bits, (1.0 / (n as f64)).to_bits(), "{n}");
    };
    for n in 1..5000 {
        check(n);
    }
    for shift in 12..64 {
        for d in 0..40 {
            check((1u64 << shift) + d);
            check((1u64 << shift) - d);
        }
    }
    check(u64::MAX);
    check(u64::MAX - 1023);
    check(u64::MAX - 1024);
}

#[test]
fn shares_of_successors_are_those_of_the_machine() {
    let check = |n: u64| {
        let bits = Double::successor_share(n).to_bits();
        assert_eq!(bits, (1.0 / (1.0 + n as f64)).to_bits(), "{n}");
    };
    for n in 0..5000 {
        check(n);
    }
    for shift in 12..64 {
        for d in 0..40 {
            check((1u64 << shift) + d);
            check((1u64 << shift) - d);
        }
    }
    for d in 0..5000 {
        check(u64::MAX - d);
    }
}

#[test]
fn doubles_compare_as_numbers() {
    let values = [
        f64::NEG_INFINITY,
        -1.5,
        -f64::MIN_POSITIVE,
        -0.0,
        0.0,
        5e-324,
        0.5,
        1.0,
        f64::INFINITY,
    ];
    for a in values {
        for b in values {
            let x = Double::from_bits(a.to_bits()).unwrap();
            let y = Double::from_bits(b.to_bits()).unwrap();
            assert_eq!(x.less_than(&y), a < b, "{a} {b}");
        }
    }
    assert_eq!(Double::from_bits(f64::NAN.to_bits()), None);
    assert_eq!(Double::from_bits((-f64::NAN).to_bits()), None);
    assert_eq!(Double::zero().to_bits(), 0f64.to_bits());
    assert_eq!(Double::half().to_bits(), 0.5f64.to_bits());
    assert_eq!(Double::one().to_bits(), 1f64.to_bits());
}

#[test]
fn named_values_are_found_and_replaced() {
    let mut list = NamedList::new();
    list.set("a".to_string(), 1);
    list.set("b".to_string(), 2);
    list.set("a".to_string(), 3);
    assert_eq!(list.get("a"), Some(&3));
    assert_eq!(list.get("b"), Some(&2));
    assert_eq!(list.get("c"), None);
    *list.get_mut("b").unwrap() = 5;
    assert_eq!(list.get("b"), Some(&5));
}
