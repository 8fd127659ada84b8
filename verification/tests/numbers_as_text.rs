use mandlebrot::numerals::is_float_literal;
use mandlebrot::text::get_str_between;

#[test]
fn float_literals_are_recognised() {
    for s in ["0", "1.5", "-0.75", "+3", ".5", "5.", "1e3", "2.5E-4", "inf", "-Infinity", "NaN", "1e+7"] {
        assert!(is_float_literal(s), "{}", s);
        assert!(s.parse::<f64>().is_ok(), "{}", s);
    }
    for s in ["", "x", "-", ".", "1.2.3", "e5", "1e", "1e+", "in", "nan1", "--1", "1 ", "0x10"] {
        assert!(!is_float_literal(s), "{}", s);
        assert!(s.parse::<f64>().is_err(), "{}", s);
    }
}

#[test]
fn text_between_a_longer_start_pattern() {
    assert_eq!(get_str_between("key=value;", "=v", ";"), "value");
    assert_eq!(get_str_between("abc", "", "c"), "b");
}
