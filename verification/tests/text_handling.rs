use mandlebrot::lines::{join_text, split_text};
use mandlebrot::text::{
    calculate_checksum, check_chesum, count_and_first, get_str_between, parse_usize, push_decimal,
    text_chars, usize_to_string,
};

#[test]
fn checksum_sums_digits() {
    assert_eq!(calculate_checksum(""), 0);
    assert_eq!(calculate_checksum("a1b2\n3"), 6);
    assert_eq!(calculate_checksum("9 9"), 18);
    assert_eq!(calculate_checksum("no digits"), 0);
}

#[test]
fn parse_unsigned_numbers() {
    assert_eq!(parse_usize("42"), Some(42));
    assert_eq!(parse_usize("+7"), Some(7));
    assert_eq!(parse_usize("007"), Some(7));
    assert_eq!(parse_usize(""), None);
    assert_eq!(parse_usize("+"), None);
    assert_eq!(parse_usize("-1"), None);
    assert_eq!(parse_usize("4 2"), None);
    assert_eq!(parse_usize(&usize::MAX.to_string()), Some(usize::MAX));
    assert_eq!(parse_usize("99999999999999999999999"), None);
}

#[test]
fn parse_agrees_with_std() {
    for text in ["0", "12", "+3", "-3", "", "x", "1.5", "18446744073709551616", "+0042"] {
        assert_eq!(parse_usize(text), text.parse::<usize>().ok());
    }
}

#[test]
fn decimal_notation() {
    assert_eq!(usize_to_string(0), "0");
    assert_eq!(usize_to_string(907), "907");
    assert_eq!(usize_to_string(usize::MAX), usize::MAX.to_string());
    let mut s = String::from("n=");
    push_decimal(&mut s, 31);
    assert_eq!(s, "n=31");
}

#[test]
fn number_reads_back() {
    for n in [0usize, 1, 9, 10, 12345, usize::MAX] {
        assert_eq!(parse_usize(&usize_to_string(n)), Some(n));
    }
}

#[test]
fn checksum_line_matches() {
    assert!(check_chesum("a1\n2\n3"));
    assert!(check_chesum("0"));
    assert!(!check_chesum("12\n4"));
    assert!(!check_chesum(""));
    assert!(!check_chesum("5"));
    assert!(!check_chesum("12\nabc"));
}

#[test]
fn text_between_delimiters() {
    assert_eq!(get_str_between("Julia(0.5,-1)", "(", ")"), "0.5,-1");
    assert_eq!(get_str_between("no brackets", "(", ")"), "no brackets");
    assert_eq!(get_str_between("a(b", "(", ")"), "b");
    assert_eq!(get_str_between("x[2.5]y", "[", "]"), "2.5");
    assert_eq!(get_str_between("(a)(b)", "(", ")"), "a");
}

#[test]
fn counting_a_character() {
    assert_eq!(count_and_first("a,b,c", ','), (2, 1));
    assert_eq!(count_and_first("abc", ','), (0, 3));
    assert_eq!(text_chars("héllo").len(), 5);
}

#[test]
fn split_like_std() {
    for (text, pattern) in [("a,b,,c", ","), ("", ","), ("1tsx ts", "ts"), ("abc", "\n"), ("a\n\nb\n", "\n"), ("tsts", "ts"), ("aaa", "aa")] {
        let expected: Vec<String> = text.split(pattern).map(String::from).collect();
        assert_eq!(split_text(text, pattern), expected);
    }
}

#[test]
fn join_like_std() {
    let v = vec![String::from("a"), String::from("b"), String::from("c")];
    assert_eq!(join_text(&v, ", "), "a, b, c");
    assert_eq!(join_text(&vec![], "-"), "");
    assert_eq!(join_text(&vec![String::from("x")], "-"), "x");
}

#[test]
fn split_undoes_join() {
    let v: Vec<String> = vec!["one".into(), "".into(), "three".into()];
    assert_eq!(split_text(&join_text(&v, "\n"), "\n"), v);
}

#[test]
fn join_undoes_split() {
    for text in ["a,b", "", ",,", "x"] {
        assert_eq!(join_text(&split_text(text, ","), ","), text);
    }
}

#[test]
fn text_closed_by_its_own_checksum_passes() {
    for body in ["", "a1\n", "Mandelbrot\n-0.75\n0.1\n1e3\n", "99999\n9\n"] {
        let closed = format!("{}{}", body, calculate_checksum(body));
        assert!(check_chesum(&closed));
    }
    assert!(!check_chesum(&format!("{}{}", "a1\n", 2)));
}
