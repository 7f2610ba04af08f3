use benchmarks::number::{
    is_white_space, max_recall, parse_number, parse_number_with_underscores, parse_recall_tested,
    recall_tested_line, recall_tested_text, trim, ParseNumberError,
};
use benchmarks::text::{byte_length, chars_of, decimal_text, join, pad_left};
use std::num::IntErrorKind;

fn kind(s: &str) -> Result<usize, ParseNumberError> {
    s.parse::<usize>().map_err(|e| match e.kind() {
        IntErrorKind::Empty => ParseNumberError::Empty,
        IntErrorKind::InvalidDigit => ParseNumberError::InvalidDigit,
        IntErrorKind::PosOverflow => ParseNumberError::PosOverflow,
        other => panic!("unexpected kind {:?}", other),
    })
}

#[test]
fn numbers_are_read_as_std_reads_them() {
    let max = usize::MAX.to_string();
    let over = format!("{}0", max);
    let cases = [
        "", "0", "7", "42", "+42", "+", "-", "-1", "++1", "1+", " 1", "1 ", "1_0", "x", "12x",
        "000000000000000000000000000001", "18446744073709551615", "18446744073709551616",
        "99999999999999999999", "99999999999999999999x", "9999999999999999999x", "+99999999999999999999",
        "\u{661}", "1\u{661}", &max, &over,
    ];
    for s in cases {
        let chars: Vec<char> = s.chars().collect();
        assert_eq!(parse_number(&chars), kind(s), "{:?}", s);
    }
}

#[test]
fn underscores_are_ignored() {
    assert_eq!(parse_number_with_underscores("10_000"), Ok(10_000));
    assert_eq!(parse_number_with_underscores("_1__0_"), Ok(10));
    assert_eq!(parse_number_with_underscores("10000"), Ok(10_000));
    assert_eq!(parse_number_with_underscores("+1_0"), Ok(10));
    assert_eq!(parse_number_with_underscores(""), Err(ParseNumberError::Empty));
    assert_eq!(parse_number_with_underscores("___"), Err(ParseNumberError::Empty));
    assert_eq!(parse_number_with_underscores("1_x"), Err(ParseNumberError::InvalidDigit));
    assert_eq!(
        parse_number_with_underscores("99_999_999_999_999_999_999"),
        Err(ParseNumberError::PosOverflow)
    );
}

#[test]
fn errors_are_described_as_std_describes_them() {
    for s in ["", "x", "99999999999999999999"] {
        let error = s.parse::<usize>().unwrap_err();
        assert_eq!(kind(s).unwrap_err().describe(), error.to_string());
    }
}

#[test]
fn white_space_is_that_of_unicode() {
    for c in '\0'..=char::MAX {
        assert_eq!(is_white_space(c), c.is_whitespace(), "{:?}", c);
    }
}

#[test]
fn trimming_is_that_of_std() {
    for s in ["", " ", " a ", "a", "\t a b\u{3000}", "\u{200b}a", "  \n"] {
        let chars: Vec<char> = s.chars().collect();
        let inner: String = trim(&chars).iter().collect();
        assert_eq!(inner, s.trim());
    }
}

#[test]
fn recall_lists_are_read() {
    assert_eq!(
        parse_recall_tested("1,10,20,50,100,500").unwrap(),
        vec![1, 10, 20, 50, 100, 500]
    );
    assert_eq!(parse_recall_tested("").unwrap(), Vec::<usize>::new());
    assert_eq!(parse_recall_tested(" , ,").unwrap(), Vec::<usize>::new());
    assert_eq!(parse_recall_tested(" 3 ,,\t4\n").unwrap(), vec![3, 4]);
}

#[test]
fn a_bad_recall_is_named_with_its_place() {
    let error = parse_recall_tested("1,, x ,y").unwrap_err();
    assert_eq!(error.index, 2);
    assert_eq!(error.text, " x ");
    assert_eq!(error.describe(), "Could not parse recall value ` x ` at index `2`.");
    let error = parse_recall_tested("1,-2").unwrap_err();
    assert_eq!(error.describe(), "Could not parse recall value `-2` at index `1`.");
}

#[test]
fn recalls_are_announced_in_fields_of_four() {
    let list = vec![1, 10, 20, 50, 100, 500];
    assert_eq!(recall_tested_text(&list), "   1,   10,   20,   50,  100,  500");
    assert_eq!(
        recall_tested_line(&list),
        "Recall tested is:   [   1,   10,   20,   50,  100,  500]"
    );
    assert_eq!(recall_tested_text(&vec![12345, 7]), "12345,    7");
    assert_eq!(recall_tested_line(&vec![]), "Recall tested is:   []");
}

#[test]
fn announced_recalls_are_read_back() {
    for list in [vec![], vec![0], vec![1, 10, 20], vec![99999, 3, usize::MAX]] {
        assert_eq!(parse_recall_tested(&recall_tested_text(&list)).unwrap(), list);
    }
}

#[test]
fn the_largest_recall_is_found() {
    assert_eq!(max_recall(&vec![]), 0);
    assert_eq!(max_recall(&vec![0, 0]), 0);
    assert_eq!(max_recall(&vec![3, 500, 20]), 500);
}

#[test]
fn decimals_are_those_of_std() {
    for n in [0, 1, 9, 10, 99, 100, 12_345, usize::MAX] {
        assert_eq!(decimal_text(n), n.to_string());
        assert_eq!(parse_number_with_underscores(&decimal_text(n)), Ok(n));
    }
}

#[test]
fn padding_counts_characters() {
    for (s, width) in [("", 0), ("", 3), ("abc", 2), ("abc", 3), ("1.00µs", 8)] {
        assert_eq!(pad_left(s, width), format!("{:>w$}", s, w = width));
    }
}

#[test]
fn lengths_count_bytes() {
    assert_eq!(byte_length("12.34µs"), 8);
    assert_eq!(byte_length(""), 0);
    assert_eq!(byte_length("a€𝄞"), 8);
}

#[test]
fn parts_are_joined() {
    let parts = vec!["a".to_string(), "".to_string(), "b".to_string()];
    assert_eq!(join(&parts, ", "), "a, , b");
    assert_eq!(join(&vec![], ", "), "");
    assert_eq!(join(&vec!["x".to_string()], ", "), "x");
}

#[test]
fn characters_are_taken_one_by_one() {
    assert_eq!(chars_of("aµ€"), vec!['a', 'µ', '€']);
    assert_eq!(chars_of(""), Vec::<char>::new());
}
