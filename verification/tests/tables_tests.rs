use num_bigint::BigUint;
use ponderthis_nov::{parse_fibs, parse_seqs, split_lines, BigNat, Parity, Range, Solver};

fn decimals(table: &[BigNat]) -> Vec<String> {
    table.iter().map(|n| BigUint::new(n.digits.clone()).to_string()).collect()
}

#[test]
fn split_lines_trims_each_line() {
    assert_eq!(split_lines("a\nb"), vec!["a", "b"]);
    assert_eq!(split_lines("  a \n\tb\t\n"), vec!["a", "b", ""]);
    assert_eq!(split_lines(""), vec![""]);
    assert_eq!(split_lines("\n"), vec!["", ""]);
    assert_eq!(split_lines("a\r\nb\r\n"), vec!["a", "b", ""]);
    assert_eq!(split_lines(" a b "), vec!["a b"]);
    assert_eq!(split_lines("\u{3000}x\u{a0}\n \u{2003} "), vec!["x", ""]);
}

#[test]
fn parse_seqs_keeps_non_blank_lines() {
    assert_eq!(parse_seqs("AAAA\nCCCCCCCC\n"), vec!["AAAA", "CCCCCCCC"]);
    assert_eq!(parse_seqs("AAAA\n\n   \nCC"), vec!["AAAA", "CC"]);
    assert_eq!(parse_seqs("  ACGT  \r\n\tGG\r\n"), vec!["ACGT", "GG"]);
    assert_eq!(parse_seqs(""), Vec::<String>::new());
    assert_eq!(parse_seqs(" \n\t\n\r\n"), Vec::<String>::new());
    assert_eq!(parse_seqs("A C"), vec!["A C"]);
}

#[test]
fn parse_seqs_agrees_with_lines_and_trim() {
    for text in ["", "a", "a\n", "\na", " a \n\n b\r\nc  ", "x\ry\n", "\u{85}z\u{2028}\n q"] {
        let expected: Vec<String> =
            text.lines().map(|l| l.trim().to_string()).filter(|s| !s.is_empty()).collect();
        assert_eq!(parse_seqs(text), expected);
    }
}

#[test]
fn parse_fibs_reads_one_number_on_each_line() {
    assert_eq!(decimals(&parse_fibs("1\n1\n2\n3\n5\n8\n13\n")), ["1", "1", "2", "3", "5", "8", "13"]);
    assert_eq!(decimals(&parse_fibs(" 21 \r\n34\r\n")), ["21", "34"]);
    assert_eq!(
        decimals(&parse_fibs("354224848179261915075\n573147844013817084101")),
        ["354224848179261915075", "573147844013817084101"]
    );
    assert!(parse_fibs("").is_empty());
}

#[test]
fn parse_fibs_passes_over_what_is_no_number() {
    assert_eq!(decimals(&parse_fibs("1\nabc\n\n2\n-3\n4 5\n0x10\n6")), ["1", "2", "6"]);
    assert_eq!(decimals(&parse_fibs("+7\n++8\n1_000\n_9\n+\n007")), ["7", "1000", "7"]);
}

#[test]
fn parse_fibs_agrees_with_parse() {
    for text in ["", "12\n x\n+3\n", "1_2_\n__\n9999999999999999999999\n٣\n1.5"] {
        let expected: Vec<String> = text
            .lines()
            .filter_map(|l| l.trim().parse::<BigUint>().ok())
            .map(|n| n.to_string())
            .collect();
        assert_eq!(decimals(&parse_fibs(text)), expected);
    }
}

#[test]
fn from_decimal_reads_numerals_only() {
    assert_eq!(BigNat::from_decimal("0").unwrap().to_usize(), Some(0));
    assert_eq!(BigNat::from_decimal("4294967296").unwrap().digits, vec![0, 1]);
    assert_eq!(BigNat::from_decimal("+12").unwrap().to_usize(), Some(12));
    assert_eq!(BigNat::from_decimal("1_0").unwrap().to_usize(), Some(10));
    assert!(BigNat::from_decimal("").is_none());
    assert!(BigNat::from_decimal("+").is_none());
    assert!(BigNat::from_decimal("_1").is_none());
    assert!(BigNat::from_decimal("12a").is_none());
    assert!(BigNat::from_decimal(" 12").is_none());
    assert!(BigNat::from_decimal("-1").is_none());
}

#[test]
fn tables_from_text_decode() {
    let fibs = parse_fibs("1\n1\n2\n3\n5\n");
    let seqs = parse_seqs("AAAA\n\nCCCCCCCC\n");
    let range = Range {
        start: BigNat::from_usize(6),
        end: BigNat::from_usize(9),
        parity: Parity::Even,
    };
    let solver = Solver::new(range, fibs, seqs, 0);
    assert_eq!(solver.solve().unwrap().unwrap().substring, "GGG");
}
