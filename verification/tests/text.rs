use rs_bom::books::{book_at, book_data_from_candidate_title, find_book};
use rs_bom::text::{
    char_is_whitespace, chars_of, copy_range, count_leading_whitespace, count_lines,
    count_trailing_whitespace, find, folded, is_one_of, push_decimal, push_str,
    read_number, same_text, split_blocks, split_on, string_of, trimmed, without_outer_newlines,
};
use rs_bom::Work;

fn chars(s: &str) -> Vec<char> {
    s.chars().collect()
}

fn pieces(v: Vec<Vec<char>>) -> Vec<String> {
    v.iter().map(|p| p.iter().collect()).collect()
}

#[test]
fn whitespace_is_what_the_standard_library_trims() {
    for code in 0u32..0x11000 {
        if let Some(c) = char::from_u32(code) {
            assert_eq!(char_is_whitespace(c), c.is_whitespace(), "U+{:04X}", code);
        }
    }
}

#[test]
fn trimming() {
    assert_eq!(string_of(&trimmed(&chars("  Alma \t\n"))), "Alma");
    assert_eq!(string_of(&trimmed(&chars("\u{3000}a b\u{a0}"))), "a b");
    assert_eq!(string_of(&trimmed(&chars("   "))), "");
    assert_eq!(string_of(&trimmed(&chars(""))), "");
    assert_eq!(count_leading_whitespace(&chars("  a ")), 2);
    assert_eq!(count_trailing_whitespace(&chars("  a ")), 1);
    assert_eq!(count_leading_whitespace(&chars("   ")), 3);
    assert_eq!(string_of(&without_outer_newlines(&chars("\n\n a\nb \n"))), " a\nb ");
    assert_eq!(string_of(&without_outer_newlines(&chars("\n\n"))), "");
}

#[test]
fn strings_and_characters() {
    assert_eq!(chars_of("a–b"), vec!['a', '–', 'b']);
    assert_eq!(string_of(&['a', '–', 'b']), "a–b");
    assert_eq!(copy_range(&chars("abcdef"), 2, 4), vec!['c', 'd']);
    let mut out = chars("x");
    push_str(&mut out, "yz!");
    push_decimal(&mut out, 0);
    push_decimal(&mut out, 1203);
    push_decimal(&mut out, usize::MAX);
    assert_eq!(string_of(&out), format!("xyz!01203{}", usize::MAX));
    assert!(same_text(&chars("abc"), &chars("abc")));
    assert!(!same_text(&chars("abc"), &chars("abd")));
    assert!(!same_text(&chars("abc"), &chars("ab")));
    assert!(is_one_of('b', &['a', 'b']));
    assert!(!is_one_of('c', &['a', 'b']));
}

#[test]
fn numbers() {
    assert_eq!(read_number(&chars("0")), Some(0));
    assert_eq!(read_number(&chars("+0")), Some(0));
    assert_eq!(read_number(&chars("0042")), Some(42));
    assert_eq!(read_number(&chars("")), None);
    assert_eq!(read_number(&chars("+")), None);
    assert_eq!(read_number(&chars("++1")), None);
    assert_eq!(read_number(&chars("-1")), None);
    assert_eq!(read_number(&chars("1 ")), None);
    assert_eq!(read_number(&chars("١")), None);
    assert_eq!(read_number(&chars(&usize::MAX.to_string())), Some(usize::MAX));
    let mut too_big = usize::MAX.to_string();
    too_big.push('0');
    assert_eq!(read_number(&chars(&too_big)), None);
    for case in ["7", "+7", "007", "x", "", "+", "18446744073709551615", "18446744073709551616"] {
        assert_eq!(read_number(&chars(case)), case.parse::<usize>().ok(), "{:?}", case);
    }
}

#[test]
fn splitting() {
    assert_eq!(pieces(split_on(&chars("a;b;;c"), &[';'])), vec!["a", "b", "", "c"]);
    assert_eq!(pieces(split_on(&chars(""), &[';'])), vec![""]);
    assert_eq!(pieces(split_on(&chars(";"), &[';'])), vec!["", ""]);
    assert_eq!(pieces(split_on(&chars("1-2–3—4"), &['–', '-', '—'])), vec!["1", "2", "3", "4"]);
    for case in ["", "a", "a;b", ";a;", ";;", "abc;def;g"] {
        let expected: Vec<String> = case.split(';').map(|p| p.to_string()).collect();
        assert_eq!(pieces(split_on(&chars(case), &[';'])), expected);
    }
}

#[test]
fn blocks() {
    assert_eq!(pieces(split_blocks(&chars("a\n\nb"))), vec!["a", "b"]);
    assert_eq!(pieces(split_blocks(&chars("a\n\n\nb\nc\n"))), vec!["a", "b\nc"]);
    assert_eq!(pieces(split_blocks(&chars("a\n\n\n\nb"))), vec!["a", "b"]);
    assert_eq!(pieces(split_blocks(&chars(""))), Vec::<String>::new());
    assert_eq!(pieces(split_blocks(&chars("\n\n\n"))), vec![""]);
    for case in ["", "a", "\n", "\n\n", "\n\n\n", "a\n\nb", "a\n\n\nb", "\na\n\n\n\n\nb\n\n", "a\nb\n\nc"] {
        let expected: Vec<String> = case
            .split("\n\n")
            .filter(|l| !l.is_empty())
            .map(|l| l.trim_matches('\n').to_string())
            .collect();
        assert_eq!(pieces(split_blocks(&chars(case))), expected, "{:?}", case);
    }
}

#[test]
fn lines() {
    for case in ["", "a", "a\n", "a\nb", "\n", "\n\n", "a\n\nb\n", "a\r\nb"] {
        assert_eq!(count_lines(&chars(case)), case.lines().count(), "{:?}", case);
    }
    assert_eq!(string_of(&folded(&chars("a\nb\n\nc"))), "a b  c");
}

#[test]
fn finding() {
    assert_eq!(find(&chars("  Alma Alma"), &chars("Alma")), Some(2));
    assert_eq!(find(&chars("Alma"), &chars("Alma")), Some(0));
    assert_eq!(find(&chars("Alm"), &chars("Alma")), None);
    assert_eq!(find(&chars("xyz"), &chars("")), Some(0));
    assert_eq!(find(&chars(""), &chars("")), Some(0));
    assert_eq!(find(&chars("aab"), &chars("ab")), Some(1));
}

#[test]
fn book_table() {
    assert_eq!(book_at(0).long_name, "Genesis");
    assert_eq!(book_at(38).short_name, "Mal.");
    assert_eq!(book_at(39).long_name, "Matthew");
    assert_eq!(book_at(65).url_name, "rev");
    assert_eq!(book_at(66).short_name, "1 Ne.");
    assert_eq!(book_at(80).long_name, "Moroni");
    for row in 0..81 {
        let book = book_at(row);
        let found = find_book(book.work, book.book_index).unwrap();
        assert_eq!(found.long_name, book.long_name);
        for name in [book.long_name, book.short_name] {
            let by_name = book_data_from_candidate_title(&chars(name)).unwrap();
            assert_eq!(by_name.long_name, book.long_name);
            assert_eq!(by_name.work, book.work);
            assert_eq!(by_name.book_index, book.book_index);
        }
    }
    assert!(find_book(Work::OldTestament, 39).is_none());
    assert!(find_book(Work::NewTestament, 27).is_none());
    assert!(find_book(Work::BookOfMormon, 15).is_none());
    assert!(book_data_from_candidate_title(&chars("alma")).is_none());
    assert!(book_data_from_candidate_title(&chars("Alma ")).is_none());
    assert_eq!(Work::OldTestament.url_name(), "ot");
    assert_eq!(Work::NewTestament.url_name(), "nt");
    assert_eq!(Work::BookOfMormon.url_name(), "bofm");
}
