use minigrep::{line_for_offset, search, search_bytes, search_case_insensitive, search_with_mode};

fn brute_force(query: &str, text: &str) -> Vec<(usize, String)> {
    let q = query.as_bytes();
    let t = text.as_bytes();
    let mut out = Vec::new();
    if q.is_empty() || t.len() < q.len() {
        return out;
    }
    for i in 0..=(t.len() - q.len()) {
        if &t[i..i + q.len()] == q {
            let start = t[..i].iter().rposition(|&b| b == b'\n').map_or(0, |p| p + 1);
            let end = t[i..].iter().position(|&b| b == b'\n').map_or(t.len(), |p| i + p);
            let num = t[..i].iter().filter(|&&b| b == b'\n').count();
            out.push((num, String::from_utf8(t[start..end].to_vec()).unwrap()));
        }
    }
    out
}

#[test]
fn one_result() {
    let query = "duct";
    let contents = "\
Rust:
safe, fast, productive.
Pick three.";

    let expected = vec![(1, String::from("safe, fast, productive."))];

    assert_eq!(expected, search(query, contents));
}

#[test]
fn case_insensitive() {
    let query = "rUSt";
    let contents = "\
Rust:
safe, fast, productive.
Pick three.
Trust me.";

    let expected = vec![(0, String::from("Rust:")), (3, String::from("Trust me."))];

    assert_eq!(expected, search_case_insensitive(query, contents));
}

#[test]
fn insensitive_mode_keeps_original_lines() {
    let query = "rUSt";
    let contents = "Rust:\nsafe, fast, productive.\nPick three.\nTrust me.";

    let expected = vec![(0, String::from("Rust:")), (3, String::from("Trust me."))];

    assert_eq!(expected, search_with_mode(query, contents, true));
}

#[test]
fn query_longer_than_text_is_empty() {
    let result = search("abcdef", "abc");
    assert_eq!(result, vec![]);
}

#[test]
fn absent_query_yields_empty_result() {
    assert_eq!(search("zebra", "Rust:\nsafe, fast, productive."), vec![]);
    assert_eq!(search("a", ""), vec![]);
}

#[test]
fn search_twice_is_identical() {
    let contents = "Rust:\nsafe, fast, productive.\nPick three.";
    let first = search("st", contents);
    let second = search("st", contents);
    assert_eq!(first, second);
    let first_ci = search_case_insensitive("PRO", contents);
    let second_ci = search_case_insensitive("PRO", contents);
    assert_eq!(first_ci, second_ci);
}

#[test]
fn sensitive_search_matches_brute_force() {
    let cases: Vec<(&str, &str)> = vec![
        ("aa", "aaa"),
        ("aba", "ababa"),
        ("aaa", "aaaaa"),
        ("ab", "xxabxxab\nabab"),
        ("duct", "Rust:\nsafe, fast, productive.\nPick three."),
        ("x", "x\nx\nx"),
        ("ba", "aaabbbab\naba"),
        ("newline", "no match at all"),
        ("t", "t"),
    ];
    for (q, t) in cases {
        assert_eq!(search(q, t), brute_force(q, t), "query {:?} text {:?}", q, t);
    }
}

#[test]
fn match_at_text_start_and_end_is_found() {
    let result = search("Ru", "Rust x Ru");
    assert_eq!(
        result,
        vec![(0, String::from("Rust x Ru")), (0, String::from("Rust x Ru"))]
    );
}

#[test]
fn insensitive_folds_letters_only() {
    // case variants of the letters compare equal, and the reported lines
    // keep the original case
    let result = search_case_insensitive("ab", "AB aB");
    assert_eq!(
        result,
        vec![(0, String::from("AB aB")), (0, String::from("AB aB"))]
    );
    // non-letter bytes must agree exactly, in either mode
    assert_eq!(search_case_insensitive("a:b", "x A;B y"), vec![]);
    assert_eq!(search("a:b", "x A;B y"), vec![]);
    let found = search_case_insensitive("a:b", "x a:B y");
    assert_eq!(found, vec![(0, String::from("x a:B y"))]);
}

#[test]
fn insensitive_mode_skip_table_is_case_exact() {
    // the skip table is built from the unfolded query bytes, so an
    // occurrence visible only under folding can be stepped over; the
    // matching case is found
    assert_eq!(search_with_mode("a:b", "x A:B y", true), vec![]);
    assert_eq!(search_case_insensitive("a:b", "x A:B y"), vec![]);
    assert_eq!(
        search("a:b", "x a:b y"),
        vec![(0, String::from("x a:b y"))]
    );
}

#[test]
fn insensitive_search_keeps_non_ascii_lines() {
    // offsets and line spans belong to the original bytes, multi-byte
    // characters included, and the line comes back verbatim
    let result = search_case_insensitive("b", "A\u{c9}B\nxyz");
    assert_eq!(result, vec![(0, String::from("A\u{c9}B"))]);
}

#[test]
fn line_for_offset_span_has_no_newline() {
    let text = b"ab\ncd\nef";
    for offset in 0..=text.len() {
        let (_, start, end) = line_for_offset(text, offset);
        for k in start..end {
            assert_ne!(text[k], b'\n', "offset {}", offset);
        }
    }
    assert_eq!(line_for_offset(text, 4), (1, 3, 5));
    assert_eq!(line_for_offset(text, 0), (0, 0, 2));
    assert_eq!(line_for_offset(text, 2), (0, 0, 2));
    assert_eq!(line_for_offset(text, 8), (2, 6, 8));
}

#[test]
fn byte_search_reports_line_spans() {
    let found = search_bytes(b"aa", b"aaa\nxx", false);
    assert_eq!(found.len(), 2);
    for m in &found {
        assert_eq!(m.line_number, 0);
        assert_eq!(m.line_start, 0);
        assert_eq!(m.line_end, 3);
    }
}
