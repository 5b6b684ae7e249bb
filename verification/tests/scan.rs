use indent_scanner::scanner::{indentation, scan, scan_lines, IndentationCounter};
use indent_scanner::token::{ScanError, Token};

fn var(name: &str) -> Token {
    Token::Var(name.to_string())
}

#[test]
fn empty_input_gives_no_tokens() {
    assert_eq!(scan(""), Ok(vec![]));
}

#[test]
fn flat_lines_have_no_structural_tokens() {
    assert_eq!(scan("a\nb\nc\n"), Ok(vec![var("a"), var("b"), var("c")]));
}

#[test]
fn each_deeper_line_gets_one_indent() {
    assert_eq!(
        scan("a\n\tb\n\t\tc\n"),
        Ok(vec![var("a"), Token::Indent, var("b"), Token::Indent, var("c")])
    );
}

#[test]
fn depth_goes_up_and_down_again() {
    assert_eq!(
        scan("a\n\tb\n\t\tc\n\td\ne\n"),
        Ok(vec![
            var("a"),
            Token::Indent,
            var("b"),
            Token::Indent,
            var("c"),
            Token::Dedent,
            var("d"),
            Token::Dedent,
            var("e"),
        ])
    );
}

#[test]
fn a_jump_of_three_gives_three_indents() {
    assert_eq!(
        scan("a\n\t\t\tb\n"),
        Ok(vec![var("a"), Token::Indent, Token::Indent, Token::Indent, var("b")])
    );
}

#[test]
fn a_drop_of_three_gives_three_dedents() {
    assert_eq!(
        scan("\t\t\ta\nb\n"),
        Ok(vec![
            Token::Indent,
            Token::Indent,
            Token::Indent,
            var("a"),
            Token::Dedent,
            Token::Dedent,
            Token::Dedent,
            var("b"),
        ])
    );
}

#[test]
fn space_before_content_is_a_malformed_line() {
    assert_eq!(scan("a\n b\n"), Err(ScanError::MalformedLine { line: 1 }));
}

#[test]
fn missing_last_terminator_is_trailing_input() {
    assert_eq!(scan("a\nb"), Err(ScanError::TrailingInput { line: 1 }));
}

#[test]
fn missing_terminator_on_an_indented_only_line() {
    assert_eq!(scan("\t\tabc"), Err(ScanError::TrailingInput { line: 0 }));
}

#[test]
fn first_line_may_start_indented() {
    assert_eq!(scan("\t\ta\n"), Ok(vec![Token::Indent, Token::Indent, var("a")]));
}

#[test]
fn no_dedent_is_added_after_the_last_line() {
    assert_eq!(scan("a\n\tb\n"), Ok(vec![var("a"), Token::Indent, var("b")]));
}

#[test]
fn carriage_return_line_feed_ends_a_line() {
    assert_eq!(scan("a\r\n\tb\r\n"), Ok(vec![var("a"), Token::Indent, var("b")]));
}

#[test]
fn lone_carriage_return_is_no_terminator() {
    assert_eq!(scan("a\rb\n"), Err(ScanError::MalformedLine { line: 0 }));
    assert_eq!(scan("a\r"), Err(ScanError::MalformedLine { line: 0 }));
}

#[test]
fn blank_line_is_malformed() {
    assert_eq!(scan("a\n\nb\n"), Err(ScanError::MalformedLine { line: 1 }));
    assert_eq!(scan("\n"), Err(ScanError::MalformedLine { line: 0 }));
}

#[test]
fn tabs_without_content_are_malformed() {
    assert_eq!(scan("a\n\t\n"), Err(ScanError::MalformedLine { line: 1 }));
    assert_eq!(scan("a\n\t"), Err(ScanError::MalformedLine { line: 1 }));
}

#[test]
fn two_words_on_a_line_are_malformed() {
    assert_eq!(scan("a b\n"), Err(ScanError::MalformedLine { line: 0 }));
    assert_eq!(scan("a\nb\nc!"), Err(ScanError::MalformedLine { line: 2 }));
}

#[test]
fn tab_after_content_is_malformed() {
    assert_eq!(scan("a\t\n"), Err(ScanError::MalformedLine { line: 0 }));
}

#[test]
fn letters_outside_ascii_are_no_content() {
    assert_eq!(scan("\u{e9}\n"), Err(ScanError::MalformedLine { line: 0 }));
    assert_eq!(scan("a\u{e9}\n"), Err(ScanError::MalformedLine { line: 0 }));
}

#[test]
fn identifiers_hold_letters_and_digits() {
    assert_eq!(scan("abc123XYZ\n\t0\n"), Ok(vec![var("abc123XYZ"), Token::Indent, var("0")]));
}

#[test]
fn error_line_is_reported_by_the_accessor() {
    assert_eq!(ScanError::MalformedLine { line: 7 }.line(), 7);
    assert_eq!(ScanError::TrailingInput { line: 3 }.line(), 3);
    assert_eq!(scan("a\nb\nc\nd").unwrap_err().line(), 3);
}

#[test]
fn indentation_counts_tabs_and_moves_the_counter() {
    let mut counter = IndentationCounter { current: 0 };
    let (rest, tokens) = indentation("\t\tx\n", &mut counter);
    assert_eq!(rest, "x\n");
    assert_eq!(tokens, vec![Token::Indent, Token::Indent]);
    assert_eq!(counter.current, 2);
}

#[test]
fn indentation_emits_dedents_when_shallower() {
    let mut counter = IndentationCounter { current: 5 };
    let (rest, tokens) = indentation("\t\tx", &mut counter);
    assert_eq!(rest, "x");
    assert_eq!(tokens, vec![Token::Dedent, Token::Dedent, Token::Dedent]);
    assert_eq!(counter.current, 2);
}

#[test]
fn indentation_at_the_same_depth_emits_nothing() {
    let mut counter = IndentationCounter { current: 1 };
    let (rest, tokens) = indentation("\t y", &mut counter);
    assert_eq!(rest, " y");
    assert_eq!(tokens, vec![]);
    assert_eq!(counter.current, 1);
}

#[test]
fn indentation_of_empty_text_returns_to_depth_zero() {
    let mut counter = IndentationCounter { current: 2 };
    let (rest, tokens) = indentation("", &mut counter);
    assert_eq!(rest, "");
    assert_eq!(tokens, vec![Token::Dedent, Token::Dedent]);
    assert_eq!(counter.current, 0);
}

#[test]
fn scan_lines_starts_at_the_counters_depth() {
    let mut counter = IndentationCounter { current: 2 };
    assert_eq!(
        scan_lines("a\n\tb\n", &mut counter),
        Ok(vec![Token::Dedent, Token::Dedent, var("a"), Token::Indent, var("b")])
    );
    assert_eq!(counter.current, 1);
}

#[test]
fn scan_lines_leaves_the_counter_alone_on_empty_input() {
    let mut counter = IndentationCounter { current: 4 };
    assert_eq!(scan_lines("", &mut counter), Ok(vec![]));
    assert_eq!(counter.current, 4);
}

#[test]
fn scan_lines_failure_leaves_the_counter_at_the_failing_line() {
    let mut counter = IndentationCounter { current: 0 };
    assert_eq!(
        scan_lines("a\n\tb\n\t\t\t!\n", &mut counter),
        Err(ScanError::MalformedLine { line: 2 })
    );
    assert_eq!(counter.current, 3);
}

fn balance(tokens: &[Token]) -> i64 {
    let mut n: i64 = 0;
    for t in tokens {
        match t {
            Token::Indent => n += 1,
            Token::Dedent => n -= 1,
            Token::Var(_) => {}
        }
    }
    n
}

#[test]
fn balance_after_each_line_is_its_tab_count() {
    let source = "a\n\t\tb\n\t\t\tc\n\td\n\t\t\t\te\nf\n\tg\n";
    let depths: Vec<i64> = vec![0, 2, 3, 1, 4, 0, 1];
    let tokens = scan(source).unwrap();
    let mut line = 0;
    for (i, t) in tokens.iter().enumerate() {
        if let Token::Var(_) = t {
            assert_eq!(balance(&tokens[..=i]), depths[line]);
            line += 1;
        }
    }
    assert_eq!(line, depths.len());
}

#[test]
fn scanning_twice_gives_the_same_tokens() {
    let source = "a\n\tb\nc\n";
    assert_eq!(scan(source), scan(source));
    assert_eq!(scan(source), Ok(vec![var("a"), Token::Indent, var("b"), Token::Dedent, var("c")]));
}

#[test]
fn every_identifier_is_a_run_of_letters_and_digits() {
    let tokens = scan("a1\n\tB2c\n\t\t007\nz\n").unwrap();
    let mut names = 0;
    for t in &tokens {
        if let Token::Var(name) = t {
            assert!(!name.is_empty());
            assert!(name.chars().all(|c| c.is_ascii_alphanumeric()));
            names += 1;
        }
    }
    assert_eq!(names, 4);
}

#[test]
fn one_identifier_per_line_in_source_order() {
    let tokens = scan("x\n\ty\n\tz\n").unwrap();
    let names: Vec<&str> = tokens
        .iter()
        .filter_map(|t| match t {
            Token::Var(name) => Some(name.as_str()),
            _ => None,
        })
        .collect();
    assert_eq!(names, vec!["x", "y", "z"]);
}
