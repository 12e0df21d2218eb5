use console_logger::layout::{compose, compose_timestamped, continued};
use console_logger::text::{decimal, replace_newlines};

#[test]
fn decimal_of_zero() {
    assert_eq!(decimal(0), "0");
}

#[test]
fn decimal_of_single_digits() {
    assert_eq!(decimal(7), "7");
    assert_eq!(decimal(9), "9");
}

#[test]
fn decimal_keeps_inner_and_trailing_zeros() {
    assert_eq!(decimal(10), "10");
    assert_eq!(decimal(407), "407");
    assert_eq!(decimal(86400), "86400");
}

#[test]
fn decimal_of_the_largest_value() {
    assert_eq!(decimal(u64::MAX), "18446744073709551615");
}

#[test]
fn decimal_agrees_with_the_standard_rendering() {
    for n in [1u64, 12, 99, 100, 101, 999, 1000, 123456789, 1 << 40].iter() {
        assert_eq!(decimal(*n), n.to_string());
    }
}

#[test]
fn text_without_newline_is_kept() {
    assert_eq!(replace_newlines("plain text", "<>"), "plain text");
    assert_eq!(replace_newlines("", "<>"), "");
}

#[test]
fn every_newline_is_replaced() {
    assert_eq!(replace_newlines("a\nb", "<>"), "a<>b");
    assert_eq!(replace_newlines("a\nb\nc", "<>"), "a<>b<>c");
    assert_eq!(replace_newlines("\n", "<>"), "<>");
    assert_eq!(replace_newlines("\n\n", "<>"), "<><>");
    assert_eq!(replace_newlines("x\n", "<>"), "x<>");
    assert_eq!(replace_newlines("\nx", "<>"), "<>x");
}

#[test]
fn replacement_may_hold_a_newline_itself() {
    assert_eq!(replace_newlines("a\nb", "\n | "), "a\n | b");
}

#[test]
fn replacement_keeps_other_characters() {
    assert_eq!(replace_newlines("é\nü\r\t", "-"), "é-ü\r\t");
}

#[test]
fn replacement_agrees_with_the_standard_one() {
    for text in ["", "one", "one\ntwo", "\n\n\n", "a\n\nb\n", "tab\there\nend"].iter() {
        assert_eq!(replace_newlines(text, "\n | "), text.replace('\n', "\n | "));
    }
}

#[test]
fn continuation_puts_the_marker_and_a_blank_behind_each_newline() {
    assert_eq!(continued("a\nb", " | "), "a\n |  b");
    assert_eq!(continued("a\nb\nc", "#"), "a\n# b\n# c");
    assert_eq!(continued("one line", "#"), "one line");
    assert_eq!(continued("", "#"), "");
    assert_eq!(continued("end\n", "#"), "end\n# ");
}

#[test]
fn plain_line_from_parts() {
    assert_eq!(compose("[E]", "boom"), "[E] boom");
    assert_eq!(compose("[E]", "a\n |  b"), "[E] a\n |  b");
}

#[test]
fn plain_line_of_an_empty_body() {
    assert_eq!(compose("[*]", ""), "[*] ");
}

#[test]
fn timestamped_line_from_parts() {
    assert_eq!(
        compose_timestamped("[*]", 0, "app::main", "hello"),
        "[*] [0s, app::main] - hello"
    );
    assert_eq!(compose_timestamped("[D]", 3600, "net", "up"), "[D] [3600s, net] - up");
    assert_eq!(
        compose_timestamped("[T]", 5, "db", "one\n |  two"),
        "[T] [5s, db] - one\n |  two"
    );
}

#[test]
fn a_message_of_k_newlines_gets_k_markers() {
    for k in 0..6usize {
        let message = vec!["seg"; k + 1].join("\n");
        let lines = continued(&message, "MARK");
        assert_eq!(lines.matches("MARK").count(), k);
        assert_eq!(lines.matches("\nMARK seg").count(), k);
        assert_eq!(lines.matches('\n').count(), k);
    }
}
