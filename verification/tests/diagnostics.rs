use mush::engine::diagnostics::error::MushError;
use mush::engine::diagnostics::output::{
    ErrorBuilder, ErrorLevel, ErrorLine, BLUE, BOLD, CYAN, ESCAPE, MIN_GUTTER, RED, YELLOW,
};
use mush::engine::lexer::MushContext;

fn bar(line_number: u64, width: usize) -> String {
    format!("{}{:<width$}|\t{}", CYAN, line_number, ESCAPE, width = width)
}

fn blank_bar(width: usize) -> String {
    format!("{}{}|\t{}", CYAN, " ".repeat(width), ESCAPE)
}

fn plain(line_number: u64, text: &str) -> ErrorLine {
    ErrorLine::EmptyLine { line_number, line_string: text.to_string() }
}

#[test]
fn colours_are_ansi_escapes() {
    assert_eq!(ESCAPE, "\u{1b}[0m");
    assert_eq!(BOLD, "\u{1b}[1m");
    assert_eq!(RED, "\u{1b}[31m");
    assert_eq!(YELLOW, "\u{1b}[33m");
    assert_eq!(BLUE, "\u{1b}[34m");
    assert_eq!(CYAN, "\u{1b}[36m");
    assert_eq!(MIN_GUTTER, 4);
}

#[test]
fn level_labels() {
    assert_eq!(
        ErrorLevel::Help.to_str("E0001".to_string()),
        "\u{1b}[34mHelp [E0001]\u{1b}[0m"
    );
    assert_eq!(
        ErrorLevel::Warning.to_str("W7".to_string()),
        "\u{1b}[33mWarning [W7]\u{1b}[0m"
    );
    assert_eq!(ErrorLevel::Error.to_str(String::new()), "\u{1b}[31mError []\u{1b}[0m");
}

#[test]
fn line_bar_pads_the_number_to_the_gutter() {
    assert_eq!(ErrorLine::get_line_bar(&7, &4), "\u{1b}[36m7   |\t\u{1b}[0m");
    assert_eq!(ErrorLine::get_line_bar(&1234, &4), "\u{1b}[36m1234|\t\u{1b}[0m");
    assert_eq!(ErrorLine::get_line_bar(&0, &2), "\u{1b}[36m0 |\t\u{1b}[0m");
}

#[test]
fn line_bar_never_cuts_the_number() {
    assert_eq!(ErrorLine::get_line_bar(&12345, &4), "\u{1b}[36m12345|\t\u{1b}[0m");
    assert_eq!(ErrorLine::get_line_bar(&10, &0), "\u{1b}[36m10|\t\u{1b}[0m");
    assert_eq!(
        ErrorLine::get_line_bar(&u64::MAX, &1),
        "\u{1b}[36m18446744073709551615|\t\u{1b}[0m"
    );
}

#[test]
fn line_numbers_of_entries() {
    assert_eq!(plain(3, "x").line_number(), 3);
    assert_eq!(
        ErrorLine::SuffixArrowError {
            line_number: 120,
            line_string: String::new(),
            error_msg: String::new(),
        }
        .line_number(),
        120
    );
    assert_eq!(
        ErrorLine::InlineSingleArrowError {
            line_number: u64::MAX,
            offset: 0,
            line_string: String::new(),
            error_msg: String::new(),
        }
        .line_number(),
        u64::MAX
    );
}

#[test]
fn plain_line() {
    assert_eq!(plain(3, "let x").to_str(4), format!("{}let x\n", bar(3, 4)));
}

#[test]
fn line_with_arrow() {
    let line = ErrorLine::SuffixArrowError {
        line_number: 12,
        line_string: "let x".to_string(),
        error_msg: " here".to_string(),
    };
    assert_eq!(
        line.to_str(5),
        "\u{1b}[36m12   |\t\u{1b}[0mlet x \u{1b}[33m<--\u{1b}[0m here\n"
    );
}

#[test]
fn line_with_caret() {
    let line = ErrorLine::InlineSingleArrowError {
        line_number: 2,
        offset: 5,
        line_string: "let $".to_string(),
        error_msg: "Unknown character.".to_string(),
    };
    assert_eq!(
        line.to_str(4),
        "\u{1b}[36m2   |\t\u{1b}[0mlet $\n\u{1b}[36m    |\t\u{1b}[0m    ^ Unknown character.\n"
    );
}

#[test]
fn caret_under_the_first_column() {
    for offset in [0, 1] {
        let line = ErrorLine::InlineSingleArrowError {
            line_number: 2,
            offset,
            line_string: "$".to_string(),
            error_msg: "no".to_string(),
        };
        assert_eq!(line.to_str(4), format!("{}$\n{}^ no\n", bar(2, 4), blank_bar(4)));
    }
}

#[test]
fn empty_builder_renders_nothing() {
    assert_eq!(ErrorBuilder::new().build(), "");
}

#[test]
fn header_with_and_without_level() {
    let report = ErrorBuilder::new()
        .set_header(Some(ErrorLevel::Error), "E0001".to_string(), "Bad".to_string())
        .build();
    assert_eq!(report, "\u{1b}[31mError [E0001]\u{1b}[0m: \u{1b}[1mBad\u{1b}[0m\n");
    let report = ErrorBuilder::new().set_header(None, "E0001".to_string(), "Bad".to_string()).build();
    assert_eq!(report, "Bad");
}

#[test]
fn footer_with_and_without_level() {
    let report = ErrorBuilder::new()
        .set_footer(Some(ErrorLevel::Help), "H1".to_string(), "try this")
        .build();
    assert_eq!(report, "\u{1b}[34mHelp [H1]\u{1b}[0m: try this\n");
    let report = ErrorBuilder::new().set_footer(None, "H1".to_string(), "try this").build();
    assert_eq!(report, "try this");
}

#[test]
fn later_header_replaces_the_earlier() {
    let report = ErrorBuilder::new()
        .set_header(None, String::new(), "one".to_string())
        .set_header(None, String::new(), "two".to_string())
        .build();
    assert_eq!(report, "two");
}

#[test]
fn id_is_kept_and_not_rendered() {
    assert_eq!(ErrorBuilder::new().set_id("E0009").build(), "");
}

#[test]
fn file_banner_ends_at_the_bar() {
    let report = ErrorBuilder::new().set_file_path("src/a.mush".to_string()).build();
    assert_eq!(report, "   \u{1b}[34m-->\u{1b}[0m src/a.mush\n");
    let report = ErrorBuilder::new()
        .set_file_path("a.ms".to_string())
        .add_error_line(plain(7, "x"))
        .build();
    assert_eq!(report, format!("{}{}-->{} a.ms\n{}x\n", " ".repeat(6), BLUE, ESCAPE, bar(7, 7)));
}

#[test]
fn parts_come_in_order() {
    let report = ErrorBuilder::new()
        .set_footer(None, String::new(), "foot\n")
        .add_error_line(plain(2, "two"))
        .set_file_path("a.ms".to_string())
        .set_header(None, String::new(), "head\n".to_string())
        .build();
    assert_eq!(
        report,
        format!("head\n   {}-->{} a.ms\n{}two\nfoot\n", BLUE, ESCAPE, bar(2, 4))
    );
}

#[test]
fn entries_are_sorted_by_line_number() {
    let report = ErrorBuilder::new()
        .add_error_line(plain(3, "three"))
        .add_error_line(plain(1, "one"))
        .add_error_line(plain(2, "two"))
        .build();
    assert_eq!(
        report,
        format!("{}one\n{}two\n{}three\n", bar(1, 4), bar(2, 4), bar(3, 4))
    );
}

#[test]
fn entries_of_one_line_keep_their_order() {
    let report = ErrorBuilder::new()
        .add_error_line(plain(2, "b1"))
        .add_error_line(plain(1, "a1"))
        .add_error_line(plain(2, "b2"))
        .add_error_line(plain(1, "a2"))
        .add_error_line(plain(2, "b3"))
        .build();
    assert_eq!(
        report,
        format!(
            "{}a1\n{}a2\n{}b1\n{}b2\n{}b3\n",
            bar(1, 4),
            bar(1, 4),
            bar(2, 4),
            bar(2, 4),
            bar(2, 4)
        )
    );
}

#[test]
fn building_twice_gives_the_same_report() {
    let mut builder = ErrorBuilder::new()
        .set_header(Some(ErrorLevel::Warning), "W1".to_string(), "m".to_string())
        .set_file_path("a.ms".to_string())
        .add_error_line(plain(9, "nine"))
        .add_error_line(plain(4, "four"))
        .add_error_line(plain(9, "nine again"))
        .set_footer(None, String::new(), "end");
    let first = builder.build();
    let second = builder.build();
    assert_eq!(first, second);
    assert_eq!(
        first,
        format!(
            "{}Warning [W1]{}: {}m{}\n{}{}-->{} a.ms\n{}four\n{}nine\n{}nine again\nend",
            YELLOW,
            ESCAPE,
            BOLD,
            ESCAPE,
            " ".repeat(8),
            BLUE,
            ESCAPE,
            bar(4, 9),
            bar(9, 9),
            bar(9, 9)
        )
    );
}

#[test]
fn gutter_is_four_wide_at_least() {
    let report = ErrorBuilder::new().add_error_line(plain(3, "x")).build();
    assert_eq!(report, "\u{1b}[36m3   |\t\u{1b}[0mx\n");
    let report = ErrorBuilder::new().add_error_line(plain(4, "x")).build();
    assert_eq!(report, "\u{1b}[36m4   |\t\u{1b}[0mx\n");
    let report = ErrorBuilder::new().add_error_line(plain(5, "x")).build();
    assert_eq!(report, "\u{1b}[36m5    |\t\u{1b}[0mx\n");
}

#[test]
fn gutter_is_shared_by_all_entries() {
    let report = ErrorBuilder::new()
        .add_error_line(plain(120, "late"))
        .add_error_line(plain(3, "early"))
        .build();
    let rows: Vec<&str> = report.lines().collect();
    assert_eq!(rows.len(), 2);
    let widths: Vec<usize> = rows
        .iter()
        .map(|row| row.strip_prefix(CYAN).unwrap().find('|').unwrap())
        .collect();
    assert_eq!(widths, vec![120, 120]);
    assert_ne!(widths[0], 4);
    assert_eq!(report, format!("{}early\n{}late\n", bar(3, 120), bar(120, 120)));
}

#[test]
fn caret_row_shares_the_gutter() {
    let report = ErrorBuilder::new()
        .add_error_line(ErrorLine::InlineSingleArrowError {
            line_number: 10,
            offset: 3,
            line_string: "ab$".to_string(),
            error_msg: "m".to_string(),
        })
        .build();
    assert_eq!(report, format!("{}ab$\n{}  ^ m\n", bar(10, 10), blank_bar(10)));
}

#[test]
fn fault_identifiers() {
    let ctx = MushContext::new("a.ms".to_string(), "$".to_string(), 1, 1);
    assert_eq!(
        MushError::UnknownCharacter { unknown_character: '$', ctx: ctx.clone() }.id(),
        "E0001"
    );
    assert_eq!(
        MushError::IncompleteString { partial: String::new(), ctx: ctx.clone() }.id(),
        "E0002"
    );
    assert_eq!(MushError::InvalidEncoding { ctx }.id(), "E0003");
}

#[test]
fn identifier_numbers_are_padded_to_four_digits() {
    assert_eq!(MushError::id_string(0), "E0000");
    assert_eq!(MushError::id_string(7), "E0007");
    assert_eq!(MushError::id_string(42), "E0042");
    assert_eq!(MushError::id_string(999), "E0999");
    assert_eq!(MushError::id_string(1000), "E1000");
    assert_eq!(MushError::id_string(9999), "E9999");
    assert_eq!(MushError::id_string(10000), "E10000");
    assert_eq!(MushError::id_string(123456), "E123456");
}

#[test]
fn fault_context() {
    let ctx = MushContext::new("a.ms".to_string(), "x".to_string(), 4, 1);
    let fault = MushError::IncompleteString { partial: "p".to_string(), ctx: ctx.clone() };
    assert_eq!(fault.ctx(), &ctx);
}

#[test]
fn report_of_an_unknown_character() {
    let fault = MushError::UnknownCharacter {
        unknown_character: '$',
        ctx: MushContext::new("src/a.mush".to_string(), "let $".to_string(), 12, 5),
    };
    let expected = format!(
        "{}Error [E0001]{}: {}Unknown character '$'.{}\n{}{}-->{} src/a.mush\n{}let $\n{}    ^ Unknown character.\n",
        RED,
        ESCAPE,
        BOLD,
        ESCAPE,
        " ".repeat(11),
        BLUE,
        ESCAPE,
        bar(12, 12),
        blank_bar(12)
    );
    assert_eq!(fault.report(), expected);
    assert_eq!(fault.report(), expected);
}

#[test]
fn report_of_an_unterminated_string() {
    let fault = MushError::IncompleteString {
        partial: "abc".to_string(),
        ctx: MushContext::new("a.ms".to_string(), "\"abc".to_string(), 1, 4),
    };
    let expected = format!(
        "{}Error [E0002]{}: {}Unterminated string.{}\n   {}-->{} a.ms\n{}\"abc\n{}   ^ The string is not closed.\n",
        RED,
        ESCAPE,
        BOLD,
        ESCAPE,
        BLUE,
        ESCAPE,
        bar(1, 4),
        blank_bar(4)
    );
    assert_eq!(fault.report(), expected);
}

#[test]
fn report_of_an_invalid_encoding() {
    let fault = MushError::InvalidEncoding {
        ctx: MushContext::new("a.ms".to_string(), "ab".to_string(), 3, 2),
    };
    let expected = format!(
        "{}Error [E0003]{}: {}Invalid UTF-8 encoding.{}\n   {}-->{} a.ms\n{}ab\n{}  ^ No character can be read here.\n",
        RED,
        ESCAPE,
        BOLD,
        ESCAPE,
        BLUE,
        ESCAPE,
        bar(3, 4),
        blank_bar(4)
    );
    assert_eq!(fault.report(), expected);
}

#[test]
fn report_of_an_invalid_encoding_in_the_last_column() {
    let fault = MushError::InvalidEncoding {
        ctx: MushContext::new("a.ms".to_string(), String::new(), 1, 0),
    };
    assert!(fault.report().ends_with(&format!("{}^ No character can be read here.\n", blank_bar(4))));
}
