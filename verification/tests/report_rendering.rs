use trial_and_error::{Error, ErrorRecord, Indented, Report};

fn chain(messages: &[&str]) -> ErrorRecord {
    let mut error = ErrorRecord::new(messages[messages.len() - 1]);
    for message in messages[..messages.len() - 1].iter().rev() {
        error = ErrorRecord::new_with_source(message, error);
    }
    error
}

fn indent(needs_indent: bool, format: Option<usize>, text: &str) -> (String, bool) {
    let mut writer = Indented { needs_indent, first_line: true, format };
    let mut out = String::new();
    writer.write_str(&mut out, text);
    assert_eq!(writer.format, format);
    (out, writer.needs_indent)
}

#[test]
fn new_report_is_single_line() {
    let report = Report::new(chain(&["outer", "inner"]));
    assert_eq!(report.render(), "outer: inner");
}

#[test]
fn from_gives_the_default_report() {
    let report = Report::from(chain(&["outer", "inner"]));
    assert_eq!(report.render(), "outer: inner");
}

#[test]
fn single_line_joins_the_whole_chain() {
    let report = Report::new(chain(&["e0", "e1", "e2", "e3"]));
    assert_eq!(report.render(), "e0: e1: e2: e3");
}

#[test]
fn single_line_keeps_line_feeds_of_the_texts() {
    let report = Report::new(chain(&["a\nb", "c\n"]));
    assert_eq!(report.render(), "a\nb: c\n");
}

#[test]
fn single_line_of_empty_texts() {
    let report = Report::new(chain(&["", "", ""]));
    assert_eq!(report.render(), ": : ");
}

#[test]
fn single_line_never_shows_the_backtrace() {
    let error = chain(&["outer", "inner"]).with_backtrace("frame 0\nframe 1\n");
    let report = Report::new(error).show_backtrace(true);
    assert_eq!(report.render(), "outer: inner");
}

#[test]
fn pretty_can_be_switched_off_again() {
    let report = Report::new(chain(&["outer", "inner"])).pretty(true).pretty(false);
    assert_eq!(report.render(), "outer: inner");
}

#[test]
fn options_are_independent() {
    let error = chain(&["outer", "inner"]).with_backtrace("trace");
    let report = Report::new(error).show_backtrace(true).pretty(true).show_backtrace(false);
    assert_eq!(report.render(), "outer\n\nCaused by:\n    inner");
}

#[test]
fn rendering_is_repeatable() {
    let report = Report::new(chain(&["outer", "middle", "inner"])).pretty(true);
    let first = report.render();
    let second = report.render();
    assert_eq!(first, second);
    assert_eq!(first, "outer\n\nCaused by:\n   0: middle\n   1: inner");
}

#[test]
fn fmt_appends_to_what_is_there() {
    let report = Report::new(chain(&["outer", "inner"]));
    let mut out = String::from("Error: ");
    report.fmt(&mut out);
    assert_eq!(out, "Error: outer: inner");

    let mut out = String::from(">> ");
    report.fmt_singleline(&mut out);
    assert_eq!(out, ">> outer: inner");

    let mut out = String::from(">> ");
    report.fmt_multiline(&mut out);
    assert_eq!(out, ">> outer\n\nCaused by:\n    inner");
}

#[test]
fn fmt_follows_the_pretty_option() {
    let error = chain(&["outer", "inner"]);
    let mut plain = String::new();
    Report::new(&error).fmt(&mut plain);
    let mut single = String::new();
    Report::new(&error).fmt_singleline(&mut single);
    assert_eq!(plain, single);

    let mut pretty = String::new();
    Report::new(&error).pretty(true).fmt(&mut pretty);
    let mut multi = String::new();
    Report::new(&error).fmt_multiline(&mut multi);
    assert_eq!(pretty, multi);
}

#[test]
fn borrowed_and_owned_errors_render_alike() {
    let error = chain(&["outer", "middle", "inner"]);
    let borrowed = Report::new(&error).pretty(true).render();
    let twice_borrowed = Report::new(&&error).pretty(true).render();
    let owned = Report::new(error).pretty(true).render();
    assert_eq!(borrowed, owned);
    assert_eq!(twice_borrowed, owned);
}

#[test]
fn pretty_single_cause_is_not_numbered() {
    let report = Report::new(chain(&["R", "C"])).pretty(true);
    assert_eq!(report.render(), "R\n\nCaused by:\n    C");
}

#[test]
fn pretty_two_causes_are_numbered() {
    let report = Report::new(chain(&["R", "C0", "C1"])).pretty(true);
    assert_eq!(report.render(), "R\n\nCaused by:\n   0: C0\n   1: C1");
}

#[test]
fn pretty_root_text_is_not_indented() {
    let report = Report::new(chain(&["first\nsecond\n\nfourth", "cause"])).pretty(true);
    assert_eq!(report.render(), "first\nsecond\n\nfourth\n\nCaused by:\n    cause");
}

#[test]
fn pretty_single_cause_with_several_lines() {
    let report = Report::new(chain(&["R", "one\ntwo\nthree"])).pretty(true);
    assert_eq!(report.render(), "R\n\nCaused by:\n    one\n    two\n    three");
}

#[test]
fn pretty_blank_line_passes_through_unnumbered() {
    let report = Report::new(chain(&["R", "one\n\nthree"])).pretty(true);
    assert_eq!(report.render(), "R\n\nCaused by:\n    one\n\n    three");
}

#[test]
fn pretty_blank_line_passes_through_numbered() {
    let report = Report::new(chain(&["R", "one\n\nthree", "x\n\n\ny"])).pretty(true);
    assert_eq!(
        report.render(),
        "R\n\nCaused by:\n   0: one\n\n      three\n   1: x\n\n\n      y"
    );
}

#[test]
fn pretty_cause_with_empty_text() {
    let report = Report::new(chain(&["R", ""])).pretty(true);
    assert_eq!(report.render(), "R\n\nCaused by:\n");

    let report = Report::new(chain(&["R", "", ""])).pretty(true);
    assert_eq!(report.render(), "R\n\nCaused by:\n\n");
}

#[test]
fn pretty_cause_that_ends_in_a_line_feed() {
    let report = Report::new(chain(&["R", "C\n"])).pretty(true);
    assert_eq!(report.render(), "R\n\nCaused by:\n    C\n");
}

#[test]
fn pretty_numbered_cause_that_starts_with_a_blank_line() {
    let report = Report::new(chain(&["R", "\nbody", "tail"])).pretty(true);
    assert_eq!(report.render(), "R\n\nCaused by:\n\n      body\n   1: tail");
}

#[test]
fn pretty_numbers_count_up_by_one() {
    let messages: Vec<String> = (0..13).map(|i| format!("m{}", i)).collect();
    let borrowed: Vec<&str> = messages.iter().map(|m| m.as_str()).collect();
    let report = Report::new(chain(&borrowed)).pretty(true);
    let expected = "m0\n\nCaused by:\n   0: m1\n   1: m2\n   2: m3\n   3: m4\n   4: m5\n   5: m6\n   6: m7\n   7: m8\n   8: m9\n   9: m10\n  10: m11\n  11: m12";
    assert_eq!(report.render(), expected);
}

#[test]
fn pretty_long_chain_keeps_the_columns() {
    let messages: Vec<String> = (0..1003).map(|i| format!("m{}\nmore", i)).collect();
    let borrowed: Vec<&str> = messages.iter().map(|m| m.as_str()).collect();
    let rendered = Report::new(chain(&borrowed)).pretty(true).render();
    let mut expected = String::from("m0\nmore\n\nCaused by:");
    for i in 0..1002 {
        expected.push_str(&format!("\n{: >4}: m{}\n      more", i, i + 1));
    }
    assert_eq!(rendered, expected);
    assert!(rendered.contains("\n 999: m1000\n      more\n1000: m1001\n      more\n1001: m1002"));
}

#[test]
fn backtrace_follows_the_causes() {
    let error = chain(&["outer", "inner"]).with_backtrace("frame 0\nframe 1");
    let report = Report::new(error).pretty(true).show_backtrace(true);
    assert_eq!(
        report.render(),
        "outer\n\nCaused by:\n    inner\n\nStack backtrace:\nframe 0\nframe 1"
    );
}

#[test]
fn backtrace_is_trimmed_at_its_end_only() {
    let error = chain(&["outer", "middle", "inner"])
        .with_backtrace("  frame 0\n   at here \n  frame 1 \t\r\n\n \u{a0}\u{3000}");
    let report = Report::new(error).pretty(true).show_backtrace(true);
    assert_eq!(
        report.render(),
        "outer\n\nCaused by:\n   0: middle\n   1: inner\n\nStack backtrace:\n  frame 0\n   at here \n  frame 1"
    );
}

#[test]
fn backtrace_of_blanks_leaves_the_header() {
    let error = chain(&["outer", "inner"]).with_backtrace(" \n\t ");
    let report = Report::new(error).pretty(true).show_backtrace(true);
    assert_eq!(report.render(), "outer\n\nCaused by:\n    inner\n\nStack backtrace:\n");
}

#[test]
fn backtrace_is_hidden_unless_asked_for() {
    let error = chain(&["outer", "inner"]).with_backtrace("frame 0");
    let report = Report::new(error).pretty(true);
    assert_eq!(report.render(), "outer\n\nCaused by:\n    inner");
}

#[test]
fn backtrace_asked_for_but_not_captured() {
    let report = Report::new(chain(&["outer", "inner"])).pretty(true).show_backtrace(true);
    assert_eq!(report.render(), "outer\n\nCaused by:\n    inner");
}

#[test]
fn backtrace_of_a_cause_is_not_shown() {
    let inner = ErrorRecord::new("inner").with_backtrace("inner frames");
    let error = ErrorRecord::new_with_source("outer", inner);
    let report = Report::new(error).pretty(true).show_backtrace(true);
    assert_eq!(report.render(), "outer\n\nCaused by:\n    inner");
}

#[test]
fn error_without_source_is_its_text_in_every_mode() {
    let error = ErrorRecord::new("SuperError is here!").with_backtrace("frame 0");
    assert_eq!(Report::new(&error).render(), "SuperError is here!");
    assert_eq!(Report::new(&error).pretty(true).render(), "SuperError is here!");
    assert_eq!(Report::new(&error).show_backtrace(true).render(), "SuperError is here!");
    assert_eq!(
        Report::new(&error).pretty(true).show_backtrace(true).render(),
        "SuperError is here!"
    );
}

#[test]
fn super_error_with_sidekick() {
    let error = ErrorRecord::new_with_source(
        "SuperError is here!",
        ErrorRecord::new("SuperErrorSidekick is here!"),
    );
    assert_eq!(
        Report::new(&error).render(),
        "SuperError is here!: SuperErrorSidekick is here!"
    );
    assert_eq!(
        Report::new(&error).pretty(true).render(),
        "SuperError is here!\n\nCaused by:\n    SuperErrorSidekick is here!"
    );
}

#[test]
fn record_constructors_fill_the_fields() {
    let plain = ErrorRecord::new("plain");
    assert_eq!(plain.message, "plain");
    assert!(plain.source.is_none());
    assert!(plain.backtrace.is_none());
    assert_eq!(plain.display(), "plain");
    assert!(plain.source().is_none());
    assert!(plain.backtrace().is_none());

    let outer = ErrorRecord::new_with_source("outer", plain).with_backtrace("frames");
    assert_eq!(outer.message, "outer");
    assert_eq!(outer.display(), "outer");
    assert_eq!(outer.source().unwrap().display(), "plain");
    assert!(outer.source().unwrap().source().is_none());
    assert_eq!(outer.backtrace(), Some("frames"));
    assert_eq!((&outer).display(), "outer");
    assert_eq!((&outer).source().unwrap().message, "plain");
    assert_eq!((&outer).backtrace(), Some("frames"));
}

#[test]
fn chain_walks_from_the_error_to_its_last_cause() {
    let error = chain(&["a", "b", "c"]);
    let links = error.chain();
    let texts: Vec<&str> = links.iter().map(|link| link.display()).collect();
    assert_eq!(texts, vec!["a", "b", "c"]);
    assert!(std::ptr::eq(links[0], &error));
    assert!(std::ptr::eq(links[1], error.source().unwrap()));
    assert!(links[2].source().is_none());

    let single = ErrorRecord::new("only");
    assert_eq!(single.chain().len(), 1);
}

#[test]
fn writer_starts_at_the_start_of_a_line() {
    let writer = Indented::new(Some(3));
    assert!(writer.needs_indent);
    assert!(writer.first_line);
    assert_eq!(writer.format, Some(3));
    let writer = Indented::new(None);
    assert!(writer.needs_indent);
    assert!(writer.first_line);
    assert_eq!(writer.format, None);
}

#[test]
fn writer_uniform_prefix_is_four_blanks() {
    assert_eq!(indent(true, None, "text"), (String::from("    text"), false));
    assert_eq!(indent(true, None, "a\nb"), (String::from("    a\n    b"), false));
}

#[test]
fn writer_numbered_prefix_is_right_aligned() {
    assert_eq!(indent(true, Some(0), "t").0, "   0: t");
    assert_eq!(indent(true, Some(9), "t").0, "   9: t");
    assert_eq!(indent(true, Some(10), "t").0, "  10: t");
    assert_eq!(indent(true, Some(99), "t").0, "  99: t");
    assert_eq!(indent(true, Some(100), "t").0, " 100: t");
    assert_eq!(indent(true, Some(999), "t").0, " 999: t");
    assert_eq!(indent(true, Some(1000), "t").0, "1000: t");
    assert_eq!(indent(true, Some(9999), "t").0, "9999: t");
    assert_eq!(indent(true, Some(10000), "t").0, "10000: t");
    assert_eq!(indent(true, Some(1234567), "t").0, "1234567: t");
    assert_eq!(
        indent(true, Some(usize::MAX), "t").0,
        format!("{: >4}: t", usize::MAX)
    );
}

#[test]
fn writer_pads_continuation_lines_to_the_width_of_the_number() {
    let (out, _) = indent(true, Some(42), "first\nsecond\nthird");
    assert_eq!(out, "  42: first\n      second\n      third");
    let lines: Vec<&str> = out.split('\n').collect();
    assert_eq!(lines[0].len() - "first".len(), lines[1].len() - "second".len());
}

#[test]
fn writer_leaves_blank_lines_blank() {
    assert_eq!(indent(true, None, "a\n\nb").0, "    a\n\n    b");
    assert_eq!(indent(true, Some(5), "a\n\n\nb\n").0, "   5: a\n\n\n      b\n");
    assert_eq!(indent(true, None, "\n\n").0, "\n\n");
    assert_eq!(indent(true, Some(1), "").0, "");
}

#[test]
fn writer_continues_a_line_without_a_prefix() {
    assert_eq!(indent(false, None, "rest\nnext"), (String::from("rest\n    next"), false));
    assert_eq!(indent(false, Some(2), "rest\nnext").0, "rest\n      next");
    assert_eq!(indent(false, Some(2), "rest").0, "rest");
}

#[test]
fn writer_remembers_where_it_stands() {
    assert_eq!(indent(true, None, "").1, true);
    assert_eq!(indent(false, None, "").1, false);
    assert_eq!(indent(false, None, "abc").1, false);
    assert_eq!(indent(true, None, "abc").1, false);
    assert_eq!(indent(false, None, "abc\n").1, true);
    assert_eq!(indent(false, None, "\n").1, true);
    assert_eq!(indent(true, None, "abc\ndef").1, false);
}

#[test]
fn writer_goes_on_over_several_calls() {
    let mut writer = Indented::new(None);
    let mut out = String::new();
    writer.write_str(&mut out, "one\n");
    assert!(writer.needs_indent);
    writer.write_str(&mut out, "two");
    assert!(!writer.needs_indent);
    writer.write_str(&mut out, " and a half\nthree");
    assert_eq!(out, "    one\n    two and a half\n    three");
}

#[test]
fn writer_keeps_what_the_buffer_held() {
    let mut writer = Indented::new(Some(0));
    let mut out = String::from("Caused by:\n");
    writer.write_str(&mut out, "cause");
    assert_eq!(out, "Caused by:\n   0: cause");
}

#[test]
fn writer_handles_text_beyond_ascii() {
    assert_eq!(indent(true, None, "h\u{e9}llo\nw\u{f6}rld \u{1f600}").0, "    h\u{e9}llo\n    w\u{f6}rld \u{1f600}");
}

#[test]
fn writer_pads_to_the_width_of_a_wide_number() {
    assert_eq!(indent(true, Some(9999), "t\nu").0, "9999: t\n      u");
    assert_eq!(indent(true, Some(10000), "t\nu").0, "10000: t\n       u");
    assert_eq!(indent(true, Some(1234567), "t\nu").0, "1234567: t\n         u");
    let (out, _) = indent(true, Some(usize::MAX), "t\nu\n\nv");
    let number = usize::MAX.to_string();
    let blanks = " ".repeat(number.len() + 2);
    assert_eq!(out, format!("{}: t\n{}u\n\n{}v", number, blanks, blanks));
}

#[test]
fn writer_numbers_only_the_first_line_over_several_calls() {
    let mut writer = Indented::new(Some(0));
    let mut out = String::new();
    writer.write_str(&mut out, "line 1\nline 2");
    writer.write_str(&mut out, "\nline 3\nline 4\n");
    writer.write_str(&mut out, "line 5\nline 6");
    assert_eq!(
        out,
        "   0: line 1\n      line 2\n      line 3\n      line 4\n      line 5\n      line 6"
    );
    assert!(!writer.first_line);
    assert!(!writer.needs_indent);
}

#[test]
fn writer_does_not_repeat_the_number_after_a_line_feed() {
    let mut writer = Indented::new(Some(0));
    let mut out = String::new();
    writer.write_str(&mut out, "a\n");
    assert_eq!(out, "   0: a\n");
    assert!(writer.needs_indent);
    assert!(!writer.first_line);
    writer.write_str(&mut out, "b");
    assert_eq!(out, "   0: a\n      b");
}

#[test]
fn writer_in_pieces_writes_what_it_writes_in_one() {
    let text = "first\n\nsecond line\nthird\n";
    for format in [None, Some(0), Some(17), Some(123456)] {
        let (whole, needs_indent) = indent(true, format, text);
        for cut in 0..=text.len() {
            let mut writer = Indented::new(format);
            let mut out = String::new();
            writer.write_str(&mut out, &text[..cut]);
            writer.write_str(&mut out, &text[cut..]);
            assert_eq!(out, whole, "cut at {}", cut);
            assert_eq!(writer.needs_indent, needs_indent);
            assert!(!writer.first_line);
        }
    }
}

#[test]
fn writer_keeps_the_number_for_the_first_line_that_has_text() {
    let mut writer = Indented::new(Some(4));
    let mut out = String::new();
    writer.write_str(&mut out, "");
    assert!(writer.first_line);
    assert!(writer.needs_indent);
    writer.write_str(&mut out, "head");
    assert!(writer.first_line);
    writer.write_str(&mut out, "line\ntail");
    assert!(!writer.first_line);
    assert_eq!(out, "   4: headline\n      tail");
}

#[test]
fn writer_past_the_first_line_pads_every_line() {
    let mut writer = Indented { needs_indent: true, first_line: false, format: Some(8) };
    let mut out = String::new();
    writer.write_str(&mut out, "later\nlines");
    assert_eq!(out, "      later\n      lines");
    assert!(!writer.first_line);

    let mut writer = Indented { needs_indent: true, first_line: false, format: None };
    let mut out = String::new();
    writer.write_str(&mut out, "later\nlines");
    assert_eq!(out, "    later\n    lines");
}

#[test]
fn pretty_wide_numbers_keep_the_columns() {
    let messages: Vec<String> = (0..10003).map(|i| format!("m{}\nmore", i)).collect();
    let borrowed: Vec<&str> = messages.iter().map(|m| m.as_str()).collect();
    let rendered = Report::new(chain(&borrowed)).pretty(true).render();
    assert!(rendered.contains("\n9999: m10000\n      more\n10000: m10001\n       more\n10001: m10002\n       more"));
    assert!(rendered.ends_with("\n10001: m10002\n       more"));
}
