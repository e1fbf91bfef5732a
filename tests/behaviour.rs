use std::str::FromStr;
use rats::level::{LogLevel, ParseLogLevelError};
use rats::parser::{parse_death, parse_log_line, parse_start_proc, pid_leave};
use rats::presenter::{
    fit_width, indent_wrap, term_width_or_width, Presenter, Printer, DEFAULT_TAG_WIDTH, WIDTH,
};
use rats::session::{match_tag, Action, Filter, Session};

const HEADER: usize = DEFAULT_TAG_WIDTH + 5;

#[test]
fn every_level_letter_parses() {
    let cases = [
        ("V", LogLevel::VERBOSE),
        ("v", LogLevel::VERBOSE),
        ("D", LogLevel::DEBUG),
        ("d", LogLevel::DEBUG),
        ("I", LogLevel::INFO),
        ("i", LogLevel::INFO),
        ("W", LogLevel::WARN),
        ("w", LogLevel::WARN),
        ("E", LogLevel::ERROR),
        ("e", LogLevel::ERROR),
        ("A", LogLevel::ASSERT),
        ("a", LogLevel::ASSERT),
    ];
    for (text, level) in cases {
        assert_eq!(LogLevel::parse(text), Ok(level));
        assert_eq!(LogLevel::parse(&level.to_string()), Ok(level));
    }
}

#[test]
fn other_level_texts_are_unknown() {
    for text in ["F", "x", "0", "", "VV", " V"] {
        assert_eq!(LogLevel::parse(text), Err(ParseLogLevelError::UnknownLogLevel));
    }
}

#[test]
fn levels_are_ordered_by_severity() {
    assert!(LogLevel::ERROR > LogLevel::WARN);
    assert!(LogLevel::WARN > LogLevel::INFO);
    assert!(LogLevel::INFO > LogLevel::DEBUG);
    assert!(LogLevel::DEBUG > LogLevel::VERBOSE);
    assert!(LogLevel::ASSERT > LogLevel::ERROR);
    assert!(LogLevel::WARN.at_least(&LogLevel::WARN));
    assert!(!LogLevel::INFO.at_least(&LogLevel::WARN));
}

#[test]
fn unknown_level_letter_in_a_line_is_verbose() {
    let log = parse_log_line("X/Tag( 12): hi").unwrap();
    assert_eq!(log.level, LogLevel::VERBOSE);
    assert_eq!(log.tag, "Tag");
    assert_eq!(log.owner, "12");
    assert_eq!(log.message, "hi");
}

#[test]
fn unrecognised_lines_give_nothing() {
    assert!(parse_log_line("").is_none());
    assert!(parse_log_line("hello world").is_none());
    assert!(parse_log_line("e/Tag( 12): lower-case level").is_none());
    assert!(parse_log_line("I/Tag( 12): two\nlines").is_none());
}

#[test]
fn long_form_tag_stops_at_first_separator() {
    let log = parse_log_line("05-19 06:57:59.912  1  2 D Tag : a: b").unwrap();
    assert_eq!(log.tag, "Tag");
    assert_eq!(log.message, "a: b");
    assert_eq!(log.level, LogLevel::DEBUG);
}

#[test]
fn long_form_with_empty_tag() {
    let log = parse_log_line("05-19 06:57:59.912  1  2 W   : msg").unwrap();
    assert_eq!(log.tag, "");
    assert_eq!(log.message, "msg");
}

#[test]
fn brief_form_tag_is_trimmed() {
    let log = parse_log_line("I/Some Tag  (   7): x").unwrap();
    assert_eq!(log.tag, "Some Tag");
    assert_eq!(log.owner, "7");
    assert_eq!(log.message, "x");
    assert!(log.date.is_none());
}

#[test]
fn end_events_of_each_kind() {
    let kill = parse_death(
        "ActivityManager",
        "Killing 8822:com.google.android.apps.maps/u0a120 (adj 985): empty for 2733s",
    )
    .unwrap();
    assert_eq!(kill.line_pid, "8822");
    assert_eq!(kill.line_package, "com.google.android.apps.maps");
    assert!(kill.target.is_none());

    let leave = parse_death("ActivityManager", "No longer want com.x.y (pid 12): hidden").unwrap();
    assert_eq!(leave.line_pid, "12");
    assert_eq!(leave.line_package, "com.x.y");
    assert!(pid_leave("No longer want com.x.y (pid ): hidden").is_none());

    let died = parse_death("ActivityManager", "Process com.x (pid 9) has died.").unwrap();
    assert_eq!(died.line_pid, "9");
    assert!(parse_death("ActivityManager", "Process com.x (pid 9) has died..").is_none());
}

#[test]
fn end_events_need_the_activity_manager_tag() {
    assert!(parse_death("Other", "Process com.example.urg (pid 7404) has died").is_none());
}

#[test]
fn start_event_takes_the_last_report() {
    let p = parse_start_proc("x: Start proc 1:a/u0 for y: Start proc 2:b/u1 for z").unwrap();
    assert_eq!(p.line_pid, "2");
    assert_eq!(p.line_package, "b");
    assert_eq!(p.target.unwrap(), "z");
}

#[test]
fn tag_filter() {
    let tags = vec!["A", "B"];
    assert!(match_tag(&tags, "B"));
    assert!(!match_tag(&tags, "C"));
    let none: Vec<&str> = vec![];
    assert!(match_tag(&none, "C"));
}

#[test]
fn wrap_exactly_one_over() {
    let result = indent_wrap("012345", HEADER + 5, HEADER);
    let expected = format!("01234\n{}5", " ".repeat(HEADER));
    assert_eq!(result, expected);
    assert_eq!(indent_wrap("", HEADER + 5, HEADER), "");
    assert_eq!(indent_wrap("01234", HEADER + 5, HEADER), "01234");
}

#[test]
fn width_is_capped() {
    assert_eq!(fit_width(Some(100), 180), 100);
    assert_eq!(fit_width(Some(300), 180), 180);
    assert_eq!(fit_width(None, 180), 180);
    let w = term_width_or_width(WIDTH);
    assert!(w > 0 && w <= WIDTH);
}

#[test]
fn level_glyph_is_styled() {
    let printer = Printer::new(DEFAULT_TAG_WIDTH);
    let glyph = printer.level_glyph(LogLevel::WARN);
    assert!(glyph.contains(" W "));
    assert_ne!(glyph, " W ");
}

#[test]
fn rendered_texts() {
    let printer = Printer::new(DEFAULT_TAG_WIDTH);
    let start = parse_start_proc("I/ActivityManager( 1): Start proc 5:com.x/u0a1 for service {c}")
        .unwrap();
    assert_eq!(
        printer.proc_start_text(&start, WIDTH),
        format!("\n{}Process com.x (5) created for service {{c}}", " ".repeat(HEADER))
    );
    let end = parse_death("ActivityManager", "Process com.x (pid 5) has died").unwrap();
    assert_eq!(
        printer.proc_end_text(&end, WIDTH),
        format!("\n{}Process 5 ended for com.x", " ".repeat(HEADER))
    );

    let log = parse_log_line("05-19 00:00:00.000 5 5 I com.x: hello").unwrap();
    let first = printer.log_text(&log, true, " I ", WIDTH);
    assert_eq!(
        first,
        format!(
            "{}com.x  I  date=05-19 time=00:00:00.000 tid=5\n{} I  hello",
            " ".repeat(DEFAULT_TAG_WIDTH - 5),
            " ".repeat(DEFAULT_TAG_WIDTH + 1)
        )
    );
    let next = printer.log_text(&log, false, " I ", WIDTH);
    assert_eq!(next, format!("{} I  hello", " ".repeat(DEFAULT_TAG_WIDTH + 1)));

    let long_tag = parse_log_line("I/0123456789abcdefghijklmnopqrstuvwxyz( 3): m").unwrap();
    let shown = printer.log_text(&long_tag, true, "g", WIDTH);
    assert!(shown.starts_with("456789abcdefghijklmnopqrstuvwxyz g m"));

    let narrow = printer.log_text(&log, false, " I ", HEADER);
    assert!(narrow.ends_with(" I  hello"));
    assert!(printer.print_log(&log, false).contains("hello"));
}

#[test]
fn session_follows_a_package() {
    let filter = Filter {
        packages: vec!["com.x".to_string()],
        tags: vec![],
        level: None,
    };
    let mut session = Session::new();
    let start = "I/ActivityManager( 1): Start proc 5:com.x/u0a1 for service {c}";
    let line = "05-19 00:00:00.000 5 5 I com.x: hello";
    let death = "I/ActivityManager( 1): Process com.x (pid 5) has died";

    let actions = session.handle(&filter, start);
    assert_eq!(actions.len(), 1);
    match &actions[0] {
        Action::Started(p) => {
            assert_eq!(p.line_pid, "5");
            assert_eq!(p.line_package, "com.x");
            assert_eq!(p.target.as_deref(), Some("service {c}"));
        }
        _ => panic!("expected a start"),
    }
    assert!(session.follows("5"));

    let actions = session.handle(&filter, line);
    assert_eq!(actions.len(), 1);
    match &actions[0] {
        Action::Show(log, is_new_tag) => {
            assert_eq!(log.message, "hello");
            assert!(*is_new_tag);
        }
        _ => panic!("expected a shown line"),
    }

    let again = session.handle(&filter, line);
    match &again[0] {
        Action::Show(_, is_new_tag) => assert!(!*is_new_tag),
        _ => panic!("expected a shown line"),
    }

    let actions = session.handle(&filter, death);
    assert_eq!(actions.len(), 1);
    assert!(matches!(&actions[0], Action::Ended(p) if p.line_pid == "5"));
    assert!(!session.follows("5"));

    assert!(session.handle(&filter, line).is_empty());
}

#[test]
fn session_filters_tags_and_levels() {
    let filter = Filter {
        packages: vec![],
        tags: vec!["Keep".to_string()],
        level: Some(LogLevel::WARN),
    };
    let mut session = Session::new();
    assert!(session.handle(&filter, "E/Other( 1): x").is_empty());
    assert!(session.handle(&filter, "I/Keep( 1): x").is_empty());
    let shown = session.handle(&filter, "E/Keep( 1): x");
    assert!(matches!(&shown[0], Action::Show(_, false)));
    assert!(session.handle(&filter, "not a log line").is_empty());
}

#[test]
fn session_ignores_other_packages() {
    let filter = Filter {
        packages: vec!["com.y".to_string()],
        tags: vec![],
        level: None,
    };
    let mut session = Session::new();
    let actions =
        session.handle(&filter, "I/ActivityManager( 1): Start proc 5:com.x/u0a1 for service {c}");
    assert!(actions.is_empty());
    assert!(!session.follows("5"));
}

#[test]
fn zero_tag_width_shows_no_tag() {
    let printer = Printer::new(0);
    let log = parse_log_line("I/Tag( 3): m").unwrap();
    assert_eq!(printer.log_text(&log, true, "g", WIDTH), " g m");
}

#[test]
fn from_str_refuses_other_letters() {
    assert_eq!(LogLevel::from_str("F"), Err(ParseLogLevelError::UnknownLogLevel));
    assert_eq!(LogLevel::from_str("f"), Err(ParseLogLevelError::UnknownLogLevel));
    assert_eq!(LogLevel::from_str("a"), Ok(LogLevel::ASSERT));
}
