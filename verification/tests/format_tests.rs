use colog::format::{
    format_record, line_separator, prefix_token, CologStyle, Color, DefaultCologStyle, Level,
};

#[test]
fn default_colors_pairwise_distinct() {
    let s = DefaultCologStyle;
    let levels = vec![
        Level::Error,
        Level::Warn,
        Level::Info,
        Level::Debug,
        Level::Trace,
    ];
    for i in 0..levels.len() {
        for j in 0..levels.len() {
            if i != j {
                assert!(s.color_for(levels[i]) != s.color_for(levels[j]));
            }
        }
    }
}

#[test]
fn default_tokens_nonempty() {
    let s = DefaultCologStyle;
    let levels = vec![
        Level::Error,
        Level::Warn,
        Level::Info,
        Level::Debug,
        Level::Trace,
    ];
    for level in levels {
        assert!(!s.token_for(level).is_empty());
    }
}

#[test]
fn default_palette_values() {
    let s = DefaultCologStyle;
    assert!(s.color_for(Level::Error) == Color::Red);
    assert!(s.color_for(Level::Warn) == Color::Yellow);
    assert!(s.color_for(Level::Info) == Color::Green);
    assert!(s.color_for(Level::Debug) == Color::Blue);
    assert!(s.color_for(Level::Trace) == Color::Cyan);
    assert_eq!(s.token_for(Level::Error), "E");
    assert_eq!(s.token_for(Level::Warn), "W");
    assert_eq!(s.token_for(Level::Info), "I");
    assert_eq!(s.token_for(Level::Debug), "D");
    assert_eq!(s.token_for(Level::Trace), "T");
}

#[test]
fn single_line_message() {
    let s = DefaultCologStyle;
    let out = format_record(&s, Level::Info, "hello");
    let prefix = prefix_token(&s, Level::Info);
    assert_eq!(out, format!("{}hello\n", prefix));
    assert_eq!(out, "[\u{1b}[32mI\u{1b}[0m] hello\n");
    let sep = line_separator(&s, Level::Info);
    assert!(!out.contains(&sep));
}

#[test]
fn one_embedded_newline() {
    let s = DefaultCologStyle;
    let out = format_record(&s, Level::Info, "first\nsecond");
    let prefix = prefix_token(&s, Level::Info);
    let sep = line_separator(&s, Level::Info);
    assert_eq!(out, format!("{}first{}second\n", prefix, sep));
    assert_eq!(out, "[\u{1b}[32mI\u{1b}[0m] first\n    second\n");
}

#[test]
fn separator_count_matches_newline_count() {
    let s = DefaultCologStyle;
    let msg = "more\nmulti\nline\nhere\nhere";
    let out = format_record(&s, Level::Info, msg);
    let sep = line_separator(&s, Level::Info);
    assert_eq!(out.matches(&sep).count(), 4);
    assert!(out.ends_with('\n'));
    let newlines = out.chars().filter(|c| *c == '\n').count();
    assert_eq!(newlines, 5);
}

#[test]
fn formatting_is_deterministic() {
    let s = DefaultCologStyle;
    let first = format_record(&s, Level::Warn, "same\nrecord");
    let second = format_record(&s, Level::Warn, "same\nrecord");
    assert_eq!(first, second);
}

#[test]
fn error_scenario() {
    let s = DefaultCologStyle;
    let out = format_record(&s, Level::Error, "error with fmt: 42");
    assert_eq!(out, "[\u{1b}[31mE\u{1b}[0m] error with fmt: 42\n");
    assert!(out.contains("\u{1b}[31m"));
    assert!(out.contains("\u{1b}[0m"));
    assert!(out.ends_with("error with fmt: 42\n"));
    let sep = line_separator(&s, Level::Error);
    assert!(!out.contains(&sep));
}

#[test]
fn info_multiline_scenario() {
    let s = DefaultCologStyle;
    let out = format_record(&s, Level::Info, "multi line demonstration\nhere");
    let prefix = prefix_token(&s, Level::Info);
    let sep = line_separator(&s, Level::Info);
    assert_eq!(out, format!("{}multi line demonstration{}here\n", prefix, sep));
}

#[test]
fn empty_message() {
    let s = DefaultCologStyle;
    let out = format_record(&s, Level::Debug, "");
    let prefix = prefix_token(&s, Level::Debug);
    assert_eq!(out, format!("{}\n", prefix));
}

#[test]
fn trailing_newline_yields_empty_continuation() {
    let s = DefaultCologStyle;
    let out = format_record(&s, Level::Info, "line\n");
    let prefix = prefix_token(&s, Level::Info);
    let sep = line_separator(&s, Level::Info);
    assert_eq!(out, format!("{}line{}\n", prefix, sep));
}

#[test]
fn every_level_formats() {
    let s = DefaultCologStyle;
    let levels = vec![
        Level::Error,
        Level::Warn,
        Level::Info,
        Level::Debug,
        Level::Trace,
    ];
    for level in levels {
        let out = format_record(&s, level, "msg");
        let prefix = prefix_token(&s, level);
        assert_eq!(out, format!("{}msg\n", prefix));
    }
}

struct WideStyle;

impl CologStyle for WideStyle {
    fn color_for(&self, level: Level) -> Color {
        DefaultCologStyle.color_for(level)
    }

    fn token_for(&self, level: Level) -> String {
        match level {
            Level::Error => String::from("ERROR"),
            Level::Warn => String::from("WARN "),
            Level::Info => String::from("INFO "),
            Level::Debug => String::from("DEBUG"),
            Level::Trace => String::from("TRACE"),
        }
    }
}

#[test]
fn custom_token_width_widens_separator() {
    let narrow = line_separator(&DefaultCologStyle, Level::Info);
    let wide = line_separator(&WideStyle, Level::Info);
    assert_eq!(narrow, format!("\n{}", " ".repeat(1 + 3)));
    assert_eq!(wide, format!("\n{}", " ".repeat(5 + 3)));
    let visible_prefix = "[INFO ] ";
    assert_eq!(wide.len() - 1, visible_prefix.len());
}

#[test]
fn custom_style_renders_with_its_own_prefix() {
    let out = format_record(&WideStyle, Level::Warn, "a\nb");
    assert_eq!(out, "[\u{1b}[33mWARN \u{1b}[0m] a\n        b\n");
}

#[test]
fn init_twice_does_not_crash() {
    colog::init();
    colog::init();
}

#[test]
fn builders_are_constructible() {
    let _basic = colog::basic_builder();
    let _default = colog::default_builder();
    let _old = colog::builder();
}
