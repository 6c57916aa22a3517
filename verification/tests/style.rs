//! ANSI styling of server output.

use durthang::ui::style::{ansi_to_line, apply_sgr, color_of_lower, parse_color_name, Color, TextStyle, Toggle};

fn chars(s: &str) -> Vec<char> {
    s.chars().collect()
}

#[test]
fn plain_text_is_one_unstyled_span() {
    let l = ansi_to_line("hello");
    assert_eq!(l.spans.len(), 1);
    assert_eq!(l.spans[0].text, "hello");
    assert_eq!(l.spans[0].style, TextStyle::plain());
}

#[test]
fn colour_codes_split_spans() {
    let l = ansi_to_line("a\x1b[31mb\x1b[0mc");
    let texts: Vec<&str> = l.spans.iter().map(|s| s.text.as_str()).collect();
    assert_eq!(texts, vec!["a", "b", "c"]);
    assert_eq!(l.spans[1].style.fg, Some(Color::Red));
    assert_eq!(l.spans[2].style, TextStyle::plain());
}

#[test]
fn sgr_bold_bright_and_background() {
    let st = apply_sgr(TextStyle::plain(), &chars("1;94;42"));
    assert_eq!(st.bold, Toggle::On);
    assert_eq!(st.fg, Some(Color::LightBlue));
    assert_eq!(st.bg, Some(Color::Green));
}

#[test]
fn sgr_palette_and_rgb() {
    let st = apply_sgr(TextStyle::plain(), &chars("38;5;208"));
    assert_eq!(st.fg, Some(Color::Indexed(208)));
    let st = apply_sgr(TextStyle::plain(), &chars("48;2;10;20;30"));
    assert_eq!(st.bg, Some(Color::Rgb(10, 20, 30)));
}

#[test]
fn sgr_reset_and_empty() {
    let st = apply_sgr(TextStyle::plain(), &chars("1;31"));
    assert_eq!(apply_sgr(st, &chars("0")), TextStyle::plain());
    assert_eq!(apply_sgr(st, &chars("")), TextStyle::plain());
    let off = apply_sgr(st, &chars("22;39"));
    assert_eq!(off.bold, Toggle::Off);
    assert_eq!(off.fg, Some(Color::Reset));
}

#[test]
fn colour_names() {
    assert_eq!(parse_color_name("RED"), Some(Color::Red));
    assert_eq!(parse_color_name("grey"), Some(Color::Gray));
    assert_eq!(parse_color_name("dark_gray"), Some(Color::DarkGray));
    assert_eq!(parse_color_name("light_cyan"), Some(Color::LightCyan));
    assert_eq!(parse_color_name("purple"), None);
}

#[test]
fn color_of_lower_takes_lowercase_names_only() {
    assert_eq!(color_of_lower("red"), Some(Color::Red));
    assert_eq!(color_of_lower("darkgray"), Some(Color::DarkGray));
    assert_eq!(color_of_lower("light_cyan"), Some(Color::LightCyan));
    assert_eq!(color_of_lower("RED"), None);
    assert_eq!(color_of_lower("purple"), None);
    assert_eq!(parse_color_name("Light_Blue"), Some(Color::LightBlue));
}
