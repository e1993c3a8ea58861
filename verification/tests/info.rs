use gitfetch::config_manager::{Config, TextColors};
use gitfetch::info_text::{style_summary_line, style_title, StyledText, TextStyle};
use gitfetch::palette::Rgb;

const CYAN: Rgb = Rgb { r: 0, g: 255, b: 255 };
const WHITE: Rgb = Rgb { r: 255, g: 255, b: 255 };

fn shown(pieces: &[StyledText]) -> Vec<(String, TextStyle)> {
    pieces.iter().map(|piece| (piece.text.to_string(), piece.style)).collect()
}

fn piece(text: &str, style: TextStyle) -> (String, TextStyle) {
    (text.to_string(), style)
}

#[test]
fn title_is_colored_on_both_sides() {
    let pieces = style_title("octocat@2024", &Config::default()).unwrap();
    assert_eq!(
        shown(&pieces),
        vec![
            piece("octocat", TextStyle::BoldColored(CYAN)),
            piece("@", TextStyle::Plain),
            piece("2024", TextStyle::BoldColored(CYAN)),
        ]
    );
}

#[test]
fn title_ends_at_a_second_sign() {
    let pieces = style_title("a@b@c", &Config::default()).unwrap();
    assert_eq!(
        shown(&pieces),
        vec![
            piece("a", TextStyle::BoldColored(CYAN)),
            piece("@", TextStyle::Plain),
            piece("b", TextStyle::BoldColored(CYAN)),
        ]
    );
    let bare = style_title("@", &Config::default()).unwrap();
    assert_eq!(
        shown(&bare),
        vec![
            piece("", TextStyle::BoldColored(CYAN)),
            piece("@", TextStyle::Plain),
            piece("", TextStyle::BoldColored(CYAN)),
        ]
    );
}

#[test]
fn line_without_sign_is_no_title() {
    assert!(style_title("octocat 2024", &Config::default()).is_none());
    assert!(style_title("", &Config::default()).is_none());
}

#[test]
fn title_with_letters_beyond_ascii() {
    let pieces = style_title("zoë@2024 ░", &Config::default()).unwrap();
    assert_eq!(pieces[0].text, "zoë");
    assert_eq!(pieces[2].text, "2024 ░");
}

#[test]
fn title_color_comes_from_the_configuration() {
    let mut config = Config::default();
    config.text_colors = Some(TextColors { info_color: "10,20,30".to_string() });
    let pieces = style_title("me@now", &config).unwrap();
    assert_eq!(pieces[0].style, TextStyle::BoldColored(Rgb { r: 10, g: 20, b: 30 }));
    config.text_colors = Some(TextColors { info_color: "blue".to_string() });
    let pieces = style_title("me@now", &config).unwrap();
    assert_eq!(pieces[0].style, TextStyle::BoldColored(WHITE));
    assert_eq!(pieces[2].style, TextStyle::BoldColored(WHITE));
    config.text_colors = None;
    let pieces = style_title("me@now", &config).unwrap();
    assert_eq!(pieces[0].style, TextStyle::BoldColored(CYAN));
}

#[test]
fn summary_line_has_a_colored_label() {
    let pieces = style_summary_line("Total contributions: 42", &Config::default());
    assert_eq!(
        shown(&pieces),
        vec![
            piece("Total contributions", TextStyle::BoldColored(CYAN)),
            piece(": ", TextStyle::Plain),
            piece("42", TextStyle::Plain),
        ]
    );
    let empty_value = style_summary_line("Label: ", &Config::default());
    assert_eq!(
        shown(&empty_value),
        vec![
            piece("Label", TextStyle::BoldColored(CYAN)),
            piece(": ", TextStyle::Plain),
            piece("", TextStyle::Plain),
        ]
    );
}

#[test]
fn summary_line_without_one_label_is_plain() {
    for line in ["no label here", "", "a: b: c", "a:b", ":", "a: : b"] {
        let pieces = style_summary_line(line, &Config::default());
        assert_eq!(shown(&pieces), vec![piece(line, TextStyle::Plain)], "{}", line);
    }
}

#[test]
fn summary_line_agrees_with_split() {
    let lines = [
        "Longest Streak: 12 days",
        "x: y",
        ": ",
        ": : ",
        "a::  b",
        "a: b:c",
        "tail: ",
        ": head",
        "ü: ö",
    ];
    for line in lines {
        let parts: Vec<&str> = line.split(": ").collect();
        let pieces = style_summary_line(line, &Config::default());
        if parts.len() == 2 {
            assert_eq!(pieces.len(), 3, "{}", line);
            assert_eq!(pieces[0].text, parts[0]);
            assert_eq!(pieces[2].text, parts[1]);
        } else {
            assert_eq!(pieces.len(), 1, "{}", line);
            assert_eq!(pieces[0].text, line);
        }
    }
}

#[test]
fn label_color_falls_back_to_cyan() {
    let mut config = Config::default();
    config.text_colors = Some(TextColors { info_color: "1,2,3".to_string() });
    let pieces = style_summary_line("k: v", &config);
    assert_eq!(pieces[0].style, TextStyle::BoldColored(Rgb { r: 1, g: 2, b: 3 }));
    config.text_colors = Some(TextColors { info_color: "1,2".to_string() });
    let pieces = style_summary_line("k: v", &config);
    assert_eq!(pieces[0].style, TextStyle::BoldColored(CYAN));
    config.text_colors = None;
    let pieces = style_summary_line("k: v", &config);
    assert_eq!(pieces[0].style, TextStyle::BoldColored(CYAN));
}
