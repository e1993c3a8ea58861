//! The summary beside the graph: which part of a line is shown in colour.
//!
//! The first line of the summary is a title of the form `name@period`,
//! shown in bold colour on both sides of the `@`. Every other line of the
//! form `label: value` has its label in bold colour and its value plain.

use crate::config_manager::Config;
use crate::palette::{chars_of, color_of, get_color, Rgb};
use vstd::prelude::*;
use vstd::string::*;

verus! {

/// How a piece of text is shown.
#[derive(Clone, Copy, Debug, PartialEq, Eq, Structural)]
pub enum TextStyle {
    Plain,
    BoldColored(Rgb),
}

/// A piece of a line, with the style in which it is shown.
#[derive(Clone, Copy, Debug)]
pub struct StyledText<'a> {
    pub text: &'a str,
    pub style: TextStyle,
}

/// Whether `pattern` stands in `text` at position `at`.
pub open spec fn matches_at(text: Seq<char>, pattern: Seq<char>, at: int) -> bool {
    &&& 0 <= at
    &&& at + pattern.len() <= text.len()
    &&& forall|k: int| 0 <= k < pattern.len() ==> text[at + k] == pattern[k]
}

/// The first position at or after `from` at which `pattern` stands in
/// `text`, or the length of `text` where there is none.
pub open spec fn find(text: Seq<char>, pattern: Seq<char>, from: int) -> int
    decreases text.len() - from,
{
    if from < 0 || from + pattern.len() > text.len() || pattern.len() == 0 {
        text.len() as int
    } else if matches_at(text, pattern, from) {
        from
    } else {
        find(text, pattern, from + 1)
    }
}

/// The sign between the two sides of a title.
pub open spec fn title_separator() -> Seq<char> {
    seq!['@']
}

/// The sign between the label and the value of a summary line.
pub open spec fn label_separator() -> Seq<char> {
    seq![':', ' ']
}

/// The two sides of a title: what stands before the first `@`, and what
/// stands between it and the next `@` or the end of the line. A line
/// without an `@` is no title.
pub open spec fn title_parts(line: Seq<char>) -> Option<(Seq<char>, Seq<char>)> {
    let at = find(line, title_separator(), 0);
    if at >= line.len() {
        None
    } else {
        Some((line.subrange(0, at), line.subrange(at + 1, find(line, title_separator(), at + 1))))
    }
}

/// The label and the value of a summary line: what stands before and
/// after its `": "`, where the line holds exactly one.
pub open spec fn label_parts(line: Seq<char>) -> Option<(Seq<char>, Seq<char>)> {
    let at = find(line, label_separator(), 0);
    if at >= line.len() || find(line, label_separator(), at + 2) < line.len() {
        None
    } else {
        Some((line.subrange(0, at), line.subrange(at + 2, line.len() as int)))
    }
}

/// The colour of summary labels where none is configured: cyan.
pub open spec fn default_info_color() -> Rgb {
    Rgb { r: 0, g: 255, b: 255 }
}

/// The colour of a title where the configured text is no colour: white.
pub open spec fn unreadable_title_color() -> Rgb {
    Rgb { r: 255, g: 255, b: 255 }
}

/// The colour of the summary: the configured one, or `unreadable` where
/// the configured text is no colour, or cyan where none is configured.
pub open spec fn info_color(config: Config, unreadable: Rgb) -> Rgb {
    match config.text_colors {
        Some(colors) => match color_of(colors.info_color@) {
            Ok(color) => color,
            Err(_) => unreadable,
        },
        None => default_info_color(),
    }
}

/// The text and style of each piece.
pub open spec fn styled_views(pieces: Seq<StyledText>) -> Seq<(Seq<char>, TextStyle)> {
    pieces.map_values(|piece: StyledText| (piece.text@, piece.style))
}

/// The pieces of a title: both sides in bold colour, the `@` plain.
pub open spec fn title_pieces(line: Seq<char>, config: Config) -> Option<
    Seq<(Seq<char>, TextStyle)>,
> {
    match title_parts(line) {
        Some((name, period)) => {
            let style = TextStyle::BoldColored(info_color(config, unreadable_title_color()));
            Some(seq![(name, style), (title_separator(), TextStyle::Plain), (period, style)])
        },
        None => None,
    }
}

/// The pieces of a summary line: the label in bold colour, the rest
/// plain; or the whole line plain where it has no label.
pub open spec fn summary_pieces(line: Seq<char>, config: Config) -> Seq<(Seq<char>, TextStyle)> {
    match label_parts(line) {
        Some((label, value)) => seq![
            (label, TextStyle::BoldColored(info_color(config, default_info_color()))),
            (label_separator(), TextStyle::Plain),
            (value, TextStyle::Plain),
        ],
        None => seq![(line, TextStyle::Plain)],
    }
}

/// Tells whether `pattern` stands in `text` at position `at`.
fn stands_at(text: &Vec<char>, pattern: &[char], at: usize) -> (found: bool)
    requires
        at + pattern@.len() <= text@.len(),
    ensures
        found == matches_at(text@, pattern@, at as int),
{
    let len = text.len();
    let mut k: usize = 0;
    while k < pattern.len()
        invariant
            k <= pattern@.len(),
            len == text@.len(),
            at + pattern@.len() <= text@.len(),
            forall|j: int| 0 <= j < k ==> text@[at + j] == pattern@[j],
        decreases pattern.len() - k,
    {
        if text[at + k] != pattern[k] {
            return false;
        }
        k += 1;
    }
    true
}

/// Finds the first position at or after `from` at which `pattern` stands
/// in `text`.
fn find_from(text: &Vec<char>, pattern: &[char], from: usize) -> (at: usize)
    requires
        pattern@.len() >= 1,
    ensures
        at == find(text@, pattern@, from as int),
        from <= at || at == text@.len(),
        at <= text@.len(),
        at < text@.len() ==> at + pattern@.len() <= text@.len(),
{
    let len = text.len();
    let width = pattern.len();
    let mut at: usize = from;
    while at <= len && width <= len - at
        invariant
            from <= at,
            len == text@.len(),
            width == pattern@.len(),
            width >= 1,
            find(text@, pattern@, from as int) == find(text@, pattern@, at as int),
        decreases len + 1 - at,
    {
        if stands_at(text, pattern, at) {
            return at;
        }
        at += 1;
    }
    len
}

/// The configured colour of the summary, with `unreadable` standing in
/// for a configured text that is no colour.
fn configured_info_color(config: &Config, unreadable: Rgb) -> (color: Rgb)
    ensures
        color == info_color(*config, unreadable),
{
    match &config.text_colors {
        Some(colors) => match get_color(colors.info_color.as_str()) {
            Ok(color) => color,
            Err(_) => unreadable,
        },
        None => Rgb { r: 0, g: 255, b: 255 },
    }
}

/// Splits a title into the pieces in which it is shown.
///
/// A title has the form `name@period`. Both sides are shown in the
/// configured colour, in bold; the sign between them is plain. A line
/// without an `@` is no title.
pub fn style_title<'a>(line: &'a str, config: &Config) -> (pieces: Option<Vec<StyledText<'a>>>)
    ensures
        match pieces {
            Some(pieces) => title_pieces(line@, *config) == Some(styled_views(pieces@)),
            None => title_pieces(line@, *config) is None,
        },
{
    let chars = chars_of(line);
    let separator: [char; 1] = ['@'];
    assert(separator@ =~= title_separator());
    let at = find_from(&chars, separator.as_slice(), 0);
    if at >= chars.len() {
        return None;
    }
    let next = find_from(&chars, separator.as_slice(), at + 1);
    let style = TextStyle::BoldColored(
        configured_info_color(config, Rgb { r: 255, g: 255, b: 255 }),
    );
    proof {
        reveal_strlit("@");
        assert("@"@ =~= title_separator());
    }
    let mut pieces: Vec<StyledText<'a>> = Vec::new();
    pieces.push(StyledText { text: line.substring_char(0, at), style });
    pieces.push(StyledText { text: "@", style: TextStyle::Plain });
    pieces.push(StyledText { text: line.substring_char(at + 1, next), style });
    assert(styled_views(pieces@) =~= title_pieces(line@, *config)->0);
    Some(pieces)
}

/// Splits a summary line into the pieces in which it is shown.
///
/// A line of the form `label: value`, with exactly one `": "`, has its
/// label in the configured colour, in bold, and the rest plain. Any other
/// line is plain as a whole.
pub fn style_summary_line<'a>(line: &'a str, config: &Config) -> (pieces: Vec<StyledText<'a>>)
    ensures
        styled_views(pieces@) == summary_pieces(line@, *config),
{
    let chars = chars_of(line);
    let len = chars.len();
    let separator: [char; 2] = [':', ' '];
    assert(separator@ =~= label_separator());
    let at = find_from(&chars, separator.as_slice(), 0);
    let mut pieces: Vec<StyledText<'a>> = Vec::new();
    if at < len && find_from(&chars, separator.as_slice(), at + 2) >= len {
        let style = TextStyle::BoldColored(
            configured_info_color(config, Rgb { r: 0, g: 255, b: 255 }),
        );
        proof {
            reveal_strlit(": ");
            assert(": "@ =~= label_separator());
        }
        pieces.push(StyledText { text: line.substring_char(0, at), style });
        pieces.push(StyledText { text: ": ", style: TextStyle::Plain });
        pieces.push(StyledText { text: line.substring_char(at + 2, len), style: TextStyle::Plain });
        assert(styled_views(pieces@) =~= summary_pieces(line@, *config));
    } else {
        pieces.push(StyledText { text: line, style: TextStyle::Plain });
        assert(styled_views(pieces@) =~= summary_pieces(line@, *config));
    }
    pieces
}

/// What is found is the first place at or after `from` where the pattern
/// stands; where nothing is found, it stands nowhere from there on.
pub proof fn lemma_find_is_first(text: Seq<char>, pattern: Seq<char>, from: int)
    requires
        0 <= from,
        pattern.len() >= 1,
    ensures
        find(text, pattern, from) == text.len() || (from <= find(text, pattern, from) && matches_at(
            text,
            pattern,
            find(text, pattern, from),
        )),
        forall|at: int|
            from <= at < find(text, pattern, from) ==> !#[trigger] matches_at(text, pattern, at),
    decreases text.len() - from,
{
    if from + pattern.len() <= text.len() && !matches_at(text, pattern, from) {
        lemma_find_is_first(text, pattern, from + 1);
    }
}

} // verus!
