//! Colours: the `"r,g,b"` notation, and which colour a symbol is shown in.
//!
//! A colour is configured as three decimal numbers from 0 to 255 with
//! commas between them. The four glyphs of the graph are shown in the
//! colours of the four intensity levels; any other character of the graph
//! keeps the terminal's own colour.

use crate::config_manager::{Config, GraphColors};
use vstd::prelude::*;
use vstd::string::*;

verus! {

/// A colour, by its red, green and blue part.
#[derive(Clone, Copy, Debug, PartialEq, Eq, Structural)]
pub struct Rgb {
    pub r: u8,
    pub g: u8,
    pub b: u8,
}

/// Why a text is not a colour.
#[derive(Clone, Copy, Debug, PartialEq, Eq, Structural)]
pub enum ColorError {
    /// The text does not consist of three fields with commas between them.
    InvalidFormat,
    /// One of the three fields is not a number from 0 to 255.
    InvalidComponent,
}

/// The colour slot of a character of the graph.
#[derive(Clone, Copy, Debug, PartialEq, Eq, Structural)]
pub enum ColorSlot {
    /// Labels, blanks and everything else that is not a glyph.
    Neutral,
    Level1,
    Level2,
    Level3,
    Level4,
}

/// The fields of a text between its separators: one more than it has
/// separators, empty fields included.
pub open spec fn split_fields(text: Seq<char>, separator: char) -> Seq<Seq<char>>
    decreases text.len(),
{
    if text.len() == 0 {
        seq![Seq::<char>::empty()]
    } else {
        let before = split_fields(text.drop_last(), separator);
        if text.last() == separator {
            before.push(Seq::<char>::empty())
        } else {
            before.update(before.len() - 1, before.last().push(text.last()))
        }
    }
}

/// Fields put together again, with the separator between them.
pub open spec fn join_fields(fields: Seq<Seq<char>>, separator: char) -> Seq<char>
    decreases fields.len(),
{
    if fields.len() == 0 {
        Seq::empty()
    } else if fields.len() == 1 {
        fields[0]
    } else {
        join_fields(fields.drop_last(), separator).push(separator) + fields.last()
    }
}

/// The number of separators in a text.
pub open spec fn separator_count(text: Seq<char>, separator: char) -> nat
    decreases text.len(),
{
    if text.len() == 0 {
        0
    } else if text.last() == separator {
        separator_count(text.drop_last(), separator) + 1
    } else {
        separator_count(text.drop_last(), separator)
    }
}

/// Whether a character is a decimal digit.
pub open spec fn is_digit(c: char) -> bool {
    '0' <= c <= '9'
}

/// The number that a sequence of decimal digits denotes.
pub open spec fn decimal_value(digits: Seq<char>) -> int
    decreases digits.len(),
{
    if digits.len() == 0 {
        0
    } else {
        10 * decimal_value(digits.drop_last()) + (digits.last() as int - '0' as int)
    }
}

/// A field without the plus sign that may stand before its digits.
pub open spec fn unsigned_part(field: Seq<char>) -> Seq<char> {
    if field.len() > 0 && field[0] == '+' {
        field.drop_first()
    } else {
        field
    }
}

/// The number from 0 to 255 that a field denotes: one or more decimal
/// digits, after an optional plus sign.
pub open spec fn component_value(field: Seq<char>) -> Option<u8> {
    let digits = unsigned_part(field);
    if digits.len() > 0 && (forall|i: int| 0 <= i < digits.len() ==> is_digit(#[trigger] digits[i]))
        && decimal_value(digits) <= 255 {
        Some(decimal_value(digits) as u8)
    } else {
        None
    }
}

/// The colour that a text denotes, or why it denotes none.
pub open spec fn color_of(text: Seq<char>) -> Result<Rgb, ColorError> {
    let fields = split_fields(text, ',');
    if fields.len() != 3 {
        Err(ColorError::InvalidFormat)
    } else {
        match (component_value(fields[0]), component_value(fields[1]), component_value(fields[2])) {
            (Some(r), Some(g), Some(b)) => Ok(Rgb { r, g, b }),
            _ => Err(ColorError::InvalidComponent),
        }
    }
}

/// The colour slot of a symbol: each of the four glyphs has the slot of
/// its level, every other character is neutral.
pub open spec fn slot_of(symbol: char) -> ColorSlot {
    if symbol == '░' {
        ColorSlot::Level1
    } else if symbol == '▒' {
        ColorSlot::Level2
    } else if symbol == '▓' {
        ColorSlot::Level3
    } else if symbol == '█' {
        ColorSlot::Level4
    } else {
        ColorSlot::Neutral
    }
}

/// The colour of a level where none is configured, or where the
/// configured text is no colour: a shade of green.
pub open spec fn default_level_color(slot: ColorSlot) -> Rgb {
    match slot {
        ColorSlot::Level1 => Rgb { r: 13, g: 68, b: 41 },
        ColorSlot::Level2 => Rgb { r: 1, g: 108, b: 49 },
        ColorSlot::Level3 => Rgb { r: 38, g: 166, b: 65 },
        _ => Rgb { r: 57, g: 211, b: 83 },
    }
}

/// The text that is configured for a level.
pub open spec fn level_text(colors: GraphColors, slot: ColorSlot) -> Seq<char> {
    match slot {
        ColorSlot::Level1 => colors.level1@,
        ColorSlot::Level2 => colors.level2@,
        ColorSlot::Level3 => colors.level3@,
        _ => colors.level4@,
    }
}

/// The colour in which a slot is shown: none for the neutral slot, else
/// the configured colour of the level, or its default.
pub open spec fn slot_color(config: Config, slot: ColorSlot) -> Option<Rgb> {
    if slot == ColorSlot::Neutral {
        None
    } else {
        Some(
            match config.graph_colors {
                Some(colors) => match color_of(level_text(colors, slot)) {
                    Ok(color) => color,
                    Err(_) => default_level_color(slot),
                },
                None => default_level_color(slot),
            },
        )
    }
}

/// The views of fields that are held as vectors.
pub open spec fn field_views(fields: Seq<Vec<char>>) -> Seq<Seq<char>> {
    fields.map_values(|field: Vec<char>| field@)
}

/// Reads a colour in the notation `"r,g,b"`.
///
/// The text must consist of three fields with commas between them, else
/// the format is invalid. Each field must be a number from 0 to 255,
/// written in decimal digits with an optional plus sign before them, else
/// a component is invalid.
pub fn get_color(color_str: &str) -> (color: Result<Rgb, ColorError>)
    ensures
        color == color_of(color_str@),
{
    let chars = chars_of(color_str);
    let parts = split_chars(&chars, ',');
    if parts.len() != 3 {
        return Err(ColorError::InvalidFormat);
    }
    assert(field_views(parts@)[0] == parts@[0]@);
    assert(field_views(parts@)[1] == parts@[1]@);
    assert(field_views(parts@)[2] == parts@[2]@);
    let r = parse_component(&parts[0]);
    let g = parse_component(&parts[1]);
    let b = parse_component(&parts[2]);
    match (r, g, b) {
        (Some(r), Some(g), Some(b)) => Ok(Rgb { r, g, b }),
        _ => Err(ColorError::InvalidComponent),
    }
}

/// Tells the colour in which a character of the graph is shown, if it is
/// shown in a colour at all.
///
/// A glyph has the colour that the configuration gives to its level. The
/// default colour of the level stands in where the configuration has no
/// graph colours, or where the text for the level is no colour.
pub fn symbol_color(symbol: char, config: &Config) -> (color: Option<Rgb>)
    ensures
        color == slot_color(*config, slot_of(symbol)),
{
    let slot = color_slot(symbol);
    match slot {
        ColorSlot::Neutral => None,
        _ => {
            let configured = match &config.graph_colors {
                Some(colors) => {
                    let text = match slot {
                        ColorSlot::Level1 => colors.level1.as_str(),
                        ColorSlot::Level2 => colors.level2.as_str(),
                        ColorSlot::Level3 => colors.level3.as_str(),
                        _ => colors.level4.as_str(),
                    };
                    get_color(text)
                },
                None => Ok(level_default(slot)),
            };
            match configured {
                Ok(color) => Some(color),
                Err(_) => Some(level_default(slot)),
            }
        },
    }
}

/// Tells the colour slot of a character of the graph.
pub fn color_slot(symbol: char) -> (slot: ColorSlot)
    ensures
        slot == slot_of(symbol),
{
    if symbol == '░' {
        ColorSlot::Level1
    } else if symbol == '▒' {
        ColorSlot::Level2
    } else if symbol == '▓' {
        ColorSlot::Level3
    } else if symbol == '█' {
        ColorSlot::Level4
    } else {
        ColorSlot::Neutral
    }
}

/// The default colour of a level.
fn level_default(slot: ColorSlot) -> (color: Rgb)
    ensures
        color == default_level_color(slot),
{
    match slot {
        ColorSlot::Level1 => Rgb { r: 13, g: 68, b: 41 },
        ColorSlot::Level2 => Rgb { r: 1, g: 108, b: 49 },
        ColorSlot::Level3 => Rgb { r: 38, g: 166, b: 65 },
        _ => Rgb { r: 57, g: 211, b: 83 },
    }
}

/// The characters of a text.
pub(crate) fn chars_of(text: &str) -> (chars: Vec<char>)
    ensures
        chars@ == text@,
{
    let mut chars: Vec<char> = Vec::new();
    let source = text.chars();
    for c in iter: source
        invariant
            chars@ == iter.seq().take(iter.index() as int),
            iter.seq() == text@,
    {
        chars.push(c);
        assert(iter.seq().take(iter.index() + 1) =~= iter.seq().take(iter.index() as int).push(c));
    }
    assert(text@.take(text@.len() as int) =~= text@);
    chars
}

/// Splits characters into the fields between separators.
fn split_chars(chars: &Vec<char>, separator: char) -> (fields: Vec<Vec<char>>)
    ensures
        field_views(fields@) == split_fields(chars@, separator),
{
    let mut fields: Vec<Vec<char>> = Vec::new();
    let mut field: Vec<char> = Vec::new();
    let mut i: usize = 0;
    while i < chars.len()
        invariant
            i <= chars.len(),
            field_views(fields@).push(field@) == split_fields(chars@.take(i as int), separator),
        decreases chars.len() - i,
    {
        let c = chars[i];
        proof {
            assert(chars@.take(i + 1).drop_last() =~= chars@.take(i as int));
            assert(chars@.take(i + 1).last() == c);
        }
        let ghost before = field_views(fields@).push(field@);
        if c == separator {
            fields.push(field);
            field = Vec::new();
            assert(field_views(fields@).push(field@) =~= before.push(Seq::<char>::empty()));
        } else {
            field.push(c);
            assert(field_views(fields@).push(field@) =~= before.update(
                before.len() - 1,
                before.last().push(c),
            ));
        }
        i += 1;
    }
    assert(chars@.take(i as int) =~= chars@);
    let ghost before = field_views(fields@).push(field@);
    fields.push(field);
    assert(field_views(fields@) =~= before);
    fields
}

/// Reads a field as a number from 0 to 255.
fn parse_component(field: &Vec<char>) -> (value: Option<u8>)
    ensures
        value == component_value(field@),
{
    let len = field.len();
    let start: usize = if len > 0 && field[0] == '+' {
        1
    } else {
        0
    };
    let ghost digits = unsigned_part(field@);
    assert(digits =~= field@.skip(start as int));
    if start == len {
        return None;
    }
    let mut value: u32 = 0;
    let mut i: usize = start;
    while i < len
        invariant
            start <= i <= len,
            len == field@.len(),
            digits == field@.skip(start as int),
            digits == unsigned_part(field@),
            forall|j: int| 0 <= j < i - start ==> is_digit(#[trigger] digits[j]),
            value == if decimal_value(digits.take(i - start)) < 256 {
                decimal_value(digits.take(i - start))
            } else {
                256
            },
        decreases len - i,
    {
        let c = field[i];
        assert(digits[i - start] == c);
        if !('0' <= c && c <= '9') {
            assert(!is_digit(digits[i - start]));
            return None;
        }
        proof {
            assert(digits.take(i + 1 - start).drop_last() =~= digits.take(i - start));
            assert(digits.take(i + 1 - start).last() == c);
            lemma_decimal_value_nonnegative(digits.take(i - start));
        }
        let next = value * 10 + (c as u32 - '0' as u32);
        value = if next < 256 {
            next
        } else {
            256
        };
        i += 1;
    }
    assert(digits.take(i - start) =~= digits);
    if value < 256 {
        Some(value as u8)
    } else {
        None
    }
}

/// The fields of a text are what stands between its separators: there is
/// one field more than there are separators, no field holds a separator,
/// and the fields joined by separators are the text again.
pub proof fn lemma_split_fields(text: Seq<char>, separator: char)
    ensures
        split_fields(text, separator).len() == separator_count(text, separator) + 1,
        forall|i: int, j: int|
            0 <= i < split_fields(text, separator).len() && 0 <= j < split_fields(
                text,
                separator,
            )[i].len() ==> #[trigger] split_fields(text, separator)[i][j] != separator,
        join_fields(split_fields(text, separator), separator) == text,
    decreases text.len(),
{
    let fields = split_fields(text, separator);
    if text.len() == 0 {
        assert(join_fields(fields, separator) =~= text);
    } else {
        let before = split_fields(text.drop_last(), separator);
        lemma_split_fields(text.drop_last(), separator);
        assert(text =~= text.drop_last().push(text.last()));
        if text.last() == separator {
            assert(fields.drop_last() =~= before);
            assert(join_fields(fields, separator) =~= text);
        } else {
            if before.len() == 1 {
                assert(join_fields(fields, separator) =~= text);
            } else {
                assert(fields.drop_last() =~= before.drop_last());
                assert(join_fields(fields, separator) =~= join_fields(before, separator).push(
                    text.last(),
                ));
            }
            assert forall|i: int, j: int|
                0 <= i < fields.len() && 0 <= j < fields[i].len() implies #[trigger] fields[i][j]
                != separator by {
                if i < fields.len() - 1 {
                    assert(fields[i][j] == before[i][j]);
                } else if j < before[i].len() {
                    assert(fields[i][j] == before[i][j]);
                }
            }
        }
    }
}

/// Decimal digits denote no negative number.
proof fn lemma_decimal_value_nonnegative(digits: Seq<char>)
    requires
        forall|i: int| 0 <= i < digits.len() ==> is_digit(#[trigger] digits[i]),
    ensures
        decimal_value(digits) >= 0,
    decreases digits.len(),
{
    if digits.len() > 0 {
        lemma_decimal_value_nonnegative(digits.drop_last());
    }
}

} // verus!
