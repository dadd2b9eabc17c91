use vstd::prelude::*;
use vstd::utf8::{
    encode_utf8, encode_utf8_valid_utf8, is_char_boundary,
    is_char_boundary_iff_not_is_continuation_byte,
};

use crate::lighting::Rgb;
use crate::text::{
    chars_of, is_whitespace, string_from_chars, trim, trim_chars, trim_end, trim_start,
};

verus! {

/// A color channel, for error reports.
#[derive(Debug, Clone, Copy, PartialEq, Eq, Structural)]
pub enum Channel {
    Red,
    Green,
    Blue,
}

/// Why a color argument was refused.
#[derive(Debug, Clone, Copy, PartialEq, Eq, Structural)]
pub enum ColorArgError {
    /// A comma-separated color that is not three parts `R,G,B`.
    RgbFormat,
    /// A part of `R,G,B` that is not a number from 0 to 255.
    InvalidChannel(Channel),
    /// A hex color that is not six bytes long after the optional `#`.
    HexFormat,
    /// A pair of hex digits that is not a number from 00 to FF.
    InvalidHexChannel(Channel),
    /// A positional color together with `--red`, `--green` or `--blue`.
    ConflictingColorArguments,
}

/// The value of digit `code` (a character or byte code) in `radix`, if it is one.
pub open spec fn digit_value(code: int, radix: int) -> Option<int> {
    let d = if '0' as int <= code <= '9' as int {
        code - '0' as int
    } else if 'a' as int <= code <= 'z' as int {
        code - 'a' as int + 10
    } else if 'A' as int <= code <= 'Z' as int {
        code - 'A' as int + 10
    } else {
        radix
    };
    if d < radix {
        Some(d)
    } else {
        None
    }
}

/// The value of a digit string, if every code is a digit of `radix`.
pub open spec fn digits_value(codes: Seq<int>, radix: int) -> Option<int>
    decreases codes.len(),
{
    if codes.len() == 0 {
        Some(0)
    } else {
        match (digits_value(codes.drop_last(), radix), digit_value(codes.last(), radix)) {
            (Some(high), Some(low)) => Some(high * radix + low),
            _ => None,
        }
    }
}

/// `u8::from_str_radix`: an optional `+`, then at least one digit of `radix`,
/// worth at most 255.
pub open spec fn parse_u8(codes: Seq<int>, radix: int) -> Option<u8> {
    let digits = if codes.len() > 0 && codes[0] == '+' as int {
        codes.drop_first()
    } else {
        codes
    };
    if digits.len() == 0 {
        None
    } else {
        match digits_value(digits, radix) {
            Some(v) => if v <= 255 {
                Some(v as u8)
            } else {
                None
            },
            None => None,
        }
    }
}

/// The code of each character.
pub open spec fn char_codes(s: Seq<char>) -> Seq<int> {
    s.map_values(|c: char| (c as u32) as int)
}

/// The value of each byte.
pub open spec fn byte_codes(b: Seq<u8>) -> Seq<int> {
    b.map_values(|b: u8| b as int)
}

/// `str::split(',')`: the runs between commas, empty ones included.
pub open spec fn split_commas(s: Seq<char>) -> Seq<Seq<char>>
    decreases s.len(),
{
    if s.len() == 0 {
        seq![Seq::empty()]
    } else {
        let parts = split_commas(s.drop_last());
        if s.last() == ',' {
            parts.push(Seq::empty())
        } else {
            parts.update(parts.len() - 1, parts.last().push(s.last()))
        }
    }
}

/// The argument trimmed, without one leading `#`.
pub open spec fn hex_body(value: Seq<char>) -> Seq<char> {
    let v = trim(value);
    if v.len() > 0 && v[0] == '#' {
        v.drop_first()
    } else {
        v
    }
}

/// Parsing this argument as a hex color would cut a multi-byte character when
/// taking its byte pairs.
pub open spec fn spec_rgb_argument_cuts_char(value: Seq<char>) -> bool {
    let bytes = encode_utf8(hex_body(value));
    &&& !trim(value).contains(',')
    &&& bytes.len() == 6
    &&& {
        ||| !is_char_boundary(bytes, 2)
        ||| (parse_u8(byte_codes(bytes.subrange(0, 2)), 16) is Some && !is_char_boundary(bytes, 4))
    }
}

/// What `parse_rgb` gives: `R,G,B` with decimal channels, each trimmed, or six
/// hex digits with an optional leading `#`; the first failing channel is named.
pub open spec fn spec_parse_rgb(value: Seq<char>) -> Result<Rgb, ColorArgError> {
    let v = trim(value);
    if v.contains(',') {
        let parts = split_commas(v);
        if parts.len() != 3 {
            Err(ColorArgError::RgbFormat)
        } else {
            match parse_u8(char_codes(trim(parts[0])), 10) {
                None => Err(ColorArgError::InvalidChannel(Channel::Red)),
                Some(red) => match parse_u8(char_codes(trim(parts[1])), 10) {
                    None => Err(ColorArgError::InvalidChannel(Channel::Green)),
                    Some(green) => match parse_u8(char_codes(trim(parts[2])), 10) {
                        None => Err(ColorArgError::InvalidChannel(Channel::Blue)),
                        Some(blue) => Ok(Rgb { red, green, blue }),
                    },
                },
            }
        }
    } else {
        let bytes = encode_utf8(hex_body(value));
        if bytes.len() != 6 {
            Err(ColorArgError::HexFormat)
        } else {
            match parse_u8(byte_codes(bytes.subrange(0, 2)), 16) {
                None => Err(ColorArgError::InvalidHexChannel(Channel::Red)),
                Some(red) => match parse_u8(byte_codes(bytes.subrange(2, 4)), 16) {
                    None => Err(ColorArgError::InvalidHexChannel(Channel::Green)),
                    Some(green) => match parse_u8(byte_codes(bytes.subrange(4, 6)), 16) {
                        None => Err(ColorArgError::InvalidHexChannel(Channel::Blue)),
                        Some(blue) => Ok(Rgb { red, green, blue }),
                    },
                },
            }
        }
    }
}

/// The uppercase hex digit of `v`, for `v` from 0 to 15.
pub open spec fn hex_digit(v: int) -> char {
    if v == 0 {
        '0'
    } else if v == 1 {
        '1'
    } else if v == 2 {
        '2'
    } else if v == 3 {
        '3'
    } else if v == 4 {
        '4'
    } else if v == 5 {
        '5'
    } else if v == 6 {
        '6'
    } else if v == 7 {
        '7'
    } else if v == 8 {
        '8'
    } else if v == 9 {
        '9'
    } else if v == 10 {
        'A'
    } else if v == 11 {
        'B'
    } else if v == 12 {
        'C'
    } else if v == 13 {
        'D'
    } else if v == 14 {
        'E'
    } else {
        'F'
    }
}

/// A color written as `RRGGBB`, two uppercase hex digits per channel.
pub open spec fn hex_color_text(color: Rgb) -> Seq<char> {
    seq![
        hex_digit((color.red / 16) as int),
        hex_digit((color.red % 16) as int),
        hex_digit((color.green / 16) as int),
        hex_digit((color.green % 16) as int),
        hex_digit((color.blue / 16) as int),
        hex_digit((color.blue % 16) as int),
    ]
}

/// A hex digit is an ASCII character, neither whitespace nor a comma, and reads
/// back as its value.
proof fn lemma_hex_digit(v: int)
    requires
        0 <= v < 16,
    ensures
        (hex_digit(v) as u32) < 0x80,
        !is_whitespace(hex_digit(v)),
        hex_digit(v) != ',',
        hex_digit(v) != '+',
        hex_digit(v) != '#',
        digit_value((hex_digit(v) as u32) as int, 16) == Some(v),
        v < 10 ==> digit_value((hex_digit(v) as u32) as int, 10) == Some(v),
{
}

/// A string of ASCII characters is encoded in UTF-8 as one byte per character.
proof fn lemma_encode_ascii(chars: Seq<char>)
    requires
        forall|i: int| 0 <= i < chars.len() ==> (#[trigger] chars[i] as u32) < 0x80,
    ensures
        encode_utf8(chars) == chars.map_values(|c: char| (c as u32) as u8),
    decreases chars.len(),
{
    if chars.len() > 0 {
        let rest = chars.drop_first();
        assert forall|i: int| 0 <= i < rest.len() implies (#[trigger] rest[i] as u32) < 0x80 by {
            assert(rest[i] == chars[i + 1]);
        }
        lemma_encode_ascii(rest);
        let code = chars[0] as u32;
        assert((code & 0x7f) as u8 == code as u8) by (bit_vector)
            requires
                code < 0x80,
        ;
        assert(encode_utf8(chars) =~= chars.map_values(|c: char| (c as u32) as u8));
    }
}

/// Two hex digits read back as the byte they write.
proof fn lemma_hex_pair(v: u8)
    ensures
        parse_u8(
            seq![(hex_digit((v / 16) as int) as u32) as int, (hex_digit((v % 16) as int) as u32) as int],
            16,
        ) == Some(v),
{
    let high = v / 16;
    let low = v % 16;
    lemma_hex_digit(high as int);
    lemma_hex_digit(low as int);
    let codes = seq![(hex_digit(high as int) as u32) as int, (hex_digit(low as int) as u32) as int];
    let first = codes.drop_last();
    assert(first.drop_last() =~= Seq::<int>::empty());
    assert(digits_value(first.drop_last(), 16) == Some(0int));
    assert(first.last() == codes[0]);
    assert(digits_value(codes.drop_last(), 16) == Some(high as int));
    assert(digits_value(codes, 16) == Some(high * 16 + low));
}

/// Text whose hex body is the six digits of `color`, with nothing to trim and
/// no comma, reads back as `color` and cuts no character.
proof fn lemma_hex_body_reads_back(text: Seq<char>, color: Rgb)
    requires
        trim(text) == text,
        !text.contains(','),
        hex_body(text) == hex_color_text(color),
    ensures
        !spec_rgb_argument_cuts_char(text),
        spec_parse_rgb(text) == Ok::<Rgb, ColorArgError>(color),
{
    let digits = hex_color_text(color);
    lemma_hex_digit((color.red / 16) as int);
    lemma_hex_digit((color.red % 16) as int);
    lemma_hex_digit((color.green / 16) as int);
    lemma_hex_digit((color.green % 16) as int);
    lemma_hex_digit((color.blue / 16) as int);
    lemma_hex_digit((color.blue % 16) as int);
    assert forall|i: int| 0 <= i < digits.len() implies (#[trigger] digits[i] as u32) < 0x80 by {
    }
    lemma_encode_ascii(digits);
    let bytes = encode_utf8(digits);
    assert(bytes.len() == 6);
    lemma_hex_pair(color.red);
    lemma_hex_pair(color.green);
    lemma_hex_pair(color.blue);
    assert(byte_codes(bytes.subrange(0, 2)) =~= seq![
        (hex_digit((color.red / 16) as int) as u32) as int,
        (hex_digit((color.red % 16) as int) as u32) as int,
    ]);
    assert(byte_codes(bytes.subrange(2, 4)) =~= seq![
        (hex_digit((color.green / 16) as int) as u32) as int,
        (hex_digit((color.green % 16) as int) as u32) as int,
    ]);
    assert(byte_codes(bytes.subrange(4, 6)) =~= seq![
        (hex_digit((color.blue / 16) as int) as u32) as int,
        (hex_digit((color.blue % 16) as int) as u32) as int,
    ]);
    encode_utf8_valid_utf8(digits);
    is_char_boundary_iff_not_is_continuation_byte(bytes, 2);
    is_char_boundary_iff_not_is_continuation_byte(bytes, 4);
}

/// Every color written as `RRGGBB` or as `#RRGGBB` (uppercase hex digits)
/// reads back as itself, and such text never cuts a character.
pub proof fn lemma_hex_color_reads_back(color: Rgb)
    ensures
        !spec_rgb_argument_cuts_char(hex_color_text(color)),
        spec_parse_rgb(hex_color_text(color)) == Ok::<Rgb, ColorArgError>(color),
        !spec_rgb_argument_cuts_char(seq!['#'] + hex_color_text(color)),
        spec_parse_rgb(seq!['#'] + hex_color_text(color)) == Ok::<Rgb, ColorArgError>(color),
{
    let digits = hex_color_text(color);
    let marked = seq!['#'] + digits;
    lemma_hex_digit((color.red / 16) as int);
    lemma_hex_digit((color.blue % 16) as int);
    assert forall|i: int| 0 <= i < digits.len() implies #[trigger] digits[i] != ',' by {
        lemma_hex_digit((color.red / 16) as int);
        lemma_hex_digit((color.red % 16) as int);
        lemma_hex_digit((color.green / 16) as int);
        lemma_hex_digit((color.green % 16) as int);
        lemma_hex_digit((color.blue / 16) as int);
        lemma_hex_digit((color.blue % 16) as int);
    }
    assert forall|i: int| 0 <= i < marked.len() implies #[trigger] marked[i] != ',' by {
        if i > 0 {
            assert(marked[i] == digits[i - 1]);
        }
    }
    assert(trim_start(digits) == digits);
    assert(trim_end(digits) == digits);
    assert(marked[0] == '#');
    assert(marked.last() == digits.last());
    assert(trim_start(marked) == marked);
    assert(trim_end(marked) == marked);
    assert(marked.drop_first() =~= digits);
    lemma_hex_body_reads_back(digits, color);
    lemma_hex_body_reads_back(marked, color);
}

/// A channel written in decimal, without leading zeros.
pub open spec fn decimal_text(v: u8) -> Seq<char> {
    if v < 10 {
        seq![hex_digit(v as int)]
    } else if v < 100 {
        seq![hex_digit((v / 10) as int), hex_digit((v % 10) as int)]
    } else {
        seq![hex_digit((v / 100) as int), hex_digit((v / 10 % 10) as int), hex_digit((v % 10) as int)]
    }
}

/// A color written as `R,G,B`, each channel in decimal.
pub open spec fn decimal_color_text(color: Rgb) -> Seq<char> {
    decimal_text(color.red) + seq![','] + decimal_text(color.green) + seq![','] + decimal_text(
        color.blue,
    )
}

/// A channel's decimal text is one to three digits, holds neither whitespace
/// nor a comma, and reads back as the channel.
proof fn lemma_decimal_text(v: u8)
    ensures
        1 <= decimal_text(v).len() <= 3,
        forall|i: int|
            0 <= i < decimal_text(v).len() ==> !is_whitespace(#[trigger] decimal_text(v)[i])
                && decimal_text(v)[i] != ',',
        parse_u8(char_codes(decimal_text(v)), 10) == Some(v),
{
    let text = decimal_text(v);
    let codes = char_codes(text);
    lemma_hex_digit((v / 100) as int);
    lemma_hex_digit((v / 10 % 10) as int);
    lemma_hex_digit((v % 10) as int);
    if v < 10 {
        lemma_hex_digit(v as int);
    } else if v < 100 {
        lemma_hex_digit((v / 10) as int);
    }
    assert(codes.len() == text.len());
    assert(codes[0] != '+' as int);
    reveal_with_fuel(digits_value, 4);
    if v < 10 {
        assert(codes.drop_last() =~= Seq::<int>::empty());
    } else if v < 100 {
        assert(codes.drop_last().drop_last() =~= Seq::<int>::empty());
        assert(codes.drop_last().last() == codes[0]);
    } else {
        assert(codes.drop_last().drop_last().drop_last() =~= Seq::<int>::empty());
        assert(codes.drop_last().drop_last().last() == codes[0]);
        assert(codes.drop_last().last() == codes[1]);
        assert((v / 100) * 100 + (v / 10 % 10) * 10 + v % 10 == v);
    }
}

/// Text without a comma is a single part.
proof fn lemma_split_without_comma(t: Seq<char>)
    requires
        !t.contains(','),
    ensures
        split_commas(t) == seq![t],
    decreases t.len(),
{
    if t.len() > 0 {
        let shorter = t.drop_last();
        assert(!shorter.contains(',')) by {
            if shorter.contains(',') {
                let i = choose|i: int| 0 <= i < shorter.len() && shorter[i] == ',';
                assert(t[i] == ',');
            }
        }
        lemma_split_without_comma(shorter);
        assert(t.last() != ',') by {
            assert(t[t.len() - 1] == t.last());
        }
        assert(shorter.push(t.last()) =~= t);
        assert(seq![shorter].update(0, shorter.push(t.last())) =~= seq![t]);
    } else {
        assert(t =~= Seq::<char>::empty());
    }
}

/// A comma and then text without a comma add one part after those of `s`.
proof fn lemma_split_after_comma(s: Seq<char>, t: Seq<char>)
    requires
        !t.contains(','),
    ensures
        split_commas(s + seq![','] + t) == split_commas(s).push(t),
    decreases t.len(),
{
    let whole = s + seq![','] + t;
    if t.len() == 0 {
        assert(whole.drop_last() =~= s);
        assert(whole.last() == ',');
        assert(t =~= Seq::<char>::empty());
    } else {
        let shorter = t.drop_last();
        assert(!shorter.contains(',')) by {
            if shorter.contains(',') {
                let i = choose|i: int| 0 <= i < shorter.len() && shorter[i] == ',';
                assert(t[i] == ',');
            }
        }
        lemma_split_after_comma(s, shorter);
        assert(whole.drop_last() =~= s + seq![','] + shorter);
        assert(whole.last() == t.last());
        assert(t.last() != ',') by {
            assert(t[t.len() - 1] == t.last());
        }
        assert(shorter.push(t.last()) =~= t);
        assert(split_commas(s).push(shorter).update(
            split_commas(s).len() as int,
            shorter.push(t.last()),
        ) =~= split_commas(s).push(t));
    }
}

/// Text of digits only is unchanged by trimming.
proof fn lemma_trim_digits(t: Seq<char>)
    requires
        t.len() > 0,
        !is_whitespace(t[0]),
        !is_whitespace(t.last()),
    ensures
        trim(t) == t,
{
    assert(trim_start(t) == t);
    assert(trim_end(t) == t);
}

/// Every color written as `R,G,B` (decimal channels without leading zeros)
/// reads back as itself, and such text never cuts a character.
pub proof fn lemma_decimal_color_reads_back(color: Rgb)
    ensures
        !spec_rgb_argument_cuts_char(decimal_color_text(color)),
        spec_parse_rgb(decimal_color_text(color)) == Ok::<Rgb, ColorArgError>(color),
{
    let red = decimal_text(color.red);
    let green = decimal_text(color.green);
    let blue = decimal_text(color.blue);
    lemma_decimal_text(color.red);
    lemma_decimal_text(color.green);
    lemma_decimal_text(color.blue);
    let text = decimal_color_text(color);
    assert(!red.contains(',')) by {
        if red.contains(',') {
            let i = choose|i: int| 0 <= i < red.len() && red[i] == ',';
            assert(red[i] != ',');
        }
    }
    assert(!green.contains(',')) by {
        if green.contains(',') {
            let i = choose|i: int| 0 <= i < green.len() && green[i] == ',';
            assert(green[i] != ',');
        }
    }
    assert(!blue.contains(',')) by {
        if blue.contains(',') {
            let i = choose|i: int| 0 <= i < blue.len() && blue[i] == ',';
            assert(blue[i] != ',');
        }
    }
    lemma_trim_digits(red);
    lemma_trim_digits(green);
    lemma_trim_digits(blue);
    assert(text[0] == red[0]);
    assert(text.last() == blue.last()) by {
        assert(text[text.len() - 1] == blue[blue.len() - 1]);
    }
    lemma_trim_digits(text);
    assert(text[red.len() as int] == ',');
    assert(text.contains(','));
    lemma_split_without_comma(red);
    lemma_split_after_comma(red, green);
    lemma_split_after_comma(red + seq![','] + green, blue);
    assert(split_commas(text) =~= seq![red, green, blue]);
}

fn digit_value_exec(code: u32, radix: u32) -> (d: Option<u32>)
    requires
        radix <= 36,
    ensures
        match d {
            Some(d) => digit_value(code as int, radix as int) == Some(d as int),
            None => digit_value(code as int, radix as int) is None,
        },
{
    let d: u32 = if 48 <= code && code <= 57 {
        code - 48
    } else if 97 <= code && code <= 122 {
        code - 97 + 10
    } else if 65 <= code && code <= 90 {
        code - 65 + 10
    } else {
        radix
    };
    if d < radix {
        Some(d)
    } else {
        None
    }
}

proof fn lemma_value_grows(high: int, radix: int, low: int)
    by (nonlinear_arith)
    requires
        high >= 256,
        radix >= 1,
        low >= 0,
    ensures
        high * radix + low >= 256,
{
}

/// `u8::from_str_radix` over character or byte codes.
fn parse_u8_codes(codes: &Vec<u32>, radix: u32) -> (value: Option<u8>)
    requires
        2 <= radix <= 36,
    ensures
        value == parse_u8(codes@.map_values(|c: u32| c as int), radix as int),
{
    let ghost all = codes@.map_values(|c: u32| c as int);
    let n = codes.len();
    let start: usize = if n > 0 && codes[0] == 43 {
        1
    } else {
        0
    };
    let ghost digits = all.subrange(start as int, n as int);
    assert(digits =~= if all.len() > 0 && all[0] == '+' as int {
        all.drop_first()
    } else {
        all
    });
    if start == n {
        return None;
    }
    let mut capped: u32 = 0;
    let mut i: usize = start;
    while i < n
        invariant
            n == codes@.len(),
            all == codes@.map_values(|c: u32| c as int),
            2 <= radix <= 36,
            start <= i <= n,
            start < n,
            all.subrange(start as int, n as int) == (if all.len() > 0 && all[0] == '+' as int {
                all.drop_first()
            } else {
                all
            }),
            capped <= 256,
            match digits_value(all.subrange(start as int, i as int), radix as int) {
                Some(v) => capped == if v >= 256 {
                    256
                } else {
                    v
                },
                None => false,
            },
        decreases n - i,
    {
        let ghost prefix = all.subrange(start as int, i as int);
        let ghost next = all.subrange(start as int, i + 1);
        assert(next.drop_last() =~= prefix);
        match digit_value_exec(codes[i], radix) {
            None => {
                assert(digits_value(next, radix as int) is None);
                proof {
                    assert(all.subrange(start as int, n as int).subrange(0, (i - start) + 1) =~= next);
                    lemma_digits_invalid_stays_invalid(all.subrange(start as int, n as int), (i - start) + 1, radix as int);
                }
                return None;
            },
            Some(d) => {
                let ghost high = digits_value(prefix, radix as int)->Some_0;
                if capped >= 256 {
                    proof {
                        lemma_value_grows(high, radix as int, d as int);
                    }
                    capped = 256;
                } else {
                    assert(capped * radix <= 255 * 36) by (nonlinear_arith)
                        requires
                            capped < 256,
                            radix <= 36,
                    ;
                    let grown = capped * radix + d;
                    capped = if grown >= 256 {
                        256
                    } else {
                        grown
                    };
                }
            },
        }
        i = i + 1;
    }
    assert(all.subrange(start as int, n as int) == digits);
    if capped >= 256 {
        None
    } else {
        Some(capped as u8)
    }
}

/// Once a digit string holds a code that is no digit, no longer string that
/// starts with it has a value.
proof fn lemma_digits_invalid_stays_invalid(codes: Seq<int>, k: int, radix: int)
    requires
        0 <= k <= codes.len(),
        digits_value(codes.subrange(0, k), radix) is None,
    ensures
        digits_value(codes, radix) is None,
    decreases codes.len() - k,
{
    if k < codes.len() {
        assert(codes.subrange(0, k + 1).drop_last() =~= codes.subrange(0, k));
        lemma_digits_invalid_stays_invalid(codes, k + 1, radix);
    } else {
        assert(codes.subrange(0, k) =~= codes);
    }
}

fn has_comma(v: &Vec<char>) -> (found: bool)
    ensures
        found == v@.contains(','),
{
    let mut i: usize = 0;
    while i < v.len()
        invariant
            i <= v@.len(),
            forall|k: int| 0 <= k < i ==> v@[k] != ',',
        decreases v@.len() - i,
    {
        if v[i] == ',' {
            assert(v@[i as int] == ',');
            return true;
        }
        i = i + 1;
    }
    false
}

fn split_commas_exec(v: &Vec<char>) -> (parts: Vec<Vec<char>>)
    ensures
        parts@.map_values(|p: Vec<char>| p@) == split_commas(v@),
{
    let mut done: Vec<Vec<char>> = Vec::new();
    let mut current: Vec<char> = Vec::new();
    let mut i: usize = 0;
    assert(v@.take(0) =~= Seq::<char>::empty());
    assert(done@.map_values(|p: Vec<char>| p@).push(current@) =~= seq![Seq::<char>::empty()]);
    while i < v.len()
        invariant
            i <= v@.len(),
            done@.map_values(|p: Vec<char>| p@).push(current@) == split_commas(v@.take(i as int)),
        decreases v@.len() - i,
    {
        let ghost before = v@.take(i as int);
        assert(v@.take(i + 1).drop_last() =~= before);
        let c = v[i];
        if c == ',' {
            let finished = current;
            done.push(finished);
            current = Vec::new();
            assert(done@.map_values(|p: Vec<char>| p@).push(current@) =~= split_commas(before).push(
                Seq::empty(),
            ));
        } else {
            let ghost old_current = current@;
            current.push(c);
            assert(done@.map_values(|p: Vec<char>| p@).push(current@) =~= split_commas(before).update(
                split_commas(before).len() - 1,
                old_current.push(c),
            ));
        }
        i = i + 1;
    }
    assert(v@.take(v@.len() as int) =~= v@);
    let ghost before_last = done@.map_values(|p: Vec<char>| p@);
    done.push(current);
    assert(done@.map_values(|p: Vec<char>| p@) =~= before_last.push(current@));
    done
}

fn char_codes_exec(v: &Vec<char>) -> (codes: Vec<u32>)
    ensures
        codes@.map_values(|c: u32| c as int) == char_codes(v@),
{
    let mut codes: Vec<u32> = Vec::with_capacity(v.len());
    let mut i: usize = 0;
    while i < v.len()
        invariant
            i <= v@.len(),
            codes@.len() == i,
            forall|k: int| 0 <= k < i ==> (#[trigger] codes@[k]) == v@[k] as u32,
        decreases v@.len() - i,
    {
        codes.push(v[i] as u32);
        i = i + 1;
    }
    assert(codes@.map_values(|c: u32| c as int) =~= char_codes(v@));
    codes
}

fn byte_codes_exec(b: &[u8]) -> (codes: Vec<u32>)
    ensures
        codes@.map_values(|c: u32| c as int) == byte_codes(b@),
{
    let mut codes: Vec<u32> = Vec::with_capacity(b.len());
    let mut i: usize = 0;
    while i < b.len()
        invariant
            i <= b@.len(),
            codes@.len() == i,
            forall|k: int| 0 <= k < i ==> (#[trigger] codes@[k]) == b@[k] as u32,
        decreases b@.len() - i,
    {
        codes.push(b[i] as u32);
        i = i + 1;
    }
    assert(codes@.map_values(|c: u32| c as int) =~= byte_codes(b@));
    codes
}

/// The argument trimmed, without one leading `#`, as a string.
fn hex_body_exec(value: &str) -> (body: String)
    ensures
        body@ == hex_body(value@),
{
    let trimmed = trim_chars(&chars_of(value));
    if trimmed.len() > 0 && trimmed[0] == '#' {
        let mut rest: Vec<char> = Vec::with_capacity(trimmed.len() - 1);
        let mut i: usize = 1;
        while i < trimmed.len()
            invariant
                1 <= i <= trimmed@.len(),
                rest@ == trimmed@.subrange(1, i as int),
            decreases trimmed@.len() - i,
        {
            rest.push(trimmed[i]);
            i = i + 1;
            assert(rest@ =~= trimmed@.subrange(1, i as int));
        }
        assert(rest@ =~= trimmed@.drop_first());
        string_from_chars(&rest)
    } else {
        string_from_chars(&trimmed)
    }
}

/// Two bytes of `bytes`, starting at `start`, read as a hex number.
fn hex_pair(bytes: &[u8], start: usize) -> (value: Option<u8>)
    requires
        start + 2 <= bytes@.len(),
    ensures
        value == parse_u8(byte_codes(bytes@.subrange(start as int, start + 2)), 16),
{
    let n = bytes.len();
    assert(start + 2 <= n);
    let pair = &bytes[start..start + 2];
    let codes = byte_codes_exec(pair);
    parse_u8_codes(&codes, 16)
}

/// One decimal channel of `R,G,B`: the part trimmed, read as a number.
fn decimal_channel(part: &Vec<char>) -> (value: Option<u8>)
    ensures
        value == parse_u8(char_codes(trim(part@)), 10),
{
    let trimmed = trim_chars(part);
    let codes = char_codes_exec(&trimmed);
    parse_u8_codes(&codes, 10)
}

/// Parsing this argument as a hex color would cut a multi-byte character when
/// taking its byte pairs.
pub fn rgb_argument_cuts_char(value: &str) -> (cuts: bool)
    ensures
        cuts == spec_rgb_argument_cuts_char(value@),
{
    let trimmed = trim_chars(&chars_of(value));
    if has_comma(&trimmed) {
        return false;
    }
    let body = hex_body_exec(value);
    let text = body.as_str();
    let bytes = text.as_bytes();
    if bytes.len() != 6 {
        return false;
    }
    if !text.is_char_boundary(2) {
        return true;
    }
    match hex_pair(bytes, 0) {
        Some(_) => !text.is_char_boundary(4),
        None => false,
    }
}

/// Reads a color given as `R,G,B` (decimal channels) or as `RRGGBB` or
/// `#RRGGBB` (hex channels), with whitespace around it ignored.
pub fn parse_rgb(value: &str) -> (color: Result<Rgb, ColorArgError>)
    requires
        !spec_rgb_argument_cuts_char(value@),
    ensures
        color == spec_parse_rgb(value@),
{
    let trimmed = trim_chars(&chars_of(value));
    if has_comma(&trimmed) {
        let parts = split_commas_exec(&trimmed);
        assert(parts@.len() == split_commas(trimmed@).len());
        if parts.len() != 3 {
            return Err(ColorArgError::RgbFormat);
        }
        assert(parts@[0]@ == split_commas(trimmed@)[0]);
        assert(parts@[1]@ == split_commas(trimmed@)[1]);
        assert(parts@[2]@ == split_commas(trimmed@)[2]);
        let red = match decimal_channel(&parts[0]) {
            Some(red) => red,
            None => return Err(ColorArgError::InvalidChannel(Channel::Red)),
        };
        let green = match decimal_channel(&parts[1]) {
            Some(green) => green,
            None => return Err(ColorArgError::InvalidChannel(Channel::Green)),
        };
        let blue = match decimal_channel(&parts[2]) {
            Some(blue) => blue,
            None => return Err(ColorArgError::InvalidChannel(Channel::Blue)),
        };
        return Ok(Rgb { red, green, blue });
    }
    let body = hex_body_exec(value);
    let bytes = body.as_str().as_bytes();
    if bytes.len() != 6 {
        return Err(ColorArgError::HexFormat);
    }
    let red = match hex_pair(bytes, 0) {
        Some(red) => red,
        None => return Err(ColorArgError::InvalidHexChannel(Channel::Red)),
    };
    let green = match hex_pair(bytes, 2) {
        Some(green) => green,
        None => return Err(ColorArgError::InvalidHexChannel(Channel::Green)),
    };
    let blue = match hex_pair(bytes, 4) {
        Some(blue) => blue,
        None => return Err(ColorArgError::InvalidHexChannel(Channel::Blue)),
    };
    Ok(Rgb { red, green, blue })
}

/// The color of the `on` command: the positional color, or the channels
/// given one by one (absent ones 0), or red when nothing is given; a
/// positional color together with channels is refused.
pub fn resolve_on_color(color: Option<String>, red: Option<u8>, green: Option<u8>, blue: Option<u8>) -> (resolved: Result<Rgb, ColorArgError>)
    requires
        color matches Some(c) ==> !spec_rgb_argument_cuts_char(c@),
    ensures
        resolved == match color {
            Some(c) => if red is Some || green is Some || blue is Some {
                Err(ColorArgError::ConflictingColorArguments)
            } else {
                spec_parse_rgb(c@)
            },
            None => if red is Some || green is Some || blue is Some {
                Ok(
                    Rgb {
                        red: match red {
                            Some(r) => r,
                            None => 0,
                        },
                        green: match green {
                            Some(g) => g,
                            None => 0,
                        },
                        blue: match blue {
                            Some(b) => b,
                            None => 0,
                        },
                    },
                )
            } else {
                Ok(Rgb { red: 255, green: 0, blue: 0 })
            },
        },
{
    let any_channel = red.is_some() || green.is_some() || blue.is_some();
    match color {
        Some(color) => {
            if any_channel {
                return Err(ColorArgError::ConflictingColorArguments);
            }
            parse_rgb(color.as_str())
        },
        None => {
            if any_channel {
                Ok(
                    Rgb {
                        red: match red {
                            Some(r) => r,
                            None => 0,
                        },
                        green: match green {
                            Some(g) => g,
                            None => 0,
                        },
                        blue: match blue {
                            Some(b) => b,
                            None => 0,
                        },
                    },
                )
            } else {
                Ok(Rgb { red: 255, green: 0, blue: 0 })
            }
        },
    }
}

} // verus!
