//! Configuration options.

use base64::prelude::{Engine, BASE64_STANDARD};
use vstd::prelude::*;
use vstd::utf8::*;

use crate::text::{decimal, to_decimal};

verus! {

/// RGB color.
#[derive(Copy, Clone, Debug, PartialEq, Eq, Hash, Structural)]
pub struct Color {
    pub r: u8,
    pub g: u8,
    pub b: u8,
}

/// Reason for rejecting a color.
#[derive(Copy, Clone, Debug, PartialEq, Eq, Structural)]
pub enum ColorError {
    /// The color does not start with a `#`.
    MissingHash,
    /// The color does not have six digits.
    WrongDigitCount(usize),
    /// The color has digits which are not hexadecimal.
    NonHexDigits,
}

/// Value of a hexadecimal digit.
pub open spec fn hex_value(digit: u8) -> Option<int> {
    if 0x30 <= digit <= 0x39 {
        Some(digit - 0x30)
    } else if 0x41 <= digit <= 0x46 {
        Some(digit - 0x41 + 10)
    } else if 0x61 <= digit <= 0x66 {
        Some(digit - 0x61 + 10)
    } else {
        None
    }
}

/// Value of a list of hexadecimal digits.
pub open spec fn hex_number(digits: Seq<u8>) -> Option<int>
    decreases digits.len(),
{
    if digits.len() == 0 {
        Some(0)
    } else {
        match (hex_number(digits.drop_last()), hex_value(digits.last())) {
            (Some(number), Some(digit)) => Some(16 * number + digit),
            _ => None,
        }
    }
}

/// Value of the channels behind the `#`, which may have a leading plus sign.
pub open spec fn channels_number(channels: Seq<u8>) -> Option<int> {
    if channels[0] == 0x2b {
        hex_number(channels.drop_first())
    } else {
        hex_number(channels)
    }
}

/// Color with the specified channels.
pub open spec fn color_of(number: int) -> Color {
    Color {
        r: (number / 0x10000 % 0x100) as u8,
        g: (number / 0x100 % 0x100) as u8,
        b: (number % 0x100) as u8,
    }
}

/// Color written down as text.
pub open spec fn parsed_color(bytes: Seq<u8>) -> Result<Color, ColorError> {
    if bytes.len() == 0 || bytes[0] != 0x23 {
        Err(ColorError::MissingHash)
    } else if bytes.len() != 7 {
        Err(ColorError::WrongDigitCount((bytes.len() - 1) as usize))
    } else {
        match channels_number(bytes.drop_first()) {
            Some(number) => Ok(color_of(number)),
            None => Err(ColorError::NonHexDigits),
        }
    }
}

/// Lowercase hexadecimal digit.
pub open spec fn hex_digit(value: int) -> char {
    if value < 10 {
        (0x30 + value) as u8 as char
    } else {
        (0x61 + value - 10) as u8 as char
    }
}

impl Color {
    pub fn new(r: u8, g: u8, b: u8) -> (color: Self)
        ensures
            color == (Color { r, g, b }),
    {
        Self { r, g, b }
    }

    /// Parse a hex color like `#ff00ff`.
    pub fn parse(value: &str) -> (color: Result<Self, ColorError>)
        ensures
            color == parsed_color(encode_utf8(value@)),
    {
        let bytes = value.as_bytes();
        if bytes.len() == 0 || bytes[0] != 0x23 {
            return Err(ColorError::MissingHash);
        }
        if bytes.len() != 7 {
            return Err(ColorError::WrongDigitCount(bytes.len() - 1));
        }

        let ghost channels = bytes@.drop_first();
        let first: usize = if bytes[1] == 0x2b {
            2
        } else {
            1
        };
        let ghost digits = bytes@.skip(first as int);
        proof {
            assert(first == 1 ==> digits =~= channels);
            assert(first == 2 ==> digits =~= channels.drop_first());
        }
        let mut number: u32 = 0;
        let mut i: usize = first;
        proof {
            assert(digits.take(0) =~= Seq::<u8>::empty());
        }
        while i < 7
            invariant
                1 <= first <= i <= 7,
                bytes.len() == 7,
                bytes@ == encode_utf8(value@),
                bytes@[0] == 0x23,
                channels == bytes@.drop_first(),
                digits == (if channels[0] == 0x2b {
                    channels.drop_first()
                } else {
                    channels
                }),
                digits == bytes@.skip(first as int),
                hex_number(digits.take(i - first)) == Some(number as int),
                i == first ==> number == 0,
                i == first + 1 ==> number < 0x10,
                i == first + 2 ==> number < 0x100,
                i == first + 3 ==> number < 0x1000,
                i == first + 4 ==> number < 0x1_0000,
                i == first + 5 ==> number < 0x10_0000,
                i == first + 6 ==> number < 0x100_0000,
            decreases 7 - i,
        {
            let ghost k = i - first;
            proof {
                assert(digits.take(k + 1).drop_last() =~= digits.take(k));
                assert(digits.take(k + 1).last() == bytes@[i as int]);
            }
            match hex_digit_value(bytes[i]) {
                Some(digit) => {
                    number = 16 * number + digit;
                },
                None => {
                    proof {
                        lemma_hex_number_prefix(digits, k + 1);
                    }
                    return Err(ColorError::NonHexDigits);
                },
            }
            i += 1;
        }
        proof {
            assert(digits.take(7 - first) =~= digits);
        }

        let b: u8 = (number % 0x100) as u8;
        let g: u8 = (number / 0x100 % 0x100) as u8;
        let r: u8 = (number / 0x10000 % 0x100) as u8;
        Ok(Color::new(r, g, b))
    }

    /// Text for a color.
    pub open spec fn spec_to_string(self) -> Seq<char> {
        seq![
            '#',
            hex_digit(self.r as int / 16),
            hex_digit(self.r as int % 16),
            hex_digit(self.g as int / 16),
            hex_digit(self.g as int % 16),
            hex_digit(self.b as int / 16),
            hex_digit(self.b as int % 16),
        ]
    }

    /// Get the hex representation of this color.
    pub fn to_string(&self) -> (text: String)
        ensures
            text@ == self.spec_to_string(),
    {
        let mut text = String::new();
        text.push('#');
        text.push(digit_char(self.r / 16));
        text.push(digit_char(self.r % 16));
        text.push(digit_char(self.g / 16));
        text.push(digit_char(self.g % 16));
        text.push(digit_char(self.b / 16));
        text.push(digit_char(self.b % 16));
        proof {
            assert(text@ =~= self.spec_to_string());
        }
        text
    }

    /// Get this color's value as it is written in a configuration file.
    pub fn format(&self) -> (text: String)
        ensures
            text@ == seq!['"'] + self.spec_to_string() + seq!['"'],
    {
        let mut text = String::new();
        text.push('"');
        let color = self.to_string();
        text.append(color.as_str());
        text.push('"');
        proof {
            assert(text@ =~= seq!['"'] + self.spec_to_string() + seq!['"']);
        }
        text
    }
}

/// Get the value of a hexadecimal digit.
fn hex_digit_value(digit: u8) -> (value: Option<u32>)
    ensures
        match value {
            Some(value) => hex_value(digit) == Some(value as int) && value < 16,
            None => hex_value(digit) is None,
        },
{
    if 0x30 <= digit && digit <= 0x39 {
        Some((digit - 0x30) as u32)
    } else if 0x41 <= digit && digit <= 0x46 {
        Some((digit - 0x41) as u32 + 10)
    } else if 0x61 <= digit && digit <= 0x66 {
        Some((digit - 0x61) as u32 + 10)
    } else {
        None
    }
}

/// Get the digit for a value.
fn digit_char(value: u8) -> (digit: char)
    requires
        value < 16,
    ensures
        digit == hex_digit(value as int),
{
    if value < 10 {
        (0x30 + value) as char
    } else {
        (0x61 + (value - 10)) as char
    }
}

/// A number with an invalid digit is invalid as a whole.
proof fn lemma_hex_number_prefix(digits: Seq<u8>, n: int)
    requires
        0 <= n <= digits.len(),
        hex_number(digits.take(n)) is None,
    ensures
        hex_number(digits) is None,
    decreases digits.len() - n,
{
    if n < digits.len() {
        assert(digits.take(n + 1).drop_last() =~= digits.take(n));
        lemma_hex_number_prefix(digits, n + 1);
    } else {
        assert(digits.take(n) =~= digits);
    }
}

/// The digit of a value has that value again.
proof fn lemma_hex_digit(value: int)
    requires
        0 <= value < 16,
    ensures
        hex_value(hex_digit(value) as u8) == Some(value),
        '\0' <= hex_digit(value) <= '\u{7f}',
        hex_digit(value) as u8 != 0x2b,
{
}

/// Reading one more digit.
proof fn lemma_hex_step(digits: Seq<u8>, k: int, number: int, value: int)
    requires
        0 <= k < digits.len(),
        hex_number(digits.take(k)) == Some(number),
        hex_value(digits[k]) == Some(value),
    ensures
        hex_number(digits.take(k + 1)) == Some(16 * number + value),
{
    assert(digits.take(k + 1).drop_last() =~= digits.take(k));
}

/// Six digits form the number that they stand for.
proof fn lemma_six_digits(digits: Seq<u8>, d: Seq<int>)
    requires
        digits.len() == 6,
        d.len() == 6,
        forall|i: int| 0 <= i < 6 ==> hex_value(#[trigger] digits[i]) == Some(d[i]),
    ensures
        hex_number(digits) == Some(
            16 * (16 * (16 * (16 * (16 * d[0] + d[1]) + d[2]) + d[3]) + d[4]) + d[5],
        ),
{
    assert(digits.take(0) =~= Seq::<u8>::empty());
    assert(hex_number(digits.take(0)) == Some(0int));
    lemma_hex_step(digits, 0, 0, d[0]);
    lemma_hex_step(digits, 1, d[0], d[1]);
    lemma_hex_step(digits, 2, 16 * d[0] + d[1], d[2]);
    lemma_hex_step(digits, 3, 16 * (16 * d[0] + d[1]) + d[2], d[3]);
    lemma_hex_step(digits, 4, 16 * (16 * (16 * d[0] + d[1]) + d[2]) + d[3], d[4]);
    lemma_hex_step(digits, 5, 16 * (16 * (16 * (16 * d[0] + d[1]) + d[2]) + d[3]) + d[4], d[5]);
    assert(digits.take(6) =~= digits);
}

/// Channels of a color, split into their digits.
spec fn channel_digits(color: Color) -> Seq<int> {
    seq![
        color.r as int / 16,
        color.r as int % 16,
        color.g as int / 16,
        color.g as int % 16,
        color.b as int / 16,
        color.b as int % 16,
    ]
}

/// Every color can be read back from its text.
pub proof fn law_color_round_trip(color: Color)
    ensures
        parsed_color(encode_utf8(color.spec_to_string())) == Ok::<Color, ColorError>(color),
{
    let text = color.spec_to_string();
    let d = channel_digits(color);
    assert forall|i: int| 0 <= i < 7 implies '\0' <= #[trigger] text[i] <= '\u{7f}' by {
        if i > 0 {
            lemma_hex_digit(d[i - 1]);
            assert(text[i] == hex_digit(d[i - 1]));
        }
    }
    is_ascii_chars_encode_utf8(text);
    let bytes = encode_utf8(text);
    let channels = bytes.drop_first();
    assert forall|i: int| 0 <= i < 6 implies hex_value(#[trigger] channels[i]) == Some(d[i])
        && channels[i] != 0x2b by {
        lemma_hex_digit(d[i]);
        assert(text[i + 1] == hex_digit(d[i]));
        assert(channels[i] == text[i + 1] as u8);
    }
    lemma_six_digits(channels, d);
    lemma_color_of(color.r as int, color.g as int, color.b as int);
}

/// A color is made of the digits of its channels.
proof fn lemma_color_of(r: int, g: int, b: int)
    requires
        0 <= r < 256,
        0 <= g < 256,
        0 <= b < 256,
    ensures
        color_of(
            16 * (16 * (16 * (16 * (16 * (r / 16) + r % 16) + g / 16) + g % 16) + b / 16) + b % 16,
        ) == (Color { r: r as u8, g: g as u8, b: b as u8 }),
{
    let number = 0x10000 * r + 0x100 * g + b;
    assert(number / 0x10000 % 0x100 == r);
    assert(number / 0x100 % 0x100 == g);
    assert(number % 0x100 == b);
}

/// Font configuration.
#[derive(Debug)]
pub struct Font {
    /// Font family.
    pub family: String,
    /// Bits of the font size's floating point value.
    pub size: u32,
}

impl Default for Font {
    /// Sans-serif font with a size of 18.
    fn default() -> (font: Self)
        ensures
            font.family@ == "sans"@,
            font.size == 0x4190_0000,
    {
        Font { family: "sans".to_owned(), size: 0x4190_0000 }
    }
}

/// Color configuration.
#[derive(Copy, Clone, Debug, PartialEq, Eq, Hash, Structural)]
pub struct Colors {
    /// Primary foreground color.
    pub foreground: Color,
    /// Primary background color.
    pub background: Color,
    /// Primary accent color.
    pub highlight: Color,
    /// Alternative foreground color.
    pub alt_foreground: Color,
    /// Alternative background color.
    pub alt_background: Color,
}

impl Default for Colors {
    fn default() -> (colors: Self)
        ensures
            colors == (Colors {
                foreground: Color { r: 255, g: 255, b: 255 },
                background: Color { r: 24, g: 24, b: 24 },
                highlight: Color { r: 117, g: 42, b: 42 },
                alt_foreground: Color { r: 191, g: 191, b: 191 },
                alt_background: Color { r: 40, g: 40, b: 40 },
            }),
    {
        Colors {
            foreground: Color::new(255, 255, 255),
            background: Color::new(24, 24, 24),
            highlight: Color::new(117, 42, 42),
            alt_foreground: Color::new(191, 191, 191),
            alt_background: Color::new(40, 40, 40),
        }
    }
}

/// Bytes with a base64 representation.
pub uninterp spec fn base64_decoded(text: Seq<char>) -> Option<Seq<u8>>;

/// Decode base64 text.
///
/// This is `decode` of the engine `base64::prelude::BASE64_STANDARD`, which
/// depends on nothing but the text. Errors are not told apart.
#[verifier::external_body]
fn decode_base64(text: &str) -> (bytes: Option<Vec<u8>>)
    ensures
        match bytes {
            Some(bytes) => base64_decoded(text@) == Some(bytes@),
            None => base64_decoded(text@) is None,
        },
{
    BASE64_STANDARD.decode(text).ok()
}

/// Convert bytes to text.
///
/// This is `String::from_utf8`, which succeeds for valid UTF-8 and returns the
/// text encoded by it.
#[verifier::external_body]
fn text_from_utf8(bytes: Vec<u8>) -> (text: Option<String>)
    ensures
        match text {
            Some(text) => valid_utf8(bytes@) && text@ == decode_utf8(bytes@),
            None => !valid_utf8(bytes@),
        },
{
    String::from_utf8(bytes).ok()
}

/// URL of the default tile server, without its token.
pub const TILESERVER_URL: &'static str =
    "https://tile.jawg.io/c09eed68-abaf-45b9-bed8-8bb2076013d7/{z}/{x}/{y}.png";

/// Base64 representation of the default tile server's token.
///
/// This avoids exposing the token to crawlers.
pub const TILESERVER_TOKEN: &'static str =
    "P2FjY2Vzcy10b2tlbj1Ydk94aTMxakNtYlRBSDRUcW1zM3RXbEJsUTNBQ1o5cWxTY0NnSkFzVkVLRUNMYk16S3BJeTdRaGtJU1NiWmNs";

/// Map tile configuration.
#[derive(Debug)]
pub struct Tiles {
    /// Raster tile server.
    ///
    /// This is the tile server's URL, using the variables `{x}` and `{y}` for
    /// the tile numbers and `{z}` for the zoom level.
    pub server: String,
    /// Maximum number of map tiles cached in memory.
    pub max_mem_tiles: usize,
    /// Maximum number of map tiles cached on disk.
    pub max_fs_tiles: u32,
    /// Tileserver attribution message.
    pub attribution: String,
}

impl Tiles {
    /// Configuration of the default tile server.
    pub open spec fn uses_default_server(&self, token: Seq<char>) -> bool {
        &&& self.server@ == TILESERVER_URL@ + token
        &&& self.max_mem_tiles == 1_000
        &&& self.max_fs_tiles == 50_000
        &&& self.attribution@ == "© JawgMaps © OpenStreetMap"@
    }

    /// Create the default configuration for a token.
    pub fn with_token(token: &str) -> (tiles: Self)
        ensures
            tiles.uses_default_server(token@),
    {
        let mut server = TILESERVER_URL.to_owned();
        server.append(token);
        Tiles {
            server,
            max_mem_tiles: 1_000,
            max_fs_tiles: 50_000,
            attribution: "© JawgMaps © OpenStreetMap".to_owned(),
        }
    }

    /// Create the default configuration.
    ///
    /// There is no default if the token cannot be decoded.
    pub fn try_default() -> (tiles: Option<Self>)
        ensures
            match (tiles, base64_decoded(TILESERVER_TOKEN@)) {
                (Some(tiles), Some(bytes)) => {
                    &&& valid_utf8(bytes)
                    &&& tiles.uses_default_server(decode_utf8(bytes))
                },
                (Some(_), None) => false,
                (None, Some(bytes)) => !valid_utf8(bytes),
                (None, None) => true,
            },
    {
        match decode_base64(TILESERVER_TOKEN) {
            Some(bytes) => match text_from_utf8(bytes) {
                Some(token) => Some(Tiles::with_token(token.as_str())),
                None => None,
            },
            None => None,
        }
    }
}

/// Options related to geocoding.
#[derive(Debug)]
pub struct Search {
    /// URL base of the Nominatim geocoding server.
    ///
    /// An empty URL will disable online geocoding.
    pub nominatim_url: String,
}

impl Default for Search {
    fn default() -> (search: Self)
        ensures
            search.nominatim_url@ == "https://nominatim.openstreetmap.org"@,
    {
        Search { nominatim_url: "https://nominatim.openstreetmap.org".to_owned() }
    }
}

/// Input configuration.
#[derive(Copy, Clone, Debug, PartialEq, Eq, Structural)]
pub struct Input {
    /// Milliseconds per velocity tick.
    pub velocity_interval: u16,
    /// Bits of the percentage of velocity retained each tick.
    pub velocity_friction: u64,
    /// Bits of the square of the maximum distance before touch input is
    /// considered a drag.
    pub max_tap_distance: u64,
    /// Maximum interval between taps to be considered a double/triple-tap.
    pub max_multi_tap: MillisDuration,
}

impl Default for Input {
    /// Velocity friction of 85%, and taps within 20 pixels.
    fn default() -> (input: Self)
        ensures
            input == (Input {
                velocity_interval: 30,
                velocity_friction: 0x3feb_3333_3333_3333,
                max_tap_distance: 0x4079_0000_0000_0000,
                max_multi_tap: MillisDuration(300),
            }),
    {
        Input {
            velocity_interval: 30,
            velocity_friction: 0x3feb_3333_3333_3333,
            max_tap_distance: 0x4079_0000_0000_0000,
            max_multi_tap: MillisDuration(300),
        }
    }
}

/// Duration with millisecond-precision.
#[derive(Copy, Clone, Debug, PartialEq, Eq, Hash, Structural)]
pub struct MillisDuration(pub u64);

impl MillisDuration {
    /// Get the number of milliseconds as text.
    pub fn to_string(&self) -> (text: String)
        ensures
            text@ == decimal(self.0 as int),
    {
        to_decimal(self.0)
    }
}

/// Hexadecimal digits have the same value in upper and lower case.
pub proof fn law_hex_digits_ignore_case(value: int)
    requires
        10 <= value < 16,
    ensures
        hex_value((0x41 + value - 10) as u8) == Some(value),
        hex_value((0x61 + value - 10) as u8) == Some(value),
{
}

/// The digits of a color are those of its red, green, and blue channel, in this
/// order.
pub proof fn law_color_channels(bytes: Seq<u8>, color: Color)
    requires
        parsed_color(bytes) == Ok::<Color, ColorError>(color),
        bytes[1] != 0x2b,
    ensures
        bytes.len() == 7,
        bytes[0] == '#' as u8,
        hex_value(bytes[1]) is Some && hex_value(bytes[2]) is Some,
        hex_value(bytes[3]) is Some && hex_value(bytes[4]) is Some,
        hex_value(bytes[5]) is Some && hex_value(bytes[6]) is Some,
        color.r == 16 * hex_value(bytes[1])->0 + hex_value(bytes[2])->0,
        color.g == 16 * hex_value(bytes[3])->0 + hex_value(bytes[4])->0,
        color.b == 16 * hex_value(bytes[5])->0 + hex_value(bytes[6])->0,
{
    let digits = bytes.drop_first();
    reveal_with_fuel(hex_number, 7);
    let d5 = digits.drop_last();
    let d4 = d5.drop_last();
    let d3 = d4.drop_last();
    let d2 = d3.drop_last();
    let d1 = d2.drop_last();
    assert(d1.drop_last() =~= Seq::<u8>::empty());
    assert(hex_number(d1.drop_last()) == Some(0int));
    assert(hex_number(d1) is Some && hex_number(d2) is Some && hex_number(d3) is Some);
    assert(hex_number(d4) is Some && hex_number(d5) is Some && hex_number(digits) is Some);
    let r = 16 * hex_value(bytes[1])->0 + hex_value(bytes[2])->0;
    let g = 16 * hex_value(bytes[3])->0 + hex_value(bytes[4])->0;
    let b = 16 * hex_value(bytes[5])->0 + hex_value(bytes[6])->0;
    assert(hex_number(digits)->0 == 0x10000 * r + 0x100 * g + b);
    lemma_color_of(r, g, b);
}

/// Colors need a leading `#` and six digits.
pub proof fn law_color_errors(bytes: Seq<u8>)
    requires
        bytes.len() <= usize::MAX,
    ensures
        ({
            let color = parsed_color(bytes);
            let hash = bytes.len() > 0 && bytes[0] == '#' as u8;
            &&& !hash <==> color == Err::<Color, ColorError>(ColorError::MissingHash)
            &&& hash && bytes.len() != 7 <==> color == Err::<Color, ColorError>(
                ColorError::WrongDigitCount((bytes.len() - 1) as usize),
            )
        }),
{
}

} // verus!
