use vstd::prelude::*;
use vstd::string::*;
use crate::text::{bytes_eq, string_from_chars};
use crate::json::{JsonValue, JsonView, json_view, json_views, json_members_view, member_index, member_position, json_get, json_str, json_bool, lemma_json_views_index, lemma_json_members_index};

verus! {

/// A piece of formatted chat text.
#[derive(Debug)]
pub enum Component {
    Text(TextComponent),
}

/// Styling of a text component, plus the components that follow it.
#[derive(Debug)]
pub struct Modifier {
    pub extra: Option<Vec<Component>>,
    pub bold: Option<bool>,
    pub italic: Option<bool>,
    pub underlined: Option<bool>,
    pub strikethrough: Option<bool>,
    pub obfuscated: Option<bool>,
    pub color: Option<Color>,
}

/// Plain text with a modifier.
#[derive(Debug)]
pub struct TextComponent {
    pub text: String,
    pub modifier: Modifier,
}

impl Modifier {
    /// No styling and nothing following.
    pub open spec fn is_plain(&self) -> bool {
        &&& self.extra is None
        &&& self.bold is None
        &&& self.italic is None
        &&& self.underlined is None
        &&& self.strikethrough is None
        &&& self.obfuscated is None
        &&& self.color is None
    }
}

impl Default for Modifier {
    fn default() -> (m: Self)
        ensures
            m.is_plain(),
    {
        Modifier {
            extra: None,
            bold: None,
            italic: None,
            underlined: None,
            strikethrough: None,
            obfuscated: None,
            color: None,
        }
    }
}

impl TextComponent {
    /// Plain, unstyled text.
    pub fn new(val: &str) -> (t: TextComponent)
        ensures
            t.text@ == val@,
            t.modifier.is_plain(),
    {
        TextComponent { text: val.to_owned(), modifier: Modifier::default() }
    }
}

/// A chat colour: one of the sixteen named colours or an RGB triple.
#[derive(Debug, Clone, Copy, PartialEq, Eq, Structural)]
pub enum Color {
    Black,
    DarkBlue,
    DarkGreen,
    DarkAqua,
    DarkRed,
    DarkPurple,
    Gold,
    Gray,
    DarkGray,
    Blue,
    Green,
    Aqua,
    Red,
    LightPurple,
    Yellow,
    White,
    RGB(u8, u8, u8),
}

/// The protocol name of a named colour (empty for RGB colours).
pub open spec fn color_name(c: Color) -> Seq<char> {
    match c {
        Color::Black => seq!['b', 'l', 'a', 'c', 'k'],
        Color::DarkBlue => seq!['d', 'a', 'r', 'k', '_', 'b', 'l', 'u', 'e'],
        Color::DarkGreen => seq!['d', 'a', 'r', 'k', '_', 'g', 'r', 'e', 'e', 'n'],
        Color::DarkAqua => seq!['d', 'a', 'r', 'k', '_', 'a', 'q', 'u', 'a'],
        Color::DarkRed => seq!['d', 'a', 'r', 'k', '_', 'r', 'e', 'd'],
        Color::DarkPurple => seq!['d', 'a', 'r', 'k', '_', 'p', 'u', 'r', 'p', 'l', 'e'],
        Color::Gold => seq!['g', 'o', 'l', 'd'],
        Color::Gray => seq!['g', 'r', 'a', 'y'],
        Color::DarkGray => seq!['d', 'a', 'r', 'k', '_', 'g', 'r', 'a', 'y'],
        Color::Blue => seq!['b', 'l', 'u', 'e'],
        Color::Green => seq!['g', 'r', 'e', 'e', 'n'],
        Color::Aqua => seq!['a', 'q', 'u', 'a'],
        Color::Red => seq!['r', 'e', 'd'],
        Color::LightPurple => seq!['l', 'i', 'g', 'h', 't', '_', 'p', 'u', 'r', 'p', 'l', 'e'],
        Color::Yellow => seq!['y', 'e', 'l', 'l', 'o', 'w'],
        Color::White => seq!['w', 'h', 'i', 't', 'e'],
        Color::RGB(_, _, _) => seq![],
    }
}

/// The (ASCII) bytes of a colour's name.
pub open spec fn name_bytes(c: Color) -> Seq<u8> {
    color_name(c).map_values(|ch: char| ch as u8)
}

/// Upper-case hexadecimal digit for a value below 16.
pub open spec fn hex_upper(v: u8) -> char {
    if v < 10 { ((v + 48) as u8) as char } else { ((v + 55) as u8) as char }
}

/// The value of an ASCII hexadecimal digit of either case.
pub open spec fn hex_digit(b: u8) -> Option<u8> {
    if 48 <= b <= 57 {
        Some((b - 48) as u8)
    } else if 65 <= b <= 70 {
        Some((b - 55) as u8)
    } else if 97 <= b <= 102 {
        Some((b - 87) as u8)
    } else {
        None
    }
}

/// Base-16 parse of a two-byte string as `u8::from_str_radix` does it
/// (an optional leading `+` followed by hexadecimal digits).
pub open spec fn parse_hex_byte(hi: u8, lo: u8) -> Option<u8> {
    if hi == 43 {
        hex_digit(lo)
    } else {
        match (hex_digit(hi), hex_digit(lo)) {
            (Some(h), Some(l)) => Some((h * 16 + l) as u8),
            _ => None,
        }
    }
}

/// Whether `b` spells the name of one of the fifteen colours other than white.
pub open spec fn is_name_of(b: Seq<u8>, c: Color) -> bool {
    c != Color::White && !(c is RGB) && b == name_bytes(c)
}

/// The colour that a name (given by its UTF-8 bytes) denotes.
pub open spec fn color_from_bytes(b: Seq<u8>) -> Color {
    if is_name_of(b, Color::Black) { Color::Black }
    else if is_name_of(b, Color::DarkBlue) { Color::DarkBlue }
    else if is_name_of(b, Color::DarkGreen) { Color::DarkGreen }
    else if is_name_of(b, Color::DarkAqua) { Color::DarkAqua }
    else if is_name_of(b, Color::DarkRed) { Color::DarkRed }
    else if is_name_of(b, Color::DarkPurple) { Color::DarkPurple }
    else if is_name_of(b, Color::Gold) { Color::Gold }
    else if is_name_of(b, Color::Gray) { Color::Gray }
    else if is_name_of(b, Color::DarkGray) { Color::DarkGray }
    else if is_name_of(b, Color::Blue) { Color::Blue }
    else if is_name_of(b, Color::Green) { Color::Green }
    else if is_name_of(b, Color::Aqua) { Color::Aqua }
    else if is_name_of(b, Color::Red) { Color::Red }
    else if is_name_of(b, Color::LightPurple) { Color::LightPurple }
    else if is_name_of(b, Color::Yellow) { Color::Yellow }
    else if b.len() == 7 && b[0] == 35 {
        match (parse_hex_byte(b[1], b[2]), parse_hex_byte(b[3], b[4]), parse_hex_byte(b[5], b[6])) {
            (Some(r), Some(g), Some(bl)) => Color::RGB(r, g, bl),
            _ => Color::White,
        }
    } else {
        Color::White
    }
}

/// Whether parsing a colour name cuts a multi-byte character: a 7-byte
/// string starting with `#` is read as three 2-byte slices.
pub open spec fn color_parse_splits_char(b: Seq<u8>) -> bool {
    b.len() == 7 && b[0] == 35 && !(vstd::utf8::is_char_boundary(b, 3) && vstd::utf8::is_char_boundary(b, 5))
}

/// The text `to_string` gives for a colour.
pub open spec fn color_string(c: Color) -> Seq<char> {
    match c {
        Color::RGB(r, g, b) => seq!['#', hex_upper(r / 16), hex_upper(r % 16), hex_upper(g / 16),
            hex_upper(g % 16), hex_upper(b / 16), hex_upper(b % 16)],
        _ => color_name(c),
    }
}

/// The RGB components of a colour.
pub open spec fn color_rgb(c: Color) -> (u8, u8, u8) {
    match c {
        Color::Black => (0, 0, 0),
        Color::DarkBlue => (0, 0, 170),
        Color::DarkGreen => (0, 170, 0),
        Color::DarkAqua => (0, 170, 170),
        Color::DarkRed => (170, 0, 0),
        Color::DarkPurple => (170, 0, 170),
        Color::Gold => (255, 170, 0),
        Color::Gray => (170, 170, 170),
        Color::DarkGray => (85, 85, 85),
        Color::Blue => (85, 85, 255),
        Color::Green => (85, 255, 85),
        Color::Aqua => (85, 255, 255),
        Color::Red => (255, 85, 85),
        Color::LightPurple => (255, 85, 255),
        Color::Yellow => (255, 255, 85),
        Color::White => (255, 255, 255),
        Color::RGB(r, g, b) => (r, g, b),
    }
}

/// The sixteen named colours are written by their Minecraft protocol names,
/// and reading such a name back gives the colour.
pub proof fn lemma_protocol_color_names()
    ensures
        color_string(Color::Black) == "black"@,
        color_string(Color::DarkBlue) == "dark_blue"@,
        color_string(Color::DarkGreen) == "dark_green"@,
        color_string(Color::DarkAqua) == "dark_aqua"@,
        color_string(Color::DarkRed) == "dark_red"@,
        color_string(Color::DarkPurple) == "dark_purple"@,
        color_string(Color::Gold) == "gold"@,
        color_string(Color::Gray) == "gray"@,
        color_string(Color::DarkGray) == "dark_gray"@,
        color_string(Color::Blue) == "blue"@,
        color_string(Color::Green) == "green"@,
        color_string(Color::Aqua) == "aqua"@,
        color_string(Color::Red) == "red"@,
        color_string(Color::LightPurple) == "light_purple"@,
        color_string(Color::Yellow) == "yellow"@,
        color_string(Color::White) == "white"@,
        forall|c: Color| !(c is RGB) ==> color_from_bytes(vstd::utf8::encode_utf8(#[trigger] color_string(c))) == c,
{
    reveal_strlit("black");
    reveal_strlit("dark_blue");
    reveal_strlit("dark_green");
    reveal_strlit("dark_aqua");
    reveal_strlit("dark_red");
    reveal_strlit("dark_purple");
    reveal_strlit("gold");
    reveal_strlit("gray");
    reveal_strlit("dark_gray");
    reveal_strlit("blue");
    reveal_strlit("green");
    reveal_strlit("aqua");
    reveal_strlit("red");
    reveal_strlit("light_purple");
    reveal_strlit("yellow");
    reveal_strlit("white");
    assert(color_string(Color::Black) =~= "black"@);
    assert(color_string(Color::DarkBlue) =~= "dark_blue"@);
    assert(color_string(Color::DarkGreen) =~= "dark_green"@);
    assert(color_string(Color::DarkAqua) =~= "dark_aqua"@);
    assert(color_string(Color::DarkRed) =~= "dark_red"@);
    assert(color_string(Color::DarkPurple) =~= "dark_purple"@);
    assert(color_string(Color::Gold) =~= "gold"@);
    assert(color_string(Color::Gray) =~= "gray"@);
    assert(color_string(Color::DarkGray) =~= "dark_gray"@);
    assert(color_string(Color::Blue) =~= "blue"@);
    assert(color_string(Color::Green) =~= "green"@);
    assert(color_string(Color::Aqua) =~= "aqua"@);
    assert(color_string(Color::Red) =~= "red"@);
    assert(color_string(Color::LightPurple) =~= "light_purple"@);
    assert(color_string(Color::Yellow) =~= "yellow"@);
    assert(color_string(Color::White) =~= "white"@);
    assert forall|c: Color| !(c is RGB) implies color_from_bytes(vstd::utf8::encode_utf8(#[trigger] color_string(c))) == c by {
        lemma_color_string_roundtrip(c);
    }
}

/// An RGB colour is written as `#` and six upper-case hexadecimal digits,
/// two for each of red, green and blue, high digit first.
pub proof fn lemma_rgb_string(r: u8, g: u8, b: u8)
    ensures
        ({
            let s = color_string(Color::RGB(r, g, b));
            &&& s.len() == 7
            &&& s[0] == '#'
            &&& forall|i: int| 1 <= i < 7 ==> ('0' <= #[trigger] s[i] <= '9' || 'A' <= s[i] <= 'F')
            &&& hex_digit(s[1] as u8)->0 * 16 + hex_digit(s[2] as u8)->0 == r
            &&& hex_digit(s[3] as u8)->0 * 16 + hex_digit(s[4] as u8)->0 == g
            &&& hex_digit(s[5] as u8)->0 * 16 + hex_digit(s[6] as u8)->0 == b
        }),
{
    let s = color_string(Color::RGB(r, g, b));
    assert(r / 16 < 16 && r % 16 < 16 && g / 16 < 16 && g % 16 < 16 && b / 16 < 16 && b % 16 < 16);
    assert(r == (r / 16) * 16 + r % 16 && g == (g / 16) * 16 + g % 16 && b == (b / 16) * 16 + b % 16);
}

/// Writing a colour with `to_string` and reading the text back with
/// `from_string` gives the same colour.
#[verifier::rlimit(40)]
pub proof fn lemma_color_string_roundtrip(c: Color)
    ensures
        !color_parse_splits_char(vstd::utf8::encode_utf8(color_string(c))),
        color_from_bytes(vstd::utf8::encode_utf8(color_string(c))) == c,
{
    let s = color_string(c);
    assert(vstd::utf8::is_ascii_chars(s)) by {
        if let Color::RGB(r, g, b) = c {
            assert(r / 16 < 16 && r % 16 < 16 && g / 16 < 16 && g % 16 < 16 && b / 16 < 16 && b % 16 < 16);
        }
    }
    vstd::utf8::is_ascii_chars_encode_utf8(s);
    let bytes = vstd::utf8::encode_utf8(s);
    assert(bytes =~= s.map_values(|ch: char| ch as u8));
    match c {
        Color::RGB(r, g, b) => {
            assert(bytes.len() == 7);
            assert(bytes[0] == 35);
            assert(parse_hex_byte(bytes[1], bytes[2]) == Some(r));
            assert(parse_hex_byte(bytes[3], bytes[4]) == Some(g));
            assert(parse_hex_byte(bytes[5], bytes[6]) == Some(b));
            vstd::utf8::encode_utf8_valid_utf8(s);
            vstd::utf8::is_char_boundary_iff_not_is_continuation_byte(bytes, 3);
            vstd::utf8::is_char_boundary_iff_not_is_continuation_byte(bytes, 5);
        },
        _ => {
            assert(bytes =~= name_bytes(c));
            assert(bytes.len() != 7 || bytes[0] != 35);
        },
    }
}

fn hex_digit_exec(b: u8) -> (r: Option<u8>)
    ensures
        r == hex_digit(b),
{
    if 48 <= b && b <= 57 {
        Some(b - 48)
    } else if 65 <= b && b <= 70 {
        Some(b - 55)
    } else if 97 <= b && b <= 102 {
        Some(b - 87)
    } else {
        None
    }
}

fn parse_hex_byte_exec(hi: u8, lo: u8) -> (r: Option<u8>)
    ensures
        r == parse_hex_byte(hi, lo),
{
    if hi == 43 {
        return hex_digit_exec(lo);
    }
    match (hex_digit_exec(hi), hex_digit_exec(lo)) {
        (Some(h), Some(l)) => Some(h * 16 + l),
        _ => None,
    }
}

fn name_chars(c: Color) -> (v: Vec<char>)
    ensures
        v@ == color_name(c),
{
    match c {
        Color::Black => vec!['b', 'l', 'a', 'c', 'k'],
        Color::DarkBlue => vec!['d', 'a', 'r', 'k', '_', 'b', 'l', 'u', 'e'],
        Color::DarkGreen => vec!['d', 'a', 'r', 'k', '_', 'g', 'r', 'e', 'e', 'n'],
        Color::DarkAqua => vec!['d', 'a', 'r', 'k', '_', 'a', 'q', 'u', 'a'],
        Color::DarkRed => vec!['d', 'a', 'r', 'k', '_', 'r', 'e', 'd'],
        Color::DarkPurple => vec!['d', 'a', 'r', 'k', '_', 'p', 'u', 'r', 'p', 'l', 'e'],
        Color::Gold => vec!['g', 'o', 'l', 'd'],
        Color::Gray => vec!['g', 'r', 'a', 'y'],
        Color::DarkGray => vec!['d', 'a', 'r', 'k', '_', 'g', 'r', 'a', 'y'],
        Color::Blue => vec!['b', 'l', 'u', 'e'],
        Color::Green => vec!['g', 'r', 'e', 'e', 'n'],
        Color::Aqua => vec!['a', 'q', 'u', 'a'],
        Color::Red => vec!['r', 'e', 'd'],
        Color::LightPurple => vec!['l', 'i', 'g', 'h', 't', '_', 'p', 'u', 'r', 'p', 'l', 'e'],
        Color::Yellow => vec!['y', 'e', 'l', 'l', 'o', 'w'],
        Color::White => vec!['w', 'h', 'i', 't', 'e'],
        Color::RGB(_, _, _) => vec![],
    }
}

fn name_matches(b: &[u8], c: Color) -> (r: bool)
    ensures
        r == (b@ == name_bytes(c)),
{
    let chars = name_chars(c);
    let mut bytes: Vec<u8> = Vec::with_capacity(chars.len());
    let mut i: usize = 0;
    while i < chars.len()
        invariant
            chars@ == color_name(c),
            i <= chars@.len(),
            bytes@ =~= color_name(c).subrange(0, i as int).map_values(|ch: char| ch as u8),
        decreases chars@.len() - i,
    {
        bytes.push(chars[i] as u8);
        proof {
            assert(bytes@ =~= color_name(c).subrange(0, i + 1).map_values(|ch: char| ch as u8));
        }
        i = i + 1;
    }
    proof {
        assert(color_name(c).subrange(0, chars@.len() as int) =~= color_name(c));
    }
    bytes_eq(b, bytes.as_slice())
}

/// The upper-case hexadecimal digit of a value below 16.
pub fn hex_upper_digit(v: u8) -> (c: char)
    requires
        v < 16,
    ensures
        c == hex_upper(v),
{
    if v < 10 { (v + 48) as char } else { (v + 55) as char }
}

impl Color {
    /// Parses a colour name: one of the protocol names, or `#RRGGBB`;
    /// anything else is white.
    pub fn from_string(val: &str) -> (c: Color)
        requires
            !color_parse_splits_char(val.spec_bytes()),
        ensures
            c == color_from_bytes(val.spec_bytes()),
    {
        let b = val.as_bytes();
        if name_matches(b, Color::Black) { return Color::Black; }
        if name_matches(b, Color::DarkBlue) { return Color::DarkBlue; }
        if name_matches(b, Color::DarkGreen) { return Color::DarkGreen; }
        if name_matches(b, Color::DarkAqua) { return Color::DarkAqua; }
        if name_matches(b, Color::DarkRed) { return Color::DarkRed; }
        if name_matches(b, Color::DarkPurple) { return Color::DarkPurple; }
        if name_matches(b, Color::Gold) { return Color::Gold; }
        if name_matches(b, Color::Gray) { return Color::Gray; }
        if name_matches(b, Color::DarkGray) { return Color::DarkGray; }
        if name_matches(b, Color::Blue) { return Color::Blue; }
        if name_matches(b, Color::Green) { return Color::Green; }
        if name_matches(b, Color::Aqua) { return Color::Aqua; }
        if name_matches(b, Color::Red) { return Color::Red; }
        if name_matches(b, Color::LightPurple) { return Color::LightPurple; }
        if name_matches(b, Color::Yellow) { return Color::Yellow; }
        if b.len() == 7 && b[0] == 35 {
            let r = match parse_hex_byte_exec(b[1], b[2]) {
                Some(r) => r,
                None => return Color::White,
            };
            let g = match parse_hex_byte_exec(b[3], b[4]) {
                Some(g) => g,
                None => return Color::White,
            };
            let bl = match parse_hex_byte_exec(b[5], b[6]) {
                Some(bl) => bl,
                None => return Color::White,
            };
            return Color::RGB(r, g, bl);
        }
        Color::White
    }

    /// The protocol name of the colour, or `#RRGGBB` (upper-case hex) for RGB colours.
    pub fn to_string(&self) -> (s: String)
        ensures
            s@ == color_string(*self),
    {
        match *self {
            Color::RGB(r, g, b) => {
                let v = vec!['#', hex_upper_digit(r / 16), hex_upper_digit(r % 16), hex_upper_digit(g / 16),
                    hex_upper_digit(g % 16), hex_upper_digit(b / 16), hex_upper_digit(b % 16)];
                string_from_chars(v.as_slice())
            },
            _ => {
                let v = name_chars(*self);
                string_from_chars(v.as_slice())
            },
        }
    }

    /// The RGB components of the colour.
    pub fn to_rgb(&self) -> (rgb: (u8, u8, u8))
        ensures
            rgb == color_rgb(*self),
    {
        match *self {
            Color::Black => (0, 0, 0),
            Color::DarkBlue => (0, 0, 170),
            Color::DarkGreen => (0, 170, 0),
            Color::DarkAqua => (0, 170, 170),
            Color::DarkRed => (170, 0, 0),
            Color::DarkPurple => (170, 0, 170),
            Color::Gold => (255, 170, 0),
            Color::Gray => (170, 170, 170),
            Color::DarkGray => (85, 85, 85),
            Color::Blue => (85, 85, 255),
            Color::Green => (85, 255, 85),
            Color::Aqua => (85, 255, 255),
            Color::Red => (255, 85, 85),
            Color::LightPurple => (255, 85, 255),
            Color::Yellow => (255, 255, 85),
            Color::White => (255, 255, 255),
            Color::RGB(r, g, b) => (r, g, b),
        }
    }
}


/// A chat component, as a mathematical value.
pub enum ComponentView {
    Text(TextView),
}

/// A text component, as a mathematical value.
pub struct TextView {
    pub text: Seq<char>,
    pub modifier: ModifierView,
}

/// A modifier, as a mathematical value.
pub struct ModifierView {
    pub extra: Option<Seq<ComponentView>>,
    pub bold: Option<bool>,
    pub italic: Option<bool>,
    pub underlined: Option<bool>,
    pub strikethrough: Option<bool>,
    pub obfuscated: Option<bool>,
    pub color: Option<Color>,
}

/// The mathematical value of a component.
pub open spec fn component_view(c: Component) -> ComponentView
    decreases c,
{
    match c {
        Component::Text(t) => ComponentView::Text(text_view(t)),
    }
}

/// The mathematical value of a text component.
pub open spec fn text_view(t: TextComponent) -> TextView
    decreases t,
{
    TextView { text: t.text@, modifier: modifier_view(t.modifier) }
}

/// The mathematical value of a modifier.
pub open spec fn modifier_view(m: Modifier) -> ModifierView
    decreases m,
{
    ModifierView {
        extra: match m.extra {
            Some(v) => {
                proof {
                    broadcast use vstd::std_specs::vec::group_vec_axioms;
                    assert(decreases_to!(v => v@));
                }
                Some(components_view(v@))
            },
            None => None,
        },
        bold: m.bold,
        italic: m.italic,
        underlined: m.underlined,
        strikethrough: m.strikethrough,
        obfuscated: m.obfuscated,
        color: m.color,
    }
}

/// The mathematical values of a list of components.
pub open spec fn components_view(s: Seq<Component>) -> Seq<ComponentView>
    decreases s,
{
    if s.len() == 0 {
        Seq::empty()
    } else {
        components_view(s.drop_last()).push(component_view(s.last()))
    }
}


/// The sign that starts a legacy formatting code (`§` and one character).
pub const LEGACY_CHAR: char = '§';

/// A modifier view with no styling and nothing following.
pub open spec fn plain_view() -> ModifierView {
    ModifierView {
        extra: None,
        bold: None,
        italic: None,
        underlined: None,
        strikethrough: None,
        obfuscated: None,
        color: None,
    }
}

/// `m` with its following components replaced.
pub open spec fn with_extra(m: ModifierView, extra: Option<Seq<ComponentView>>) -> ModifierView {
    ModifierView {
        extra: extra,
        bold: m.bold,
        italic: m.italic,
        underlined: m.underlined,
        strikethrough: m.strikethrough,
        obfuscated: m.obfuscated,
        color: m.color,
    }
}

/// ASCII upper-case letters to lower case; other characters unchanged.
pub open spec fn ascii_lower(c: char) -> char {
    if 'A' <= c <= 'Z' { ((c as u32) + 32) as char } else { c }
}

/// The colour that a (lower-case) legacy code selects, if it is a colour code.
pub open spec fn code_color(code: char) -> Option<Color> {
    if code == '0' { Some(Color::Black) }
    else if code == '1' { Some(Color::DarkBlue) }
    else if code == '2' { Some(Color::DarkGreen) }
    else if code == '3' { Some(Color::DarkAqua) }
    else if code == '4' { Some(Color::DarkRed) }
    else if code == '5' { Some(Color::DarkPurple) }
    else if code == '6' { Some(Color::Gold) }
    else if code == '7' { Some(Color::Gray) }
    else if code == '8' { Some(Color::DarkGray) }
    else if code == '9' { Some(Color::Blue) }
    else if code == 'a' { Some(Color::Green) }
    else if code == 'b' { Some(Color::Aqua) }
    else if code == 'c' { Some(Color::Red) }
    else if code == 'd' { Some(Color::LightPurple) }
    else if code == 'e' { Some(Color::Yellow) }
    else if code == 'f' { Some(Color::White) }
    else { None }
}

/// Whether `c` (either case) is a legacy code: a colour, `k` obfuscated,
/// `l` bold, `m` strikethrough, `n` underlined, `o` italic or `r` reset.
pub open spec fn valid_code(c: char) -> bool {
    let l = ascii_lower(c);
    code_color(l) is Some || ('k' <= l <= 'o') || l == 'r'
}

/// The style after the (lower-case) code `code`, starting from `m`: a colour
/// code starts over from no styling with that colour; the others add their
/// style to `m` (and `r` keeps `m`).
pub open spec fn code_view(code: char, m: ModifierView) -> ModifierView {
    match code_color(code) {
        Some(col) => ModifierView {
            extra: None,
            bold: None,
            italic: None,
            underlined: None,
            strikethrough: None,
            obfuscated: None,
            color: Some(col),
        },
        None => ModifierView {
            extra: m.extra,
            bold: if code == 'l' { Some(true) } else { m.bold },
            italic: if code == 'o' { Some(true) } else { m.italic },
            underlined: if code == 'n' { Some(true) } else { m.underlined },
            strikethrough: if code == 'm' { Some(true) } else { m.strikethrough },
            obfuscated: if code == 'k' { Some(true) } else { m.obfuscated },
            color: m.color,
        },
    }
}

/// The legacy colour codes are Minecraft's: `0` to `9` and `a` to `f` select
/// the sixteen named colours in order, and no other character selects a
/// colour. A colour code starts over from no styling with that colour; `k`,
/// `l`, `m`, `n` and `o` add obfuscated, bold, strikethrough, underlined and
/// italic to the current style, keeping the rest; `r` keeps the style.
pub proof fn lemma_legacy_codes(m: ModifierView)
    ensures
        code_color('0') == Some(Color::Black),
        code_color('1') == Some(Color::DarkBlue),
        code_color('2') == Some(Color::DarkGreen),
        code_color('3') == Some(Color::DarkAqua),
        code_color('4') == Some(Color::DarkRed),
        code_color('5') == Some(Color::DarkPurple),
        code_color('6') == Some(Color::Gold),
        code_color('7') == Some(Color::Gray),
        code_color('8') == Some(Color::DarkGray),
        code_color('9') == Some(Color::Blue),
        code_color('a') == Some(Color::Green),
        code_color('b') == Some(Color::Aqua),
        code_color('c') == Some(Color::Red),
        code_color('d') == Some(Color::LightPurple),
        code_color('e') == Some(Color::Yellow),
        code_color('f') == Some(Color::White),
        forall|c: char| #[trigger] code_color(c) is Some ==> ('0' <= c <= '9' || 'a' <= c <= 'f'),
        forall|c: char| #[trigger] code_color(c) matches Some(col) ==> code_view(c, m) == (ModifierView {
            extra: None, bold: None, italic: None, underlined: None, strikethrough: None, obfuscated: None,
            color: Some(col),
        }),
        code_view('k', m) == (ModifierView { obfuscated: Some(true), ..m }),
        code_view('l', m) == (ModifierView { bold: Some(true), ..m }),
        code_view('m', m) == (ModifierView { strikethrough: Some(true), ..m }),
        code_view('n', m) == (ModifierView { underlined: Some(true), ..m }),
        code_view('o', m) == (ModifierView { italic: Some(true), ..m }),
        code_view('r', m) == m,
        forall|c: char| 'A' <= c <= 'Z' ==> #[trigger] ascii_lower(c) as u32 == c as u32 + 32,
        forall|c: char| !('A' <= c <= 'Z') ==> #[trigger] ascii_lower(c) == c,
{
}

/// The legacy code for colour number `n` (0 to 15): a decimal digit, then `a` to `f`.
pub open spec fn code_char(n: int) -> char {
    if n < 10 { (('0' as int) + n) as char } else { (('a' as int) + n - 10) as char }
}

/// Minecraft's colour of number `n`: bit 0 gives blue, bit 1 green and bit 2
/// red 170 each, bit 3 adds 85 to all three; number 6 is gold instead.
pub open spec fn legacy_rgb(n: int) -> (int, int, int) {
    if n == 6 {
        (255, 170, 0)
    } else {
        let hi = 85 * (n / 8);
        (170 * ((n / 4) % 2) + hi, 170 * ((n / 2) % 2) + hi, 170 * (n % 2) + hi)
    }
}

/// The colour that legacy code number `n` selects has Minecraft's RGB value
/// for that number.
pub proof fn lemma_legacy_code_rgb(n: int)
    requires
        0 <= n < 16,
    ensures
        code_color(code_char(n)) is Some,
        ({
            let (r, g, b) = color_rgb(code_color(code_char(n))->0);
            (r as int, g as int, b as int) == legacy_rgb(n)
        }),
{
    if n == 0 {} else if n == 1 {} else if n == 2 {} else if n == 3 {} else if n == 4 {} else if n == 5 {}
    else if n == 6 {} else if n == 7 {} else if n == 8 {} else if n == 9 {} else if n == 10 {}
    else if n == 11 {} else if n == 12 {} else if n == 13 {} else if n == 14 {} else {}
}

/// The text `s[from..to]` with style `m`.
pub open spec fn text_part(s: Seq<char>, from: int, to: int, m: ModifierView) -> ComponentView {
    ComponentView::Text(TextView { text: s.subrange(from, to), modifier: m })
}

/// The pieces of `s` from position `k` on, where the current piece started
/// at `last` with style `m`: each `§` followed by a code ends the current
/// piece (even an empty one) and starts one with the code's style; a `§` at
/// the very end is kept as text; a final empty piece is dropped.
pub open spec fn legacy_scan(s: Seq<char>, k: int, last: int, m: ModifierView) -> Seq<ComponentView>
    decreases s.len() - k,
{
    if k >= s.len() || (s[k] == LEGACY_CHAR && k + 1 >= s.len()) {
        if last < s.len() {
            seq![text_part(s, last, s.len() as int, m)]
        } else {
            Seq::empty()
        }
    } else if s[k] == LEGACY_CHAR {
        seq![text_part(s, last, k, m)] + legacy_scan(s, k + 2, k + 2, code_view(ascii_lower(s[k + 1]), m))
    } else {
        legacy_scan(s, k + 1, last, m)
    }
}

/// The pieces that a text with legacy codes splits into.
pub open spec fn legacy_parts(s: Seq<char>) -> Seq<ComponentView> {
    legacy_scan(s, 0, 0, plain_view())
}

/// Every `§` met from position `k` on (other than one at the very end) is
/// followed by a legacy code.
pub open spec fn codes_valid(s: Seq<char>, k: int) -> bool
    decreases s.len() - k,
{
    if k >= s.len() {
        true
    } else if s[k] == LEGACY_CHAR {
        k + 1 >= s.len() || (valid_code(s[k + 1]) && codes_valid(s, k + 2))
    } else {
        codes_valid(s, k + 1)
    }
}

/// A component after legacy codes were turned into styled pieces: the
/// following components are converted first; then, if the text holds a
/// `§`, the text becomes empty and its pieces come before them.
pub open spec fn convert_view(c: ComponentView) -> ComponentView
    decreases c,
{
    match c {
        ComponentView::Text(t) => {
            let ex = match t.modifier.extra {
                Some(s) => Some(convert_views(s)),
                None => None,
            };
            if t.text.contains(LEGACY_CHAR) {
                let parts = legacy_parts(t.text);
                ComponentView::Text(TextView {
                    text: Seq::empty(),
                    modifier: with_extra(t.modifier, Some(match ex {
                        Some(e) => parts + e,
                        None => parts,
                    })),
                })
            } else {
                ComponentView::Text(TextView { text: t.text, modifier: with_extra(t.modifier, ex) })
            }
        },
    }
}

/// `convert_view` of each component of a list.
pub open spec fn convert_views(s: Seq<ComponentView>) -> Seq<ComponentView>
    decreases s,
{
    if s.len() == 0 {
        Seq::empty()
    } else {
        convert_views(s.drop_last()).push(convert_view(s.last()))
    }
}

/// Every legacy code in the component and in all that follows it is valid.
pub open spec fn convertible(c: ComponentView) -> bool
    decreases c,
{
    match c {
        ComponentView::Text(t) => codes_valid(t.text, 0) && match t.modifier.extra {
            Some(s) => all_convertible(s),
            None => true,
        },
    }
}

/// Every component of a list is `convertible`.
pub open spec fn all_convertible(s: Seq<ComponentView>) -> bool
    decreases s,
{
    if s.len() == 0 {
        true
    } else {
        all_convertible(s.drop_last()) && convertible(s.last())
    }
}


proof fn lemma_components_view_push(s: Seq<Component>, x: Component)
    ensures
        components_view(s.push(x)) == components_view(s).push(component_view(x)),
{
    assert(s.push(x).drop_last() =~= s);
}

proof fn lemma_components_view_concat(a: Seq<Component>, b: Seq<Component>)
    ensures
        components_view(a + b) == components_view(a) + components_view(b),
    decreases b.len(),
{
    if b.len() == 0 {
        assert(a + b =~= a);
        assert(components_view(a) + components_view(b) =~= components_view(a));
    } else {
        lemma_components_view_concat(a, b.drop_last());
        assert((a + b).drop_last() =~= a + b.drop_last());
        assert(components_view(a) + components_view(b) =~= (components_view(a) + components_view(b.drop_last())).push(component_view(b.last())));
    }
}

proof fn lemma_convert_views_push(s: Seq<ComponentView>, x: ComponentView)
    ensures
        convert_views(s.push(x)) == convert_views(s).push(convert_view(x)),
{
    assert(s.push(x).drop_last() =~= s);
}

proof fn lemma_all_convertible(s: Seq<ComponentView>)
    ensures
        all_convertible(s) == forall|i: int| 0 <= i < s.len() ==> convertible(#[trigger] s[i]),
    decreases s.len(),
{
    if s.len() > 0 {
        lemma_all_convertible(s.drop_last());
        if forall|i: int| 0 <= i < s.len() ==> convertible(#[trigger] s[i]) {
            assert forall|i: int| 0 <= i < s.drop_last().len() implies convertible(#[trigger] s.drop_last()[i]) by {
                assert(s.drop_last()[i] == s[i]);
            }
        }
        if all_convertible(s) {
            assert forall|i: int| 0 <= i < s.len() implies convertible(#[trigger] s[i]) by {
                if i < s.len() - 1 {
                    assert(s.drop_last()[i] == s[i]);
                }
            }
        }
    }
}

/// The view of a list of components is the list of their views.
pub proof fn lemma_components_view_index_pub(s: Seq<Component>)
    ensures
        components_view(s).len() == s.len(),
        forall|i: int| 0 <= i < s.len() ==> #[trigger] components_view(s)[i] == component_view(s[i]),
{
    lemma_components_view_index(s);
}

proof fn lemma_components_view_index(s: Seq<Component>)
    ensures
        components_view(s).len() == s.len(),
        forall|i: int| 0 <= i < s.len() ==> #[trigger] components_view(s)[i] == component_view(s[i]),
    decreases s.len(),
{
    if s.len() > 0 {
        lemma_components_view_index(s.drop_last());
    }
}

fn ascii_lower_exec(c: char) -> (r: char)
    ensures
        r == ascii_lower(c),
{
    if 'A' <= c && c <= 'Z' {
        ((c as u32) + 32) as u8 as char
    } else {
        c
    }
}

/// The style after a (lower-case, valid) legacy code, as `code_view` says.
fn code_modifier(code: char, m: &Modifier) -> (r: Modifier)
    requires
        m.extra is None,
    ensures
        r.extra is None,
        modifier_view(r) == code_view(code, modifier_view(*m)),
{
    let col = if code == '0' { Some(Color::Black) }
        else if code == '1' { Some(Color::DarkBlue) }
        else if code == '2' { Some(Color::DarkGreen) }
        else if code == '3' { Some(Color::DarkAqua) }
        else if code == '4' { Some(Color::DarkRed) }
        else if code == '5' { Some(Color::DarkPurple) }
        else if code == '6' { Some(Color::Gold) }
        else if code == '7' { Some(Color::Gray) }
        else if code == '8' { Some(Color::DarkGray) }
        else if code == '9' { Some(Color::Blue) }
        else if code == 'a' { Some(Color::Green) }
        else if code == 'b' { Some(Color::Aqua) }
        else if code == 'c' { Some(Color::Red) }
        else if code == 'd' { Some(Color::LightPurple) }
        else if code == 'e' { Some(Color::Yellow) }
        else if code == 'f' { Some(Color::White) }
        else { None };
    match col {
        Some(c) => {
            let mut r = Modifier::default();
            r.color = Some(c);
            r
        },
        None => Modifier {
            extra: None,
            bold: if code == 'l' { Some(true) } else { m.bold },
            italic: if code == 'o' { Some(true) } else { m.italic },
            underlined: if code == 'n' { Some(true) } else { m.underlined },
            strikethrough: if code == 'm' { Some(true) } else { m.strikethrough },
            obfuscated: if code == 'k' { Some(true) } else { m.obfuscated },
            color: m.color,
        },
    }
}

/// The characters `v[from..to]` as a string.
fn chars_string(v: &Vec<char>, from: usize, to: usize) -> (s: String)
    requires
        from <= to <= v@.len(),
    ensures
        s@ == v@.subrange(from as int, to as int),
{
    let mut out: Vec<char> = Vec::new();
    let mut k = from;
    while k < to
        invariant
            from <= k <= to <= v@.len(),
            out@ == v@.subrange(from as int, k as int),
        decreases to - k,
    {
        out.push(v[k]);
        proof {
            assert(v@.subrange(from as int, k + 1) =~= v@.subrange(from as int, k as int).push(v@[k as int]));
        }
        k = k + 1;
    }
    string_from_chars(out.as_slice())
}

/// Splits a text at its legacy codes into styled pieces.
fn legacy_split(chars: &Vec<char>) -> (parts: Vec<Component>)
    requires
        codes_valid(chars@, 0),
    ensures
        components_view(parts@) == legacy_parts(chars@),
{
    let n = chars.len();
    let mut parts: Vec<Component> = Vec::new();
    let mut current = Modifier::default();
    let mut last: usize = 0;
    let mut k: usize = 0;
    proof {
        assert(modifier_view(current) == plain_view());
        assert(components_view(parts@) + legacy_scan(chars@, 0, 0, modifier_view(current)) =~= legacy_parts(chars@));
    }
    while k < n
        invariant
            n == chars@.len(),
            last <= k <= n,
            current.extra is None,
            codes_valid(chars@, k as int),
            components_view(parts@) + legacy_scan(chars@, k as int, last as int, modifier_view(current))
                == legacy_parts(chars@),
        decreases n - k,
    {
        if chars[k] == '§' {
            if k + 1 >= n {
                k = n;
            } else {
                let code = ascii_lower_exec(chars[k + 1]);
                let next = code_modifier(code, &current);
                let text = chars_string(chars, last, k);
                let ghost before = parts@;
                let ghost mv = modifier_view(current);
                let piece = Component::Text(TextComponent { text, modifier: current });
                proof {
                    assert(component_view(piece) == text_part(chars@, last as int, k as int, mv));
                    lemma_components_view_push(before, piece);
                }
                parts.push(piece);
                current = next;
                proof {
                    assert(components_view(parts@) + legacy_scan(chars@, k + 2, k + 2, modifier_view(current))
                        =~= components_view(before) + (seq![text_part(chars@, last as int, k as int, mv)]
                            + legacy_scan(chars@, k + 2, k + 2, code_view(ascii_lower(chars@[k + 1]), mv))));
                }
                last = k + 2;
                k = k + 2;
            }
        } else {
            k = k + 1;
        }
    }
    if last < n {
        let text = chars_string(chars, last, n);
        let ghost before = parts@;
        let ghost mv = modifier_view(current);
        let piece = Component::Text(TextComponent { text, modifier: current });
        proof {
            assert(component_view(piece) == text_part(chars@, last as int, n as int, mv));
            lemma_components_view_push(before, piece);
        }
        parts.push(piece);
        proof {
            assert(components_view(parts@) =~= components_view(before) + legacy_scan(chars@, n as int, last as int, mv));
        }
    } else {
        proof {
            assert(components_view(parts@) =~= components_view(parts@) + legacy_scan(chars@, k as int, last as int, modifier_view(current)));
        }
    }
    parts
}

/// Whether the text holds a `§`.
fn has_legacy(chars: &Vec<char>) -> (b: bool)
    ensures
        b == chars@.contains(LEGACY_CHAR),
{
    let mut k: usize = 0;
    while k < chars.len()
        invariant
            k <= chars@.len(),
            forall|j: int| 0 <= j < k ==> chars@[j] != LEGACY_CHAR,
        decreases chars@.len() - k,
    {
        if chars[k] == '§' {
            return true;
        }
        k = k + 1;
    }
    false
}

fn convert_component(c: Component) -> (r: Component)
    requires
        convertible(component_view(c)),
    ensures
        component_view(r) == convert_view(component_view(c)),
    decreases c,
{
    match c {
        Component::Text(t) => {
            let TextComponent { text, modifier } = t;
            let Modifier { extra, bold, italic, underlined, strikethrough, obfuscated, color } = modifier;
            let ghost old_extra = extra;
            let ex = match extra {
                Some(v) => {
                    proof {
                        broadcast use vstd::std_specs::vec::group_vec_axioms;
                        assert(decreases_to!(c => v));
                    }
                    Some(convert_components(v))
                },
                None => None,
            };
            let chars = crate::text::chars_of(text.as_str());
            if has_legacy(&chars) {
                let mut parts = legacy_split(&chars);
                let extra2 = match ex {
                    Some(mut e) => {
                        let ghost p0 = parts@;
                        let ghost e0 = e@;
                        parts.append(&mut e);
                        proof {
                            lemma_components_view_concat(p0, e0);
                        }
                        Some(parts)
                    },
                    None => Some(parts),
                };
                Component::Text(TextComponent {
                    text: String::new(),
                    modifier: Modifier { extra: extra2, bold, italic, underlined, strikethrough, obfuscated, color },
                })
            } else {
                Component::Text(TextComponent {
                    text,
                    modifier: Modifier { extra: ex, bold, italic, underlined, strikethrough, obfuscated, color },
                })
            }
        },
    }
}

fn convert_components(v: Vec<Component>) -> (r: Vec<Component>)
    requires
        all_convertible(components_view(v@)),
    ensures
        components_view(r@) == convert_views(components_view(v@)),
    decreases v,
{
    let ghost orig = v;
    let n = v.len();
    let mut rest = v;
    let mut out: Vec<Component> = Vec::new();
    let mut i: usize = 0;
    proof {
        lemma_components_view_index(orig@);
        lemma_all_convertible(components_view(orig@));
        assert(orig@.subrange(0, 0) =~= Seq::<Component>::empty());
        assert(rest@ =~= orig@.subrange(0, n as int));
    }
    while i < n
        invariant
            n == orig@.len(),
            orig == v,
            i <= n,
            rest@ == orig@.subrange(i as int, n as int),
            components_view(orig@).len() == n,
            forall|j: int| 0 <= j < n ==> #[trigger] components_view(orig@)[j] == component_view(orig@[j]),
            forall|j: int| 0 <= j < n ==> convertible(#[trigger] components_view(orig@)[j]),
            components_view(out@) == convert_views(components_view(orig@.subrange(0, i as int))),
        decreases n - i,
    {
        let e = rest.remove(0);
        proof {
            assert(e == orig@[i as int]);
            assert(convertible(components_view(orig@)[i as int]));
            broadcast use vstd::std_specs::vec::group_vec_axioms;
            assert(decreases_to!(orig => orig[i as int]));
            assert(decreases_to!(orig => e));
            assert(rest@ =~= orig@.subrange(i + 1, n as int));
        }
        let c = convert_component(e);
        let ghost before = out@;
        out.push(c);
        proof {
            lemma_components_view_push(before, c);
            let pre = orig@.subrange(0, i as int);
            let pre2 = orig@.subrange(0, i + 1);
            assert(pre2 =~= pre.push(orig@[i as int]));
            lemma_components_view_push(pre, orig@[i as int]);
            lemma_convert_views_push(components_view(pre), component_view(orig@[i as int]));
        }
        i = i + 1;
    }
    proof {
        assert(orig@.subrange(0, n as int) =~= orig@);
    }
    out
}

/// Turns the legacy `§` formatting codes of a component (and of everything
/// that follows it) into styled pieces, as `convert_view` says.
pub fn convert_legacy(c: &mut Component)
    requires
        convertible(component_view(*old(c))),
    ensures
        component_view(*final(c)) == convert_view(component_view(*old(c))),
{
    let mut taken = Component::Text(TextComponent::new(""));
    std::mem::swap(c, &mut taken);
    *c = convert_component(taken);
}


/// A boolean member of a JSON object (`None` where it is missing or not a boolean).
pub open spec fn json_flag(v: JsonView, key: Seq<char>) -> Option<bool> {
    match json_get(v, key) {
        Some(x) => json_bool(x),
        None => None,
    }
}

/// The colour that a JSON object's `color` member names, if it is a string.
pub open spec fn json_color(v: JsonView) -> Option<Color> {
    match json_get(v, "color"@) {
        Some(x) => match json_str(x) {
            Some(s) => Some(color_from_bytes(vstd::utf8::encode_utf8(s))),
            None => None,
        },
        None => None,
    }
}

/// The components that a JSON object's `extra` member lists, if it is an array.
pub open spec fn json_extra(v: JsonView) -> Option<Seq<ComponentView>>
    decreases v, 0int,
{
    match v {
        JsonView::Object(m) => match member_index(m, "extra"@) {
            Some(i) => {
                proof {
                    crate::json::lemma_first_member(m, "extra"@, 0);
                    assert(decreases_to!(m => m[i]));
                }
                match m[i].1 {
                    JsonView::Array(a) => Some(components_from_json(a)),
                    _ => None,
                }
            },
            None => None,
        },
        _ => None,
    }
}

/// The style that a JSON chat component gives.
pub open spec fn modifier_from_json(v: JsonView) -> ModifierView
    decreases v, 1int,
{
    ModifierView {
        extra: json_extra(v),
        bold: json_flag(v, "bold"@),
        italic: json_flag(v, "italic"@),
        underlined: json_flag(v, "underlined"@),
        strikethrough: json_flag(v, "strikethrough"@),
        obfuscated: json_flag(v, "obfuscated"@),
        color: json_color(v),
    }
}

/// The component that a JSON chat component denotes: a string is plain
/// text, an object with `text` is that text (empty where it is not a
/// string); anything else shows as red `UNHANDLED`.
pub open spec fn component_from_json(v: JsonView) -> ComponentView
    decreases v, 2int,
{
    let m = modifier_from_json(v);
    match json_str(v) {
        Some(s) => ComponentView::Text(TextView { text: s, modifier: m }),
        None => match json_get(v, "text"@) {
            Some(t) => ComponentView::Text(TextView {
                text: match json_str(t) {
                    Some(s) => s,
                    None => Seq::empty(),
                },
                modifier: m,
            }),
            None => ComponentView::Text(TextView {
                text: "UNHANDLED"@,
                modifier: ModifierView {
                    extra: m.extra,
                    bold: m.bold,
                    italic: m.italic,
                    underlined: m.underlined,
                    strikethrough: m.strikethrough,
                    obfuscated: m.obfuscated,
                    color: Some(Color::RGB(255, 0, 0)),
                },
            }),
        },
    }
}

/// `component_from_json` of each element of a JSON array.
pub open spec fn components_from_json(s: Seq<JsonView>) -> Seq<ComponentView>
    decreases s, 3int,
{
    if s.len() == 0 {
        Seq::empty()
    } else {
        components_from_json(s.drop_last()).push(component_from_json(s.last()))
    }
}


/// Every `color` string of the component, and of the components it lists,
/// can be read by `Color::from_string`.
pub open spec fn json_colors_ok(v: JsonView) -> bool
    decreases v, 1int,
{
    &&& match json_get(v, "color"@) {
        Some(x) => match json_str(x) {
            Some(s) => !color_parse_splits_char(vstd::utf8::encode_utf8(s)),
            None => true,
        },
        None => true,
    }
    &&& json_extra_ok(v)
}

/// The components that a JSON object's `extra` array lists are all `json_colors_ok`.
pub open spec fn json_extra_ok(v: JsonView) -> bool
    decreases v, 0int,
{
    match v {
        JsonView::Object(m) => match member_index(m, "extra"@) {
            Some(i) => {
                proof {
                    crate::json::lemma_first_member(m, "extra"@, 0);
                    assert(decreases_to!(m => m[i]));
                }
                match m[i].1 {
                    JsonView::Array(a) => all_colors_ok(a),
                    _ => true,
                }
            },
            None => true,
        },
        _ => true,
    }
}

/// Every element of a JSON array is `json_colors_ok`.
pub open spec fn all_colors_ok(s: Seq<JsonView>) -> bool
    decreases s, 2int,
{
    if s.len() == 0 {
        true
    } else {
        all_colors_ok(s.drop_last()) && json_colors_ok(s.last())
    }
}

proof fn lemma_all_colors_ok(s: Seq<JsonView>)
    ensures
        all_colors_ok(s) == forall|i: int| 0 <= i < s.len() ==> json_colors_ok(#[trigger] s[i]),
    decreases s.len(),
{
    if s.len() > 0 {
        lemma_all_colors_ok(s.drop_last());
        if forall|i: int| 0 <= i < s.len() ==> json_colors_ok(#[trigger] s[i]) {
            assert forall|i: int| 0 <= i < s.drop_last().len() implies json_colors_ok(#[trigger] s.drop_last()[i]) by {
                assert(s.drop_last()[i] == s[i]);
            }
        }
        if all_colors_ok(s) {
            assert forall|i: int| 0 <= i < s.len() implies json_colors_ok(#[trigger] s[i]) by {
                if i < s.len() - 1 {
                    assert(s.drop_last()[i] == s[i]);
                }
            }
        }
    }
}

proof fn lemma_components_from_json_push(s: Seq<JsonView>, x: JsonView)
    ensures
        components_from_json(s.push(x)) == components_from_json(s).push(component_from_json(x)),
{
    assert(s.push(x).drop_last() =~= s);
}

fn json_flag_exec(v: &JsonValue, key: &str) -> (r: Option<bool>)
    ensures
        r == json_flag(json_view(*v), key@),
{
    match v.get(key) {
        Some(x) => x.as_bool(),
        None => None,
    }
}

impl Modifier {
    /// The style that a JSON chat component gives (see `modifier_from_json`).
    pub fn from_value(v: &JsonValue) -> (m: Modifier)
        requires
            json_colors_ok(json_view(*v)),
        ensures
            modifier_view(m) == modifier_from_json(json_view(*v)),
        decreases v, 1int,
    {
        let color = match v.get("color") {
            Some(x) => match x.as_str() {
                Some(s) => Some(Color::from_string(s)),
                None => None,
            },
            None => None,
        };
        proof {
            assert(color == json_color(json_view(*v)));
        }
        let extra = match v {
            JsonValue::Object(m) => {
                let ghost mv = json_members_view(m@);
                proof {
                    lemma_json_members_index(m@);
                    crate::json::lemma_first_member(mv, "extra"@, 0);
                    assert(json_view(*v) == JsonView::Object(mv));
                }
                match member_position(m, "extra") {
                    Some(i) => {
                        proof {
                            assert(mv[i as int].1 == json_view(m@[i as int].1));
                        }
                        match &m[i].1 {
                            JsonValue::Array(a) => {
                                proof {
                                    broadcast use vstd::std_specs::vec::group_vec_axioms;
                                    assert(decreases_to!(m => m@));
                                    assert(decreases_to!(m@ => m@[i as int]));
                                    assert(decreases_to!(v => a));
                                    assert(json_view(m@[i as int].1) == JsonView::Array(json_views(a@)));
                                }
                                let r = components_from_values(a);
                                Some(r)
                            },
                            _ => {
                                proof {
                                    assert(!(json_view(m@[i as int].1) is Array));
                                }
                                None
                            },
                        }
                    },
                    None => None,
                }
            },
            _ => None,
        };
        proof {
            assert(extra matches Some(r) ==> json_extra(json_view(*v)) == Some(components_view(r@)));
            assert(extra is None ==> json_extra(json_view(*v)) is None);
        }
        Modifier {
            extra,
            bold: json_flag_exec(v, "bold"),
            italic: json_flag_exec(v, "italic"),
            underlined: json_flag_exec(v, "underlined"),
            strikethrough: json_flag_exec(v, "strikethrough"),
            obfuscated: json_flag_exec(v, "obfuscated"),
            color,
        }
    }
}

impl TextComponent {
    /// The `text` member of a JSON object (empty where it is not a string),
    /// with the given style. The member must be there.
    pub fn from_value(v: &JsonValue, modifier: Modifier) -> (t: TextComponent)
        requires
            json_get(json_view(*v), "text"@) is Some,
        ensures
            t.text@ == match json_str(json_get(json_view(*v), "text"@)->0) {
                Some(s) => s,
                None => Seq::empty(),
            },
            t.modifier == modifier,
    {
        let text = match v.get("text") {
            Some(x) => match x.as_str() {
                Some(s) => s.to_owned(),
                None => String::new(),
            },
            None => String::new(),
        };
        TextComponent { text, modifier }
    }
}

impl Component {
    /// The component that a JSON chat component denotes (see `component_from_json`).
    pub fn from_value(v: &JsonValue) -> (c: Component)
        requires
            json_colors_ok(json_view(*v)),
        ensures
            component_view(c) == component_from_json(json_view(*v)),
        decreases v, 2int,
    {
        let mut modifier = Modifier::from_value(v);
        match v.as_str() {
            Some(s) => Component::Text(TextComponent { text: s.to_owned(), modifier }),
            None => {
                if v.get("text").is_some() {
                    Component::Text(TextComponent::from_value(v, modifier))
                } else {
                    modifier.color = Some(Color::RGB(255, 0, 0));
                    let text = "UNHANDLED".to_owned();
                    Component::Text(TextComponent { text, modifier })
                }
            },
        }
    }
}

fn components_from_values(a: &Vec<JsonValue>) -> (r: Vec<Component>)
    requires
        all_colors_ok(json_views(a@)),
    ensures
        components_view(r@) == components_from_json(json_views(a@)),
    decreases a, 3int,
{
    proof {
        lemma_json_views_index(a@);
        lemma_all_colors_ok(json_views(a@));
    }
    let mut out: Vec<Component> = Vec::new();
    let mut i: usize = 0;
    while i < a.len()
        invariant
            i <= a@.len(),
            json_views(a@).len() == a@.len(),
            forall|j: int| 0 <= j < a@.len() ==> #[trigger] json_views(a@)[j] == json_view(a@[j]),
            forall|j: int| 0 <= j < a@.len() ==> json_colors_ok(#[trigger] json_views(a@)[j]),
            components_view(out@) == components_from_json(json_views(a@.subrange(0, i as int))),
        decreases a@.len() - i,
    {
        proof {
            assert(json_colors_ok(json_views(a@)[i as int]));
            broadcast use vstd::std_specs::vec::group_vec_axioms;
            assert(decreases_to!(a => a@[i as int]));
        }
        let c = Component::from_value(&a[i]);
        let ghost before = out@;
        out.push(c);
        proof {
            lemma_components_view_push(before, c);
            let pre = a@.subrange(0, i as int);
            assert(a@.subrange(0, i + 1) =~= pre.push(a@[i as int]));
            assert(json_views(pre.push(a@[i as int])) == json_views(pre).push(json_view(a@[i as int]))) by {
                assert(pre.push(a@[i as int]).drop_last() =~= pre);
            }
            lemma_components_from_json_push(json_views(pre), json_view(a@[i as int]));
        }
        i = i + 1;
    }
    proof {
        assert(a@.subrange(0, a@.len() as int) =~= a@);
    }
    out
}


/// The plain text of a component: its text, then the plain text of the
/// components that follow it.
pub open spec fn plain_text(c: ComponentView) -> Seq<char>
    decreases c,
{
    match c {
        ComponentView::Text(t) => t.text + match t.modifier.extra {
            Some(s) => plain_texts(s),
            None => Seq::empty(),
        },
    }
}

/// The plain texts of a list of components, one after the other.
pub open spec fn plain_texts(s: Seq<ComponentView>) -> Seq<char>
    decreases s,
{
    if s.len() == 0 {
        Seq::empty()
    } else {
        plain_texts(s.drop_last()) + plain_text(s.last())
    }
}

/// `s` with each `§` and the character after it taken out (a `§` at the
/// very end stays).
pub open spec fn strip_codes(s: Seq<char>) -> Seq<char>
    decreases s.len(),
{
    if s.len() == 0 {
        Seq::empty()
    } else if s[0] == LEGACY_CHAR && s.len() >= 2 {
        strip_codes(s.subrange(2, s.len() as int))
    } else {
        seq![s[0]] + strip_codes(s.subrange(1, s.len() as int))
    }
}

/// Every `§` of `s` has a character after it (read left to right, each `§`
/// taking the next character as its code).
pub open spec fn codes_closed(s: Seq<char>) -> bool
    decreases s.len(),
{
    if s.len() == 0 {
        true
    } else if s[0] == LEGACY_CHAR {
        s.len() >= 2 && codes_closed(s.subrange(2, s.len() as int))
    } else {
        codes_closed(s.subrange(1, s.len() as int))
    }
}

/// Every text in the component and in all that follows it is `codes_closed`.
pub open spec fn all_codes_closed(c: ComponentView) -> bool
    decreases c,
{
    match c {
        ComponentView::Text(t) => codes_closed(t.text) && match t.modifier.extra {
            Some(s) => each_codes_closed(s),
            None => true,
        },
    }
}

/// Every component of a list is `all_codes_closed`.
pub open spec fn each_codes_closed(s: Seq<ComponentView>) -> bool
    decreases s,
{
    if s.len() == 0 {
        true
    } else {
        each_codes_closed(s.drop_last()) && all_codes_closed(s.last())
    }
}

/// The plain text of a component with `strip_codes` applied to each of its
/// texts.
spec fn stripped_text(c: ComponentView) -> Seq<char>
    decreases c,
{
    match c {
        ComponentView::Text(t) => strip_codes(t.text) + match t.modifier.extra {
            Some(s) => stripped_texts(s),
            None => Seq::empty(),
        },
    }
}

spec fn stripped_texts(s: Seq<ComponentView>) -> Seq<char>
    decreases s,
{
    if s.len() == 0 {
        Seq::empty()
    } else {
        stripped_texts(s.drop_last()) + stripped_text(s.last())
    }
}

proof fn lemma_plain_texts_concat(a: Seq<ComponentView>, b: Seq<ComponentView>)
    ensures
        plain_texts(a + b) == plain_texts(a) + plain_texts(b),
    decreases b.len(),
{
    if b.len() == 0 {
        assert(a + b =~= a);
        assert(plain_texts(a) + plain_texts(b) =~= plain_texts(a));
    } else {
        lemma_plain_texts_concat(a, b.drop_last());
        assert((a + b).drop_last() =~= a + b.drop_last());
        assert((a + b).last() == b.last());
        assert(plain_texts(a) + plain_texts(b) =~= plain_texts(a) + plain_texts(b.drop_last()) + plain_text(b.last()));
    }
}

proof fn lemma_plain_texts_one(p: ComponentView)
    ensures
        plain_texts(seq![p]) == plain_text(p),
{
    assert(seq![p].drop_last() =~= Seq::<ComponentView>::empty());
    assert(seq![p].last() == p);
    assert(plain_texts(Seq::<ComponentView>::empty()) == Seq::<char>::empty());
    assert(Seq::<char>::empty() + plain_text(p) =~= plain_text(p));
}

proof fn lemma_strip_no_code(s: Seq<char>)
    requires
        !s.contains(LEGACY_CHAR),
    ensures
        strip_codes(s) == s,
    decreases s.len(),
{
    if s.len() > 0 {
        let rest = s.subrange(1, s.len() as int);
        assert(s[0] != LEGACY_CHAR);
        assert(!rest.contains(LEGACY_CHAR)) by {
            if rest.contains(LEGACY_CHAR) {
                let i = choose|i: int| 0 <= i < rest.len() && rest[i] == LEGACY_CHAR;
                assert(s[i + 1] == LEGACY_CHAR);
            }
        }
        lemma_strip_no_code(rest);
        assert(seq![s[0]] + rest =~= s);
    }
}

proof fn lemma_strip_concat(a: Seq<char>, b: Seq<char>)
    requires
        codes_closed(a),
    ensures
        strip_codes(a + b) == strip_codes(a) + strip_codes(b),
        codes_closed(b) ==> codes_closed(a + b),
    decreases a.len(),
{
    let n = a.len() as int;
    if n == 0 {
        assert(a + b =~= b);
        assert(strip_codes(a) + strip_codes(b) =~= strip_codes(b));
    } else if a[0] == LEGACY_CHAR {
        let rest = a.subrange(2, n);
        lemma_strip_concat(rest, b);
        assert((a + b).subrange(2, (a + b).len() as int) =~= rest + b);
        assert((a + b)[0] == LEGACY_CHAR);
    } else {
        let rest = a.subrange(1, n);
        lemma_strip_concat(rest, b);
        assert((a + b).subrange(1, (a + b).len() as int) =~= rest + b);
        assert((a + b)[0] == a[0]);
        assert(seq![a[0]] + strip_codes(rest + b) =~= seq![a[0]] + strip_codes(rest) + strip_codes(b));
    }
}

proof fn lemma_scan_plain(s: Seq<char>, k: int, last: int, m: ModifierView)
    requires
        0 <= last <= k <= s.len(),
        m.extra is None,
    ensures
        plain_texts(legacy_scan(s, k, last, m)) == s.subrange(last, k) + strip_codes(s.subrange(k, s.len() as int)),
    decreases s.len() - k,
{
    let n = s.len() as int;
    if k >= n || (s[k] == LEGACY_CHAR && k + 1 >= n) {
        if last < n {
            lemma_plain_texts_one(text_part(s, last, n, m));
            assert(plain_text(text_part(s, last, n, m)) =~= s.subrange(last, n));
        } else {
            assert(plain_texts(Seq::<ComponentView>::empty()) == Seq::<char>::empty());
        }
        if k >= n {
            assert(s.subrange(k, n) =~= Seq::<char>::empty());
            assert(s.subrange(last, k) + Seq::<char>::empty() =~= s.subrange(last, n));
        } else {
            let tail = s.subrange(k, n);
            assert(tail =~= seq![LEGACY_CHAR]);
            assert(tail.subrange(1, 1) =~= Seq::<char>::empty());
            assert(strip_codes(Seq::<char>::empty()) == Seq::<char>::empty());
            assert(tail.len() == 1 && tail[0] == LEGACY_CHAR);
            assert(seq![LEGACY_CHAR] + Seq::<char>::empty() =~= seq![LEGACY_CHAR]);
            assert(strip_codes(tail) =~= seq![LEGACY_CHAR]);
            assert(s.subrange(last, k) + seq![LEGACY_CHAR] =~= s.subrange(last, n));
        }
    } else if s[k] == LEGACY_CHAR {
        let m2 = code_view(ascii_lower(s[k + 1]), m);
        lemma_scan_plain(s, k + 2, k + 2, m2);
        let p = text_part(s, last, k, m);
        let rest = legacy_scan(s, k + 2, k + 2, m2);
        lemma_plain_texts_concat(seq![p], rest);
        lemma_plain_texts_one(p);
        assert(plain_text(p) =~= s.subrange(last, k));
        let tail = s.subrange(k, n);
        assert(tail.subrange(2, tail.len() as int) =~= s.subrange(k + 2, n));
        assert(s.subrange(k + 2, k + 2) =~= Seq::<char>::empty());
        assert(Seq::<char>::empty() + strip_codes(s.subrange(k + 2, n)) =~= strip_codes(s.subrange(k + 2, n)));
    } else {
        lemma_scan_plain(s, k + 1, last, m);
        let tail = s.subrange(k, n);
        assert(tail[0] == s[k]);
        assert(tail.subrange(1, tail.len() as int) =~= s.subrange(k + 1, n));
        assert(s.subrange(last, k + 1) + strip_codes(s.subrange(k + 1, n))
            =~= s.subrange(last, k) + (seq![s[k]] + strip_codes(s.subrange(k + 1, n))));
    }
}

proof fn lemma_convert_plain(c: ComponentView)
    ensures
        plain_text(convert_view(c)) == stripped_text(c),
    decreases c,
{
    match c {
        ComponentView::Text(t) => {
            let tail = match t.modifier.extra {
                Some(s) => {
                    lemma_converts_plain(s);
                    stripped_texts(s)
                },
                None => Seq::<char>::empty(),
            };
            if t.text.contains(LEGACY_CHAR) {
                let parts = legacy_parts(t.text);
                lemma_scan_plain(t.text, 0, 0, plain_view());
                assert(t.text.subrange(0, t.text.len() as int) =~= t.text);
                assert(t.text.subrange(0, 0) + strip_codes(t.text) =~= strip_codes(t.text));
                match t.modifier.extra {
                    Some(s) => {
                        lemma_plain_texts_concat(parts, convert_views(s));
                    },
                    None => {},
                }
                assert(Seq::<char>::empty() + plain_texts(match t.modifier.extra {
                    Some(s) => parts + convert_views(s),
                    None => parts,
                }) =~= strip_codes(t.text) + tail);
            } else {
                lemma_strip_no_code(t.text);
            }
        },
    }
}

proof fn lemma_converts_plain(s: Seq<ComponentView>)
    ensures
        plain_texts(convert_views(s)) == stripped_texts(s),
    decreases s,
{
    if s.len() > 0 {
        lemma_converts_plain(s.drop_last());
        lemma_convert_plain(s.last());
        let cs = convert_views(s.drop_last());
        assert(cs.push(convert_view(s.last())).drop_last() =~= cs);
    }
}

proof fn lemma_strip_plain(c: ComponentView)
    requires
        all_codes_closed(c),
    ensures
        strip_codes(plain_text(c)) == stripped_text(c),
        codes_closed(plain_text(c)),
    decreases c,
{
    match c {
        ComponentView::Text(t) => {
            match t.modifier.extra {
                Some(s) => {
                    lemma_strip_plains(s);
                    lemma_strip_concat(t.text, plain_texts(s));
                },
                None => {
                    lemma_strip_concat(t.text, Seq::<char>::empty());
                    assert(t.text + Seq::<char>::empty() =~= t.text);
                },
            }
        },
    }
}

proof fn lemma_strip_plains(s: Seq<ComponentView>)
    requires
        each_codes_closed(s),
    ensures
        strip_codes(plain_texts(s)) == stripped_texts(s),
        codes_closed(plain_texts(s)),
    decreases s,
{
    if s.len() == 0 {
        assert(strip_codes(Seq::<char>::empty()) == Seq::<char>::empty());
    } else {
        lemma_strip_plains(s.drop_last());
        lemma_strip_plain(s.last());
        lemma_strip_concat(plain_texts(s.drop_last()), plain_text(s.last()));
    }
}

/// Converting legacy codes keeps the visible text: the plain text after
/// `convert_legacy` is the plain text before it with each `§` and its code
/// character taken out.
pub proof fn lemma_convert_keeps_text(c: ComponentView)
    requires
        all_codes_closed(c),
    ensures
        plain_text(convert_view(c)) == strip_codes(plain_text(c)),
{
    lemma_convert_plain(c);
    lemma_strip_plain(c);
}

/// A piece that conversion leaves as it is: its text holds no `§` and
/// nothing follows it.
spec fn settled(x: ComponentView) -> bool {
    match x {
        ComponentView::Text(t) => !t.text.contains(LEGACY_CHAR) && t.modifier.extra is None,
    }
}

proof fn lemma_no_code_valid(s: Seq<char>, k: int)
    requires
        !s.contains(LEGACY_CHAR),
        0 <= k,
    ensures
        codes_valid(s, k),
    decreases s.len() - k,
{
    if k < s.len() {
        assert(s[k] != LEGACY_CHAR);
        lemma_no_code_valid(s, k + 1);
    }
}

proof fn lemma_settled_fixed(x: ComponentView)
    requires
        settled(x),
    ensures
        convert_view(x) == x,
        convertible(x),
{
    match x {
        ComponentView::Text(t) => {
            lemma_no_code_valid(t.text, 0);
            assert(with_extra(t.modifier, None) == t.modifier);
        },
    }
}

proof fn lemma_scan_settled(s: Seq<char>, k: int, last: int, m: ModifierView)
    requires
        0 <= last <= k <= s.len(),
        m.extra is None,
        forall|i: int| last <= i < k ==> s[i] != LEGACY_CHAR,
        codes_closed(s.subrange(k, s.len() as int)),
    ensures
        forall|i: int| 0 <= i < legacy_scan(s, k, last, m).len() ==> settled(#[trigger] legacy_scan(s, k, last, m)[i]),
    decreases s.len() - k,
{
    let n = s.len() as int;
    let r = legacy_scan(s, k, last, m);
    if k >= n || (s[k] == LEGACY_CHAR && k + 1 >= n) {
        if k < n {
            let tail = s.subrange(k, n);
            assert(tail[0] == LEGACY_CHAR && tail.len() == 1);
            assert(false);
        }
        if last < n {
            let text = s.subrange(last, n);
            assert(!text.contains(LEGACY_CHAR)) by {
                if text.contains(LEGACY_CHAR) {
                    let j = choose|j: int| 0 <= j < text.len() && text[j] == LEGACY_CHAR;
                    assert(s[last + j] == LEGACY_CHAR);
                }
            }
            assert(r == seq![text_part(s, last, n, m)]);
            assert forall|i: int| 0 <= i < r.len() implies settled(#[trigger] r[i]) by {
                assert(r[i] == text_part(s, last, n, m));
            }
        } else {
            assert(r.len() == 0);
        }
    } else if s[k] == LEGACY_CHAR {
        let tail = s.subrange(k, n);
        assert(tail[0] == LEGACY_CHAR);
        assert(tail.subrange(2, tail.len() as int) =~= s.subrange(k + 2, n));
        let m2 = code_view(ascii_lower(s[k + 1]), m);
        lemma_scan_settled(s, k + 2, k + 2, m2);
        let p = text_part(s, last, k, m);
        let rest = legacy_scan(s, k + 2, k + 2, m2);
        let text = s.subrange(last, k);
        assert(!text.contains(LEGACY_CHAR)) by {
            if text.contains(LEGACY_CHAR) {
                let j = choose|j: int| 0 <= j < text.len() && text[j] == LEGACY_CHAR;
                assert(s[last + j] == LEGACY_CHAR);
            }
        }
        assert(r == seq![p] + rest);
        assert forall|i: int| 0 <= i < r.len() implies settled(#[trigger] r[i]) by {
            if i == 0 {
                assert(r[i] == p);
            } else {
                assert(r[i] == rest[i - 1]);
            }
        }
    } else {
        let tail = s.subrange(k, n);
        assert(tail[0] == s[k]);
        assert(tail.subrange(1, tail.len() as int) =~= s.subrange(k + 1, n));
        lemma_scan_settled(s, k + 1, last, m);
        assert(r == legacy_scan(s, k + 1, last, m));
    }
}

proof fn lemma_convert_views_settled(s: Seq<ComponentView>)
    requires
        forall|i: int| 0 <= i < s.len() ==> settled(#[trigger] s[i]),
    ensures
        convert_views(s) == s,
        all_convertible(s),
    decreases s.len(),
{
    if s.len() > 0 {
        let d = s.drop_last();
        assert forall|i: int| 0 <= i < d.len() implies settled(#[trigger] d[i]) by {
            assert(d[i] == s[i]);
        }
        lemma_convert_views_settled(d);
        assert(settled(s[s.len() - 1]));
        lemma_settled_fixed(s.last());
        assert(d.push(s.last()) =~= s);
    }
}

proof fn lemma_convert_views_concat(a: Seq<ComponentView>, b: Seq<ComponentView>)
    ensures
        convert_views(a + b) == convert_views(a) + convert_views(b),
    decreases b.len(),
{
    if b.len() == 0 {
        assert(a + b =~= a);
        assert(convert_views(a) + convert_views(b) =~= convert_views(a));
    } else {
        lemma_convert_views_concat(a, b.drop_last());
        assert((a + b).drop_last() =~= a + b.drop_last());
        assert((a + b).last() == b.last());
        assert(convert_views(a) + convert_views(b) =~= (convert_views(a) + convert_views(b.drop_last())).push(convert_view(b.last())));
    }
}

proof fn lemma_all_convertible_concat(a: Seq<ComponentView>, b: Seq<ComponentView>)
    ensures
        all_convertible(a + b) == (all_convertible(a) && all_convertible(b)),
    decreases b.len(),
{
    if b.len() == 0 {
        assert(a + b =~= a);
    } else {
        lemma_all_convertible_concat(a, b.drop_last());
        assert((a + b).drop_last() =~= a + b.drop_last());
        assert((a + b).last() == b.last());
    }
}

proof fn lemma_convert_idem(c: ComponentView)
    requires
        all_codes_closed(c),
    ensures
        convert_view(convert_view(c)) == convert_view(c),
        convertible(convert_view(c)),
    decreases c,
{
    match c {
        ComponentView::Text(t) => {
            match t.modifier.extra {
                Some(s) => {
                    lemma_convert_idems(s);
                },
                None => {},
            }
            if t.text.contains(LEGACY_CHAR) {
                let parts = legacy_parts(t.text);
                assert(t.text.subrange(0, t.text.len() as int) =~= t.text);
                lemma_scan_settled(t.text, 0, 0, plain_view());
                lemma_convert_views_settled(parts);
                match t.modifier.extra {
                    Some(s) => {
                        lemma_convert_views_concat(parts, convert_views(s));
                        lemma_all_convertible_concat(parts, convert_views(s));
                    },
                    None => {},
                }
                assert(!Seq::<char>::empty().contains(LEGACY_CHAR));
            } else {
                lemma_no_code_valid(t.text, 0);
            }
        },
    }
}

proof fn lemma_convert_idems(s: Seq<ComponentView>)
    requires
        each_codes_closed(s),
    ensures
        convert_views(convert_views(s)) == convert_views(s),
        all_convertible(convert_views(s)),
    decreases s,
{
    if s.len() > 0 {
        lemma_convert_idems(s.drop_last());
        lemma_convert_idem(s.last());
        let cs = convert_views(s.drop_last());
        let y = convert_view(s.last());
        lemma_convert_views_push(cs, y);
        assert(cs.push(y).drop_last() =~= cs);
        assert(cs.push(y).last() == y);
    }
}

/// Converting twice is converting once: after `convert_legacy` no text holds
/// a `§`, so a second call is allowed and leaves the component as it is.
pub proof fn lemma_convert_idempotent(c: ComponentView)
    requires
        all_codes_closed(c),
    ensures
        convertible(convert_view(c)),
        convert_view(convert_view(c)) == convert_view(c),
{
    lemma_convert_idem(c);
}

fn push_plain_text(c: &Component, out: &mut Vec<char>)
    ensures
        final(out)@ == old(out)@ + plain_text(component_view(*c)),
    decreases c, 1int,
{
    match c {
        Component::Text(t) => {
            let chars = crate::text::chars_of(t.text.as_str());
            let mut k: usize = 0;
            while k < chars.len()
                invariant
                    k <= chars@.len(),
                    out@ == old(out)@ + chars@.subrange(0, k as int),
                decreases chars@.len() - k,
            {
                out.push(chars[k]);
                proof {
                    assert(chars@.subrange(0, k + 1) =~= chars@.subrange(0, k as int).push(chars@[k as int]));
                }
                k = k + 1;
            }
            proof {
                assert(chars@.subrange(0, chars@.len() as int) =~= t.text@);
            }
            match &t.modifier.extra {
                Some(v) => {
                    proof {
                        broadcast use vstd::std_specs::vec::group_vec_axioms;
                        assert(decreases_to!(c => v));
                    }
                    push_plain_texts(v, out);
                },
                None => {},
            }
            proof {
                assert(out@ =~= old(out)@ + plain_text(component_view(*c)));
            }
        },
    }
}

fn push_plain_texts(v: &Vec<Component>, out: &mut Vec<char>)
    ensures
        final(out)@ == old(out)@ + plain_texts(components_view(v@)),
    decreases v, 0int,
{
    proof {
        lemma_components_view_index(v@);
    }
    let mut i: usize = 0;
    while i < v.len()
        invariant
            i <= v@.len(),
            components_view(v@).len() == v@.len(),
            forall|j: int| 0 <= j < v@.len() ==> #[trigger] components_view(v@)[j] == component_view(v@[j]),
            out@ == old(out)@ + plain_texts(components_view(v@).subrange(0, i as int)),
        decreases v@.len() - i,
    {
        proof {
            broadcast use vstd::std_specs::vec::group_vec_axioms;
            assert(decreases_to!(v => v@[i as int]));
        }
        let ghost before = out@;
        push_plain_text(&v[i], out);
        proof {
            let cv = components_view(v@);
            assert(cv.subrange(0, i + 1).drop_last() =~= cv.subrange(0, i as int));
            assert(out@ =~= old(out)@ + plain_texts(cv.subrange(0, i + 1)));
        }
        i = i + 1;
    }
    proof {
        assert(components_view(v@).subrange(0, v@.len() as int) =~= components_view(v@));
    }
}

impl Component {
    /// The plain text of the component, without styling (see `plain_text`).
    pub fn to_string(&self) -> (s: String)
        ensures
            s@ == plain_text(component_view(*self)),
    {
        let mut out: Vec<char> = Vec::new();
        push_plain_text(self, &mut out);
        proof {
            assert(out@ =~= plain_text(component_view(*self)));
        }
        string_from_chars(out.as_slice())
    }
}

impl Default for Component {
    fn default() -> (c: Self)
        ensures
            c matches Component::Text(t) && t.text@.len() == 0 && t.modifier.is_plain(),
    {
        Component::Text(TextComponent { text: String::new(), modifier: Modifier::default() })
    }
}

/// Whether `Color::from_string` can read every `color` string of a JSON chat
/// component (see `json_colors_ok`).
pub fn json_colors_readable(v: &JsonValue) -> (b: bool)
    ensures
        b == json_colors_ok(json_view(*v)),
    decreases v, 1int,
{
    let here = match v.get("color") {
        Some(x) => match x.as_str() {
            Some(s) => {
                let b = s.as_bytes();
                !(b.len() == 7 && b[0] == 35 && !(s.is_char_boundary(3) && s.is_char_boundary(5)))
            },
            None => true,
        },
        None => true,
    };
    if !here {
        return false;
    }
    let rest = match v {
        JsonValue::Object(m) => {
            let ghost mv = json_members_view(m@);
            proof {
                lemma_json_members_index(m@);
                crate::json::lemma_first_member(mv, "extra"@, 0);
                assert(json_view(*v) == JsonView::Object(mv));
            }
            match member_position(m, "extra") {
                Some(i) => {
                    proof {
                        assert(mv[i as int].1 == json_view(m@[i as int].1));
                    }
                    match &m[i].1 {
                        JsonValue::Array(a) => {
                            proof {
                                broadcast use vstd::std_specs::vec::group_vec_axioms;
                                assert(decreases_to!(m => m@));
                                assert(decreases_to!(m@ => m@[i as int]));
                                assert(decreases_to!(v => a));
                                assert(json_view(m@[i as int].1) == JsonView::Array(json_views(a@)));
                            }
                            all_json_colors_readable(a)
                        },
                        _ => true,
                    }
                },
                None => true,
            }
        },
        _ => true,
    };
    rest
}

fn all_json_colors_readable(a: &Vec<JsonValue>) -> (b: bool)
    ensures
        b == all_colors_ok(json_views(a@)),
    decreases a, 2int,
{
    proof {
        lemma_json_views_index(a@);
        lemma_all_colors_ok(json_views(a@));
    }
    let mut i: usize = 0;
    while i < a.len()
        invariant
            i <= a@.len(),
            json_views(a@).len() == a@.len(),
            forall|j: int| 0 <= j < a@.len() ==> #[trigger] json_views(a@)[j] == json_view(a@[j]),
            forall|j: int| 0 <= j < i ==> json_colors_ok(#[trigger] json_views(a@)[j]),
        decreases a@.len() - i,
    {
        proof {
            broadcast use vstd::std_specs::vec::group_vec_axioms;
            assert(decreases_to!(a => a@[i as int]));
        }
        if !json_colors_readable(&a[i]) {
            proof {
                assert(!json_colors_ok(json_views(a@)[i as int]));
                lemma_all_colors_ok(json_views(a@));
            }
            return false;
        }
        i = i + 1;
    }
    true
}

} // verus!
