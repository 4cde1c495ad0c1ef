//! Value types for drawing commands and the textual color encoding.
use vstd::prelude::*;
use vstd::string::StrSliceExecFns;
use vstd::string::StringExecFns;

verus! {

/// An opaque 24-bit color.
#[derive(Clone, Copy, Debug, PartialEq, Eq, Structural)]
pub struct Color {
    pub red: u8,
    pub green: u8,
    pub blue: u8,
}

/// The input names no color: neither one of the five names nor `#rrggbb`.
#[derive(Clone, Copy, Debug, PartialEq, Eq, Structural)]
pub struct InvalidColor;

pub open spec fn is_hex_digit(c: char) -> bool {
    ('0' <= c && c <= '9') || ('a' <= c && c <= 'f') || ('A' <= c && c <= 'F')
}

pub open spec fn is_lower_hex_digit(c: char) -> bool {
    ('0' <= c && c <= '9') || ('a' <= c && c <= 'f')
}

/// Value of a hexadecimal digit, either case.
pub open spec fn hex_value(c: char) -> int {
    if '0' <= c && c <= '9' {
        c as int - '0' as int
    } else if 'a' <= c && c <= 'f' {
        c as int - 'a' as int + 10
    } else {
        c as int - 'A' as int + 10
    }
}

/// Lowercase digit for a value below 16.
pub open spec fn hex_char(n: int) -> char {
    if n < 10 {
        (n + '0' as int) as char
    } else {
        (n - 10 + 'a' as int) as char
    }
}

/// `#` followed by exactly six hexadecimal digits.
pub open spec fn is_hex_color(s: Seq<char>) -> bool {
    &&& s.len() == 7
    &&& s[0] == '#'
    &&& forall|i: int| 1 <= i < 7 ==> is_hex_digit(#[trigger] s[i])
}

pub open spec fn pair_value(hi: char, lo: char) -> u8 {
    (hex_value(hi) * 16 + hex_value(lo)) as u8
}

/// The color a named constant stands for.
pub open spec fn named_color(s: Seq<char>) -> Option<Color> {
    if s == seq!['r', 'e', 'd'] {
        Some(Color { red: 255, green: 0, blue: 0 })
    } else if s == seq!['g', 'r', 'e', 'e', 'n'] {
        Some(Color { red: 0, green: 255, blue: 0 })
    } else if s == seq!['y', 'e', 'l', 'l', 'o', 'w'] {
        Some(Color { red: 255, green: 255, blue: 0 })
    } else if s == seq!['b', 'l', 'u', 'e'] {
        Some(Color { red: 0, green: 0, blue: 255 })
    } else if s == seq!['b', 'l', 'a', 'c', 'k'] {
        Some(Color { red: 0, green: 0, blue: 0 })
    } else {
        None
    }
}

/// The color a string denotes, if any: a name first, then `#rrggbb`.
pub open spec fn color_of(s: Seq<char>) -> Option<Color> {
    if named_color(s) is Some {
        named_color(s)
    } else if is_hex_color(s) {
        Some(
            Color {
                red: pair_value(s[1], s[2]),
                green: pair_value(s[3], s[4]),
                blue: pair_value(s[5], s[6]),
            },
        )
    } else {
        None
    }
}

/// The canonical text of a color: `#rrggbb` in lowercase.
pub open spec fn color_text(c: Color) -> Seq<char> {
    seq![
        '#',
        hex_char(c.red as int / 16),
        hex_char(c.red as int % 16),
        hex_char(c.green as int / 16),
        hex_char(c.green as int % 16),
        hex_char(c.blue as int / 16),
        hex_char(c.blue as int % 16),
    ]
}

/// Relies on regex::Regex::new and Regex::captures: the anchored pattern
/// matches exactly `#` and six hexadecimal digits, and its three groups are
/// the three digit pairs.
#[verifier::external_body]
fn hex_color_groups(s: &str) -> (r: Option<(String, String, String)>)
    ensures
        r is Some <==> is_hex_color(s@),
        r matches Some(g) ==> {
            &&& g.0@ == s@.subrange(1, 3)
            &&& g.1@ == s@.subrange(3, 5)
            &&& g.2@ == s@.subrange(5, 7)
        },
{
    let re = regex::Regex::new(r"^#([0-9a-fA-F]{2})([0-9a-fA-F]{2})([0-9a-fA-F]{2})$").unwrap();
    re.captures(s).map(|c| (c[1].to_string(), c[2].to_string(), c[3].to_string()))
}

fn digit_value(c: char) -> (r: u8)
    requires
        is_hex_digit(c),
    ensures
        r as int == hex_value(c),
        r < 16,
{
    if '0' <= c && c <= '9' {
        (c as u32 - '0' as u32) as u8
    } else if 'a' <= c && c <= 'f' {
        (c as u32 - 'a' as u32 + 10) as u8
    } else {
        (c as u32 - 'A' as u32 + 10) as u8
    }
}

fn pair_of(p: &String) -> (r: u8)
    requires
        p@.len() == 2,
        is_hex_digit(p@[0]),
        is_hex_digit(p@[1]),
    ensures
        r == pair_value(p@[0], p@[1]),
{
    let hi = digit_value(p.as_str().get_char(0));
    let lo = digit_value(p.as_str().get_char(1));
    hi * 16 + lo
}

pub(crate) fn same_text(s: &str, w: &str) -> (r: bool)
    ensures
        r == (s@ == w@),
{
    let n = s.unicode_len();
    if n != w.unicode_len() {
        return false;
    }
    let mut i: usize = 0;
    while i < n
        invariant
            n == s@.len(),
            n == w@.len(),
            i <= n,
            forall|j: int| 0 <= j < i ==> s@[j] == w@[j],
        decreases n - i,
    {
        if s.get_char(i) != w.get_char(i) {
            return false;
        }
        i = i + 1;
    }
    assert(s@ =~= w@);
    true
}

fn push_hex_digit(out: &mut String, n: u8)
    requires
        n < 16,
    ensures
        final(out)@ == old(out)@.push(hex_char(n as int)),
{
    let digits: &str = "0123456789abcdef";
    proof {
        reveal_strlit("0123456789abcdef");
    }
    let d = digits.substring_char(n as usize, n as usize + 1);
    assert(d@ =~= seq![hex_char(n as int)]);
    out.append(d);
}

impl Color {
    /// Parses one of `red`, `green`, `yellow`, `blue`, `black`, or `#rrggbb`
    /// with hexadecimal digits of either case.
    pub fn try_from(s: &str) -> (r: Result<Color, InvalidColor>)
        ensures
            match color_of(s@) {
                Some(c) => r == Ok::<Color, InvalidColor>(c),
                None => r == Err::<Color, InvalidColor>(InvalidColor),
            },
            named_color(s@) is None && !is_hex_color(s@) ==> r is Err,
    {
        if same_text(s, "red") {
            proof {
                reveal_strlit("red");
                assert(s@ =~= seq!['r', 'e', 'd']);
            }
            return Ok(Color { red: 255, green: 0, blue: 0 });
        }
        if same_text(s, "green") {
            proof {
                reveal_strlit("green");
                assert(s@ =~= seq!['g', 'r', 'e', 'e', 'n']);
            }
            return Ok(Color { red: 0, green: 255, blue: 0 });
        }
        if same_text(s, "yellow") {
            proof {
                reveal_strlit("yellow");
                assert(s@ =~= seq!['y', 'e', 'l', 'l', 'o', 'w']);
            }
            return Ok(Color { red: 255, green: 255, blue: 0 });
        }
        if same_text(s, "blue") {
            proof {
                reveal_strlit("blue");
                assert(s@ =~= seq!['b', 'l', 'u', 'e']);
            }
            return Ok(Color { red: 0, green: 0, blue: 255 });
        }
        if same_text(s, "black") {
            proof {
                reveal_strlit("black");
                assert(s@ =~= seq!['b', 'l', 'a', 'c', 'k']);
            }
            return Ok(Color { red: 0, green: 0, blue: 0 });
        }
        proof {
            reveal_strlit("red");
            reveal_strlit("green");
            reveal_strlit("yellow");
            reveal_strlit("blue");
            reveal_strlit("black");
            assert("red"@ =~= seq!['r', 'e', 'd']);
            assert("green"@ =~= seq!['g', 'r', 'e', 'e', 'n']);
            assert("yellow"@ =~= seq!['y', 'e', 'l', 'l', 'o', 'w']);
            assert("blue"@ =~= seq!['b', 'l', 'u', 'e']);
            assert("black"@ =~= seq!['b', 'l', 'a', 'c', 'k']);
            assert(named_color(s@) is None);
        }
        match hex_color_groups(s) {
            Some(groups) => {
                assert(is_hex_digit(s@[1]) && is_hex_digit(s@[2]));
                assert(is_hex_digit(s@[3]) && is_hex_digit(s@[4]));
                assert(is_hex_digit(s@[5]) && is_hex_digit(s@[6]));
                let red = pair_of(&groups.0);
                let green = pair_of(&groups.1);
                let blue = pair_of(&groups.2);
                Ok(Color { red, green, blue })
            },
            None => Err(InvalidColor),
        }
    }

    /// The canonical text `#rrggbb`, lowercase.
    pub fn to_string(&self) -> (r: String)
        ensures
            r@ == color_text(*self),
    {
        let mut out = String::new();
        out.append("#");
        proof { reveal_strlit("#"); }
        push_hex_digit(&mut out, self.red / 16);
        push_hex_digit(&mut out, self.red % 16);
        push_hex_digit(&mut out, self.green / 16);
        push_hex_digit(&mut out, self.green % 16);
        push_hex_digit(&mut out, self.blue / 16);
        push_hex_digit(&mut out, self.blue % 16);
        assert(out@ =~= color_text(*self));
        out
    }
}

/// Parsing a valid color string and writing it back gives seven characters,
/// `#` and six lowercase hexadecimal digits, which parse to the same channels.
pub proof fn lemma_color_text_round_trip(s: Seq<char>)
    requires
        color_of(s) is Some,
    ensures
        ({
            let t = color_text(color_of(s)->Some_0);
            &&& t.len() == 7
            &&& t[0] == '#'
            &&& forall|i: int| 1 <= i < 7 ==> is_lower_hex_digit(#[trigger] t[i])
            &&& color_of(t) == color_of(s)
        }),
{
    let c = color_of(s)->Some_0;
    let t = color_text(c);
    assert forall|n: int| 0 <= n < 16 implies is_lower_hex_digit(#[trigger] hex_char(n))
        && is_hex_digit(hex_char(n)) && hex_value(hex_char(n)) == n by {}
    assert(is_lower_hex_digit(t[1]) && is_lower_hex_digit(t[2]));
    assert(is_lower_hex_digit(t[3]) && is_lower_hex_digit(t[4]));
    assert(is_lower_hex_digit(t[5]) && is_lower_hex_digit(t[6]));
    assert(named_color(t) is None) by {
        assert(t.len() != seq!['r', 'e', 'd'].len());
        assert(t.len() != seq!['g', 'r', 'e', 'e', 'n'].len());
        assert(t.len() != seq!['y', 'e', 'l', 'l', 'o', 'w'].len());
        assert(t.len() != seq!['b', 'l', 'u', 'e'].len());
        assert(t.len() != seq!['b', 'l', 'a', 'c', 'k'].len());
    }
    assert(is_hex_color(t));
    assert(pair_value(t[1], t[2]) == c.red);
    assert(pair_value(t[3], t[4]) == c.green);
    assert(pair_value(t[5], t[6]) == c.blue);
}

/// Text size of a label.
#[derive(Clone, Copy, Debug, PartialEq, Eq, Structural)]
pub enum Size {
    Normal,
    Large,
}

impl Default for Size {
    fn default() -> (r: Size)
        ensures
            r == Size::Normal,
    {
        Size::Normal
    }
}

/// Marker drawn at a point of a polyline.
#[derive(Clone, Copy, Debug, PartialEq, Eq, Structural)]
pub enum Marker {
    Circle,
    Cross,
}

/// One point of a polyline, with its marker, color and label.
#[derive(Clone, Debug)]
pub struct VectorElement {
    pub x: usize,
    pub y: usize,
    pub marker: Marker,
    pub color: Color,
    pub text: String,
}

/// Tag of the rectangle form.
#[derive(Clone, Copy, Debug, PartialEq, Eq, Structural)]
pub enum ShapeRect {
    Rect,
}

/// Tag of the polyline form.
#[derive(Clone, Copy, Debug, PartialEq, Eq, Structural)]
pub enum ShapeVect {
    Vect,
}

/// What a graphic draws.
#[allow(inconsistent_fields)]
#[derive(Clone, Debug)]
pub enum Drawable {
    Rectangle { shape: ShapeRect, x: usize, y: usize, w: usize, h: usize, fill: Color, color: Color },
    Vector { shape: ShapeVect, color: Color, vector: Vec<VectorElement> },
    Text { text: String, size: Size, color: Color, x: usize, y: usize },
}

/// A named drawing command with its time-to-live; without a drawable it
/// marks a deletion.
#[derive(Clone, Debug)]
pub struct Graphic {
    pub id: String,
    pub ttl: isize,
    pub drawable: Option<Drawable>,
}

/// A command that carries only its name and time-to-live.
#[derive(Clone, Debug)]
pub struct EmptyGraphic {
    pub id: String,
    pub ttl: isize,
}

} // verus!
