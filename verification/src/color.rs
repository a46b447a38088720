//! Colours as they are written: `#rgb`, `#rgba`, `#rrggbb` and `#rrggbbaa`,
//! read into 8-bit channels, and the ready-made accents of the settings.
//!
//! The fractional colour spaces (sRGB in 0..1, OKLab, OKLCH) are built from
//! these channels next to the drawing code.

use vstd::prelude::*;

use crate::text::{
    chars_of, debug_char, debug_quoted, decimal, decimal_string, push_char, quoted,
    quoted_char, trim, trimmed,
};

verus! {

/// A colour that could not be read from text.
#[derive(Debug, Clone, PartialEq)]
pub enum ColorParseError {
    /// The text does not start with `#`.
    MissingHash(String),
    /// Not 3, 4, 6 or 8 hexadecimal digits.
    BadLength(usize),
    /// A character that is not a hexadecimal digit.
    BadDigit(char),
}

/// The mathematical picture of a colour error.
pub enum ColorParseErrorView {
    MissingHash(Seq<char>),
    BadLength(usize),
    BadDigit(char),
}

impl View for ColorParseError {
    type V = ColorParseErrorView;

    open spec fn view(&self) -> ColorParseErrorView {
        match self {
            ColorParseError::MissingHash(s) => ColorParseErrorView::MissingHash(s@),
            ColorParseError::BadLength(n) => ColorParseErrorView::BadLength(*n),
            ColorParseError::BadDigit(c) => ColorParseErrorView::BadDigit(*c),
        }
    }
}

/// The message of a colour error.
pub open spec fn color_error_text(e: ColorParseErrorView) -> Seq<char> {
    match e {
        ColorParseErrorView::MissingHash(s) => "цвет должен начинаться с '#', получено: "@ + debug_quoted(s),
        ColorParseErrorView::BadLength(n) => "неверная длина: ожидалось 3, 4, 6 или 8 шестнадцатеричных цифр, получено "@
            + decimal(n as nat),
        ColorParseErrorView::BadDigit(c) => "не шестнадцатеричная цифра: "@ + debug_char(c),
    }
}

impl ColorParseError {
    /// The message for a person.
    pub fn to_string(&self) -> (r: String)
        ensures
            r@ == color_error_text(self@),
    {
        match self {
            ColorParseError::MissingHash(s) => {
                let mut m = "цвет должен начинаться с '#', получено: ".to_owned();
                let q = quoted(s.as_str());
                m.append(q.as_str());
                m
            },
            ColorParseError::BadLength(n) => {
                let mut m = "неверная длина: ожидалось 3, 4, 6 или 8 шестнадцатеричных цифр, получено ".to_owned();
                let d = decimal_string(*n as u64);
                m.append(d.as_str());
                m
            },
            ColorParseError::BadDigit(c) => {
                let mut m = "не шестнадцатеричная цифра: ".to_owned();
                let q = quoted_char(*c);
                m.append(q.as_str());
                m
            },
        }
    }
}

/// A colour as four 8-bit channels; an opaque colour has alpha 255.
#[derive(Debug, Clone, Copy, PartialEq, Eq, Structural)]
pub struct Rgba8 {
    pub r: u8,
    pub g: u8,
    pub b: u8,
    pub a: u8,
}

/// An ASCII hexadecimal digit.
pub open spec fn is_hex_digit(c: char) -> bool {
    ('0' <= c && c <= '9') || ('a' <= c && c <= 'f') || ('A' <= c && c <= 'F')
}

/// The value of a hexadecimal digit.
pub open spec fn hex_value(c: char) -> nat {
    if '0' <= c && c <= '9' {
        ((c as u32) - ('0' as u32)) as nat
    } else if 'a' <= c && c <= 'f' {
        ((c as u32) - ('a' as u32) + 10) as nat
    } else {
        ((c as u32) - ('A' as u32) + 10) as nat
    }
}

/// The first character that is not a hexadecimal digit.
pub open spec fn first_bad_digit(s: Seq<char>) -> Option<char>
    decreases s.len(),
{
    if s.len() == 0 {
        None
    } else if !is_hex_digit(s[0]) {
        Some(s[0])
    } else {
        first_bad_digit(s.drop_first())
    }
}

/// A channel written with one digit: the digit doubled, as in CSS.
pub open spec fn short_channel(c: char) -> u8 {
    (hex_value(c) * 17) as u8
}

/// A channel written with two digits.
pub open spec fn long_channel(hi: char, lo: char) -> u8 {
    (hex_value(hi) * 16 + hex_value(lo)) as u8
}

/// How a colour is read from text: a `#`, then only hexadecimal digits, and
/// then 3, 4, 6 or 8 of them.
pub open spec fn hex_color(s: Seq<char>) -> Result<Rgba8, ColorParseErrorView> {
    if !(s.len() > 0 && s[0] == '#') {
        Err(ColorParseErrorView::MissingHash(s))
    } else {
        let d = s.drop_first();
        match first_bad_digit(d) {
            Some(c) => Err(ColorParseErrorView::BadDigit(c)),
            None => if d.len() == 3 {
                Ok(Rgba8 { r: short_channel(d[0]), g: short_channel(d[1]), b: short_channel(d[2]), a: 255 })
            } else if d.len() == 4 {
                Ok(Rgba8 { r: short_channel(d[0]), g: short_channel(d[1]), b: short_channel(d[2]), a: short_channel(d[3]) })
            } else if d.len() == 6 {
                Ok(Rgba8 { r: long_channel(d[0], d[1]), g: long_channel(d[2], d[3]), b: long_channel(d[4], d[5]), a: 255 })
            } else if d.len() == 8 {
                Ok(Rgba8 {
                    r: long_channel(d[0], d[1]),
                    g: long_channel(d[2], d[3]),
                    b: long_channel(d[4], d[5]),
                    a: long_channel(d[6], d[7]),
                })
            } else {
                Err(ColorParseErrorView::BadLength(d.len() as usize))
            },
        }
    }
}

proof fn lemma_first_bad_digit_skips(s: Seq<char>, i: int)
    requires
        0 <= i <= s.len(),
        forall|k: int| 0 <= k < i ==> is_hex_digit(#[trigger] s[k]),
    ensures
        first_bad_digit(s) == first_bad_digit(s.skip(i)),
    decreases i,
{
    if i > 0 {
        assert(is_hex_digit(s[0]));
        let t = s.drop_first();
        assert forall|k: int| 0 <= k < i - 1 implies is_hex_digit(#[trigger] t[k]) by {
            assert(t[k] == s[k + 1]);
        }
        lemma_first_bad_digit_skips(t, i - 1);
        assert(t.skip(i - 1) =~= s.skip(i));
    } else {
        assert(s.skip(0) =~= s);
    }
}

fn hex_value_of(c: char) -> (r: u8)
    requires
        is_hex_digit(c),
    ensures
        r == hex_value(c),
        r < 16,
{
    if '0' <= c && c <= '9' {
        ((c as u32) - 48) as u8
    } else if 'a' <= c && c <= 'f' {
        ((c as u32) - 87) as u8
    } else {
        ((c as u32) - 55) as u8
    }
}

fn short_of(c: char) -> (r: u8)
    requires
        is_hex_digit(c),
    ensures
        r == short_channel(c),
{
    let v = hex_value_of(c);
    v * 17
}

fn long_of(hi: char, lo: char) -> (r: u8)
    requires
        is_hex_digit(hi),
        is_hex_digit(lo),
    ensures
        r == long_channel(hi, lo),
{
    let h = hex_value_of(hi);
    let l = hex_value_of(lo);
    h * 16 + l
}

/// Reads `#rgb`, `#rgba`, `#rrggbb` or `#rrggbbaa` into channels.
pub fn hex_channels(s: &str) -> (r: Result<Rgba8, ColorParseError>)
    ensures
        match r {
            Ok(c) => hex_color(s@) == Ok::<Rgba8, ColorParseErrorView>(c),
            Err(e) => hex_color(s@) == Err::<Rgba8, ColorParseErrorView>(e@),
        },
{
    let v = chars_of(s);
    if v.len() == 0 || v[0] != '#' {
        return Err(ColorParseError::MissingHash(s.to_owned()));
    }
    let ghost d = s@.drop_first();
    let mut i: usize = 1;
    while i < v.len()
        invariant
            1 <= i <= v@.len(),
            v@ == s@,
            s@.len() > 0 && s@[0] == '#',
            d == s@.drop_first(),
            forall|k: int| 0 <= k < i - 1 ==> is_hex_digit(#[trigger] d[k]),
        decreases v@.len() - i,
    {
        let c = v[i];
        assert(d[i - 1] == c);
        if !(('0' <= c && c <= '9') || ('a' <= c && c <= 'f') || ('A' <= c && c <= 'F')) {
            proof {
                lemma_first_bad_digit_skips(d, i - 1);
                assert(d.skip(i - 1)[0] == c);
                assert(first_bad_digit(d.skip(i - 1)) == Some(c));
            }
            return Err(ColorParseError::BadDigit(c));
        }
        i = i + 1;
    }
    proof {
        lemma_first_bad_digit_skips(d, d.len() as int);
        assert(d.skip(d.len() as int).len() == 0);
    }
    let n = v.len() - 1;
    assert(forall|k: int| 0 <= k < n ==> v@[k + 1] == d[k]);
    if n == 3 {
        assert(is_hex_digit(d[0]) && is_hex_digit(d[1]) && is_hex_digit(d[2]));
        Ok(Rgba8 { r: short_of(v[1]), g: short_of(v[2]), b: short_of(v[3]), a: 255 })
    } else if n == 4 {
        assert(is_hex_digit(d[0]) && is_hex_digit(d[1]) && is_hex_digit(d[2]) && is_hex_digit(d[3]));
        Ok(Rgba8 { r: short_of(v[1]), g: short_of(v[2]), b: short_of(v[3]), a: short_of(v[4]) })
    } else if n == 6 {
        assert(is_hex_digit(d[0]) && is_hex_digit(d[1]) && is_hex_digit(d[2]));
        assert(is_hex_digit(d[3]) && is_hex_digit(d[4]) && is_hex_digit(d[5]));
        Ok(Rgba8 { r: long_of(v[1], v[2]), g: long_of(v[3], v[4]), b: long_of(v[5], v[6]), a: 255 })
    } else if n == 8 {
        assert(is_hex_digit(d[0]) && is_hex_digit(d[1]) && is_hex_digit(d[2]) && is_hex_digit(d[3]));
        assert(is_hex_digit(d[4]) && is_hex_digit(d[5]) && is_hex_digit(d[6]) && is_hex_digit(d[7]));
        Ok(Rgba8 { r: long_of(v[1], v[2]), g: long_of(v[3], v[4]), b: long_of(v[5], v[6]), a: long_of(v[7], v[8]) })
    } else {
        Err(ColorParseError::BadLength(n))
    }
}

/// How a hand-typed accent colour is read: surrounding blanks are ignored, a
/// missing `#` is added (the usual slip when a colour is copied), and a
/// mistake is explained in plain words.
pub open spec fn accent_spec(input: Seq<char>) -> Result<Rgba8, Seq<char>> {
    let t = trim(input);
    if t.len() == 0 {
        Err("Введите цвет, например #7c3aed"@)
    } else {
        let n = if t[0] == '#' { t } else { seq!['#'] + t };
        match hex_color(n) {
            Ok(c) => Ok(c),
            Err(ColorParseErrorView::BadLength(k)) => Err("Нужно 6 шестнадцатеричных цифр, а их "@ + decimal(k as nat)),
            Err(ColorParseErrorView::BadDigit(c)) => Err("Символ «"@ + seq![c] + "» не является шестнадцатеричной цифрой"@),
            Err(e) => Err(color_error_text(e)),
        }
    }
}

/// Checks a colour typed by hand and reads it into channels, or explains
/// what is wrong with it.
pub fn accent_channels(input: &str) -> (r: Result<Rgba8, String>)
    ensures
        match r {
            Ok(c) => accent_spec(input@) == Ok::<Rgba8, Seq<char>>(c),
            Err(m) => accent_spec(input@) == Err::<Rgba8, Seq<char>>(m@),
        },
{
    let all = chars_of(input);
    let t = trimmed(&all);
    if t.len() == 0 {
        return Err("Введите цвет, например #7c3aed".to_owned());
    }
    let mut n = String::new();
    if t[0] != '#' {
        push_char(&mut n, '#');
    }
    let mut i: usize = 0;
    while i < t.len()
        invariant
            i <= t@.len(),
            t@ == trim(input@),
            t@.len() > 0,
            n@ == (if t@[0] == '#' { Seq::<char>::empty() } else { seq!['#'] }) + t@.take(i as int),
        decreases t@.len() - i,
    {
        push_char(&mut n, t[i]);
        assert(t@.take(i + 1) =~= t@.take(i as int).push(t@[i as int]));
        i = i + 1;
    }
    assert(t@.take(t@.len() as int) =~= t@);
    assert(n@ =~= if t@[0] == '#' { t@ } else { seq!['#'] + t@ });
    match hex_channels(n.as_str()) {
        Ok(c) => Ok(c),
        Err(ColorParseError::BadLength(k)) => {
            let mut m = "Нужно 6 шестнадцатеричных цифр, а их ".to_owned();
            let d = decimal_string(k as u64);
            m.append(d.as_str());
            Err(m)
        },
        Err(ColorParseError::BadDigit(c)) => {
            let mut m = "Символ «".to_owned();
            push_char(&mut m, c);
            m.append("» не является шестнадцатеричной цифрой");
            assert(m@ =~= "Символ «"@ + seq![c] + "» не является шестнадцатеричной цифрой"@);
            Err(m)
        },
        Err(e) => Err(e.to_string()),
    }
}

/// The name and colour of a ready-made accent.
#[derive(Debug, Clone, Copy)]
pub struct Preset {
    pub name: &'static str,
    pub hex: &'static str,
}

/// The ready-made accents. They are no limit (any colour can be typed
/// beside them); they give the desktop a recognisable look out of the box.
pub open spec fn preset_table() -> Seq<(Seq<char>, Seq<char>)> {
    seq![
        ("Фиолетовый"@, "#7c3aed"@),
        ("Синий"@, "#3584e4"@),
        ("Бирюзовый"@, "#00b8a9"@),
        ("Зелёный"@, "#2ec27e"@),
        ("Жёлтый"@, "#f6d32d"@),
        ("Оранжевый"@, "#ff7800"@),
        ("Красный"@, "#e01b24"@),
        ("Розовый"@, "#ff4d8d"@),
    ]
}

/// The ready-made accents, in the order the settings show them.
pub fn presets() -> (r: Vec<Preset>)
    ensures
        r@.len() == preset_table().len(),
        forall|i: int| 0 <= i < r@.len() ==> (#[trigger] r@[i].name@, r@[i].hex@) == preset_table()[i],
{
    let r = vec![
        Preset { name: "Фиолетовый", hex: "#7c3aed" },
        Preset { name: "Синий", hex: "#3584e4" },
        Preset { name: "Бирюзовый", hex: "#00b8a9" },
        Preset { name: "Зелёный", hex: "#2ec27e" },
        Preset { name: "Жёлтый", hex: "#f6d32d" },
        Preset { name: "Оранжевый", hex: "#ff7800" },
        Preset { name: "Красный", hex: "#e01b24" },
        Preset { name: "Розовый", hex: "#ff4d8d" },
    ];
    r
}

} // verus!
