//! Styled text: colours, modifiers, and the ANSI SGR parser that turns
//! server output into styled spans.

use vstd::prelude::*;

use crate::text::{chars_of, find_char, string_of, trim};

verus! {

/// A terminal colour.
#[derive(Debug, Clone, Copy, PartialEq, Eq, Structural)]
pub enum Color {
    Reset,
    Black,
    Red,
    Green,
    Yellow,
    Blue,
    Magenta,
    Cyan,
    Gray,
    DarkGray,
    LightRed,
    LightGreen,
    LightYellow,
    LightBlue,
    LightMagenta,
    LightCyan,
    White,
    /// One of the 256 palette colours.
    Indexed(u8),
    /// A 24-bit colour.
    Rgb(u8, u8, u8),
}

/// What a style says about one text modifier: nothing, switched on, or
/// switched off.
#[derive(Debug, Clone, Copy, PartialEq, Eq, Structural)]
pub enum Toggle {
    Unset,
    On,
    Off,
}

/// The style of a run of text.
#[derive(Debug, Clone, Copy, PartialEq, Eq, Structural)]
pub struct TextStyle {
    pub fg: Option<Color>,
    pub bg: Option<Color>,
    pub bold: Toggle,
    pub dim: Toggle,
    pub italic: Toggle,
    pub underlined: Toggle,
    pub slow_blink: Toggle,
    pub reversed: Toggle,
    pub crossed_out: Toggle,
}

/// The style that says nothing.
pub open spec fn plain_style() -> TextStyle {
    TextStyle {
        fg: None,
        bg: None,
        bold: Toggle::Unset,
        dim: Toggle::Unset,
        italic: Toggle::Unset,
        underlined: Toggle::Unset,
        slow_blink: Toggle::Unset,
        reversed: Toggle::Unset,
        crossed_out: Toggle::Unset,
    }
}

impl TextStyle {
    /// The style that says nothing.
    pub fn plain() -> (s: TextStyle)
        ensures
            s == plain_style(),
    {
        TextStyle {
            fg: None,
            bg: None,
            bold: Toggle::Unset,
            dim: Toggle::Unset,
            italic: Toggle::Unset,
            underlined: Toggle::Unset,
            slow_blink: Toggle::Unset,
            reversed: Toggle::Unset,
            crossed_out: Toggle::Unset,
        }
    }

    /// This style with the given foreground colour.
    pub fn with_fg(self, c: Color) -> (s: TextStyle)
        ensures
            s == (TextStyle { fg: Some(c), ..self }),
    {
        TextStyle { fg: Some(c), ..self }
    }
}

impl Default for TextStyle {
    fn default() -> (s: TextStyle)
        ensures
            s == plain_style(),
    {
        TextStyle::plain()
    }
}

/// A run of text in one style.
#[derive(Debug, Clone)]
pub struct StyledSpan {
    pub text: String,
    pub style: TextStyle,
}

/// A line of styled text.
#[derive(Debug, Clone)]
pub struct StyledLine {
    pub spans: Vec<StyledSpan>,
}

/// The text and style of each span of a line.
pub open spec fn line_view(l: StyledLine) -> Seq<(Seq<char>, TextStyle)> {
    l.spans@.map_values(|sp: StyledSpan| (sp.text@, sp.style))
}

// ---------------------------------------------------------------------------
// Numbers in text
// ---------------------------------------------------------------------------

/// Whether every character of `s` is an ASCII digit.
pub open spec fn all_digits(s: Seq<char>) -> bool {
    forall|i: int| 0 <= i < s.len() ==> '0' <= #[trigger] s[i] <= '9'
}

/// The value of a string of decimal digits.
pub open spec fn digits_value(s: Seq<char>) -> nat
    decreases s.len(),
{
    if s.len() == 0 {
        0
    } else {
        digits_value(s.drop_last()) * 10 + ((s.last() as u32) - ('0' as u32)) as nat
    }
}

/// An unsigned decimal number, an optional `+` and at least one digit, as
/// `str::parse` reads it into an unsigned integer: its value, or `None`.
pub open spec fn parse_unsigned(s: Seq<char>) -> Option<nat> {
    let d = if s.len() > 0 && s[0] == '+' { s.drop_first() } else { s };
    if d.len() > 0 && all_digits(d) {
        Some(digits_value(d))
    } else {
        None
    }
}

/// `s` read as a `u32`, as `str::parse::<u32>` does.
pub open spec fn parse_u32(s: Seq<char>) -> Option<u32> {
    match parse_unsigned(s) {
        Some(v) => if v <= u32::MAX {
            Some(v as u32)
        } else {
            None
        },
        None => None,
    }
}

proof fn lemma_digits_value_monotone(s: Seq<char>, i: int)
    requires
        0 <= i <= s.len(),
        all_digits(s),
    ensures
        digits_value(s.take(i)) <= digits_value(s),
    decreases s.len() - i,
{
    if i < s.len() {
        lemma_digits_value_monotone(s, i + 1);
        assert(s.take(i + 1).drop_last() =~= s.take(i));
        assert('0' <= s[i] <= '9');
    } else {
        assert(s.take(i) =~= s);
    }
}

/// The value of the digits `v[from..]`, or `None` when it exceeds `limit`.
pub fn digits_up_to(v: &Vec<char>, from: usize, limit: u64) -> (r: Option<u64>)
    requires
        from <= v@.len(),
        all_digits(v@.skip(from as int)),
        limit >= 9,
    ensures
        match r {
            Some(n) => n == digits_value(v@.skip(from as int)) && n <= limit,
            None => digits_value(v@.skip(from as int)) > limit,
        },
{
    let ghost d = v@.skip(from as int);
    let mut n: u64 = 0;
    let mut i: usize = from;
    while i < v.len()
        invariant
            from <= i <= v@.len(),
            d == v@.skip(from as int),
            all_digits(d),
            n == digits_value(d.take(i - from)),
            n <= limit,
            limit >= 9,
        decreases v.len() - i,
    {
        proof {
            assert(d.take(i - from + 1).drop_last() =~= d.take(i - from));
            assert(d[i - from] == v@[i as int]);
            assert('0' <= d[i - from] <= '9');
        }
        let digit = ((v[i] as u32) - ('0' as u32)) as u64;
        if n > (limit - digit) / 10 {
            proof {
                lemma_digits_value_monotone(d, i - from + 1);
                assert(n * 10 + digit > limit) by (nonlinear_arith)
                    requires
                        n > (limit - digit) / 10,
                        digit <= 9,
                        digit <= limit,
                ;
            }
            return None;
        }
        proof {
            assert(n * 10 + digit <= limit) by (nonlinear_arith)
                requires
                    n <= (limit - digit) / 10,
            ;
        }
        n = n * 10 + digit;
        i += 1;
    }
    assert(d.take(i - from) =~= d);
    Some(n)
}


/// `v` read as an unsigned decimal, optional `+` first, when its value is at
/// most `limit`.
pub fn parse_unsigned_up_to(v: &Vec<char>, limit: u64) -> (r: Option<u64>)
    requires
        limit >= 9,
    ensures
        match r {
            Some(n) => parse_unsigned(v@) == Some(n as nat) && n <= limit,
            None => parse_unsigned(v@) is None || parse_unsigned(v@).unwrap() > limit,
        },
{
    let from: usize = if v.len() > 0 && v[0] == '+' { 1 } else { 0 };
    proof {
        assert(from == 1 ==> v@.skip(1) =~= v@.drop_first());
        assert(from == 0 ==> v@.skip(0) =~= v@);
    }
    if from >= v.len() {
        return None;
    }
    let ghost d = v@.skip(from as int);
    assert(parse_unsigned(v@) == (if all_digits(d) { Some(digits_value(d)) } else { None }));
    let mut i = from;
    while i < v.len()
        invariant
            from <= i <= v@.len(),
            d == v@.skip(from as int),
            parse_unsigned(v@) == (if all_digits(d) { Some(digits_value(d)) } else { None }),
            forall|k: int| from <= k < i ==> '0' <= #[trigger] v@[k] <= '9',
        decreases v.len() - i,
    {
        if !('0' <= v[i] && v[i] <= '9') {
            proof {
                assert(!('0' <= v@.skip(from as int)[i - from] <= '9'));
            }
            return None;
        }
        i += 1;
    }
    assert(all_digits(v@.skip(from as int))) by {
        assert forall|k: int| 0 <= k < v@.skip(from as int).len() implies '0' <= #[trigger] v@.skip(from as int)[k] <= '9' by {
            assert(v@.skip(from as int)[k] == v@[from + k]);
        }
    }
    digits_up_to(v, from, limit)
}

/// `v` read as a `u32`, as `str::parse::<u32>` does.
pub fn parse_u32_chars(v: &Vec<char>) -> (r: Option<u32>)
    ensures
        r == parse_u32(v@),
{
    match parse_unsigned_up_to(v, 0xFFFF_FFFF) {
        Some(n) => Some(n as u32),
        None => None,
    }
}

/// A signed decimal number, an optional `+` or `-` and at least one digit,
/// as `str::parse` reads it into an `i32`: its value, or `None` (also when
/// out of range).
pub open spec fn parse_i32(s: Seq<char>) -> Option<i32> {
    let neg = s.len() > 0 && s[0] == '-';
    let d = if s.len() > 0 && (s[0] == '+' || s[0] == '-') { s.drop_first() } else { s };
    if d.len() > 0 && all_digits(d) {
        let v: int = if neg { -digits_value(d) } else { digits_value(d) as int };
        if i32::MIN <= v <= i32::MAX {
            Some(v as i32)
        } else {
            None
        }
    } else {
        None
    }
}

/// `v` read as an `i32`, as `str::parse::<i32>` does.
pub fn parse_i32_chars(v: &Vec<char>) -> (r: Option<i32>)
    ensures
        r == parse_i32(v@),
{
    if v.len() == 0 {
        return None;
    }
    let neg = v[0] == '-';
    let from: usize = if v[0] == '+' || v[0] == '-' { 1 } else { 0 };
    let ghost d = v@.skip(from as int);
    proof {
        assert(from == 1 ==> v@.skip(1) =~= v@.drop_first());
        assert(from == 0 ==> v@.skip(0) =~= v@);
    }
    if from >= v.len() {
        return None;
    }
    assert(parse_i32(v@) is Some ==> all_digits(d));
    let mut i = from;
    while i < v.len()
        invariant
            from <= i <= v@.len(),
            d == v@.skip(from as int),
            parse_i32(v@) is Some ==> all_digits(d),
            forall|k: int| from <= k < i ==> '0' <= #[trigger] v@[k] <= '9',
        decreases v.len() - i,
    {
        if !('0' <= v[i] && v[i] <= '9') {
            proof {
                assert(d[i - from] == v@[i as int]);
                assert(!('0' <= d[i - from] <= '9'));
            }
            return None;
        }
        i += 1;
    }
    assert(all_digits(d)) by {
        assert forall|k: int| 0 <= k < d.len() implies '0' <= #[trigger] d[k] <= '9' by {
            assert(d[k] == v@[from + k]);
        }
    }
    let limit: u64 = if neg { 0x8000_0000 } else { 0x7FFF_FFFF };
    match digits_up_to(v, from, limit) {
        Some(n) => {
            if neg {
                Some((0i64 - n as i64) as i32)
            } else {
                Some(n as i32)
            }
        },
        None => None,
    }
}

/// The pieces of `s` between occurrences of `c` (`str::split` with a
/// character pattern): always at least one piece.
pub open spec fn split_on(s: Seq<char>, c: char) -> Seq<Seq<char>>
    decreases s.len(),
{
    match find_char(s, c) {
        Some(p) => {
            proof {
                crate::text::lemma_find_char_props(s, c);
            }
            seq![s.take(p)] + split_on(s.skip(p + 1), c)
        },
        None => seq![s],
    }
}

/// The pieces that read as a `u32` once trimmed, read; the others skipped.
pub open spec fn piece_codes(ps: Seq<Seq<char>>) -> Seq<u32>
    decreases ps.len(),
{
    if ps.len() == 0 {
        seq![]
    } else {
        (match parse_u32(trim(ps[0])) {
            Some(x) => seq![x],
            None => seq![],
        }) + piece_codes(ps.drop_first())
    }
}

/// The SGR codes in a parameter string: the `;`-separated pieces that read
/// as a `u32` once trimmed; the others are skipped.
pub open spec fn sgr_codes(params: Seq<char>) -> Seq<u32> {
    piece_codes(split_on(params, ';'))
}

/// The effect of one SGR code other than the extended colours 38 and 48.
pub open spec fn sgr_one(st: TextStyle, c: u32) -> TextStyle {
    if c == 0 {
        plain_style()
    } else if c == 1 {
        TextStyle { bold: Toggle::On, ..st }
    } else if c == 2 {
        TextStyle { dim: Toggle::On, ..st }
    } else if c == 3 {
        TextStyle { italic: Toggle::On, ..st }
    } else if c == 4 {
        TextStyle { underlined: Toggle::On, ..st }
    } else if c == 5 || c == 6 {
        TextStyle { slow_blink: Toggle::On, ..st }
    } else if c == 7 {
        TextStyle { reversed: Toggle::On, ..st }
    } else if c == 9 {
        TextStyle { crossed_out: Toggle::On, ..st }
    } else if c == 22 {
        TextStyle { bold: Toggle::Off, dim: Toggle::Off, ..st }
    } else if c == 23 {
        TextStyle { italic: Toggle::Off, ..st }
    } else if c == 24 {
        TextStyle { underlined: Toggle::Off, ..st }
    } else if c == 25 {
        TextStyle { slow_blink: Toggle::Off, ..st }
    } else if c == 27 {
        TextStyle { reversed: Toggle::Off, ..st }
    } else if c == 29 {
        TextStyle { crossed_out: Toggle::Off, ..st }
    } else if 30 <= c <= 37 {
        TextStyle { fg: Some(basic_color((c - 30) as u32)), ..st }
    } else if c == 39 {
        TextStyle { fg: Some(Color::Reset), ..st }
    } else if 40 <= c <= 47 {
        TextStyle { bg: Some(basic_color((c - 40) as u32)), ..st }
    } else if c == 49 {
        TextStyle { bg: Some(Color::Reset), ..st }
    } else if 90 <= c <= 97 {
        TextStyle { fg: Some(bright_color((c - 90) as u32)), ..st }
    } else if 100 <= c <= 107 {
        TextStyle { bg: Some(bright_color((c - 100) as u32)), ..st }
    } else {
        st
    }
}

/// The eight standard colours, in ANSI order (white shown as gray).
pub open spec fn basic_color(k: u32) -> Color {
    if k == 0 {
        Color::Black
    } else if k == 1 {
        Color::Red
    } else if k == 2 {
        Color::Green
    } else if k == 3 {
        Color::Yellow
    } else if k == 4 {
        Color::Blue
    } else if k == 5 {
        Color::Magenta
    } else if k == 6 {
        Color::Cyan
    } else {
        Color::Gray
    }
}

/// The eight bright colours, in ANSI order.
pub open spec fn bright_color(k: u32) -> Color {
    if k == 0 {
        Color::DarkGray
    } else if k == 1 {
        Color::LightRed
    } else if k == 2 {
        Color::LightGreen
    } else if k == 3 {
        Color::LightYellow
    } else if k == 4 {
        Color::LightBlue
    } else if k == 5 {
        Color::LightMagenta
    } else if k == 6 {
        Color::LightCyan
    } else {
        Color::White
    }
}

/// `st` with the foreground (code 38) or background (code 48) set to `c`.
pub open spec fn set_extended(st: TextStyle, code: u32, c: Color) -> TextStyle {
    if code == 38 {
        TextStyle { fg: Some(c), ..st }
    } else {
        TextStyle { bg: Some(c), ..st }
    }
}

/// The codes from index `i` on applied to `st`: `38;5;n` / `48;5;n` select a
/// palette colour and `38;2;r;g;b` / `48;2;r;g;b` a 24-bit colour (values
/// taken modulo 256); an incomplete extended colour is ignored.
pub open spec fn sgr_from(st: TextStyle, codes: Seq<u32>, i: int) -> TextStyle
    decreases codes.len() - i,
{
    if i < 0 || i >= codes.len() {
        st
    } else {
        let c = codes[i];
        if c == 38 || c == 48 {
            if i + 2 < codes.len() && codes[i + 1] == 5 {
                sgr_from(set_extended(st, c, Color::Indexed((codes[i + 2] % 256) as u8)), codes, i + 3)
            } else if i + 4 < codes.len() && codes[i + 1] == 2 {
                sgr_from(
                    set_extended(
                        st,
                        c,
                        Color::Rgb((codes[i + 2] % 256) as u8, (codes[i + 3] % 256) as u8, (codes[i + 4] % 256) as u8),
                    ),
                    codes,
                    i + 5,
                )
            } else {
                sgr_from(st, codes, i + 1)
            }
        } else {
            sgr_from(sgr_one(st, c), codes, i + 1)
        }
    }
}

/// The style after an SGR sequence (`ESC [ params m`): an empty parameter
/// string resets it.
pub open spec fn spec_apply_sgr(st: TextStyle, params: Seq<char>) -> TextStyle {
    if params.len() == 0 {
        plain_style()
    } else {
        sgr_from(st, sgr_codes(params), 0)
    }
}

/// The standard colour with ANSI index `k` (0 to 7).
fn basic_color_of(k: u32) -> (c: Color)
    ensures
        c == basic_color(k),
{
    if k == 0 {
        Color::Black
    } else if k == 1 {
        Color::Red
    } else if k == 2 {
        Color::Green
    } else if k == 3 {
        Color::Yellow
    } else if k == 4 {
        Color::Blue
    } else if k == 5 {
        Color::Magenta
    } else if k == 6 {
        Color::Cyan
    } else {
        Color::Gray
    }
}

/// The bright colour with ANSI index `k` (0 to 7).
fn bright_color_of(k: u32) -> (c: Color)
    ensures
        c == bright_color(k),
{
    if k == 0 {
        Color::DarkGray
    } else if k == 1 {
        Color::LightRed
    } else if k == 2 {
        Color::LightGreen
    } else if k == 3 {
        Color::LightYellow
    } else if k == 4 {
        Color::LightBlue
    } else if k == 5 {
        Color::LightMagenta
    } else if k == 6 {
        Color::LightCyan
    } else {
        Color::White
    }
}

/// One SGR code other than 38 and 48.
fn sgr_one_exec(st: TextStyle, c: u32) -> (r: TextStyle)
    ensures
        r == sgr_one(st, c),
{
    if c == 0 {
        TextStyle::plain()
    } else if c == 1 {
        TextStyle { bold: Toggle::On, ..st }
    } else if c == 2 {
        TextStyle { dim: Toggle::On, ..st }
    } else if c == 3 {
        TextStyle { italic: Toggle::On, ..st }
    } else if c == 4 {
        TextStyle { underlined: Toggle::On, ..st }
    } else if c == 5 || c == 6 {
        TextStyle { slow_blink: Toggle::On, ..st }
    } else if c == 7 {
        TextStyle { reversed: Toggle::On, ..st }
    } else if c == 9 {
        TextStyle { crossed_out: Toggle::On, ..st }
    } else if c == 22 {
        TextStyle { bold: Toggle::Off, dim: Toggle::Off, ..st }
    } else if c == 23 {
        TextStyle { italic: Toggle::Off, ..st }
    } else if c == 24 {
        TextStyle { underlined: Toggle::Off, ..st }
    } else if c == 25 {
        TextStyle { slow_blink: Toggle::Off, ..st }
    } else if c == 27 {
        TextStyle { reversed: Toggle::Off, ..st }
    } else if c == 29 {
        TextStyle { crossed_out: Toggle::Off, ..st }
    } else if 30 <= c && c <= 37 {
        TextStyle { fg: Some(basic_color_of(c - 30)), ..st }
    } else if c == 39 {
        TextStyle { fg: Some(Color::Reset), ..st }
    } else if 40 <= c && c <= 47 {
        TextStyle { bg: Some(basic_color_of(c - 40)), ..st }
    } else if c == 49 {
        TextStyle { bg: Some(Color::Reset), ..st }
    } else if 90 <= c && c <= 97 {
        TextStyle { fg: Some(bright_color_of(c - 90)), ..st }
    } else if 100 <= c && c <= 107 {
        TextStyle { bg: Some(bright_color_of(c - 100)), ..st }
    } else {
        st
    }
}

/// The SGR codes of a parameter string.
fn sgr_codes_of(params: &Vec<char>) -> (r: Vec<u32>)
    ensures
        r@ == sgr_codes(params@),
{
    let mut codes: Vec<u32> = Vec::new();
    let mut start: usize = 0;
    let mut i: usize = 0;
    proof {
        assert(params@.skip(0) =~= params@);
        assert(codes@ + sgr_codes(params@) =~= sgr_codes(params@));
    }
    while i <= params.len()
        invariant
            start <= i <= params@.len(),
            start <= params@.len(),
            forall|k: int| start <= k < i && k < params@.len() ==> #[trigger] params@[k] != ';',
            sgr_codes(params@) == codes@ + piece_codes(split_on(params@.skip(start as int), ';')),
        decreases params.len() + 1 - i,
    {
        if i == params.len() || params[i] == ';' {
            let ghost s = params@.skip(start as int);
            let piece = crate::text::slice_vec(params, start, i);
            proof {
                crate::text::lemma_find_char_props(s, ';');
                if i < params@.len() {
                    assert(s[i - start] == ';');
                    match find_char(s, ';') {
                        Some(p) => {
                            if p < i - start {
                                assert(params@[start + p] == s[p]);
                            }
                        },
                        None => {},
                    }
                    assert(find_char(s, ';') == Some(i - start));
                    assert(s.skip(i - start + 1) =~= params@.skip(i + 1));
                    assert(s.take(i - start) =~= piece@);
                } else {
                    match find_char(s, ';') {
                        Some(p) => {
                            assert(params@[start + p] == s[p]);
                        },
                        None => {},
                    }
                    assert(s =~= piece@);
                }
            }
            let t = crate::text::trim_vec(&piece);
            let ghost before = codes@;
            let parsed = parse_u32_chars(&t);
            match parsed {
                Some(n) => codes.push(n),
                None => {},
            }
            proof {
                let rest = if i < params@.len() { split_on(params@.skip(i + 1), ';') } else { seq![] };
                assert(split_on(s, ';') =~= seq![piece@] + rest);
                assert((seq![piece@] + rest).drop_first() =~= rest);
                let one = match parse_u32(trim(piece@)) {
                    Some(x) => seq![x],
                    None => seq![],
                };
                assert(piece_codes(seq![piece@] + rest) == one + piece_codes(rest));
                assert(codes@ =~= before + one);
                if i == params@.len() {
                    assert(piece_codes(rest) =~= Seq::<u32>::empty());
                    assert(codes@ + piece_codes(rest) =~= codes@);
                }
                assert(before + (one + piece_codes(rest)) =~= codes@ + piece_codes(rest));
            }
            if i == params.len() {
                return codes;
            }
            start = i + 1;
        }
        i += 1;
    }
    codes
}

/// Apply an SGR parameter string to a style.
pub fn apply_sgr(st: TextStyle, params: &Vec<char>) -> (r: TextStyle)
    ensures
        r == spec_apply_sgr(st, params@),
{
    if params.len() == 0 {
        return TextStyle::plain();
    }
    let codes = sgr_codes_of(params);
    let mut style = st;
    let mut i: usize = 0;
    while i < codes.len()
        invariant
            i <= codes@.len(),
            sgr_from(st, codes@, 0) == sgr_from(style, codes@, i as int),
        decreases codes.len() - i,
    {
        let c = codes[i];
        if c == 38 || c == 48 {
            if codes.len() - i > 2 && codes[i + 1] == 5 {
                let col = Color::Indexed((codes[i + 2] % 256) as u8);
                style = if c == 38 { TextStyle { fg: Some(col), ..style } } else { TextStyle { bg: Some(col), ..style } };
                i += 3;
            } else if codes.len() - i > 4 && codes[i + 1] == 2 {
                let col = Color::Rgb((codes[i + 2] % 256) as u8, (codes[i + 3] % 256) as u8, (codes[i + 4] % 256) as u8);
                style = if c == 38 { TextStyle { fg: Some(col), ..style } } else { TextStyle { bg: Some(col), ..style } };
                i += 5;
            } else {
                i += 1;
            }
        } else {
            style = sgr_one_exec(style, c);
            i += 1;
        }
    }
    style
}


// ---------------------------------------------------------------------------
// ANSI text to styled spans
// ---------------------------------------------------------------------------

/// Where the CSI parameters starting at `j` end: the first final character
/// (`@` to `~`) or ESC, or the end of the text.
pub open spec fn csi_end(s: Seq<char>, j: int) -> int
    decreases s.len() - j,
{
    if j >= s.len() {
        s.len() as int
    } else if ('@' <= s[j] && s[j] <= '~') || s[j] == '\x1b' {
        j
    } else {
        csi_end(s, j + 1)
    }
}

/// `csi_end` does not go back, nor past the end.
pub proof fn lemma_csi_end(s: Seq<char>, j: int)
    requires
        0 <= j,
    ensures
        j <= s.len() ==> j <= csi_end(s, j) <= s.len(),
        j < csi_end(s, j) ==> !(('@' <= s[j] && s[j] <= '~') || s[j] == '\x1b'),
    decreases s.len() - j,
{
    if j < s.len() && !(('@' <= s[j] && s[j] <= '~') || s[j] == '\x1b') {
        lemma_csi_end(s, j + 1);
    }
}

/// The pending text `s[start..i]` as a span, if not empty.
pub open spec fn flush(s: Seq<char>, start: int, i: int, st: TextStyle) -> Seq<(Seq<char>, TextStyle)> {
    if start < i {
        seq![(s.subrange(start, i), st)]
    } else {
        seq![]
    }
}

/// Whether `c` designates a character set after ESC.
pub open spec fn is_charset_designator(c: char) -> bool {
    c == '(' || c == ')' || c == '*' || c == '+'
}

/// The spans of `s` from position `i` on, with text pending since `start`
/// in style `st`.  `ESC [ params final` sequences end the pending text; an
/// `m` final applies the SGR parameters, other finals are ignored, and a
/// sequence cut short by another ESC or the end is dropped.  Any other ESC
/// drops itself and the next character, and the one after that too when the
/// first designates a character set (unless it is an ESC).
pub open spec fn ansi_scan(s: Seq<char>, st: TextStyle, start: int, i: int) -> Seq<(Seq<char>, TextStyle)>
    decreases s.len() - i,
{
    if i < 0 || i >= s.len() {
        flush(s, start, s.len() as int, st)
    } else if s[i] == '\x1b' {
        if i + 1 < s.len() && s[i + 1] == '[' {
            proof {
                lemma_csi_end(s, i + 2);
            }
            let e = csi_end(s, i + 2);
            if e < s.len() && s[e] != '\x1b' {
                let st2 = if s[e] == 'm' {
                    spec_apply_sgr(st, s.subrange(i + 2, e))
                } else {
                    st
                };
                flush(s, start, i, st) + ansi_scan(s, st2, e + 1, e + 1)
            } else {
                flush(s, start, i, st) + ansi_scan(s, st, e, e)
            }
        } else {
            let k = if i + 1 < s.len() {
                if is_charset_designator(s[i + 1]) && i + 2 < s.len() && s[i + 2] != '\x1b' {
                    i + 3
                } else {
                    i + 2
                }
            } else {
                i + 1
            };
            flush(s, start, i, st) + ansi_scan(s, st, k, k)
        }
    } else {
        ansi_scan(s, st, start, i + 1)
    }
}

/// The styled spans of a line of server output; a line with no text is one
/// empty plain span.
pub open spec fn spec_ansi_to_line(s: Seq<char>) -> Seq<(Seq<char>, TextStyle)> {
    let r = ansi_scan(s, plain_style(), 0, 0);
    if r.len() == 0 {
        seq![(Seq::<char>::empty(), plain_style())]
    } else {
        r
    }
}

fn csi_end_of(v: &Vec<char>, j: usize) -> (e: usize)
    requires
        j <= v@.len(),
    ensures
        e == csi_end(v@, j as int),
{
    let mut k = j;
    while k < v.len()
        invariant
            j <= k <= v@.len(),
            csi_end(v@, j as int) == csi_end(v@, k as int),
        decreases v.len() - k,
    {
        let c = v[k];
        if ('@' <= c && c <= '~') || c == '\x1b' {
            return k;
        }
        k += 1;
    }
    k
}

proof fn lemma_spans_push(sp: Seq<StyledSpan>, x: StyledSpan)
    ensures
        sp.push(x).map_values(|a: StyledSpan| (a.text@, a.style)) =~= sp.map_values(|a: StyledSpan| (a.text@, a.style)).push((x.text@, x.style)),
{
}

/// Convert text that may hold ANSI escape sequences into styled spans.  The
/// text is read character by character.
pub fn ansi_to_line(input: &str) -> (l: StyledLine)
    ensures
        line_view(l) == spec_ansi_to_line(input@),
{
    let s = chars_of(input);
    let ghost total = ansi_scan(s@, plain_style(), 0, 0);
    let mut spans: Vec<StyledSpan> = Vec::new();
    let mut style = TextStyle::plain();
    let mut start: usize = 0;
    let mut i: usize = 0;
    while i < s.len()
        invariant
            start <= i <= s@.len(),
            total == ansi_scan(s@, plain_style(), 0, 0),
            total == spans@.map_values(|a: StyledSpan| (a.text@, a.style)) + ansi_scan(s@, style, start as int, i as int),
        decreases s.len() - i,
    {
        if s[i] == '\x1b' {
            let ghost before = spans@;
            if start < i {
                let t = crate::text::slice_vec(&s, start, i);
                let sp = StyledSpan { text: string_of(&t), style };
                proof { lemma_spans_push(spans@, sp); }
                spans.push(sp);
            }
            let ghost fl = flush(s@, start as int, i as int, style);
            proof {
                assert(spans@.map_values(|a: StyledSpan| (a.text@, a.style)) =~= before.map_values(|a: StyledSpan| (a.text@, a.style)) + fl);
            }
            if i + 1 < s.len() && s[i + 1] == '[' {
                proof { lemma_csi_end(s@, i + 2); }
                let e = csi_end_of(&s, i + 2);
                if e < s.len() && s[e] != '\x1b' {
                    if s[e] == 'm' {
                        let params = crate::text::slice_vec(&s, i + 2, e);
                        proof { assert(params@ =~= s@.subrange(i + 2, e as int)); }
                        style = apply_sgr(style, &params);
                    }
                    i = e + 1;
                } else {
                    i = e;
                }
            } else {
                let k: usize = if i + 1 < s.len() {
                    let next = s[i + 1];
                    if (next == '(' || next == ')' || next == '*' || next == '+') && i + 2 < s.len() && s[i + 2] != '\x1b' {
                        i + 3
                    } else {
                        i + 2
                    }
                } else {
                    i + 1
                };
                i = k;
            }
            start = i;
            proof {
                let a = before.map_values(|a: StyledSpan| (a.text@, a.style));
                assert(a + (fl + ansi_scan(s@, style, start as int, i as int)) =~= (a + fl) + ansi_scan(s@, style, start as int, i as int));
            }
        } else {
            i += 1;
        }
    }
    let ghost before = spans@;
    if start < s.len() {
        let t = crate::text::slice_vec(&s, start, s.len());
        let sp = StyledSpan { text: string_of(&t), style };
        proof { lemma_spans_push(spans@, sp); }
        spans.push(sp);
    }
    proof {
        let fl = flush(s@, start as int, s@.len() as int, style);
        assert(spans@.map_values(|a: StyledSpan| (a.text@, a.style)) =~= before.map_values(|a: StyledSpan| (a.text@, a.style)) + fl);
    }
    if spans.len() == 0 {
        let sp = StyledSpan { text: String::new(), style: TextStyle::plain() };
        proof { lemma_spans_push(spans@, sp); }
        spans.push(sp);
    }
    StyledLine { spans }
}


/// The colour a trigger names (`black`, `red`, ..., `gray` / `grey`,
/// `dark_gray` / `darkgray`, `light_red`, ..., `white`), compared after
/// `str::to_lowercase`.
pub open spec fn spec_color_name(lower: Seq<char>) -> Option<Color> {
    if lower == "black"@ {
        Some(Color::Black)
    } else if lower == "red"@ {
        Some(Color::Red)
    } else if lower == "green"@ {
        Some(Color::Green)
    } else if lower == "yellow"@ {
        Some(Color::Yellow)
    } else if lower == "blue"@ {
        Some(Color::Blue)
    } else if lower == "magenta"@ {
        Some(Color::Magenta)
    } else if lower == "cyan"@ {
        Some(Color::Cyan)
    } else if lower == "gray"@ || lower == "grey"@ {
        Some(Color::Gray)
    } else if lower == "dark_gray"@ || lower == "darkgray"@ {
        Some(Color::DarkGray)
    } else if lower == "light_red"@ {
        Some(Color::LightRed)
    } else if lower == "light_green"@ {
        Some(Color::LightGreen)
    } else if lower == "light_yellow"@ {
        Some(Color::LightYellow)
    } else if lower == "light_blue"@ {
        Some(Color::LightBlue)
    } else if lower == "light_magenta"@ {
        Some(Color::LightMagenta)
    } else if lower == "light_cyan"@ {
        Some(Color::LightCyan)
    } else if lower == "white"@ {
        Some(Color::White)
    } else {
        None
    }
}

/// The colour named by `name`, in any letter case.
pub fn parse_color_name(name: &str) -> (r: Option<Color>)
    ensures
        r == spec_color_name(crate::text::unicode_lower(name@)),
        crate::text::all_ascii(name@) ==> r == spec_color_name(crate::text::ascii_lower_seq(name@)),
{
    let lower = crate::text::to_lowercase(name);
    color_of_lower(lower.as_str())
}

/// The colour named by an already lowercased name `l`.
pub fn color_of_lower(l: &str) -> (r: Option<Color>)
    ensures
        r == spec_color_name(l@),
{
    let eq = |a: &str, b: &str| -> (r: bool)
        ensures r == (a@ == b@)
    { crate::text::str_eq(a, b) };
    if eq(l, "black") {
        Some(Color::Black)
    } else if eq(l, "red") {
        Some(Color::Red)
    } else if eq(l, "green") {
        Some(Color::Green)
    } else if eq(l, "yellow") {
        Some(Color::Yellow)
    } else if eq(l, "blue") {
        Some(Color::Blue)
    } else if eq(l, "magenta") {
        Some(Color::Magenta)
    } else if eq(l, "cyan") {
        Some(Color::Cyan)
    } else if eq(l, "gray") || eq(l, "grey") {
        Some(Color::Gray)
    } else if eq(l, "dark_gray") || eq(l, "darkgray") {
        Some(Color::DarkGray)
    } else if eq(l, "light_red") {
        Some(Color::LightRed)
    } else if eq(l, "light_green") {
        Some(Color::LightGreen)
    } else if eq(l, "light_yellow") {
        Some(Color::LightYellow)
    } else if eq(l, "light_blue") {
        Some(Color::LightBlue)
    } else if eq(l, "light_magenta") {
        Some(Color::LightMagenta)
    } else if eq(l, "light_cyan") {
        Some(Color::LightCyan)
    } else if eq(l, "white") {
        Some(Color::White)
    } else {
        None
    }
}

/// Text without ESC characters becomes one span of plain text.
pub proof fn law_plain_text_is_one_span(s: Seq<char>)
    requires
        s.len() > 0,
        forall|k: int| 0 <= k < s.len() ==> s[k] != '\x1b',
    ensures
        spec_ansi_to_line(s) == seq![(s, plain_style())],
{
    assert forall|i: int| 0 <= i <= s.len() implies ansi_scan(s, plain_style(), 0, i) == flush(s, 0, s.len() as int, plain_style()) by {
        lemma_scan_plain(s, i);
    }
    assert(s.subrange(0, s.len() as int) =~= s);
}

proof fn lemma_scan_plain(s: Seq<char>, i: int)
    requires
        0 <= i <= s.len(),
        forall|k: int| 0 <= k < s.len() ==> s[k] != '\x1b',
    ensures
        ansi_scan(s, plain_style(), 0, i) == flush(s, 0, s.len() as int, plain_style()),
    decreases s.len() - i,
{
    if i < s.len() {
        lemma_scan_plain(s, i + 1);
    }
}

/// The colour codes: 30-37 set the foreground and 40-47 the background to
/// the standard colour of the same index (black, red, green, yellow, blue,
/// magenta, cyan, white shown as gray); 90-97 set the foreground and
/// 100-107 the background to the bright colour of that index (dark gray,
/// light red, light green, light yellow, light blue, light magenta, light
/// cyan, white).  Each changes only that one colour of the style.
pub proof fn law_sgr_colors(st: TextStyle, k: u32)
    requires
        k < 8,
    ensures
        ({
            let basic = seq![
                Color::Black, Color::Red, Color::Green, Color::Yellow,
                Color::Blue, Color::Magenta, Color::Cyan, Color::Gray,
            ];
            let bright = seq![
                Color::DarkGray, Color::LightRed, Color::LightGreen, Color::LightYellow,
                Color::LightBlue, Color::LightMagenta, Color::LightCyan, Color::White,
            ];
            &&& sgr_one(st, (30 + k) as u32) == (TextStyle { fg: Some(basic[k as int]), ..st })
            &&& sgr_one(st, (40 + k) as u32) == (TextStyle { bg: Some(basic[k as int]), ..st })
            &&& sgr_one(st, (90 + k) as u32) == (TextStyle { fg: Some(bright[k as int]), ..st })
            &&& sgr_one(st, (100 + k) as u32) == (TextStyle { bg: Some(bright[k as int]), ..st })
        }),
{
}

/// An SGR sequence with no parameters, or with the single code 0, resets
/// the style.
pub proof fn law_sgr_reset(st: TextStyle)
    ensures
        spec_apply_sgr(st, Seq::<char>::empty()) == plain_style(),
        spec_apply_sgr(st, seq!['0']) == plain_style(),
{
    let p = seq!['0'];
    assert(find_char(p.drop_first(), ';') is None);
    assert(find_char(p, ';') is None);
    assert(split_on(p, ';') == seq![p]);
    assert(trim(p) == p) by {
        reveal_with_fuel(crate::text::trim_start, 2);
        reveal_with_fuel(crate::text::trim_end, 2);
        assert(p.drop_first() =~= Seq::<char>::empty());
        assert(p.drop_last() =~= Seq::<char>::empty());
    }
    assert(p.drop_first() =~= Seq::<char>::empty());
    assert(all_digits(p));
    assert(p.drop_last() =~= Seq::<char>::empty());
    assert(p.last() == '0');
    assert(digits_value(p) == 0) by {
        reveal_with_fuel(digits_value, 2);
    }
    assert(parse_u32(p) == Some(0u32));
    assert(seq![p].drop_first() =~= Seq::<Seq<char>>::empty());
    assert(piece_codes(seq![p]) =~= seq![0u32]) by {
        reveal_with_fuel(piece_codes, 2);
        assert(seq![0u32] + Seq::<u32>::empty() =~= seq![0u32]);
    }
    assert(sgr_codes(p) =~= seq![0u32]);
    let codes = seq![0u32];
    assert(sgr_from(st, codes, 0) == sgr_from(sgr_one(st, 0), codes, 1));
    assert(sgr_from(plain_style(), codes, 1) == plain_style());
}

} // verus!
