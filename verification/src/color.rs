//! The terminal color model: named ANSI colors, 256-palette indices and
//! 24-bit RGB triples, with rendering to ANSI escape sequences, parsing
//! from human-friendly text, and a canonical textual form.

use vstd::prelude::*;

verus! {

/// How color output is decided: chosen automatically, always on, or off.
pub enum ColorMode {
    Auto,
    Always,
    Off,
}

/// A terminal color: one of the 16 named ANSI colors, the `Reset` sentinel
/// that restores the terminal default, an 8-bit palette index, or a 24-bit
/// RGB triple. Exactly one variant is active per value; equality and copy
/// are by value.
#[derive(Debug, Copy, Clone, Eq, PartialEq, Structural)]
pub enum Color {
    Black,
    Red,
    Green,
    Yellow,
    Blue,
    Magenta,
    Cyan,
    White,
    BrightBlack,
    BrightRed,
    BrightGreen,
    BrightYellow,
    BrightBlue,
    BrightMagenta,
    BrightCyan,
    BrightWhite,
    Reset,
    Color256(u8),
    TrueColor(u8, u8, u8),
}

/// The character for the digit value `d`, for `d < 16`: `'0'..'9'` then
/// lowercase `'a'..'f'`.
pub open spec fn digit_char(d: nat) -> char {
    if d == 0 {
        '0'
    } else if d == 1 {
        '1'
    } else if d == 2 {
        '2'
    } else if d == 3 {
        '3'
    } else if d == 4 {
        '4'
    } else if d == 5 {
        '5'
    } else if d == 6 {
        '6'
    } else if d == 7 {
        '7'
    } else if d == 8 {
        '8'
    } else if d == 9 {
        '9'
    } else if d == 10 {
        'a'
    } else if d == 11 {
        'b'
    } else if d == 12 {
        'c'
    } else if d == 13 {
        'd'
    } else if d == 14 {
        'e'
    } else {
        'f'
    }
}

/// The decimal digits of `n`, without leading zeros, for `n < 1000`.
pub open spec fn dec_digits(n: nat) -> Seq<char> {
    if n < 10 {
        seq![digit_char(n)]
    } else if n < 100 {
        seq![digit_char(n / 10), digit_char(n % 10)]
    } else {
        seq![digit_char(n / 100), digit_char((n / 10) % 10), digit_char(n % 10)]
    }
}

/// The lowercase hexadecimal digits of `n`, without leading zeros.
pub open spec fn hex_digits(n: nat) -> Seq<char>
    decreases n,
{
    if n < 16 {
        seq![digit_char(n)]
    } else {
        hex_digits(n / 16) + seq![digit_char(n % 16)]
    }
}

/// The SGR parameter text selecting this color as a foreground: `30`-`37`
/// for the standard named colors, `90`-`97` for the bright ones, the
/// combined foreground+background reset `39;49` for `Reset`, `38;5;<n>`
/// for a palette index and `38;2;<r>;<g>;<b>` for an RGB triple.
pub open spec fn spec_fg_code(c: Color) -> Seq<char> {
    match c {
        Color::Black => "30"@,
        Color::Red => "31"@,
        Color::Green => "32"@,
        Color::Yellow => "33"@,
        Color::Blue => "34"@,
        Color::Magenta => "35"@,
        Color::Cyan => "36"@,
        Color::White => "37"@,
        Color::BrightBlack => "90"@,
        Color::BrightRed => "91"@,
        Color::BrightGreen => "92"@,
        Color::BrightYellow => "93"@,
        Color::BrightBlue => "94"@,
        Color::BrightMagenta => "95"@,
        Color::BrightCyan => "96"@,
        Color::BrightWhite => "97"@,
        Color::Reset => "39;49"@,
        Color::Color256(n) => "38;5;"@ + dec_digits(n as nat),
        Color::TrueColor(r, g, b) => "38;2;"@ + dec_digits(r as nat) + ";"@ + dec_digits(
            g as nat,
        ) + ";"@ + dec_digits(b as nat),
    }
}

/// The SGR parameter text selecting this color as a background: `40`-`47`
/// and `100`-`107` for the named colors, `39;49` for `Reset`, `48;5;<n>`
/// and `48;2;<r>;<g>;<b>` for palette and RGB colors.
pub open spec fn spec_bg_code(c: Color) -> Seq<char> {
    match c {
        Color::Black => "40"@,
        Color::Red => "41"@,
        Color::Green => "42"@,
        Color::Yellow => "43"@,
        Color::Blue => "44"@,
        Color::Magenta => "45"@,
        Color::Cyan => "46"@,
        Color::White => "47"@,
        Color::BrightBlack => "100"@,
        Color::BrightRed => "101"@,
        Color::BrightGreen => "102"@,
        Color::BrightYellow => "103"@,
        Color::BrightBlue => "104"@,
        Color::BrightMagenta => "105"@,
        Color::BrightCyan => "106"@,
        Color::BrightWhite => "107"@,
        Color::Reset => "39;49"@,
        Color::Color256(n) => "48;5;"@ + dec_digits(n as nat),
        Color::TrueColor(r, g, b) => "48;2;"@ + dec_digits(r as nat) + ";"@ + dec_digits(
            g as nat,
        ) + ";"@ + dec_digits(b as nat),
    }
}

/// The full ANSI escape sequence `ESC [ <code> m` setting the foreground.
pub open spec fn spec_fg(c: Color) -> Seq<char> {
    "\u{1b}["@ + spec_fg_code(c) + "m"@
}

/// The full ANSI escape sequence `ESC [ <code> m` setting the background.
pub open spec fn spec_bg(c: Color) -> Seq<char> {
    "\u{1b}["@ + spec_bg_code(c) + "m"@
}

/// `c` with an ASCII uppercase letter replaced by its lowercase form;
/// every other character is left as it is.
pub open spec fn lower_char(c: char) -> char {
    if 65 <= c as u32 && c as u32 <= 90 {
        (((c as u32) + 32) as u8) as char
    } else {
        c
    }
}

/// `s` with every ASCII uppercase letter replaced by its lowercase form.
pub open spec fn lower(s: Seq<char>) -> Seq<char> {
    s.map_values(|c: char| lower_char(c))
}

/// The color a recognized literal name denotes, or `None`. The recognized
/// names are the snake_case names of the 16 named colors and `reset`,
/// together with the aliases `purple` (magenta), `gray`/`grey` (white)
/// and `bright <space>` forms of the `bright_` names.
pub open spec fn name_color(s: Seq<char>) -> Option<Color> {
    if s == "black"@ {
        Some(Color::Black)
    } else if s == "red"@ {
        Some(Color::Red)
    } else if s == "green"@ {
        Some(Color::Green)
    } else if s == "yellow"@ {
        Some(Color::Yellow)
    } else if s == "blue"@ {
        Some(Color::Blue)
    } else if s == "magenta"@ || s == "purple"@ {
        Some(Color::Magenta)
    } else if s == "cyan"@ {
        Some(Color::Cyan)
    } else if s == "gray"@ || s == "grey"@ || s == "white"@ {
        Some(Color::White)
    } else if s == "bright_black"@ || s == "bright black"@ {
        Some(Color::BrightBlack)
    } else if s == "bright_red"@ || s == "bright red"@ {
        Some(Color::BrightRed)
    } else if s == "bright_green"@ || s == "bright green"@ {
        Some(Color::BrightGreen)
    } else if s == "bright_yellow"@ || s == "bright yellow"@ {
        Some(Color::BrightYellow)
    } else if s == "bright_blue"@ || s == "bright blue"@ {
        Some(Color::BrightBlue)
    } else if s == "bright_magenta"@ || s == "bright magenta"@ {
        Some(Color::BrightMagenta)
    } else if s == "bright_cyan"@ || s == "bright cyan"@ {
        Some(Color::BrightCyan)
    } else if s == "bright_white"@ || s == "bright white"@ {
        Some(Color::BrightWhite)
    } else if s == "reset"@ {
        Some(Color::Reset)
    } else {
        None
    }
}

/// Whether `c` is an ASCII decimal digit.
pub open spec fn is_dec_digit(c: char) -> bool {
    48 <= c as u32 && c as u32 <= 57
}

/// Whether `c` is a lowercase ASCII hexadecimal digit.
pub open spec fn is_hex_digit(c: char) -> bool {
    is_dec_digit(c) || (97 <= c as u32 && c as u32 <= 102)
}

/// The numeric value of the hexadecimal digit `c` (decimal digits
/// included).
pub open spec fn hex_val_char(c: char) -> nat {
    if is_dec_digit(c) {
        (c as u32 - 48) as nat
    } else {
        (c as u32 - 87) as nat
    }
}

/// The number the decimal digit string `s` denotes.
pub open spec fn dec_val(s: Seq<char>) -> nat
    decreases s.len(),
{
    if s.len() == 0 {
        0
    } else {
        dec_val(s.drop_last()) * 10 + hex_val_char(s.last())
    }
}

/// The number the hexadecimal digit string `s` denotes.
pub open spec fn hex_val(s: Seq<char>) -> nat
    decreases s.len(),
{
    if s.len() == 0 {
        0
    } else {
        hex_val(s.drop_last()) * 16 + hex_val_char(s.last())
    }
}

/// Whether `s` is a decimal numeral denoting an 8-bit value.
pub open spec fn is_dec_u8(s: Seq<char>) -> bool {
    &&& s.len() > 0
    &&& forall|i: int| 0 <= i < s.len() ==> is_dec_digit(s[i])
    &&& dec_val(s) <= 255
}

/// Whether `s` is a (lowercase) hexadecimal numeral denoting a 24-bit
/// value.
pub open spec fn is_hex_u24(s: Seq<char>) -> bool {
    &&& s.len() > 0
    &&& forall|i: int| 0 <= i < s.len() ==> is_hex_digit(s[i])
    &&& hex_val(s) < 0x1000000
}

/// `s` without one optional leading `#`.
pub open spec fn strip_hash(s: Seq<char>) -> Seq<char> {
    if s.len() > 0 && s[0] == '#' {
        s.drop_first()
    } else {
        s
    }
}

/// The RGB color denoted by the 24-bit value `m`: the low-order byte is
/// red, the middle byte green, the high byte blue.
pub open spec fn rgb_of(m: nat) -> Color {
    Color::TrueColor((m % 256) as u8, ((m / 256) % 256) as u8, ((m / 65536) % 256) as u8)
}

/// What parsing the text `s` yields: after lowercasing, a literal color
/// name if one matches; otherwise an 8-bit decimal numeral as a palette
/// index; otherwise, after stripping one optional leading `#`, a 24-bit
/// hexadecimal numeral as an RGB triple; otherwise nothing.
pub open spec fn spec_parse(s: Seq<char>) -> Option<Color> {
    let l = lower(s);
    if name_color(l) is Some {
        name_color(l)
    } else if is_dec_u8(l) {
        Some(Color::Color256(dec_val(l) as u8))
    } else if is_hex_u24(strip_hash(l)) {
        Some(rgb_of(hex_val(strip_hash(l))))
    } else {
        None
    }
}

/// The message `parse` reports for an unrecognized input `s`.
pub open spec fn parse_err_msg(s: Seq<char>) -> Seq<char> {
    "'"@ + s + "' is not a valid color"@
}

/// The canonical textual form of a color: the snake_case name of a named
/// color, `reset` for `Reset`, the decimal digits of a palette index, and
/// `#` followed by lowercase hexadecimal digits for an RGB triple, with
/// the red component in the low-order byte.
pub open spec fn spec_to_text(c: Color) -> Seq<char> {
    match c {
        Color::Black => "black"@,
        Color::Red => "red"@,
        Color::Green => "green"@,
        Color::Yellow => "yellow"@,
        Color::Blue => "blue"@,
        Color::Magenta => "magenta"@,
        Color::Cyan => "cyan"@,
        Color::White => "white"@,
        Color::BrightBlack => "bright_black"@,
        Color::BrightRed => "bright_red"@,
        Color::BrightGreen => "bright_green"@,
        Color::BrightYellow => "bright_yellow"@,
        Color::BrightBlue => "bright_blue"@,
        Color::BrightMagenta => "bright_magenta"@,
        Color::BrightCyan => "bright_cyan"@,
        Color::BrightWhite => "bright_white"@,
        Color::Reset => "reset"@,
        Color::Color256(n) => dec_digits(n as nat),
        Color::TrueColor(r, g, b) => "#"@ + hex_digits(
            r as nat + 256 * (g as nat) + 65536 * (b as nat),
        ),
    }
}

/// A one-character string slice for the digit value `d < 16`.
fn digit_str(d: u8) -> (r: &'static str)
    requires
        d < 16,
    ensures
        r@ == seq![digit_char(d as nat)],
{
    proof {
        reveal_strlit("0");
        reveal_strlit("1");
        reveal_strlit("2");
        reveal_strlit("3");
        reveal_strlit("4");
        reveal_strlit("5");
        reveal_strlit("6");
        reveal_strlit("7");
        reveal_strlit("8");
        reveal_strlit("9");
        reveal_strlit("a");
        reveal_strlit("b");
        reveal_strlit("c");
        reveal_strlit("d");
        reveal_strlit("e");
        reveal_strlit("f");
    }
    let r: &'static str = match d {
        0 => "0",
        1 => "1",
        2 => "2",
        3 => "3",
        4 => "4",
        5 => "5",
        6 => "6",
        7 => "7",
        8 => "8",
        9 => "9",
        10 => "a",
        11 => "b",
        12 => "c",
        13 => "d",
        14 => "e",
        _ => "f",
    };
    proof {
        assert(r@ =~= seq![digit_char(d as nat)]);
    }
    r
}

/// The decimal digits of `n` as a string, without leading zeros.
fn dec_str(n: u8) -> (r: String)
    ensures
        r@ == dec_digits(n as nat),
{
    let mut r = String::new();
    if n >= 100 {
        r.append(digit_str(n / 100));
    }
    if n >= 10 {
        r.append(digit_str((n / 10) % 10));
    }
    r.append(digit_str(n % 10));
    proof {
        assert(r@ =~= dec_digits(n as nat));
    }
    r
}

/// The lowercase hexadecimal digits of `n` as a string, without leading
/// zeros.
fn hex_str(n: u32) -> (r: String)
    ensures
        r@ == hex_digits(n as nat),
    decreases n,
{
    if n < 16 {
        let mut r = String::new();
        r.append(digit_str(n as u8));
        proof {
            assert(r@ =~= hex_digits(n as nat));
        }
        r
    } else {
        let mut r = hex_str(n / 16);
        r.append(digit_str((n % 16) as u8));
        proof {
            assert(r@ =~= hex_digits(n as nat));
        }
        r
    }
}

impl Color {
    /// The SGR parameter text for this color as a foreground.
    pub fn as_fg_str(&self) -> (r: String)
        ensures
            r@ == spec_fg_code(*self),
    {
        match *self {
            Color::Black => String::from_str("30"),
            Color::Red => String::from_str("31"),
            Color::Green => String::from_str("32"),
            Color::Yellow => String::from_str("33"),
            Color::Blue => String::from_str("34"),
            Color::Magenta => String::from_str("35"),
            Color::Cyan => String::from_str("36"),
            Color::White => String::from_str("37"),
            Color::BrightBlack => String::from_str("90"),
            Color::BrightRed => String::from_str("91"),
            Color::BrightGreen => String::from_str("92"),
            Color::BrightYellow => String::from_str("93"),
            Color::BrightBlue => String::from_str("94"),
            Color::BrightMagenta => String::from_str("95"),
            Color::BrightCyan => String::from_str("96"),
            Color::BrightWhite => String::from_str("97"),
            Color::Reset => String::from_str("39;49"),
            Color::Color256(n) => {
                let mut s = String::from_str("38;5;");
                let d = dec_str(n);
                s.append(d.as_str());
                s
            },
            Color::TrueColor(r0, g0, b0) => {
                let mut s = String::from_str("38;2;");
                let dr = dec_str(r0);
                s.append(dr.as_str());
                s.append(";");
                let dg = dec_str(g0);
                s.append(dg.as_str());
                s.append(";");
                let db = dec_str(b0);
                s.append(db.as_str());
                s
            },
        }
    }

    /// The SGR parameter text for this color as a background.
    pub fn as_bg_str(&self) -> (r: String)
        ensures
            r@ == spec_bg_code(*self),
    {
        match *self {
            Color::Black => String::from_str("40"),
            Color::Red => String::from_str("41"),
            Color::Green => String::from_str("42"),
            Color::Yellow => String::from_str("43"),
            Color::Blue => String::from_str("44"),
            Color::Magenta => String::from_str("45"),
            Color::Cyan => String::from_str("46"),
            Color::White => String::from_str("47"),
            Color::BrightBlack => String::from_str("100"),
            Color::BrightRed => String::from_str("101"),
            Color::BrightGreen => String::from_str("102"),
            Color::BrightYellow => String::from_str("103"),
            Color::BrightBlue => String::from_str("104"),
            Color::BrightMagenta => String::from_str("105"),
            Color::BrightCyan => String::from_str("106"),
            Color::BrightWhite => String::from_str("107"),
            Color::Reset => String::from_str("39;49"),
            Color::Color256(n) => {
                let mut s = String::from_str("48;5;");
                let d = dec_str(n);
                s.append(d.as_str());
                s
            },
            Color::TrueColor(r0, g0, b0) => {
                let mut s = String::from_str("48;2;");
                let dr = dec_str(r0);
                s.append(dr.as_str());
                s.append(";");
                let dg = dec_str(g0);
                s.append(dg.as_str());
                s.append(";");
                let db = dec_str(b0);
                s.append(db.as_str());
                s
            },
        }
    }

    /// The ANSI escape sequence setting the foreground to this color.
    pub fn fg(&self) -> (r: String)
        ensures
            r@ == spec_fg(*self),
    {
        let mut r = String::from_str("\u{1b}[");
        let code = self.as_fg_str();
        r.append(code.as_str());
        r.append("m");
        r
    }

    /// The ANSI escape sequence setting the background to this color.
    pub fn bg(&self) -> (r: String)
        ensures
            r@ == spec_bg(*self),
    {
        let mut r = String::from_str("\u{1b}[");
        let code = self.as_bg_str();
        r.append(code.as_str());
        r.append("m");
        r
    }
}

/// The characters of `s`, lowercased as `lower` describes.
fn lower_chars(s: &str) -> (v: Vec<char>)
    ensures
        v@ == lower(s@),
{
    let n = s.unicode_len();
    let mut v: Vec<char> = Vec::new();
    let mut i: usize = 0;
    while i < n
        invariant
            n == s@.len(),
            i <= n,
            v@ == lower(s@).subrange(0, i as int),
        decreases n - i,
    {
        let c = s.get_char(i);
        let u = c as u32;
        let lc: char = if 65 <= u && u <= 90 {
            ((u + 32) as u8) as char
        } else {
            c
        };
        assert(lc == lower_char(s@[i as int]));
        v.push(lc);
        i = i + 1;
        proof {
            assert(v@ =~= lower(s@).subrange(0, i as int));
        }
    }
    proof {
        assert(v@ =~= lower(s@));
    }
    v
}

/// Whether the characters in `v` are exactly the text `lit`.
fn chars_eq(v: &Vec<char>, lit: &str) -> (r: bool)
    ensures
        r == (v@ == lit@),
{
    let n = lit.unicode_len();
    if v.len() != n {
        return false;
    }
    let mut i: usize = 0;
    while i < n
        invariant
            n == lit@.len(),
            v@.len() == n,
            i <= n,
            forall|j: int| 0 <= j < i ==> v@[j] == lit@[j],
        decreases n - i,
    {
        if v[i] != lit.get_char(i) {
            return false;
        }
        i = i + 1;
    }
    proof {
        assert(v@ =~= lit@);
    }
    true
}

/// The color named by the lowercased characters `v`, as `name_color`
/// describes.
fn match_name(v: &Vec<char>) -> (r: Option<Color>)
    ensures
        r == name_color(v@),
{
    if chars_eq(v, "black") {
        Some(Color::Black)
    } else if chars_eq(v, "red") {
        Some(Color::Red)
    } else if chars_eq(v, "green") {
        Some(Color::Green)
    } else if chars_eq(v, "yellow") {
        Some(Color::Yellow)
    } else if chars_eq(v, "blue") {
        Some(Color::Blue)
    } else if chars_eq(v, "magenta") || chars_eq(v, "purple") {
        Some(Color::Magenta)
    } else if chars_eq(v, "cyan") {
        Some(Color::Cyan)
    } else if chars_eq(v, "gray") || chars_eq(v, "grey") || chars_eq(v, "white") {
        Some(Color::White)
    } else if chars_eq(v, "bright_black") || chars_eq(v, "bright black") {
        Some(Color::BrightBlack)
    } else if chars_eq(v, "bright_red") || chars_eq(v, "bright red") {
        Some(Color::BrightRed)
    } else if chars_eq(v, "bright_green") || chars_eq(v, "bright green") {
        Some(Color::BrightGreen)
    } else if chars_eq(v, "bright_yellow") || chars_eq(v, "bright yellow") {
        Some(Color::BrightYellow)
    } else if chars_eq(v, "bright_blue") || chars_eq(v, "bright blue") {
        Some(Color::BrightBlue)
    } else if chars_eq(v, "bright_magenta") || chars_eq(v, "bright magenta") {
        Some(Color::BrightMagenta)
    } else if chars_eq(v, "bright_cyan") || chars_eq(v, "bright cyan") {
        Some(Color::BrightCyan)
    } else if chars_eq(v, "bright_white") || chars_eq(v, "bright white") {
        Some(Color::BrightWhite)
    } else if chars_eq(v, "reset") {
        Some(Color::Reset)
    } else {
        None
    }
}

/// A prefix of a numeral never denotes more than the whole numeral.
proof fn lemma_val_prefix_le(s: Seq<char>, k: int)
    requires
        0 <= k <= s.len(),
    ensures
        dec_val(s.subrange(0, k)) <= dec_val(s),
        hex_val(s.subrange(0, k)) <= hex_val(s),
    decreases s.len() - k,
{
    if k < s.len() {
        lemma_val_prefix_le(s, k + 1);
        assert(s.subrange(0, k + 1).drop_last() =~= s.subrange(0, k));
        assert(dec_val(s.subrange(0, k + 1)) == dec_val(s.subrange(0, k)) * 10 + hex_val_char(
            s.subrange(0, k + 1).last(),
        ));
    } else {
        assert(s.subrange(0, k) =~= s);
    }
}

/// The 8-bit value of the decimal numeral `v`, or `None` where `v` is
/// not one.
fn parse_dec(v: &Vec<char>) -> (r: Option<u8>)
    ensures
        is_dec_u8(v@) ==> r == Some(dec_val(v@) as u8),
        !is_dec_u8(v@) ==> r is None,
{
    if v.len() == 0 {
        return None;
    }
    let n = v.len();
    let mut acc: u32 = 0;
    let mut i: usize = 0;
    while i < n
        invariant
            n == v@.len(),
            i <= n,
            acc == dec_val(v@.subrange(0, i as int)),
            acc <= 255,
            forall|j: int| 0 <= j < i ==> is_dec_digit(v@[j]),
        decreases n - i,
    {
        let c = v[i];
        let u = c as u32;
        if !(48 <= u && u <= 57) {
            assert(!is_dec_digit(v@[i as int]));
            return None;
        }
        acc = acc * 10 + (u - 48);
        i = i + 1;
        proof {
            assert(v@.subrange(0, i as int).drop_last() =~= v@.subrange(0, i as int - 1));
            assert(acc == dec_val(v@.subrange(0, i as int)));
        }
        if acc > 255 {
            proof {
                lemma_val_prefix_le(v@, i as int);
            }
            assert(dec_val(v@) > 255);
            return None;
        }
    }
    proof {
        assert(v@.subrange(0, n as int) =~= v@);
    }
    Some(acc as u8)
}

/// The 24-bit value of the hexadecimal numeral in `v` from position
/// `from` on, or `None` where those characters are not one.
fn parse_hex(v: &Vec<char>, from: usize) -> (r: Option<u32>)
    requires
        from <= v@.len(),
    ensures
        is_hex_u24(v@.subrange(from as int, v@.len() as int)) ==> r == Some(
            hex_val(v@.subrange(from as int, v@.len() as int)) as u32,
        ),
        !is_hex_u24(v@.subrange(from as int, v@.len() as int)) ==> r is None,
{
    let ghost sub = v@.subrange(from as int, v@.len() as int);
    let n = v.len();
    if from == n {
        return None;
    }
    let mut acc: u32 = 0;
    let mut i: usize = from;
    while i < n
        invariant
            n == v@.len(),
            from <= i <= n,
            sub == v@.subrange(from as int, n as int),
            acc == hex_val(v@.subrange(from as int, i as int)),
            acc < 0x1000000,
            forall|j: int| from <= j < i ==> is_hex_digit(v@[j]),
        decreases n - i,
    {
        let c = v[i];
        let u = c as u32;
        let d: u32 = if 48 <= u && u <= 57 {
            u - 48
        } else if 97 <= u && u <= 102 {
            u - 87
        } else {
            assert(!is_hex_digit(v@[i as int]));
            assert(sub[i - from] == v@[i as int]);
            assert(!is_hex_u24(sub));
            return None;
        };
        assert(is_hex_digit(v@[i as int]) && d == hex_val_char(v@[i as int]));
        acc = acc * 16 + d;
        i = i + 1;
        proof {
            assert(v@.subrange(from as int, i as int).drop_last() =~= v@.subrange(
                from as int,
                i as int - 1,
            ));
            assert(acc == hex_val(v@.subrange(from as int, i as int)));
        }
        if acc >= 0x1000000 {
            proof {
                assert(v@.subrange(from as int, i as int) =~= sub.subrange(0, i - from));
                lemma_val_prefix_le(sub, i - from);
            }
            assert(hex_val(sub) >= 0x1000000);
            return None;
        }
    }
    proof {
        assert(v@.subrange(from as int, n as int) =~= sub);
    }
    Some(acc)
}

impl Color {
    /// Parses a color from text, case-insensitively: a literal color
    /// name, an 8-bit decimal palette index, or a 24-bit hexadecimal RGB
    /// value with an optional leading `#`, as `spec_parse` describes.
    /// Anything else is reported as not a valid color.
    pub fn parse(s: &str) -> (r: Result<Color, String>)
        ensures
            spec_parse(s@) is Some ==> r == Ok::<Color, String>(spec_parse(s@)->0),
            spec_parse(s@) is None ==> r is Err && r->Err_0@ == parse_err_msg(s@),
    {
        let lowered = lower_chars(s);
        if let Some(c) = match_name(&lowered) {
            return Ok(c);
        }
        if let Some(n) = parse_dec(&lowered) {
            return Ok(Color::Color256(n));
        }
        let from: usize = if lowered.len() > 0 && lowered[0] == '#' {
            1
        } else {
            0
        };
        proof {
            assert(lowered@.subrange(from as int, lowered@.len() as int) =~= strip_hash(
                lower(s@),
            ));
        }
        if let Some(m) = parse_hex(&lowered, from) {
            let r0 = (m % 256) as u8;
            let g0 = ((m / 256) % 256) as u8;
            let b0 = ((m / 65536) % 256) as u8;
            return Ok(Color::TrueColor(r0, g0, b0));
        }
        let mut msg = String::from_str("'");
        msg.append(s);
        msg.append("' is not a valid color");
        Err(msg)
    }

    /// The canonical textual form of this color, as `spec_to_text`
    /// describes; `parse` maps it back to the same color.
    pub fn to_text(&self) -> (r: String)
        ensures
            r@ == spec_to_text(*self),
    {
        match *self {
            Color::Black => String::from_str("black"),
            Color::Red => String::from_str("red"),
            Color::Green => String::from_str("green"),
            Color::Yellow => String::from_str("yellow"),
            Color::Blue => String::from_str("blue"),
            Color::Magenta => String::from_str("magenta"),
            Color::Cyan => String::from_str("cyan"),
            Color::White => String::from_str("white"),
            Color::BrightBlack => String::from_str("bright_black"),
            Color::BrightRed => String::from_str("bright_red"),
            Color::BrightGreen => String::from_str("bright_green"),
            Color::BrightYellow => String::from_str("bright_yellow"),
            Color::BrightBlue => String::from_str("bright_blue"),
            Color::BrightMagenta => String::from_str("bright_magenta"),
            Color::BrightCyan => String::from_str("bright_cyan"),
            Color::BrightWhite => String::from_str("bright_white"),
            Color::Reset => String::from_str("reset"),
            Color::Color256(n) => dec_str(n),
            Color::TrueColor(r0, g0, b0) => {
                let mut s = String::from_str("#");
                let m: u32 = r0 as u32 + 256 * (g0 as u32) + 65536 * (b0 as u32);
                let h = hex_str(m);
                s.append(h.as_str());
                s
            },
        }
    }
}

/// The character for a digit value below 16 is a digit character: it is
/// its own lowercase form, it is not an uppercase letter or a `#`, and it
/// denotes the value it was made from.
proof fn lemma_digit_char_props(d: nat)
    requires
        d < 16,
    ensures
        is_hex_digit(digit_char(d)),
        hex_val_char(digit_char(d)) == d,
        lower_char(digit_char(d)) == digit_char(d),
        d < 10 ==> is_dec_digit(digit_char(d)),
        d < 10 ==> (digit_char(d) as u32) < 97,
        d >= 10 ==> 97 <= digit_char(d) as u32 && (digit_char(d) as u32) <= 102,
{
}

/// No recognized color name starts with a character below `'a'`, so text
/// that starts with a digit or a `#` names no color.
proof fn lemma_name_color_none(s: Seq<char>)
    requires
        (s.len() == 0 || (s[0] as u32) < 97),
    ensures
        name_color(s) is None,
{
    reveal_strlit("black");
    reveal_strlit("red");
    reveal_strlit("green");
    reveal_strlit("yellow");
    reveal_strlit("blue");
    reveal_strlit("magenta");
    reveal_strlit("purple");
    reveal_strlit("cyan");
    reveal_strlit("gray");
    reveal_strlit("grey");
    reveal_strlit("white");
    reveal_strlit("bright_black");
    reveal_strlit("bright black");
    reveal_strlit("bright_red");
    reveal_strlit("bright red");
    reveal_strlit("bright_green");
    reveal_strlit("bright green");
    reveal_strlit("bright_yellow");
    reveal_strlit("bright yellow");
    reveal_strlit("bright_blue");
    reveal_strlit("bright blue");
    reveal_strlit("bright_magenta");
    reveal_strlit("bright magenta");
    reveal_strlit("bright_cyan");
    reveal_strlit("bright cyan");
    reveal_strlit("bright_white");
    reveal_strlit("bright white");
    reveal_strlit("reset");
}

/// The decimal digits of an 8-bit value form a nonempty decimal numeral
/// that denotes the value back, is already lowercase, and starts below
/// `'a'`.
proof fn lemma_dec_digits_props(n: nat)
    requires
        n < 256,
    ensures
        dec_digits(n).len() > 0,
        forall|i: int| 0 <= i < dec_digits(n).len() ==> is_dec_digit(#[trigger] dec_digits(n)[i]),
        forall|i: int|
            0 <= i < dec_digits(n).len() ==> lower_char(#[trigger] dec_digits(n)[i])
                == dec_digits(n)[i],
        dec_val(dec_digits(n)) == n,
        (dec_digits(n)[0] as u32) < 97,
{
    assert(dec_val(Seq::<char>::empty()) == 0);
    if n < 10 {
        lemma_digit_char_props(n);
        assert(dec_digits(n) =~= seq![digit_char(n)]);
        assert(dec_digits(n).drop_last() =~= Seq::<char>::empty());
        assert(dec_val(dec_digits(n)) == n);
    } else if n < 100 {
        lemma_digit_char_props(n / 10);
        lemma_digit_char_props(n % 10);
        let s = dec_digits(n);
        assert(s.drop_last() =~= seq![digit_char(n / 10)]);
        assert(s.drop_last().drop_last() =~= Seq::<char>::empty());
        assert(dec_val(s.drop_last()) == n / 10);
        assert(dec_val(s) == (n / 10) * 10 + n % 10);
        assert((n / 10) * 10 + n % 10 == n);
    } else {
        lemma_digit_char_props(n / 100);
        lemma_digit_char_props((n / 10) % 10);
        lemma_digit_char_props(n % 10);
        let s = dec_digits(n);
        assert(s.drop_last() =~= seq![digit_char(n / 100), digit_char((n / 10) % 10)]);
        assert(s.drop_last().drop_last() =~= seq![digit_char(n / 100)]);
        assert(s.drop_last().drop_last().drop_last() =~= Seq::<char>::empty());
        assert(dec_val(s.drop_last().drop_last()) == n / 100);
        assert(dec_val(s.drop_last()) == (n / 100) * 10 + (n / 10) % 10);
        assert((n / 100) * 10 + (n / 10) % 10 == n / 10);
        assert(dec_val(s) == (n / 10) * 10 + n % 10);
        assert((n / 10) * 10 + n % 10 == n);
    }
}

/// The hexadecimal digits of a value form a nonempty lowercase numeral
/// that denotes the value back.
proof fn lemma_hex_digits_props(m: nat)
    ensures
        hex_digits(m).len() > 0,
        forall|i: int| 0 <= i < hex_digits(m).len() ==> is_hex_digit(#[trigger] hex_digits(m)[i]),
        forall|i: int|
            0 <= i < hex_digits(m).len() ==> lower_char(#[trigger] hex_digits(m)[i])
                == hex_digits(m)[i],
        hex_val(hex_digits(m)) == m,
    decreases m,
{
    assert(hex_val(Seq::<char>::empty()) == 0);
    if m < 16 {
        lemma_digit_char_props(m);
        assert(hex_digits(m).drop_last() =~= Seq::<char>::empty());
        assert(hex_val(hex_digits(m)) == m);
    } else {
        lemma_hex_digits_props(m / 16);
        lemma_digit_char_props(m % 16);
        let s = hex_digits(m);
        assert(s.drop_last() =~= hex_digits(m / 16));
        assert(s.last() == digit_char(m % 16));
        assert(hex_val(s) == (m / 16) * 16 + m % 16);
        assert((m / 16) * 16 + m % 16 == m);
    }
}

/// Round-trip law: parsing the canonical textual form of any color gives
/// that color back.
pub proof fn lemma_to_text_parse_roundtrip(c: Color)
    ensures
        spec_parse(spec_to_text(c)) == Some(c),
{
    reveal_strlit("black");
    reveal_strlit("red");
    reveal_strlit("green");
    reveal_strlit("yellow");
    reveal_strlit("blue");
    reveal_strlit("magenta");
    reveal_strlit("purple");
    reveal_strlit("cyan");
    reveal_strlit("gray");
    reveal_strlit("grey");
    reveal_strlit("white");
    reveal_strlit("bright_black");
    reveal_strlit("bright black");
    reveal_strlit("bright_red");
    reveal_strlit("bright red");
    reveal_strlit("bright_green");
    reveal_strlit("bright green");
    reveal_strlit("bright_yellow");
    reveal_strlit("bright yellow");
    reveal_strlit("bright_blue");
    reveal_strlit("bright blue");
    reveal_strlit("bright_magenta");
    reveal_strlit("bright magenta");
    reveal_strlit("bright_cyan");
    reveal_strlit("bright cyan");
    reveal_strlit("bright_white");
    reveal_strlit("bright white");
    reveal_strlit("reset");
    reveal_strlit("#");
    match c {
        Color::Color256(n) => {
            lemma_dec_digits_props(n as nat);
            let l = spec_to_text(c);
            assert(lower(l) =~= l);
            lemma_name_color_none(l);
            assert(is_dec_u8(l));
            assert(spec_parse(l) == Some(c));
        },
        Color::TrueColor(r0, g0, b0) => {
            let m = r0 as nat + 256 * (g0 as nat) + 65536 * (b0 as nat);
            lemma_hex_digits_props(m);
            let l = spec_to_text(c);
            let h = hex_digits(m);
            assert(l == "#"@ + h);
            assert(l[0] == '#');
            assert(l[0] as u32 == 35);
            assert(forall|i: int| 0 <= i < l.len() ==> lower_char(#[trigger] l[i]) == l[i]);
            assert(lower(l) =~= l);
            lemma_name_color_none(l);
            assert(!is_dec_digit(l[0]));
            assert(!is_dec_u8(l));
            assert(strip_hash(l) =~= h);
            assert(m < 0x1000000);
            assert(is_hex_u24(h));
            vstd::arithmetic::div_mod::lemma_fundamental_div_mod_converse(
                m as int,
                256,
                g0 as int + 256 * (b0 as int),
                r0 as int,
            );
            assert(m % 256 == r0 as int);
            assert(m / 256 == g0 as int + 256 * (b0 as int));
            vstd::arithmetic::div_mod::lemma_fundamental_div_mod_converse(
                g0 as int + 256 * (b0 as int),
                256,
                b0 as int,
                g0 as int,
            );
            assert((m / 256) % 256 == g0 as int);
            vstd::arithmetic::div_mod::lemma_div_denominator(m as int, 256, 256);
            assert(m / 65536 == (m / 256) / 256);
            assert((m / 65536) % 256 == b0 as int);
            assert(rgb_of(m) == c);
            assert(spec_parse(l) == Some(c));
        },
        _ => {
            let l = spec_to_text(c);
            assert(lower(l) =~= l);
            assert(name_color(l) == Some(c));
        },
    }
}

/// Text that can wrap itself in color escape sequences.
pub trait Colorize: Sized {
    /// What `with_fg` returns for this value and `color`.
    spec fn spec_with_fg(self, color: Color) -> Seq<char>;

    /// What `with_bg` returns for this value and `color`.
    spec fn spec_with_bg(self, color: Color) -> Seq<char>;

    /// This text wrapped in a foreground escape for `color`.
    fn with_fg(self, color: Color) -> (r: String)
        ensures
            r@ == self.spec_with_fg(color),
    ;

    /// This text wrapped in a background escape for `color`.
    fn with_bg(self, color: Color) -> (r: String)
        ensures
            r@ == self.spec_with_bg(color),
    ;
}

impl Colorize for &str {
    /// A string slice is framed by the color's escape and a trailing
    /// reset.
    open spec fn spec_with_fg(self, color: Color) -> Seq<char> {
        spec_fg(color) + self@ + spec_fg(Color::Reset)
    }

    open spec fn spec_with_bg(self, color: Color) -> Seq<char> {
        spec_bg(color) + self@ + spec_bg(Color::Reset)
    }

    fn with_fg(self, color: Color) -> (r: String) {
        let mut r = color.fg();
        r.append(self);
        let reset = Color::Reset.fg();
        r.append(reset.as_str());
        r
    }

    fn with_bg(self, color: Color) -> (r: String) {
        let mut r = color.bg();
        r.append(self);
        let reset = Color::Reset.bg();
        r.append(reset.as_str());
        r
    }
}

impl Colorize for String {
    /// An owned string is only prefixed with the color's escape.
    open spec fn spec_with_fg(self, color: Color) -> Seq<char> {
        spec_fg(color) + self@
    }

    open spec fn spec_with_bg(self, color: Color) -> Seq<char> {
        spec_bg(color) + self@
    }

    fn with_fg(self, color: Color) -> (r: String) {
        let mut r = color.fg();
        r.append(self.as_str());
        r
    }

    fn with_bg(self, color: Color) -> (r: String) {
        let mut r = color.bg();
        r.append(self.as_str());
        r
    }
}

} // verus!
