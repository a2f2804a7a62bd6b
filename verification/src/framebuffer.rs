use vstd::prelude::*;

verus! {

broadcast use vstd::string::axiom_spec_iter;

pub struct Framebuffer {
    pub width: u32,
    pub height: u32,
    /// Row-major `0x00RRGGBB` pixels, gamma already applied.
    pub pixels: Vec<u32>,
}

pub proof fn lemma_row_major_injective(x1: int, y1: int, x2: int, y2: int, w: int)
    requires
        0 <= x1 < w,
        0 <= x2 < w,
        y1 * w + x1 == y2 * w + x2,
    ensures
        x1 == x2,
        y1 == y2,
{
    if y1 > y2 {
        assert((y1 - y2) * w >= w) by (nonlinear_arith)
            requires
                y1 - y2 >= 1,
                w > 0,
        ;
        assert(y1 * w - y2 * w == (y1 - y2) * w) by (nonlinear_arith);
    } else if y1 < y2 {
        assert((y2 - y1) * w >= w) by (nonlinear_arith)
            requires
                y2 - y1 >= 1,
                w > 0,
        ;
        assert(y2 * w - y1 * w == (y2 - y1) * w) by (nonlinear_arith);
    }
}

pub proof fn lemma_row_major_bounds(x: int, y: int, w: int, h: int)
    requires
        0 <= x < w,
        0 <= y < h,
    ensures
        0 <= y * w + x < w * h,
        y * w + w <= w * h,
{
    assert(0 <= y * w) by (nonlinear_arith)
        requires
            0 <= y,
            0 <= w,
    ;
    assert(y * w + w <= w * h) by (nonlinear_arith)
        requires
            y + 1 <= h,
            0 <= w,
    ;
}

/// `q` is the quotient of `a` by the positive `s` exactly when `a` lies in
/// `[q * s, q * s + s)`.
proof fn lemma_quotient(a: int, s: int, q: int)
    requires
        s > 0,
        q * s <= a < q * s + s,
    ensures
        a / s == q,
        a % s == a - q * s,
{
    vstd::arithmetic::div_mod::lemma_fundamental_div_mod(a, s);
    let q2 = a / s;
    let r2 = a % s;
    assert(0 <= r2 < s);
    if q2 > q {
        assert(q2 * s >= q * s + s) by (nonlinear_arith)
            requires
                q2 >= q + 1,
                s > 0,
        ;
    } else if q2 < q {
        assert(q * s >= q2 * s + s) by (nonlinear_arith)
            requires
                q >= q2 + 1,
                s > 0,
        ;
    }
    assert(s * q2 == q2 * s) by (nonlinear_arith);
}

impl Framebuffer {
    /// The storage holds exactly `width * height` pixels.
    pub open spec fn wf(&self) -> bool {
        &&& self.pixels@.len() == self.width * self.height
        &&& self.width * self.height <= u32::MAX
    }

    /// The pixel at column `px`, row `py`.
    pub open spec fn pixel(&self, px: int, py: int) -> u32 {
        self.pixels@[py * self.width + px]
    }

    pub open spec fn in_frame(&self, px: int, py: int) -> bool {
        0 <= px < self.width && 0 <= py < self.height
    }

    /// A black `width x height` framebuffer.
    pub fn new(width: u32, height: u32) -> (fb: Self)
        requires
            width * height <= u32::MAX,
        ensures
            fb.wf(),
            fb.width == width,
            fb.height == height,
            forall|i: int| 0 <= i < fb.pixels@.len() ==> fb.pixels@[i] == 0,
    {
        Framebuffer { width, height, pixels: vec![0u32; (width * height) as usize] }
    }

    /// Writes the pixel at column `x`, row `y`.
    #[inline]
    pub fn set(&mut self, x: u32, y: u32, color: u32)
        requires
            old(self).wf(),
            x < old(self).width,
            y < old(self).height,
        ensures
            final(self).wf(),
            final(self).width == old(self).width,
            final(self).height == old(self).height,
            final(self).pixels@ == old(self).pixels@.update(y * old(self).width + x, color),
            forall|px: int, py: int|
                #![trigger final(self).pixel(px, py)]
                final(self).in_frame(px, py) ==> final(self).pixel(px, py) == if px == x && py == y {
                    color
                } else {
                    old(self).pixel(px, py)
                },
    {
        proof {
            lemma_row_major_bounds(x as int, y as int, self.width as int, self.height as int);
        }
        let idx = (y * self.width + x) as usize;
        self.pixels.set(idx, color);
        proof {
            assert forall|px: int, py: int| #![trigger self.pixel(px, py)] self.in_frame(px, py) implies self.pixel(px, py)
                == if px == x && py == y {
                color
            } else {
                old(self).pixel(px, py)
            } by {
                lemma_row_major_bounds(px, py, self.width as int, self.height as int);
                if py * self.width + px == idx {
                    lemma_row_major_injective(px, py, x as int, y as int, self.width as int);
                }
            }
        }
    }

    /// The pixel at column `x`, row `y`.
    #[inline]
    pub fn get(&self, x: u32, y: u32) -> (c: u32)
        requires
            self.wf(),
            x < self.width,
            y < self.height,
        ensures
            c == self.pixel(x as int, y as int),
    {
        proof {
            lemma_row_major_bounds(x as int, y as int, self.width as int, self.height as int);
        }
        self.pixels[(y * self.width + x) as usize]
    }

    /// Changes the size; every pixel becomes black.
    pub fn resize(&mut self, width: u32, height: u32)
        requires
            width * height <= u32::MAX,
        ensures
            final(self).wf(),
            final(self).width == width,
            final(self).height == height,
            forall|i: int| 0 <= i < final(self).pixels@.len() ==> final(self).pixels@[i] == 0,
    {
        self.width = width;
        self.height = height;
        self.pixels = vec![0u32; (width * height) as usize];
    }
}

/// Splits `0x00RRGGBB` into its red, green and blue bytes.
#[inline]
pub fn u32_to_rgb(c: u32) -> (rgb: (u8, u8, u8))
    ensures
        rgb.0 == (c >> 16u32) & 0xFF,
        rgb.1 == (c >> 8u32) & 0xFF,
        rgb.2 == c & 0xFF,
{
    assert(((c >> 16u32) & 0xFF) < 256 && ((c >> 8u32) & 0xFF) < 256 && (c & 0xFF) < 256) by (bit_vector);
    (((c >> 16) & 0xFF) as u8, ((c >> 8) & 0xFF) as u8, (c & 0xFF) as u8)
}

// ---------- 5x7 bitmap font ----------

/// The seven rows of the 5x7 glyph of `c`; in each row the low five bits are
/// the dots, bit 4 the leftmost. Letters are case-insensitive; characters
/// without a glyph are blank.
pub open spec fn glyph_rows(c: char) -> Seq<u8> {
    match c {
        '0' => seq![0b01110u8, 0b10001, 0b10011, 0b10101, 0b11001, 0b10001, 0b01110],
        '1' => seq![0b00100u8, 0b01100, 0b00100, 0b00100, 0b00100, 0b00100, 0b01110],
        '2' => seq![0b01110u8, 0b10001, 0b00001, 0b00010, 0b00100, 0b01000, 0b11111],
        '3' => seq![0b11111u8, 0b00010, 0b00100, 0b00010, 0b00001, 0b10001, 0b01110],
        '4' => seq![0b00010u8, 0b00110, 0b01010, 0b10010, 0b11111, 0b00010, 0b00010],
        '5' => seq![0b11111u8, 0b10000, 0b11110, 0b00001, 0b00001, 0b10001, 0b01110],
        '6' => seq![0b00110u8, 0b01000, 0b10000, 0b11110, 0b10001, 0b10001, 0b01110],
        '7' => seq![0b11111u8, 0b00001, 0b00010, 0b00100, 0b01000, 0b01000, 0b01000],
        '8' => seq![0b01110u8, 0b10001, 0b10001, 0b01110, 0b10001, 0b10001, 0b01110],
        '9' => seq![0b01110u8, 0b10001, 0b10001, 0b01111, 0b00001, 0b00010, 0b01100],
        'A' | 'a' => seq![0b01110u8, 0b10001, 0b10001, 0b11111, 0b10001, 0b10001, 0b10001],
        'B' | 'b' => seq![0b11110u8, 0b10001, 0b10001, 0b11110, 0b10001, 0b10001, 0b11110],
        'C' | 'c' => seq![0b01111u8, 0b10000, 0b10000, 0b10000, 0b10000, 0b10000, 0b01111],
        'D' | 'd' => seq![0b11110u8, 0b10001, 0b10001, 0b10001, 0b10001, 0b10001, 0b11110],
        'E' | 'e' => seq![0b11111u8, 0b10000, 0b10000, 0b11110, 0b10000, 0b10000, 0b11111],
        'F' | 'f' => seq![0b11111u8, 0b10000, 0b10000, 0b11110, 0b10000, 0b10000, 0b10000],
        'G' | 'g' => seq![0b01111u8, 0b10000, 0b10000, 0b10011, 0b10001, 0b10001, 0b01111],
        'H' | 'h' => seq![0b10001u8, 0b10001, 0b10001, 0b11111, 0b10001, 0b10001, 0b10001],
        'I' | 'i' => seq![0b01110u8, 0b00100, 0b00100, 0b00100, 0b00100, 0b00100, 0b01110],
        'J' | 'j' => seq![0b00111u8, 0b00010, 0b00010, 0b00010, 0b00010, 0b10010, 0b01100],
        'K' | 'k' => seq![0b10001u8, 0b10010, 0b10100, 0b11000, 0b10100, 0b10010, 0b10001],
        'L' | 'l' => seq![0b10000u8, 0b10000, 0b10000, 0b10000, 0b10000, 0b10000, 0b11111],
        'M' | 'm' => seq![0b10001u8, 0b11011, 0b10101, 0b10101, 0b10001, 0b10001, 0b10001],
        'N' | 'n' => seq![0b10001u8, 0b11001, 0b10101, 0b10101, 0b10011, 0b10001, 0b10001],
        'O' | 'o' => seq![0b01110u8, 0b10001, 0b10001, 0b10001, 0b10001, 0b10001, 0b01110],
        'P' | 'p' => seq![0b11110u8, 0b10001, 0b10001, 0b11110, 0b10000, 0b10000, 0b10000],
        'Q' | 'q' => seq![0b01110u8, 0b10001, 0b10001, 0b10001, 0b10101, 0b10010, 0b01101],
        'R' | 'r' => seq![0b11110u8, 0b10001, 0b10001, 0b11110, 0b10100, 0b10010, 0b10001],
        'S' | 's' => seq![0b01111u8, 0b10000, 0b10000, 0b01110, 0b00001, 0b00001, 0b11110],
        'T' | 't' => seq![0b11111u8, 0b00100, 0b00100, 0b00100, 0b00100, 0b00100, 0b00100],
        'U' | 'u' => seq![0b10001u8, 0b10001, 0b10001, 0b10001, 0b10001, 0b10001, 0b01110],
        'V' | 'v' => seq![0b10001u8, 0b10001, 0b10001, 0b10001, 0b10001, 0b01010, 0b00100],
        'W' | 'w' => seq![0b10001u8, 0b10001, 0b10001, 0b10101, 0b10101, 0b10101, 0b01010],
        'X' | 'x' => seq![0b10001u8, 0b10001, 0b01010, 0b00100, 0b01010, 0b10001, 0b10001],
        'Y' | 'y' => seq![0b10001u8, 0b10001, 0b01010, 0b00100, 0b00100, 0b00100, 0b00100],
        'Z' | 'z' => seq![0b11111u8, 0b00001, 0b00010, 0b00100, 0b01000, 0b10000, 0b11111],
        ':' => seq![0b00000u8, 0b00100, 0b00000, 0b00000, 0b00000, 0b00100, 0b00000],
        '.' => seq![0b00000u8, 0b00000, 0b00000, 0b00000, 0b00000, 0b00110, 0b00110],
        '-' => seq![0b00000u8, 0b00000, 0b00000, 0b11111, 0b00000, 0b00000, 0b00000],
        '/' => seq![0b00001u8, 0b00010, 0b00010, 0b00100, 0b01000, 0b01000, 0b10000],
        '%' => seq![0b11001u8, 0b11010, 0b00010, 0b00100, 0b01000, 0b01011, 0b10011],
        _ => seq![0u8, 0, 0, 0, 0, 0, 0],
    }
}

/// The glyph of `c` in the built-in 5x7 bitmap font.
pub fn glyph(c: char) -> (rows: [u8; 7])
    ensures
        rows@ == glyph_rows(c),
{
    let rows: [u8; 7] = match c {
        '0' => [0b01110, 0b10001, 0b10011, 0b10101, 0b11001, 0b10001, 0b01110],
        '1' => [0b00100, 0b01100, 0b00100, 0b00100, 0b00100, 0b00100, 0b01110],
        '2' => [0b01110, 0b10001, 0b00001, 0b00010, 0b00100, 0b01000, 0b11111],
        '3' => [0b11111, 0b00010, 0b00100, 0b00010, 0b00001, 0b10001, 0b01110],
        '4' => [0b00010, 0b00110, 0b01010, 0b10010, 0b11111, 0b00010, 0b00010],
        '5' => [0b11111, 0b10000, 0b11110, 0b00001, 0b00001, 0b10001, 0b01110],
        '6' => [0b00110, 0b01000, 0b10000, 0b11110, 0b10001, 0b10001, 0b01110],
        '7' => [0b11111, 0b00001, 0b00010, 0b00100, 0b01000, 0b01000, 0b01000],
        '8' => [0b01110, 0b10001, 0b10001, 0b01110, 0b10001, 0b10001, 0b01110],
        '9' => [0b01110, 0b10001, 0b10001, 0b01111, 0b00001, 0b00010, 0b01100],
        'A' | 'a' => [0b01110, 0b10001, 0b10001, 0b11111, 0b10001, 0b10001, 0b10001],
        'B' | 'b' => [0b11110, 0b10001, 0b10001, 0b11110, 0b10001, 0b10001, 0b11110],
        'C' | 'c' => [0b01111, 0b10000, 0b10000, 0b10000, 0b10000, 0b10000, 0b01111],
        'D' | 'd' => [0b11110, 0b10001, 0b10001, 0b10001, 0b10001, 0b10001, 0b11110],
        'E' | 'e' => [0b11111, 0b10000, 0b10000, 0b11110, 0b10000, 0b10000, 0b11111],
        'F' | 'f' => [0b11111, 0b10000, 0b10000, 0b11110, 0b10000, 0b10000, 0b10000],
        'G' | 'g' => [0b01111, 0b10000, 0b10000, 0b10011, 0b10001, 0b10001, 0b01111],
        'H' | 'h' => [0b10001, 0b10001, 0b10001, 0b11111, 0b10001, 0b10001, 0b10001],
        'I' | 'i' => [0b01110, 0b00100, 0b00100, 0b00100, 0b00100, 0b00100, 0b01110],
        'J' | 'j' => [0b00111, 0b00010, 0b00010, 0b00010, 0b00010, 0b10010, 0b01100],
        'K' | 'k' => [0b10001, 0b10010, 0b10100, 0b11000, 0b10100, 0b10010, 0b10001],
        'L' | 'l' => [0b10000, 0b10000, 0b10000, 0b10000, 0b10000, 0b10000, 0b11111],
        'M' | 'm' => [0b10001, 0b11011, 0b10101, 0b10101, 0b10001, 0b10001, 0b10001],
        'N' | 'n' => [0b10001, 0b11001, 0b10101, 0b10101, 0b10011, 0b10001, 0b10001],
        'O' | 'o' => [0b01110, 0b10001, 0b10001, 0b10001, 0b10001, 0b10001, 0b01110],
        'P' | 'p' => [0b11110, 0b10001, 0b10001, 0b11110, 0b10000, 0b10000, 0b10000],
        'Q' | 'q' => [0b01110, 0b10001, 0b10001, 0b10001, 0b10101, 0b10010, 0b01101],
        'R' | 'r' => [0b11110, 0b10001, 0b10001, 0b11110, 0b10100, 0b10010, 0b10001],
        'S' | 's' => [0b01111, 0b10000, 0b10000, 0b01110, 0b00001, 0b00001, 0b11110],
        'T' | 't' => [0b11111, 0b00100, 0b00100, 0b00100, 0b00100, 0b00100, 0b00100],
        'U' | 'u' => [0b10001, 0b10001, 0b10001, 0b10001, 0b10001, 0b10001, 0b01110],
        'V' | 'v' => [0b10001, 0b10001, 0b10001, 0b10001, 0b10001, 0b01010, 0b00100],
        'W' | 'w' => [0b10001, 0b10001, 0b10001, 0b10101, 0b10101, 0b10101, 0b01010],
        'X' | 'x' => [0b10001, 0b10001, 0b01010, 0b00100, 0b01010, 0b10001, 0b10001],
        'Y' | 'y' => [0b10001, 0b10001, 0b01010, 0b00100, 0b00100, 0b00100, 0b00100],
        'Z' | 'z' => [0b11111, 0b00001, 0b00010, 0b00100, 0b01000, 0b10000, 0b11111],
        ':' => [0b00000, 0b00100, 0b00000, 0b00000, 0b00000, 0b00100, 0b00000],
        '.' => [0b00000, 0b00000, 0b00000, 0b00000, 0b00000, 0b00110, 0b00110],
        '-' => [0b00000, 0b00000, 0b00000, 0b11111, 0b00000, 0b00000, 0b00000],
        '/' => [0b00001, 0b00010, 0b00010, 0b00100, 0b01000, 0b01000, 0b10000],
        '%' => [0b11001, 0b11010, 0b00010, 0b00100, 0b01000, 0b01011, 0b10011],
        _ => [0; 7],
    };
    assert(rows@ =~= glyph_rows(c));
    rows
}


/// The characters the font draws: digits, letters of either case, and
/// `:`, `.`, `-`, `/`, `%`.
pub open spec fn font_char(c: char) -> bool {
    let u = c as u32;
    ||| 48 <= u <= 57
    ||| 65 <= u <= 90
    ||| 97 <= u <= 122
    ||| c == ':' || c == '.' || c == '-' || c == '/' || c == '%'
}

/// The character a glyph stands for: lower-case letters fold to upper case.
pub open spec fn font_key(c: char) -> int {
    let u = c as u32;
    if 97 <= u <= 122 {
        u - 32
    } else {
        u as int
    }
}

/// The seven rows of a glyph packed into one number, five bits a row.
spec fn glyph_code(rows: Seq<u8>) -> int {
    rows[0] + rows[1] * 0x20 + rows[2] * 0x400 + rows[3] * 0x8000 + rows[4] * 0x10_0000 + rows[5] * 0x200_0000
        + rows[6] * 0x4000_0000
}

/// Reads the character back from a packed glyph; 0 for none.
spec fn glyph_code_key(n: int) -> int {
    if n == 15629733422 {
        48
    } else if n == 15170933124 {
        49
    } else if n == 33558693422 {
        50
    } else if n == 15603929183 {
        51
    } else if n == 2247698626 {
        52
    } else if n == 15603923487 {
        53
    } else if n == 15621636358 {
        54
    } else if n == 8866891839 {
        55
    } else if n == 15621113390 {
        56
    } else if n == 12953568814 {
        57
    } else if n == 18842895918 {
        65
    } else if n == 32801506878 {
        66
    } else if n == 16660316687 {
        67
    } else if n == 32801080894 {
        68
    } else if n == 33840644639 {
        69
    } else if n == 17734517279 {
        70
    } else if n == 16695017999 {
        71
    } else if n == 18842895921 {
        72
    } else if n == 15170932878 {
        73
    } else if n == 13491046471 {
        74
    } else if n == 18879369809 {
        75
    } else if n == 33840185872 {
        76
    } else if n == 18842572657 {
        77
    } else if n == 18844669745 {
        78
    } else if n == 15621211694 {
        79
    } else if n == 17734518334 {
        80
    } else if n == 14585218606 {
        81
    } else if n == 18879563326 {
        82
    } else if n == 32247333391 {
        83
    } else if n == 4433514655 {
        84
    } else if n == 15621211697 {
        85
    } else if n == 4648912433 {
        86
    } else if n == 11464787505 {
        87
    } else if n == 18834663985 {
        88
    } else if n == 4433521201 {
        89
    } else if n == 33831389247 {
        90
    } else if n == 134217856 {
        58
    } else if n == 6643777536 {
        46
    } else if n == 1015808 {
        45
    } else if n == 17456826433 {
        47
    } else if n == 20778715993 {
        37
    } else {
        0
    }
}

proof fn lemma_glyph_code_key(c: char)
    ensures
        glyph_code_key(glyph_code(glyph_rows(c))) == if font_char(c) { font_key(c) } else { 0 },
{
}

/// The font tells characters apart: any two characters it draws that are
/// not the same letter up to case get different glyphs, every such glyph
/// has a dot lit, every other character is blank, and a lower-case letter
/// looks like its upper-case form.
pub proof fn lemma_font_distinct(c1: char, c2: char)
    ensures
        font_char(c1) && font_char(c2) && font_key(c1) != font_key(c2) ==> glyph_rows(c1) != glyph_rows(c2),
        font_char(c1) <==> glyph_rows(c1) != seq![0u8, 0, 0, 0, 0, 0, 0],
        font_char(c1) && font_char(c2) && font_key(c1) == font_key(c2) ==> glyph_rows(c1) == glyph_rows(c2),
{
    lemma_glyph_code_key(c1);
    lemma_glyph_code_key(c2);
    let blank = seq![0u8, 0, 0, 0, 0, 0, 0];
    assert(glyph_code(blank) == 0);
    assert(glyph_code_key(0) == 0);
    if font_char(c1) && font_char(c2) && font_key(c1) == font_key(c2) {
        assert(glyph_rows(c1) =~= glyph_rows(c2));
    }
}

/// Whether the dot in row `row`, column `col` of the glyph of `c` is lit.
pub open spec fn glyph_bit(c: char, row: int, col: int) -> bool {
    &&& 0 <= row < 7
    &&& 0 <= col < 5
    &&& (glyph_rows(c)[row] >> ((4 - col) as u8)) & 1u8 == 1u8
}

/// Whether pixel `(px, py)` is lit by the glyph of `c` drawn with its top-left
/// corner at `(cx, cy)`, each dot a `scale x scale` square.
pub open spec fn glyph_pixel(c: char, cx: int, cy: int, scale: int, px: int, py: int) -> bool {
    &&& scale > 0
    &&& cx <= px < cx + 5 * scale
    &&& cy <= py < cy + 7 * scale
    &&& glyph_bit(c, (py - cy) / scale, (px - cx) / scale)
}

/// Whether pixel `(px, py)` is lit by `text` drawn at `(x, y)`: characters
/// sit on cells `6 * scale` wide, each glyph `5 x 7` dots of `scale` pixels.
pub open spec fn text_pixel(text: Seq<char>, x: int, y: int, scale: int, px: int, py: int) -> bool {
    let k = (px - x) / (6 * scale);
    &&& scale > 0
    &&& x <= px
    &&& k < text.len()
    &&& glyph_pixel(text[k], x + 6 * scale * k, y, scale, px, py)
}

/// The row-major dot `(px, py)` falls in lies before dot `(row, col)`.
spec fn dot_before(cx: int, cy: int, scale: int, px: int, py: int, row: int, col: int) -> bool {
    let r = (py - cy) / scale;
    let c = (px - cx) / scale;
    r < row || (r == row && c < col)
}

proof fn lemma_div_bounds(a: int, s: int)
    requires
        s > 0,
    ensures
        (a / s) * s <= a < (a / s) * s + s,
{
    vstd::arithmetic::div_mod::lemma_fundamental_div_mod(a, s);
    assert(s * (a / s) == (a / s) * s) by (nonlinear_arith);
}

impl Framebuffer {
    /// Fills the part inside the frame of the `scale x scale` square with
    /// top-left corner `(px0, py0)`.
    fn fill_square(&mut self, px0: i32, py0: i32, scale: i32, color: u32)
        requires
            old(self).wf(),
            px0 + scale <= i32::MAX,
            py0 + scale <= i32::MAX,
        ensures
            final(self).wf(),
            final(self).width == old(self).width,
            final(self).height == old(self).height,
            forall|px: int, py: int|
                #![trigger final(self).pixel(px, py)]
                final(self).in_frame(px, py) ==> final(self).pixel(px, py) == if px0 <= px < px0
                    + scale && py0 <= py < py0 + scale {
                    color
                } else {
                    old(self).pixel(px, py)
                },
    {
        let ghost start = *self;
        let mut dy: i32 = 0;
        while dy < scale
            invariant
                self.wf(),
                self.width == start.width,
                self.height == start.height,
                0 <= dy,
                dy <= scale || dy == 0,
                px0 + scale <= i32::MAX,
                py0 + scale <= i32::MAX,
                forall|px: int, py: int|
                    #![trigger self.pixel(px, py)]
                    self.in_frame(px, py) ==> self.pixel(px, py) == if px0 <= px < px0 + scale
                        && py0 <= py < py0 + dy {
                        color
                    } else {
                        start.pixel(px, py)
                    },
            decreases scale - dy,
        {
            let mut dx: i32 = 0;
            while dx < scale
                invariant
                    self.wf(),
                    self.width == start.width,
                    self.height == start.height,
                    0 <= dy < scale,
                    0 <= dx <= scale,
                    px0 + scale <= i32::MAX,
                    py0 + scale <= i32::MAX,
                    forall|px: int, py: int|
                        #![trigger self.pixel(px, py)]
                        self.in_frame(px, py) ==> self.pixel(px, py) == if (px0 <= px < px0 + scale
                            && py0 <= py < py0 + dy) || (px0 <= px < px0 + dx && py == py0 + dy) {
                            color
                        } else {
                            start.pixel(px, py)
                        },
                decreases scale - dx,
            {
                let px = px0 + dx;
                let py = py0 + dy;
                if px >= 0 && py >= 0 && (px as u32) < self.width && (py as u32) < self.height {
                    self.set(px as u32, py as u32, color);
                }
                dx += 1;
            }
            dy += 1;
        }
    }

    /// Draws the glyph `rows` of `c` with its top-left corner at `(cx, cy)`.
    fn draw_glyph(&mut self, cx: i32, cy: i32, c: char, color: u32, scale: i32)
        requires
            old(self).wf(),
            i32::MIN <= cx + 5 * scale,
            cx + 5 * scale <= i32::MAX,
            i32::MIN <= cy + 7 * scale,
            cy + 7 * scale <= i32::MAX,
            6 * scale <= i32::MAX,
        ensures
            final(self).wf(),
            final(self).width == old(self).width,
            final(self).height == old(self).height,
            forall|px: int, py: int|
                #![trigger final(self).pixel(px, py)]
                final(self).in_frame(px, py) ==> final(self).pixel(px, py) == if glyph_pixel(
                    c,
                    cx as int,
                    cy as int,
                    scale as int,
                    px,
                    py,
                ) {
                    color
                } else {
                    old(self).pixel(px, py)
                },
    {
        let ghost start = *self;
        if scale <= 0 {
            return;
        }
        let rows = glyph(c);
        let mut row: i32 = 0;
        while row < 7
            invariant
                self.wf(),
                self.width == start.width,
                self.height == start.height,
                0 <= row <= 7,
                scale > 0,
                cx + 5 * scale <= i32::MAX,
                cy + 7 * scale <= i32::MAX,
                6 * scale <= i32::MAX,
                rows@ == glyph_rows(c),
                forall|px: int, py: int|
                    #![trigger self.pixel(px, py)]
                    self.in_frame(px, py) ==> self.pixel(px, py) == if glyph_pixel(
                        c,
                        cx as int,
                        cy as int,
                        scale as int,
                        px,
                        py,
                    ) && dot_before(cx as int, cy as int, scale as int, px, py, row as int, 0) {
                        color
                    } else {
                        start.pixel(px, py)
                    },
            decreases 7 - row,
        {
            let bits = rows[row as usize];
            let mut col: i32 = 0;
            while col < 5
                invariant
                    self.wf(),
                    self.width == start.width,
                    self.height == start.height,
                    0 <= row < 7,
                    0 <= col <= 5,
                    scale > 0,
                    cx + 5 * scale <= i32::MAX,
                    cy + 7 * scale <= i32::MAX,
                    6 * scale <= i32::MAX,
                    bits == glyph_rows(c)[row as int],
                    rows@ == glyph_rows(c),
                    forall|px: int, py: int|
                        #![trigger self.pixel(px, py)]
                        self.in_frame(px, py) ==> self.pixel(px, py) == if glyph_pixel(
                            c,
                            cx as int,
                            cy as int,
                            scale as int,
                            px,
                            py,
                        ) && dot_before(
                            cx as int,
                            cy as int,
                            scale as int,
                            px,
                            py,
                            row as int,
                            col as int,
                        ) {
                            color
                        } else {
                            start.pixel(px, py)
                        },
                decreases 5 - col,
            {
                let lit = (bits >> ((4 - col) as u8)) & 1 == 1;
                let ghost before = *self;
                proof {
                    assert(col * scale + scale <= 5 * scale) by (nonlinear_arith)
                        requires
                            col < 5,
                            scale > 0,
                    ;
                    assert(row * scale + scale <= 7 * scale) by (nonlinear_arith)
                        requires
                            row < 7,
                            scale > 0,
                    ;
                    assert(0 <= col * scale && 0 <= row * scale) by (nonlinear_arith)
                        requires
                            0 <= col,
                            0 <= row,
                            scale > 0,
                    ;
                }
                let px0 = cx + col * scale;
                let py0 = cy + row * scale;
                if lit {
                    self.fill_square(px0, py0, scale, color);
                }
                proof {
                    assert forall|px: int, py: int| #![trigger self.pixel(px, py)] self.in_frame(px, py) implies self.pixel(px, py)
                        == if glyph_pixel(c, cx as int, cy as int, scale as int, px, py) && dot_before(
                        cx as int,
                        cy as int,
                        scale as int,
                        px,
                        py,
                        row as int,
                        col + 1,
                    ) {
                        color
                    } else {
                        start.pixel(px, py)
                    } by {
                        let in_sq = px0 <= px < px0 + scale && py0 <= py < py0 + scale;
                        if in_sq {
                            lemma_quotient(px - cx, scale as int, col as int);
                            lemma_quotient(py - cy, scale as int, row as int);
                        } else {
                            lemma_div_bounds(px - cx, scale as int);
                            lemma_div_bounds(py - cy, scale as int);
                            let r = (py - cy) / (scale as int);
                            let q = (px - cx) / (scale as int);
                            if r == row && q == col {
                                assert(r * scale == row * scale);
                                assert(q * scale == col * scale);
                            }
                        }
                    }
                }
                col += 1;
            }
            proof {
                assert forall|px: int, py: int| #![trigger self.pixel(px, py)] self.in_frame(px, py) implies self.pixel(px, py)
                    == if glyph_pixel(c, cx as int, cy as int, scale as int, px, py) && dot_before(
                    cx as int,
                    cy as int,
                    scale as int,
                    px,
                    py,
                    row + 1,
                    0,
                ) {
                    color
                } else {
                    start.pixel(px, py)
                } by {
                    if glyph_pixel(c, cx as int, cy as int, scale as int, px, py) {
                        assert(((px - cx) / (scale as int)) < 5);
                    }
                }
            }
            row += 1;
        }
        proof {
            assert forall|px: int, py: int| #![trigger self.pixel(px, py)] self.in_frame(px, py) implies self.pixel(px, py)
                == if glyph_pixel(c, cx as int, cy as int, scale as int, px, py) {
                color
            } else {
                start.pixel(px, py)
            } by {
                if glyph_pixel(c, cx as int, cy as int, scale as int, px, py) {
                    assert(((py - cy) / (scale as int)) < 7);
                }
            }
        }
    }

    /// Draws `text` with the built-in 5x7 bitmap font at `(x, y)`. `scale` is
    /// the pixel size of each font dot; every character, a space too, takes a
    /// cell `6 * scale` wide. Parts outside the framebuffer are clipped.
    pub fn draw_text(&mut self, x: i32, y: i32, text: &str, color: u32, scale: i32)
        requires
            old(self).wf(),
            text@.len() > 0 ==> i32::MIN <= 6 * scale <= i32::MAX,
            i32::MIN <= x + 6 * scale * text@.len() <= i32::MAX,
            i32::MIN <= y + 7 * scale <= i32::MAX,
        ensures
            final(self).wf(),
            final(self).width == old(self).width,
            final(self).height == old(self).height,
            forall|px: int, py: int|
                #![trigger final(self).pixel(px, py)]
                final(self).in_frame(px, py) ==> final(self).pixel(px, py) == if text_pixel(
                    text@,
                    x as int,
                    y as int,
                    scale as int,
                    px,
                    py,
                ) {
                    color
                } else {
                    old(self).pixel(px, py)
                },
    {
        let ghost start = *self;
        let ghost n = text@.len() as int;
        let ghost s = scale as int;
        let mut cx = x;
        proof {
            assert(0 <= 6 * s * 0);
        }
        for ch in it: text.chars()
            invariant
                self.wf(),
                self.width == start.width,
                self.height == start.height,
                n == text@.len(),
                s == scale,
                n > 0 ==> i32::MIN <= 6 * scale <= i32::MAX,
                i32::MIN <= x + 6 * scale * n <= i32::MAX,
                i32::MIN <= y + 7 * scale <= i32::MAX,
                it.seq() == text@,
                cx == x + 6 * s * it.index(),
                forall|px: int, py: int|
                    #![trigger self.pixel(px, py)]
                    self.in_frame(px, py) ==> self.pixel(px, py) == if text_pixel(
                        text@,
                        x as int,
                        y as int,
                        s,
                        px,
                        py,
                    ) && (px - x) / (6 * s) < it.index() {
                        color
                    } else {
                        start.pixel(px, py)
                    },
        {
            let ghost k = it.index();
            proof {
                assert(ch == text@[k]);
                if s > 0 {
                    assert(6 * s * k + 6 * s <= 6 * s * n && 0 <= 6 * s * k) by (nonlinear_arith)
                        requires
                            0 <= k < n,
                            s > 0,
                    ;
                } else {
                    assert(6 * s * n <= 6 * s * k + 6 * s && 6 * s * k <= 0) by (nonlinear_arith)
                        requires
                            0 <= k < n,
                            s <= 0,
                    ;
                }
                assert(6 * s * (k + 1) == 6 * s * k + 6 * s) by (nonlinear_arith);
            }
            let ghost before = *self;
            if ch != ' ' {
                self.draw_glyph(cx, y, ch, color, scale);
            } else {
                assert forall|r: int, c: int| !glyph_bit(' ', r, c) by {
                    if 0 <= r < 7 && 0 <= c < 5 {
                        let sh = (4 - c) as u8;
                        assert((0u8 >> sh) & 1u8 != 1u8) by (bit_vector);
                    }
                }
            }
            proof {
                assert forall|px: int, py: int| #![trigger self.pixel(px, py)] self.in_frame(px, py) implies self.pixel(px, py)
                    == if text_pixel(text@, x as int, y as int, s, px, py) && (px - x) / (6 * s) < k + 1 {
                    color
                } else {
                    start.pixel(px, py)
                } by {
                    if s > 0 {
                        if glyph_pixel(ch, cx as int, y as int, s, px, py) {
                            assert(k * (6 * s) == 6 * s * k) by (nonlinear_arith);
                            lemma_quotient(px - x, 6 * s, k);
                        }
                        if text_pixel(text@, x as int, y as int, s, px, py) && (px - x) / (6 * s) == k {
                            assert(glyph_pixel(ch, cx as int, y as int, s, px, py));
                        }
                    }
                }
            }
            cx += 6 * scale;
        }
    }
}

/// The source coordinate a nearest-neighbour scale from `src_len` to
/// `dst_len` pixels shows at destination coordinate `d`.
pub open spec fn nearest(d: int, src_len: int, dst_len: int) -> int {
    d * src_len / dst_len
}

proof fn lemma_nearest_bounds(d: int, src_len: int, dst_len: int)
    requires
        0 <= d < dst_len,
        0 < src_len,
    ensures
        0 <= nearest(d, src_len, dst_len) < src_len,
{
    assert(0 <= d * src_len < dst_len * src_len) by (nonlinear_arith)
        requires
            0 <= d < dst_len,
            0 < src_len,
    ;
    vstd::arithmetic::div_mod::lemma_multiply_divide_lt(d * src_len, dst_len, src_len);
    vstd::arithmetic::div_mod::lemma_div_pos_is_pos(d * src_len, dst_len);
}

impl Framebuffer {
    /// Scales this framebuffer by nearest neighbour onto `dst`, which keeps
    /// its size: every pixel of `dst` takes the colour of the source pixel
    /// under it.
    pub fn upscale_into(&self, dst: &mut Framebuffer)
        requires
            self.wf(),
            old(dst).wf(),
            old(dst).width > 0 && old(dst).height > 0 ==> self.width > 0 && self.height > 0,
        ensures
            final(dst).wf(),
            final(dst).width == old(dst).width,
            final(dst).height == old(dst).height,
            forall|px: int, py: int|
                #![trigger final(dst).pixel(px, py)]
                final(dst).in_frame(px, py) ==> final(dst).pixel(px, py) == self.pixel(
                    nearest(px, self.width as int, final(dst).width as int),
                    nearest(py, self.height as int, final(dst).height as int),
                ),
    {
        let dw = dst.width;
        let dh = dst.height;
        let mut y: u32 = 0;
        while y < dh
            invariant
                self.wf(),
                dst.wf(),
                dst.width == dw,
                dst.height == dh,
                dw > 0 && dh > 0 ==> self.width > 0 && self.height > 0,
                y <= dh,
                forall|px: int, py: int|
                    #![trigger dst.pixel(px, py)]
                    dst.in_frame(px, py) && py < y ==> dst.pixel(px, py) == self.pixel(
                        nearest(px, self.width as int, dw as int),
                        nearest(py, self.height as int, dh as int),
                    ),
            decreases dh - y,
        {
            let mut x: u32 = 0;
            while x < dw
                invariant
                    self.wf(),
                    dst.wf(),
                    dst.width == dw,
                    dst.height == dh,
                    dw > 0 && dh > 0 ==> self.width > 0 && self.height > 0,
                    y < dh,
                    x <= dw,
                    forall|px: int, py: int|
                        #![trigger dst.pixel(px, py)]
                        dst.in_frame(px, py) && (py < y || (py == y && px < x)) ==> dst.pixel(px, py) == self.pixel(
                            nearest(px, self.width as int, dw as int),
                            nearest(py, self.height as int, dh as int),
                        ),
                decreases dw - x,
            {
                proof {
                    lemma_nearest_bounds(x as int, self.width as int, dw as int);
                    lemma_nearest_bounds(y as int, self.height as int, dh as int);
                    assert(x * self.width <= u64::MAX && y * self.height <= u64::MAX) by (nonlinear_arith)
                        requires
                            x <= u32::MAX,
                            y <= u32::MAX,
                            self.width <= u32::MAX,
                            self.height <= u32::MAX,
                    ;
                }
                let sx = ((x as u64 * self.width as u64) / dw as u64) as u32;
                let sy = ((y as u64 * self.height as u64) / dh as u64) as u32;
                let c = self.get(sx, sy);
                dst.set(x, y, c);
                x += 1;
            }
            y += 1;
        }
    }
}

} // verus!
