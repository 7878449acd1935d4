//! The recording pill's geometry and text.
//!
//! The pill is a borderless, always-on-top rounded rectangle drawn into a
//! per-pixel-alpha buffer: opaque cream inside the rounded outline,
//! transparent outside. It stacks a live waveform, the live partial
//! transcript (its tail, when it outgrows two lines) and a clickable chip
//! that cycles the writing mode. This module holds the integer geometry
//! (hit tests, the pixel mask, pixel packing, click coordinates) and the
//! text shown; the waveform and anti-aliased drawing are done elsewhere.

use crate::modes::{mode_label, WritingMode};
use crate::text::{chars_of, push_char, string_of};
use vstd::prelude::*;

verus! {

pub const WIDTH: i32 = 380;
pub const HEIGHT: i32 = 150;
pub const PILL_RADIUS: i32 = 28;

/// The mode chip's rectangle (left, top, right, bottom), right and bottom
/// exclusive: centered, with a generous hit area.
pub const CHIP_LEFT: i32 = 115;
pub const CHIP_TOP: i32 = 120;
pub const CHIP_RIGHT: i32 = 265;
pub const CHIP_BOTTOM: i32 = 144;

/// Partial transcripts longer than this many characters show their tail.
pub const TEXT_MAX_CHARS: usize = 96;

pub open spec fn clamp(v: int, lo: int, hi: int) -> int {
    if v < lo {
        lo
    } else if v > hi {
        hi
    } else {
        v
    }
}

/// Offset of a point from the pill's inner rectangle (the rectangle of
/// corner-circle centers), horizontally and vertically.
pub open spec fn pill_dx(x: int) -> int {
    x - clamp(x, PILL_RADIUS as int, (WIDTH - PILL_RADIUS) as int)
}

pub open spec fn pill_dy(y: int) -> int {
    y - clamp(y, PILL_RADIUS as int, (HEIGHT - PILL_RADIUS) as int)
}

/// The point lies within `PILL_RADIUS` of the inner rectangle: inside the
/// rounded outline.
pub open spec fn in_pill(x: int, y: int) -> bool {
    pill_dx(x) * pill_dx(x) + pill_dy(y) * pill_dy(y) <= PILL_RADIUS * PILL_RADIUS
}

/// The squared distance of the point from the inner rectangle fits in an
/// `i32`, so the containment test computes without overflow.
pub open spec fn pill_test_fits(x: int, y: int) -> bool {
    pill_dx(x) * pill_dx(x) + pill_dy(y) * pill_dy(y) <= i32::MAX
}

fn clamp_i32(v: i32, lo: i32, hi: i32) -> (r: i32)
    requires
        lo <= hi,
    ensures
        r == clamp(v as int, lo as int, hi as int),
{
    if v < lo {
        lo
    } else if v > hi {
        hi
    } else {
        v
    }
}

/// Rounded-rectangle containment: the distance from the point to the
/// nearest point of the inner rectangle is at most the corner radius.
pub fn point_in_pill(x: i32, y: i32) -> (r: bool)
    requires
        pill_test_fits(x as int, y as int),
    ensures
        r == in_pill(x as int, y as int),
{
    let rad = PILL_RADIUS;
    let cx = clamp_i32(x, rad, WIDTH - rad);
    let cy = clamp_i32(y, rad, HEIGHT - rad);
    let ghost dx_i: int = x as int - cx as int;
    let ghost dy_i: int = y as int - cy as int;
    assert(dx_i * dx_i >= 0 && dy_i * dy_i >= 0) by (nonlinear_arith);
    assert(-46341 < dx_i < 46341 && -46341 < dy_i < 46341) by (nonlinear_arith)
        requires
            dx_i * dx_i + dy_i * dy_i <= i32::MAX,
            dx_i * dx_i >= 0,
            dy_i * dy_i >= 0,
    ;
    let dx = x - cx;
    let dy = y - cy;
    dx * dx + dy * dy <= rad * rad
}

pub open spec fn in_chip(x: int, y: int) -> bool {
    CHIP_LEFT <= x < CHIP_RIGHT && CHIP_TOP <= y < CHIP_BOTTOM
}

/// Whether the point lies on the mode chip.
pub fn point_in_chip(x: i32, y: i32) -> (r: bool)
    ensures
        r == in_chip(x as int, y as int),
{
    x >= CHIP_LEFT && x < CHIP_RIGHT && y >= CHIP_TOP && y < CHIP_BOTTOM
}

/// Every point of the chip lies inside the pill, so a click on the chip
/// always lands on an opaque pixel of the window.
pub proof fn lemma_chip_inside_pill(x: int, y: int)
    requires
        in_chip(x, y),
    ensures
        in_pill(x, y),
        pill_test_fits(x, y),
{
    assert(pill_dx(x) == 0);
    assert(0 <= pill_dy(y) <= 21);
    assert(pill_dy(y) * pill_dy(y) <= 21 * 21) by (nonlinear_arith)
        requires
            0 <= pill_dy(y) <= 21,
    ;
}

/// A pixel in the window's 32-bit premultiplied BGRA layout.
pub open spec fn bgra(color: (u8, u8, u8), a: u8) -> u32 {
    (a as int * 0x1000000 + color.0 as int * 0x10000 + color.1 as int * 0x100 + color.2 as int) as u32
}

/// Packs an (r, g, b) color and an alpha into a BGRA pixel.
pub fn pack_bgra(color: (u8, u8, u8), a: u8) -> (p: u32)
    ensures
        p == bgra(color, a),
{
    let (r, g, b) = color;
    let (a32, r32, g32, b32) = (a as u32, r as u32, g as u32, b as u32);
    let p = a32 << 24 | r32 << 16 | g32 << 8 | b32;
    assert(p == a32 * 0x1000000 + r32 * 0x10000 + g32 * 0x100 + b32) by (bit_vector)
        requires
            a32 < 256,
            r32 < 256,
            g32 < 256,
            b32 < 256,
            p == a32 << 24 | r32 << 16 | g32 << 8 | b32,
    ;
    p
}

/// A Win32 COLORREF: red in the low byte, then green, then blue.
pub open spec fn colorref_value(color: (u8, u8, u8)) -> u32 {
    (color.0 as int + color.1 as int * 0x100 + color.2 as int * 0x10000) as u32
}

/// Packs an (r, g, b) color as a Win32 COLORREF.
pub fn colorref(color: (u8, u8, u8)) -> (c: u32)
    ensures
        c == colorref_value(color),
{
    let (r, g, b) = color;
    let (r32, g32, b32) = (r as u32, g as u32, b as u32);
    let c = r32 | g32 << 8 | b32 << 16;
    assert(c == r32 + g32 * 0x100 + b32 * 0x10000) by (bit_vector)
        requires
            r32 < 256,
            g32 < 256,
            b32 < 256,
            c == r32 | g32 << 8 | b32 << 16,
    ;
    c
}

pub const PILL_BG: (u8, u8, u8) = (245, 240, 227);
pub const CHIP_BG: (u8, u8, u8) = (236, 229, 211);
pub const TEXT_COLOR: (u8, u8, u8) = (35, 33, 30);
pub const HINT_COLOR: (u8, u8, u8) = (99, 94, 84);

/// Index of the pixel at column `x`, row `y` in the top-down buffer.
pub open spec fn pixel_index(x: int, y: int) -> int {
    y * WIDTH + x
}

pub open spec fn pixel_count() -> nat {
    (WIDTH * HEIGHT) as nat
}

/// Every pixel of the pill's interior inside the pill is a coordinate whose
/// containment test computes without overflow.
proof fn lemma_frame_points_fit(x: int, y: int)
    requires
        0 <= x < WIDTH,
        0 <= y < HEIGHT,
    ensures
        pill_test_fits(x, y),
{
    assert(-28 <= pill_dx(x) <= 28 && -28 <= pill_dy(y) <= 28);
    assert(pill_dx(x) * pill_dx(x) <= 784 && pill_dy(y) * pill_dy(y) <= 784) by (nonlinear_arith)
        requires
            -28 <= pill_dx(x) <= 28,
            -28 <= pill_dy(y) <= 28,
    ;
}

/// The base frame: opaque pill background inside the rounded outline,
/// fully transparent outside it.
pub fn fill_pill_base(pixels: &mut Vec<u32>)
    requires
        old(pixels)@.len() == pixel_count(),
    ensures
        final(pixels)@.len() == pixel_count(),
        forall|x: int, y: int|
            0 <= x < WIDTH && 0 <= y < HEIGHT ==> #[trigger] final(pixels)@[pixel_index(x, y)] == if in_pill(
                x,
                y,
            ) {
                bgra(PILL_BG, 255)
            } else {
                0
            },
{
    let bg = pack_bgra(PILL_BG, 255);
    let mut y: i32 = 0;
    while y < HEIGHT
        invariant
            0 <= y <= HEIGHT,
            pixels@.len() == pixel_count(),
            bg == bgra(PILL_BG, 255),
            forall|px: int, py: int|
                0 <= px < WIDTH && 0 <= py < y ==> #[trigger] pixels@[pixel_index(px, py)] == if in_pill(
                    px,
                    py,
                ) {
                    bgra(PILL_BG, 255)
                } else {
                    0
                },
        decreases HEIGHT - y,
    {
        let mut x: i32 = 0;
        while x < WIDTH
            invariant
                0 <= y < HEIGHT,
                0 <= x <= WIDTH,
                pixels@.len() == pixel_count(),
                bg == bgra(PILL_BG, 255),
                forall|px: int, py: int|
                    (0 <= px < WIDTH && 0 <= py < y) || (0 <= px < x && py == y)
                        ==> #[trigger] pixels@[pixel_index(px, py)] == if in_pill(px, py) {
                        bgra(PILL_BG, 255)
                    } else {
                        0
                    },
            decreases WIDTH - x,
        {
            proof {
                lemma_frame_points_fit(x as int, y as int);
            }
            let idx = (y * WIDTH + x) as usize;
            let v = if point_in_pill(x, y) {
                bg
            } else {
                0
            };
            pixels.set(idx, v);
            proof {
                assert forall|px: int, py: int|
                    (0 <= px < WIDTH && 0 <= py < y) || (0 <= px < x + 1 && py == y)
                        implies #[trigger] pixels@[pixel_index(px, py)] == if in_pill(px, py) {
                        bgra(PILL_BG, 255)
                    } else {
                        0
                    } by {
                    if py < y {
                        assert(pixel_index(px, py) < pixel_index(x as int, y as int));
                    } else if px < x {
                        assert(pixel_index(px, py) < pixel_index(x as int, y as int));
                    }
                }
            }
            x = x + 1;
        }
        y = y + 1;
    }
}

/// After text drawing, which clears the alpha byte of the pixels it
/// touches, the pill's interior is made fully opaque again; pixels outside
/// the pill are left as they are.
pub fn restore_pill_alpha(pixels: &mut Vec<u32>)
    requires
        old(pixels)@.len() == pixel_count(),
    ensures
        final(pixels)@.len() == pixel_count(),
        forall|x: int, y: int|
            0 <= x < WIDTH && 0 <= y < HEIGHT ==> #[trigger] final(pixels)@[pixel_index(x, y)] == if in_pill(
                x,
                y,
            ) {
                old(pixels)@[pixel_index(x, y)] | 0xFF00_0000u32
            } else {
                old(pixels)@[pixel_index(x, y)]
            },
{
    let ghost orig = pixels@;
    let mut y: i32 = 0;
    while y < HEIGHT
        invariant
            0 <= y <= HEIGHT,
            pixels@.len() == pixel_count(),
            orig.len() == pixel_count(),
            forall|px: int, py: int|
                0 <= px < WIDTH && y <= py < HEIGHT ==> #[trigger] pixels@[pixel_index(px, py)]
                    == orig[pixel_index(px, py)],
            forall|px: int, py: int|
                0 <= px < WIDTH && 0 <= py < y ==> #[trigger] pixels@[pixel_index(px, py)] == if in_pill(
                    px,
                    py,
                ) {
                    orig[pixel_index(px, py)] | 0xFF00_0000u32
                } else {
                    orig[pixel_index(px, py)]
                },
        decreases HEIGHT - y,
    {
        let mut x: i32 = 0;
        while x < WIDTH
            invariant
                0 <= y < HEIGHT,
                0 <= x <= WIDTH,
                pixels@.len() == pixel_count(),
                orig.len() == pixel_count(),
                forall|px: int, py: int|
                    ((x <= px < WIDTH && py == y) || (0 <= px < WIDTH && y < py < HEIGHT))
                        ==> #[trigger] pixels@[pixel_index(px, py)] == orig[pixel_index(px, py)],
                forall|px: int, py: int|
                    (0 <= px < WIDTH && 0 <= py < y) || (0 <= px < x && py == y)
                        ==> #[trigger] pixels@[pixel_index(px, py)] == if in_pill(px, py) {
                        orig[pixel_index(px, py)] | 0xFF00_0000u32
                    } else {
                        orig[pixel_index(px, py)]
                    },
            decreases WIDTH - x,
        {
            proof {
                lemma_frame_points_fit(x as int, y as int);
            }
            let idx = (y * WIDTH + x) as usize;
            if point_in_pill(x, y) {
                let v = pixels[idx] | 0xFF00_0000;
                pixels.set(idx, v);
            }
            proof {
                assert forall|px: int, py: int|
                    ((x + 1 <= px < WIDTH && py == y) || (0 <= px < WIDTH && y < py < HEIGHT))
                        implies #[trigger] pixels@[pixel_index(px, py)] == orig[pixel_index(px, py)] by {
                    assert(pixel_index(px, py) > pixel_index(x as int, y as int));
                }
                assert forall|px: int, py: int|
                    (0 <= px < WIDTH && 0 <= py < y) || (0 <= px < x + 1 && py == y)
                        implies #[trigger] pixels@[pixel_index(px, py)] == if in_pill(px, py) {
                        orig[pixel_index(px, py)] | 0xFF00_0000u32
                    } else {
                        orig[pixel_index(px, py)]
                    } by {
                    if py < y || px < x {
                        assert(pixel_index(px, py) < pixel_index(x as int, y as int));
                    }
                }
            }
            x = x + 1;
        }
        y = y + 1;
    }
}

/// The ellipsis that marks a truncated transcript.
pub const ELLIPSIS: char = '\u{2026}';

/// `i` is the position of the first space in `t`.
pub open spec fn first_space_at(t: Seq<char>, i: int) -> bool {
    &&& 0 <= i < t.len()
    &&& t[i] == ' '
    &&& forall|j: int| 0 <= j < i ==> t[j] != ' '
}

/// What the pill shows of a transcript: the whole text when it has at
/// most `max` characters; otherwise its last `max` characters, cut at their
/// first space (the space kept) so that no partial word shows, after an
/// ellipsis.
pub open spec fn display_tail(s: Seq<char>, max: nat) -> Seq<char> {
    if s.len() <= max {
        s
    } else {
        let tail = s.subrange(s.len() - max, s.len() as int);
        if exists|i: int| first_space_at(tail, i) {
            let i = choose|i: int| first_space_at(tail, i);
            seq![ELLIPSIS] + tail.subrange(i, tail.len() as int)
        } else {
            seq![ELLIPSIS] + tail
        }
    }
}

/// Keeps the tail of the transcript when it outgrows the two-line text
/// area: the newest words are what the speaker needs to see.
pub fn tail_for_display(text: &str, max_chars: usize) -> (r: String)
    ensures
        r@ == display_tail(text@, max_chars as nat),
{
    let chars = chars_of(text);
    let n = chars.len();
    if n <= max_chars {
        return string_of(&chars);
    }
    let start = n - max_chars;
    let ghost tail = chars@.subrange(start as int, n as int);
    let mut i: usize = start;
    while i < n && chars[i] != ' '
        invariant
            start <= i <= n,
            n == chars.len(),
            tail == chars@.subrange(start as int, n as int),
            forall|j: int| 0 <= j < i - start ==> tail[j] != ' ',
        decreases n - i,
    {
        i = i + 1;
    }
    let cut = if i < n {
        i
    } else {
        start
    };
    let mut out = String::new();
    push_char(&mut out, ELLIPSIS);
    let mut k: usize = cut;
    while k < n
        invariant
            cut <= k <= n,
            n == chars.len(),
            out@ == seq![ELLIPSIS] + chars@.subrange(cut as int, k as int),
        decreases n - k,
    {
        push_char(&mut out, chars[k]);
        k = k + 1;
        assert(out@ =~= seq![ELLIPSIS] + chars@.subrange(cut as int, k as int));
    }
    proof {
        if i < n {
            let f = (i - start) as int;
            assert(first_space_at(tail, f));
            let c = choose|c: int| first_space_at(tail, c);
            if c < f {
                assert(tail[c] != ' ');
            } else if c > f {
                assert(tail[f] != ' ');
            }
            assert(tail.subrange(f, tail.len() as int) =~= chars@.subrange(i as int, n as int));
        } else {
            assert(!exists|c: int| first_space_at(tail, c));
            assert(tail =~= chars@.subrange(cut as int, n as int));
        }
    }
    out
}

/// A transcript that outgrows the area is shown as an ellipsis followed by
/// the newest text: a suffix of the transcript of at most `max` characters.
pub proof fn lemma_display_tail_shows_newest_text(s: Seq<char>, max: nat)
    requires
        s.len() > max,
    ensures
        display_tail(s, max).len() >= 1,
        display_tail(s, max)[0] == ELLIPSIS,
        display_tail(s, max).len() - 1 <= max,
        display_tail(s, max).drop_first() == s.subrange(
            s.len() - (display_tail(s, max).len() - 1),
            s.len() as int,
        ),
{
    let tail = s.subrange(s.len() - max, s.len() as int);
    let d = display_tail(s, max);
    if exists|i: int| first_space_at(tail, i) {
        let i = choose|i: int| first_space_at(tail, i);
        assert(d.drop_first() =~= s.subrange(s.len() - (d.len() - 1), s.len() as int));
    } else {
        assert(d.drop_first() =~= s.subrange(s.len() - (d.len() - 1), s.len() as int));
    }
}

/// A transcript longer than the area is cut at the first space among its
/// last `max` characters: what follows the ellipsis starts with that space
/// and runs to the end, so it holds `max - f` characters where `f` is the
/// space's place in those last characters.
pub proof fn lemma_display_tail_cuts_at_first_space(s: Seq<char>, max: nat, f: int)
    requires
        s.len() > max,
        0 <= f < max,
        s[s.len() - max + f] == ' ',
        forall|j: int| s.len() - max <= j < s.len() - max + f ==> #[trigger] s[j] != ' ',
    ensures
        display_tail(s, max) == seq![ELLIPSIS] + s.subrange(s.len() - max + f, s.len() as int),
        display_tail(s, max).len() == max - f + 1,
{
    let tail = s.subrange(s.len() - max, s.len() as int);
    assert(first_space_at(tail, f));
    let c = choose|c: int| first_space_at(tail, c);
    if c < f {
        assert(tail[c] == s[s.len() - max + c]);
    } else if c > f {
        assert(tail[f] == s[s.len() - max + f]);
    }
    assert(tail.subrange(f, tail.len() as int) =~= s.subrange(s.len() - max + f, s.len() as int));
}

/// A transcript longer than the area whose last `max` characters hold no
/// space is shown as the ellipsis and those last `max` characters.
pub proof fn lemma_display_tail_without_space(s: Seq<char>, max: nat)
    requires
        s.len() > max,
        forall|j: int| s.len() - max <= j < s.len() ==> #[trigger] s[j] != ' ',
    ensures
        display_tail(s, max) == seq![ELLIPSIS] + s.subrange(s.len() - max, s.len() as int),
{
    let tail = s.subrange(s.len() - max, s.len() as int);
    assert forall|c: int| !first_space_at(tail, c) by {
        if 0 <= c < tail.len() {
            assert(tail[c] == s[s.len() - max + c]);
        }
    }
}

/// The transcript shown while recording: a hint before anything has been
/// heard, otherwise the tail of the partial transcript.
pub open spec fn display_text_of(partial: Seq<char>) -> (Seq<char>, (u8, u8, u8)) {
    if partial.len() == 0 {
        ("Listening\u{2026}"@, HINT_COLOR)
    } else {
        (display_tail(partial, TEXT_MAX_CHARS as nat), TEXT_COLOR)
    }
}

/// The text and color of the pill's transcript area.
pub fn display_text(partial: &str) -> (r: (String, (u8, u8, u8)))
    ensures
        (r.0@, r.1) == display_text_of(partial@),
{
    let chars = chars_of(partial);
    if chars.len() == 0 {
        let mut s = String::new();
        s.append("Listening\u{2026}");
        (s, HINT_COLOR)
    } else {
        (tail_for_display(partial, TEXT_MAX_CHARS), TEXT_COLOR)
    }
}

/// The mode chip's label for a writing mode.
pub open spec fn chip_label_of(m: WritingMode) -> Seq<char> {
    "Mode: "@ + mode_label(m) + "  \u{25B8}"@
}

/// The label drawn on the mode chip.
pub fn chip_label(mode: WritingMode) -> (r: String)
    ensures
        r@ == chip_label_of(mode),
{
    let mut s = String::new();
    s.append("Mode: ");
    s.append(mode.label());
    s.append("  \u{25B8}");
    assert(s@ =~= chip_label_of(mode));
    s
}

/// A 16-bit field of a message parameter read as a signed coordinate.
pub open spec fn signed_word(v: int) -> int {
    if v >= 0x8000 {
        v - 0x10000
    } else {
        v
    }
}

/// The client coordinates of a mouse message: x in the low word of
/// `lparam`, y in the next word, each a signed 16-bit value.
pub open spec fn click_point_of(lparam: isize) -> (int, int) {
    (signed_word((lparam & 0xFFFF) as int), signed_word(((lparam >> 16) & 0xFFFF) as int))
}

fn low_word_signed(w: isize) -> (r: i32)
    requires
        0 <= w <= 0xFFFF,
    ensures
        r == signed_word(w as int),
{
    let r = w as i16 as i32;
    assert(r == if w >= 0x8000 { w - 0x10000 } else { w as int }) by (bit_vector)
        requires
            0 <= w <= 0xFFFF,
            r == w as i16 as i32,
    ;
    r
}

/// Decodes the click position carried by a mouse message's `lparam`.
pub fn click_point(lparam: isize) -> (r: (i32, i32))
    ensures
        (r.0 as int, r.1 as int) == click_point_of(lparam),
{
    let lo = lparam & 0xFFFF;
    let hi = (lparam >> 16) & 0xFFFF;
    assert(0 <= lo <= 0xFFFF && 0 <= hi <= 0xFFFF) by (bit_vector)
        requires
            lo == lparam & 0xFFFF,
            hi == (lparam >> 16) & 0xFFFF,
    ;
    (low_word_signed(lo), low_word_signed(hi))
}

/// Whether a mouse press with this `lparam` lands on the mode chip.
pub fn chip_clicked(lparam: isize) -> (r: bool)
    ensures
        r == in_chip(click_point_of(lparam).0, click_point_of(lparam).1),
{
    let (x, y) = click_point(lparam);
    point_in_chip(x, y)
}

} // verus!
