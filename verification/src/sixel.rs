//! Sixel encoding of a bitmap.
//!
//! A sixel is one printable byte that carries six vertically stacked pixels.
//! A window of words, one word per pixel and row after row, is cut into bands
//! of six rows; each band becomes one sixel per column, followed by `$-`
//! ("return and advance").

use vstd::prelude::*;
use crate::text::{ascii, lemma_ascii_decodes, string_from_utf8};

verus! {

/// `$`, carriage return inside a sixel image.
pub const RETURN: u8 = 36;

/// `-`, advance to the next band.
pub const ADVANCE: u8 = 45;

/// `?`, the sixel with no pixel set.
pub const BLANK: u8 = 63;

/// `~`, the sixel with all six pixels set.
pub const FULL: u8 = 126;

/// `_`, the sixel with only the lowest pixel set.
pub const LOWEST: u8 = 95;

/// `@`, the sixel with only the highest pixel set.
pub const HIGHEST: u8 = 64;

/// Whether the pixel at `offset` is set. Offsets outside the window count as
/// unset.
pub open spec fn lit(window: Seq<u32>, offset: int) -> bool {
    0 <= offset < window.len() && window[offset] > 0
}

/// The value of bit `y` of a sixel.
pub open spec fn weight(y: nat) -> nat {
    if y == 0 {
        1
    } else if y == 1 {
        2
    } else if y == 2 {
        4
    } else if y == 3 {
        8
    } else if y == 4 {
        16
    } else {
        32
    }
}

/// The bits of the sixel at column `x` of the band that starts at `row`,
/// taking only the first `rows` rows of the band into account.
pub open spec fn sixel_bits(window: Seq<u32>, width: nat, row: nat, x: nat, rows: nat) -> nat
    decreases rows,
{
    if rows == 0 {
        0
    } else {
        let y = (rows - 1) as nat;
        sixel_bits(window, width, row, x, y) + if lit(window, (x + (row + y) * width) as int) {
            weight(y)
        } else {
            0
        }
    }
}

/// The sixel byte at column `x` of the band that starts at `row`.
pub open spec fn sixel(window: Seq<u32>, width: nat, row: nat, x: nat) -> u8 {
    (BLANK + sixel_bits(window, width, row, x, 6)) as u8
}

/// The end of a line of the image: `$-`.
pub open spec fn line_end() -> Seq<u8> {
    seq![RETURN, ADVANCE]
}

/// An edge of the border: `width + 2` copies of `mark` and a line end, or
/// nothing where no border is drawn.
pub open spec fn edge(width: nat, mark: u8, border: bool) -> Seq<u8> {
    if border {
        Seq::new(width + 2, |i: int| mark) + line_end()
    } else {
        Seq::empty()
    }
}

/// What stands on either side of a band: `~` inside a border, else nothing.
pub open spec fn side(border: bool) -> Seq<u8> {
    if border {
        seq![FULL]
    } else {
        Seq::empty()
    }
}

/// The band that starts at `row`: one sixel per column and a line end.
pub open spec fn band(window: Seq<u32>, width: nat, row: nat, border: bool) -> Seq<u8> {
    side(border) + Seq::new(width, |x: int| sixel(window, width, row, x as nat)) + side(border)
        + line_end()
}

/// The first `count` bands of the image.
pub open spec fn bands(window: Seq<u32>, width: nat, border: bool, count: nat) -> Seq<u8>
    decreases count,
{
    if count == 0 {
        Seq::empty()
    } else {
        bands(window, width, border, (count - 1) as nat) + band(
            window,
            width,
            (6 * (count - 1)) as nat,
            border,
        )
    }
}

/// The number of bands of an image of `height` rows: one for every row that
/// is a multiple of six below `height`.
pub open spec fn band_count(height: nat) -> nat {
    (height + 5) / 6
}

/// The sixel image of `window`, read as `height` rows of `width` pixels.
pub open spec fn frame(window: Seq<u32>, width: nat, height: nat, border: bool) -> Seq<u8> {
    edge(width, LOWEST, border) + bands(window, width, border, band_count(height)) + edge(
        width,
        HIGHEST,
        border,
    )
}

/// The bytes that open a sixel image: `ESC P q`.
pub open spec fn begin_bytes() -> Seq<u8> {
    seq![27u8, 80u8, 113u8]
}

/// The bytes that close a sixel image: `ESC \`.
pub open spec fn end_bytes() -> Seq<u8> {
    seq![27u8, 92u8]
}

/// The length of a band: one sixel for each column, the two sides of the
/// border and the line end.
pub open spec fn band_len(width: nat, border: bool) -> nat {
    if border {
        width + 4
    } else {
        width + 2
    }
}

/// A sixel image holds one byte for each column of each band, the line ends
/// and, with a border, its two edges and the sides of each band.
pub proof fn lemma_frame_len(window: Seq<u32>, width: nat, height: nat, border: bool)
    ensures
        frame(window, width, height, border).len() == band_count(height) * band_len(
            width,
            border,
        ) + if border {
            2 * (width + 4)
        } else {
            0
        },
{
    lemma_bands_len(window, width, border, band_count(height));
}

proof fn lemma_bands_len(window: Seq<u32>, width: nat, border: bool, count: nat)
    ensures
        bands(window, width, border, count).len() == count * band_len(width, border),
    decreases count,
{
    if count > 0 {
        lemma_bands_len(window, width, border, (count - 1) as nat);
        assert(count * band_len(width, border) == (count - 1) * band_len(width, border)
            + band_len(width, border)) by (nonlinear_arith);
    } else {
        assert(count * band_len(width, border) == 0) by (nonlinear_arith)
            requires
                count == 0,
        ;
    }
}

/// Every byte of a sixel image is printable ASCII.
pub proof fn lemma_frame_is_printable(window: Seq<u32>, width: nat, height: nat, border: bool)
    ensures
        forall|i: int|
            0 <= i < frame(window, width, height, border).len() ==> RETURN <= #[trigger] frame(
                window,
                width,
                height,
                border,
            )[i] <= FULL,
{
    lemma_bands_are_printable(window, width, border, band_count(height));
}

proof fn lemma_sixel_bits_bound(window: Seq<u32>, width: nat, row: nat, x: nat, rows: nat)
    requires
        rows <= 6,
    ensures
        sixel_bits(window, width, row, x, rows) < weight(rows) || (rows == 6 && sixel_bits(
            window,
            width,
            row,
            x,
            rows,
        ) < 64),
    decreases rows,
{
    if rows > 0 {
        lemma_sixel_bits_bound(window, width, row, x, (rows - 1) as nat);
    }
}

proof fn lemma_band_is_printable(window: Seq<u32>, width: nat, row: nat, border: bool)
    ensures
        forall|i: int|
            0 <= i < band(window, width, row, border).len() ==> RETURN <= #[trigger] band(
                window,
                width,
                row,
                border,
            )[i] <= FULL,
{
    assert forall|x: int| 0 <= x < width implies BLANK <= #[trigger] sixel(
        window,
        width,
        row,
        x as nat,
    ) <= FULL by {
        lemma_sixel_bits_bound(window, width, row, x as nat, 6);
    }
}

proof fn lemma_bands_are_printable(window: Seq<u32>, width: nat, border: bool, count: nat)
    ensures
        forall|i: int|
            0 <= i < bands(window, width, border, count).len() ==> RETURN <= #[trigger] bands(
                window,
                width,
                border,
                count,
            )[i] <= FULL,
    decreases count,
{
    if count > 0 {
        let row = (6 * (count - 1)) as nat;
        let head = bands(window, width, border, (count - 1) as nat);
        let tail = band(window, width, row, border);
        lemma_bands_are_printable(window, width, border, (count - 1) as nat);
        lemma_band_is_printable(window, width, row, border);
        assert forall|i: int| 0 <= i < (head + tail).len() implies RETURN <= #[trigger] (head
            + tail)[i] <= FULL by {
            if i < head.len() {
                assert((head + tail)[i] == head[i]);
            } else {
                assert((head + tail)[i] == tail[i - head.len()]);
            }
        }
    }
}

/// The opening sequence of a sixel image, `ESC P q`.
pub fn begin() -> (text: String)
    ensures
        text@ == ascii(begin_bytes()),
{
    proof {
        reveal_strlit("\x1bPq");
    }
    let text = "\x1bPq".to_owned();
    assert(text@ =~= ascii(begin_bytes()));
    text
}

/// The closing sequence of a sixel image, `ESC \`.
pub fn end() -> (text: String)
    ensures
        text@ == ascii(end_bytes()),
{
    proof {
        reveal_strlit("\x1b\\");
    }
    let text = "\x1b\\".to_owned();
    assert(text@ =~= ascii(end_bytes()));
    text
}

/// Whether the pixel in row `row + y` and column `x` is set.
fn pixel(memory: &[u32], width: usize, row: usize, x: usize, y: u8) -> (set: bool)
    requires
        x < width,
    ensures
        set == lit(memory@, (x + (row + y) * width) as int),
{
    let length = memory.len();
    assert((row + y) * width >= row + y) by (nonlinear_arith)
        requires
            width >= 1,
            row + y >= 0,
    ;
    let line = match row.checked_add(y as usize) {
        Some(line) => line,
        None => {
            return false;
        },
    };
    let start = match line.checked_mul(width) {
        Some(start) => start,
        None => {
            return false;
        },
    };
    let offset = match start.checked_add(x) {
        Some(offset) => offset,
        None => {
            return false;
        },
    };
    offset < length && memory[offset] > 0
}

/// The sixel byte at column `x` of the band that starts at `row`.
fn pack(memory: &[u32], width: usize, row: usize, x: usize) -> (byte: u8)
    requires
        x < width,
    ensures
        byte == sixel(memory@, width as nat, row as nat, x as nat),
{
    let mut byte: u8 = 0;
    let mut y: u8 = 0;
    while y < 6
        invariant
            y <= 6,
            x < width,
            byte == sixel_bits(memory@, width as nat, row as nat, x as nat, y as nat),
            byte < weight(y as nat) || (y == 6 && byte < 64),
        decreases 6 - y,
    {
        if pixel(memory, width, row, x, y) {
            let bit: u8 = 1u8 << y;
            assert(bit == weight(y as nat)) by {
                assert(1u8 << 0u8 == 1) by (bit_vector);
                assert(1u8 << 1u8 == 2) by (bit_vector);
                assert(1u8 << 2u8 == 4) by (bit_vector);
                assert(1u8 << 3u8 == 8) by (bit_vector);
                assert(1u8 << 4u8 == 16) by (bit_vector);
                assert(1u8 << 5u8 == 32) by (bit_vector);
            }
            assert(byte | bit == byte + bit) by (bit_vector)
                requires
                    y < 6,
                    bit == 1u8 << y,
                    byte < bit,
            ;
            byte = byte | bit;
        }
        y += 1;
    }
    byte + 63
}

/// Appends an edge of the border: `width + 2` copies of `mark` and a line end.
fn push_edge(pixels: &mut Vec<u8>, width: usize, mark: u8)
    ensures
        final(pixels)@ == old(pixels)@ + edge(width as nat, mark, true),
{
    let mut x: usize = 0;
    while x < width
        invariant
            x <= width,
            pixels@ == old(pixels)@ + Seq::new(x as nat, |i: int| mark),
        decreases width - x,
    {
        pixels.push(mark);
        x += 1;
        assert(pixels@ =~= old(pixels)@ + Seq::new(x as nat, |i: int| mark));
    }
    pixels.push(mark);
    pixels.push(mark);
    pixels.push(RETURN);
    pixels.push(ADVANCE);
    assert(pixels@ =~= old(pixels)@ + edge(width as nat, mark, true));
}

/// Appends the band that starts at `row`.
fn push_band(pixels: &mut Vec<u8>, memory: &[u32], width: usize, row: usize, border: bool)
    ensures
        final(pixels)@ == old(pixels)@ + band(memory@, width as nat, row as nat, border),
{
    if border {
        pixels.push(FULL);
    }
    let ghost head = pixels@;
    let mut x: usize = 0;
    while x < width
        invariant
            x <= width,
            pixels@ == head + Seq::new(
                x as nat,
                |i: int| sixel(memory@, width as nat, row as nat, i as nat),
            ),
        decreases width - x,
    {
        let byte = pack(memory, width, row, x);
        pixels.push(byte);
        x += 1;
        assert(pixels@ =~= head + Seq::new(
            x as nat,
            |i: int| sixel(memory@, width as nat, row as nat, i as nat),
        ));
    }
    if border {
        pixels.push(FULL);
    }
    pixels.push(RETURN);
    pixels.push(ADVANCE);
    assert(pixels@ =~= old(pixels)@ + band(memory@, width as nat, row as nat, border));
}

/// Encodes `memory`, read as `height` rows of `width` pixels, as the bytes of
/// a sixel image. A word greater than zero is a set pixel; a pixel past the
/// end of `memory` is unset. With `border` the image is framed.
pub fn encode(memory: &[u32], width: usize, height: usize, border: bool) -> (pixels: Vec<u8>)
    ensures
        pixels@ == frame(memory@, width as nat, height as nat, border),
{
    let mut pixels: Vec<u8> = Vec::new();
    if border {
        push_edge(&mut pixels, width, LOWEST);
    }
    let ghost top = pixels@;
    let mut row: usize = 0;
    let mut count: Ghost<nat> = Ghost(0);
    while row < height
        invariant
            row <= height,
            row < height ==> row == 6 * count@,
            row == height ==> count@ == band_count(height as nat),
            pixels@ == top + bands(memory@, width as nat, border, count@),
        decreases height - row,
    {
        push_band(&mut pixels, memory, width, row, border);
        proof {
            assert(pixels@ =~= top + bands(memory@, width as nat, border, count@ + 1));
            count@ = count@ + 1;
        }
        if height - row <= 6 {
            row = height;
        } else {
            row += 6;
        }
    }
    if border {
        push_edge(&mut pixels, width, HIGHEST);
    }
    assert(pixels@ =~= frame(memory@, width as nat, height as nat, border));
    pixels
}

/// Encodes `memory`, read as `height` rows of `width` pixels, as the text of
/// a sixel image.
pub fn from(memory: &[u32], width: usize, height: usize, border: bool) -> (text: String)
    ensures
        text@ == ascii(frame(memory@, width as nat, height as nat, border)),
{
    let pixels = encode(memory, width, height, border);
    proof {
        lemma_frame_is_printable(memory@, width as nat, height as nat, border);
        lemma_ascii_decodes(pixels@);
    }
    match string_from_utf8(pixels) {
        Ok(text) => text,
        Err(_) => String::new(),
    }
}

} // verus!
