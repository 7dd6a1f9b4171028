//! From pixels to tokens: the character ramps, the downscaling of an image
//! to a bound, and the mapping of every sampled pixel to a character.

use crate::pixels::{can_resample, resample_fits, PixelGrid, PixelMatrix, Rgba};
use crate::utils::{
    chars_of, delays_defined, ends_with_word, extension_of, find_last, frame_models,
    is_supported_extension, lemma_last_index_of, AsciiError, AsciiFrame, AsciiToken, FrameModel,
    LINE_BREAK,
};
use vstd::arithmetic::div_mod::{lemma_fundamental_div_mod, lemma_fundamental_div_mod_converse};
use vstd::prelude::*;

verus! {

/// The ramp of 70 characters, from the lightest glyph to the heaviest.
pub const ASCII_DETAILED: [char; 70] = [
    ' ', '.', '\'', '`', '^', '"', ',', ':', ';', 'I', 'l', '!', 'i', '>', '<', '~', '+', '_', '-',
    '?', ']', '[', '}', '{', '1', ')', '(', '|', '\\', '/', 't', 'f', 'j', 'r', 'x', 'n', 'u', 'v',
    'c', 'z', 'X', 'Y', 'U', 'J', 'C', 'L', 'Q', '0', 'O', 'Z', 'm', 'w', 'q', 'p', 'd', 'b', 'k',
    'h', 'a', 'o', '*', '#', 'M', 'W', '&', '8', '%', 'B', '@', '$',
];

/// The ramp of 10 characters, from the lightest glyph to the heaviest.
pub const ASCII_SIMPLE: [char; 10] = [' ', '.', ':', '-', '=', '+', '*', '#', '%', '@'];

/// The largest intensity a pixel can have.
pub const MAX_VALUE: u32 = 255;

/// The bound used where the caller gives none.
pub const DEFAULT_SCALE: u32 = 72;

/// The characters of a custom ramp, where one is given.
pub open spec fn mapping_chars(mapping: Option<String>) -> Option<Seq<char>> {
    match mapping {
        Some(text) => Some(text@),
        None => None,
    }
}

/// The ramp in use: the custom one where it is given, character for
/// character; else the detailed one where it is asked for; else the simple one.
pub open spec fn ramp_for(mapping: Option<Seq<char>>, detail_flag: bool) -> Seq<char> {
    match mapping {
        Some(chars) => chars,
        None => if detail_flag {
            ASCII_DETAILED@
        } else {
            ASCII_SIMPLE@
        },
    }
}

/// Copies a table of characters.
fn table_to_vec<const N: usize>(table: &[char; N]) -> (chars: Vec<char>)
    ensures
        chars@ == table@,
{
    let mut chars: Vec<char> = Vec::new();
    let mut i: usize = 0;
    while i < N
        invariant
            i <= N,
            chars@.len() == i,
            forall|k: int| 0 <= k < i ==> chars@[k] == table@[k],
        decreases N - i,
    {
        chars.push(table[i]);
        i += 1;
    }
    chars
}

/// Resolves the ramp that a conversion uses.
pub fn select_ramp(mapping: &Option<String>, detail_flag: bool) -> (ascii_table: Vec<char>)
    ensures
        ascii_table@ == ramp_for(mapping_chars(*mapping), detail_flag),
{
    match mapping {
        Some(text) => crate::utils::chars_of(text.as_str()),
        None => if detail_flag {
            table_to_vec(&ASCII_DETAILED)
        } else {
            table_to_vec(&ASCII_SIMPLE)
        },
    }
}

/// The position in a ramp of `ramp_len` characters that an intensity between
/// 0 and 255 selects: the intensity's share of the last position, rounded down.
pub open spec fn ramp_index(intensity: nat, ramp_len: nat) -> nat {
    (intensity * (ramp_len - 1) / 255) as nat
}

/// Intensity 0 selects the first position of a ramp and intensity 255 the
/// last; a higher intensity never selects an earlier position; and every
/// intensity up to 255 selects a position of the ramp.
pub proof fn lemma_ramp_index_monotonic(low: nat, high: nat, ramp_len: nat)
    requires
        low <= high <= 255,
        ramp_len >= 1,
    ensures
        ramp_index(0, ramp_len) == 0,
        ramp_index(255, ramp_len) == ramp_len - 1,
        ramp_index(low, ramp_len) <= ramp_index(high, ramp_len) < ramp_len,
{
    let last: int = ramp_len - 1;
    assert(low * last <= high * last && high * last <= 255 * last && 0 * last == 0) by (nonlinear_arith)
        requires
            low <= high <= 255,
            0 <= last,
    ;
}

/// Returns the character of a ramp that stands for an intensity.
pub fn asciify_intensity(intensity: u32, ascii_table: &Vec<char>) -> (token: char)
    requires
        intensity <= MAX_VALUE,
        ascii_table@.len() > 0,
    ensures
        token == ascii_table@[ramp_index(intensity as nat, ascii_table@.len()) as int],
{
    let last: usize = ascii_table.len() - 1;
    proof {
        lemma_ramp_index_monotonic(intensity as nat, 255, ascii_table@.len());
        assert(intensity * last <= 255 * last) by (nonlinear_arith)
            requires
                intensity <= 255,
                0 <= last,
        ;
    }
    let index: u128 = (intensity as u128 * last as u128) / 255;
    ascii_table[index as usize]
}

/// The intensity of a pixel: a third of each colour channel, each rounded
/// down, summed; 0 for a pixel that is fully transparent.
pub open spec fn intensity_of(pixel: Rgba) -> nat {
    if pixel.3 == 0 {
        0
    } else {
        (pixel.0 / 3 + pixel.1 / 3 + pixel.2 / 3) as nat
    }
}

/// The intensity of a pixel.
pub fn pixel_intensity(pixel: Rgba) -> (intensity: u32)
    ensures
        intensity == intensity_of(pixel),
        intensity <= MAX_VALUE,
{
    if pixel.3 == 0 {
        0
    } else {
        (pixel.0 / 3) as u32 + (pixel.1 / 3) as u32 + (pixel.2 / 3) as u32
    }
}

/// The dimensions that an image of `width` by `height` is brought to under
/// the bound `bound`: its own where it is narrower than the bound, else the
/// bound both ways.
pub open spec fn normalized_dims(width: nat, height: nat, bound: nat) -> (nat, nat) {
    if width < bound {
        (width, height)
    } else {
        (bound, bound)
    }
}

/// Whether the buffers needed to normalize `grid` under `bound` can exist.
pub open spec fn normalize_fits(grid: PixelGrid, bound: nat) -> bool {
    let dims = normalized_dims(grid.width, grid.height, bound);
    resample_fits(grid.width, dims.0, dims.1)
}

/// The image `grid` normalized under the bound `pixel_scale`.
pub open spec fn normalized(grid: PixelGrid, pixel_scale: u32) -> PixelGrid {
    let dims = normalized_dims(grid.width, grid.height, pixel_scale as nat);
    grid.resampled(dims.0 as u32, dims.1 as u32)
}

/// Decides `normalize_fits` at run time.
pub fn can_normalize(img: &PixelMatrix, pixel_scale: u32) -> (ok: bool)
    ensures
        ok == normalize_fits(img@, pixel_scale as nat),
{
    let width: u32 = img.width();
    let height: u32 = img.height();
    if width < pixel_scale {
        can_resample(width, width, height)
    } else {
        can_resample(width, pixel_scale, pixel_scale)
    }
}

/// Returns the image brought to the bound `pixel_scale`: an image narrower
/// than the bound keeps its dimensions, any other gets the bound as width and
/// as height. Either way the pixels pass through the Gaussian filter.
pub fn normalize_img(img: PixelMatrix, pixel_scale: u32) -> (out: PixelMatrix)
    requires
        normalize_fits(img@, pixel_scale as nat),
    ensures
        out@ == normalized(img@, pixel_scale),
        img@.width >= pixel_scale ==> out@.width == pixel_scale && out@.height == pixel_scale,
        img@.width < pixel_scale ==> out@.width == img@.width && out@.height == img@.height,
{
    let width: u32 = img.width();
    let height: u32 = img.height();
    // an image narrower than the bound keeps its own dimensions
    if width < pixel_scale {
        img.resample(width, height)
    } else {
        img.resample(pixel_scale, pixel_scale)
    }
}

/// Number of rows that are sampled out of `height` rows: every second one,
/// starting with the first.
pub open spec fn sampled_rows(height: nat) -> nat {
    (height + 1) / 2
}

/// The token for the pixel in column `x` of row `y`: the ramp's character for
/// the pixel's intensity, with the pixel's own colour.
pub open spec fn content_token(grid: PixelGrid, ramp: Seq<char>, x: int, y: int) -> AsciiToken {
    let pixel = grid.pixel(x, y);
    AsciiToken {
        token: ramp[ramp_index(intensity_of(pixel), ramp.len()) as int],
        rgb: (pixel.0, pixel.1, pixel.2),
        parent_img_width: grid.width as u32,
        parent_img_height: grid.height as u32,
    }
}

/// The token that ends a row.
pub open spec fn line_break_token(grid: PixelGrid) -> AsciiToken {
    AsciiToken {
        token: LINE_BREAK,
        rgb: (0, 0, 0),
        parent_img_width: grid.width as u32,
        parent_img_height: grid.height as u32,
    }
}

/// The token at position `k` of an image's token sequence. Each sampled row
/// takes one position for each column and one more for its line break.
pub open spec fn token_at(grid: PixelGrid, ramp: Seq<char>, k: int) -> AsciiToken {
    let stride = (grid.width + 1) as int;
    let row = k / stride;
    let column = k % stride;
    if column == grid.width {
        line_break_token(grid)
    } else {
        content_token(grid, ramp, column, 2 * row)
    }
}

/// The token sequence of an image: nothing for an image without columns;
/// else, for every second row from the first on, the tokens of its pixels
/// from left to right and then a line break.
pub open spec fn tokenized(grid: PixelGrid, ramp: Seq<char>) -> Seq<AsciiToken> {
    if grid.width == 0 {
        Seq::empty()
    } else {
        Seq::new(sampled_rows(grid.height) * (grid.width + 1), |k: int| token_at(grid, ramp, k))
    }
}

/// Position `row * (width + 1) + column` lies in row `row` at column `column`.
proof fn lemma_position(width: nat, row: int, column: int)
    requires
        0 <= row,
        0 <= column <= width,
    ensures
        (row * (width + 1) + column) / ((width + 1) as int) == row,
        (row * (width + 1) + column) % ((width + 1) as int) == column,
{
    lemma_fundamental_div_mod_converse(
        row * (width + 1) + column,
        (width + 1) as int,
        row,
        column,
    );
}

/// Converts an image's pixels into tokens.
pub fn convert_img_to_ascii_tokens(img: PixelMatrix, ascii_table: &Vec<char>) -> (img_tokens: Vec<
    AsciiToken,
>)
    requires
        ascii_table@.len() > 0,
    ensures
        img_tokens@ == tokenized(img@, ascii_table@),
{
    let width: u32 = img.width();
    let height: u32 = img.height();
    let mut img_tokens: Vec<AsciiToken> = Vec::new();
    if width == 0 {
        return img_tokens;
    }
    let ghost grid: PixelGrid = img@;
    let ghost ramp: Seq<char> = ascii_table@;
    let ghost stride: int = width + 1;
    let mut y: u32 = 0;
    while y < height
        invariant
            y <= height,
            grid == img@,
            ramp == ascii_table@,
            ramp.len() > 0,
            width == grid.width,
            height == grid.height,
            stride == width + 1,
            img_tokens@.len() == sampled_rows(y as nat) * stride,
            forall|k: int| 0 <= k < img_tokens@.len() ==> img_tokens@[k] == token_at(grid, ramp, k),
        decreases height - y,
    {
        if y % 2 == 0 {
            let ghost row: int = y as int / 2;
            let ghost start: int = row * stride;
            assert(sampled_rows(y as nat) == row);
            assert(sampled_rows((y + 1) as nat) == row + 1);
            assert((row + 1) * stride == start + stride) by (nonlinear_arith)
                requires
                    start == row * stride,
            ;
            let mut x: u32 = 0;
            while x < width
                invariant
                    x <= width,
                    y < height,
                    y == 2 * row,
                    0 <= row,
                    start == row * stride,
                    grid == img@,
                    ramp == ascii_table@,
                    ramp.len() > 0,
                    width == grid.width,
                    height == grid.height,
                    stride == width + 1,
                    img_tokens@.len() == start + x,
                    forall|k: int|
                        0 <= k < img_tokens@.len() ==> img_tokens@[k] == token_at(grid, ramp, k),
                decreases width - x,
            {
                let pixel: Rgba = img.get_pixel(x, y);
                let intensity: u32 = pixel_intensity(pixel);
                let token: char = asciify_intensity(intensity, ascii_table);
                proof {
                    lemma_position(width as nat, row, x as int);
                }
                img_tokens.push(
                    AsciiToken {
                        token,
                        rgb: (pixel.0, pixel.1, pixel.2),
                        parent_img_width: width,
                        parent_img_height: height,
                    },
                );
                x += 1;
            }
            proof {
                lemma_position(width as nat, row, width as int);
            }
            img_tokens.push(
                AsciiToken {
                    token: LINE_BREAK,
                    rgb: (0, 0, 0),
                    parent_img_width: width,
                    parent_img_height: height,
                },
            );
        } else {
            assert(sampled_rows((y + 1) as nat) == sampled_rows(y as nat));
        }
        y += 1;
    }
    img_tokens
}

/// Number of tokens in a sequence that are line breaks.
pub open spec fn count_line_breaks(tokens: Seq<AsciiToken>) -> nat
    decreases tokens.len(),
{
    if tokens.len() == 0 {
        0
    } else {
        count_line_breaks(tokens.drop_last()) + if tokens.last().token == LINE_BREAK {
            1nat
        } else {
            0nat
        }
    }
}

/// No pixel of a sampled row is given the line-break character by the ramp.
pub open spec fn ramp_spares_line_break(grid: PixelGrid, ramp: Seq<char>) -> bool {
    forall|x: int, y: int|
        0 <= x < grid.width && 0 <= y < grid.height && y % 2 == 0 ==> (#[trigger] content_token(
            grid,
            ramp,
            x,
            y,
        )).token != LINE_BREAK
}

/// Among the first `k` tokens of an image there is one line break for each
/// complete row.
proof fn lemma_line_breaks_in_prefix(grid: PixelGrid, ramp: Seq<char>, k: int)
    requires
        grid.wf(),
        grid.width > 0,
        ramp_spares_line_break(grid, ramp),
        0 <= k <= tokenized(grid, ramp).len(),
    ensures
        count_line_breaks(tokenized(grid, ramp).take(k)) == k / ((grid.width + 1) as int),
    decreases k,
{
    let tokens: Seq<AsciiToken> = tokenized(grid, ramp);
    let stride: int = (grid.width + 1) as int;
    if k > 0 {
        let at: int = k - 1;
        let row: int = at / stride;
        let column: int = at % stride;
        lemma_line_breaks_in_prefix(grid, ramp, at);
        assert(tokens.take(k).drop_last() == tokens.take(at));
        assert(tokens.take(k).last() == token_at(grid, ramp, at));
        lemma_fundamental_div_mod(at, stride);
        assert(stride * row == row * stride) by (nonlinear_arith);
        if column == grid.width {
            assert(k == (row + 1) * stride) by (nonlinear_arith)
                requires
                    k == row * stride + column + 1,
                    column + 1 == stride,
            ;
            lemma_fundamental_div_mod_converse(k, stride, row + 1, 0);
        } else {
            lemma_fundamental_div_mod_converse(k, stride, row, column + 1);
            let rows: int = sampled_rows(grid.height) as int;
            assert(row < rows) by (nonlinear_arith)
                requires
                    at < rows * stride,
                    at == row * stride + column,
                    0 <= column,
                    0 < stride,
            ;
            assert(2 * row < grid.height);
            assert(content_token(grid, ramp, column, 2 * row).token != LINE_BREAK);
        }
    } else {
        assert(tokens.take(0) == Seq::<AsciiToken>::empty());
    }
}

/// The tokens of an image hold one line break for each sampled row, that is
/// for half of its rows, rounded up. This holds where the image has a column,
/// or no row at all, and the ramp gives no pixel the line-break character.
pub proof fn lemma_line_break_count(grid: PixelGrid, ramp: Seq<char>)
    requires
        grid.wf(),
        ramp.len() > 0,
        grid.width > 0 || grid.height == 0,
        ramp_spares_line_break(grid, ramp),
    ensures
        count_line_breaks(tokenized(grid, ramp)) == sampled_rows(grid.height),
        2 * sampled_rows(grid.height) == grid.height || 2 * sampled_rows(grid.height)
            == grid.height + 1,
{
    let tokens: Seq<AsciiToken> = tokenized(grid, ramp);
    if grid.width > 0 {
        let stride: int = (grid.width + 1) as int;
        let rows: int = sampled_rows(grid.height) as int;
        lemma_line_breaks_in_prefix(grid, ramp, tokens.len() as int);
        assert(tokens.take(tokens.len() as int) == tokens);
        lemma_fundamental_div_mod_converse(rows * stride, stride, rows, 0);
    }
}

/// The tokens of an image with at least one column: one for each pixel of
/// each sampled row, and one line break for each sampled row.
pub proof fn lemma_token_count(grid: PixelGrid, ramp: Seq<char>)
    requires
        grid.width > 0,
    ensures
        tokenized(grid, ramp).len() == sampled_rows(grid.height) * (grid.width + 1),
{
}

/// Tokenizing the same pixels with the same ramp gives the same characters.
pub proof fn lemma_tokenize_deterministic(
    first: Seq<AsciiToken>,
    second: Seq<AsciiToken>,
    grid: PixelGrid,
    ramp: Seq<char>,
)
    requires
        first == tokenized(grid, ramp),
        second == tokenized(grid, ramp),
    ensures
        first == second,
        Seq::new(first.len(), |i: int| first[i].token) == Seq::new(
            second.len(),
            |i: int| second[i].token,
        ),
{
}

/// The place in an image's tokens of the pixel in column `x` of the sampled
/// row `y`.
pub open spec fn token_position(grid: PixelGrid, x: int, y: int) -> int {
    (y / 2) * (grid.width + 1) + x
}

/// The token of a pixel of a sampled row stands at the pixel's place, holds
/// the ramp's character for the pixel's intensity and keeps the pixel's
/// colour. A fully transparent pixel gets the first character of the ramp,
/// whatever its colour.
pub proof fn lemma_pixel_token(grid: PixelGrid, ramp: Seq<char>, x: int, y: int)
    requires
        grid.wf(),
        ramp.len() > 0,
        0 <= x < grid.width,
        0 <= y < grid.height,
        y % 2 == 0,
    ensures
        0 <= token_position(grid, x, y) < tokenized(grid, ramp).len(),
        tokenized(grid, ramp)[token_position(grid, x, y)] == content_token(grid, ramp, x, y),
        grid.pixel(x, y).3 == 0 ==> tokenized(grid, ramp)[token_position(grid, x, y)].token
            == ramp[0],
        tokenized(grid, ramp)[token_position(grid, x, y)].rgb == (
            grid.pixel(x, y).0,
            grid.pixel(x, y).1,
            grid.pixel(x, y).2,
        ),
{
    let stride: int = (grid.width + 1) as int;
    let row: int = y / 2;
    let rows: int = sampled_rows(grid.height) as int;
    lemma_position(grid.width, row, x);
    assert(row * stride + x < rows * stride) by (nonlinear_arith)
        requires
            0 <= row < rows,
            0 <= x < stride,
    ;
    assert(0 <= row * stride) by (nonlinear_arith)
        requires
            0 <= row,
            0 < stride,
    ;
    lemma_ramp_index_monotonic(0, 0, ramp.len());
}

/// One decoded frame of an animation: its pixels and its delay in
/// milliseconds, as a numerator and a denominator that is never 0.
#[derive(Debug)]
pub struct SourceFrame {
    pixels: PixelMatrix,
    delay: (u32, u32),
}

/// The mathematical model of a decoded frame.
pub struct SourceFrameModel {
    pub pixels: PixelGrid,
    pub delay: (u32, u32),
}

impl View for SourceFrame {
    type V = SourceFrameModel;

    closed spec fn view(&self) -> SourceFrameModel {
        SourceFrameModel { pixels: self.pixels@, delay: self.delay }
    }
}

impl SourceFrame {
    #[verifier::type_invariant]
    spec fn timed(self) -> bool {
        self.delay.1 != 0
    }

    /// Builds a frame from its pixels and its delay. A delay with the
    /// denominator 0 is refused.
    pub fn new(pixels: PixelMatrix, delay: (u32, u32)) -> (frame: Option<SourceFrame>)
        ensures
            frame is Some <==> delay.1 != 0,
            frame matches Some(f) ==> f@ == (SourceFrameModel { pixels: pixels@, delay }),
    {
        if delay.1 != 0 {
            Some(SourceFrame { pixels, delay })
        } else {
            None
        }
    }

    /// The pixels of the frame.
    pub fn pixels(&self) -> (pixels: &PixelMatrix)
        ensures
            pixels@ == self@.pixels,
    {
        &self.pixels
    }

    /// The delay of the frame in milliseconds, as numerator and denominator.
    pub fn delay(&self) -> (delay: (u32, u32))
        ensures
            delay == self@.delay,
            delay.1 != 0,
    {
        proof {
            use_type_invariant(self);
        }
        self.delay
    }

    /// Takes the frame apart.
    pub fn into_parts(self) -> (parts: (PixelMatrix, (u32, u32)))
        ensures
            parts.0@ == self@.pixels,
            parts.1 == self@.delay,
            parts.1.1 != 0,
    {
        proof {
            use_type_invariant(&self);
        }
        (self.pixels, self.delay)
    }
}

/// The frame of tokens that a decoded frame becomes: its pixels normalized
/// and tokenized, its delay kept as the pair it came as.
pub open spec fn converted_frame(source: SourceFrameModel, ramp: Seq<char>, pixel_scale: u32)
    -> FrameModel {
    FrameModel {
        frame_tokens: tokenized(normalized(source.pixels, pixel_scale), ramp),
        delay: (source.delay.0 as u64, source.delay.1 as u64),
    }
}

/// Whether every frame can be normalized under `pixel_scale`.
pub open spec fn frames_fit(gif: Seq<SourceFrame>, pixel_scale: u32) -> bool {
    forall|i: int|
        0 <= i < gif.len() ==> normalize_fits((#[trigger] gif[i])@.pixels, pixel_scale as nat)
}

/// Decides `frames_fit` at run time.
pub fn can_normalize_frames(gif: &Vec<SourceFrame>, pixel_scale: u32) -> (ok: bool)
    ensures
        ok == frames_fit(gif@, pixel_scale),
{
    let mut i: usize = 0;
    while i < gif.len()
        invariant
            i <= gif@.len(),
            forall|k: int|
                0 <= k < i ==> normalize_fits((#[trigger] gif@[k])@.pixels, pixel_scale as nat),
        decreases gif@.len() - i,
    {
        if !can_normalize(gif[i].pixels(), pixel_scale) {
            return false;
        }
        i += 1;
    }
    true
}

/// Returns a collection of frames, each frame the tokens of one frame of the
/// animation, in the animation's order.
pub fn convert_gif_to_ascii_tokens(
    gif: Vec<SourceFrame>,
    ascii_table: &Vec<char>,
    pixel_scale: u32,
) -> (tokenized_gif: Vec<AsciiFrame>)
    requires
        ascii_table@.len() > 0,
        frames_fit(gif@, pixel_scale),
    ensures
        tokenized_gif@.len() == gif@.len(),
        forall|i: int|
            0 <= i < gif@.len() ==> (#[trigger] tokenized_gif@[i])@ == converted_frame(
                gif@[i]@,
                ascii_table@,
                pixel_scale,
            ),
        forall|i: int| 0 <= i < gif@.len() ==> (#[trigger] tokenized_gif@[i]).delay.1 != 0,
{
    let mut tokenized_gif: Vec<AsciiFrame> = Vec::new();
    for frame in it: gif
        invariant
            it.seq() == gif@,
            ascii_table@.len() > 0,
            frames_fit(gif@, pixel_scale),
            tokenized_gif@.len() == it.index(),
            forall|i: int|
                0 <= i < it.index() ==> (#[trigger] tokenized_gif@[i])@ == converted_frame(
                    gif@[i]@,
                    ascii_table@,
                    pixel_scale,
                ),
            forall|i: int| 0 <= i < it.index() ==> (#[trigger] tokenized_gif@[i]).delay.1 != 0,
    {
        assert(frame == gif@[it.index() as int]);
        let (pixels, frame_ratio) = frame.into_parts();
        let img: PixelMatrix = normalize_img(pixels, pixel_scale);
        let ascii_tokens: Vec<AsciiToken> = convert_img_to_ascii_tokens(img, ascii_table);
        let int_delay: (u64, u64) = (frame_ratio.0 as u64, frame_ratio.1 as u64);
        let ascii_frame: AsciiFrame = AsciiFrame { frame_tokens: ascii_tokens, delay: int_delay };
        tokenized_gif.push(ascii_frame);
    }
    tokenized_gif
}

/// What has to be decoded for a path.
#[derive(Debug, Clone, Copy, PartialEq, Eq, Structural)]
pub enum DecodeRequest {
    /// One image.
    Still,
    /// The frames of an animation, each with its delay.
    Animated,
}

/// What is decoded for a path: nothing for a path without an extension or
/// with one that is not supported, the frames for `gif`, one image otherwise.
pub open spec fn decode_request_for(path: Seq<char>) -> Result<DecodeRequest, AsciiError> {
    match extension_of(path) {
        None => Err(AsciiError::InvalidPath),
        Some(ext) => if !is_supported_extension(ext) {
            Err(AsciiError::UnsupportedFormat)
        } else if ext == seq!['g', 'i', 'f'] {
            Ok(DecodeRequest::Animated)
        } else {
            Ok(DecodeRequest::Still)
        },
    }
}

/// Decides from a path alone, before anything is read, what is to be decoded.
pub fn decode_request(path_arg: &String) -> (request: Result<DecodeRequest, AsciiError>)
    ensures
        request == decode_request_for(path_arg@),
{
    let chars: Vec<char> = chars_of(path_arg.as_str());
    let len: usize = chars.len();
    proof {
        lemma_last_index_of(chars@, '.');
    }
    match find_last(&chars, '.') {
        Some(dot) => {
            assert(dot < len);
            let start: usize = dot + 1;
            let jpg: [char; 3] = ['j', 'p', 'g'];
            let png: [char; 3] = ['p', 'n', 'g'];
            let gif: [char; 3] = ['g', 'i', 'f'];
            proof {
                assert(jpg@ =~= seq!['j', 'p', 'g']);
                assert(png@ =~= seq!['p', 'n', 'g']);
                assert(gif@ =~= seq!['g', 'i', 'f']);
            }
            if ends_with_word(&chars, start, gif) {
                Ok(DecodeRequest::Animated)
            } else if ends_with_word(&chars, start, jpg) || ends_with_word(&chars, start, png) {
                Ok(DecodeRequest::Still)
            } else {
                Err(AsciiError::UnsupportedFormat)
            }
        },
        None => Err(AsciiError::InvalidPath),
    }
}

/// What was decoded from a file.
#[derive(Debug)]
pub enum DecodedSource {
    Still(PixelMatrix),
    Animated(Vec<SourceFrame>),
}

/// The result of a conversion.
#[derive(Debug, PartialEq, Eq)]
pub enum ConvertedFile {
    /// The tokens of one image.
    IMAGE(Vec<AsciiToken>),
    /// The frames of an animation, in order.
    GIF(Vec<AsciiFrame>),
    /// The reason why nothing was converted.
    ERROR(String),
}

/// The mathematical model of a conversion's result.
pub enum ConvertedModel {
    IMAGE(Seq<AsciiToken>),
    GIF(Seq<FrameModel>),
    ERROR(Seq<char>),
}

impl View for ConvertedFile {
    type V = ConvertedModel;

    open spec fn view(&self) -> ConvertedModel {
        match self {
            ConvertedFile::IMAGE(tokens) => ConvertedModel::IMAGE(tokens@),
            ConvertedFile::GIF(frames) => ConvertedModel::GIF(frame_models(frames@)),
            ConvertedFile::ERROR(reason) => ConvertedModel::ERROR(reason@),
        }
    }
}

/// The bound in use: the one given, or 72.
pub open spec fn effective_scale(pixel_scale: Option<u32>) -> u32 {
    match pixel_scale {
        Some(scale) => scale,
        None => DEFAULT_SCALE,
    }
}

/// Whether everything that was decoded can be normalized under `pixel_scale`.
pub open spec fn source_fits(source: DecodedSource, pixel_scale: u32) -> bool {
    match source {
        DecodedSource::Still(img) => normalize_fits(img@, pixel_scale as nat),
        DecodedSource::Animated(frames) => frames_fit(frames@, pixel_scale),
    }
}

/// The result of converting what was decoded, or of failing to decode: the
/// tokens of the normalized image, the frames of the animation one for one,
/// or the reason of the failure.
pub open spec fn converted(
    source: Result<DecodedSource, AsciiError>,
    pixel_scale: u32,
    ramp: Seq<char>,
) -> ConvertedModel {
    match source {
        Ok(DecodedSource::Still(img)) => ConvertedModel::IMAGE(
            tokenized(normalized(img@, pixel_scale), ramp),
        ),
        Ok(DecodedSource::Animated(frames)) => ConvertedModel::GIF(
            Seq::new(frames@.len(), |i: int| converted_frame(frames@[i]@, ramp, pixel_scale)),
        ),
        Err(error) => ConvertedModel::ERROR(error.reason()),
    }
}

/// Decides at run time whether `process_file` can normalize what was decoded.
pub fn can_process(source: &DecodedSource, pixel_scale: Option<u32>) -> (ok: bool)
    ensures
        ok == source_fits(*source, effective_scale(pixel_scale)),
{
    let scale: u32 = match pixel_scale {
        Some(scale) => scale,
        None => DEFAULT_SCALE,
    };
    match source {
        DecodedSource::Still(img) => can_normalize(img, scale),
        DecodedSource::Animated(frames) => can_normalize_frames(frames, scale),
    }
}

/// Converts what was decoded from a file into tokens: picks the ramp and the
/// bound, then normalizes and tokenizes the image or each frame. A failure to
/// decode is handed on with its reason.
pub fn process_file(
    source: Result<DecodedSource, AsciiError>,
    pixel_scale: Option<u32>,
    detail_flag: bool,
    mapping: Option<String>,
) -> (out: ConvertedFile)
    requires
        mapping matches Some(text) ==> text@.len() > 0,
        source matches Ok(decoded) ==> source_fits(decoded, effective_scale(pixel_scale)),
    ensures
        out@ == converted(
            source,
            effective_scale(pixel_scale),
            ramp_for(mapping_chars(mapping), detail_flag),
        ),
        out matches ConvertedFile::GIF(frames) ==> delays_defined(frame_models(frames@)),
{
    // get char mapping
    let ascii_table: Vec<char> = select_ramp(&mapping, detail_flag);
    // check for scale
    let scale: u32 = match pixel_scale {
        Some(scale) => scale,
        None => DEFAULT_SCALE,
    };
    match source {
        Ok(DecodedSource::Animated(frames)) => {
            let ghost sources: Seq<SourceFrame> = frames@;
            let img_frames: Vec<AsciiFrame> = convert_gif_to_ascii_tokens(
                frames,
                &ascii_table,
                scale,
            );
            assert(frame_models(img_frames@) =~= Seq::new(
                sources.len(),
                |i: int| converted_frame(sources[i]@, ascii_table@, scale),
            ));
            ConvertedFile::GIF(img_frames)
        },
        Ok(DecodedSource::Still(img)) => {
            let img: PixelMatrix = normalize_img(img, scale);
            let img_tokens: Vec<AsciiToken> = convert_img_to_ascii_tokens(img, &ascii_table);
            ConvertedFile::IMAGE(img_tokens)
        },
        Err(error) => ConvertedFile::ERROR(error.message()),
    }
}

} // verus!
