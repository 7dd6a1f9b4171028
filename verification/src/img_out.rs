//! What is sent to a terminal, and what is drawn on a canvas, for a sequence
//! of tokens or of frames.

use crate::convert_img::{
    converted, effective_scale, mapping_chars, process_file, ramp_for, source_fits, ConvertedFile,
    ConvertedModel, DecodedSource,
};
use crate::pixels::Rgba;
use crate::utils::{
    build_output_file_name, delays_defined, file_name_of, frame_models, output_prefix, AsciiError,
    AsciiFrame, AsciiToken, FrameModel, LINE_BREAK,
};
use vstd::prelude::*;

verus! {

/// One step of writing to a terminal.
#[derive(Debug, PartialEq, Eq)]
pub enum TerminalOp {
    /// Clear the display.
    Clear,
    /// Set the foreground to an exact 24-bit colour.
    ForegroundRgb(u8, u8, u8),
    /// Set the foreground to an entry of the palette of 256 colours.
    ForegroundAnsi256(u8),
    /// Write one character.
    Put(char),
    /// Write a text and end the line, as one write.
    PrintLine(String),
    /// Wait for a number of milliseconds.
    Sleep(u64),
}

/// The mathematical model of a step.
pub enum TerminalOpModel {
    Clear,
    ForegroundRgb(u8, u8, u8),
    ForegroundAnsi256(u8),
    Put(char),
    PrintLine(Seq<char>),
    Sleep(u64),
}

impl View for TerminalOp {
    type V = TerminalOpModel;

    open spec fn view(&self) -> TerminalOpModel {
        match self {
            TerminalOp::Clear => TerminalOpModel::Clear,
            TerminalOp::ForegroundRgb(r, g, b) => TerminalOpModel::ForegroundRgb(*r, *g, *b),
            TerminalOp::ForegroundAnsi256(index) => TerminalOpModel::ForegroundAnsi256(*index),
            TerminalOp::Put(c) => TerminalOpModel::Put(*c),
            TerminalOp::PrintLine(text) => TerminalOpModel::PrintLine(text@),
            TerminalOp::Sleep(millis) => TerminalOpModel::Sleep(*millis),
        }
    }
}

/// The models of a sequence of steps.
pub open spec fn op_models(ops: Seq<TerminalOp>) -> Seq<TerminalOpModel> {
    Seq::new(ops.len(), |i: int| ops[i]@)
}

/// The entry of the terminal palette of 256 colours that stands for a
/// 24-bit colour.
pub uninterp spec fn ansi256_for(r: u8, g: u8, b: u8) -> u8;

/// Calls `rgb2ansi256::rgb_to_ansi256`. The contract claims only that the
/// entry returned is a function of the three channels, named `ansi256_for`.
#[verifier::external_body]
fn rgb_to_ansi256(r: u8, g: u8, b: u8) -> (index: u8)
    ensures
        index == ansi256_for(r, g, b),
{
    rgb2ansi256::rgb_to_ansi256(r, g, b)
}

/// `String::push` appends one character to the end of the text.
pub assume_specification[ String::push ](text: &mut String, ch: char)
    ensures
        final(text)@ == old(text)@.push(ch),
;

/// The step that sets the foreground for a token's colour: the colour itself
/// on a terminal with 24-bit colour, else its entry in the palette.
pub open spec fn foreground_op(rgb: (u8, u8, u8), truecolor_flag: bool) -> TerminalOpModel {
    if truecolor_flag {
        TerminalOpModel::ForegroundRgb(rgb.0, rgb.1, rgb.2)
    } else {
        TerminalOpModel::ForegroundAnsi256(ansi256_for(rgb.0, rgb.1, rgb.2))
    }
}

/// The steps for one token: a line break is written as it is, any other
/// character after its colour has been set.
pub open spec fn token_ops(token: AsciiToken, truecolor_flag: bool) -> Seq<TerminalOpModel> {
    if token.token == LINE_BREAK {
        seq![TerminalOpModel::Put(LINE_BREAK)]
    } else {
        seq![foreground_op(token.rgb, truecolor_flag), TerminalOpModel::Put(token.token)]
    }
}

/// The steps that write a sequence of tokens in colour, token by token.
pub open spec fn color_ops(tokens: Seq<AsciiToken>, truecolor_flag: bool) -> Seq<TerminalOpModel>
    decreases tokens.len(),
{
    if tokens.len() == 0 {
        Seq::empty()
    } else {
        color_ops(tokens.drop_last(), truecolor_flag) + token_ops(tokens.last(), truecolor_flag)
    }
}

/// The characters of a sequence of tokens, line breaks included.
pub open spec fn token_chars(tokens: Seq<AsciiToken>) -> Seq<char> {
    Seq::new(tokens.len(), |i: int| tokens[i].token)
}

/// The steps that write one image: in colour token by token, else its
/// characters as one line-buffered write.
pub open spec fn image_ops(tokens: Seq<AsciiToken>, color_flag: bool, truecolor_flag: bool) -> Seq<
    TerminalOpModel,
> {
    if color_flag {
        color_ops(tokens, truecolor_flag)
    } else {
        seq![TerminalOpModel::PrintLine(token_chars(tokens))]
    }
}

/// The time in milliseconds that a frame stays: its delay's numerator
/// divided by its denominator, rounded down.
pub open spec fn frame_millis(delay: (u64, u64)) -> u64 {
    (delay.0 / delay.1) as u64
}

/// The steps that show one frame: clear the display, write the frame, wait.
pub open spec fn frame_ops(frame: FrameModel, color_flag: bool, truecolor_flag: bool) -> Seq<
    TerminalOpModel,
> {
    seq![TerminalOpModel::Clear] + image_ops(frame.frame_tokens, color_flag, truecolor_flag)
        + seq![TerminalOpModel::Sleep(frame_millis(frame.delay))]
}

/// The steps that play an animation: those of each frame, in order.
pub open spec fn animation_ops(frames: Seq<FrameModel>, color_flag: bool, truecolor_flag: bool)
    -> Seq<TerminalOpModel>
    decreases frames.len(),
{
    if frames.len() == 0 {
        Seq::empty()
    } else {
        animation_ops(frames.drop_last(), color_flag, truecolor_flag) + frame_ops(
            frames.last(),
            color_flag,
            truecolor_flag,
        )
    }
}

/// Appends to `ops` the steps that write `tokens` in colour.
fn push_color_output(ops: &mut Vec<TerminalOp>, tokens: &Vec<AsciiToken>, truecolor_flag: bool)
    ensures
        op_models(final(ops)@) == op_models(old(ops)@) + color_ops(tokens@, truecolor_flag),
{
    let ghost before: Seq<TerminalOpModel> = op_models(ops@);
    let mut i: usize = 0;
    assert(tokens@.take(0) == Seq::<AsciiToken>::empty());
    assert(before + color_ops(tokens@.take(0), truecolor_flag) == before);
    while i < tokens.len()
        invariant
            i <= tokens@.len(),
            op_models(ops@) == before + color_ops(tokens@.take(i as int), truecolor_flag),
        decreases tokens@.len() - i,
    {
        let token: AsciiToken = tokens[i];
        let ghost done: Seq<TerminalOpModel> = op_models(ops@);
        proof {
            assert(tokens@.take(i + 1).drop_last() == tokens@.take(i as int));
            assert(tokens@.take(i + 1).last() == token);
        }
        if token.token != LINE_BREAK {
            if truecolor_flag {
                ops.push(TerminalOp::ForegroundRgb(token.rgb.0, token.rgb.1, token.rgb.2));
            } else {
                let ansci_val: u8 = rgb_to_ansi256(token.rgb.0, token.rgb.1, token.rgb.2);
                ops.push(TerminalOp::ForegroundAnsi256(ansci_val));
            }
        }
        ops.push(TerminalOp::Put(token.token));
        assert(op_models(ops@) == done + token_ops(token, truecolor_flag));
        assert(before + color_ops(tokens@.take(i as int), truecolor_flag) + token_ops(
            token,
            truecolor_flag,
        ) == before + (color_ops(tokens@.take(i as int), truecolor_flag) + token_ops(
            token,
            truecolor_flag,
        )));
        i += 1;
    }
    assert(tokens@.take(i as int) == tokens@);
}

/// Returns the steps that write tokens in colour: for every token but a line
/// break the foreground is set first, to the token's exact colour where
/// `truecolor_flag` is set and to its palette entry where it is not.
pub fn write_color_output(tokens: Vec<AsciiToken>, truecolor_flag: bool) -> (ops: Vec<TerminalOp>)
    ensures
        op_models(ops@) == color_ops(tokens@, truecolor_flag),
{
    let mut ops: Vec<TerminalOp> = Vec::new();
    assert(op_models(ops@) == Seq::<TerminalOpModel>::empty());
    push_color_output(&mut ops, &tokens, truecolor_flag);
    ops
}

/// The characters of `tokens` as one text.
fn tokens_text(tokens: &Vec<AsciiToken>) -> (text: String)
    ensures
        text@ == token_chars(tokens@),
{
    let mut text: String = String::new();
    let mut i: usize = 0;
    while i < tokens.len()
        invariant
            i <= tokens@.len(),
            text@ == token_chars(tokens@.take(i as int)),
        decreases tokens@.len() - i,
    {
        text.push(tokens[i].token);
        assert(token_chars(tokens@.take(i + 1)) == token_chars(tokens@.take(i as int)).push(
            tokens@[i as int].token,
        ));
        i += 1;
    }
    assert(tokens@.take(i as int) == tokens@);
    text
}

/// Appends to `ops` the steps that write one image.
fn push_image_output(
    ops: &mut Vec<TerminalOp>,
    tokens: &Vec<AsciiToken>,
    color_flag: bool,
    truecolor_flag: bool,
)
    ensures
        op_models(final(ops)@) == op_models(old(ops)@) + image_ops(
            tokens@,
            color_flag,
            truecolor_flag,
        ),
{
    if color_flag {
        push_color_output(ops, tokens, truecolor_flag);
    } else {
        let ghost before: Seq<TerminalOpModel> = op_models(ops@);
        let img_str: String = tokens_text(tokens);
        ops.push(TerminalOp::PrintLine(img_str));
        assert(op_models(ops@) == before + seq![TerminalOpModel::PrintLine(token_chars(tokens@))]);
    }
}

/// Returns the steps that print an image to the console.
pub fn print_img_to_console(img_tokens: Vec<AsciiToken>, color_flag: bool, truecolor_flag: bool)
    -> (ops: Vec<TerminalOp>)
    ensures
        op_models(ops@) == image_ops(img_tokens@, color_flag, truecolor_flag),
{
    let mut ops: Vec<TerminalOp> = Vec::new();
    assert(op_models(ops@) == Seq::<TerminalOpModel>::empty());
    push_image_output(&mut ops, &img_tokens, color_flag, truecolor_flag);
    ops
}

/// Returns the steps that play the frames of an animation on the console:
/// each frame is shown on a cleared display and stays for its delay.
pub fn print_gif_to_console(img_frames: Vec<AsciiFrame>, color_flag: bool, truecolor_flag: bool)
    -> (ops: Vec<TerminalOp>)
    requires
        delays_defined(frame_models(img_frames@)),
    ensures
        op_models(ops@) == animation_ops(
            frame_models(img_frames@),
            color_flag,
            truecolor_flag,
        ),
{
    let ghost frames: Seq<FrameModel> = frame_models(img_frames@);
    let mut ops: Vec<TerminalOp> = Vec::new();
    let mut i: usize = 0;
    assert(op_models(ops@) == Seq::<TerminalOpModel>::empty());
    assert(frames.take(0) == Seq::<FrameModel>::empty());
    while i < img_frames.len()
        invariant
            i <= img_frames@.len(),
            frames == frame_models(img_frames@),
            delays_defined(frames),
            op_models(ops@) == animation_ops(frames.take(i as int), color_flag, truecolor_flag),
        decreases img_frames@.len() - i,
    {
        let frame: &AsciiFrame = &img_frames[i];
        let ghost done: Seq<TerminalOpModel> = op_models(ops@);
        proof {
            assert(frames.take(i + 1).drop_last() == frames.take(i as int));
            assert(frames.take(i + 1).last() == frame@);
            assert(frames[i as int].delay.1 != 0);
        }
        ops.push(TerminalOp::Clear);
        assert(op_models(ops@) == done + seq![TerminalOpModel::Clear]);
        push_image_output(&mut ops, &frame.frame_tokens, color_flag, truecolor_flag);
        let ghost shown: Seq<TerminalOpModel> = op_models(ops@);
        let delay: u64 = frame.delay.0 / frame.delay.1;
        ops.push(TerminalOp::Sleep(delay));
        assert(op_models(ops@) == shown + seq![TerminalOpModel::Sleep(delay)]);
        assert(op_models(ops@) == done + frame_ops(frame@, color_flag, truecolor_flag));
        i += 1;
    }
    assert(frames.take(i as int) == frames);
    ops
}

/// Side of the square cell that a character takes on a canvas, in pixels.
pub const SEGMENT_CONSTANT: u32 = 12;

/// One glyph to draw: the character, where its cell begins, and its colour.
#[derive(Debug, Clone, Copy, PartialEq, Eq)]
pub struct GlyphDraw {
    pub glyph: char,
    pub x: i32,
    pub y: i32,
    pub color: Rgba,
}

/// The cursor after a sequence of tokens has been walked, as a column and a
/// row in pixels. It starts one cell left of the canvas; a line break moves
/// it two cells down and back to the start; any other token moves it one
/// cell to the right.
pub open spec fn cursor_after(tokens: Seq<AsciiToken>) -> (int, int)
    decreases tokens.len(),
{
    if tokens.len() == 0 {
        (-(SEGMENT_CONSTANT as int), 0)
    } else {
        let before = cursor_after(tokens.drop_last());
        if tokens.last().token == LINE_BREAK {
            (-(SEGMENT_CONSTANT as int), before.1 + 2 * SEGMENT_CONSTANT)
        } else {
            (before.0 + SEGMENT_CONSTANT, before.1)
        }
    }
}

/// The colour a token's glyph is drawn in: the token's own, opaque, in
/// colour mode; else white.
pub open spec fn glyph_color(token: AsciiToken, color_flag: bool) -> Rgba {
    if color_flag {
        (token.rgb.0, token.rgb.1, token.rgb.2, 255)
    } else {
        (255, 255, 255, 255)
    }
}

/// The glyphs drawn for a sequence of tokens: one for every token but the
/// line breaks, at the place the cursor has after the token.
pub open spec fn glyph_draws(tokens: Seq<AsciiToken>, color_flag: bool) -> Seq<GlyphDraw>
    decreases tokens.len(),
{
    if tokens.len() == 0 {
        Seq::empty()
    } else {
        let before = glyph_draws(tokens.drop_last(), color_flag);
        if tokens.last().token == LINE_BREAK {
            before
        } else {
            let at = cursor_after(tokens);
            before.push(
                GlyphDraw {
                    glyph: tokens.last().token,
                    x: at.0 as i32,
                    y: at.1 as i32,
                    color: glyph_color(tokens.last(), color_flag),
                },
            )
        }
    }
}

/// Whether the cursor stays within the range of a signed 32-bit coordinate
/// all the way through the tokens.
pub open spec fn layout_fits(tokens: Seq<AsciiToken>) -> bool {
    forall|n: int|
        0 <= n <= tokens.len() ==> {
            let at = cursor_after(#[trigger] tokens.take(n));
            at.0 <= i32::MAX && at.1 <= i32::MAX
        }
}

/// Lays the tokens out on a canvas: returns the glyphs to draw, in order,
/// or nothing where a coordinate would leave the range of `i32`.
pub fn write_img(img_tokens: Vec<AsciiToken>, color_flag: bool) -> (draws: Option<Vec<GlyphDraw>>)
    ensures
        draws is Some <==> layout_fits(img_tokens@),
        draws matches Some(glyphs) ==> glyphs@ == glyph_draws(img_tokens@, color_flag),
{
    let cell: i32 = 12;
    let mut glyphs: Vec<GlyphDraw> = Vec::new();
    let mut y_pointer: i32 = 0;
    let mut x_pointer: i32 = 0 - cell;
    let mut i: usize = 0;
    assert(img_tokens@.take(0) == Seq::<AsciiToken>::empty());
    while i < img_tokens.len()
        invariant
            i <= img_tokens@.len(),
            cell == SEGMENT_CONSTANT,
            -cell <= x_pointer,
            0 <= y_pointer,
            (x_pointer as int, y_pointer as int) == cursor_after(img_tokens@.take(i as int)),
            glyphs@ == glyph_draws(img_tokens@.take(i as int), color_flag),
            forall|n: int|
                0 <= n <= i ==> {
                    let at = cursor_after(#[trigger] img_tokens@.take(n));
                    at.0 <= i32::MAX && at.1 <= i32::MAX
                },
        decreases img_tokens@.len() - i,
    {
        let token: AsciiToken = img_tokens[i];
        proof {
            assert(img_tokens@.take(i + 1).drop_last() == img_tokens@.take(i as int));
            assert(img_tokens@.take(i + 1).last() == token);
        }
        // a line break draws nothing and moves on to the next line
        if token.token == LINE_BREAK {
            if y_pointer > i32::MAX - cell * 2 {
                assert(cursor_after(img_tokens@.take(i + 1)).1 > i32::MAX);
                return None;
            }
            y_pointer = y_pointer + cell * 2;
            x_pointer = 0 - cell;
        } else {
            if x_pointer > i32::MAX - cell {
                assert(cursor_after(img_tokens@.take(i + 1)).0 > i32::MAX);
                return None;
            }
            x_pointer = x_pointer + cell;
            let rgb_val: Rgba = if color_flag {
                (token.rgb.0, token.rgb.1, token.rgb.2, 255)
            } else {
                (255, 255, 255, 255)
            };
            glyphs.push(GlyphDraw { glyph: token.token, x: x_pointer, y: y_pointer, color: rgb_val });
        }
        i += 1;
    }
    assert(img_tokens@.take(i as int) == img_tokens@);
    Some(glyphs)
}

/// A canvas to draw and encode: its dimensions in pixels, the colour it is
/// filled with, and the glyphs drawn on it, in order.
#[derive(Debug, PartialEq, Eq)]
pub struct Canvas {
    pub width: u32,
    pub height: u32,
    pub background: Rgba,
    pub glyphs: Vec<GlyphDraw>,
}

/// The mathematical model of a canvas.
pub struct CanvasModel {
    pub width: nat,
    pub height: nat,
    pub background: Rgba,
    pub glyphs: Seq<GlyphDraw>,
}

impl View for Canvas {
    type V = CanvasModel;

    open spec fn view(&self) -> CanvasModel {
        CanvasModel {
            width: self.width as nat,
            height: self.height as nat,
            background: self.background,
            glyphs: self.glyphs@,
        }
    }
}

/// The canvas for a sequence of tokens: a cell's side for every column and
/// row of the image that the first token names, filled with `background`,
/// with the glyphs of the tokens.
pub open spec fn canvas_for(
    first: AsciiToken,
    tokens: Seq<AsciiToken>,
    color_flag: bool,
    background: Rgba,
) -> CanvasModel {
    CanvasModel {
        width: (first.parent_img_width * SEGMENT_CONSTANT) as nat,
        height: (first.parent_img_height * SEGMENT_CONSTANT) as nat,
        background,
        glyphs: glyph_draws(tokens, color_flag),
    }
}

/// Whether the canvas for the image that `first` names has dimensions that a
/// `u32` can hold.
pub open spec fn canvas_fits(first: AsciiToken) -> bool {
    &&& first.parent_img_width * SEGMENT_CONSTANT <= u32::MAX
    &&& first.parent_img_height * SEGMENT_CONSTANT <= u32::MAX
}

/// The background of a still image: transparent.
pub open spec fn still_background() -> Rgba {
    (0, 0, 0, 0)
}

/// The background of a frame of an animation: opaque black.
pub open spec fn frame_background() -> Rgba {
    (0, 0, 0, 255)
}

/// The side in pixels of a canvas for `cells` columns or rows, where a `u32`
/// can hold it.
fn canvas_side(cells: u32) -> (side: Option<u32>)
    ensures
        match side {
            Some(pixels) => pixels == cells * SEGMENT_CONSTANT,
            None => cells * SEGMENT_CONSTANT > u32::MAX,
        },
{
    if cells <= u32::MAX / SEGMENT_CONSTANT {
        Some(cells * SEGMENT_CONSTANT)
    } else {
        None
    }
}

/// Plans the canvas of one image on `background`.
fn plan_canvas(first: AsciiToken, tokens: Vec<AsciiToken>, color_flag: bool, background: Rgba)
    -> (out: Result<Canvas, AsciiError>)
    ensures
        match out {
            Ok(canvas) => canvas_fits(first) && layout_fits(tokens@) && canvas@ == canvas_for(
                first,
                tokens@,
                color_flag,
                background,
            ),
            Err(error) => error == AsciiError::EncodeFailure && !(canvas_fits(first) && layout_fits(
                tokens@,
            )),
        },
{
    let x_axis: Option<u32> = canvas_side(first.parent_img_width);
    let y_axis: Option<u32> = canvas_side(first.parent_img_height);
    match (x_axis, y_axis, write_img(tokens, color_flag)) {
        (Some(width), Some(height), Some(glyphs)) => Ok(Canvas { width, height, background, glyphs }),
        _ => Err(AsciiError::EncodeFailure),
    }
}

/// Plans the image file for a sequence of tokens: a transparent canvas sized
/// from the first token, with the glyphs of the tokens. It is refused where
/// the canvas or the layout would leave the range of its coordinates.
pub fn save_img(tokens: Vec<AsciiToken>, color_flag: bool) -> (out: Result<Canvas, AsciiError>)
    requires
        tokens@.len() > 0,
    ensures
        match out {
            Ok(canvas) => canvas_fits(tokens@[0]) && layout_fits(tokens@) && canvas@ == canvas_for(
                tokens@[0],
                tokens@,
                color_flag,
                still_background(),
            ),
            Err(error) => error == AsciiError::EncodeFailure && !(canvas_fits(tokens@[0])
                && layout_fits(tokens@)),
        },
{
    let first: AsciiToken = tokens[0];
    plan_canvas(first, tokens, color_flag, (0, 0, 0, 0))
}

/// One frame of an animation to encode: its canvas and its delay in
/// milliseconds, as a numerator and a denominator.
#[derive(Debug, PartialEq, Eq)]
pub struct CanvasFrame {
    pub canvas: Canvas,
    pub delay: (u32, u32),
}

/// The mathematical model of a frame to encode.
pub struct CanvasFrameModel {
    pub canvas: CanvasModel,
    pub delay: (u32, u32),
}

impl View for CanvasFrame {
    type V = CanvasFrameModel;

    open spec fn view(&self) -> CanvasFrameModel {
        CanvasFrameModel { canvas: self.canvas@, delay: self.delay }
    }
}

/// The models of a sequence of frames to encode.
pub open spec fn canvas_frame_models(frames: Seq<CanvasFrame>) -> Seq<CanvasFrameModel> {
    Seq::new(frames.len(), |i: int| frames[i]@)
}

/// A delay's part cut to the 32 bits that an encoded frame holds.
pub open spec fn low_bits(part: u64) -> u32 {
    (part % 0x1_0000_0000) as u32
}

/// The frame to encode for a frame of tokens: a canvas of opaque black,
/// sized from `first`, with the frame's glyphs, and the frame's delay.
pub open spec fn canvas_frame_for(first: AsciiToken, frame: FrameModel, color_flag: bool)
    -> CanvasFrameModel {
    CanvasFrameModel {
        canvas: canvas_for(first, frame.frame_tokens, color_flag, frame_background()),
        delay: (low_bits(frame.delay.0), low_bits(frame.delay.1)),
    }
}

/// The frames to encode for an animation, one for each frame of tokens.
pub open spec fn canvas_frames_for(first: AsciiToken, frames: Seq<FrameModel>, color_flag: bool)
    -> Seq<CanvasFrameModel> {
    Seq::new(frames.len(), |i: int| canvas_frame_for(first, frames[i], color_flag))
}

/// Whether the canvas and the layout of every frame stay in range.
pub open spec fn animation_fits(first: AsciiToken, frames: Seq<FrameModel>) -> bool {
    &&& canvas_fits(first)
    &&& forall|i: int| 0 <= i < frames.len() ==> layout_fits((#[trigger] frames[i]).frame_tokens)
}

/// Every frame has a delay whose denominator, cut to 32 bits, is not 0.
pub open spec fn delays_encodable(frames: Seq<FrameModel>) -> bool {
    forall|i: int| 0 <= i < frames.len() ==> low_bits((#[trigger] frames[i]).delay.1) != 0
}

/// Plans the animated image file for a sequence of frames: for each frame a
/// canvas of opaque black, sized from the first token of the first frame,
/// with the frame's glyphs and delay. It is refused where a canvas or a
/// layout would leave the range of its coordinates.
pub fn save_gif(frames: Vec<AsciiFrame>, color_flag: bool) -> (out: Result<
    Vec<CanvasFrame>,
    AsciiError,
>)
    requires
        frames@.len() > 0,
        frames@[0].frame_tokens@.len() > 0,
        delays_encodable(frame_models(frames@)),
    ensures
        match out {
            Ok(planned) => animation_fits(frames@[0].frame_tokens@[0], frame_models(frames@))
                && canvas_frame_models(planned@) == canvas_frames_for(
                frames@[0].frame_tokens@[0],
                frame_models(frames@),
                color_flag,
            ),
            Err(error) => error == AsciiError::EncodeFailure && !animation_fits(
                frames@[0].frame_tokens@[0],
                frame_models(frames@),
            ),
        },
{
    let first: AsciiToken = frames[0].frame_tokens[0];
    let ghost models: Seq<FrameModel> = frame_models(frames@);
    let mut result: Vec<CanvasFrame> = Vec::new();
    for frame in it: frames
        invariant
            it.seq() == frames@,
            frames@.len() > 0,
            frames@[0].frame_tokens@.len() > 0,
            first == frames@[0].frame_tokens@[0],
            models == frame_models(frames@),
            delays_encodable(models),
            result@.len() == it.index(),
            it.index() > 0 ==> canvas_fits(first),
            forall|i: int|
                0 <= i < it.index() ==> layout_fits((#[trigger] models[i]).frame_tokens),
            forall|i: int|
                0 <= i < it.index() ==> (#[trigger] result@[i])@ == canvas_frame_for(
                    first,
                    models[i],
                    color_flag,
                ),
    {
        let ghost at: int = it.index() as int;
        assert(frame@ == models[at]);
        assert(low_bits(models[at].delay.1) != 0);
        let delay: (u32, u32) = (
            (frame.delay.0 % 0x1_0000_0000) as u32,
            (frame.delay.1 % 0x1_0000_0000) as u32,
        );
        // give each frame a black background
        match plan_canvas(first, frame.frame_tokens, color_flag, (0, 0, 0, 255)) {
            Ok(canvas) => {
                result.push(CanvasFrame { canvas, delay });
            },
            Err(error) => {
                assert(!canvas_fits(first) || !layout_fits(models[at].frame_tokens));
                return Err(error);
            },
        }
    }
    assert(canvas_frame_models(result@) =~= canvas_frames_for(first, models, color_flag));
    Ok(result)
}

/// The steps that show a conversion's result on the console. A failure
/// shows nothing.
pub open spec fn console_ops(result: ConvertedModel, color_flag: bool, truecolor_flag: bool) -> Seq<
    TerminalOpModel,
> {
    match result {
        ConvertedModel::IMAGE(tokens) => image_ops(tokens, color_flag, truecolor_flag),
        ConvertedModel::GIF(frames) => animation_ops(frames, color_flag, truecolor_flag),
        ConvertedModel::ERROR(_) => Seq::empty(),
    }
}

/// Converts what was decoded from a file and returns the steps that show it
/// on the console. A failure to decode is handed on.
pub fn output_to_console(
    source: Result<DecodedSource, AsciiError>,
    pixel_scale: Option<u32>,
    detail_flag: bool,
    color_flag: bool,
    mapping: Option<String>,
    truecolor_flag: bool,
) -> (out: Result<Vec<TerminalOp>, AsciiError>)
    requires
        mapping matches Some(text) ==> text@.len() > 0,
        source matches Ok(decoded) ==> source_fits(decoded, effective_scale(pixel_scale)),
    ensures
        match source {
            Ok(_) => out matches Ok(ops) && op_models(ops@) == console_ops(
                converted(
                    source,
                    effective_scale(pixel_scale),
                    ramp_for(mapping_chars(mapping), detail_flag),
                ),
                color_flag,
                truecolor_flag,
            ),
            Err(error) => out == Err::<Vec<TerminalOp>, AsciiError>(error),
        },
{
    let failure: AsciiError = match &source {
        Ok(_) => AsciiError::DecodeFailure,
        Err(error) => *error,
    };
    match process_file(source, pixel_scale, detail_flag, mapping) {
        ConvertedFile::IMAGE(img_tokens) => Ok(
            print_img_to_console(img_tokens, color_flag, truecolor_flag),
        ),
        ConvertedFile::GIF(img_frames) => Ok(
            print_gif_to_console(img_frames, color_flag, truecolor_flag),
        ),
        ConvertedFile::ERROR(_) => Err(failure),
    }
}

/// What is to be encoded into the output file.
#[derive(Debug, PartialEq, Eq)]
pub enum RasterOutput {
    /// One canvas, for a static image.
    Still(Canvas),
    /// The canvases of an animation with their delays, in order.
    Animated(Vec<CanvasFrame>),
}

/// The mathematical model of what is to be encoded.
pub enum RasterOutputModel {
    Still(CanvasModel),
    Animated(Seq<CanvasFrameModel>),
}

impl View for RasterOutput {
    type V = RasterOutputModel;

    open spec fn view(&self) -> RasterOutputModel {
        match self {
            RasterOutput::Still(canvas) => RasterOutputModel::Still(canvas@),
            RasterOutput::Animated(frames) => RasterOutputModel::Animated(
                canvas_frame_models(frames@),
            ),
        }
    }
}

/// An output file to write: its name and what is encoded into it.
#[derive(Debug, PartialEq, Eq)]
pub struct SaveJob {
    pub file_name: String,
    pub output: RasterOutput,
}

/// The mathematical model of an output file to write.
pub struct SaveJobModel {
    pub file_name: Seq<char>,
    pub output: RasterOutputModel,
}

impl View for SaveJob {
    type V = SaveJobModel;

    open spec fn view(&self) -> SaveJobModel {
        SaveJobModel { file_name: self.file_name@, output: self.output@ }
    }
}

/// What is encoded for a conversion's result: the canvas of an image or the
/// canvases of an animation. Nothing can be encoded where there is no token
/// to take the dimensions from, or where a canvas or a layout leaves the
/// range of its coordinates.
pub open spec fn raster_output(result: ConvertedModel, color_flag: bool) -> Option<
    RasterOutputModel,
> {
    match result {
        ConvertedModel::IMAGE(tokens) => if tokens.len() > 0 && canvas_fits(tokens[0])
            && layout_fits(tokens) {
            Some(
                RasterOutputModel::Still(
                    canvas_for(tokens[0], tokens, color_flag, still_background()),
                ),
            )
        } else {
            None
        },
        ConvertedModel::GIF(frames) => if frames.len() > 0 && frames[0].frame_tokens.len() > 0
            && animation_fits(frames[0].frame_tokens[0], frames) {
            Some(
                RasterOutputModel::Animated(
                    canvas_frames_for(frames[0].frame_tokens[0], frames, color_flag),
                ),
            )
        } else {
            None
        },
        ConvertedModel::ERROR(_) => None,
    }
}

/// The outcome of saving: the path is refused where its file name has no
/// `.`; a failure to decode is handed on; what cannot be encoded is an
/// encoding failure; else the file is named after the source and holds the
/// canvases of the converted image.
pub open spec fn save_plan(
    path: Seq<char>,
    source: Result<DecodedSource, AsciiError>,
    ramp: Seq<char>,
    color_flag: bool,
    pixel_scale: u32,
) -> Result<SaveJobModel, AsciiError> {
    if !file_name_of(path).contains('.') {
        Err(AsciiError::InvalidPath)
    } else {
        match source {
            Err(error) => Err(error),
            Ok(_) => match raster_output(converted(source, pixel_scale, ramp), color_flag) {
                Some(output) => Ok(
                    SaveJobModel { file_name: output_prefix() + file_name_of(path), output },
                ),
                None => Err(AsciiError::EncodeFailure),
            },
        }
    }
}

/// Converts what was decoded from a file and plans the image file that the
/// result is saved to.
pub fn save(
    path_arg: String,
    source: Result<DecodedSource, AsciiError>,
    detail_flag: bool,
    color_flag: bool,
    mapping: Option<String>,
    pixel_scale: Option<u32>,
) -> (out: Result<SaveJob, AsciiError>)
    requires
        mapping matches Some(text) ==> text@.len() > 0,
        source matches Ok(decoded) ==> source_fits(decoded, effective_scale(pixel_scale)),
    ensures
        match out {
            Ok(job) => Ok::<SaveJobModel, AsciiError>(job@) == save_plan(
                path_arg@,
                source,
                ramp_for(mapping_chars(mapping), detail_flag),
                color_flag,
                effective_scale(pixel_scale),
            ),
            Err(error) => Err::<SaveJobModel, AsciiError>(error) == save_plan(
                path_arg@,
                source,
                ramp_for(mapping_chars(mapping), detail_flag),
                color_flag,
                effective_scale(pixel_scale),
            ),
        },
{
    let file_name: String = match build_output_file_name(&path_arg) {
        Ok(name) => name,
        Err(_) => {
            return Err(AsciiError::InvalidPath);
        },
    };
    let failure: AsciiError = match &source {
        Ok(_) => AsciiError::EncodeFailure,
        Err(error) => *error,
    };
    let ascii_data: ConvertedFile = process_file(source, pixel_scale, detail_flag, mapping);
    let ghost result: ConvertedModel = ascii_data@;
    let output: RasterOutput = match ascii_data {
        ConvertedFile::IMAGE(img) => {
            if img.len() == 0 {
                return Err(AsciiError::EncodeFailure);
            }
            match save_img(img, color_flag) {
                Ok(canvas) => RasterOutput::Still(canvas),
                Err(error) => {
                    return Err(error);
                },
            }
        },
        ConvertedFile::GIF(gif) => {
            if gif.len() == 0 || gif[0].frame_tokens.len() == 0 {
                return Err(AsciiError::EncodeFailure);
            }
            proof {
                let models: Seq<FrameModel> = frame_models(gif@);
                assert forall|i: int| 0 <= i < models.len() implies low_bits(
                    (#[trigger] models[i]).delay.1,
                ) != 0 by {
                    assert(models[i].delay.1 != 0);
                }
            }
            match save_gif(gif, color_flag) {
                Ok(frames) => RasterOutput::Animated(frames),
                Err(error) => {
                    return Err(error);
                },
            }
        },
        ConvertedFile::ERROR(_) => {
            return Err(failure);
        },
    };
    Ok(SaveJob { file_name, output })
}

} // verus!
