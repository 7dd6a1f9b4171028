//! Tokens, frames and run options, and the checks made on a file's path.

use vstd::prelude::*;

verus! {

/// The character that ends a row of tokens.
pub const LINE_BREAK: char = '\n';

/// What a run is asked to do.
#[derive(Debug, Default)]
pub struct AsciiArgs {
    /// Files to convert.
    pub files: Vec<String>,
    /// Write each result to an image file in place of the terminal.
    pub save: bool,
    /// Keep the colours of the source.
    pub color: bool,
    /// Use the ramp of 70 characters in place of the one of 10.
    pub detailed: bool,
    /// Characters to use as the ramp, lightest first.
    pub mapping: Option<String>,
    /// Bound for the width of the character grid.
    pub pixel_scale: Option<u32>,
}

/// One character of the grid, with the colour of the pixel it stands for and
/// the dimensions of the image that pixel was read from.
#[derive(Debug, Clone, Copy, PartialEq, Eq)]
pub struct AsciiToken {
    pub token: char,
    pub rgb: (u8, u8, u8),
    pub parent_img_width: u32,
    pub parent_img_height: u32,
}

/// One frame of an animation: its tokens and its delay in milliseconds, as a
/// numerator and a denominator.
#[derive(Debug, PartialEq, Eq)]
pub struct AsciiFrame {
    pub frame_tokens: Vec<AsciiToken>,
    pub delay: (u64, u64),
}

/// The mathematical model of a frame.
pub struct FrameModel {
    pub frame_tokens: Seq<AsciiToken>,
    pub delay: (u64, u64),
}

impl View for AsciiFrame {
    type V = FrameModel;

    open spec fn view(&self) -> FrameModel {
        FrameModel { frame_tokens: self.frame_tokens@, delay: self.delay }
    }
}

/// The models of a sequence of frames.
pub open spec fn frame_models(frames: Seq<AsciiFrame>) -> Seq<FrameModel> {
    Seq::new(frames.len(), |i: int| frames[i]@)
}

/// Every frame has a delay whose denominator is not 0.
pub open spec fn delays_defined(frames: Seq<FrameModel>) -> bool {
    forall|i: int| 0 <= i < frames.len() ==> (#[trigger] frames[i]).delay.1 != 0
}

/// Why a file could not be converted or written.
#[derive(Debug, Clone, Copy, PartialEq, Eq, Structural)]
pub enum AsciiError {
    /// The extension is none of `jpg`, `png` and `gif`.
    UnsupportedFormat,
    /// The container could not be decoded.
    DecodeFailure,
    /// The output could not be produced.
    EncodeFailure,
    /// The path has no extension.
    InvalidPath,
}

impl AsciiError {
    /// The reason given to the user.
    pub open spec fn reason(self) -> Seq<char> {
        match self {
            AsciiError::UnsupportedFormat => "File format not supported for file"@,
            AsciiError::DecodeFailure => "Decoder could not decode file"@,
            AsciiError::EncodeFailure => "Could not save to file"@,
            AsciiError::InvalidPath => "Could not parse file extension"@,
        }
    }

    /// The reason given to the user.
    pub fn message(&self) -> (text: String)
        ensures
            text@ == self.reason(),
    {
        match self {
            AsciiError::UnsupportedFormat => String::from_str("File format not supported for file"),
            AsciiError::DecodeFailure => String::from_str("Decoder could not decode file"),
            AsciiError::EncodeFailure => String::from_str("Could not save to file"),
            AsciiError::InvalidPath => String::from_str("Could not parse file extension"),
        }
    }
}

/// Index of the last occurrence of `c` in `s`, or -1 where there is none.
pub open spec fn last_index_of(s: Seq<char>, c: char) -> int
    decreases s.len(),
{
    if s.len() == 0 {
        -1
    } else if s.last() == c {
        s.len() - 1
    } else {
        last_index_of(s.drop_last(), c)
    }
}

/// `last_index_of` is a position of `c` after which `c` does not occur, and
/// it is -1 exactly when `c` does not occur at all.
pub proof fn lemma_last_index_of(s: Seq<char>, c: char)
    ensures
        -1 <= last_index_of(s, c) < s.len(),
        last_index_of(s, c) >= 0 ==> s[last_index_of(s, c)] == c,
        forall|j: int| last_index_of(s, c) < j < s.len() ==> s[j] != c,
        last_index_of(s, c) == -1 <==> !s.contains(c),
    decreases s.len(),
{
    if s.len() > 0 {
        let front: Seq<char> = s.drop_last();
        lemma_last_index_of(front, c);
        let at: int = last_index_of(s, c);
        if s.last() == c {
            assert(s[at] == c);
        } else {
            assert forall|j: int| at < j < s.len() implies s[j] != c by {
                if j < s.len() - 1 {
                    assert(front[j] == s[j]);
                }
            }
            if at >= 0 {
                assert(front[at] == s[at]);
            }
        }
    }
}

/// What follows the last `.` of a path, if the path has one.
pub open spec fn extension_of(path: Seq<char>) -> Option<Seq<char>> {
    let dot = last_index_of(path, '.');
    if dot < 0 {
        None
    } else {
        Some(path.subrange(dot + 1, path.len() as int))
    }
}

/// What follows the last `/` of a path: the whole path where it has none.
pub open spec fn file_name_of(path: Seq<char>) -> Seq<char> {
    path.subrange(last_index_of(path, '/') + 1, path.len() as int)
}

/// The extensions of the formats that can be decoded.
pub open spec fn is_supported_extension(ext: Seq<char>) -> bool {
    ||| ext == seq!['j', 'p', 'g']
    ||| ext == seq!['p', 'n', 'g']
    ||| ext == seq!['g', 'i', 'f']
}

/// Whether a path ends in one of the supported extensions.
pub open spec fn has_supported_format(path: Seq<char>) -> bool {
    extension_of(path) matches Some(ext) && is_supported_extension(ext)
}

/// The prefix of every output file's name.
pub open spec fn output_prefix() -> Seq<char> {
    "asciify-"@
}

/// The characters of `text`, in order.
pub fn chars_of(text: &str) -> (chars: Vec<char>)
    ensures
        chars@ == text@,
{
    broadcast use vstd::string::group_string_axioms;

    let mut chars: Vec<char> = Vec::new();
    for c in it: text.chars()
        invariant
            it.seq() == text@,
            chars@ == it.seq().take(it.index() as int),
    {
        chars.push(c);
    }
    chars
}

/// Position of the last occurrence of `c` in `chars`.
pub(crate) fn find_last(chars: &Vec<char>, c: char) -> (at: Option<usize>)
    ensures
        match at {
            Some(i) => i == last_index_of(chars@, c),
            None => last_index_of(chars@, c) == -1,
        },
{
    let mut at: Option<usize> = None;
    let mut i: usize = 0;
    while i < chars.len()
        invariant
            i <= chars@.len(),
            match at {
                Some(k) => k == last_index_of(chars@.take(i as int), c),
                None => last_index_of(chars@.take(i as int), c) == -1,
            },
        decreases chars@.len() - i,
    {
        assert(chars@.take(i + 1).drop_last() == chars@.take(i as int));
        if chars[i] == c {
            at = Some(i);
        }
        i += 1;
    }
    assert(chars@.take(i as int) == chars@);
    at
}

/// Returns the extension of a path: what follows its last `.`, or nothing
/// where the path has no `.`.
pub fn get_file_extension(file_path: &String) -> (ext: Option<&str>)
    ensures
        match ext {
            Some(e) => extension_of(file_path@) == Some(e@),
            None => extension_of(file_path@) is None,
        },
{
    let chars: Vec<char> = chars_of(file_path.as_str());
    let len: usize = chars.len();
    proof {
        lemma_last_index_of(chars@, '.');
    }
    match find_last(&chars, '.') {
        Some(dot) => Some(file_path.as_str().substring_char(dot + 1, len)),
        None => None,
    }
}

/// Whether `chars` from `start` on spells exactly `word`.
pub(crate) fn ends_with_word(chars: &Vec<char>, start: usize, word: [char; 3]) -> (same: bool)
    requires
        start <= chars@.len(),
    ensures
        same == (chars@.subrange(start as int, chars@.len() as int) == word@),
{
    let rest: Ghost<Seq<char>> = Ghost(chars@.subrange(start as int, chars@.len() as int));
    if chars.len() - start != 3 {
        assert(rest@.len() != word@.len());
        return false;
    }
    let same: bool = chars[start] == word[0] && chars[start + 1] == word[1] && chars[start + 2]
        == word[2];
    proof {
        assert(rest@[0] == chars@[start as int]);
        assert(rest@[1] == chars@[start + 1]);
        assert(rest@[2] == chars@[start + 2]);
        if same {
            assert(rest@ =~= word@);
        }
    }
    same
}

/// Check that the format of a file can be decoded: its extension is `jpg`,
/// `png` or `gif`.
pub fn is_supported_format(file_path: &String) -> (supported: bool)
    ensures
        supported == has_supported_format(file_path@),
{
    let chars: Vec<char> = chars_of(file_path.as_str());
    let len: usize = chars.len();
    proof {
        lemma_last_index_of(chars@, '.');
    }
    match find_last(&chars, '.') {
        Some(dot) => {
            assert(dot < len);
            let start: usize = dot + 1;
            let jpg: [char; 3] = ['j', 'p', 'g'];
            let png: [char; 3] = ['p', 'n', 'g'];
            let gif: [char; 3] = ['g', 'i', 'f'];
            proof {
                assert(jpg@ =~= seq!['j', 'p', 'g']);
                assert(png@ =~= seq!['p', 'n', 'g']);
                assert(gif@ =~= seq!['g', 'i', 'f']);
            }
            ends_with_word(&chars, start, jpg) || ends_with_word(&chars, start, png)
                || ends_with_word(&chars, start, gif)
        },
        None => false,
    }
}

/// Returns the name of the file that a converted image is saved to: the
/// source's file name behind the prefix `asciify-`. A file name without a `.`
/// is refused.
pub fn build_output_file_name(file_path: &String) -> (name: Result<String, &'static str>)
    ensures
        match name {
            Ok(n) => file_name_of(file_path@).contains('.') && n@ == output_prefix()
                + file_name_of(file_path@),
            Err(e) => !file_name_of(file_path@).contains('.') && e@ == "Not a parsable file!"@,
        },
{
    let chars: Vec<char> = chars_of(file_path.as_str());
    let len: usize = chars.len();
    proof {
        lemma_last_index_of(chars@, '/');
    }
    let start: usize = match find_last(&chars, '/') {
        Some(slash) => slash + 1,
        None => 0,
    };
    let file_name: &str = file_path.as_str().substring_char(start, len);
    let name_chars: Vec<char> = chars_of(file_name);
    proof {
        lemma_last_index_of(name_chars@, '.');
    }
    match find_last(&name_chars, '.') {
        Some(_) => {
            let mut name: String = String::from_str("asciify-");
            name.append(file_name);
            Ok(name)
        },
        None => Err("Not a parsable file!"),
    }
}

/// Returns true if the terminal announces 24-bit colour: `colorterm` is the
/// value of the `COLORTERM` setting, where it is set.
pub fn supports_truecolor(colorterm: Option<String>) -> (truecolor: bool)
    ensures
        truecolor == (colorterm matches Some(value) && value@ == "truecolor"@),
{
    match colorterm {
        Some(value) => value == String::from_str("truecolor"),
        None => false,
    }
}

} // verus!
