//! Rendering of input in the colors that its hex codes name: a whole line in
//! the color that the line spells, or each `#`-delimited segment of a stream
//! with its leading code highlighted.

use crate::hex::{parse, parse_spec, ParseError, Rgb};
use crate::paint::{paint, painted};
use vstd::prelude::*;
use vstd::string::{StrSliceExecFns, StringExecFns, StringSliceAdditionalSpecFns};
use vstd::utf8::{decode_utf8, encode_utf8, encode_utf8_decode_utf8, valid_utf8};

verus! {

/// How the input is read: each line as its own color code, or as a stream in
/// which `#` starts a color code.
#[derive(Clone, Copy, Debug, PartialEq, Eq, Structural)]
pub enum Mode {
    Line,
    Find,
}

/// The arguments that select [`Mode::Find`]: `-f` and `--find`.
pub open spec fn is_find_flag(arg: Seq<char>) -> bool {
    arg == seq!['-', 'f'] || arg == seq!['-', '-', 'f', 'i', 'n', 'd']
}

/// The mode that launch arguments select: find mode where any of them is a
/// find flag, wherever it stands, and line mode otherwise.
pub open spec fn mode_of(args: Seq<String>) -> Mode {
    if exists|i: int| 0 <= i < args.len() && is_find_flag(#[trigger] args[i]@) {
        Mode::Find
    } else {
        Mode::Line
    }
}

/// Whether `arg` is a find flag.
pub fn find_flag(arg: &str) -> (r: bool)
    ensures
        r == is_find_flag(arg@),
{
    let n = arg.unicode_len();
    if n == 2 {
        let r = arg.get_char(0) == '-' && arg.get_char(1) == 'f';
        assert(r ==> arg@ =~= seq!['-', 'f']);
        r
    } else if n == 6 {
        let r = arg.get_char(0) == '-' && arg.get_char(1) == '-' && arg.get_char(2) == 'f'
            && arg.get_char(3) == 'i' && arg.get_char(4) == 'n' && arg.get_char(5) == 'd';
        assert(r ==> arg@ =~= seq!['-', '-', 'f', 'i', 'n', 'd']);
        r
    } else {
        false
    }
}

/// Selects the mode from the launch arguments.
pub fn mode_from_args(args: &[String]) -> (m: Mode)
    ensures
        m == mode_of(args@),
{
    let mut i: usize = 0;
    while i < args.len()
        invariant
            i <= args@.len(),
            forall|k: int| 0 <= k < i ==> !is_find_flag(#[trigger] args@[k]@),
        decreases args@.len() - i,
    {
        if find_flag(args[i].as_str()) {
            return Mode::Find;
        }
        i = i + 1;
    }
    Mode::Line
}

/// The number of characters of a segment that are read as its color code.
pub const TOKEN_CHARS: usize = 6;

/// The text of a rendering result, or its error.
pub open spec fn text_of(r: Result<String, ParseError>) -> Result<Seq<char>, ParseError> {
    match r {
        Ok(s) => Ok(s@),
        Err(e) => Err(e),
    }
}

/// A line in the color that its own text names, then a newline.
pub open spec fn line_output(line: Seq<char>) -> Result<Seq<char>, ParseError> {
    match parse_spec(encode_utf8(line)) {
        Ok(c) => Ok(painted(c, line) + seq!['\n']),
        Err(e) => Err(e),
    }
}

/// Renders a line in the color that its text names, followed by a newline.
pub fn render_line(line: &str) -> (r: Result<String, ParseError>)
    ensures
        text_of(r) == line_output(line@),
{
    match parse(line) {
        Ok(c) => {
            let mut out = paint(c, line);
            proof {
                reveal_strlit("\n");
            }
            out.append("\n");
            assert(out@ =~= painted(c, line@) + seq!['\n']);
            Ok(out)
        },
        Err(e) => Err(e),
    }
}

/// `n` is the length of the longest prefix of `b` that is valid UTF-8.
pub open spec fn is_valid_prefix_len(b: Seq<u8>, n: int) -> bool {
    &&& 0 <= n <= b.len()
    &&& valid_utf8(b.subrange(0, n))
    &&& forall|k: int| n < k <= b.len() ==> !valid_utf8(#[trigger] b.subrange(0, k))
}

/// The length of the longest prefix of `b` that is valid UTF-8.
pub open spec fn valid_prefix_len(b: Seq<u8>) -> int {
    choose|n: int| is_valid_prefix_len(b, n)
}

/// The text of a segment of raw bytes: its longest valid UTF-8 prefix,
/// decoded. What follows an invalid byte is dropped.
pub open spec fn decoded_text(b: Seq<u8>) -> Seq<char> {
    decode_utf8(b.subrange(0, valid_prefix_len(b)))
}

/// What a segment of the stream becomes, given its text `t` and its position:
/// the first segment, which precedes any `#`, is passed through; a later one
/// has its first six characters painted, with the `#` before them, in the
/// color that they name, and the rest passed through. A later segment shorter
/// than a color code is plain text, and keeps its `#`.
pub open spec fn segment_output(index: nat, t: Seq<char>) -> Result<Seq<char>, ParseError> {
    if index == 0 {
        Ok(t)
    } else if t.len() < TOKEN_CHARS {
        Ok(seq!['#'] + t)
    } else {
        let token = t.subrange(0, TOKEN_CHARS as int);
        match parse_spec(encode_utf8(token)) {
            Ok(c) => Ok(painted(c, seq!['#']) + painted(c, token) + t.subrange(
                TOKEN_CHARS as int,
                t.len() as int,
            )),
            Err(e) => Err(e),
        }
    }
}

/// Relies on std::str::from_utf8 and, where it fails, on
/// `Utf8Error::valid_up_to`: together they give the length of the longest
/// prefix of the bytes that is valid UTF-8.
#[verifier::external_body]
fn valid_utf8_len(b: &[u8]) -> (n: usize)
    ensures
        is_valid_prefix_len(b@, n as int),
{
    match std::str::from_utf8(b) {
        Ok(_) => b.len(),
        Err(e) => e.valid_up_to(),
    }
}

proof fn lemma_valid_prefix_len_unique(b: Seq<u8>, n: int)
    requires
        is_valid_prefix_len(b, n),
    ensures
        valid_prefix_len(b) == n,
{
    let m = valid_prefix_len(b);
    assert(is_valid_prefix_len(b, m));
    if m < n {
        assert(!valid_utf8(b.subrange(0, n)));
    } else if n < m {
        assert(!valid_utf8(b.subrange(0, m)));
    }
}

/// The text of a segment of raw bytes: its longest valid UTF-8 prefix.
pub fn decode_prefix(b: &[u8]) -> (t: &str)
    ensures
        t@ == decoded_text(b@),
{
    let n = valid_utf8_len(b);
    proof {
        lemma_valid_prefix_len_unique(b@, n as int);
    }
    let prefix = vstd::slice::slice_subrange(b, 0, n);
    match std::str::from_utf8(prefix) {
        Ok(t) => {
            proof {
                encode_utf8_decode_utf8(t@);
            }
            t
        },
        Err(_) => {
            proof {
                assert(false);
            }
            ""
        },
    }
}

/// Renders one `#`-delimited segment of a stream, `index` counting the
/// segments from zero.
pub fn render_segment(index: usize, segment: &[u8]) -> (r: Result<String, ParseError>)
    ensures
        text_of(r) == segment_output(index as nat, decoded_text(segment@)),
{
    let t = decode_prefix(segment);
    proof {
        reveal_strlit("#");
    }
    if index == 0 {
        return Ok(t.to_owned());
    }
    let len = t.unicode_len();
    if len < TOKEN_CHARS {
        let mut out = "#".to_owned();
        out.append(t);
        assert(out@ =~= seq!['#'] + t@);
        return Ok(out);
    }
    let token = t.substring_char(0, TOKEN_CHARS);
    let rest = t.substring_char(TOKEN_CHARS, len);
    match parse(token) {
        Ok(c) => {
            let mut out = paint(c, "#");
            let code = paint(c, token);
            out.append(code.as_str());
            out.append(rest);
            assert(out@ =~= painted(c, seq!['#']) + painted(c, token@) + rest@);
            Ok(out)
        },
        Err(e) => Err(e),
    }
}

/// Relies on std::str::from_utf8: it succeeds exactly on valid UTF-8, and then
/// views the same bytes as text.
pub assume_specification[ core::str::from_utf8 ](v: &[u8]) -> (r: Result<
    &str,
    core::str::Utf8Error,
>)
    ensures
        r is Ok <==> valid_utf8(v@),
        r matches Ok(s) ==> s.spec_bytes() == v@,
;

#[verifier::external_type_specification]
#[verifier::external_body]
pub struct ExUtf8Error(core::str::Utf8Error);

} // verus!
