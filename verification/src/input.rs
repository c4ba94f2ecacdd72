//! Lines of input as they arrive from a stream: where they came from, and how
//! raw bytes become text.
use vstd::prelude::*;
use vstd::string::StringSliceAdditionalSpecFns;
use vstd::utf8::*;
use crate::text::{chars_of, concat_text, decimal, decimal_text, string_of, string_of_range};

verus! {

/// Where a line came from.
#[derive(Debug, Clone, Copy, PartialEq, Eq, Structural)]
pub enum LineSource {
    Stdout,
    Stderr,
    System,
}

/// A line of input and where it came from.
#[derive(Debug, Clone, PartialEq)]
pub struct InputLine {
    pub text: String,
    pub source: LineSource,
}

/// The lower-case hexadecimal digits.
pub open spec fn hex_digits() -> Seq<char> {
    seq!['0', '1', '2', '3', '4', '5', '6', '7', '8', '9', 'a', 'b', 'c', 'd', 'e', 'f']
}

/// How one byte of a line that is not UTF-8 is shown: line breaks are
/// dropped, printable ASCII stays, anything else becomes `\xNN`.
pub open spec fn escaped_byte(b: u8) -> Seq<char> {
    if b == 10u8 || b == 13u8 {
        seq![]
    } else if 32u8 <= b < 127u8 {
        seq![b as char]
    } else {
        seq!['\\', 'x', hex_digits()[(b / 16) as int], hex_digits()[(b % 16) as int]]
    }
}

/// The escaped form of the bytes `b[..n]`.
pub open spec fn escaped_prefix(b: Seq<u8>, n: int) -> Seq<char>
    decreases n,
{
    if n <= 0 {
        seq![]
    } else {
        escaped_prefix(b, n - 1) + escaped_byte(b[n - 1])
    }
}

/// The text of a line read as bytes: UTF-8 text without a final carriage
/// return, or, when the bytes are not UTF-8, their escaped form.
pub open spec fn line_text(b: Seq<u8>) -> Seq<char> {
    if valid_utf8(b) {
        let s = decode_utf8(b);
        if s.len() > 0 && s.last() == '\r' {
            s.drop_last()
        } else {
            s
        }
    } else {
        escaped_prefix(b, b.len() as int)
    }
}

/// `std::str::from_utf8`, owned: the text when the bytes are valid UTF-8.
#[verifier::external_body]
fn utf8_text(bytes: &[u8]) -> (r: Option<String>)
    ensures
        r is Some <==> valid_utf8(bytes@),
        r matches Some(s) ==> s@ == decode_utf8(bytes@),
{
    match std::str::from_utf8(bytes) {
        Ok(s) => Some(s.to_string()),
        Err(_) => None,
    }
}

/// The text of one line of raw input (without its line feed).
pub fn bytes_to_line(bytes: &[u8]) -> (r: String)
    ensures
        r@ == line_text(bytes@),
{
    match utf8_text(bytes) {
        Some(s) => {
            let v = chars_of(s.as_str());
            if v.len() > 0 && v[v.len() - 1] == '\r' {
                let t = string_of_range(v.as_slice(), 0, v.len() - 1);
                assert(v@.subrange(0, v@.len() - 1) =~= v@.drop_last());
                t
            } else {
                s
            }
        },
        None => {
            let digits = ['0', '1', '2', '3', '4', '5', '6', '7', '8', '9', 'a', 'b', 'c', 'd', 'e', 'f'];
            assert(digits@ == hex_digits());
            let mut out: Vec<char> = Vec::new();
            let mut i: usize = 0;
            while i < bytes.len()
                invariant
                    i <= bytes@.len(),
                    digits@ == hex_digits(),
                    out@ == escaped_prefix(bytes@, i as int),
                decreases bytes@.len() - i,
            {
                let b = bytes[i];
                let ghost before = out@;
                if b == 10u8 || b == 13u8 {
                } else if 32u8 <= b && b < 127u8 {
                    out.push(b as char);
                } else {
                    out.push('\\');
                    out.push('x');
                    out.push(digits[(b / 16) as usize]);
                    out.push(digits[(b % 16) as usize]);
                }
                assert(out@ =~= before + escaped_byte(b));
                i = i + 1;
            }
            string_of(out.as_slice())
        },
    }
}

/// The integer `c` written in decimal, with a minus sign when negative.
pub open spec fn signed_decimal(c: i32) -> Seq<char> {
    if c < 0 {
        seq!['-'] + decimal((-c) as nat)
    } else {
        decimal(c as nat)
    }
}

/// The line that reports how the command ended: successfully, with an exit
/// code, or by a signal (when it has no code).
pub open spec fn exit_text(success: bool, code: Option<i32>) -> Seq<char> {
    if success {
        "process exited successfully"@
    } else {
        match code {
            Some(c) => "process exited with code "@ + signed_decimal(c),
            None => "process terminated by signal"@,
        }
    }
}

/// The line that reports how the command ended (see `exit_text`).
pub fn exit_message(success: bool, code: Option<i32>) -> (r: String)
    ensures
        r@ == exit_text(success, code),
{
    if success {
        return "process exited successfully".to_owned();
    }
    match code {
        Some(c) => {
            let mag: u32 = if c < 0 {
                (-(c as i64)) as u32
            } else {
                c as u32
            };
            let digits = decimal_text(mag as usize);
            if c < 0 {
                let mut v: Vec<char> = Vec::new();
                v.push('-');
                let mut i: usize = 0;
                while i < digits.len()
                    invariant
                        i <= digits@.len(),
                        v@ == seq!['-'] + digits@.subrange(0, i as int),
                    decreases digits@.len() - i,
                {
                    v.push(digits[i]);
                    i = i + 1;
                    assert(v@ =~= seq!['-'] + digits@.subrange(0, i as int));
                }
                assert(digits@.subrange(0, digits@.len() as int) =~= digits@);
                concat_text("process exited with code ", v.as_slice())
            } else {
                concat_text("process exited with code ", digits.as_slice())
            }
        },
        None => "process terminated by signal".to_owned(),
    }
}

} // verus!
