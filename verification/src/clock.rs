//! The wall-clock time at which a line arrives.
use vstd::prelude::*;

verus! {

/// Whether `c` is an ASCII digit.
pub open spec fn is_ascii_digit(c: char) -> bool {
    '0' <= c && c <= '9'
}

/// The shape `HH:MM:SS.mmm`: twelve characters, digits around two colons
/// and a point.
pub open spec fn timestamp_shape(t: Seq<char>) -> bool {
    &&& t.len() == 12
    &&& t[2] == ':' && t[5] == ':' && t[8] == '.'
    &&& forall|i: int| 0 <= i < 12 && i != 2 && i != 5 && i != 8 ==> is_ascii_digit(#[trigger] t[i])
}

/// The local time now, as chrono formats it with `%H:%M:%S%.3f`. The time is
/// the machine's, so only the shape that the format gives is stated: two
/// digits each for hours, minutes and seconds, and three for milliseconds.
#[verifier::external_body]
pub(crate) fn local_timestamp() -> (r: String)
    ensures
        timestamp_shape(r@),
{
    chrono::Local::now().format("%H:%M:%S%.3f").to_string()
}

} // verus!
