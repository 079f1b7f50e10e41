//! Text of one log line.

use vstd::prelude::*;
use crate::text::{dec, pad_left, decimal_padded, join3};

verus! {

/// A log line: the milliseconds since start right-aligned in six columns, the message,
/// and a line feed.
pub open spec fn line_spec(ms: u128, msg: Seq<char>) -> Seq<char> {
    "[+"@ + pad_left(dec(ms as nat), 6) + "ms] "@ + msg + "\n"@
}

/// The text written for the message `msg` logged `ms` milliseconds after start.
pub fn line_text(ms: u128, msg: &str) -> (r: String)
    ensures
        r@ == line_spec(ms, msg@),
{
    join3("[+", decimal_padded(ms, 6).as_str(), "ms] ").concat(msg).concat("\n")
}

} // verus!
