//! Control sequences for the terminal that shows the display.

use vstd::prelude::*;

verus! {

/// The decimal digits of `n` as ASCII bytes, without leading zeros.
pub open spec fn decimal(n: nat) -> Seq<u8>
    decreases n,
{
    if n < 10 {
        seq![(48 + n) as u8]
    } else {
        decimal(n / 10).push((48 + n % 10) as u8)
    }
}

/// The sequence that moves the cursor to `column` and `row`, both counted
/// from one: `ESC [ row ; column H`.
pub open spec fn goto_sequence(column: u16, row: u16) -> Seq<u8> {
    seq![27u8, 91u8] + decimal(row as nat) + seq![59u8] + decimal(column as nat) + seq![72u8]
}

/// The sequence that moves the cursor to the upper left corner:
/// `ESC [ 1 ; 1 H`.
pub open spec fn home_sequence() -> Seq<u8> {
    seq![27u8, 91u8, 49u8, 59u8, 49u8, 72u8]
}

/// `termion::cursor::Goto`, as its `Display` writes it: the escape character
/// and `[`, the row in decimal, `;`, the column in decimal, and `H`. The
/// position (0, 0) is left out, which termion rejects in debug builds.
#[verifier::external_body]
fn goto(column: u16, row: u16) -> (bytes: Vec<u8>)
    requires
        column != 0 || row != 0,
    ensures
        bytes@ == goto_sequence(column, row),
{
    format!("{}", termion::cursor::Goto(column, row)).into_bytes()
}

/// The bytes that move the cursor to the upper left corner.
pub fn home() -> (bytes: Vec<u8>)
    ensures
        bytes@ == home_sequence(),
{
    let bytes = goto(1, 1);
    assert(decimal(1) =~= seq![49u8]);
    assert(bytes@ =~= home_sequence());
    bytes
}

} // verus!
