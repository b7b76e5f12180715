//! What the library takes from the terminal library without touching the
//! terminal: the codes of the arrow keys and the bits of a colour pair.
//! Nothing here is proved; each contract says what the source of `ncurses`
//! shows.

use vstd::prelude::*;

verus! {

/// `ncurses::KEY_UP`, the key code of the up arrow: the constant 0x103.
#[verifier::external_body]
pub(crate) fn key_up() -> (code: i32)
    ensures
        code == 0x103,
{
    ncurses::KEY_UP
}

/// `ncurses::KEY_DOWN`, the key code of the down arrow: the constant 0x102.
#[verifier::external_body]
pub(crate) fn key_down() -> (code: i32)
    ensures
        code == 0x102,
{
    ncurses::KEY_DOWN
}

/// `ncurses::KEY_LEFT`, the key code of the left arrow: the constant 0x104.
#[verifier::external_body]
pub(crate) fn key_left() -> (code: i32)
    ensures
        code == 0x104,
{
    ncurses::KEY_LEFT
}

/// `ncurses::KEY_RIGHT`, the key code of the right arrow: the constant
/// 0x105.
#[verifier::external_body]
pub(crate) fn key_right() -> (code: i32)
    ensures
        code == 0x105,
{
    ncurses::KEY_RIGHT
}

/// `ncurses::COLOR_PAIR`, the attribute that selects a colour pair: the
/// number of the pair moved eight bits to the left. For a number that is
/// not negative nothing is cut off, so the attribute is 256 times the
/// number.
#[verifier::external_body]
pub(crate) fn color_pair(pair: i16) -> (attr: u32)
    requires
        0 <= pair,
    ensures
        attr == pair * 256,
{
    ncurses::COLOR_PAIR(pair)
}

} // verus!
