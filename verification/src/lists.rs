//! Moving the selection within a list of items, and moving the selected
//! item from one list to the other.

use vstd::prelude::*;

verus! {

/// The selection after a step towards the start of the list: it stops at
/// the first item.
pub open spec fn moved_up(curr: int) -> int {
    if curr > 0 { curr - 1 } else { curr }
}

/// The selection after a step towards the end of a list of `len` items: it
/// stops at the last item.
pub open spec fn moved_down(len: int, curr: int) -> int {
    if curr + 1 < len { curr + 1 } else { curr }
}

/// The selection after the selected item has left a list that is now `len`
/// items long: if it stood on the last item it steps back onto the new last
/// one, unless nothing is left.
pub open spec fn after_removal(len: int, curr: int) -> int {
    if curr >= len && len > 0 { len - 1 } else { curr }
}

/// A selection is in place if it stands on an item, or at zero in an empty
/// list, where it selects nothing.
pub open spec fn selection_in_place(len: int, curr: int) -> bool {
    0 <= curr && (curr < len || (len == 0 && curr == 0))
}

/// Moves the selection one item up, unless it is on the first.
pub fn list_up(list_curr: &mut usize)
    ensures
        *final(list_curr) == moved_up(*old(list_curr) as int),
{
    if *list_curr > 0 {
        *list_curr = *list_curr - 1;
    }
}

/// Moves the selection one item down, unless it is on the last.
pub fn list_down(list: &Vec<String>, list_curr: &mut usize)
    ensures
        *final(list_curr) == moved_down(list@.len() as int, *old(list_curr) as int),
{
    if *list_curr < list.len() && *list_curr + 1 < list.len() {
        *list_curr = *list_curr + 1;
    }
}

/// Moves the selected item of `list_src` to the end of `list_trans`. Where
/// the selection is on no item, nothing changes.
pub fn list_transfer(
    list_src: &mut Vec<String>,
    list_trans: &mut Vec<String>,
    list_curr: &mut usize,
)
    ensures
        *old(list_curr) < old(list_src)@.len() ==> {
            &&& final(list_src)@ == old(list_src)@.remove(*old(list_curr) as int)
            &&& final(list_trans)@ == old(list_trans)@.push(old(list_src)@[*old(list_curr) as int])
            &&& *final(list_curr) == after_removal(
                old(list_src)@.len() - 1,
                *old(list_curr) as int,
            )
        },
        *old(list_curr) >= old(list_src)@.len() ==> {
            &&& final(list_src)@ == old(list_src)@
            &&& final(list_trans)@ == old(list_trans)@
            &&& *final(list_curr) == *old(list_curr)
        },
{
    if *list_curr < list_src.len() {
        let item = list_src.remove(*list_curr);
        list_trans.push(item);
        if *list_curr >= list_src.len() && list_src.len() > 0 {
            *list_curr = list_src.len() - 1;
        }
    }
}

/// Each of the three moves leaves a selection that was in place in place,
/// and so does taking an item in at the end of the list.
pub proof fn lemma_selection_stays_in_place(len: int, curr: int)
    requires
        selection_in_place(len, curr),
    ensures
        selection_in_place(len, moved_up(curr)),
        selection_in_place(len, moved_down(len, curr)),
        curr < len ==> selection_in_place(len - 1, after_removal(len - 1, curr)),
        selection_in_place(len + 1, curr),
{
}

/// A step down from the last item, and a step up from the first, move
/// nothing.
pub proof fn lemma_selection_is_clamped(len: int)
    requires
        len > 0,
    ensures
        moved_down(len, len - 1) == len - 1,
        moved_up(0) == 0,
{
}

} // verus!
