//! The borrow-state counter of a cell and the rules by which shared and
//! exclusive access is granted and given back.
//!
//! The counter uses the encoding of a single-writer, multi-reader lock: zero
//! means unborrowed, a positive value counts the outstanding shared borrows,
//! and a negative value stands for one outstanding exclusive borrow.

use vstd::prelude::*;

verus! {

pub type BorrowFlag = isize;

/// The counter of a cell that nobody borrows.
pub const UNUSED: BorrowFlag = 0;

/// The counter of a cell with one exclusive borrow outstanding.
pub const EXCLUSIVE: BorrowFlag = -1;

pub fn is_writing(x: BorrowFlag) -> (b: bool)
    ensures
        b == (x < UNUSED),
{
    x < UNUSED
}

pub fn is_reading(x: BorrowFlag) -> (b: bool)
    ensures
        b == (x > UNUSED),
{
    x > UNUSED
}

/// The counter after one more shared borrow of a cell whose counter is
/// `flag`, or `None` where the borrow is refused: an exclusive borrow is
/// outstanding, or the count of shared borrows cannot grow any further.
pub open spec fn shared_acquired(flag: BorrowFlag) -> Option<BorrowFlag> {
    if 0 <= flag < isize::MAX {
        Some((flag + 1) as isize)
    } else {
        None
    }
}

/// The counter after an exclusive borrow of a cell whose counter is `flag`,
/// or `None` where the borrow is refused: the cell is borrowed in any way.
pub open spec fn exclusive_acquired(flag: BorrowFlag) -> Option<BorrowFlag> {
    if flag == UNUSED {
        Some(EXCLUSIVE)
    } else {
        None
    }
}

/// The counter after one shared borrow has been given back.
pub open spec fn shared_released(flag: BorrowFlag) -> BorrowFlag
    recommends
        flag > UNUSED,
{
    (flag - 1) as isize
}

/// The counter after the exclusive borrow has been given back.
pub open spec fn exclusive_released(flag: BorrowFlag) -> BorrowFlag
    recommends
        flag < UNUSED,
{
    (flag + 1) as isize
}

/// The counter after `n` shared borrows of an unborrowed cell.
pub open spec fn shared_times(n: nat) -> Option<BorrowFlag>
    decreases n,
{
    if n == 0 {
        Some(UNUSED)
    } else {
        match shared_times((n - 1) as nat) {
            Some(flag) => shared_acquired(flag),
            None => None,
        }
    }
}

/// The counter after `n` shared borrows have been given back, starting from
/// `flag`.
pub open spec fn released_times(flag: BorrowFlag, n: nat) -> BorrowFlag
    decreases n,
{
    if n == 0 {
        flag
    } else {
        released_times(shared_released(flag), (n - 1) as nat)
    }
}

pub fn acquire_shared(flag: BorrowFlag) -> (r: Option<BorrowFlag>)
    ensures
        r == shared_acquired(flag),
{
    let b = flag.wrapping_add(1);
    if !is_reading(b) {
        None
    } else {
        Some(b)
    }
}

pub fn acquire_exclusive(flag: BorrowFlag) -> (r: Option<BorrowFlag>)
    ensures
        r == exclusive_acquired(flag),
{
    if flag == UNUSED {
        Some(UNUSED - 1)
    } else {
        None
    }
}

pub fn release_shared(flag: BorrowFlag) -> (r: BorrowFlag)
    requires
        flag > UNUSED,
    ensures
        r == shared_released(flag),
{
    flag - 1
}

pub fn release_exclusive(flag: BorrowFlag) -> (r: BorrowFlag)
    requires
        flag < UNUSED,
    ensures
        r == exclusive_released(flag),
{
    flag + 1
}

/// Shared borrows coexist: as long as the counter can hold them, `n` shared
/// borrows of an unborrowed cell are all granted, and the counter then reads
/// `n`.
pub proof fn lemma_shared_borrows_coexist(n: nat)
    requires
        n <= isize::MAX,
    ensures
        shared_times(n) == Some(n as isize),
    decreases n,
{
    if n > 0 {
        lemma_shared_borrows_coexist((n - 1) as nat);
    }
}

/// While any borrow is outstanding, shared or exclusive, an exclusive borrow
/// is refused; while an exclusive borrow is outstanding, a shared one is
/// refused too.
pub proof fn lemma_conflicting_borrow_refused(flag: BorrowFlag)
    requires
        flag != UNUSED,
    ensures
        exclusive_acquired(flag) is None,
        flag < UNUSED ==> shared_acquired(flag) is None,
{
}

/// Giving back every shared borrow leaves the cell unborrowed, and an
/// exclusive borrow is then granted.
pub proof fn lemma_exclusive_after_release(n: nat)
    requires
        n <= isize::MAX,
    ensures
        shared_times(n) matches Some(flag) && released_times(flag, n) == UNUSED,
        exclusive_acquired(released_times(shared_times(n)->0, n)) == Some(EXCLUSIVE),
{
    lemma_shared_borrows_coexist(n);
    lemma_released_counts_down(n as isize, n);
}

/// Giving back `n` of the shared borrows that a counter holds lowers it by `n`.
pub proof fn lemma_released_counts_down(flag: BorrowFlag, n: nat)
    requires
        n <= flag,
    ensures
        released_times(flag, n) == flag - n,
    decreases n,
{
    if n > 0 {
        lemma_released_counts_down(shared_released(flag), (n - 1) as nat);
    }
}

/// An exclusive borrow that is given back leaves the cell unborrowed.
pub proof fn lemma_exclusive_round_trip()
    ensures
        exclusive_acquired(UNUSED) matches Some(flag) && exclusive_released(flag) == UNUSED,
{
}

} // verus!
