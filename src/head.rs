use vstd::prelude::*;

use crate::error::{message_of, ApiError};

verus! {

/// The block number that marks a fact that has not been superseded.
pub const OPEN_END: i64 = 0x7fff_ffff_ffff_ffff;

/// A fact is visible at `head` when `start <= head < end`.
pub open spec fn valid_at(start: int, end: int, head: int) -> bool {
    start <= head && head < end
}

/// Whether a row with the validity interval `[start, end)` is visible at `head`.
pub fn is_valid_at(start: i64, end: i64, head: i64) -> (r: bool)
    ensures
        r == valid_at(start as int, end as int, head as int),
{
    start <= head && head < end
}

/// One committed block of the ledger.
pub struct Block {
    pub block_num: i64,
    pub block_id: String,
}

/// The largest block number of a non-empty ledger.
pub open spec fn max_block_num(blocks: Seq<Block>) -> int
    decreases blocks.len(),
{
    if blocks.len() <= 1 {
        blocks[0].block_num as int
    } else {
        let m = max_block_num(blocks.drop_last());
        if blocks.last().block_num > m {
            blocks.last().block_num as int
        } else {
            m
        }
    }
}

/// The largest committed block number, or `None` for an empty ledger.
pub fn latest_block_num(blocks: &Vec<Block>) -> (r: Option<i64>)
    ensures
        blocks@.len() == 0 ==> r is None,
        blocks@.len() > 0 ==> (r matches Some(m) && m as int == max_block_num(blocks@)),
        blocks@.len() > 0 ==> forall|i: int| 0 <= i < blocks@.len() ==> (#[trigger] blocks@[i]).block_num <= max_block_num(blocks@),
{
    if blocks.len() == 0 {
        return None;
    }
    let mut best: i64 = blocks[0].block_num;
    let mut i: usize = 1;
    proof {
        assert(blocks@.take(1).len() == 1);
    }
    while i < blocks.len()
        invariant
            1 <= i <= blocks@.len(),
            best as int == max_block_num(blocks@.take(i as int)),
            forall|j: int| 0 <= j < i ==> (#[trigger] blocks@[j]).block_num <= best,
        decreases blocks@.len() - i,
    {
        proof {
            assert(blocks@.take(i as int + 1).drop_last() =~= blocks@.take(i as int));
        }
        if blocks[i].block_num > best {
            best = blocks[i].block_num;
        }
        i = i + 1;
    }
    proof {
        assert(blocks@.take(blocks@.len() as int) =~= blocks@);
    }
    Some(best)
}

/// The head that a request is served at: the explicit one, else the
/// latest committed block; none for an empty ledger.
pub open spec fn resolved_head(explicit: Option<i64>, blocks: Seq<Block>) -> Option<int> {
    match explicit {
        Some(h) => Some(h as int),
        None => if blocks.len() == 0 {
            None
        } else {
            Some(max_block_num(blocks))
        },
    }
}

/// Fixes the head of one request. An explicit head is used as given, with no
/// bound against the chain tip; without one the latest committed block is
/// used, and an empty ledger is an internal error.
pub fn get_head_block_num(head: Option<i64>, blocks: &Vec<Block>) -> (r: Result<i64, ApiError>)
    ensures
        resolved_head(head, blocks@) matches Some(h) ==> (r matches Ok(x) && x as int == h),
        resolved_head(head, blocks@) is None ==> (r matches Err(e) && e.is_internal()),
{
    match head {
        Some(h) => Ok(h),
        None => match latest_block_num(blocks) {
            Some(m) => Ok(m),
            None => Err(ApiError::InternalError(message_of("the block ledger is empty"))),
        },
    }
}

} // verus!
