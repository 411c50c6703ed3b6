//! The size of the index on disk and its limit.

use vstd::prelude::*;
use crate::crawler::error::{CrawlError, CrawlResult};

verus! {

/// The sum of some sizes, as far as it fits.
pub open spec fn total_size(sizes: Seq<u64>) -> int
    decreases sizes.len(),
{
    if sizes.len() == 0 {
        0
    } else if total_size(sizes.drop_last()) + sizes.last() > u64::MAX {
        u64::MAX as int
    } else {
        total_size(sizes.drop_last()) + sizes.last()
    }
}

/// The size of an index made of files of the given sizes.
pub fn sum_sizes(sizes: &Vec<u64>) -> (r: u64)
    ensures
        r == total_size(sizes@),
{
    let mut total: u64 = 0;
    let mut i: usize = 0;
    assert(sizes@.take(0) =~= Seq::<u64>::empty());
    while i < sizes.len()
        invariant
            i <= sizes.len(),
            total == total_size(sizes@.take(i as int)),
        decreases sizes.len() - i,
    {
        assert(sizes@.take(i + 1).drop_last() =~= sizes@.take(i as int));
        total = total.saturating_add(sizes[i]);
        i = i + 1;
    }
    assert(sizes@.take(sizes@.len() as int) =~= sizes@);
    total
}

/// An error where the index has reached its limit.
pub fn check_capacity(used: u64, max: u64) -> (r: CrawlResult<()>)
    ensures
        used < max ==> r is Ok,
        used >= max ==> r == Err::<(), _>(CrawlError::IndexFull { used, max }),
{
    if used >= max {
        Err(CrawlError::IndexFull { used, max })
    } else {
        Ok(())
    }
}

/// A size as it is shown: the largest number that can be, where it is larger.
pub fn shown_size(bytes: u64) -> (r: i64)
    ensures
        r == if bytes > i64::MAX as u64 {
            i64::MAX as int
        } else {
            bytes as int
        },
{
    if bytes > 9_223_372_036_854_775_807 {
        9_223_372_036_854_775_807
    } else {
        bytes as i64
    }
}

/// The plain sum of some sizes.
pub open spec fn plain_sum(sizes: Seq<u64>) -> int {
    sizes.fold_left(0int, |n: int, s: u64| n + s)
}

/// The size of an index is the sum of the sizes of its files, all of them, or
/// the largest number where that is larger.
pub proof fn all_files_count(sizes: Seq<u64>)
    ensures
        total_size(sizes) == (if plain_sum(sizes) > u64::MAX {
            u64::MAX as int
        } else {
            plain_sum(sizes)
        }),
        plain_sum(sizes) >= 0,
    decreases sizes.len(),
{
    if sizes.len() > 0 {
        all_files_count(sizes.drop_last());
    }
}

} // verus!
