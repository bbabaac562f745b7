//! Existence prechecking for output paths.
//!
//! Before an in-place or directory-redirect write, the tool warns how many
//! output paths already exist. The shell tests each derived output path
//! once and hands the flags in path order; counting them is pure and
//! neither creates nor deletes anything.

use vstd::prelude::*;

verus! {

/// How many entries of the sequence are set.
pub open spec fn count_true(s: Seq<bool>) -> int
    decreases s.len(),
{
    if s.len() == 0 {
        0
    } else {
        count_true(s.drop_last()) + if s.last() {
            1int
        } else {
            0int
        }
    }
}

/// The count is between zero and the number of entries.
pub proof fn lemma_count_true_le_len(s: Seq<bool>)
    ensures
        0 <= count_true(s) <= s.len(),
    decreases s.len(),
{
    if s.len() > 0 {
        lemma_count_true_le_len(s.drop_last());
    }
}

/// Counts how many output paths already exist, given one existence flag
/// per path, index-aligned with the derived outputs.
pub fn count_existing(exists_flags: &Vec<bool>) -> (n: u64)
    ensures
        n as int == count_true(exists_flags@),
{
    let mut n: u64 = 0;
    let mut i: usize = 0;
    while i < exists_flags.len()
        invariant
            i <= exists_flags@.len(),
            n as int == count_true(exists_flags@.take(i as int)),
        decreases exists_flags@.len() - i,
    {
        proof {
            assert(exists_flags@.take(i + 1).drop_last() =~= exists_flags@.take(i as int));
            assert(exists_flags@.take(i + 1).last() == exists_flags@[i as int]);
            lemma_count_true_le_len(exists_flags@.take(i as int));
            assert(usize::MAX <= u64::MAX);
        }
        if exists_flags[i] {
            n = n + 1;
        }
        i = i + 1;
    }
    proof {
        assert(exists_flags@.take(exists_flags@.len() as int) =~= exists_flags@);
    }
    n
}

} // verus!
