//! Laws of the engine, stated and proved once for all inputs.
//!
//! Each proof function here records a guarantee that spans more than one
//! function of the library, over the same spec functions that those
//! functions' contracts use.

use vstd::prelude::*;
use crate::aggregate::MetaModel;
use crate::aggregate::row_counts_spec;
use crate::aggregate::schemas_spec;
use crate::aggregate::total_rows_of;
use crate::outputs::DirPolicyModel;
use crate::outputs::PolicyModel;
use crate::outputs::derived_path;
use crate::path::PathModel;

verus! {

/// The sum of a sequence of row counts.
pub open spec fn sum_of_counts(s: Seq<u64>) -> int
    decreases s.len(),
{
    if s.len() == 0 {
        0
    } else {
        sum_of_counts(s.drop_last()) + s.last()
    }
}

/// The summary's total row count is the sum of the per-file row counts:
/// summing what `row_counts_of` returns gives exactly what `aggregate`
/// reports as `total_rows`.
pub proof fn lemma_total_rows_is_row_count_sum(ms: Seq<MetaModel>)
    ensures
        sum_of_counts(row_counts_spec(ms)) == total_rows_of(ms),
    decreases ms.len(),
{
    if ms.len() > 0 {
        lemma_total_rows_is_row_count_sum(ms.drop_last());
        assert(row_counts_spec(ms).drop_last() =~= row_counts_spec(ms.drop_last()));
        assert(row_counts_spec(ms).last() == ms.last().rows);
    }
}

/// The schema listing is index-aligned with the files: one schema per
/// file, the schema at each position belonging to the file at that
/// position.
pub proof fn lemma_schemas_aligned(ms: Seq<MetaModel>)
    ensures
        schemas_spec(ms).len() == ms.len(),
        forall|i: int| 0 <= i < ms.len() ==> #[trigger] schemas_spec(ms)[i] == ms[i].schema,
{
}

/// Path derivation is the identity under the in-place policy with no
/// affixes: every input is its own output.
pub proof fn lemma_in_place_identity(p: PathModel, pol: PolicyModel, k: int)
    requires
        pol.dir is InPlace,
        pol.prefix == Seq::<char>::empty(),
        pol.postfix == Seq::<char>::empty(),
    ensures
        derived_path(p, pol, k) == p,
{
    assert(pol.prefix + p.stem + pol.postfix =~= p.stem);
    assert(derived_path(p, pol, k) =~= p);
}

/// Directory-redirect preserves relative structure: an input lying under
/// the common ancestor at some relative position comes out under the new
/// root at the same relative position.
pub proof fn lemma_redirect_preserves_relative(
    p: PathModel,
    pol: PolicyModel,
    common: Seq<Seq<char>>,
    rel: Seq<Seq<char>>,
    root: Seq<Seq<char>>,
)
    requires
        pol.dir == DirPolicyModel::Redirect(root),
        p.dirs == common + rel,
    ensures
        derived_path(p, pol, common.len() as int).dirs == root + rel,
{
    assert((common + rel).skip(common.len() as int) =~= rel);
}

/// The filename affixes compose around the stem: the derived stem is the
/// prefix, then the original stem, then the postfix, and the extension
/// is unchanged.
pub proof fn lemma_affix_composes(p: PathModel, pol: PolicyModel, k: int)
    ensures
        derived_path(p, pol, k).stem == pol.prefix + p.stem + pol.postfix,
        derived_path(p, pol, k).ext == p.ext,
{
}

} // verus!
