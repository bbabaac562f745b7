//! Metadata aggregation.
//!
//! The shell reads each input file's footer once and records the outcome;
//! `collect_metadata` pairs those outcomes with the file set and enforces
//! the hard-fail policy: one unreadable footer voids the whole batch,
//! naming the file, so that no partial summary is ever presented as
//! complete. `aggregate` then folds the per-file metadata into one
//! summary: total row, byte and file counts, and one group per distinct
//! schema with the group's own totals.
//!
//! Two files belong to the same group exactly when their column sequences
//! are structurally equal, order-sensitively: two schemas differing only
//! in column order count as distinct. Groups are produced in order of
//! first appearance; `sorted_groups` reorders them by a configurable key,
//! descending. Totals are folded in u128, which cannot overflow for any
//! addressable number of files.

use vstd::prelude::*;
use vstd::multiset::Multiset;
use vstd::pervasive::VecAdditionalExecFns;
use crate::errors::TblError;
use crate::fileset::FileSet;
use crate::path::FilePath;
use crate::path::PathModel;
use crate::schema::ColumnModel;
use crate::schema::FileSchema;
use crate::schema::schema_eq;

verus! {

/// Mathematical model of one file's structural metadata.
#[verifier::ext_equal]
pub ghost struct MetaModel {
    pub path: PathModel,
    pub schema: Seq<ColumnModel>,
    pub rows: u64,
    pub bytes: u64,
}

/// The structural metadata of one file: its path, schema, row count and
/// size on disk.
pub struct FileMeta {
    pub path: FilePath,
    pub schema: FileSchema,
    pub rows: u64,
    pub bytes: u64,
}

impl View for FileMeta {
    type V = MetaModel;

    open spec fn view(&self) -> MetaModel {
        MetaModel { path: self.path@, schema: self.schema@, rows: self.rows, bytes: self.bytes }
    }
}

impl DeepView for FileMeta {
    type V = MetaModel;

    open spec fn deep_view(&self) -> MetaModel {
        self.view()
    }
}

/// The outcome of reading one file's footer, as the shell observed it:
/// the schema, row count and byte size, or the fact that the footer could
/// not be read.
pub enum MetaRead {
    Meta(FileSchema, u64, u64),
    Unreadable,
}

/// Pairs each file of the set with its footer-read outcome, index-aligned.
///
/// If every footer was read, the result carries one [`FileMeta`] per file
/// in set order. One unreadable footer fails the whole batch with
/// [`TblError::UnreadableMetadata`] naming the first affected file.
pub fn collect_metadata(files: &FileSet, reads: Vec<MetaRead>) -> (r: Result<
    Vec<FileMeta>,
    TblError,
>)
    requires
        reads@.len() == files@.len(),
    ensures
        match r {
            Ok(metas) => {
                &&& metas.deep_view().len() == files@.len()
                &&& forall|i: int| 0 <= i < files@.len() ==> !(reads@[i] is Unreadable)
                &&& forall|i: int|
                    0 <= i < files@.len() ==> (#[trigger] metas.deep_view()[i]) == (MetaModel {
                        path: files@[i],
                        schema: reads@[i]->Meta_0@,
                        rows: reads@[i]->Meta_1,
                        bytes: reads@[i]->Meta_2,
                    })
            },
            Err(e) => match e {
                TblError::UnreadableMetadata(p) => exists|i: int|
                    {
                        &&& 0 <= i < files@.len()
                        &&& reads@[i] is Unreadable
                        &&& p@ == files@[i]
                        &&& forall|i2: int| 0 <= i2 < i ==> !(reads@[i2] is Unreadable)
                    },
                _ => false,
            },
        },
{
    let mut metas: Vec<FileMeta> = Vec::new();
    let mut i: usize = 0;
    let n = files.len();
    while i < n
        invariant
            i <= n,
            n == files@.len(),
            reads@.len() == n,
            metas.len() == i,
            forall|t: int| 0 <= t < i ==> !(reads@[t] is Unreadable),
            forall|t: int|
                0 <= t < i ==> (#[trigger] metas@[t]@) == (MetaModel {
                    path: files@[t],
                    schema: reads@[t]->Meta_0@,
                    rows: reads@[t]->Meta_1,
                    bytes: reads@[t]->Meta_2,
                }),
        decreases n - i,
    {
        match &reads[i] {
            MetaRead::Meta(schema, rows, bytes) => {
                let m = FileMeta {
                    path: files.get(i).clone(),
                    schema: schema.clone(),
                    rows: *rows,
                    bytes: *bytes,
                };
                proof {
                    assert(m@ =~= MetaModel {
                        path: files@[i as int],
                        schema: reads@[i as int]->Meta_0@,
                        rows: reads@[i as int]->Meta_1,
                        bytes: reads@[i as int]->Meta_2,
                    });
                }
                metas.push(m);
            },
            MetaRead::Unreadable => {
                return Err(TblError::UnreadableMetadata(files.get(i).clone()));
            },
        }
        i = i + 1;
    }
    proof {
        assert forall|t: int|
            0 <= t < files@.len() implies (#[trigger] metas.deep_view()[t]) == (MetaModel {
            path: files@[t],
            schema: reads@[t]->Meta_0@,
            rows: reads@[t]->Meta_1,
            bytes: reads@[t]->Meta_2,
        }) by {
            assert(metas.deep_view()[t] == metas@[t]@);
        }
    }
    Ok(metas)
}

/// The per-file row counts, index-aligned with the metadata.
pub open spec fn row_counts_spec(ms: Seq<MetaModel>) -> Seq<u64> {
    Seq::new(ms.len(), |i: int| ms[i].rows)
}

/// The per-file schemas, index-aligned with the metadata.
pub open spec fn schemas_spec(ms: Seq<MetaModel>) -> Seq<Seq<ColumnModel>> {
    Seq::new(ms.len(), |i: int| ms[i].schema)
}

/// The row count of every file, in metadata order: one entry per file.
pub fn row_counts_of(metas: &Vec<FileMeta>) -> (r: Vec<u64>)
    ensures
        r@ == row_counts_spec(metas.deep_view()),
{
    let mut r: Vec<u64> = Vec::new();
    let mut i: usize = 0;
    while i < metas.len()
        invariant
            i <= metas.len(),
            r@.len() == i,
            forall|t: int| 0 <= t < i ==> r@[t] == metas@[t]@.rows,
        decreases metas.len() - i,
    {
        r.push(metas[i].rows);
        i = i + 1;
    }
    proof {
        assert(r@ =~= row_counts_spec(metas.deep_view()));
    }
    r
}

/// The schema of every file, in metadata order: one entry per file.
pub fn schemas_of(metas: &Vec<FileMeta>) -> (r: Vec<FileSchema>)
    ensures
        r.deep_view() == schemas_spec(metas.deep_view()),
{
    let mut r: Vec<FileSchema> = Vec::new();
    let mut i: usize = 0;
    while i < metas.len()
        invariant
            i <= metas.len(),
            r@.len() == i,
            forall|t: int| 0 <= t < i ==> r@[t]@ == metas@[t]@.schema,
        decreases metas.len() - i,
    {
        r.push(metas[i].schema.clone());
        i = i + 1;
    }
    proof {
        assert(r.deep_view() =~= schemas_spec(metas.deep_view()));
    }
    r
}

/// The sum of all row counts.
pub open spec fn total_rows_of(ms: Seq<MetaModel>) -> int
    decreases ms.len(),
{
    if ms.len() == 0 {
        0
    } else {
        total_rows_of(ms.drop_last()) + ms.last().rows
    }
}

/// The sum of all byte sizes.
pub open spec fn total_bytes_of(ms: Seq<MetaModel>) -> int
    decreases ms.len(),
{
    if ms.len() == 0 {
        0
    } else {
        total_bytes_of(ms.drop_last()) + ms.last().bytes
    }
}

/// How many files carry exactly this schema.
pub open spec fn count_schema(ms: Seq<MetaModel>, sch: Seq<ColumnModel>) -> int
    decreases ms.len(),
{
    if ms.len() == 0 {
        0
    } else {
        count_schema(ms.drop_last(), sch) + if ms.last().schema == sch {
            1int
        } else {
            0int
        }
    }
}

/// The sum of the row counts of the files carrying exactly this schema.
pub open spec fn rows_of_schema(ms: Seq<MetaModel>, sch: Seq<ColumnModel>) -> int
    decreases ms.len(),
{
    if ms.len() == 0 {
        0
    } else {
        rows_of_schema(ms.drop_last(), sch) + if ms.last().schema == sch {
            ms.last().rows as int
        } else {
            0int
        }
    }
}

/// The sum of the byte sizes of the files carrying exactly this schema.
pub open spec fn bytes_of_schema(ms: Seq<MetaModel>, sch: Seq<ColumnModel>) -> int
    decreases ms.len(),
{
    if ms.len() == 0 {
        0
    } else {
        bytes_of_schema(ms.drop_last(), sch) + if ms.last().schema == sch {
            ms.last().bytes as int
        } else {
            0int
        }
    }
}

/// All folded quantities are non-negative and bounded by the number of
/// files times the largest per-file value.
pub proof fn lemma_fold_bounds(ms: Seq<MetaModel>, sch: Seq<ColumnModel>)
    ensures
        0 <= total_rows_of(ms) <= ms.len() * (u64::MAX as int),
        0 <= total_bytes_of(ms) <= ms.len() * (u64::MAX as int),
        0 <= count_schema(ms, sch) <= ms.len(),
        0 <= rows_of_schema(ms, sch) <= ms.len() * (u64::MAX as int),
        0 <= bytes_of_schema(ms, sch) <= ms.len() * (u64::MAX as int),
    decreases ms.len(),
{
    if ms.len() > 0 {
        lemma_fold_bounds(ms.drop_last(), sch);
        let n = ms.len() as int;
        let m = u64::MAX as int;
        assert((n - 1) * m + m == n * m) by (nonlinear_arith);
    }
}

/// A schema that no file carries contributes nothing to any fold.
pub proof fn lemma_schema_absent(ms: Seq<MetaModel>, sch: Seq<ColumnModel>)
    requires
        forall|t: int| 0 <= t < ms.len() ==> ms[t].schema != sch,
    ensures
        count_schema(ms, sch) == 0,
        rows_of_schema(ms, sch) == 0,
        bytes_of_schema(ms, sch) == 0,
    decreases ms.len(),
{
    if ms.len() > 0 {
        assert(ms.last() == ms[ms.len() - 1]);
        lemma_schema_absent(ms.drop_last(), sch);
    }
}

/// Mathematical model of a schema group.
#[verifier::ext_equal]
pub ghost struct GroupModel {
    pub schema: Seq<ColumnModel>,
    pub file_count: int,
    pub total_rows: int,
    pub total_bytes: int,
}

/// One group of files sharing an identical schema, with the group's
/// aggregated file, row and byte counts.
pub struct SchemaGroup {
    pub schema: FileSchema,
    pub file_count: u64,
    pub total_rows: u128,
    pub total_bytes: u128,
}

impl View for SchemaGroup {
    type V = GroupModel;

    open spec fn view(&self) -> GroupModel {
        GroupModel {
            schema: self.schema@,
            file_count: self.file_count as int,
            total_rows: self.total_rows as int,
            total_bytes: self.total_bytes as int,
        }
    }
}

impl DeepView for SchemaGroup {
    type V = GroupModel;

    open spec fn deep_view(&self) -> GroupModel {
        self.view()
    }
}

/// The whole-batch summary: total file, row and byte counts, and one
/// group per distinct schema, in order of first appearance.
pub struct AggregateSummary {
    pub file_count: u64,
    pub total_rows: u128,
    pub total_bytes: u128,
    pub groups: Vec<SchemaGroup>,
}

/// The position of the group carrying exactly this schema, if any.
fn find_group(groups: &Vec<SchemaGroup>, sch: &FileSchema) -> (r: Option<usize>)
    ensures
        match r {
            Some(g) => g < groups@.len() && groups@[g as int]@.schema == sch@,
            None => forall|g: int| 0 <= g < groups@.len() ==> groups@[g]@.schema != sch@,
        },
{
    let mut g: usize = 0;
    while g < groups.len()
        invariant
            g <= groups.len(),
            forall|t: int| 0 <= t < g ==> groups@[t]@.schema != sch@,
        decreases groups.len() - g,
    {
        if schema_eq(&groups[g].schema, sch) {
            return Some(g);
        }
        g = g + 1;
    }
    None
}

/// Folds the per-file metadata into the whole-batch summary.
///
/// Totals are exact sums; the groups partition the files by structural
/// schema equality, each group carrying its own file, row and byte
/// counts, one group per distinct schema, in order of first appearance.
#[verifier::rlimit(100)]
#[verifier::spinoff_prover]
pub fn aggregate(metas: &Vec<FileMeta>) -> (s: AggregateSummary)
    ensures
        s.file_count == metas.deep_view().len(),
        s.total_rows as int == total_rows_of(metas.deep_view()),
        s.total_bytes as int == total_bytes_of(metas.deep_view()),
        forall|g1: int, g2: int|
            0 <= g1 < g2 < s.groups.deep_view().len() ==> s.groups.deep_view()[g1].schema
                != s.groups.deep_view()[g2].schema,
        forall|t: int|
            #![trigger metas.deep_view()[t]]
            0 <= t < metas.deep_view().len() ==> exists|g: int|
                {
                    &&& 0 <= g < s.groups.deep_view().len()
                    &&& (#[trigger] s.groups.deep_view()[g]).schema == metas.deep_view()[t].schema
                },
        forall|g: int|
            #![trigger s.groups.deep_view()[g]]
            0 <= g < s.groups.deep_view().len() ==> exists|t: int|
                {
                    &&& 0 <= t < metas.deep_view().len()
                    &&& (#[trigger] metas.deep_view()[t]).schema == s.groups.deep_view()[g].schema
                },
        forall|g: int|
            0 <= g < s.groups.deep_view().len() ==> {
                let gm = #[trigger] s.groups.deep_view()[g];
                &&& gm.file_count == count_schema(metas.deep_view(), gm.schema)
                &&& gm.total_rows == rows_of_schema(metas.deep_view(), gm.schema)
                &&& gm.total_bytes == bytes_of_schema(metas.deep_view(), gm.schema)
            },
{
    let ghost mm = metas.deep_view();
    let n = metas.len();
    proof {
        assert(n <= usize::MAX);
        assert(usize::MAX <= u64::MAX);
    }
    let mut total_rows: u128 = 0;
    let mut total_bytes: u128 = 0;
    let mut groups: Vec<SchemaGroup> = Vec::new();
    let mut i: usize = 0;
    while i < n
        invariant
            i <= n,
            n == mm.len(),
            n <= u64::MAX,
            mm == metas.deep_view(),
            metas@.len() == n,
            total_rows as int == total_rows_of(mm.take(i as int)),
            total_bytes as int == total_bytes_of(mm.take(i as int)),
            forall|g1: int, g2: int|
                0 <= g1 < g2 < groups@.len() ==> groups@[g1]@.schema != groups@[g2]@.schema,
            forall|t: int|
                #![trigger mm[t]]
                0 <= t < i ==> exists|g: int|
                    {
                        &&& 0 <= g < groups@.len()
                        &&& (#[trigger] groups@[g]@).schema == mm[t].schema
                    },
            forall|g: int|
                #![trigger groups@[g]]
                0 <= g < groups@.len() ==> exists|t: int|
                    {
                        &&& 0 <= t < i
                        &&& (#[trigger] mm[t]).schema == groups@[g]@.schema
                    },
            forall|g: int|
                0 <= g < groups@.len() ==> {
                    let gm = (#[trigger] groups@[g])@;
                    &&& gm.file_count == count_schema(mm.take(i as int), gm.schema)
                    &&& gm.total_rows == rows_of_schema(mm.take(i as int), gm.schema)
                    &&& gm.total_bytes == bytes_of_schema(mm.take(i as int), gm.schema)
                },
        decreases n - i,
    {
        let m = &metas[i];
        proof {
            assert(m@ == mm[i as int]);
            assert(mm.take(i + 1).drop_last() =~= mm.take(i as int));
            assert(mm.take(i + 1).last() == mm[i as int]);
            lemma_fold_bounds(mm.take(i as int), mm[i as int].schema);
            assert((i as int) * (u64::MAX as int) + (u64::MAX as int) < u128::MAX) by (
            nonlinear_arith)
                requires
                    0 <= i < 0x1_0000_0000_0000_0000,
            ;
        }
        total_rows = total_rows + (m.rows as u128);
        total_bytes = total_bytes + (m.bytes as u128);
        match find_group(&groups, &m.schema) {
            Some(g) => {
                let ghost sch = groups@[g as int]@.schema;
                let ghost gprev = groups@;
                let prev = &groups[g];
                let updated = SchemaGroup {
                    schema: prev.schema.clone(),
                    file_count: prev.file_count + 1,
                    total_rows: prev.total_rows + (m.rows as u128),
                    total_bytes: prev.total_bytes + (m.bytes as u128),
                };
                groups.set(g, updated);
                proof {
                    assert forall|t: int|
                        #![trigger mm[t]]
                        0 <= t < i + 1 implies exists|g2: int|
                        {
                            &&& 0 <= g2 < groups@.len()
                            &&& (#[trigger] groups@[g2]@).schema == mm[t].schema
                        } by {
                        if t == i {
                            assert(groups@[g as int]@.schema == mm[t].schema);
                        } else {
                            let g0 = choose|g0: int|
                                0 <= g0 < gprev.len() && (#[trigger] gprev[g0]@).schema
                                    == mm[t].schema;
                            assert(groups@[g0]@.schema == mm[t].schema);
                        }
                    }
                }
            },
            None => {
                proof {
                    lemma_schema_absent(mm.take(i as int), mm[i as int].schema);
                }
                let ghost gprev = groups@;
                let fresh = SchemaGroup {
                    schema: m.schema.clone(),
                    file_count: 1,
                    total_rows: m.rows as u128,
                    total_bytes: m.bytes as u128,
                };
                groups.push(fresh);
                proof {
                    assert forall|t: int|
                        #![trigger mm[t]]
                        0 <= t < i + 1 implies exists|g2: int|
                        {
                            &&& 0 <= g2 < groups@.len()
                            &&& (#[trigger] groups@[g2]@).schema == mm[t].schema
                        } by {
                        if t == i {
                            assert(groups@[groups@.len() - 1]@.schema == mm[t].schema);
                        } else {
                            let g0 = choose|g0: int|
                                0 <= g0 < gprev.len() && (#[trigger] gprev[g0]@).schema
                                    == mm[t].schema;
                            assert(groups@[g0]@.schema == mm[t].schema);
                        }
                    }
                }
            },
        }
        i = i + 1;
    }
    proof {
        assert(mm.take(n as int) =~= mm);
    }
    let s = AggregateSummary { file_count: n as u64, total_rows, total_bytes, groups };
    proof {
        assert forall|g: int|
            0 <= g < s.groups.deep_view().len() implies {
            let gm = #[trigger] s.groups.deep_view()[g];
            &&& gm.file_count == count_schema(metas.deep_view(), gm.schema)
            &&& gm.total_rows == rows_of_schema(metas.deep_view(), gm.schema)
            &&& gm.total_bytes == bytes_of_schema(metas.deep_view(), gm.schema)
        } by {
            assert(s.groups.deep_view()[g] == s.groups@[g]@);
        }
        assert forall|g1: int, g2: int|
            0 <= g1 < g2 < s.groups.deep_view().len() implies s.groups.deep_view()[g1].schema
            != s.groups.deep_view()[g2].schema by {
            assert(s.groups.deep_view()[g1] == s.groups@[g1]@);
            assert(s.groups.deep_view()[g2] == s.groups@[g2]@);
        }
        assert forall|t: int|
            #![trigger metas.deep_view()[t]]
            0 <= t < metas.deep_view().len() implies exists|g: int|
            {
                &&& 0 <= g < s.groups.deep_view().len()
                &&& (#[trigger] s.groups.deep_view()[g]).schema == metas.deep_view()[t].schema
            } by {
            assert(metas.deep_view()[t] == metas@[t]@);
            let g0 = choose|g0: int|
                0 <= g0 < s.groups@.len() && (#[trigger] s.groups@[g0]@).schema == mm[t].schema;
            assert(s.groups.deep_view()[g0] == s.groups@[g0]@);
        }
        assert forall|g: int|
            #![trigger s.groups.deep_view()[g]]
            0 <= g < s.groups.deep_view().len() implies exists|t: int|
            {
                &&& 0 <= t < metas.deep_view().len()
                &&& (#[trigger] metas.deep_view()[t]).schema == s.groups.deep_view()[g].schema
            } by {
            assert(s.groups.deep_view()[g] == s.groups@[g]@);
            let t0 = choose|t0: int|
                0 <= t0 < mm.len() && (#[trigger] mm[t0]).schema == s.groups@[g]@.schema;
            assert(metas.deep_view()[t0] == mm[t0]);
        }
    }
    s
}

} // verus!

verus! {

impl Clone for SchemaGroup {
    fn clone(&self) -> (res: Self)
        ensures
            res@ == self@,
    {
        let res = SchemaGroup {
            schema: self.schema.clone(),
            file_count: self.file_count,
            total_rows: self.total_rows,
            total_bytes: self.total_bytes,
        };
        proof {
            assert(res@ =~= self@);
        }
        res
    }
}

/// The key schema groups are ordered by: total bytes (the default), total
/// rows, or file count.
#[derive(Clone, Copy)]
pub enum SortKey {
    Bytes,
    Rows,
    Files,
}

/// The value of a group under a sort key.
pub open spec fn key_of(g: GroupModel, k: SortKey) -> int {
    match k {
        SortKey::Bytes => g.total_bytes,
        SortKey::Rows => g.total_rows,
        SortKey::Files => g.file_count,
    }
}

/// The value of this group under the sort key.
fn key_val(g: &SchemaGroup, k: SortKey) -> (v: u128)
    ensures
        v as int == key_of(g@, k),
{
    match k {
        SortKey::Bytes => g.total_bytes,
        SortKey::Rows => g.total_rows,
        SortKey::Files => g.file_count as u128,
    }
}

/// The groups reordered by the sort key, largest first.
///
/// The result holds exactly the groups given: the same values, the same
/// number of times, in descending key order.
#[verifier::rlimit(100)]
#[verifier::spinoff_prover]
pub fn sorted_groups(groups: Vec<SchemaGroup>, key: SortKey) -> (r: Vec<SchemaGroup>)
    ensures
        r@.len() == groups@.len(),
        r@.to_multiset() == groups@.to_multiset(),
        forall|g1: int, g2: int|
            #![trigger r@[g1], r@[g2]]
            0 <= g1 <= g2 < r@.len() ==> key_of(r@[g1]@, key) >= key_of(r@[g2]@, key),
{
    let ghost orig = groups@;
    let mut work = groups;
    let mut out: Vec<SchemaGroup> = Vec::new();
    proof {
        broadcast use vstd::multiset::group_multiset_axioms;

        vstd::seq_lib::to_multiset_len(out@);
        vstd::multiset::lemma_multiset_empty_len(out@.to_multiset());
        assert(out@.to_multiset().add(work@.to_multiset()) =~= work@.to_multiset());
    }
    while work.len() > 0
        invariant
            out@.len() + work@.len() == orig.len(),
            out@.to_multiset().add(work@.to_multiset()) == orig.to_multiset(),
            forall|g1: int, g2: int|
                #![trigger out@[g1], out@[g2]]
                0 <= g1 <= g2 < out@.len() ==> key_of(out@[g1]@, key) >= key_of(out@[g2]@, key),
            forall|a: int, t: int|
                #![trigger out@[a], work@[t]]
                0 <= a < out@.len() && 0 <= t < work@.len() ==> key_of(out@[a]@, key) >= key_of(
                    work@[t]@,
                    key,
                ),
        decreases work.len(),
    {
        let mut best: usize = 0;
        let mut t: usize = 1;
        while t < work.len()
            invariant
                0 < work@.len(),
                best < t <= work@.len() || (best == 0 && t <= 1),
                best < work@.len(),
                forall|q: int| 0 <= q < t ==> key_of(work@[best as int]@, key) >= key_of(
                    (#[trigger] work@[q])@,
                    key,
                ),
            decreases work.len() - t,
        {
            if key_val(&work[t], key) > key_val(&work[best], key) {
                best = t;
            }
            t = t + 1;
        }
        let ghost wprev = work@;
        let ghost outprev = out@;
        let g = work.remove(best);
        out.push(g);
        proof {
            broadcast use vstd::multiset::group_multiset_axioms;

            assert(wprev[best as int] == g);
            assert(wprev.contains(g));
            vstd::seq_lib::to_multiset_contains(wprev, g);
            vstd::seq_lib::to_multiset_remove(wprev, best as int);
            vstd::seq_lib::to_multiset_build(outprev, g);
            assert(wprev.to_multiset().count(g) > 0);
            assert(out@.to_multiset().add(work@.to_multiset()) =~= orig.to_multiset());
            assert forall|g1: int, g2: int|
                #![trigger out@[g1], out@[g2]]
                0 <= g1 <= g2 < out@.len() implies key_of(out@[g1]@, key) >= key_of(
                out@[g2]@,
                key,
            ) by {
                if g2 < out@.len() - 1 {
                    assert(out@[g1] == outprev[g1]);
                    assert(out@[g2] == outprev[g2]);
                } else if g1 < out@.len() - 1 {
                    assert(out@[g1] == outprev[g1]);
                    assert(out@[g2] == g);
                    assert(key_of(outprev[g1]@, key) >= key_of(wprev[best as int]@, key));
                }
            }
            assert forall|a: int, t2: int|
                #![trigger out@[a], work@[t2]]
                0 <= a < out@.len() && 0 <= t2 < work@.len() implies key_of(out@[a]@, key)
                >= key_of(work@[t2]@, key) by {
                let told: int = if t2 < best { t2 } else { t2 + 1 };
                assert(work@[t2] == wprev[told]);
                assert(key_of(wprev[best as int]@, key) >= key_of(wprev[told]@, key));
                if a < out@.len() - 1 {
                    assert(out@[a] == outprev[a]);
                    assert(key_of(outprev[a]@, key) >= key_of(wprev[told]@, key));
                } else {
                    assert(out@[a] == g);
                }
            }
        }
    }
    proof {
        broadcast use vstd::multiset::group_multiset_axioms;

        vstd::seq_lib::to_multiset_len(work@);
        vstd::multiset::lemma_multiset_empty_len(work@.to_multiset());
        assert(work@.to_multiset() =~= Multiset::<SchemaGroup>::empty());
        assert(out@.to_multiset().add(work@.to_multiset()) =~= out@.to_multiset());
        vstd::seq_lib::to_multiset_len(out@);
    }
    out
}


/// Checks that every file of the batch carries every required column.
///
/// Success exactly when each file's schema holds each named column. The
/// first file lacking a column fails the batch with
/// [`TblError::MissingColumn`] naming that file and that column.
#[verifier::spinoff_prover]
pub fn check_required_columns(metas: &Vec<FileMeta>, columns: &Vec<String>) -> (r: Result<
    (),
    TblError,
>)
    ensures
        r is Ok <==> forall|i: int, j: int|
            0 <= i < metas.deep_view().len() && 0 <= j < columns.deep_view().len()
                ==> crate::schema::schema_has_column(
                (#[trigger] metas.deep_view()[i]).schema,
                #[trigger] columns.deep_view()[j],
            ),
        match r {
            Ok(_) => true,
            Err(e) => match e {
                TblError::MissingColumn(p, c) => exists|i: int, j: int|
                    {
                        &&& 0 <= i < metas.deep_view().len()
                        &&& 0 <= j < columns.deep_view().len()
                        &&& !crate::schema::schema_has_column(
                            (#[trigger] metas.deep_view()[i]).schema,
                            #[trigger] columns.deep_view()[j],
                        )
                        &&& p@ == metas.deep_view()[i].path
                        &&& c@ == columns.deep_view()[j]
                    },
                _ => false,
            },
        },
{
    let ghost mm = metas.deep_view();
    let ghost cc = columns.deep_view();
    let mut i: usize = 0;
    while i < metas.len()
        invariant
            i <= metas.len(),
            mm == metas.deep_view(),
            cc == columns.deep_view(),
            mm.len() == metas.len(),
            cc.len() == columns.len(),
            forall|i2: int, j: int|
                0 <= i2 < i && 0 <= j < cc.len() ==> crate::schema::schema_has_column(
                    (#[trigger] mm[i2]).schema,
                    #[trigger] cc[j],
                ),
        decreases metas.len() - i,
    {
        let mut j: usize = 0;
        while j < columns.len()
            invariant
                j <= columns.len(),
                i < metas.len(),
                mm == metas.deep_view(),
                cc == columns.deep_view(),
                mm.len() == metas.len(),
                cc.len() == columns.len(),
                forall|j2: int|
                    0 <= j2 < j ==> crate::schema::schema_has_column(
                        mm[i as int].schema,
                        #[trigger] cc[j2],
                    ),
            decreases columns.len() - j,
        {
            if !crate::schema::contains_column(&metas[i].schema, &columns[j]) {
                let e = TblError::MissingColumn(metas[i].path.clone(), columns[j].clone());
                proof {
                    assert(metas@[i as int]@ == mm[i as int]);
                    assert(!crate::schema::schema_has_column(mm[i as int].schema, cc[j as int]));
                }
                return Err(e);
            }
            proof {
                assert(metas@[i as int]@ == mm[i as int]);
            }
            j = j + 1;
        }
        i = i + 1;
    }
    Ok(())
}

} // verus!
