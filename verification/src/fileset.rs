//! File-set resolution.
//!
//! The user names input locations; the shell observes the filesystem once
//! and records, for every location, whether it was missing, a regular file,
//! or a directory together with the files found under it in traversal
//! order. `enumerate` turns those observations into a [`FileSet`]: the
//! ordered, deduplicated list of concrete input files.
//!
//! Order is the order of the observations (traversal order, stable across
//! repeated runs against the same tree); duplicates keep their first
//! occurrence. Files listed under a directory are filtered to the
//! recognized tabular extension; an explicitly named file is taken as
//! given. A missing explicit path is an error naming that path; an
//! enumeration that matches no file at all is the [`TblError::EmptySet`]
//! error, never a silently empty set.

use vstd::prelude::*;
use crate::errors::TblError;
use crate::path::FilePath;
use crate::path::PathModel;
use crate::path::path_eq;

verus! {

/// Mathematical model of one observed input location.
#[verifier::ext_equal]
pub ghost enum ListingModel {
    /// The named path does not exist.
    Missing(PathModel),
    /// The named path is a regular file.
    File(PathModel),
    /// The named path is a directory; the files under it, in traversal
    /// order.
    Directory(Seq<PathModel>),
}

/// One user-given input location, together with what the filesystem showed
/// for it.
pub enum Listing {
    /// The named path does not exist.
    Missing(FilePath),
    /// The named path is a regular file.
    File(FilePath),
    /// The named path is a directory; the files under it (immediate
    /// children, or the whole tree when enumeration is recursive), in
    /// traversal order.
    Directory(Vec<FilePath>),
}

impl View for Listing {
    type V = ListingModel;

    open spec fn view(&self) -> ListingModel {
        match self {
            Listing::Missing(p) => ListingModel::Missing(p@),
            Listing::File(p) => ListingModel::File(p@),
            Listing::Directory(v) => ListingModel::Directory(v.deep_view()),
        }
    }
}

impl DeepView for Listing {
    type V = ListingModel;

    open spec fn deep_view(&self) -> ListingModel {
        self.view()
    }
}

/// The extension that marks a file as tabular.
pub open spec fn tabular_ext() -> Seq<char> {
    "parquet"@
}

/// Whether the path carries the recognized tabular extension.
pub open spec fn is_tabular(p: PathModel) -> bool {
    p.ext == tabular_ext()
}

/// Whether this path carries the recognized tabular extension.
pub fn has_tabular_ext(p: &FilePath) -> (r: bool)
    ensures
        r == is_tabular(p@),
{
    let t: String = "parquet".to_owned();
    p.ext == t
}

/// The subsequence of `v` with the recognized tabular extension, in order.
pub open spec fn tabular_of(v: Seq<PathModel>) -> Seq<PathModel>
    decreases v.len(),
{
    if v.len() == 0 {
        Seq::empty()
    } else if is_tabular(v.last()) {
        tabular_of(v.drop_last()).push(v.last())
    } else {
        tabular_of(v.drop_last())
    }
}

/// The candidate files contributed by one observed location: an explicit
/// file as given, a directory's files filtered to the tabular extension,
/// a missing path nothing.
pub open spec fn candidates_of_one(l: ListingModel) -> Seq<PathModel> {
    match l {
        ListingModel::Missing(_) => Seq::empty(),
        ListingModel::File(p) => seq![p],
        ListingModel::Directory(v) => tabular_of(v),
    }
}

/// All candidate files of the observed locations, in observation order.
pub open spec fn candidates_of(ls: Seq<ListingModel>) -> Seq<PathModel>
    decreases ls.len(),
{
    if ls.len() == 0 {
        Seq::empty()
    } else {
        candidates_of(ls.drop_last()) + candidates_of_one(ls.last())
    }
}

/// `s` with duplicates removed; each path keeps its first occurrence.
pub open spec fn dedup_of(s: Seq<PathModel>) -> Seq<PathModel>
    decreases s.len(),
{
    if s.len() == 0 {
        Seq::empty()
    } else {
        let rest = dedup_of(s.drop_last());
        if rest.contains(s.last()) {
            rest
        } else {
            rest.push(s.last())
        }
    }
}

/// Appending one path to the input of `dedup_of` either leaves the result
/// unchanged or appends that path, according to whether it was seen.
pub proof fn lemma_dedup_push(s: Seq<PathModel>, x: PathModel)
    ensures
        dedup_of(s.push(x)) == if dedup_of(s).contains(x) {
            dedup_of(s)
        } else {
            dedup_of(s).push(x)
        },
{
    assert(s.push(x).drop_last() =~= s);
    assert(s.push(x).last() == x);
}

/// The deduplicated sequence holds no duplicates.
pub proof fn lemma_dedup_no_dups(s: Seq<PathModel>)
    ensures
        forall|i: int, j: int|
            0 <= i < j < dedup_of(s).len() ==> dedup_of(s)[i] != dedup_of(s)[j],
    decreases s.len(),
{
    if s.len() > 0 {
        lemma_dedup_no_dups(s.drop_last());
        let rest = dedup_of(s.drop_last());
        if !rest.contains(s.last()) {
            assert forall|i: int, j: int|
                0 <= i < j < dedup_of(s).len() implies dedup_of(s)[i] != dedup_of(s)[j] by {
                if j < rest.len() {
                } else {
                    assert(dedup_of(s)[j] == s.last());
                    assert(dedup_of(s)[i] == rest[i]);
                    assert(!rest.contains(s.last()));
                    assert(rest[i] != s.last());
                }
            }
        }
    }
}

/// Whether no observed location was missing, over the whole sequence.
pub open spec fn none_missing(ls: Seq<ListingModel>) -> bool {
    forall|k: int| 0 <= k < ls.len() ==> !(ls[k] is Missing)
}

/// The resolved set of input files: ordered, deduplicated, and never
/// empty — an enumeration that matches nothing is the
/// [`TblError::EmptySet`] error instead.
pub struct FileSet {
    pub paths: Vec<FilePath>,
}

impl View for FileSet {
    type V = Seq<PathModel>;

    open spec fn view(&self) -> Seq<PathModel> {
        self.paths.deep_view()
    }
}

impl DeepView for FileSet {
    type V = Seq<PathModel>;

    open spec fn deep_view(&self) -> Seq<PathModel> {
        self.view()
    }
}

impl FileSet {
    /// Well-formedness: at least one file, and no path occurs twice.
    pub open spec fn wf(&self) -> bool {
        &&& self@.len() > 0
        &&& forall|i: int, j: int| 0 <= i < j < self@.len() ==> self@[i] != self@[j]
    }

    /// The number of files in the set.
    pub fn len(&self) -> (n: usize)
        ensures
            n == self@.len(),
    {
        self.paths.len()
    }

    /// The file at the given position.
    pub fn get(&self, i: usize) -> (p: &FilePath)
        requires
            i < self@.len(),
        ensures
            p@ == self@[i as int],
    {
        &self.paths[i]
    }
}

/// Whether the collected paths already hold this path.
fn contains_path(v: &Vec<FilePath>, p: &FilePath) -> (r: bool)
    ensures
        r == v.deep_view().contains(p@),
{
    let mut j: usize = 0;
    while j < v.len()
        invariant
            j <= v.len(),
            forall|k: int| 0 <= k < j ==> v.deep_view()[k] != p@,
        decreases v.len() - j,
    {
        if path_eq(&v[j], p) {
            proof {
                assert(v.deep_view()[j as int] == p@);
            }
            return true;
        }
        j = j + 1;
    }
    proof {
        assert(!v.deep_view().contains(p@));
    }
    false
}

/// Resolves the observed input locations into the concrete set of input
/// files.
///
/// The result is the deduplicated candidate list in observation order. A
/// missing location is [`TblError::NotFound`] naming the first missing
/// path; an observation set that contributes no file at all is
/// [`TblError::EmptySet`].
pub fn enumerate(listings: &Vec<Listing>) -> (r: Result<FileSet, TblError>)
    ensures
        match r {
            Ok(fs) => {
                &&& none_missing(listings.deep_view())
                &&& fs@ == dedup_of(candidates_of(listings.deep_view()))
                &&& fs.wf()
            },
            Err(e) => match e {
                TblError::NotFound(p) => exists|k: int|
                    {
                        &&& 0 <= k < listings.deep_view().len()
                        &&& listings.deep_view()[k] == ListingModel::Missing(p@)
                        &&& forall|k2: int| 0 <= k2 < k ==> !(listings.deep_view()[k2] is Missing)
                    },
                TblError::EmptySet => {
                    &&& none_missing(listings.deep_view())
                    &&& dedup_of(candidates_of(listings.deep_view())).len() == 0
                },
                _ => false,
            },
        },
{
    let ghost lsm = listings.deep_view();
    let mut out: Vec<FilePath> = Vec::new();
    let mut i: usize = 0;
    while i < listings.len()
        invariant
            i <= listings.len(),
            lsm == listings.deep_view(),
            lsm.len() == listings.len(),
            forall|k: int| 0 <= k < i ==> !(lsm[k] is Missing),
            out.deep_view() == dedup_of(candidates_of(lsm.take(i as int))),
        decreases listings.len() - i,
    {
        proof {
            assert(lsm.take(i + 1).drop_last() =~= lsm.take(i as int));
            assert(lsm.take(i + 1).last() == lsm[i as int]);
        }
        match &listings[i] {
            Listing::Missing(p) => {
                let e = TblError::NotFound(p.clone());
                proof {
                    assert(lsm[i as int] == ListingModel::Missing(p@));
                }
                return Err(e);
            },
            Listing::File(p) => {
                proof {
                    assert(candidates_of(lsm.take(i + 1)) =~= candidates_of(
                        lsm.take(i as int),
                    ).push(p@));
                    lemma_dedup_push(candidates_of(lsm.take(i as int)), p@);
                }
                if !contains_path(&out, p) {
                    out.push(p.clone());
                }
            },
            Listing::Directory(v) => {
                let ghost vm = v.deep_view();
                let ghost base = candidates_of(lsm.take(i as int));
                let mut j: usize = 0;
                while j < v.len()
                    invariant
                        j <= v.len(),
                        vm == v.deep_view(),
                        vm.len() == v.len(),
                        out.deep_view() == dedup_of(base + tabular_of(vm.take(j as int))),
                    decreases v.len() - j,
                {
                    proof {
                        assert(vm.take(j + 1).drop_last() =~= vm.take(j as int));
                        assert(vm.take(j + 1).last() == vm[j as int]);
                    }
                    if has_tabular_ext(&v[j]) {
                        proof {
                            assert((base + tabular_of(vm.take(j + 1))) =~= (base + tabular_of(
                                vm.take(j as int),
                            )).push(vm[j as int]));
                            lemma_dedup_push(base + tabular_of(vm.take(j as int)), vm[j as int]);
                        }
                        if !contains_path(&out, &v[j]) {
                            out.push(v[j].clone());
                        }
                    } else {
                        proof {
                            assert(base + tabular_of(vm.take(j + 1)) =~= base + tabular_of(
                                vm.take(j as int),
                            ));
                        }
                    }
                    j = j + 1;
                }
                proof {
                    assert(vm.take(v.len() as int) =~= vm);
                    assert(candidates_of(lsm.take(i + 1)) =~= base + tabular_of(vm));
                }
            },
        }
        i = i + 1;
    }
    proof {
        assert(lsm.take(listings.len() as int) =~= lsm);
    }
    if out.len() == 0 {
        return Err(TblError::EmptySet);
    }
    let fs = FileSet { paths: out };
    proof {
        lemma_dedup_no_dups(candidates_of(lsm));
    }
    Ok(fs)
}

} // verus!
