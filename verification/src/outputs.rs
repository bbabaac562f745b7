//! Output path derivation.
//!
//! Given the enumerated inputs and a policy, `derive` computes the one
//! output path of every input. In-place keeps the path; directory-redirect
//! replaces the common ancestor directory of all inputs with a new root,
//! preserving the relative structure below it; a filename affix puts a
//! prefix and a postfix around the stem, the extension unchanged. Affixes
//! combine with either directory choice; in-place and redirect exclude one
//! another by construction. Two inputs mapping to the same output are
//! rejected as a collision naming the pair: one file silently overwriting
//! another's result is never permitted.

use vstd::prelude::*;
use vstd::string::StringExecFns;
use crate::errors::TblError;
use crate::fileset::FileSet;
use crate::path::FilePath;
use crate::path::PathModel;
use crate::path::clone_strings;
use crate::path::path_eq;

verus! {

/// Mathematical model of the directory part of an output policy.
#[verifier::ext_equal]
pub ghost enum DirPolicyModel {
    InPlace,
    Redirect(Seq<Seq<char>>),
}

/// Mathematical model of an output policy.
#[verifier::ext_equal]
pub ghost struct PolicyModel {
    pub dir: DirPolicyModel,
    pub prefix: Seq<char>,
    pub postfix: Seq<char>,
}

/// Where output files go: the input's own directory, or a new root that
/// replaces the common ancestor of all inputs.
pub enum DirPolicy {
    InPlace,
    Redirect(Vec<String>),
}

impl View for DirPolicy {
    type V = DirPolicyModel;

    open spec fn view(&self) -> DirPolicyModel {
        match self {
            DirPolicy::InPlace => DirPolicyModel::InPlace,
            DirPolicy::Redirect(root) => DirPolicyModel::Redirect(root.deep_view()),
        }
    }
}

/// An output policy: the directory choice and the filename affixes. An
/// empty prefix and postfix leave the stem unchanged.
pub struct OutputPolicy {
    pub dir: DirPolicy,
    pub prefix: String,
    pub postfix: String,
}

impl View for OutputPolicy {
    type V = PolicyModel;

    open spec fn view(&self) -> PolicyModel {
        PolicyModel { dir: self.dir@, prefix: self.prefix@, postfix: self.postfix@ }
    }
}

impl OutputPolicy {
    /// The identity policy: outputs overwrite their inputs.
    pub fn in_place() -> (r: OutputPolicy)
        ensures
            r@ == (PolicyModel {
                dir: DirPolicyModel::InPlace,
                prefix: Seq::<char>::empty(),
                postfix: Seq::<char>::empty(),
            }),
    {
        let r = OutputPolicy { dir: DirPolicy::InPlace, prefix: String::new(), postfix: String::new() };
        proof {
            assert(r@ =~= PolicyModel {
                dir: DirPolicyModel::InPlace,
                prefix: Seq::<char>::empty(),
                postfix: Seq::<char>::empty(),
            });
        }
        r
    }
}

/// The length of the longest common prefix of two component sequences.
pub open spec fn lcp2(a: Seq<Seq<char>>, b: Seq<Seq<char>>) -> int
    decreases a.len(),
{
    if a.len() == 0 || b.len() == 0 || a[0] != b[0] {
        0
    } else {
        1 + lcp2(a.skip(1), b.skip(1))
    }
}

/// `lcp2` is the length of the longest common prefix: both sequences agree
/// below it, and differ at it where both go on.
pub proof fn lemma_lcp2_char(a: Seq<Seq<char>>, b: Seq<Seq<char>>)
    ensures
        0 <= lcp2(a, b) <= a.len(),
        lcp2(a, b) <= b.len(),
        forall|m: int| 0 <= m < lcp2(a, b) ==> a[m] == b[m],
        lcp2(a, b) < a.len() && lcp2(a, b) < b.len() ==> a[lcp2(a, b)] != b[lcp2(a, b)],
    decreases a.len(),
{
    if a.len() == 0 || b.len() == 0 || a[0] != b[0] {
    } else {
        lemma_lcp2_char(a.skip(1), b.skip(1));
        let l = lcp2(a, b);
        assert forall|m: int| 0 <= m < l implies a[m] == b[m] by {
            if m >= 1 {
                assert(a.skip(1)[m - 1] == a[m]);
                assert(b.skip(1)[m - 1] == b[m]);
            }
        }
        if l < a.len() && l < b.len() {
            assert(a.skip(1)[l - 1] == a[l]);
            assert(b.skip(1)[l - 1] == b[l]);
        }
    }
}

/// The length of the common ancestor directory of all paths in `s`: the
/// longest prefix of directory components shared by every path.
pub open spec fn common_len(s: Seq<PathModel>) -> int
    decreases s.len(),
{
    if s.len() <= 1 {
        if s.len() == 1 {
            s[0].dirs.len() as int
        } else {
            0
        }
    } else {
        let rest = common_len(s.drop_last());
        let l = lcp2(s[0].dirs, s.last().dirs);
        if rest <= l {
            rest
        } else {
            l
        }
    }
}

/// The common ancestor length is within every path, and every path agrees
/// with the first on that prefix.
pub proof fn lemma_common_len_bounds(s: Seq<PathModel>)
    requires
        s.len() >= 1,
    ensures
        0 <= common_len(s),
        forall|i: int| 0 <= i < s.len() ==> common_len(s) <= s[i].dirs.len(),
        forall|i: int|
            0 <= i < s.len() ==> #[trigger] s[i].dirs.take(common_len(s)) == s[0].dirs.take(
                common_len(s),
            ),
    decreases s.len(),
{
    let c = common_len(s);
    if s.len() == 1 {
        assert(s[0].dirs.take(c) == s[0].dirs.take(c));
    } else {
        lemma_common_len_bounds(s.drop_last());
        lemma_lcp2_char(s[0].dirs, s.last().dirs);
        let rest = common_len(s.drop_last());
        assert(s.drop_last()[0] == s[0]);
        assert forall|i: int| 0 <= i < s.len() implies common_len(s) <= s[i].dirs.len() by {
            if i < s.len() - 1 {
                assert(s.drop_last()[i] == s[i]);
            }
        }
        assert forall|i: int|
            0 <= i < s.len() implies #[trigger] s[i].dirs.take(c) == s[0].dirs.take(c) by {
            if i < s.len() - 1 {
                assert(s.drop_last()[i] == s[i]);
                assert(s[i].dirs.take(rest) == s[0].dirs.take(rest));
                assert(s[i].dirs.take(c) =~= s[0].dirs.take(c)) by {
                    assert forall|m: int| 0 <= m < c implies s[i].dirs[m] == s[0].dirs[m] by {
                        assert(s[i].dirs.take(rest)[m] == s[i].dirs[m]);
                        assert(s[0].dirs.take(rest)[m] == s[0].dirs[m]);
                    }
                }
            } else {
                assert(s[i] == s.last());
                assert(s.last().dirs.take(c) =~= s[0].dirs.take(c)) by {
                    assert forall|m: int| 0 <= m < c implies s.last().dirs[m] == s[0].dirs[m] by {}
                }
            }
        }
    }
}

/// The directory components of the derived output path, given the common
/// ancestor length `k` of the whole input set.
pub open spec fn derived_dirs(p: PathModel, dir: DirPolicyModel, k: int) -> Seq<Seq<char>> {
    match dir {
        DirPolicyModel::InPlace => p.dirs,
        DirPolicyModel::Redirect(root) => root + p.dirs.skip(k),
    }
}

/// The derived output path of one input under a policy: the directory per
/// the directory choice, the stem with prefix and postfix around it, the
/// extension unchanged.
pub open spec fn derived_path(p: PathModel, pol: PolicyModel, k: int) -> PathModel {
    PathModel {
        dirs: derived_dirs(p, pol.dir, k),
        stem: pol.prefix + p.stem + pol.postfix,
        ext: p.ext,
    }
}

/// The ordered pairing of each input file with its derived output path,
/// index-aligned with the file set it came from.
pub struct PathMapping {
    pub inputs: Vec<FilePath>,
    pub outputs: Vec<FilePath>,
}

impl PathMapping {
    /// Well-formedness: one output per input, and no two outputs equal.
    pub open spec fn wf(&self) -> bool {
        &&& self.inputs.deep_view().len() == self.outputs.deep_view().len()
        &&& forall|i: int, j: int|
            0 <= i < j < self.outputs.deep_view().len()
                ==> self.outputs.deep_view()[i] != self.outputs.deep_view()[j]
    }

    /// The number of pairs.
    pub fn len(&self) -> (n: usize)
        ensures
            n == self.inputs.deep_view().len(),
    {
        self.inputs.len()
    }

    /// The input path at the given position.
    pub fn input_at(&self, i: usize) -> (p: &FilePath)
        requires
            i < self.inputs.deep_view().len(),
        ensures
            p@ == self.inputs.deep_view()[i as int],
    {
        &self.inputs[i]
    }

    /// The output path at the given position.
    pub fn output_at(&self, i: usize) -> (p: &FilePath)
        requires
            i < self.outputs.deep_view().len(),
        ensures
            p@ == self.outputs.deep_view()[i as int],
    {
        &self.outputs[i]
    }
}

/// The length of the longest common prefix of two directory component
/// vectors.
fn dirs_lcp(a: &Vec<String>, b: &Vec<String>) -> (k: usize)
    ensures
        k == lcp2(a.deep_view(), b.deep_view()),
{
    proof {
        lemma_lcp2_char(a.deep_view(), b.deep_view());
    }
    let ghost l = lcp2(a.deep_view(), b.deep_view());
    let mut k: usize = 0;
    loop
        invariant
            0 <= k <= a.len(),
            k <= b.len(),
            forall|m: int| 0 <= m < k ==> a.deep_view()[m] == b.deep_view()[m],
            l == lcp2(a.deep_view(), b.deep_view()),
            0 <= l <= a.deep_view().len(),
            l <= b.deep_view().len(),
            forall|m: int| 0 <= m < l ==> a.deep_view()[m] == b.deep_view()[m],
            l < a.deep_view().len() && l < b.deep_view().len() ==> a.deep_view()[l]
                != b.deep_view()[l],
            k <= l,
        ensures
            k == l,
        decreases a.len() - k,
    {
        if k < a.len() && k < b.len() {
            if a[k as usize] == b[k as usize] {
                proof {
                    assert(a.deep_view()[k as int] == b.deep_view()[k as int]);
                    assert(k + 1 <= l);
                }
                k = k + 1;
            } else {
                proof {
                    assert(a.deep_view()[k as int] != b.deep_view()[k as int]);
                    assert(k == l);
                }
                break;
            }
        } else {
            proof {
                assert(k == l);
            }
            break;
        }
    }
    k
}

/// The length of the common ancestor directory of all files in the set.
pub fn common_dir_len(files: &FileSet) -> (k: usize)
    requires
        files.wf(),
    ensures
        k == common_len(files@),
{
    let first = files.get(0);
    let mut k: usize = first.dirs.len();
    let mut i: usize = 1;
    while i < files.len()
        invariant
            1 <= i <= files@.len(),
            files.wf(),
            k == common_len(files@.take(i as int)),
        decreases files@.len() - i,
    {
        proof {
            assert(files@.take(i + 1).drop_last() =~= files@.take(i as int));
            assert(files@.take(i + 1).last() == files@[i as int]);
            assert(files@.take(i + 1)[0] == files@[0]);
        }
        let l = dirs_lcp(&files.get(0).dirs, &files.get(i).dirs);
        if l < k {
            k = l;
        }
        proof {
            lemma_lcp2_char(files@[0].dirs, files@[i as int].dirs);
        }
        i = i + 1;
    }
    proof {
        assert(files@.take(files@.len() as int) =~= files@);
    }
    k
}

/// Scans the derived outputs for two equal paths.
///
/// Returns the first offending pair of positions, earlier position
/// second-scanned first; returns nothing exactly when the paths are
/// pairwise distinct.
pub fn detect_collision(paths: &Vec<FilePath>) -> (r: Option<(usize, usize)>)
    ensures
        match r {
            Some(pair) => {
                &&& 0 <= pair.0 < pair.1 < paths@.len()
                &&& paths@[pair.0 as int]@ == paths@[pair.1 as int]@
            },
            None => forall|t1: int, t2: int|
                0 <= t1 < t2 < paths@.len() ==> paths@[t1]@ != paths@[t2]@,
        },
{
    let n = paths.len();
    let mut j: usize = 1;
    while j < n
        invariant
            1 <= j <= n || n == 0,
            n == paths@.len(),
            forall|t1: int, t2: int| 0 <= t1 < t2 < j ==> paths@[t1]@ != paths@[t2]@,
        decreases n - j,
    {
        let mut i2: usize = 0;
        while i2 < j
            invariant
                0 <= i2 <= j < n,
                n == paths@.len(),
                forall|t: int| 0 <= t < i2 ==> paths@[t]@ != paths@[j as int]@,
            decreases j - i2,
        {
            if path_eq(&paths[i2], &paths[j]) {
                return Some((i2, j));
            }
            i2 = i2 + 1;
        }
        j = j + 1;
    }
    None
}

/// Derives the output path of every input under the policy.
///
/// On success the mapping is index-aligned with the inputs and its output
/// paths are pairwise distinct. If two inputs map to the same output, the
/// result is [`TblError::PathCollision`] naming the first such pair, and
/// no mapping is produced.
pub fn derive_outputs(inputs: &FileSet, policy: &OutputPolicy) -> (r: Result<PathMapping, TblError>)
    requires
        inputs.wf(),
    ensures
        match r {
            Ok(m) => {
                &&& m.wf()
                &&& m.inputs.deep_view() == inputs@
                &&& m.outputs.deep_view().len() == inputs@.len()
                &&& forall|i: int|
                    0 <= i < inputs@.len() ==> m.outputs.deep_view()[i] == derived_path(
                        inputs@[i],
                        policy@,
                        common_len(inputs@),
                    )
            },
            Err(e) => match e {
                TblError::PathCollision(a, b) => exists|i: int, j: int|
                    {
                        &&& 0 <= i < j < inputs@.len()
                        &&& derived_path(inputs@[i], policy@, common_len(inputs@)) == derived_path(
                            inputs@[j],
                            policy@,
                            common_len(inputs@),
                        )
                        &&& a@ == inputs@[i]
                        &&& b@ == inputs@[j]
                    },
                _ => false,
            },
        },
{
    let ghost k = common_len(inputs@);
    let kexec: usize = match &policy.dir {
        DirPolicy::InPlace => 0,
        DirPolicy::Redirect(_) => common_dir_len(inputs),
    };
    proof {
        lemma_common_len_bounds(inputs@);
    }
    let n = inputs.len();
    let mut outs: Vec<FilePath> = Vec::new();
    let mut i: usize = 0;
    while i < n
        invariant
            i <= n,
            n == inputs@.len(),
            inputs.wf(),
            k == common_len(inputs@),
            policy.dir is Redirect ==> kexec == k,
            forall|t: int| 0 <= t < inputs@.len() ==> k <= inputs@[t].dirs.len(),
            outs.len() == i,
            forall|t: int| 0 <= t < i ==> outs@[t]@ == derived_path(inputs@[t], policy@, k),
        decreases n - i,
    {
        let p = inputs.get(i);
        let dirs: Vec<String> = match &policy.dir {
            DirPolicy::InPlace => clone_strings(&p.dirs),
            DirPolicy::Redirect(root) => {
                let mut d = clone_strings(root);
                proof {
                    assert(d.deep_view().len() == root.deep_view().len());
                    assert forall|m: int| 0 <= m < root.len() implies d@[m]@ == root@[m]@ by {
                        assert(d.deep_view()[m] == root.deep_view()[m]);
                    }
                }
                let mut j: usize = kexec;
                while j < p.dirs.len()
                    invariant
                        kexec <= j <= p.dirs.len(),
                        kexec == k,
                        d.len() == root.len() + (j - k),
                        forall|m: int| 0 <= m < root.len() ==> d@[m]@ == root@[m]@,
                        forall|m: int|
                            root.len() <= m < d.len() ==> d@[m]@ == p.dirs@[k + m
                                - root@.len()]@,
                    decreases p.dirs.len() - j,
                {
                    d.push(p.dirs[j].clone());
                    j = j + 1;
                }
                proof {
                    assert(d.deep_view() =~= root.deep_view() + p.dirs.deep_view().skip(k));
                }
                d
            },
        };
        let mut stem = policy.prefix.clone();
        stem.append(p.stem.as_str());
        stem.append(policy.postfix.as_str());
        let out = FilePath { dirs, stem, ext: p.ext.clone() };
        proof {
            assert(out@ =~= derived_path(inputs@[i as int], policy@, k));
        }
        outs.push(out);
        i = i + 1;
    }
    // reject any two inputs whose outputs coincide, naming the first pair
    match detect_collision(&outs) {
        Some((c1, c2)) => {
            let a = inputs.get(c1).clone();
            let b = inputs.get(c2).clone();
            proof {
                assert(derived_path(inputs@[c1 as int], policy@, k) == derived_path(
                    inputs@[c2 as int],
                    policy@,
                    k,
                ));
            }
            return Err(TblError::PathCollision(a, b));
        },
        None => {},
    }
    let mut ins: Vec<FilePath> = Vec::new();
    let mut t: usize = 0;
    while t < n
        invariant
            t <= n,
            n == inputs@.len(),
            inputs.wf(),
            ins.len() == t,
            forall|m: int| 0 <= m < t ==> ins@[m]@ == inputs@[m],
        decreases n - t,
    {
        ins.push(inputs.get(t).clone());
        t = t + 1;
    }
    let m = PathMapping { inputs: ins, outputs: outs };
    proof {
        assert(m.inputs.deep_view() =~= inputs@);
        assert forall|t: int|
            0 <= t < inputs@.len() implies #[trigger] m.outputs.deep_view()[t] == derived_path(
            inputs@[t],
            policy@,
            k,
        ) by {
            assert(m.outputs.deep_view()[t] == m.outputs@[t]@);
        }
        assert forall|t1: int, t2: int|
            0 <= t1 < t2 < m.outputs.deep_view().len() implies m.outputs.deep_view()[t1]
            != m.outputs.deep_view()[t2] by {
            assert(m.outputs.deep_view()[t1] == m.outputs@[t1]@);
            assert(m.outputs.deep_view()[t2] == m.outputs@[t2]@);
        }
    }
    Ok(m)
}

} // verus!
