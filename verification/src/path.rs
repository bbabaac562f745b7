//! Structured file paths.
//!
//! A path is held in resolved form: the directory components from the root,
//! the filename stem, and the extension. Keeping the components apart lets
//! every path computation (redirecting directories, affixing stems) be a
//! plain operation on sequences, with no separator parsing anywhere in the
//! library. The shell converts between this form and operating-system paths.

use vstd::prelude::*;

verus! {

/// Mathematical model of a file path: directory components from the root,
/// filename stem, and extension, each as a sequence of characters.
#[verifier::ext_equal]
pub ghost struct PathModel {
    pub dirs: Seq<Seq<char>>,
    pub stem: Seq<char>,
    pub ext: Seq<char>,
}

/// A resolved file path: directory components, filename stem, extension.
///
/// The extension is held without its leading dot; an empty string stands
/// for a file without an extension.
#[derive(Debug)]
pub struct FilePath {
    pub dirs: Vec<String>,
    pub stem: String,
    pub ext: String,
}

impl View for FilePath {
    type V = PathModel;

    open spec fn view(&self) -> PathModel {
        PathModel { dirs: self.dirs.deep_view(), stem: self.stem@, ext: self.ext@ }
    }
}

impl DeepView for FilePath {
    type V = PathModel;

    open spec fn deep_view(&self) -> PathModel {
        self.view()
    }
}

/// Copies a vector of strings, keeping its deep view.
pub fn clone_strings(v: &Vec<String>) -> (res: Vec<String>)
    ensures
        res.deep_view() == v.deep_view(),
{
    let mut out: Vec<String> = Vec::new();
    let mut i: usize = 0;
    while i < v.len()
        invariant
            i <= v.len(),
            out.len() == i,
            forall|k: int| 0 <= k < i ==> out@[k]@ == v@[k]@,
        decreases v.len() - i,
    {
        out.push(v[i].clone());
        i = i + 1;
    }
    proof {
        assert(out.deep_view() =~= v.deep_view());
    }
    out
}

impl Clone for FilePath {
    fn clone(&self) -> (res: Self)
        ensures
            res@ == self@,
    {
        let res = FilePath {
            dirs: clone_strings(&self.dirs),
            stem: self.stem.clone(),
            ext: self.ext.clone(),
        };
        proof {
            assert(res@ =~= self@);
        }
        res
    }
}

/// Whether two paths are the same path, that is, have equal models.
pub fn path_eq(a: &FilePath, b: &FilePath) -> (r: bool)
    ensures
        r == (a@ == b@),
{
    if !(a.stem == b.stem) {
        return false;
    }
    if !(a.ext == b.ext) {
        return false;
    }
    if a.dirs.len() != b.dirs.len() {
        proof {
            assert(a@.dirs.len() != b@.dirs.len());
        }
        return false;
    }
    let mut i: usize = 0;
    while i < a.dirs.len()
        invariant
            i <= a.dirs.len(),
            a.dirs.len() == b.dirs.len(),
            forall|k: int| 0 <= k < i ==> a.dirs@[k]@ == b.dirs@[k]@,
        decreases a.dirs.len() - i,
    {
        if !(a.dirs[i] == b.dirs[i]) {
            proof {
                assert(a@.dirs[i as int] != b@.dirs[i as int]);
            }
            return false;
        }
        i = i + 1;
    }
    proof {
        assert(a@.dirs =~= b@.dirs);
        assert(a@ =~= b@);
    }
    true
}

} // verus!
