//! Paths, as far as the library looks at them.
//!
//! A path itself is a value of a type `P` that the program chooses; the
//! library hands it on and never looks inside. What it decides by stands
//! beside the path as plain values.

use vstd::prelude::*;

use crate::text::texts;

verus! {

/// A path together with what it and the file system say about it.
#[derive(Debug, Clone)]
pub struct PathInfo<P> {
    pub path: P,
    /// The path as it is shown to the user.
    pub text: String,
    pub exists: bool,
    pub is_file: bool,
    pub is_dir: bool,
    /// The last component, where there is one and it is valid Unicode.
    pub file_name: Option<String>,
    /// The last component without its extension, where there is one.
    pub stem: Option<String>,
    /// The path without its last component, where it has one to lose.
    pub parent: Option<ParentInfo<P>>,
}

/// The parent of a path.
#[derive(Debug, Clone)]
pub struct ParentInfo<P> {
    pub path: P,
    /// The path as it is shown to the user; empty for the parent of a bare name.
    pub text: String,
    pub exists: bool,
    pub is_dir: bool,
}

/// A path to be put together: `parts` joined one after another onto `dir`.
/// Without a `dir` the first part stands by itself.
#[derive(Debug)]
pub struct OutputPath<'a, P> {
    pub dir: Option<&'a P>,
    pub parts: Vec<String>,
}

/// What an [`OutputPath`] is made of.
#[verifier::ext_equal]
pub struct OutputView<P> {
    pub dir: Option<P>,
    pub parts: Seq<Seq<char>>,
}

impl<'a, P> View for OutputPath<'a, P> {
    type V = OutputView<P>;

    open spec fn view(&self) -> OutputView<P> {
        OutputView {
            dir: match self.dir {
                Some(d) => Some(*d),
                None => None,
            },
            parts: texts(self.parts@),
        }
    }
}

/// The path that is one name under a directory.
pub fn one_under<'a, P>(dir: Option<&'a P>, name: String) -> (r: OutputPath<'a, P>)
    ensures
        r.dir == dir,
        r@.parts == seq![name@],
{
    let mut parts: Vec<String> = Vec::new();
    parts.push(name);
    assert(texts(parts@) =~= seq![name@]);
    OutputPath { dir, parts }
}

/// A directory itself.
pub fn just<'a, P>(dir: &'a P) -> (r: OutputPath<'a, P>)
    ensures
        r@ == (OutputView { dir: Some(*dir), parts: Seq::<Seq<char>>::empty() }),
{
    let parts: Vec<String> = Vec::new();
    let r = OutputPath { dir: Some(dir), parts };
    assert(r@.parts =~= Seq::<Seq<char>>::empty());
    r
}

} // verus!
