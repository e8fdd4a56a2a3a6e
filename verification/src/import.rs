//! What a line of a source file imports: the names it brings in and the file
//! it takes them from.
use vstd::prelude::*;
use crate::text::string_views;

verus! {

/// The names that an `import` or `export` line brings in, and the path of
/// the file that it takes them from.
#[derive(Clone, Debug)]
pub struct Import {
    /// The imported names, in the order of the line.
    pub names: Vec<String>,
    /// The path of the file that exports them.
    pub path: String,
}

/// An import as plain text.
pub struct ImportView {
    /// The imported names.
    pub names: Seq<Seq<char>>,
    /// The path of the exporting file.
    pub path: Seq<char>,
}

impl View for Import {
    type V = ImportView;

    open spec fn view(&self) -> ImportView {
        ImportView { names: string_views(self.names@), path: self.path@ }
    }
}

impl Import {
    /// An import of no name from the empty path.
    pub fn new() -> (i: Import)
        ensures
            i@.names.len() == 0,
            i@.path.len() == 0,
    {
        let names: Vec<String> = Vec::new();
        let i = Import { names, path: String::new() };
        assert(i@.names =~= Seq::<Seq<char>>::empty());
        i
    }

    /// The path of the exporting file.
    pub fn path_buf(&self) -> (p: String)
        ensures
            p@ == self@.path,
    {
        self.path.clone()
    }
}

} // verus!
