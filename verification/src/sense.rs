use vstd::prelude::*;
use crate::text::{contains, str_contains, str_eq};

verus! {

/// The extensions of the files that are indexed for search.
pub open spec fn indexed_extension(ext: Seq<char>) -> bool {
    ext == "rs"@ || ext == "ts"@ || ext == "js"@ || ext == "proto"@ || ext == "md"@ || ext == "toml"@
        || ext == "json"@
}

/// A file is indexed when its extension is one of the indexed ones and its
/// path lies outside build output, dependencies and the git directory.
pub open spec fn indexed_file(ext: Seq<char>, rel_path: Seq<char>) -> bool {
    indexed_extension(ext) && !contains(rel_path, "target"@) && !contains(rel_path, "node_modules"@)
        && !contains(rel_path, ".git"@)
}

/// Whether a file with this extension, at this path under the project root,
/// is indexed for search.
pub fn should_index(ext: &str, rel_path: &str) -> (r: bool)
    ensures
        r == indexed_file(ext@, rel_path@),
{
    let known = str_eq(ext, "rs") || str_eq(ext, "ts") || str_eq(ext, "js") || str_eq(ext, "proto")
        || str_eq(ext, "md") || str_eq(ext, "toml") || str_eq(ext, "json");
    known && !str_contains(rel_path, "target") && !str_contains(rel_path, "node_modules") && !str_contains(
        rel_path,
        ".git",
    )
}

} // verus!
