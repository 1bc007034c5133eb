use vstd::prelude::*;
use vstd::string::StringExecFns;

verus! {

/// The canonical lookup path for a font asset: the fixed `fonts` root, the
/// caller's folder segment, and the file name, joined by `/`. An empty
/// folder contributes no segment, so `("", "a/b.ttf")` and `("a", "b.ttf")`
/// resolve to the same path and therefore to the same cache key.
pub open spec fn font_path_spec(folder: Seq<char>, name: Seq<char>) -> Seq<char> {
    if folder.len() == 0 {
        "fonts/"@ + name
    } else {
        "fonts/"@ + folder + "/"@ + name
    }
}

/// Builds the canonical path that keys a `(folder, name)` request under the
/// fixed `fonts` asset root. Every load is resolved against this path, so
/// equal paths mean one shared cache entry.
pub fn font_path(font_folder: &str, font_name: &str) -> (path: String)
    ensures
        path@ == font_path_spec(font_folder@, font_name@),
{
    let mut path: String = "fonts/".to_owned();
    if !font_folder.is_empty() {
        path.append(font_folder);
        path.append("/");
    }
    path.append(font_name);
    proof {
        assert(path@ =~= font_path_spec(font_folder@, font_name@));
    }
    path
}

} // verus!
