//! Textual path building: joining a relative name onto a base directory,
//! the per-user config file location, and the extension test used when
//! locating a bundle's icon resource.

use vstd::prelude::*;
use vstd::string::*;
use crate::strutil::{spec_last_index_of, last_index_of};

verus! {

/// Joining `rel` onto `base`: an absolute `rel` stands alone, a separator is
/// added only where `base` does not already end in one.
pub open spec fn spec_path_join(base: Seq<char>, rel: Seq<char>) -> Seq<char> {
    if rel.len() > 0 && rel[0] == '/' {
        rel
    } else if base.len() == 0 {
        rel
    } else if base[base.len() - 1] == '/' {
        base + rel
    } else {
        base + "/"@ + rel
    }
}

/// Joins a relative name onto a base directory path.
pub fn path_join(base: &str, rel: &str) -> (r: String)
    ensures
        r@ == spec_path_join(base@, rel@),
{
    let rlen = rel.unicode_len();
    if rlen > 0 && rel.get_char(0) == '/' {
        return String::from_str(rel);
    }
    let blen = base.unicode_len();
    if blen == 0 {
        return String::from_str(rel);
    }
    let mut r = String::from_str(base);
    if base.get_char(blen - 1) != '/' {
        r.append("/");
    }
    r.append(rel);
    r
}

/// The override store lives in this file under the user's home directory.
pub open spec fn spec_config_path(home: Seq<char>) -> Seq<char> {
    spec_path_join(home, ".app-launcher-config.json"@)
}

/// Builds the path of the per-user config file from the home directory.
pub fn config_path(home: &str) -> (r: String)
    ensures
        r@ == spec_config_path(home@),
{
    path_join(home, ".app-launcher-config.json")
}

/// Where a bundle keeps its property list.
pub open spec fn spec_plist_path(bundle: Seq<char>) -> Seq<char> {
    spec_path_join(bundle, "Contents/Info.plist"@)
}

/// Builds the path of a bundle's `Contents/Info.plist`.
pub fn plist_path(bundle: &str) -> (r: String)
    ensures
        r@ == spec_plist_path(bundle@),
{
    path_join(bundle, "Contents/Info.plist")
}

/// The part of `name` after its last `/`, or all of it if it has none.
pub open spec fn spec_file_component(name: Seq<char>) -> Seq<char> {
    name.skip(spec_last_index_of(name, '/') + 1)
}

/// A file name has an extension when a `.` splits it into a non-empty stem
/// and a suffix; a name whose only `.` leads (a hidden file) has none.
pub open spec fn spec_has_extension(name: Seq<char>) -> bool {
    spec_last_index_of(spec_file_component(name), '.') > 0
}

/// Whether the file name at the end of `name` carries an extension.
pub fn has_extension(name: &str) -> (r: bool)
    ensures
        r == spec_has_extension(name@),
{
    let len = name.unicode_len();
    let start = match last_index_of(name, '/') {
        Some(k) => k + 1,
        None => 0,
    };
    let comp = name.substring_char(start, len);
    proof {
        assert(comp@ =~= spec_file_component(name@));
    }
    match last_index_of(comp, '.') {
        Some(k) => k > 0,
        None => false,
    }
}

} // verus!
