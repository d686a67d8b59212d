use vstd::prelude::*;
use vstd::string::*;

use crate::tree::errors::LoadError;

verus! {

/// The file name ends in `.tif`.
pub open spec fn spec_is_geotif_name(s: Seq<char>) -> bool {
    &&& s.len() >= 4
    &&& s[s.len() - 4] == '.'
    &&& s[s.len() - 3] == 't'
    &&& s[s.len() - 2] == 'i'
    &&& s[s.len() - 1] == 'f'
}

/// Decides whether a discovered file name names a raster to load: only files
/// with the `.tif` extension are. The filesystem walk that produces the names
/// is the loader's concern; discovery order is its traversal order.
pub fn has_geotif_extension(name: &str) -> (r: bool)
    ensures
        r == spec_is_geotif_name(name@),
{
    let n = name.unicode_len();
    if n < 4 {
        return false;
    }
    name.get_char(n - 4) == '.' && name.get_char(n - 3) == 't' && name.get_char(n - 2) == 'i'
        && name.get_char(n - 1) == 'f'
}

/// Decides whether a source's root path is usable, from what the filesystem
/// reports about it: it must exist and be a directory. Probing the filesystem
/// is the loader's concern; it hands the two findings in.
pub fn check_root(root_exists: bool, root_is_dir: bool) -> (r: Result<(), LoadError>)
    ensures
        r matches Err(e) && e == LoadError::RootMissing <==> !root_exists,
        r matches Err(e) && e == LoadError::RootNotDirectory <==> root_exists && !root_is_dir,
        r is Ok <==> root_exists && root_is_dir,
{
    if !root_exists {
        return Err(LoadError::RootMissing);
    }
    if !root_is_dir {
        return Err(LoadError::RootNotDirectory);
    }
    Ok(())
}

} // verus!
