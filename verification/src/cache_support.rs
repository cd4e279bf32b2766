//! Where the caches of the program lie.

use crate::paths::{join, join_path, user_dir, user_directory};
use crate::text::option_view;
use vstd::prelude::*;

verus! {

/// The directory of the cache `name`, from the cache directory and the home directory of the user:
/// `ultimateslice/name` in the user's cache directory.
pub open spec fn cache_root(
    name: Seq<char>,
    cache_home: Option<Seq<char>>,
    home: Option<Seq<char>>,
) -> Seq<char> {
    join_path(join_path(user_dir(cache_home, home, "/tmp"@, ".cache"@), "ultimateslice"@), name)
}

/// The directory of the cache `name`.
pub fn cache_root_dir(name: &str, cache_home: &Option<String>, home: &Option<String>) -> (r: String)
    ensures
        r@ == cache_root(
            name@,
            option_view(*cache_home),
            option_view(*home),
        ),
{
    let base = user_directory(cache_home, home, "/tmp", ".cache");
    let ours = join(&base, "ultimateslice");
    join(&ours, name)
}

} // verus!
