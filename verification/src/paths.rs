//! The storage location: a fixed relative path under the home directory.

use vstd::prelude::*;
use vstd::string::*;

verus! {

/// The directory that holds the store, under the given home directory.
pub fn get_local_share_path(home: &str) -> (r: String)
    ensures
        r@ == home@ + "/.local/share/todo"@,
{
    let mut r = home.to_owned();
    r.append("/.local/share/todo");
    r
}

/// The store file itself, under the given home directory.
pub fn get_data_file_path(home: &str) -> (r: String)
    ensures
        r@ == home@ + "/.local/share/todo"@ + "/todo.md"@,
{
    let mut r = get_local_share_path(home);
    r.append("/todo.md");
    r
}

} // verus!
