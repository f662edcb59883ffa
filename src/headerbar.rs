use vstd::prelude::*;

verus! {

/// The window title for a location: its base name, or the application's
/// name where it has none.
pub fn window_title(basename: Option<String>) -> (r: String)
    ensures
        basename matches Some(n) ==> r == n,
        basename is None ==> r@ == "Ax File Manager"@,
{
    match basename {
        Some(n) => n,
        None => String::from_str("Ax File Manager"),
    }
}

} // verus!
