//! URL builders for the external news API the frontend reads from: they
//! only assemble strings; fetching them is the caller's concern.
use vstd::prelude::*;

verus! {

use vstd::string::StringExecFns;

/// The URL serving a story-listing path.
pub fn story(path: &str) -> (r: String)
    ensures
        r@ == "https://node-hnapi.herokuapp.com/"@ + path@,
{
    String::from_str("https://node-hnapi.herokuapp.com/").concat(path)
}

/// The URL serving a user's profile.
pub fn user(path: &str) -> (r: String)
    ensures
        r@ == "https://hacker-news.firebaseio.com/v0/user/"@ + path@ + ".json"@,
{
    String::from_str("https://hacker-news.firebaseio.com/v0/user/").concat(path).concat(".json")
}

} // verus!
