use vstd::prelude::*;
use vstd::string::*;

verus! {

/// Compares two strings character by character.
pub fn same_text(a: &str, b: &str) -> (r: bool)
    ensures
        r == (a@ == b@),
{
    let n = a.unicode_len();
    if n != b.unicode_len() {
        return false;
    }
    let mut i: usize = 0;
    while i < n
        invariant
            n == a@.len(),
            n == b@.len(),
            i <= n,
            forall|j: int| 0 <= j < i ==> a@[j] == b@[j],
        decreases n - i,
    {
        if a.get_char(i) != b.get_char(i) {
            return false;
        }
        i = i + 1;
    }
    assert(a@ =~= b@);
    true
}

/// The public path under which an uploaded file is served.
pub open spec fn upload_path(stored: Seq<char>) -> Seq<char> {
    "/static/uploads/"@ + stored
}

/// Turns a stored relative file path into the URL that serves it.
pub fn upload_url(stored: &str) -> (r: String)
    ensures
        r@ == upload_path(stored@),
{
    let mut r = String::from_str("/static/uploads/");
    r.append(stored);
    r
}

/// Turns an optional stored path into an optional URL.
pub fn optional_upload_url(stored: &Option<String>) -> (r: Option<String>)
    ensures
        r.is_none() == stored.is_none(),
        stored.is_some() ==> r.unwrap()@ == upload_path(stored.unwrap()@),
{
    match stored {
        Some(p) => Some(upload_url(p.as_str())),
        None => None,
    }
}

/// Copies an optional string.
pub fn copy_optional(s: &Option<String>) -> (r: Option<String>)
    ensures
        r == *s,
{
    match s {
        Some(v) => Some(v.clone()),
        None => None,
    }
}

} // verus!
