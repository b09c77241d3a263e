//! Serving the embedded web front end: which asset a request path names,
//! and the content type it is served with.
use vstd::prelude::*;
use crate::text::{chars_of, first_index, lemma_first_index_is, string_of_range};

verus! {

/// What `mime_guess::from_path(path).first_or_octet_stream()` gives, as text:
/// the first media type registered for the path's extension, or
/// `application/octet-stream`.
pub uninterp spec fn mime_guess_first_or_octet(path: Seq<char>) -> Seq<char>;

/// Calls `mime_guess::from_path` and `MimeGuess::first_or_octet_stream`.
/// Claimed: the media type is `mime_guess_first_or_octet` of the path, a
/// function of the path alone (mime_guess looks it up in a static table).
#[verifier::external_body]
fn guess_mime(path: &str) -> (res: String)
    ensures
        res@ == mime_guess_first_or_octet(path@),
{
    mime_guess::from_path(path).first_or_octet_stream().as_ref().to_string()
}

/// The content type an asset is served with.
pub fn asset_content_type(path: &str) -> (res: String)
    ensures
        res@ == mime_guess_first_or_octet(path@),
{
    guess_mime(path)
}

pub open spec fn is_not_slash(c: char) -> bool {
    c != '/'
}

/// The asset a request path names: the path without its leading slashes.
pub open spec fn asset_path_of(uri_path: Seq<char>) -> Seq<char> {
    uri_path.skip(first_index(uri_path, |c: char| is_not_slash(c)))
}

pub fn asset_path(uri_path: &str) -> (res: String)
    ensures
        res@ == asset_path_of(uri_path@),
{
    let cs = chars_of(uri_path);
    let mut k: usize = 0;
    while k < cs.len() && cs[k] == '/'
        invariant
            k <= cs.len(),
            forall|j: int| 0 <= j < k ==> cs@[j] == '/',
        decreases cs.len() - k,
    {
        k = k + 1;
    }
    proof {
        assert forall|j: int| 0 <= j < k implies !(|c: char| is_not_slash(c))(#[trigger] cs@[j]) by {}
        lemma_first_index_is(cs@, |c: char| is_not_slash(c), k as int);
        assert(cs@.subrange(k as int, cs.len() as int) =~= cs@.skip(k as int));
    }
    string_of_range(&cs, k, cs.len())
}

} // verus!
