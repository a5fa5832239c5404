//! The test a destination has to pass: the `url` crate must accept it.

use url::Url;
use vstd::prelude::*;

verus! {

/// Whether the `url` crate parses `text` as an absolute URL. The grammar is the
/// crate's own (the WHATWG URL standard), so it is named here, not restated.
pub uninterp spec fn parses_as_url(text: Seq<char>) -> bool;

/// Runs `url::Url::parse` on `text` and reports whether it returned `Ok`.
///
/// Trusted: the parser reads nothing but its argument, so that its verdict on a
/// text is always the same, which is what `parses_as_url` stands for. The parsed
/// value is dropped.
#[verifier::external_body]
pub(crate) fn url_parses(text: &str) -> (ok: bool)
    ensures
        ok == parses_as_url(text@),
{
    Url::parse(text).is_ok()
}

} // verus!
