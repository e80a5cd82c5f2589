//! Regular-expression matching through the `regex` crate.
use vstd::prelude::*;

verus! {

/// `regex::Error`, the reason a pattern does not compile.
#[verifier::external_type_specification]
#[verifier::external_body]
pub struct ExRegexError(regex::Error);

/// Whether `regex::Regex::new` accepts `pattern`: its syntax is valid and
/// the compiled program stays within the default size limit.
pub uninterp spec fn regex_compiles(pattern: Seq<char>) -> bool;

/// Whether the regular expression `pattern`, as the `regex` crate reads it,
/// matches somewhere in `haystack`.
pub uninterp spec fn regex_finds(pattern: Seq<char>, haystack: Seq<char>) -> bool;

/// Compiles `pattern` with `regex::Regex::new` and, when it compiles, asks
/// `regex::Regex::is_match` whether it matches anywhere in `haystack`.
/// Compiling depends on the pattern alone (named by `regex_compiles`); the
/// digit-run pattern `\d+` compiles (a one-class repetition, far within the
/// default size limit); a match result is the one named by `regex_finds`.
#[verifier::external_body]
pub(crate) fn regex_search(pattern: &str, haystack: &str) -> (r: Result<bool, regex::Error>)
    ensures
        r is Ok <==> regex_compiles(pattern@),
        pattern@ == "\\d+"@ ==> r is Ok,
        r matches Ok(b) ==> b == regex_finds(pattern@, haystack@),
{
    match regex::Regex::new(pattern) {
        Ok(re) => Ok(re.is_match(haystack)),
        Err(e) => Err(e),
    }
}

} // verus!
