//! Regular expressions of the `regex` crate, as far as cleaning a corpus
//! line needs them: a pattern is compiled, and its matches are replaced.

use regex::Regex;
use vstd::prelude::*;

verus! {

#[verifier::external_type_specification]
#[verifier::external_body]
pub struct ExRegex(Regex);

#[verifier::external_type_specification]
#[verifier::external_body]
pub struct ExRegexError(regex::Error);

/// The compiled form of the regular expression `pattern`; `None` where the
/// engine does not accept `pattern`.
pub uninterp spec fn compiled(pattern: Seq<char>) -> Option<Regex>;

/// `text` with every non-overlapping match of `re`, leftmost first, replaced
/// by what `replacement` expands to.
pub uninterp spec fn replaced(re: Regex, text: Seq<char>, replacement: Seq<char>) -> Seq<char>;

/// `regex::Regex::new` compiles a pattern or says why it cannot. The
/// contract only gives the outcome its name: the same pattern compiles to
/// the same expression, or fails, every time.
pub assume_specification[ Regex::new ](re: &str) -> (r: Result<Regex, regex::Error>)
    ensures
        match r {
            Ok(regex) => compiled(re@) == Some(regex),
            Err(_) => compiled(re@) is None,
        },
;

/// `regex::Regex::replace_all` with a string slice as the replacement. The
/// contract only gives the outcome its name.
#[verifier::external_body]
pub(crate) fn replace_all(re: &Regex, text: &str, replacement: &str) -> (r: String)
    ensures
        r@ == replaced(*re, text@, replacement@),
{
    re.replace_all(text, replacement).into_owned()
}

/// The regex engine did not accept a pattern.
#[derive(Debug, Clone, Copy, PartialEq, Eq)]
pub struct InvalidPattern;

/// `text` without what matches the regular expression `pattern`.
pub fn remove_matches(pattern: &str, text: &str) -> (r: Result<String, InvalidPattern>)
    ensures
        match compiled(pattern@) {
            Some(re) => r matches Ok(rest) && rest@ == replaced(re, text@, Seq::empty()),
            None => r is Err,
        },
{
    let re = match Regex::new(pattern) {
        Ok(re) => re,
        Err(_) => {
            return Err(InvalidPattern);
        },
    };
    let nothing = "";
    proof {
        reveal_strlit("");
        assert(nothing@ =~= Seq::<char>::empty());
    }
    Ok(replace_all(&re, text, nothing))
}

} // verus!
