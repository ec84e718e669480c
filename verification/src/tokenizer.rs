//! Morphological analysis by the vibrato tokenizer: a line of text goes in,
//! its tokens come out, each with its surface and its feature string.

use vibrato::{Dictionary, Tokenizer};
use vstd::prelude::*;

verus! {

#[verifier::external_type_specification]
#[verifier::external_body]
pub struct ExTokenizer(Tokenizer);

#[verifier::external_type_specification]
#[verifier::external_body]
pub struct ExDictionary(Dictionary);

/// One token of an analysed text.
pub struct Token {
    /// The piece of the text that the token covers.
    pub surface: String,
    /// The dictionary's description of the token, part of speech first.
    pub feature: String,
}

/// A token as plain values: its surface, then its feature string.
pub open spec fn token_view(token: Token) -> (Seq<char>, Seq<char>) {
    (token.surface@, token.feature@)
}

/// A list of tokens as plain values.
pub open spec fn token_views(tokens: Seq<Token>) -> Seq<(Seq<char>, Seq<char>)> {
    tokens.map_values(|t: Token| token_view(t))
}

/// The surfaces of a list of analysed tokens, in order.
pub open spec fn surfaces_of(tokens: Seq<(Seq<char>, Seq<char>)>) -> Seq<Seq<char>> {
    tokens.map_values(|t: (Seq<char>, Seq<char>)| t.0)
}

/// How many characters a text may have to be handed to the tokenizer.
pub const MAX_TEXT: usize = 30000;

/// The tokens that `tokenizer` finds in `text`: surface and feature of each,
/// in the order of the text. `None` where the vibrato worker does not come
/// back with tokens: where the dictionary names a connection id outside its
/// connection matrix, or where, in a build that checks its arithmetic, the
/// cost of a path leaves `i32`.
pub uninterp spec fn tokenization(tokenizer: Tokenizer, text: Seq<char>) -> Option<
    Seq<(Seq<char>, Seq<char>)>,
>;

/// The tokenizer analyses every text of up to `MAX_TEXT` characters. This is
/// what is asked of the tokenizer of a chain. A tokenizer over a dictionary
/// from vibrato's `SystemDictionaryBuilder::from_readers` is of this kind:
/// the builder refuses ids outside the matrix, and its word and connection
/// costs are 16-bit numbers, so that a path of `MAX_TEXT` tokens stays
/// within `i32`. A dictionary read from a file is of this kind if the file
/// was written from such a dictionary; reading alone does not check it.
pub open spec fn analyses_lines(tokenizer: Tokenizer) -> bool {
    forall|text: Seq<char>|
        text.len() <= MAX_TEXT ==> (#[trigger] tokenization(tokenizer, text)) is Some
}

/// The tokenizer that works with `dict`.
pub uninterp spec fn tokenizer_with(dict: Dictionary) -> Tokenizer;

/// `vibrato::Tokenizer::new` wraps a dictionary into a tokenizer with the
/// default options. The contract only gives the outcome its name: the same
/// dictionary yields the same tokenizer.
pub assume_specification[ Tokenizer::new ](dict: Dictionary) -> (tokenizer: Tokenizer)
    ensures
        tokenizer == tokenizer_with(dict),
;

/// Runs a fresh `vibrato` worker over `text` (`new_worker`, `reset_sentence`,
/// `tokenize`, `token_iter`) and copies out `surface()` and `feature()` of
/// every token. The texts on which the worker does not come back are left
/// out. For the others the contract only gives the outcome its name: the
/// same tokenizer and the same text yield the same tokens.
#[verifier::external_body]
pub(crate) fn tokenize(tokenizer: &Tokenizer, text: &str) -> (tokens: Vec<Token>)
    requires
        tokenization(*tokenizer, text@) is Some,
    ensures
        tokenization(*tokenizer, text@) == Some(token_views(tokens@)),
{
    let mut worker = tokenizer.new_worker();
    worker.reset_sentence(text);
    worker.tokenize();
    worker.token_iter().map(
        |t| Token { surface: t.surface().to_string(), feature: t.feature().to_string() },
    ).collect()
}

} // verus!
