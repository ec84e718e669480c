//! One turn of the conversation: what the chatterbot answers to a line of
//! input, and when the conversation is over.

use crate::munou::{GenerationError, MarkovChain};
use crate::text::{blank, contains_text, is_blank, occurs_in, views};
use crate::tokenizer::{token_views, tokenization, Token, MAX_TEXT};
use crate::training::ChainModel;
use crate::vocabulary::{id_of, interned, START_ID};
use crate::walk::{is_generated, may_run_on};
use vstd::prelude::*;

verus! {

/// What marks a noun in the feature string of a token.
pub const NOUN_MARK: &'static str = "名詞";

/// The two states of a conversation.
#[derive(Debug, Clone, Copy, PartialEq, Eq)]
pub enum SessionState {
    /// The next line of input is awaited.
    WaitingForInput,
    /// An empty line has ended the conversation.
    Terminated,
}

/// Why a line of input got no answer.
#[derive(Debug, Clone, Copy, PartialEq, Eq)]
pub enum SessionError {
    /// The line has more than `MAX_TEXT` characters.
    TooLong,
    /// The walk for the answer sampled `MAX_WALK` words without an end.
    Truncated,
}

/// What a line of input leads to: the state after it, and the answer to
/// print, if there is one.
pub struct Turn {
    /// The state of the conversation after the line.
    pub state: SessionState,
    /// The answer to the line; none once the conversation is over.
    pub response: Option<String>,
}

/// A token that can start an answer: its feature string holds `mark`, and
/// it has a surface.
pub open spec fn is_seed(token: (Seq<char>, Seq<char>), mark: Seq<char>) -> bool {
    occurs_in(mark, token.1) && token.0.len() > 0
}

/// The surfaces of the tokens that can start an answer, in their order.
pub open spec fn seeds_of(tokens: Seq<(Seq<char>, Seq<char>)>, mark: Seq<char>) -> Seq<Seq<char>>
    decreases tokens.len(),
{
    if tokens.len() == 0 {
        Seq::empty()
    } else if is_seed(tokens.last(), mark) {
        seeds_of(tokens.drop_last(), mark).push(tokens.last().0)
    } else {
        seeds_of(tokens.drop_last(), mark)
    }
}

/// An answer says too little when it is not at least four characters
/// longer than the word it was made for.
pub open spec fn too_short(seed: Seq<char>, text: Seq<char>) -> bool {
    text.len() < seed.len() + 4
}

/// `text` can be the answer to `seed`: a sentence that starts with the seed
/// and says enough, or any sentence where one that starts with the seed says
/// too little.
pub open spec fn answers_seed(model: ChainModel, seed: Seq<char>, text: Seq<char>) -> bool {
    let id = id_of(model.words, seed) as usize;
    ||| is_generated(model, START_ID, id, text) && !too_short(seed, text)
    ||| is_generated(model, START_ID, START_ID, text) && exists|first: Seq<char>| #[trigger]
        is_generated(model, START_ID, id, first) && too_short(seed, first)
}

/// Whether `text` says too little for an answer to `seed`.
pub fn is_too_short(seed: &str, text: &str) -> (short: bool)
    ensures
        short == too_short(seed@, text@),
{
    let text_len = text.unicode_len();
    let seed_len = seed.unicode_len();
    text_len < 4 || text_len - 4 < seed_len
}

/// The surfaces of those among `tokens` that have one and whose feature
/// string holds `mark`.
pub fn seed_words(tokens: &Vec<Token>, mark: &str) -> (words: Vec<String>)
    ensures
        views(words@) == seeds_of(token_views(tokens@), mark@),
{
    let mut words: Vec<String> = Vec::new();
    let ghost all = token_views(tokens@);
    for i in 0..tokens.len()
        invariant
            all == token_views(tokens@),
            views(words@) == seeds_of(all.take(i as int), mark@),
    {
        proof {
            assert(all.take(i + 1).drop_last() =~= all.take(i as int));
            assert(all.take(i + 1).last() == all[i as int]);
        }
        let token = &tokens[i];
        if contains_text(token.feature.as_str(), mark) && !token.surface.as_str().is_empty() {
            let ghost before = views(words@);
            words.push(token.surface.clone());
            assert(views(words@) =~= before.push(token.surface@));
        }
    }
    assert(all.take(tokens@.len() as int) =~= all);
    words
}

/// No answer to `seed` may come: a walk that starts with the seed runs on,
/// or a sentence that starts with it says too little and a walk from the
/// start marker alone runs on.
pub open spec fn runs_on_for_seed(model: ChainModel, seed: Seq<char>) -> bool {
    let id = id_of(model.words, seed) as usize;
    ||| may_run_on(model, START_ID, id)
    ||| may_run_on(model, START_ID, START_ID) && exists|first: Seq<char>| #[trigger]
        is_generated(model, START_ID, id, first) && too_short(seed, first)
}

/// The answer to the word `seed`: a sentence that starts with it, or any
/// sentence if that one says too little.
pub fn reply_to_seed(markov: &mut MarkovChain, seed: &str) -> (r: Result<String, GenerationError>)
    requires
        old(markov).wf(),
    ensures
        final(markov).wf(),
        final(markov).analyzer() == old(markov).analyzer(),
        final(markov)@.words == interned(old(markov)@.words, seed@),
        final(markov)@.table == old(markov)@.table,
        match r {
            Ok(text) => answers_seed(final(markov)@, seed@, text@),
            Err(e) => e == GenerationError::Truncated && runs_on_for_seed(final(markov)@, seed@),
        },
{
    let word_id = markov.get_word_id(seed);
    let text = match markov.generate_text(START_ID, word_id) {
        Ok(text) => text,
        Err(e) => {
            return Err(e);
        },
    };
    if is_too_short(seed, text.as_str()) {
        markov.generate()
    } else {
        Ok(text)
    }
}

/// What the chatterbot does with one line of input. A blank line ends the
/// conversation. Any other line is answered: with a sentence around one of
/// its nouns, picked at random, or with any sentence if it has none. A line
/// of more than `MAX_TEXT` characters is refused.
pub fn respond(markov: &mut MarkovChain, state: SessionState, input: &str) -> (r: Result<
    Turn,
    SessionError,
>)
    requires
        old(markov).wf(),
    ensures
        final(markov).wf(),
        final(markov).analyzer() == old(markov).analyzer(),
        final(markov)@.table == old(markov)@.table,
        state == SessionState::Terminated || blank(input@) ==> {
            &&& final(markov)@ == old(markov)@
            &&& r matches Ok(turn) && turn.state == SessionState::Terminated && turn.response
                is None
        },
        state == SessionState::WaitingForInput && !blank(input@) && input@.len() > MAX_TEXT ==> {
            &&& final(markov)@ == old(markov)@
            &&& r == Err::<Turn, SessionError>(SessionError::TooLong)
        },
        state == SessionState::WaitingForInput && !blank(input@) && input@.len() <= MAX_TEXT ==> {
            let seeds = seeds_of(tokenization(old(markov).analyzer(), input@)->0, NOUN_MARK@);
            &&& r matches Ok(turn) ==> turn.state == SessionState::WaitingForInput
                && turn.response is Some
            &&& r matches Err(e) ==> e == SessionError::Truncated
            &&& seeds.len() == 0 ==> {
                &&& final(markov)@ == old(markov)@
                &&& r matches Ok(turn) ==> is_generated(
                    final(markov)@,
                    START_ID,
                    START_ID,
                    turn.response->0@,
                )
                &&& r is Err ==> may_run_on(final(markov)@, START_ID, START_ID)
            }
            &&& seeds.len() > 0 ==> exists|i: int|
                #![trigger seeds[i]]
                {
                    &&& 0 <= i < seeds.len()
                    &&& final(markov)@.words == interned(old(markov)@.words, seeds[i])
                    &&& r matches Ok(turn) ==> answers_seed(
                        final(markov)@,
                        seeds[i],
                        turn.response->0@,
                    )
                    &&& r is Err ==> runs_on_for_seed(final(markov)@, seeds[i])
                }
        },
{
    match state {
        SessionState::Terminated => {
            return Ok(Turn { state: SessionState::Terminated, response: None });
        },
        SessionState::WaitingForInput => {},
    }
    if is_blank(input) {
        return Ok(Turn { state: SessionState::Terminated, response: None });
    }
    let tokens = match markov.analyze(input) {
        Some(tokens) => tokens,
        None => {
            return Err(SessionError::TooLong);
        },
    };
    let words = seed_words(&tokens, NOUN_MARK);
    let ghost seeds = views(words@);
    let output = if words.len() == 0 {
        markov.generate()
    } else {
        match lazyrand::choice(words.as_slice()) {
            Some(word) => {
                proof {
                    let i = choose|i: int|
                        0 <= i < words@.len() && cloned(#[trigger] words@[i], word);
                    assert(seeds[i] == word@);
                }
                reply_to_seed(markov, word.as_str())
            },
            None => markov.generate(),
        }
    };
    match output {
        Ok(text) => Ok(Turn { state: SessionState::WaitingForInput, response: Some(text) }),
        Err(_) => Err(SessionError::Truncated),
    }
}

} // verus!
