//! The chatterbot: a second-order Markov chain over word identifiers that is
//! trained line by line and then walked at random to make sentences.

use crate::chain::TransitionTable;
use crate::cleaner::{compiled, remove_matches, replaced};
use crate::text::{remove_char, views};
use crate::tokenizer::{
    analyses_lines, surfaces_of, token_views, tokenization, tokenize, tokenizer_with, Token,
    MAX_TEXT,
};
use crate::training::{
    initial_model, learn_token, learn_tokens, line_start, trained, valid_model, ChainModel,
    TrainState,
};
use crate::vocabulary::{
    id_of, interned, surface_at, Vocabulary, VocabularyError, END_ID, START_ID,
};
use crate::walk::{
    has_ended, is_endless, is_generated, is_sentence, is_walk, known_context, lemma_spelled_push,
    lemma_steered_stays, lemma_walk_push, may_follow, may_run_on, picked, rendered, spelled,
    steered, MARKER, MAX_WALK,
};
use vibrato::{Dictionary, Tokenizer};
use vstd::prelude::*;

verus! {

/// What `train` removes from a line before it is cut into words: ruby
/// readings in double angle brackets, notes in full-width square brackets,
/// ruby bars, white space, hyphens and Japanese quotation brackets.
pub const CLEAN_PATTERN: &'static str = r"(《.*?》|［.*?］|[｜\s\u{3000}\-]|[「」『』])";

/// Why a line could not be learnt.
#[derive(Debug, Clone, Copy, PartialEq, Eq)]
pub enum TrainError {
    /// The regex engine did not accept the cleaning pattern.
    Pattern,
    /// The cleaned line has more than `MAX_TEXT` characters.
    TooLong,
}

/// Why no sentence came out of a walk.
#[derive(Debug, Clone, Copy, PartialEq, Eq)]
pub enum GenerationError {
    /// A sentence was to start with an identifier that no word has.
    InvalidIdentifier,
    /// `MAX_WALK` words were sampled and the end token was not among them.
    Truncated,
}

/// Markov chain over the words of a corpus, with the tokenizer that cuts
/// text into words.
pub struct MarkovChain {
    vocabulary: Vocabulary,
    chain: TransitionTable,
    tokenizer: Tokenizer,
}

impl View for MarkovChain {
    type V = ChainModel;

    closed spec fn view(&self) -> ChainModel {
        ChainModel { words: self.vocabulary@, table: self.chain@ }
    }
}

impl MarkovChain {
    /// The tokenizer that this chain cuts text with.
    pub closed spec fn analyzer(&self) -> Tokenizer {
        self.tokenizer
    }

    /// Vocabulary and table are well-formed in themselves.
    pub closed spec fn consistent(&self) -> bool {
        self.vocabulary.wf() && self.chain.wf()
    }

    /// The chain is consistent in itself, its model is valid, and its
    /// tokenizer analyses every line.
    pub open spec fn wf(&self) -> bool {
        self.consistent() && valid_model(self@) && analyses_lines(self.analyzer())
    }

    /// An untrained chain that cuts text with the given dictionary. The
    /// dictionary has to be one with which every line can be analysed; see
    /// `analyses_lines`.
    pub fn new(dict: Dictionary) -> (markov: Self)
        requires
            analyses_lines(tokenizer_with(dict)),
        ensures
            markov.wf(),
            markov@ == initial_model(),
            markov.analyzer() == tokenizer_with(dict),
    {
        let vocabulary = Vocabulary::new();
        let chain = TransitionTable::new();
        MarkovChain { vocabulary, chain, tokenizer: Tokenizer::new(dict) }
    }

    /// The identifier of `word`, which is created if the word is new.
    pub fn get_word_id(&mut self, word: &str) -> (id: usize)
        requires
            old(self).wf(),
        ensures
            final(self).wf(),
            final(self).analyzer() == old(self).analyzer(),
            final(self)@.words == interned(old(self)@.words, word@),
            final(self)@.table == old(self)@.table,
            id == id_of(final(self)@.words, word@),
            id < final(self)@.words.len(),
            final(self)@.words[id as int] == word@,
    {
        self.vocabulary.get_or_create_id(word)
    }

    /// Number of words that have an identifier.
    pub fn word_count(&self) -> (n: usize)
        ensures
            n == self@.words.len(),
    {
        self.vocabulary.len()
    }

    /// The surface that `id` stands for.
    pub fn surface_of(&self, id: usize) -> (r: Result<&str, VocabularyError>)
        ensures
            match r {
                Ok(s) => surface_at(self@.words, id as int) == Some(s@),
                Err(e) => e == VocabularyError::OutOfRange && surface_at(self@.words, id as int)
                    is None,
            },
    {
        self.vocabulary.surface_of(id)
    }

    /// The sightings recorded behind the words `prev2` and `prev1`, if any.
    pub fn candidates(&self, prev2: usize, prev1: usize) -> (r: Option<&Vec<usize>>)
        ensures
            match r {
                Some(seen) => self@.table.contains_key((prev2, prev1)) && seen@
                    == self@.table[(prev2, prev1)],
                None => !self@.table.contains_key((prev2, prev1)),
            },
    {
        self.chain.candidates(prev2, prev1)
    }

    /// Cuts `text` into tokens with this chain's tokenizer. A text of more
    /// than `MAX_TEXT` characters is not cut.
    pub fn analyze(&self, text: &str) -> (r: Option<Vec<Token>>)
        requires
            self.wf(),
        ensures
            match r {
                Some(tokens) => text@.len() <= MAX_TEXT && tokenization(self.analyzer(), text@)
                    == Some(token_views(tokens@)),
                None => text@.len() > MAX_TEXT,
            },
    {
        if text.unicode_len() > MAX_TEXT {
            None
        } else {
            Some(tokenize(&self.tokenizer, text))
        }
    }

    /// Cuts `text` into the surfaces of its tokens. A text of more than
    /// `MAX_TEXT` characters is not cut.
    pub fn split(&self, text: &str) -> (r: Option<Vec<String>>)
        requires
            self.wf(),
        ensures
            match r {
                Some(words) => {
                    &&& text@.len() <= MAX_TEXT
                    &&& tokenization(self.analyzer(), text@) matches Some(tokens)
                    &&& views(words@) == surfaces_of(tokens)
                },
                None => text@.len() > MAX_TEXT,
            },
    {
        let tokens = match self.analyze(text) {
            Some(tokens) => tokens,
            None => {
                return None;
            },
        };
        let mut words: Vec<String> = Vec::new();
        for i in 0..tokens.len()
            invariant
                words@.len() == i,
                forall|j: int| 0 <= j < i ==> #[trigger] words@[j]@ == tokens@[j].surface@,
        {
            words.push(tokens[i].surface.clone());
        }
        assert(views(words@) =~= surfaces_of(token_views(tokens@)));
        Some(words)
    }

    /// Learns one line that is already cut into words: each word is recorded
    /// behind the two before it, and the end token starts a new sentence.
    pub fn train_tokens(&mut self, tokens: &Vec<String>)
        requires
            old(self).wf(),
        ensures
            final(self).wf(),
            final(self).analyzer() == old(self).analyzer(),
            final(self)@ == trained(old(self)@, views(tokens@)),
    {
        let mut prev2 = START_ID;
        let mut prev1 = START_ID;
        let ghost line = views(tokens@);
        for i in 0..tokens.len()
            invariant
                self.wf(),
                self.analyzer() == old(self).analyzer(),
                line == views(tokens@),
                (TrainState { model: self@, prev2, prev1 }) == learn_tokens(
                    line_start(old(self)@),
                    line.take(i as int),
                ),
        {
            let ghost before = self@;
            let id = self.get_word_id(tokens[i].as_str());
            self.chain.observe(prev2, prev1, id);
            proof {
                assert(line.take(i + 1).drop_last() =~= line.take(i as int));
                assert(line.take(i + 1).last() == tokens@[i as int]@);
                assert(self@ == learn_token(
                    TrainState { model: before, prev2, prev1 },
                    tokens@[i as int]@,
                ).model);
            }
            if id == END_ID {
                prev2 = START_ID;
                prev1 = START_ID;
            } else {
                prev2 = prev1;
                prev1 = id;
            }
        }
        assert(line.take(tokens@.len() as int) =~= line);
    }

    /// Learns one line of raw corpus text: what matches `CLEAN_PATTERN` is
    /// taken out, the rest is cut into words and handed to `train_tokens`.
    /// A line that is left with more than `MAX_TEXT` characters is refused.
    pub fn train(&mut self, text: &str) -> (r: Result<(), TrainError>)
        requires
            old(self).wf(),
        ensures
            final(self).wf(),
            final(self).analyzer() == old(self).analyzer(),
            match compiled(CLEAN_PATTERN@) {
                Some(re) => {
                    let clean = replaced(re, text@, Seq::empty());
                    if clean.len() <= MAX_TEXT {
                        r is Ok && final(self)@ == trained(
                            old(self)@,
                            surfaces_of(tokenization(old(self).analyzer(), clean)->0),
                        )
                    } else {
                        r == Err::<(), TrainError>(TrainError::TooLong) && final(self)@ == old(
                            self,
                        )@
                    }
                },
                None => r == Err::<(), TrainError>(TrainError::Pattern) && final(self)@ == old(
                    self,
                )@,
            },
    {
        let clean_text = match remove_matches(CLEAN_PATTERN, text) {
            Ok(rest) => rest,
            Err(_) => {
                return Err(TrainError::Pattern);
            },
        };
        let words = match self.split(clean_text.as_str()) {
            Some(words) => words,
            None => {
                return Err(TrainError::TooLong);
            },
        };
        self.train_tokens(&words);
        Ok(())
    }

    /// A sentence that starts from the start marker: `generate_text` from
    /// the context of a line's start.
    pub fn generate(&mut self) -> (r: Result<String, GenerationError>)
        requires
            old(self).wf(),
        ensures
            *final(self) == *old(self),
            match r {
                Ok(text) => is_generated(old(self)@, START_ID, START_ID, text@),
                Err(e) => e == GenerationError::Truncated && may_run_on(
                    old(self)@,
                    START_ID,
                    START_ID,
                ),
            },
    {
        self.generate_text(START_ID, START_ID)
    }

    /// Samples the word that follows `w1` and `w2`: one of the sightings
    /// behind them, each as likely as the others, or the end token where
    /// there is none.
    pub fn generate_next_id(&self, w1: usize, w2: usize) -> (next: usize)
        requires
            self.wf(),
        ensures
            may_follow(self@.table, (w1, w2), next),
            next < self@.words.len(),
    {
        let seen = match self.chain.candidates(w1, w2) {
            Some(seen) => seen,
            None => {
                return END_ID;
            },
        };
        if seen.is_empty() {
            return END_ID;
        }
        match lazyrand::choice(seen.as_slice()) {
            Some(next) => {
                assert(seen@.contains(next));
                next
            },
            None => END_ID,
        }
    }

    /// The surfaces of the two words that a sentence starts with.
    fn spell_context(&self, w1: usize, w2: usize) -> (text: String)
        requires
            w1 < self@.words.len(),
            w2 < self@.words.len(),
        ensures
            text@ == spelled(self@.words, seq![w1, w2]),
    {
        let mut text = String::new();
        text.append(self.vocabulary.word(w1));
        text.append(self.vocabulary.word(w2));
        proof {
            lemma_spelled_push(self@.words, Seq::empty(), w1);
            lemma_spelled_push(self@.words, seq![w1], w2);
            assert(Seq::<usize>::empty().push(w1) =~= seq![w1]);
            assert(seq![w1].push(w2) =~= seq![w1, w2]);
            assert(text@ =~= spelled(self@.words, seq![w1, w2]));
        }
        text
    }

    /// The word that `pick` selects behind `w1` and `w2`.
    pub fn pick_next_id(&self, w1: usize, w2: usize, pick: usize) -> (next: usize)
        requires
            self.wf(),
        ensures
            next == picked(self@.table, (w1, w2), pick),
            next < self@.words.len(),
    {
        match self.chain.candidates(w1, w2) {
            Some(seen) => {
                if seen.len() == 0 {
                    END_ID
                } else {
                    seen[pick % seen.len()]
                }
            },
            None => END_ID,
        }
    }

    /// The sentence that `picks` steers from the words `w1` and `w2`: one
    /// number selects each further word. The numbers left over when the end
    /// token is reached are not used; if they run out before, no sentence
    /// comes out. An identifier that no word has is refused.
    pub fn generate_text_with(&self, w1: usize, w2: usize, picks: &Vec<usize>) -> (r: Result<
        String,
        GenerationError,
    >)
        requires
            self.wf(),
        ensures
            match r {
                Ok(text) => known_context(self@, w1, w2) && has_ended(
                    steered(self@.table, w1, w2, picks@),
                ) && text@ == rendered(self@.words, steered(self@.table, w1, w2, picks@)),
                Err(e) => if known_context(self@, w1, w2) {
                    e == GenerationError::Truncated && !has_ended(
                        steered(self@.table, w1, w2, picks@),
                    )
                } else {
                    e == GenerationError::InvalidIdentifier
                },
            },
    {
        if w1 >= self.vocabulary.len() || w2 >= self.vocabulary.len() {
            return Err(GenerationError::InvalidIdentifier);
        }
        let mut result = self.spell_context(w1, w2);
        let mut prev2 = w1;
        let mut prev1 = w2;
        let mut ended = false;
        let mut used: usize = 0;
        let ghost mut ids: Seq<usize> = seq![w1, w2];
        assert(picks@.take(0) =~= Seq::<usize>::empty());
        while used < picks.len() && !ended
            invariant
                self.wf(),
                used <= picks@.len(),
                ids == steered(self@.table, w1, w2, picks@.take(used as int)),
                ids.len() >= 2,
                ended == has_ended(ids),
                prev2 == ids[ids.len() - 2],
                prev1 == ids[ids.len() - 1],
                result@ == spelled(self@.words, ids),
            decreases picks@.len() - used,
        {
            let next = self.pick_next_id(prev2, prev1, picks[used]);
            result.append(self.vocabulary.word(next));
            proof {
                lemma_spelled_push(self@.words, ids, next);
                assert(picks@.take(used + 1).drop_last() =~= picks@.take(used as int));
                assert(picks@.take(used + 1).last() == picks@[used as int]);
                ids = ids.push(next);
            }
            used = used + 1;
            ended = next == END_ID;
            prev2 = prev1;
            prev1 = next;
        }
        proof {
            lemma_steered_stays(self@.table, w1, w2, picks@, used as int);
        }
        if ended {
            Ok(remove_char(result.as_str(), MARKER))
        } else {
            Err(GenerationError::Truncated)
        }
    }

    /// A sentence that starts with the words `w1` and `w2`: their surfaces,
    /// then those of the words sampled behind them up to the end token, the
    /// whole without the emphasis marker. An identifier that no word has is
    /// refused, and a walk that has not reached the end token after
    /// `MAX_WALK` words is given up.
    pub fn generate_text(&self, w1: usize, w2: usize) -> (r: Result<String, GenerationError>)
        requires
            self.wf(),
        ensures
            match r {
                Ok(text) => known_context(self@, w1, w2) && is_generated(self@, w1, w2, text@),
                Err(e) => if known_context(self@, w1, w2) {
                    e == GenerationError::Truncated && may_run_on(self@, w1, w2)
                } else {
                    e == GenerationError::InvalidIdentifier
                },
            },
    {
        if w1 >= self.vocabulary.len() || w2 >= self.vocabulary.len() {
            return Err(GenerationError::InvalidIdentifier);
        }
        let mut result = self.spell_context(w1, w2);
        let mut prev2 = w1;
        let mut prev1 = w2;
        let mut steps: usize = 0;
        let ghost mut ids: Seq<usize> = seq![w1, w2];
        while steps < MAX_WALK
            invariant
                self.wf(),
                steps <= MAX_WALK,
                ids.len() == steps + 2,
                is_walk(self@, w1, w2, ids),
                steps == 0 || ids.last() != END_ID,
                prev2 == ids[ids.len() - 2],
                prev1 == ids[ids.len() - 1],
                result@ == spelled(self@.words, ids),
            decreases MAX_WALK - steps,
        {
            let next = self.generate_next_id(prev2, prev1);
            result.append(self.vocabulary.word(next));
            proof {
                lemma_spelled_push(self@.words, ids, next);
                lemma_walk_push(self@, w1, w2, ids, next);
                ids = ids.push(next);
            }
            steps = steps + 1;
            if next == END_ID {
                let text = remove_char(result.as_str(), MARKER);
                assert(is_sentence(self@, w1, w2, ids));
                return Ok(text);
            }
            prev2 = prev1;
            prev1 = next;
        }
        assert(is_endless(self@, w1, w2, ids));
        Err(GenerationError::Truncated)
    }
}

} // verus!
