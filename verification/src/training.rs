//! What a chain learns from a line of words, as mathematics: the model, the
//! training step, and what holds of training.

use crate::chain::{candidates_of, observed, sightings, valid_table};
use crate::vocabulary::{
    end_surface, id_of, interned, lemma_id_in_extension, lemma_intern_round_trip,
    lemma_reserved_ids, start_surface, valid_words, END_ID, START_ID,
};
use vstd::prelude::*;

verus! {

/// What a chain has learnt: its words by identifier, and the sightings of
/// successors behind each two-word context.
pub struct ChainModel {
    pub words: Seq<Seq<char>>,
    pub table: Map<(usize, usize), Seq<usize>>,
}

/// The model before any training.
pub open spec fn initial_model() -> ChainModel {
    ChainModel { words: seq![start_surface(), end_surface()], table: Map::empty() }
}

/// A model whose word list and table are valid and whose table names only
/// words of the list.
pub open spec fn valid_model(model: ChainModel) -> bool {
    &&& valid_words(model.words)
    &&& model.words.len() <= usize::MAX
    &&& valid_table(model.table)
    &&& forall|context: (usize, usize), i: int|
        model.table.contains_key(context) && 0 <= i < model.table[context].len()
            ==> #[trigger] model.table[context][i] < model.words.len()
}

/// A model together with the window of the last two words during training.
pub struct TrainState {
    pub model: ChainModel,
    pub prev2: usize,
    pub prev1: usize,
}

/// The state in which every line starts: both window places hold the start
/// marker.
pub open spec fn line_start(model: ChainModel) -> TrainState {
    TrainState { model, prev2: START_ID, prev1: START_ID }
}

/// One training step: `token` gets its identifier, is recorded behind the
/// window, and moves into it; after the end token the window starts afresh.
pub open spec fn learn_token(state: TrainState, token: Seq<char>) -> TrainState {
    let words = interned(state.model.words, token);
    let id = id_of(words, token) as usize;
    let table = observed(state.model.table, (state.prev2, state.prev1), id);
    let model = ChainModel { words, table };
    if id == END_ID {
        line_start(model)
    } else {
        TrainState { model, prev2: state.prev1, prev1: id }
    }
}

/// The training steps for `tokens`, first token first.
pub open spec fn learn_tokens(state: TrainState, tokens: Seq<Seq<char>>) -> TrainState
    decreases tokens.len(),
{
    if tokens.len() == 0 {
        state
    } else {
        learn_token(learn_tokens(state, tokens.drop_last()), tokens.last())
    }
}

/// The model after one line of `tokens` has been learnt.
pub open spec fn trained(model: ChainModel, tokens: Seq<Seq<char>>) -> ChainModel {
    learn_tokens(line_start(model), tokens).model
}

/// A training state whose model is valid and whose window holds words of
/// the model.
pub open spec fn valid_state(state: TrainState) -> bool {
    &&& valid_model(state.model)
    &&& state.prev2 < state.model.words.len()
    &&& state.prev1 < state.model.words.len()
}

/// One training step keeps a state valid and adds at most one word.
proof fn lemma_learn_token_valid(state: TrainState, token: Seq<char>)
    requires
        valid_state(state),
        state.model.words.len() < usize::MAX,
    ensures
        valid_state(learn_token(state, token)),
        learn_token(state, token).model.words.len() <= state.model.words.len() + 1,
{
    let words = interned(state.model.words, token);
    let id = id_of(words, token);
    lemma_intern_round_trip(state.model.words, token);
    assert(words.contains(token));
    assert(0 <= id < words.len());
    let next = learn_token(state, token);
    assert forall|context: (usize, usize), i: int|
        next.model.table.contains_key(context) && 0 <= i < next.model.table[context].len()
        implies #[trigger] next.model.table[context][i] < next.model.words.len() by {
        if context == (state.prev2, state.prev1) {
            if i < candidates_of(state.model.table, context).len() {
                assert(state.model.table[context][i] < state.model.words.len());
            }
        } else {
            assert(state.model.table[context][i] < state.model.words.len());
        }
    }
}

/// Training keeps a state valid and adds at most one word for each token.
proof fn lemma_learn_tokens_valid(state: TrainState, tokens: Seq<Seq<char>>)
    requires
        valid_state(state),
        state.model.words.len() + tokens.len() <= usize::MAX,
    ensures
        valid_state(learn_tokens(state, tokens)),
        learn_tokens(state, tokens).model.words.len() <= state.model.words.len() + tokens.len(),
    decreases tokens.len(),
{
    if tokens.len() > 0 {
        lemma_learn_tokens_valid(state, tokens.drop_last());
        lemma_learn_token_valid(learn_tokens(state, tokens.drop_last()), tokens.last());
    }
}

/// Training keeps a model valid: no context without a sighting, no sighting
/// of a word that the vocabulary lacks. This holds as long as the words can
/// be counted in a machine word.
pub proof fn lemma_trained_valid(model: ChainModel, tokens: Seq<Seq<char>>)
    requires
        valid_model(model),
        model.words.len() + tokens.len() <= usize::MAX,
    ensures
        valid_model(trained(model, tokens)),
{
    lemma_learn_tokens_valid(line_start(model), tokens);
}

/// Learning one run of tokens and then another is learning the two runs
/// joined.
pub proof fn lemma_learn_tokens_joined(
    state: TrainState,
    first: Seq<Seq<char>>,
    second: Seq<Seq<char>>,
)
    ensures
        learn_tokens(state, first + second) == learn_tokens(learn_tokens(state, first), second),
    decreases second.len(),
{
    if second.len() == 0 {
        assert(first + second =~= first);
    } else {
        lemma_learn_tokens_joined(state, first, second.drop_last());
        assert((first + second).drop_last() =~= first + second.drop_last());
        assert((first + second).last() == second.last());
    }
}

/// After a run of tokens that closes with the end token, the window is back
/// at the start of a line.
pub proof fn lemma_end_token_resets(state: TrainState, tokens: Seq<Seq<char>>)
    requires
        valid_words(state.model.words),
        tokens.len() > 0,
        tokens.last() == end_surface(),
    ensures
        learn_tokens(state, tokens) == line_start(learn_tokens(state, tokens).model),
{
    lemma_learn_tokens_words_valid(state, tokens.drop_last());
    let before = learn_tokens(state, tokens.drop_last());
    lemma_reserved_ids(before.model.words);
}

/// Training keeps the word list valid.
pub proof fn lemma_learn_tokens_words_valid(state: TrainState, tokens: Seq<Seq<char>>)
    requires
        valid_words(state.model.words),
    ensures
        valid_words(learn_tokens(state, tokens).model.words),
    decreases tokens.len(),
{
    if tokens.len() > 0 {
        lemma_learn_tokens_words_valid(state, tokens.drop_last());
    }
}

/// Sentences do not reach into each other: where the first run of tokens is
/// empty or closes with the end token, learning the two runs as one line is
/// learning them as two lines.
pub proof fn lemma_lines_are_independent(
    model: ChainModel,
    first: Seq<Seq<char>>,
    second: Seq<Seq<char>>,
)
    requires
        valid_words(model.words),
        first.len() > 0 ==> first.last() == end_surface(),
    ensures
        trained(model, first + second) == trained(trained(model, first), second),
{
    lemma_learn_tokens_joined(line_start(model), first, second);
    if first.len() > 0 {
        lemma_end_token_resets(line_start(model), first);
    }
}

/// Training only ever adds words behind those that are there.
pub proof fn lemma_words_extend(state: TrainState, tokens: Seq<Seq<char>>)
    ensures
        state.model.words.is_prefix_of(learn_tokens(state, tokens).model.words),
    decreases tokens.len(),
{
    if tokens.len() > 0 {
        lemma_words_extend(state, tokens.drop_last());
    }
}

/// Where a second pass over a line stands after `k` tokens, seen from the
/// first pass: the same window, the full word list, and behind every
/// context the sightings of the whole first pass followed by those that the
/// first pass had added up to there.
spec fn passes_agree(model: ChainModel, tokens: Seq<Seq<char>>, k: int) -> bool {
    let first = learn_tokens(line_start(model), tokens.take(k));
    let once = trained(model, tokens);
    let second = learn_tokens(line_start(once), tokens.take(k));
    &&& second.model.words == once.words
    &&& second.prev2 == first.prev2
    &&& second.prev1 == first.prev1
    &&& forall|context: (usize, usize)|
        {
            let had = candidates_of(model.table, context).len() as int;
            &&& had <= (#[trigger] candidates_of(first.model.table, context)).len()
            &&& candidates_of(second.model.table, context) == candidates_of(once.table, context)
                + candidates_of(first.model.table, context).skip(had)
        }
}

/// The two passes agree after every number of tokens.
proof fn lemma_passes_agree(model: ChainModel, tokens: Seq<Seq<char>>, k: int)
    requires
        valid_words(model.words),
        0 <= k <= tokens.len(),
    ensures
        passes_agree(model, tokens, k),
    decreases k,
{
    let start = line_start(model);
    let once = trained(model, tokens);
    if k == 0 {
        assert(tokens.take(0) =~= Seq::<Seq<char>>::empty());
        assert forall|context: (usize, usize)|
            {
                let had = candidates_of(model.table, context).len() as int;
                candidates_of(once.table, context) == candidates_of(once.table, context)
                    + (#[trigger] candidates_of(model.table, context)).skip(had)
            } by {
            let had = candidates_of(model.table, context).len() as int;
            assert(candidates_of(once.table, context) =~= candidates_of(once.table, context)
                + candidates_of(model.table, context).skip(had));
        }
    } else {
        lemma_passes_agree(model, tokens, k - 1);
        let token = tokens[k - 1];
        assert(tokens.take(k).drop_last() =~= tokens.take(k - 1));
        assert(tokens.take(k).last() == token);
        let first_before = learn_tokens(start, tokens.take(k - 1));
        let first = learn_tokens(start, tokens.take(k));
        let second_before = learn_tokens(line_start(once), tokens.take(k - 1));
        let second = learn_tokens(line_start(once), tokens.take(k));
        assert(first == learn_token(first_before, token));
        assert(second == learn_token(second_before, token));
        // The token has the same identifier in both passes: the vocabulary of
        // the first pass only grows, and it ends as that of the second.
        assert(tokens.take(k) + tokens.skip(k) =~= tokens);
        lemma_learn_tokens_joined(start, tokens.take(k), tokens.skip(k));
        lemma_words_extend(first, tokens.skip(k));
        lemma_learn_tokens_words_valid(start, tokens);
        lemma_learn_tokens_words_valid(start, tokens.take(k - 1));
        lemma_intern_round_trip(first_before.model.words, token);
        assert(first.model.words.contains(token));
        lemma_id_in_extension(first.model.words, once.words, token);
        let id = id_of(once.words, token) as usize;
        let window = (first_before.prev2, first_before.prev1);
        assert forall|context: (usize, usize)|
            {
                let had = candidates_of(model.table, context).len() as int;
                &&& had <= (#[trigger] candidates_of(first.model.table, context)).len()
                &&& candidates_of(second.model.table, context) == candidates_of(
                    once.table,
                    context,
                ) + candidates_of(first.model.table, context).skip(had)
            } by {
            let had = candidates_of(model.table, context).len() as int;
            assert(had <= candidates_of(first_before.model.table, context).len());
            if context == window {
                assert(candidates_of(second.model.table, context) =~= candidates_of(
                    once.table,
                    context,
                ) + candidates_of(first.model.table, context).skip(had));
            }
        }
    }
}

/// Learning a line a second time changes no word, and behind every context
/// it repeats what the first time had added there.
pub proof fn lemma_second_training_repeats(
    model: ChainModel,
    tokens: Seq<Seq<char>>,
    context: (usize, usize),
)
    requires
        valid_words(model.words),
    ensures
        trained(trained(model, tokens), tokens).words == trained(model, tokens).words,
        candidates_of(model.table, context).len() <= candidates_of(
            trained(model, tokens).table,
            context,
        ).len(),
        candidates_of(trained(trained(model, tokens), tokens).table, context) == candidates_of(
            trained(model, tokens).table,
            context,
        ) + candidates_of(trained(model, tokens).table, context).skip(
            candidates_of(model.table, context).len() as int,
        ),
{
    lemma_passes_agree(model, tokens, tokens.len() as int);
    assert(tokens.take(tokens.len() as int) =~= tokens);
    let first = learn_tokens(line_start(model), tokens);
    assert(candidates_of(first.model.table, context).len() >= 0);
}

/// Training an untrained chain twice on a line doubles the sightings of the
/// line's transitions.
pub proof fn lemma_training_twice_doubles(
    tokens: Seq<Seq<char>>,
    context: (usize, usize),
    next: usize,
)
    ensures
        sightings(trained(trained(initial_model(), tokens), tokens).table, context, next) == 2
            * sightings(trained(initial_model(), tokens).table, context, next),
{
    let once = trained(initial_model(), tokens);
    let twice = trained(once, tokens);
    assert(initial_model().words[0] != initial_model().words[1]) by {
        assert(start_surface()[0] != end_surface()[0]);
    }
    lemma_second_training_repeats(initial_model(), tokens, context);
    let seen = candidates_of(once.table, context);
    assert(seen.skip(0) =~= seen);
    vstd::seq_lib::lemma_multiset_commutative(seen, seen);
}

} // verus!
