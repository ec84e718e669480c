//! How a sentence comes out of a model, as mathematics: walks over the
//! transition table, their text, and what holds of both.

use crate::chain::candidates_of;
use crate::text::{lemma_without_joined, lemma_without_single, without};
use crate::training::{valid_model, ChainModel};
use crate::vocabulary::{end_surface, valid_words, END_ID};
use vstd::prelude::*;

verus! {

/// The character that marks emphasis in the corpus and never reaches a
/// generated sentence.
pub const MARKER: char = '★';

/// How many words a walk may sample before it is given up.
pub const MAX_WALK: usize = 10000;

/// Whether `next` may be sampled behind `context`: it is one of the
/// sightings there, or the end token where nothing was sighted.
pub open spec fn may_follow(
    table: Map<(usize, usize), Seq<usize>>,
    context: (usize, usize),
    next: usize,
) -> bool {
    if candidates_of(table, context).len() == 0 {
        next == END_ID
    } else {
        candidates_of(table, context).contains(next)
    }
}

/// Both words of the context have been handed out as identifiers.
pub open spec fn known_context(model: ChainModel, w1: usize, w2: usize) -> bool {
    w1 < model.words.len() && w2 < model.words.len()
}

/// A walk from the context `(w1, w2)`: it starts with these two, every later
/// word may follow the two before it, and only the last one may be the end
/// token.
pub open spec fn is_walk(model: ChainModel, w1: usize, w2: usize, ids: Seq<usize>) -> bool {
    &&& ids.len() >= 2
    &&& ids[0] == w1
    &&& ids[1] == w2
    &&& forall|k: int|
        0 <= k < ids.len() ==> #[trigger] ids[k] < model.words.len()
    &&& forall|k: int|
        2 <= k < ids.len() ==> may_follow(model.table, (ids[k - 2], ids[k - 1]), #[trigger] ids[k])
    &&& forall|k: int| 2 <= k < ids.len() - 1 ==> #[trigger] ids[k] != END_ID
}

/// A walk that has reached the end token.
pub open spec fn is_sentence(model: ChainModel, w1: usize, w2: usize, ids: Seq<usize>) -> bool {
    &&& is_walk(model, w1, w2, ids)
    &&& ids.len() >= 3
    &&& ids.last() == END_ID
}

/// A walk that sampled `MAX_WALK` words and none of them was the end token.
pub open spec fn is_endless(model: ChainModel, w1: usize, w2: usize, ids: Seq<usize>) -> bool {
    &&& is_walk(model, w1, w2, ids)
    &&& ids.len() == MAX_WALK + 2
    &&& ids.last() != END_ID
}

/// The surfaces of `ids`, one after the other.
pub open spec fn spelled(words: Seq<Seq<char>>, ids: Seq<usize>) -> Seq<char>
    decreases ids.len(),
{
    if ids.len() == 0 {
        Seq::empty()
    } else {
        spelled(words, ids.drop_last()) + words[ids.last() as int]
    }
}

/// The text of a walk: its surfaces without the emphasis marker.
pub open spec fn rendered(words: Seq<Seq<char>>, ids: Seq<usize>) -> Seq<char> {
    without(spelled(words, ids), MARKER)
}

/// `text` is a sentence that a walk from `(w1, w2)` can give.
pub open spec fn is_generated(model: ChainModel, w1: usize, w2: usize, text: Seq<char>) -> bool {
    exists|ids: Seq<usize>| #[trigger]
        is_sentence(model, w1, w2, ids) && ids.len() <= MAX_WALK + 2 && text == rendered(
            model.words,
            ids,
        )
}

/// Some walk from `(w1, w2)` goes on for `MAX_WALK` words without an end.
pub open spec fn may_run_on(model: ChainModel, w1: usize, w2: usize) -> bool {
    exists|ids: Seq<usize>| #[trigger] is_endless(model, w1, w2, ids)
}

/// The word that the number `pick` selects behind `context`: the sighting
/// at the place `pick` modulo their number, or the end token where nothing
/// was sighted.
pub open spec fn picked(
    table: Map<(usize, usize), Seq<usize>>,
    context: (usize, usize),
    pick: usize,
) -> usize {
    let seen = candidates_of(table, context);
    if seen.len() == 0 {
        END_ID
    } else {
        seen[(pick as int) % (seen.len() as int)]
    }
}

/// The walk has sampled the end token.
pub open spec fn has_ended(ids: Seq<usize>) -> bool {
    ids.len() > 2 && ids.last() == END_ID
}

/// The walk from `(w1, w2)` that `picks` steers: each number selects one
/// more word, until the end token is reached or the numbers run out.
pub open spec fn steered(
    table: Map<(usize, usize), Seq<usize>>,
    w1: usize,
    w2: usize,
    picks: Seq<usize>,
) -> Seq<usize>
    decreases picks.len(),
{
    if picks.len() == 0 {
        seq![w1, w2]
    } else {
        let walk = steered(table, w1, w2, picks.drop_last());
        if has_ended(walk) {
            walk
        } else {
            walk.push(picked(table, (walk[walk.len() - 2], walk[walk.len() - 1]), picks.last()))
        }
    }
}

/// Spelling one more word appends its surface.
pub proof fn lemma_spelled_push(words: Seq<Seq<char>>, ids: Seq<usize>, next: usize)
    ensures
        spelled(words, ids.push(next)) == spelled(words, ids) + words[next as int],
{
    assert(ids.push(next).drop_last() =~= ids);
}

/// A walk stays a walk when a word that may follow its last two is added,
/// as long as it had not ended.
pub proof fn lemma_walk_push(model: ChainModel, w1: usize, w2: usize, ids: Seq<usize>, next: usize)
    requires
        is_walk(model, w1, w2, ids),
        ids.len() == 2 || ids.last() != END_ID,
        may_follow(model.table, (ids[ids.len() - 2], ids[ids.len() - 1]), next),
        next < model.words.len(),
    ensures
        is_walk(model, w1, w2, ids.push(next)),
{
    let longer = ids.push(next);
    assert forall|k: int| 2 <= k < longer.len() implies may_follow(
        model.table,
        (longer[k - 2], longer[k - 1]),
        #[trigger] longer[k],
    ) by {
        if k < ids.len() {
            assert(may_follow(model.table, (ids[k - 2], ids[k - 1]), ids[k]));
        }
    }
}

/// Every generated sentence closes with the ideographic full stop.
pub proof fn lemma_sentence_closes(model: ChainModel, w1: usize, w2: usize, text: Seq<char>)
    requires
        valid_words(model.words),
        is_generated(model, w1, w2, text),
    ensures
        text.len() > 0,
        text.last() == '。',
{
    let ids = choose|ids: Seq<usize>| #[trigger]
        is_sentence(model, w1, w2, ids) && ids.len() <= MAX_WALK + 2 && text == rendered(
            model.words,
            ids,
        );
    let head = spelled(model.words, ids.drop_last());
    assert(spelled(model.words, ids) == head + end_surface());
    lemma_without_joined(head, end_surface(), MARKER);
    lemma_without_single('。', MARKER);
    assert(text =~= without(head, MARKER) + seq!['。']);
}

/// Behind a context without sightings there is one sentence only: the two
/// words of the context and the end token. No walk from there runs on.
pub proof fn lemma_unseen_context(model: ChainModel, w1: usize, w2: usize, text: Seq<char>)
    requires
        candidates_of(model.table, (w1, w2)).len() == 0,
    ensures
        is_generated(model, w1, w2, text) ==> text == rendered(
            model.words,
            seq![w1, w2, END_ID],
        ),
        !may_run_on(model, w1, w2),
{
    if is_generated(model, w1, w2, text) {
        let ids = choose|ids: Seq<usize>| #[trigger]
            is_sentence(model, w1, w2, ids) && ids.len() <= MAX_WALK + 2 && text == rendered(
                model.words,
                ids,
            );
        assert(may_follow(model.table, (ids[0], ids[1]), ids[2]));
        assert(ids =~= seq![w1, w2, END_ID]);
    }
    if may_run_on(model, w1, w2) {
        let ids = choose|ids: Seq<usize>| #[trigger] is_endless(model, w1, w2, ids);
        assert(may_follow(model.table, (ids[0], ids[1]), ids[2]));
        assert(ids[2] != END_ID);
    }
}

/// What a number selects may follow.
pub proof fn lemma_picked_may_follow(
    table: Map<(usize, usize), Seq<usize>>,
    context: (usize, usize),
    pick: usize,
)
    ensures
        may_follow(table, context, picked(table, context, pick)),
{
    let seen = candidates_of(table, context);
    if seen.len() > 0 {
        let at = (pick as int) % (seen.len() as int);
        assert(seen[at] == picked(table, context, pick));
    }
}

/// Once a steered walk has ended, further numbers change nothing; and while
/// it has not, it has used all of them.
pub proof fn lemma_steered_stays(
    table: Map<(usize, usize), Seq<usize>>,
    w1: usize,
    w2: usize,
    picks: Seq<usize>,
    used: int,
)
    requires
        0 <= used <= picks.len(),
        used == picks.len() || has_ended(steered(table, w1, w2, picks.take(used))),
    ensures
        steered(table, w1, w2, picks) == steered(table, w1, w2, picks.take(used)),
    decreases picks.len() - used,
{
    if used == picks.len() {
        assert(picks.take(used) =~= picks);
    } else {
        assert(picks.drop_last().take(used) =~= picks.take(used));
        lemma_steered_stays(table, w1, w2, picks.drop_last(), used);
    }
}

/// A steered walk is a walk.
pub proof fn lemma_steered_is_walk(model: ChainModel, w1: usize, w2: usize, picks: Seq<usize>)
    requires
        valid_model(model),
        w1 < model.words.len(),
        w2 < model.words.len(),
    ensures
        is_walk(model, w1, w2, steered(model.table, w1, w2, picks)),
        steered(model.table, w1, w2, picks).len() <= picks.len() + 2,
    decreases picks.len(),
{
    if picks.len() > 0 {
        lemma_steered_is_walk(model, w1, w2, picks.drop_last());
        let walk = steered(model.table, w1, w2, picks.drop_last());
        if !has_ended(walk) {
            let context = (walk[walk.len() - 2], walk[walk.len() - 1]);
            let next = picked(model.table, context, picks.last());
            lemma_picked_may_follow(model.table, context, picks.last());
            let seen = candidates_of(model.table, context);
            if seen.len() > 0 {
                assert(model.table[context][(picks.last() as int) % (seen.len() as int)]
                    < model.words.len());
            }
            lemma_walk_push(model, w1, w2, walk, next);
        }
    }
}

} // verus!
