//! Interning of word surfaces: every distinct surface gets the next free
//! identifier, and an identifier is the position of its surface in the list.

use vstd::hash_map::StringHashMap;
use vstd::prelude::*;

verus! {

/// Identifier of the synthetic marker that opens every sentence.
pub const START_ID: usize = 0;

/// Identifier of the token that closes a sentence.
pub const END_ID: usize = 1;

/// Surface of the sentence-start marker.
pub open spec fn start_surface() -> Seq<char> {
    seq!['*']
}

/// Surface of the sentence-end token, the ideographic full stop.
pub open spec fn end_surface() -> Seq<char> {
    seq!['。']
}

/// What every vocabulary looks like: the two reserved surfaces in front, and
/// no surface twice.
pub open spec fn valid_words(words: Seq<Seq<char>>) -> bool {
    &&& words.len() >= 2
    &&& words[START_ID as int] == start_surface()
    &&& words[END_ID as int] == end_surface()
    &&& words.no_duplicates()
}

/// The word list after `word` has been looked up or created.
pub open spec fn interned(words: Seq<Seq<char>>, word: Seq<char>) -> Seq<Seq<char>> {
    if words.contains(word) {
        words
    } else {
        words.push(word)
    }
}

/// The identifier under which `word` stands in `words`.
pub open spec fn id_of(words: Seq<Seq<char>>, word: Seq<char>) -> int {
    words.index_of(word)
}

/// The surface that `id` stands for, if it was ever handed out.
pub open spec fn surface_at(words: Seq<Seq<char>>, id: int) -> Option<Seq<char>> {
    if 0 <= id < words.len() {
        Some(words[id])
    } else {
        None
    }
}

/// A lookup was made with an identifier that was never handed out.
#[derive(Debug, Clone, Copy, PartialEq, Eq)]
pub enum VocabularyError {
    /// The identifier is not below the number of words.
    OutOfRange,
}

/// Two-way table between word surfaces and their identifiers.
pub struct Vocabulary {
    words: Vec<String>,
    word_hash: StringHashMap<usize>,
}

impl View for Vocabulary {
    type V = Seq<Seq<char>>;

    /// The surfaces in the order of their identifiers.
    closed spec fn view(&self) -> Seq<Seq<char>> {
        Seq::new(self.words@.len(), |i: int| self.words@[i]@)
    }
}

impl Vocabulary {
    /// The list and the map say the same: each word is mapped to its place
    /// in the list, and each key of the map is the word at the place that it
    /// is mapped to.
    pub closed spec fn consistent(&self) -> bool {
        &&& forall|i: int|
            0 <= i < self.words@.len() ==> #[trigger] self.word_hash@.contains_key(self.words@[i]@)
                && self.word_hash@[self.words@[i]@] == i
        &&& forall|w: Seq<char>| #[trigger]
            self.word_hash@.contains_key(w) ==> self.word_hash@[w] < self.words@.len()
                && self.words@[self.word_hash@[w] as int]@ == w
    }

    /// The vocabulary is consistent in itself, its word list is valid, and
    /// its words can be counted in a machine word.
    pub open spec fn wf(&self) -> bool {
        &&& self.consistent()
        &&& valid_words(self@)
        &&& self@.len() <= usize::MAX
    }

    /// A vocabulary that holds the two reserved surfaces and nothing else.
    pub fn new() -> (v: Self)
        ensures
            v.wf(),
            v@ == seq![start_surface(), end_surface()],
    {
        let mut word_hash: StringHashMap<usize> = StringHashMap::new();
        let mut words: Vec<String> = Vec::new();
        let start = "*";
        let end = "。";
        proof {
            reveal_strlit("*");
            reveal_strlit("。");
            assert(start@ =~= start_surface());
            assert(end@ =~= end_surface());
        }
        word_hash.insert(start.to_owned(), START_ID);
        word_hash.insert(end.to_owned(), END_ID);
        words.push(start.to_owned());
        words.push(end.to_owned());
        let v = Vocabulary { words, word_hash };
        proof {
            assert(v@ =~= seq![start_surface(), end_surface()]);
            assert(start_surface() != end_surface()) by {
                assert(start_surface()[0] != end_surface()[0]);
            }
        }
        v
    }

    /// Number of identifiers handed out so far.
    pub fn len(&self) -> (n: usize)
        ensures
            n == self@.len(),
    {
        self.words.len()
    }

    /// The identifier of `word`, which is created if the word is new.
    pub fn get_or_create_id(&mut self, word: &str) -> (id: usize)
        requires
            old(self).wf(),
        ensures
            final(self).wf(),
            final(self)@ == interned(old(self)@, word@),
            id == id_of(final(self)@, word@),
            id < final(self)@.len(),
            final(self)@[id as int] == word@,
    {
        let ghost before = self@;
        if let Some(found) = self.word_hash.get(word) {
            let id = *found;
            proof {
                assert(before[id as int] == word@);
                assert(before.contains(word@));
                lemma_id_unique(before, word@, id as int);
            }
            return id;
        }
        let id = self.words.len();
        proof {
            if before.contains(word@) {
                let i = before.index_of(word@);
                assert(self.word_hash@.contains_key(self.words@[i]@));
            }
        }
        self.word_hash.insert(word.to_owned(), id);
        self.words.push(word.to_owned());
        proof {
            assert(self.words.len() == self.words@.len());
            assert(self@ =~= before.push(word@));
            lemma_id_unique(self@, word@, id as int);
            assert forall|w: Seq<char>| #[trigger]
                self.word_hash@.contains_key(w) implies self.word_hash@[w] < self.words@.len()
                && self.words@[self.word_hash@[w] as int]@ == w by {
                if w != word@ {
                    assert(old(self).word_hash@.contains_key(w));
                }
            }
        }
        id
    }

    /// The surface of an identifier that is known to have been handed out.
    pub(crate) fn word(&self, id: usize) -> (s: &str)
        requires
            id < self@.len(),
        ensures
            s@ == self@[id as int],
    {
        self.words[id].as_str()
    }

    /// The surface that `id` stands for.
    pub fn surface_of(&self, id: usize) -> (r: Result<&str, VocabularyError>)
        ensures
            match r {
                Ok(s) => surface_at(self@, id as int) == Some(s@),
                Err(e) => e == VocabularyError::OutOfRange && surface_at(self@, id as int) is None,
            },
    {
        if id < self.words.len() {
            Ok(self.words[id].as_str())
        } else {
            Err(VocabularyError::OutOfRange)
        }
    }
}

/// Interning keeps a word list valid.
pub proof fn lemma_interned_valid(words: Seq<Seq<char>>, word: Seq<char>)
    requires
        valid_words(words),
    ensures
        valid_words(interned(words, word)),
{
}

/// The identifier that interning gives a word leads back to that word.
pub proof fn lemma_intern_round_trip(words: Seq<Seq<char>>, word: Seq<char>)
    requires
        valid_words(words),
    ensures
        surface_at(interned(words, word), id_of(interned(words, word), word)) == Some(word),
{
    let grown = interned(words, word);
    if !words.contains(word) {
        assert(grown[words.len() as int] == word);
    }
    assert(grown.contains(word));
}

/// Two different words of one vocabulary have different identifiers.
pub proof fn lemma_distinct_words_distinct_ids(
    words: Seq<Seq<char>>,
    first: Seq<char>,
    second: Seq<char>,
)
    requires
        valid_words(words),
        words.contains(first),
        words.contains(second),
        first != second,
    ensures
        id_of(words, first) != id_of(words, second),
{
}

/// Interning a word a second time changes nothing and gives the identifier
/// of the first time.
pub proof fn lemma_intern_twice(words: Seq<Seq<char>>, word: Seq<char>)
    requires
        valid_words(words),
    ensures
        interned(interned(words, word), word) == interned(words, word),
        id_of(interned(interned(words, word), word), word) == id_of(interned(words, word), word),
{
    lemma_intern_round_trip(words, word);
    assert(interned(words, word).contains(word));
}

/// A word keeps its identifier when other words are interned after it.
pub proof fn lemma_id_stable(words: Seq<Seq<char>>, word: Seq<char>, later: Seq<char>)
    requires
        valid_words(words),
        words.contains(word),
    ensures
        id_of(interned(words, later), word) == id_of(words, word),
{
    let i = id_of(words, word);
    assert(interned(words, later)[i] == word);
    lemma_id_unique(interned(words, later), word, i);
}

/// A word has the same identifier in a vocabulary and in every vocabulary
/// that has grown out of it.
pub proof fn lemma_id_in_extension(small: Seq<Seq<char>>, big: Seq<Seq<char>>, word: Seq<char>)
    requires
        valid_words(big),
        small.is_prefix_of(big),
        small.contains(word),
    ensures
        big.contains(word),
        id_of(big, word) == id_of(small, word),
{
    let i = id_of(small, word);
    assert(big[i] == small[i]);
    lemma_id_unique(big, word, i);
}

/// In every vocabulary the start marker has the identifier `START_ID` and
/// the end token `END_ID`, and looking them up adds no word.
pub proof fn lemma_reserved_ids(words: Seq<Seq<char>>)
    requires
        valid_words(words),
    ensures
        interned(words, start_surface()) == words,
        interned(words, end_surface()) == words,
        id_of(words, start_surface()) == START_ID,
        id_of(words, end_surface()) == END_ID,
{
    assert(words[START_ID as int] == start_surface());
    assert(words[END_ID as int] == end_surface());
    lemma_id_unique(words, start_surface(), START_ID as int);
    lemma_id_unique(words, end_surface(), END_ID as int);
}

/// In a list without duplicates a word stands at one place only.
pub proof fn lemma_id_unique(words: Seq<Seq<char>>, word: Seq<char>, i: int)
    requires
        words.no_duplicates(),
        0 <= i < words.len(),
        words[i] == word,
    ensures
        id_of(words, word) == i,
{
}

} // verus!
