use study_rust::cleaner::{remove_matches, InvalidPattern};
use study_rust::munou::{GenerationError, MarkovChain, TrainError, CLEAN_PATTERN};
use study_rust::tokenizer::MAX_TEXT;
use study_rust::walk::MAX_WALK;
use study_rust::vocabulary::{VocabularyError, END_ID, START_ID};
use vibrato::{Dictionary, SystemDictionaryBuilder};

fn dictionary() -> Dictionary {
    let lexicon = "猫,0,0,1,名詞\nが,0,0,1,助詞\n好き,0,0,1,形状詞\nだ,0,0,1,助動詞\n。,0,0,1,補助記号";
    let matrix = "1 1\n0 0 0";
    let chars = "DEFAULT 0 1 0";
    let unknown = "DEFAULT,0,0,100,*";
    SystemDictionaryBuilder::from_readers(
        lexicon.as_bytes(),
        matrix.as_bytes(),
        chars.as_bytes(),
        unknown.as_bytes(),
    )
    .unwrap()
}

fn line(words: &[&str]) -> Vec<String> {
    words.iter().map(|w| w.to_string()).collect()
}

#[test]
fn reserved_ids_precede_training() {
    let mut markov = MarkovChain::new(dictionary());
    assert_eq!(markov.word_count(), 2);
    assert_eq!(markov.get_word_id("*"), 0);
    assert_eq!(markov.get_word_id("。"), 1);
    assert_eq!(START_ID, 0);
    assert_eq!(END_ID, 1);
    assert_eq!(markov.word_count(), 2);
    assert_eq!(markov.candidates(START_ID, START_ID), None);
}

#[test]
fn word_id_round_trip() {
    let mut markov = MarkovChain::new(dictionary());
    let id = markov.get_word_id("猫");
    assert_eq!(id, 2);
    assert_eq!(markov.surface_of(id), Ok("猫"));
    assert_eq!(markov.get_word_id("猫"), id);
    assert_ne!(markov.get_word_id("犬"), id);
    assert_eq!(markov.surface_of(99), Err(VocabularyError::OutOfRange));
}

#[test]
fn text_is_cut_into_surfaces() {
    let markov = MarkovChain::new(dictionary());
    assert_eq!(markov.split("猫が好きだ。"), Some(line(&["猫", "が", "好き", "だ", "。"])));
    assert_eq!(markov.split(""), Some(line(&[])));
}

#[test]
fn tokens_carry_their_features() {
    let markov = MarkovChain::new(dictionary());
    let tokens = markov.analyze("猫が").unwrap();
    assert_eq!(tokens.len(), 2);
    assert_eq!(tokens[0].surface, "猫");
    assert_eq!(tokens[0].feature, "名詞");
    assert_eq!(tokens[1].surface, "が");
    assert_eq!(tokens[1].feature, "助詞");
}

#[test]
fn training_records_each_word_behind_the_two_before() {
    let mut markov = MarkovChain::new(dictionary());
    markov.train_tokens(&line(&["猫", "が", "好き", "だ", "。"]));
    assert_eq!(markov.word_count(), 6);
    assert_eq!(markov.candidates(0, 0), Some(&vec![2]));
    assert_eq!(markov.candidates(0, 2), Some(&vec![3]));
    assert_eq!(markov.candidates(2, 3), Some(&vec![4]));
    assert_eq!(markov.candidates(3, 4), Some(&vec![5]));
    assert_eq!(markov.candidates(4, 5), Some(&vec![1]));
    assert_eq!(markov.candidates(5, 1), None);
}

#[test]
fn training_twice_doubles_the_sightings() {
    let tokens = line(&["a", "b", "a", "b", "a", "c"]);
    let mut markov = MarkovChain::new(dictionary());
    markov.train_tokens(&tokens);
    assert_eq!(markov.candidates(0, 0), Some(&vec![2]));
    assert_eq!(markov.candidates(0, 2), Some(&vec![3]));
    assert_eq!(markov.candidates(2, 3), Some(&vec![2, 2]));
    assert_eq!(markov.candidates(3, 2), Some(&vec![3, 4]));
    markov.train_tokens(&tokens);
    assert_eq!(markov.word_count(), 5);
    assert_eq!(markov.candidates(0, 0), Some(&vec![2, 2]));
    assert_eq!(markov.candidates(0, 2), Some(&vec![3, 3]));
    assert_eq!(markov.candidates(2, 3), Some(&vec![2, 2, 2, 2]));
    assert_eq!(markov.candidates(3, 2), Some(&vec![3, 4, 3, 4]));
}

#[test]
fn sentences_have_contexts_of_their_own() {
    let mut markov = MarkovChain::new(dictionary());
    markov.train_tokens(&line(&["A", "B", "。"]));
    markov.train_tokens(&line(&["C", "D", "。"]));
    let (a, b, c, d) = (2, 3, 4, 5);
    assert_eq!(markov.surface_of(a), Ok("A"));
    assert_eq!(markov.surface_of(d), Ok("D"));
    assert_eq!(markov.candidates(START_ID, START_ID), Some(&vec![a, c]));
    assert_eq!(markov.candidates(START_ID, a), Some(&vec![b]));
    assert_eq!(markov.candidates(START_ID, c), Some(&vec![d]));
    assert_eq!(markov.candidates(a, b), Some(&vec![END_ID]));
    assert_eq!(markov.candidates(c, d), Some(&vec![END_ID]));
    assert_eq!(markov.candidates(b, END_ID), None);
    assert_eq!(markov.candidates(END_ID, c), None);
    assert_eq!(markov.candidates(b, c), None);
    assert_eq!(markov.candidates(a, d), None);
    assert_eq!(markov.candidates(c, b), None);
}

#[test]
fn two_sentences_in_one_line_are_two_lines() {
    let mut one = MarkovChain::new(dictionary());
    one.train_tokens(&line(&["A", "B", "。", "C", "D", "。"]));
    let mut two = MarkovChain::new(dictionary());
    two.train_tokens(&line(&["A", "B", "。"]));
    two.train_tokens(&line(&["C", "D", "。"]));
    assert_eq!(one.word_count(), two.word_count());
    for prev2 in 0..one.word_count() {
        for prev1 in 0..one.word_count() {
            assert_eq!(one.candidates(prev2, prev1), two.candidates(prev2, prev1));
        }
    }
    assert_eq!(one.candidates(START_ID, START_ID), Some(&vec![2, 4]));
}

#[test]
fn line_without_end_token_records_no_end() {
    let mut markov = MarkovChain::new(dictionary());
    markov.train_tokens(&line(&["猫", "が"]));
    assert_eq!(markov.candidates(0, 0), Some(&vec![2]));
    assert_eq!(markov.candidates(0, 2), Some(&vec![3]));
    assert_eq!(markov.candidates(2, 3), None);
    assert_eq!(markov.generate(), Ok("**猫が。".to_string()));
}

#[test]
fn empty_line_teaches_nothing() {
    let mut markov = MarkovChain::new(dictionary());
    markov.train_tokens(&line(&[]));
    assert_eq!(markov.word_count(), 2);
    assert_eq!(markov.candidates(0, 0), None);
    assert_eq!(markov.train(""), Ok(()));
    assert_eq!(markov.word_count(), 2);
    assert_eq!(markov.generate(), Ok("**。".to_string()));
}

#[test]
fn single_line_is_reproduced() {
    let mut markov = MarkovChain::new(dictionary());
    assert_eq!(markov.train("猫が好きだ。"), Ok(()));
    let text = markov.generate().unwrap();
    assert_eq!(text, "**猫が好きだ。");
    assert!(text.ends_with("。"));
    assert_eq!(markov.generate_text(START_ID, 2), Ok("*猫が好きだ。".to_string()));
    assert_eq!(markov.generate_text(2, 3), Ok("猫が好きだ。".to_string()));
}

#[test]
fn raw_line_is_cleaned_before_it_is_cut() {
    let mut markov = MarkovChain::new(dictionary());
    assert_eq!(markov.train("「猫」が ｜好き《すき》-だ［＃注］\u{3000}。\n"), Ok(()));
    assert_eq!(markov.word_count(), 6);
    assert_eq!(markov.surface_of(2), Ok("猫"));
    assert_eq!(markov.surface_of(4), Ok("好き"));
    assert_eq!(markov.generate(), Ok("**猫が好きだ。".to_string()));
}

#[test]
fn unseen_context_ends_the_sentence() {
    let mut markov = MarkovChain::new(dictionary());
    let id = markov.get_word_id("猫");
    assert_eq!(markov.generate_text(START_ID, id), Ok("*猫。".to_string()));
    assert_eq!(markov.generate_text(id, id), Ok("猫猫。".to_string()));
    assert_eq!(markov.generate_text(END_ID, END_ID), Ok("。。。".to_string()));
    assert_eq!(markov.generate_next_id(id, id), END_ID);
}

#[test]
fn marker_is_taken_out_of_the_sentence() {
    let mut markov = MarkovChain::new(dictionary());
    markov.train_tokens(&line(&["★猫★", "が", "★", "。"]));
    assert_eq!(markov.surface_of(2), Ok("★猫★"));
    assert_eq!(markov.generate(), Ok("**猫が。".to_string()));
}

#[test]
fn next_word_is_one_of_the_sightings() {
    let mut markov = MarkovChain::new(dictionary());
    markov.train_tokens(&line(&["a", "b", "。"]));
    markov.train_tokens(&line(&["a", "c", "。"]));
    markov.train_tokens(&line(&["a", "c", "。"]));
    assert_eq!(markov.candidates(0, 2), Some(&vec![3, 4, 4]));
    let mut seen = [0usize; 5];
    for _ in 0..400 {
        let next = markov.generate_next_id(0, 2);
        assert!(next == 3 || next == 4);
        seen[next] += 1;
    }
    assert!(seen[3] > 0);
    assert!(seen[4] > seen[3]);
    for _ in 0..50 {
        let text = markov.generate().unwrap();
        assert!(text == "**ab。" || text == "**ac。");
    }
}

#[test]
fn endless_chain_is_truncated() {
    let mut markov = MarkovChain::new(dictionary());
    markov.train_tokens(&line(&["a", "a", "a", "a"]));
    assert_eq!(markov.candidates(2, 2), Some(&vec![2, 2]));
    assert_eq!(markov.generate(), Err(GenerationError::Truncated));
    assert_eq!(markov.generate_text(2, 2), Err(GenerationError::Truncated));
    assert_eq!(MAX_WALK, 10000);
}

#[test]
fn generating_leaves_the_model_alone() {
    let mut markov = MarkovChain::new(dictionary());
    markov.train_tokens(&line(&["猫", "が", "好き", "だ", "。"]));
    let words = markov.word_count();
    for _ in 0..3 {
        assert_eq!(markov.generate(), Ok("**猫が好きだ。".to_string()));
    }
    assert_eq!(markov.word_count(), words);
    assert_eq!(markov.candidates(0, 0), Some(&vec![2]));
}

fn branching() -> MarkovChain {
    let mut markov = MarkovChain::new(dictionary());
    markov.train_tokens(&line(&["a", "b", "。"]));
    markov.train_tokens(&line(&["a", "c", "。"]));
    markov.train_tokens(&line(&["a", "c", "d", "。"]));
    markov
}

#[test]
fn numbers_select_the_next_word() {
    let markov = branching();
    assert_eq!(markov.candidates(0, 2), Some(&vec![3, 4, 4]));
    assert_eq!(markov.pick_next_id(0, 2, 0), 3);
    assert_eq!(markov.pick_next_id(0, 2, 1), 4);
    assert_eq!(markov.pick_next_id(0, 2, 2), 4);
    assert_eq!(markov.pick_next_id(0, 2, 3), 3);
    assert_eq!(markov.pick_next_id(0, 2, usize::MAX), [3, 4, 4][usize::MAX % 3]);
    assert_eq!(markov.pick_next_id(2, 4, 0), END_ID);
    assert_eq!(markov.pick_next_id(2, 4, 1), 5);
    assert_eq!(markov.pick_next_id(5, 5, 7), END_ID);
}

#[test]
fn numbers_steer_the_sentence() {
    let markov = branching();
    assert_eq!(markov.generate_text_with(0, 0, &vec![0, 0, 0]), Ok("**ab。".to_string()));
    assert_eq!(markov.generate_text_with(0, 0, &vec![5, 4, 3, 7]), Ok("**acd。".to_string()));
    assert_eq!(markov.generate_text_with(0, 0, &vec![1, 1, 0]), Ok("**ac。".to_string()));
    assert_eq!(markov.generate_text_with(0, 2, &vec![1, 1, 0]), Ok("*acd。".to_string()));
    assert_eq!(markov.generate_text_with(4, 5, &vec![8]), Ok("cd。".to_string()));
}

#[test]
fn numbers_left_over_are_not_used() {
    let markov = branching();
    assert_eq!(markov.generate_text_with(0, 0, &vec![0, 0, 0, 9, 9]), Ok("**ab。".to_string()));
}

#[test]
fn too_few_numbers_give_no_sentence() {
    let markov = branching();
    assert_eq!(markov.generate_text_with(0, 0, &vec![]), Err(GenerationError::Truncated));
    assert_eq!(markov.generate_text_with(0, 0, &vec![0, 1]), Err(GenerationError::Truncated));
    assert_eq!(markov.generate_text_with(0, 0, &vec![0, 1, 1]), Err(GenerationError::Truncated));
    assert_eq!(markov.generate_text_with(1, 1, &vec![]), Err(GenerationError::Truncated));
    assert_eq!(markov.generate_text_with(1, 1, &vec![0]), Ok("。。。".to_string()));
}

#[test]
fn random_sentences_are_steered_sentences() {
    let markov = branching();
    for _ in 0..100 {
        let text = markov.generate_text(0, 0).unwrap();
        assert!(text == "**ab。" || text == "**ac。" || text == "**acd。");
    }
}

#[test]
fn matches_are_cut_out() {
    assert_eq!(remove_matches("b+", "abbbcbd"), Ok("acd".to_string()));
    assert_eq!(remove_matches("x", "abc"), Ok("abc".to_string()));
    assert_eq!(remove_matches("", "abc"), Ok("abc".to_string()));
    assert_eq!(remove_matches(".*?", ""), Ok("".to_string()));
}

#[test]
fn broken_pattern_is_refused() {
    assert_eq!(remove_matches("(", "abc"), Err(InvalidPattern));
    assert_eq!(remove_matches("[a", ""), Err(InvalidPattern));
}

#[test]
fn cleaning_pattern_takes_out_what_is_not_text() {
    assert_eq!(
        remove_matches(CLEAN_PATTERN, "吾輩《わがはい》は｜猫《ねこ》である。"),
        Ok("吾輩は猫である。".to_string())
    );
    assert_eq!(
        remove_matches(CLEAN_PATTERN, "「名前は\u{3000}まだ 無い」［＃「無い」に傍点］\t-\n"),
        Ok("名前はまだ無い".to_string())
    );
    assert_eq!(remove_matches(CLEAN_PATTERN, "『a』 b\t-c\n《x》y《z"), Ok("abcy《z".to_string()));
    assert_eq!(remove_matches(CLEAN_PATTERN, "a《b\nc》d"), Ok("a《bc》d".to_string()));
}

#[test]
fn unknown_identifier_starts_no_sentence() {
    let mut markov = MarkovChain::new(dictionary());
    markov.train_tokens(&line(&["猫", "が", "好き", "だ", "。"]));
    assert_eq!(markov.word_count(), 6);
    assert_eq!(markov.generate_text(6, 0), Err(GenerationError::InvalidIdentifier));
    assert_eq!(markov.generate_text(0, 6), Err(GenerationError::InvalidIdentifier));
    assert_eq!(markov.generate_text(usize::MAX, usize::MAX), Err(GenerationError::InvalidIdentifier));
    assert_eq!(markov.generate_text(5, 1), Ok("だ。。".to_string()));
    assert_eq!(markov.generate_text_with(6, 0, &vec![0]), Err(GenerationError::InvalidIdentifier));
    assert_eq!(markov.generate_text_with(0, 99, &vec![]), Err(GenerationError::InvalidIdentifier));
    assert_eq!(markov.generate_text_with(0, 5, &vec![0]), Ok("*だ。".to_string()));
    assert_eq!(markov.word_count(), 6);
}

#[test]
fn line_of_the_greatest_length_is_learnt() {
    let mut markov = MarkovChain::new(dictionary());
    let text = "猫".repeat(MAX_TEXT);
    assert_eq!(markov.split(&text).map(|words| words.len()), Some(MAX_TEXT));
    assert_eq!(markov.train(&text), Ok(()));
    assert_eq!(markov.word_count(), 3);
    assert_eq!(markov.candidates(2, 2).map(|seen| seen.len()), Some(MAX_TEXT - 2));
}

#[test]
fn longer_line_is_refused() {
    let mut markov = MarkovChain::new(dictionary());
    let text = "猫".repeat(MAX_TEXT + 1);
    assert!(markov.split(&text).is_none());
    assert!(markov.analyze(&text).is_none());
    assert_eq!(markov.train(&text), Err(TrainError::TooLong));
    assert_eq!(markov.word_count(), 2);
    assert_eq!(markov.candidates(0, 0), None);
    let padded = format!("{}{}", " ".repeat(10), "猫".repeat(MAX_TEXT));
    assert_eq!(markov.train(&padded), Ok(()));
    assert_eq!(MAX_TEXT, 30000);
}
