use study_rust::munou::MarkovChain;
use study_rust::session::{
    is_too_short, reply_to_seed, respond, seed_words, SessionError, SessionState, NOUN_MARK,
};
use study_rust::tokenizer::MAX_TEXT;
use study_rust::text::is_blank;
use study_rust::tokenizer::Token;
use vibrato::{Dictionary, SystemDictionaryBuilder};

fn dictionary() -> Dictionary {
    let lexicon = "猫,0,0,1,名詞,普通名詞\nが,0,0,1,助詞\n好き,0,0,1,形状詞\nだ,0,0,1,助動詞\n。,0,0,1,補助記号\n★魚,0,0,1,代名詞\n吾輩,0,0,1,名詞";
    let matrix = "1 1\n0 0 0";
    let chars = "DEFAULT 0 1 0";
    let unknown = "DEFAULT,0,0,100,*";
    SystemDictionaryBuilder::from_readers(
        lexicon.as_bytes(),
        matrix.as_bytes(),
        chars.as_bytes(),
        unknown.as_bytes(),
    )
    .unwrap()
}

fn trained() -> MarkovChain {
    let mut markov = MarkovChain::new(dictionary());
    markov.train("猫が好きだ。").unwrap();
    markov
}

fn token(surface: &str, feature: &str) -> Token {
    Token { surface: surface.to_string(), feature: feature.to_string() }
}

#[test]
fn blank_line_ends_the_session_without_a_response() {
    let mut markov = trained();
    let turn = respond(&mut markov, SessionState::WaitingForInput, "\n").unwrap();
    assert_eq!(turn.state, SessionState::Terminated);
    assert_eq!(turn.response, None);
    assert_eq!(markov.word_count(), 6);
}

#[test]
fn white_space_of_any_kind_is_blank() {
    for input in ["", " ", "\n", "\r\n", " \t \n", "\u{3000}\n", "\u{a0}\u{2028}"] {
        assert!(is_blank(input));
        let mut markov = trained();
        let turn = respond(&mut markov, SessionState::WaitingForInput, input).unwrap();
        assert_eq!(turn.state, SessionState::Terminated);
        assert_eq!(turn.response, None);
    }
    for input in ["a", " a \n", "\n。", "\u{200b}"] {
        assert!(!is_blank(input));
    }
}

#[test]
fn ended_session_stays_ended() {
    let mut markov = trained();
    let turn = respond(&mut markov, SessionState::Terminated, "猫\n").unwrap();
    assert_eq!(turn.state, SessionState::Terminated);
    assert_eq!(turn.response, None);
    assert_eq!(markov.word_count(), 6);
}

#[test]
fn noun_of_the_input_starts_the_response() {
    let mut markov = trained();
    let turn = respond(&mut markov, SessionState::WaitingForInput, "猫\n").unwrap();
    assert_eq!(turn.state, SessionState::WaitingForInput);
    assert_eq!(turn.response, Some("*猫が好きだ。".to_string()));
    let turn = respond(&mut markov, SessionState::WaitingForInput, "だが猫だ").unwrap();
    assert_eq!(turn.response, Some("*猫が好きだ。".to_string()));
    assert_eq!(markov.word_count(), 6);
}

#[test]
fn input_without_a_noun_gets_any_sentence() {
    let mut markov = trained();
    let turn = respond(&mut markov, SessionState::WaitingForInput, "好きだ。\n").unwrap();
    assert_eq!(turn.state, SessionState::WaitingForInput);
    assert_eq!(turn.response, Some("**猫が好きだ。".to_string()));
    assert_eq!(markov.word_count(), 6);
}

#[test]
fn seed_that_yields_too_little_falls_back() {
    let mut markov = trained();
    let turn = respond(&mut markov, SessionState::WaitingForInput, "★魚\n").unwrap();
    assert_eq!(turn.state, SessionState::WaitingForInput);
    assert_eq!(turn.response, Some("**猫が好きだ。".to_string()));
    assert_eq!(markov.word_count(), 7);
    assert_eq!(markov.surface_of(6), Ok("★魚"));
}

#[test]
fn seed_of_two_characters_that_nothing_follows_falls_back() {
    let mut markov = trained();
    let turn = respond(&mut markov, SessionState::WaitingForInput, "吾輩\n").unwrap();
    assert_eq!(turn.state, SessionState::WaitingForInput);
    assert_eq!(turn.response, Some("**猫が好きだ。".to_string()));
    assert_eq!(markov.surface_of(6), Ok("吾輩"));
    assert_eq!(markov.generate_text(0, 6), Ok("*吾輩。".to_string()));
    assert_eq!(reply_to_seed(&mut markov, "ab"), Ok("**猫が好きだ。".to_string()));
    assert_eq!(markov.generate_text(0, 7), Ok("*ab。".to_string()));
}

#[test]
fn reply_to_unknown_seed_creates_the_word() {
    let mut markov = trained();
    assert_eq!(reply_to_seed(&mut markov, "犬"), Ok("**猫が好きだ。".to_string()));
    assert_eq!(markov.word_count(), 7);
    assert_eq!(markov.surface_of(6), Ok("犬"));
    assert_eq!(reply_to_seed(&mut markov, "猫"), Ok("*猫が好きだ。".to_string()));
    assert_eq!(reply_to_seed(&mut markov, "が"), Ok("**猫が好きだ。".to_string()));
    assert_eq!(markov.word_count(), 7);
}

#[test]
fn seeded_sentence_of_just_enough_characters_is_kept() {
    let mut markov = MarkovChain::new(dictionary());
    markov.train_tokens(&vec!["犬".to_string(), "だ".to_string(), "よ".to_string(), "。".to_string()]);
    assert_eq!(reply_to_seed(&mut markov, "犬"), Ok("*犬だよ。".to_string()));
    let mut markov = MarkovChain::new(dictionary());
    markov.train_tokens(&vec!["犬".to_string(), "だ".to_string(), "。".to_string()]);
    assert_eq!(reply_to_seed(&mut markov, "犬"), Ok("**犬だ。".to_string()));
}

#[test]
fn response_needs_four_characters_more_than_its_seed() {
    assert!(is_too_short("ab", "*ab"));
    assert!(is_too_short("ab", "*ab。"));
    assert!(is_too_short("ab", "12345"));
    assert!(!is_too_short("ab", "123456"));
    assert!(!is_too_short("ab", "*abcd。"));
    assert!(is_too_short("", ""));
    assert!(is_too_short("", "abc"));
    assert!(!is_too_short("", "abcd"));
    assert!(is_too_short("猫", "*猫。"));
    assert!(is_too_short("猫", "*猫が好"));
    assert!(!is_too_short("猫", "*猫が好き"));
    assert!(is_too_short("吾輩", "*吾輩。"));
    assert!(is_too_short("吾輩", "吾輩吾輩吾"));
    assert!(!is_too_short("吾輩", "吾輩吾輩吾輩"));
}

#[test]
fn line_beyond_the_greatest_length_is_refused() {
    let mut markov = trained();
    let input = "猫".repeat(MAX_TEXT + 1);
    let refused = respond(&mut markov, SessionState::WaitingForInput, &input);
    assert!(matches!(refused, Err(SessionError::TooLong)));
    assert_eq!(markov.word_count(), 6);
    let blank = " ".repeat(MAX_TEXT + 1);
    let turn = respond(&mut markov, SessionState::WaitingForInput, &blank).unwrap();
    assert_eq!(turn.state, SessionState::Terminated);
    let input = "猫".repeat(MAX_TEXT);
    let turn = respond(&mut markov, SessionState::WaitingForInput, &input).unwrap();
    assert_eq!(turn.response, Some("*猫が好きだ。".to_string()));
}

#[test]
fn seeds_are_the_nouns_with_a_surface() {
    let tokens = vec![
        token("猫", "名詞,普通名詞,一般"),
        token("が", "助詞,格助詞"),
        token("", "名詞"),
        token("それ", "代名詞"),
        token("東京", "固有名詞,地名"),
        token("好き", "形状詞,名"),
        token("\n", "*"),
        token("名詞", "記号"),
    ];
    assert_eq!(NOUN_MARK, "名詞");
    assert_eq!(
        seed_words(&tokens, NOUN_MARK),
        vec!["猫".to_string(), "それ".to_string(), "東京".to_string()]
    );
    assert_eq!(seed_words(&tokens, "助詞"), vec!["が".to_string()]);
    assert_eq!(seed_words(&tokens, "動詞"), Vec::<String>::new());
    assert_eq!(seed_words(&tokens, "").len(), 7);
    assert_eq!(seed_words(&Vec::new(), NOUN_MARK), Vec::<String>::new());
}
