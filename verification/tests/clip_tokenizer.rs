use quartz::clip_tokenizer::{pre_tokenize, ClipError, ClipTokenizer};

const VOCABULARY: &str = r#"{"<|startoftext|>":0,"<|endoftext|>":1,"h":2,"e":3,"l":4,"o</w>":5,"he":6,"hel":7,"hell":8,"hello</w>":9,"!</w>":10}"#;
const MERGES: &str = "#version: 0.2\nh e\nhe l\nhel l\nhell o</w>\n";

#[test]
fn appends_end_of_word_and_pads_with_eos() {
    let tokenizer = match ClipTokenizer::from_texts(VOCABULARY, MERGES) {
        Ok(tokenizer) => tokenizer,
        Err(error) => panic!("{}", error.message()),
    };
    let ids = tokenizer.encode("  HELLO!  ");
    assert_eq!(&ids[..4], &[0, 9, 10, 1]);
    assert!(ids[4..].iter().all(|id| *id == 1));
}

#[test]
fn pretokenizer_matches_clip_token_classes() {
    assert_eq!(
        pre_tokenize("Robot's 42 red... balloons!"),
        vec!["robot", "'s", "4", "2", "red", "...", "balloons", "!"]
    );
}

#[test]
fn words_are_merged_by_rank() {
    let tokenizer = match ClipTokenizer::from_texts(VOCABULARY, MERGES) {
        Ok(tokenizer) => tokenizer,
        Err(error) => panic!("{}", error.message()),
    };
    assert_eq!(tokenizer.bpe("hello"), vec!["hello</w>"]);
    assert_eq!(tokenizer.bpe("help"), vec!["hel", "p</w>"]);
}

#[test]
fn broken_vocabularies_are_refused() {
    assert!(ClipTokenizer::from_texts("[]", MERGES).is_err());
    assert!(ClipTokenizer::from_texts("{", MERGES).is_err());
    for broken in [r#"{"a":-1,"a":2}"#, r#"{"a":4294967296}"#, r#"{"a":1.5}"#] {
        assert_eq!(
            ClipTokenizer::from_texts(broken, MERGES).err(),
            Some(ClipError::InvalidVocabulary)
        );
    }
    assert_eq!(ClipTokenizer::from_texts("{}", MERGES).err(), Some(ClipError::EmptyVocabulary));
    let entries = [("<|startoftext|>".to_string(), 7)];
    assert_eq!(ClipTokenizer::from_entries(&entries, MERGES).err(), Some(ClipError::MissingEnd));
    let error: Option<ClipError> = ClipTokenizer::from_texts(r#"{"a":0}"#, MERGES).err();
    assert!(error.unwrap().message().contains("startoftext"));
}

#[test]
fn long_prompts_are_cut_to_the_context() {
    let tokenizer = match ClipTokenizer::from_texts(VOCABULARY, MERGES) {
        Ok(tokenizer) => tokenizer,
        Err(error) => panic!("{}", error.message()),
    };
    let ids = tokenizer.encode(&"hello ".repeat(200));
    assert_eq!(ids[0], 0);
    assert!(ids[1..76].iter().all(|id| *id == 9));
    assert_eq!(ids[76], 1);
}
