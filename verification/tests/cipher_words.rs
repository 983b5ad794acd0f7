use seed_otp::Language;
use seed_otp::OtpError;
use seed_otp::decrypt;
use seed_otp::encrypt;
use seed_otp::wordlist;

fn strings(words: &[&str]) -> Vec<String> {
    words.iter().map(|w| w.to_string()).collect()
}

fn cipher_texts(entries: &[seed_otp::EncryptedMessage]) -> Vec<String> {
    entries.iter().map(|e| e.cipher_text.clone()).collect()
}

/// A corpus of 2048 distinct words with "abandon" on the first line.
fn big_corpus() -> String {
    let mut corpus = String::from("abandon\n");
    for i in 1..2048 {
        corpus.push_str(&format!("word{:04}\n", i));
    }
    corpus
}

#[test]
fn wordlist_splits_lines_in_order() {
    let (words, index) = wordlist("alpha\nbeta\ngamma\n");
    assert_eq!(words, strings(&["alpha", "beta", "gamma"]));
    assert_eq!(index.get(&"alpha".to_string()), Some(0));
    assert_eq!(index.get(&"gamma".to_string()), Some(2));
    assert_eq!(index.get(&"delta".to_string()), None);
}

#[test]
fn wordlist_handles_carriage_returns_and_missing_final_newline() {
    let (words, _) = wordlist("alpha\r\nbeta\r\ngamma");
    assert_eq!(words, strings(&["alpha", "beta", "gamma"]));
}

#[test]
fn wordlist_duplicate_resolves_to_last_occurrence() {
    let (_, index) = wordlist("alpha\nbeta\nalpha\n");
    assert_eq!(index.get(&"alpha".to_string()), Some(2));
}

#[test]
fn round_trip_restores_the_words() {
    let (words, index) = wordlist("alpha\nbeta\ngamma\ndelta\nepsilon\n");
    let key_list: Vec<u16> = vec![3, 7, 11];
    let input = strings(&["beta", "epsilon", "alpha"]);
    let encrypted = encrypt(3, &key_list, &words, &index, &input).unwrap();
    let decrypted = decrypt(3, &key_list, &words, &index, &cipher_texts(&encrypted)).unwrap();
    assert_eq!(cipher_texts(&decrypted), input);
}

#[test]
fn encrypt_shifts_positions_modulo_the_wordlist() {
    let corpus = big_corpus();
    let (words, index) = wordlist(&corpus);
    assert_eq!(words.len(), 2048);
    assert_eq!(words[0], "abandon");

    let entries = encrypt(1, &vec![5], &words, &index, &strings(&["abandon"])).unwrap();
    assert_eq!(entries.len(), 1);
    assert_eq!(entries[0].message, "abandon");
    assert_eq!(entries[0].cipher_text, words[5]);

    let back = decrypt(1, &vec![5], &words, &index, &strings(&[words[5].as_str()])).unwrap();
    assert_eq!(back[0].cipher_text, "abandon");
}

#[test]
fn encrypt_wraps_around_the_last_position() {
    let (words, index) = wordlist("alpha\nbeta\ngamma\n");
    let last = words.last().unwrap().clone();

    let entries = encrypt(1, &vec![1], &words, &index, &strings(&[last.as_str()])).unwrap();
    assert_eq!(entries[0].cipher_text, words[0]);

    let back = decrypt(1, &vec![1], &words, &index, &strings(&["alpha"])).unwrap();
    assert_eq!(back[0].cipher_text, last);
}

#[test]
fn too_many_words_fails_before_any_output() {
    let (words, index) = wordlist("alpha\nbeta\ngamma\n");
    let key_list: Vec<u16> = vec![1, 2];
    let input = strings(&["alpha", "beta", "gamma"]);
    assert!(matches!(
        encrypt(2, &key_list, &words, &index, &input),
        Err(OtpError::TooManyWords)
    ));
    assert!(matches!(
        decrypt(2, &key_list, &words, &index, &input),
        Err(OtpError::TooManyWords)
    ));
}

#[test]
fn unknown_word_is_reported() {
    let (words, index) = wordlist("alpha\nbeta\n");
    let result = encrypt(2, &vec![1, 1], &words, &index, &strings(&["alpha", "omega"]));
    match result {
        Err(OtpError::UnknownWord(word)) => assert_eq!(word, "omega"),
        other => panic!("expected an unknown word failure, got {:?}", other),
    }
}

#[test]
fn the_first_unknown_word_is_the_one_reported() {
    let (words, index) = wordlist("alpha\nbeta\n");
    let input = strings(&["beta", "omega", "zeta"]);
    let result = encrypt(3, &vec![1, 1, 1], &words, &index, &input);
    match result {
        Err(OtpError::UnknownWord(word)) => assert_eq!(word, "omega"),
        other => panic!("expected an unknown word failure, got {:?}", other),
    }
}

#[test]
fn empty_corpus_and_empty_batch() {
    let (words, index) = wordlist("");
    assert!(words.is_empty());
    assert_eq!(index.get(&"alpha".to_string()), None);
    let entries = encrypt(0, &vec![], &words, &index, &vec![]).unwrap();
    assert!(entries.is_empty());
    let entries = decrypt(0, &vec![], &words, &index, &vec![]).unwrap();
    assert!(entries.is_empty());
}

#[test]
fn processing_leaves_the_wordlist_unchanged() {
    let (words, index) = wordlist("alpha\nbeta\ngamma\n");
    let before = words.clone();
    let _ = encrypt(2, &vec![1, 2], &words, &index, &strings(&["beta", "alpha"])).unwrap();
    let _ = decrypt(2, &vec![1, 2], &words, &index, &strings(&["beta", "alpha"])).unwrap();
    assert_eq!(words, before);
    assert_eq!(index.get(&"beta".to_string()), Some(1));
}

#[test]
fn language_names_resolve() {
    assert!(matches!(Language::from_name("english"), Ok(Language::English)));
    assert!(matches!(Language::from_name("korean"), Ok(Language::Korean)));
    assert!(matches!(
        Language::from_name("klingon"),
        Err(OtpError::UnsupportedLanguage)
    ));
}
