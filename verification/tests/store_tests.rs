use kanjivoci::cards::{Kanjicard, Vocabcard, DEFAULT_SCORE};
use kanjivoci::codec::CodecError;
use kanjivoci::decks::Carddecks;
use kanjivoci::{is_kana, is_kanji};

fn sample_store() -> Carddecks {
    let mut store = Carddecks::new();
    store.add_kanjicard(
        "人",
        &vec!["ジン".to_string(), "ニン".to_string()],
        &vec![
            "ひと".to_string(),
            "びと".to_string(),
            "り".to_string(),
            "と".to_string(),
        ],
        5,
        "person",
    );
    store.add_vocabcard(
        "恋人",
        &vec!["こい".to_string(), "びと".to_string()],
        "loved one",
    );
    store.add_vocabcard(
        "友人",
        &vec!["ゆう".to_string(), "じん".to_string()],
        "friend (formal)",
    );
    store
}

#[test]
fn new_cards_start_at_default_score() {
    let k = Kanjicard::new("人", &vec![], &vec![], 5, "person");
    assert_eq!(k.score, DEFAULT_SCORE);
    assert_eq!(k.score, 100);
    let v = Vocabcard::new("恋人", &vec!["こいびと".to_string()], "loved one");
    assert_eq!(v.score, 100);
    assert_eq!(v.kanji, "恋人");
    assert_eq!(v.meaning, "loved one");
}

#[test]
fn update_score_adds_delta() {
    let mut v = Vocabcard::new("猫", &vec![], "cat");
    v.update_score(12);
    assert_eq!(v.score, 112);
    v.update_score(-2);
    assert_eq!(v.score, 110);
}

#[test]
fn update_score_clamps_at_zero() {
    let mut k = Kanjicard::new("人", &vec![], &vec![], 0, "person");
    k.update_score(-150);
    assert_eq!(k.score, 0);
    k.update_score(30);
    assert_eq!(k.score, 30);
}

#[test]
fn update_score_saturates_at_maximum() {
    let mut v = Vocabcard::new("猫", &vec![], "cat");
    v.update_score(i64::MAX);
    assert_eq!(v.score, u32::MAX);
}

#[test]
fn word_exists_after_add_and_not_before() {
    let mut store = sample_store();
    assert!(store.vocab_find_duplicate("恋人"));
    assert!(store.vocab_find_duplicate("友人"));
    assert!(!store.vocab_find_duplicate("人"));
    assert!(!store.vocab_find_duplicate("犬"));
    store.add_vocabcard("犬", &vec!["いぬ".to_string()], "dog");
    assert!(store.vocab_find_duplicate("犬"));
}

#[test]
fn align_on_absent_key_is_noop() {
    let mut store = sample_store();
    store.vocab_kanji_align_score("人", -15);
    assert_eq!(store.vocab_count(), 2);
    assert_eq!(store.get_vocabcard(0).score, 100);
    assert_eq!(store.get_vocabcard(1).score, 100);
    store.kanji_kanji_align_score("恋人", 50);
    assert_eq!(store.kanji_count(), 1);
    assert_eq!(store.get_kanjicard(0).score, 100);
}

#[test]
fn align_updates_only_first_match() {
    let mut store = Carddecks::new();
    store.add_vocabcard("山", &vec!["やま".to_string()], "mountain");
    store.add_vocabcard("山", &vec!["さん".to_string()], "mountain (suffix)");
    store.vocab_kanji_align_score("山", 25);
    assert_eq!(store.get_vocabcard(0).score, 125);
    assert_eq!(store.get_vocabcard(1).score, 100);
}

#[test]
fn sort_decks_orders_by_score_and_is_stable() {
    let mut store = Carddecks::new();
    store.add_vocabcard("一", &vec![], "one");
    store.add_vocabcard("二", &vec![], "two");
    store.add_vocabcard("三", &vec![], "three");
    // scores: 一 = 130, 二 = 100, 三 = 100
    store.vocab_kanji_align_score("一", 30);
    store.sort_decks();
    assert_eq!(store.get_vocabcard(0).kanji, "二");
    assert_eq!(store.get_vocabcard(1).kanji, "三");
    assert_eq!(store.get_vocabcard(2).kanji, "一");
    // equal scores keep their relative order after another sort
    store.sort_decks();
    assert_eq!(store.get_vocabcard(0).kanji, "二");
    assert_eq!(store.get_vocabcard(1).kanji, "三");
    assert_eq!(store.get_vocabcard(2).kanji, "一");
}

#[test]
fn save_produces_expected_document() {
    let mut store = Carddecks::new();
    store.add_vocabcard("猫", &vec!["ねこ".to_string()], "cat");
    let doc = store.to_vocab_toml();
    assert_eq!(
        doc,
        "[\"猫\"]\nkanji = \"猫\"\nspelling = [\"ねこ\"]\nmeaning = \"cat\"\nscore = 10.0\n"
    );
}

#[test]
fn save_then_load_round_trips() {
    let mut store = sample_store();
    store.kanji_kanji_align_score("人", 12);
    assert_eq!(store.get_kanjicard(0).score, 112);
    store.vocab_kanji_align_score("人", -15);
    store.sort_decks();
    let doc = store.to_vocab_toml();

    let mut fresh = Carddecks::new();
    let dups = fresh.load_vocab_toml(&doc).unwrap();
    assert!(dups.is_empty());
    assert_eq!(fresh.vocab_count(), 2);
    assert_eq!(fresh.kanji_count(), 0);
    let first = fresh.get_vocabcard(0);
    assert_eq!(first.kanji, "恋人");
    assert_eq!(first.spelling, vec!["こい".to_string(), "びと".to_string()]);
    assert_eq!(first.meaning, "loved one");
    assert_eq!(first.score, 100);
    let second = fresh.get_vocabcard(1);
    assert_eq!(second.kanji, "友人");
    assert_eq!(
        second.spelling,
        vec!["ゆう".to_string(), "じん".to_string()]
    );
    assert_eq!(second.meaning, "friend (formal)");
    assert_eq!(second.score, 100);
}

#[test]
fn loading_same_document_twice_reports_all_duplicates() {
    let mut store = sample_store();
    let doc = store.to_vocab_toml();
    let mut fresh = Carddecks::new();
    let first = fresh.load_vocab_toml(&doc).unwrap();
    assert!(first.is_empty());
    assert_eq!(fresh.vocab_count(), 2);
    let second = fresh.load_vocab_toml(&doc).unwrap();
    assert_eq!(second, vec!["恋人".to_string(), "友人".to_string()]);
    assert_eq!(fresh.vocab_count(), 2);
}

#[test]
fn duplicate_headwords_in_deck_keep_last_on_save() {
    let mut store = Carddecks::new();
    store.add_vocabcard("山", &vec!["やま".to_string()], "mountain");
    store.add_vocabcard("山", &vec!["さん".to_string()], "mountain (suffix)");
    let doc = store.to_vocab_toml();
    let mut fresh = Carddecks::new();
    fresh.load_vocab_toml(&doc).unwrap();
    assert_eq!(fresh.vocab_count(), 1);
    assert_eq!(fresh.get_vocabcard(0).meaning, "mountain (suffix)");
    assert_eq!(fresh.get_vocabcard(0).spelling, vec!["さん".to_string()]);
}

#[test]
fn parse_error_leaves_store_untouched() {
    let mut store = sample_store();
    let err = store.load_vocab_toml("not a deck document").unwrap_err();
    assert_eq!(err, CodecError::Parse);
    assert_eq!(store.vocab_count(), 2);
    assert_eq!(store.kanji_count(), 1);
    let err2 = store.load_vocab_toml("[\"猫\"]\nkanji = \"猫\"\n").unwrap_err();
    assert_eq!(err2, CodecError::Parse);
    assert_eq!(store.vocab_count(), 2);
}

#[test]
fn control_characters_are_escaped_and_round_trip() {
    let mut store = Carddecks::new();
    store.add_vocabcard("猫", &vec!["a\tb".to_string()], "line one\nline two\u{1}\u{7f}end");
    let doc = store.to_vocab_toml();
    assert!(doc.contains("meaning = \"line one\\nline two\\u0001\\u007Fend\""));
    assert!(doc.contains("spelling = [\"a\\tb\"]"));
    let mut fresh = Carddecks::new();
    fresh.load_vocab_toml(&doc).unwrap();
    assert_eq!(fresh.get_vocabcard(0).meaning, "line one\nline two\u{1}\u{7f}end");
    assert_eq!(fresh.get_vocabcard(0).spelling, vec!["a\tb".to_string()]);
}

#[test]
fn repeated_headword_in_document_is_a_parse_error() {
    let doc = "[\"犬\"]\nkanji = \"犬\"\nspelling = []\nmeaning = \"dog\"\nscore = 7.5\n\
               [\"犬\"]\nkanji = \"犬\"\nspelling = []\nmeaning = \"dog again\"\nscore = 1.0\n";
    let mut store = Carddecks::new();
    let err = store.load_vocab_toml(doc).unwrap_err();
    assert_eq!(err, CodecError::Parse);
    assert_eq!(store.vocab_count(), 0);
}

#[test]
fn named_escapes_are_read_back() {
    let doc = "[\"犬\"]\nkanji = \"犬\"\nspelling = []\nmeaning = \"a\\tb\\nc\\rd\\be\\ff\\u0000g\"\nscore = 7.5\n";
    let mut store = Carddecks::new();
    store.load_vocab_toml(doc).unwrap();
    assert_eq!(
        store.get_vocabcard(0).meaning,
        "a\tb\nc\rd\u{8}e\u{c}f\u{0}g"
    );
}

#[test]
fn quotes_and_backslashes_round_trip() {
    let mut store = Carddecks::new();
    store.add_vocabcard(
        "引用",
        &vec!["a\"b".to_string()],
        "say \"hi\" with a \\ backslash",
    );
    let doc = store.to_vocab_toml();
    let mut fresh = Carddecks::new();
    fresh.load_vocab_toml(&doc).unwrap();
    assert_eq!(fresh.get_vocabcard(0).meaning, "say \"hi\" with a \\ backslash");
    assert_eq!(fresh.get_vocabcard(0).spelling, vec!["a\"b".to_string()]);
}

#[test]
fn empty_store_round_trips() {
    let store = Carddecks::new();
    let doc = store.to_vocab_toml();
    assert_eq!(doc, "");
    let mut fresh = Carddecks::new();
    let dups = fresh.load_vocab_toml(&doc).unwrap();
    assert!(dups.is_empty());
    assert_eq!(fresh.vocab_count(), 0);
}

#[test]
fn empty_spelling_list_round_trips() {
    let mut store = Carddecks::new();
    store.add_vocabcard("猫", &vec![], "cat");
    let doc = store.to_vocab_toml();
    let mut fresh = Carddecks::new();
    fresh.load_vocab_toml(&doc).unwrap();
    assert_eq!(fresh.get_vocabcard(0).spelling, Vec::<String>::new());
}

#[test]
fn largest_score_round_trips() {
    let mut store = Carddecks::new();
    store.add_vocabcard("猫", &vec![], "cat");
    store.vocab_kanji_align_score("猫", i64::MAX);
    assert_eq!(store.get_vocabcard(0).score, u32::MAX);
    let doc = store.to_vocab_toml();
    assert!(doc.contains("score = 429496729.5\n"));
    let mut fresh = Carddecks::new();
    fresh.load_vocab_toml(&doc).unwrap();
    assert_eq!(fresh.get_vocabcard(0).score, u32::MAX);
}

#[test]
fn bak_document_lists_every_card() {
    let mut store = Carddecks::new();
    store.add_vocabcard("山", &vec!["やま".to_string()], "mountain");
    store.add_vocabcard("山", &vec!["さん".to_string()], "mountain (suffix)");
    let doc = store.to_vocab_toml_bak();
    assert_eq!(
        doc,
        "[[Vocabcard]]\nkanji = \"山\"\nspelling = [\"やま\"]\nmeaning = \"mountain\"\nscore = 10.0\n\
         [[Vocabcard]]\nkanji = \"山\"\nspelling = [\"さん\"]\nmeaning = \"mountain (suffix)\"\nscore = 10.0\n"
    );
}

#[test]
fn print_decks_renders_one_line_per_card() {
    let store = sample_store();
    let lines = store.print_decks();
    assert_eq!(lines.len(), 5);
    assert_eq!(lines[0], "kanjivocis");
    assert_eq!(lines[2], "Vocabcards");
    assert!(lines[1].starts_with("Kanji: 人, On Reading: [\"ジン\", \"ニン\"]"));
    assert!(lines[1].ends_with("Level: 5, Score: 10.0"));
    assert!(lines[3].contains("恋人"));
    assert!(lines[4].contains("友人"));
}

#[test]
fn loads_a_handwritten_document() {
    let doc = "[\"犬\"]\nkanji = \"犬\"\nspelling = [\"いぬ\"]\nmeaning = \"dog\"\nscore = 7.5\n\
               [\"鳥\"]\nkanji = \"鳥\"\nspelling = []\nmeaning = \"bird\"\nscore = 0.0\n";
    let mut store = Carddecks::new();
    let dups = store.load_vocab_toml(doc).unwrap();
    assert!(dups.is_empty());
    assert_eq!(store.vocab_count(), 2);
    assert_eq!(store.get_vocabcard(0).kanji, "犬");
    assert_eq!(store.get_vocabcard(0).score, 75);
    assert_eq!(store.get_vocabcard(1).kanji, "鳥");
    assert_eq!(store.get_vocabcard(1).score, 0);
    assert_eq!(store.get_vocabcard(1).spelling, Vec::<String>::new());
}

#[test]
fn align_clamps_at_zero_through_the_store() {
    let mut store = Carddecks::new();
    store.add_vocabcard("猫", &vec![], "cat");
    store.vocab_kanji_align_score("猫", -250);
    assert_eq!(store.get_vocabcard(0).score, 0);
    store.vocab_kanji_align_score("猫", 7);
    assert_eq!(store.get_vocabcard(0).score, 7);
}

#[test]
fn classifies_kanji_and_kana() {
    assert!(is_kanji('人'));
    assert!(is_kanji('山'));
    assert!(!is_kanji('ひ'));
    assert!(!is_kanji('a'));
    assert!(is_kana('ひ'));
    assert!(is_kana('ジ'));
    assert!(!is_kana('人'));
    assert!(!is_kana('z'));
}
