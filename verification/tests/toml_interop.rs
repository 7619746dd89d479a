//! The saved document must be real TOML: the toml crate parses it and sees
//! the same headwords, fields and scores.

use kanjivoci::decks::Carddecks;

#[test]
fn saved_document_is_valid_toml() {
    let mut store = Carddecks::new();
    store.add_vocabcard(
        "恋人",
        &vec!["こい".to_string(), "びと".to_string()],
        "loved one",
    );
    store.add_vocabcard("友人", &vec![], "friend (formal)");
    store.vocab_kanji_align_score("友人", 12);
    let doc = store.to_vocab_toml();

    let table: toml::Table = doc.parse().unwrap();
    assert_eq!(table.len(), 2);

    let koibito = table.get("恋人").unwrap().as_table().unwrap();
    assert_eq!(koibito.get("kanji").unwrap().as_str().unwrap(), "恋人");
    assert_eq!(koibito.get("meaning").unwrap().as_str().unwrap(), "loved one");
    assert_eq!(koibito.get("score").unwrap().as_float().unwrap(), 10.0);
    let spelling: Vec<&str> = koibito
        .get("spelling")
        .unwrap()
        .as_array()
        .unwrap()
        .iter()
        .map(|v| v.as_str().unwrap())
        .collect();
    assert_eq!(spelling, vec!["こい", "びと"]);

    let yujin = table.get("友人").unwrap().as_table().unwrap();
    assert_eq!(yujin.get("score").unwrap().as_float().unwrap(), 11.2);
    assert_eq!(yujin.get("spelling").unwrap().as_array().unwrap().len(), 0);
}

#[test]
fn control_character_escapes_survive_a_toml_parse() {
    let mut store = Carddecks::new();
    store.add_vocabcard("改行", &vec![], "a\nb\tc\u{1}d\u{7f}e");
    let doc = store.to_vocab_toml();
    let table: toml::Table = doc.parse().unwrap();
    let entry = table.get("改行").unwrap().as_table().unwrap();
    assert_eq!(
        entry.get("meaning").unwrap().as_str().unwrap(),
        "a\nb\tc\u{1}d\u{7f}e"
    );
}

#[test]
fn escapes_survive_a_toml_parse() {
    let mut store = Carddecks::new();
    store.add_vocabcard("引用", &vec![], "say \"hi\" and \\ more");
    let doc = store.to_vocab_toml();
    let table: toml::Table = doc.parse().unwrap();
    let entry = table.get("引用").unwrap().as_table().unwrap();
    assert_eq!(
        entry.get("meaning").unwrap().as_str().unwrap(),
        "say \"hi\" and \\ more"
    );
}
