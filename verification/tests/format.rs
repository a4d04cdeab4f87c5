use clli::dictionary::Dictionary;
use clli::dictionary::Word;
use clli::json::parse_json;
use clli::json::str_to_chars;
use clli::json::write_json;
use clli::sozluk::load;
use clli::sozluk::sozluk_init;
use clli::sozluk::LoadOutcome;
use clli::sozluk::Sozluk;

#[test]
fn save_empty_store() {
    let s = Sozluk::new();
    assert_eq!(s.save(), "[]");
}

#[test]
fn save_one_record_exactly() {
    let mut s = Sozluk::new();
    s.add_word("kitap".to_string(), "book".to_string(), vec![], vec![])
        .unwrap();
    assert_eq!(
        s.save(),
        "[{\"native\":\"kitap\",\"english\":\"book\",\"categories\":[],\"examples\":[]}]"
    );
}

#[test]
fn save_load_save_is_idempotent() {
    let mut s = Sozluk::new();
    s.add_word(
        "su".to_string(),
        "water".to_string(),
        vec!["drink".to_string(), "nature".to_string()],
        vec!["su icmek".to_string()],
    )
    .unwrap();
    s.add_word(
        "tuhaf \"isim\"".to_string(),
        "back\\slash and\nnewline\tand tab".to_string(),
        vec![],
        vec!["a; b".to_string()],
    )
    .unwrap();
    let first = s.save();
    let reloaded = sozluk_init("turk.json", Some(&first));
    let second = reloaded.save();
    assert_eq!(second, first);
    let reloaded_again = sozluk_init("turk.json", Some(&second));
    assert_eq!(reloaded_again.save(), first);
}

#[test]
fn load_names_the_fallback() {
    let (s, outcome) = load("turk.json", None);
    assert_eq!(outcome, LoadOutcome::Fresh);
    assert_eq!(s.count(), 0);
    let (s2, outcome2) = load("turk.json", Some("[]"));
    assert_eq!(outcome2, LoadOutcome::Loaded);
    assert_eq!(s2.count(), 0);
    let (s3, outcome3) = load("turk.json", Some("nonsense"));
    assert_eq!(outcome3, LoadOutcome::Fresh);
    assert_eq!(s3.count(), 0);
}

#[test]
fn load_of_missing_file_is_empty() {
    let s = sozluk_init("./no/such/file.json", None);
    assert_eq!(s.count(), 0);
}

#[test]
fn load_of_malformed_text_is_empty() {
    let s = sozluk_init("turk.json", Some("this is not a dictionary"));
    assert_eq!(s.count(), 0);
    let s2 = sozluk_init("turk.json", Some("[{\"native\":\"ev\"}]"));
    assert_eq!(s2.count(), 0);
}

#[test]
fn load_single_entry_and_list_examples() {
    let text = "[{\"native\":\"ev\",\"english\":\"house\",\"categories\":[],\"examples\":[\"ev buyuk\"]}]";
    let s = sozluk_init("turk.json", Some(text));
    assert_eq!(s.count(), 1);
    let w = s.get_word(&"ev".to_string()).expect("ev");
    assert_eq!(w.english, "house");
    assert_eq!(w.examples_joined(), "ev buyuk");
}

#[test]
fn listing_joins_examples_in_order() {
    let w = Word::new(
        "ev".to_string(),
        "house".to_string(),
        vec![],
        vec![
            "ev buyuk".to_string(),
            "evde kal".to_string(),
            "eve git".to_string(),
        ],
    );
    assert_eq!(w.examples_joined(), "ev buyuk; evde kal; eve git");
    let bare = Word::new("su".to_string(), "water".to_string(), vec![], vec![]);
    assert_eq!(bare.examples_joined(), "");
}

#[test]
fn load_accepts_whitespace_between_tokens() {
    let text = "[\n  {\n    \"native\": \"ev\",\n    \"english\": \"house\",\n    \"categories\": [ \"place\" ],\n    \"examples\": [ \"ev buyuk\", \"eve git\" ]\n  }\n]\n";
    let s = sozluk_init("turk.json", Some(text));
    assert_eq!(s.count(), 1);
    let w = s.get_word(&"ev".to_string()).expect("ev");
    assert_eq!(w.english, "house");
    assert_eq!(w.categories, vec!["place".to_string()]);
    assert_eq!(w.examples, vec!["ev buyuk".to_string(), "eve git".to_string()]);
}

#[test]
fn escapes_survive_the_round_trip() {
    let mut s = Sozluk::new();
    s.add_word(
        "quote\"back\\slash".to_string(),
        "line\nbreak\ttab\rreturn".to_string(),
        vec![],
        vec![],
    )
    .unwrap();
    let text = s.save();
    let back = sozluk_init("turk.json", Some(&text));
    assert_eq!(back.count(), 1);
    let w = back.get_word(&"quote\"back\\slash".to_string()).expect("found");
    assert_eq!(w.english, "line\nbreak\ttab\rreturn");
}

#[test]
fn str_to_chars_matches_the_string() {
    let v = str_to_chars("ab c");
    assert_eq!(v, vec!['a', 'b', ' ', 'c']);
    let empty = str_to_chars("");
    assert!(empty.is_empty());
}

#[test]
fn write_then_parse_gives_back_the_records() {
    let words = vec![
        Word::new(
            "kedi".to_string(),
            "cat".to_string(),
            vec!["animal".to_string()],
            vec![],
        ),
        Word::new("kus".to_string(), "bird".to_string(), vec![], vec![]),
    ];
    let text = write_json(&words);
    let back = parse_json(&text).expect("written documents parse");
    assert_eq!(back.len(), 2);
    assert_eq!(back[0].native, "kedi");
    assert_eq!(back[0].categories, vec!["animal".to_string()]);
    assert_eq!(back[1].english, "bird");
}

#[test]
fn parse_rejects_trailing_garbage() {
    let text = str_to_chars("[] extra");
    assert!(parse_json(&text).is_none());
    let ok = str_to_chars("[]   ");
    assert!(parse_json(&ok).is_some());
}
