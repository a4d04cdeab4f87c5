use clli::dictionary::Dictionary;
use clli::sozluk::sozluk_init;
use clli::sozluk::Sozluk;

#[test]
fn count_after_adds() {
    let mut s = Sozluk::new();
    assert_eq!(s.count(), 0);
    let pairs = [
        ("su", "water"),
        ("kitap", "book"),
        ("kalem", "pen"),
        ("ev", "house"),
        ("kedi", "cat"),
    ];
    for (n, e) in pairs.iter() {
        let r = s.add_word(n.to_string(), e.to_string(), vec![], vec![]);
        assert!(r.is_ok());
    }
    assert_eq!(s.count(), 5);
}

#[test]
fn first_match_on_native_duplicates() {
    let mut s = Sozluk::new();
    s.add_word("su".to_string(), "water".to_string(), vec![], vec![])
        .unwrap();
    s.add_word("su".to_string(), "juice".to_string(), vec![], vec![])
        .unwrap();
    let w = s.get_word(&"su".to_string()).expect("su should be found");
    assert_eq!(w.english, "water");
}

#[test]
fn first_match_on_english_duplicates() {
    let mut s = Sozluk::new();
    s.add_word("kedi".to_string(), "cat".to_string(), vec![], vec![])
        .unwrap();
    s.add_word("pisi".to_string(), "cat".to_string(), vec![], vec![])
        .unwrap();
    let w = s
        .get_word_en(&"cat".to_string())
        .expect("cat should be found");
    assert_eq!(w.native, "kedi");
}

#[test]
fn random_on_empty_store() {
    let s = Sozluk::new();
    assert!(s.get_rand_word().is_none());
}

#[test]
fn random_on_singleton_store() {
    let mut s = Sozluk::new();
    s.add_word("su".to_string(), "water".to_string(), vec![], vec![])
        .unwrap();
    let w = s.get_rand_word().expect("nonempty store must yield a word");
    assert_eq!(w.native, "su");
    assert_eq!(w.english, "water");
}

#[test]
fn random_yields_a_held_record() {
    let mut s = Sozluk::new();
    s.add_word("bir".to_string(), "one".to_string(), vec![], vec![])
        .unwrap();
    s.add_word("iki".to_string(), "two".to_string(), vec![], vec![])
        .unwrap();
    s.add_word("uc".to_string(), "three".to_string(), vec![], vec![])
        .unwrap();
    for _ in 0..20 {
        let w = s.get_rand_word().expect("nonempty store must yield a word");
        let held = s.get_all().iter().any(|r| r.native == w.native && r.english == w.english);
        assert!(held);
    }
}

#[test]
fn scenario_kitap_kalem() {
    let mut s = Sozluk::new();
    s.add_word("kitap".to_string(), "book".to_string(), vec![], vec![])
        .unwrap();
    s.add_word("kalem".to_string(), "pen".to_string(), vec![], vec![])
        .unwrap();
    assert_eq!(s.count(), 2);
    assert_eq!(
        s.get_word(&"kitap".to_string()).expect("kitap").english,
        "book"
    );
    assert_eq!(
        s.get_word_en(&"pen".to_string()).expect("pen").native,
        "kalem"
    );
    assert!(s.get_word(&"yok".to_string()).is_none());
}

#[test]
fn get_all_keeps_insertion_order() {
    let mut s = Sozluk::new();
    s.add_word("bir".to_string(), "one".to_string(), vec![], vec![])
        .unwrap();
    s.add_word("iki".to_string(), "two".to_string(), vec![], vec![])
        .unwrap();
    s.add_word("uc".to_string(), "three".to_string(), vec![], vec![])
        .unwrap();
    let all = s.get_all();
    assert_eq!(all.len(), 3);
    assert_eq!(all[0].native, "bir");
    assert_eq!(all[1].native, "iki");
    assert_eq!(all[2].native, "uc");
}

#[test]
fn init_sets_the_path() {
    let s = sozluk_init("./somewhere/turk.json", None);
    assert_eq!(s.file_path(), "./somewhere/turk.json");
}
