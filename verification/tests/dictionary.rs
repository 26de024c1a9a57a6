use std::io::BufRead;
use xd_tts::cmu_dict::CmuDictionary;
use xd_tts::g2p::{G2pError, G2pModel};
use xd_tts::phonemes::{ArpaPhone, AuxiliarySymbol, PhoneticUnit};
use xd_tts::word_map::WordMap;

fn read(text: &str) -> CmuDictionary {
    let cursor = std::io::Cursor::new(text.to_string());
    let lines: Vec<String> = std::io::BufReader::new(cursor)
        .lines()
        .filter_map(|x| x.ok())
        .collect();
    CmuDictionary::from_lines(&lines)
}

fn unit(phone: ArpaPhone, stress: Option<AuxiliarySymbol>) -> PhoneticUnit {
    PhoneticUnit {
        phone,
        context: stress,
    }
}

#[test]
fn cmu_dict_dictionary_merge() {
    let mut base = read("RUSTNATION  R AH1 S T N EY1 SH AH0 N\nRUST  R AH1 S T");

    let to_merge = read("RUSTNATION  R AH1 S T N EY1 SH AH0 N\nRUSTNATION  R AH1 S N EY1 SH AH0 N\nUST  UH1 S T");

    assert_eq!(base.len(), 2);
    assert_eq!(base.get_pronunciations("RUSTNATION").unwrap().len(), 1);
    assert_eq!(base.get_pronunciations("RUST").unwrap().len(), 1);
    assert_eq!(base.get_pronunciations("UST"), None);
    assert_eq!(to_merge.len(), 2);
    assert_eq!(to_merge.get_pronunciations("RUSTNATION").unwrap().len(), 2);
    assert_eq!(to_merge.get_pronunciations("RUST"), None);
    assert_eq!(to_merge.get_pronunciations("UST").unwrap().len(), 1);

    base.merge(to_merge);
    assert_eq!(base.len(), 3);
    assert_eq!(base.get_pronunciations("RUSTNATION").unwrap().len(), 2);
    assert_eq!(base.get_pronunciations("RUST").unwrap().len(), 1);
    assert_eq!(base.get_pronunciations("UST").unwrap().len(), 1);
}

#[test]
fn dictionary_merge() {
    let mut base = read("RUSTNATION  R AH1 S T N EY1 SH AH0 N\nRUST  R AH1 S T");

    let to_merge = read("RUSTNATION  R AH1 S T N EY1 SH AH0 N\nRUSTNATION  R AH1 S N EY1 SH AH0 N\nUST  UH1 S T");

    assert_eq!(base.len(), 2);
    assert_eq!(base.get_pronunciations("RUSTNATION").unwrap().len(), 1);
    assert_eq!(base.get_pronunciations("RUST").unwrap().len(), 1);
    assert_eq!(base.get_pronunciations("UST"), None);
    assert_eq!(to_merge.len(), 2);
    assert_eq!(to_merge.get_pronunciations("RUSTNATION").unwrap().len(), 2);
    assert_eq!(to_merge.get_pronunciations("RUST"), None);
    assert_eq!(to_merge.get_pronunciations("UST").unwrap().len(), 1);

    base.merge(to_merge);
    assert_eq!(base.len(), 3);
    assert_eq!(base.get_pronunciations("RUSTNATION").unwrap().len(), 2);
    assert_eq!(base.get_pronunciations("RUST").unwrap().len(), 1);
    assert_eq!(base.get_pronunciations("UST").unwrap().len(), 1);
}

#[test]
fn merge_keeps_own_readings_first() {
    let mut base = read("READ  R EH1 D");
    let other = read("READ  R IY1 D\nREAD  R EH1 D");
    base.merge(other);
    let readings = base.get_pronunciations_normalised("READ").unwrap();
    assert_eq!(readings.len(), 2);
    assert_eq!(
        readings[0],
        vec![
            unit(ArpaPhone::R, None),
            unit(ArpaPhone::Eh, Some(AuxiliarySymbol::PrimaryStress)),
            unit(ArpaPhone::D, None),
        ]
    );
    assert_eq!(
        readings[1],
        vec![
            unit(ArpaPhone::R, None),
            unit(ArpaPhone::Iy, Some(AuxiliarySymbol::PrimaryStress)),
            unit(ArpaPhone::D, None),
        ]
    );
}

#[test]
fn dictionary_skips_what_is_no_entry() {
    let dict = read(";;; a comment\nNOSPACES\nBROKEN  B XX\nBATH  B AE1 TH\nBATH(2)  B AA1 TH\n");
    assert_eq!(dict.len(), 1);
    assert!(!dict.is_empty());
    assert_eq!(dict.get_pronunciations("bath").unwrap().len(), 2);
    assert_eq!(dict.get_pronunciations_normalised("bath"), None);
    assert_eq!(dict.get_pronunciations_normalised("BROKEN"), None);
}

#[test]
fn empty_dictionary() {
    let dict = CmuDictionary::new();
    assert_eq!(dict.len(), 0);
    assert!(dict.is_empty());
    assert_eq!(dict.get_pronunciations("RUST"), None);
    let other = CmuDictionary::default();
    assert!(other.is_empty());
}

#[test]
fn dictionary_is_kept_in_order() {
    let dict = read("ZOO  Z UW1\nAPPLE  AE1 P AH0 L\nMOON  M UW1 N");
    let words: Vec<String> = dict.iter().iter().map(|e| e.0.clone()).collect();
    assert_eq!(words, vec!["APPLE", "MOON", "ZOO"]);
}

#[test]
fn simple_dictionary_takes_first_reading() {
    let dict = read("READ  R EH1 D\nREAD  R IY1 D\nA  AH0");
    let simple = dict.into_simple_dictionary();
    assert_eq!(simple.len(), 2);
    assert_eq!(
        simple.get("READ"),
        Some(&vec![
            unit(ArpaPhone::R, None),
            unit(ArpaPhone::Eh, Some(AuxiliarySymbol::PrimaryStress)),
            unit(ArpaPhone::D, None),
        ])
    );
    assert_eq!(
        simple.get("A"),
        Some(&vec![unit(ArpaPhone::Ah, Some(AuxiliarySymbol::NoStress))])
    );
    assert_eq!(simple.get("B"), None);
}

#[test]
fn word_map_keeps_words_sorted() {
    let mut map: WordMap<usize> = WordMap::new();
    map.insert("pear".to_string(), 1);
    map.insert("apple".to_string(), 2);
    map.insert("zebra".to_string(), 3);
    map.insert("apple".to_string(), 4);
    map.insert("app".to_string(), 5);
    assert_eq!(map.len(), 4);
    assert_eq!(map.get("apple"), Some(&4));
    assert_eq!(map.get("app"), Some(&5));
    assert_eq!(map.get("appl"), None);
    assert_eq!(map.find("apple"), Ok(1));
    assert_eq!(map.find("banana"), Err(2));
    assert_eq!(map.find(""), Err(0));
    let words: Vec<&str> = map.entries().iter().map(|e| e.0.as_str()).collect();
    assert_eq!(words, vec!["app", "apple", "pear", "zebra"]);
    assert_eq!(map.word_at(3), "zebra");
    assert_eq!(*map.value_at(3), 3);
}

#[test]
fn g2p_needs_a_dictionary() {
    let built = G2pModel::create().build();
    assert!(matches!(built, Err(G2pError::NoPronunciationSource)));
}

#[test]
fn g2p_looks_words_up() {
    let simple = read("RUST  R AH1 S T").into_simple_dictionary();
    let model = G2pModel::create().add_dictionary(simple).build().unwrap();
    let expected = vec![
        unit(ArpaPhone::R, None),
        unit(ArpaPhone::Ah, Some(AuxiliarySymbol::PrimaryStress)),
        unit(ArpaPhone::S, None),
        unit(ArpaPhone::T, None),
    ];
    assert_eq!(model.get_pronunciation("rust"), Some(&expected));
    assert_eq!(model.get_pronunciation_normalised("RUST"), Some(&expected));
    assert_eq!(model.get_pronunciation_normalised("rust"), None);
    assert_eq!(model.get_pronunciation("dust"), None);
}
