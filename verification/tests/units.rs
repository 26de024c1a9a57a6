use xd_tts::phonemes::{
    ipa_string_to_units, ipa_to_unit, ArpaPhone, AuxiliarySymbol, PhoneticUnit,
    Punctuation, Unit, UnitError,
};
use xd_tts::speedyspeech;
use xd_tts::tacotron2;
use xd_tts::vocabulary::{best_match_for_unit, UnitVocabulary};

fn phone(phone: ArpaPhone, context: Option<AuxiliarySymbol>) -> Unit {
    Unit::Phone(PhoneticUnit { phone, context })
}

#[test]
fn ipa_remapping() {
    let ipa_str = "æɝtʃtdtdʒk";

    let ipa_converted = ipa_string_to_units(ipa_str);

    let arpa_parsed = "AE ER CH T D T JH K"
        .split_ascii_whitespace()
        .map(|x| Unit::from_str(x).unwrap())
        .collect::<Vec<Unit>>();

    assert_eq!(ipa_converted, arpa_parsed);

    let ipa_str = "ˈoʊnfˈɔɹθ";
    let ipa_converted = ipa_string_to_units(ipa_str);

    let arpa_parsed = "OW1 N F AO1 R TH"
        .split_ascii_whitespace()
        .map(|x| Unit::from_str(x).unwrap())
        .collect::<Vec<Unit>>();

    assert_eq!(ipa_converted, arpa_parsed);
}

#[test]
fn ipa_spaces_and_unknown_symbols() {
    assert_eq!(
        ipa_string_to_units("k q"),
        vec![phone(ArpaPhone::K, None), Unit::Space, Unit::Unk]
    );
    // a grapheme that may open a pair is given up at the end
    assert_eq!(ipa_string_to_units("kt"), vec![phone(ArpaPhone::K, None)]);
    // `a` opens a pair but is no phone by itself
    assert_eq!(
        ipa_string_to_units("ak"),
        vec![Unit::Unk, phone(ArpaPhone::K, None)]
    );
    assert_eq!(
        ipa_string_to_units("ˌaɪ"),
        vec![phone(ArpaPhone::Ay, Some(AuxiliarySymbol::SecondaryStress))]
    );
}

#[test]
fn ipa_phones() {
    assert_eq!(
        ipa_to_unit("ŋ", None),
        Ok(phone(ArpaPhone::Ng, None))
    );
    assert_eq!(
        ipa_to_unit("t͡ʃ", Some(AuxiliarySymbol::PrimaryStress)),
        Ok(phone(ArpaPhone::Ch, Some(AuxiliarySymbol::PrimaryStress)))
    );
    assert_eq!(ipa_to_unit("g", None), Err(UnitError::UnsupportedIpa));
    assert_eq!(ipa_to_unit("", None), Err(UnitError::UnsupportedIpa));
}

#[test]
fn punctuation_classes() {
    assert!(Punctuation::FullStop.is_sentence_end());
    assert!(Punctuation::QuestionMark.is_sentence_end());
    assert!(Punctuation::ExclamationMark.is_sentence_end());
    assert!(!Punctuation::Comma.is_sentence_end());
    assert!(Punctuation::Comma.is_pause());
    assert!(Punctuation::SemiColon.is_pause());
    assert!(Punctuation::FullStop.is_pause());
    assert!(!Punctuation::Dash.is_pause());
    assert!(!Punctuation::Apostrophe.is_pause());
    assert!(!Punctuation::Colon.is_sentence_end());
}

#[test]
fn units_are_read_from_text() {
    assert_eq!(Unit::from_str(" "), Ok(Unit::Space));
    assert_eq!(Unit::from_str("\t\n"), Ok(Unit::Space));
    assert_eq!(Unit::from_str("."), Ok(Unit::Punct(Punctuation::FullStop)));
    assert_eq!(Unit::from_str(" ; "), Ok(Unit::Punct(Punctuation::SemiColon)));
    assert_eq!(Unit::from_str("<PAD>"), Ok(Unit::Padding));
    assert_eq!(Unit::from_str("<UNK>"), Ok(Unit::Unk));
    assert_eq!(Unit::from_str("AH0"), Ok(phone(ArpaPhone::Ah, Some(AuxiliarySymbol::NoStress))));
    assert_eq!(Unit::from_str("B"), Ok(phone(ArpaPhone::B, None)));
    assert_eq!(Unit::from_str("b"), Ok(Unit::Character('b')));
    assert_eq!(Unit::from_str("é"), Ok(Unit::Character('é')));
    assert_eq!(Unit::from_str(""), Err(UnitError::NotAUnit));
    assert_eq!(Unit::from_str("hello"), Err(UnitError::NotAUnit));
}

#[test]
fn phonetic_units_are_read_from_text() {
    assert_eq!(PhoneticUnit::from_str(""), Err(UnitError::NoSymbols));
    assert_eq!(PhoneticUnit::from_str("AH0:1"), Err(UnitError::TooLong));
    assert_eq!(PhoneticUnit::from_str("XX"), Err(UnitError::InvalidPhone));
    assert_eq!(PhoneticUnit::from_str("Q"), Err(UnitError::InvalidPhone));
    assert_eq!(PhoneticUnit::from_str("AH9"), Err(UnitError::InvalidSymbol));
    assert_eq!(
        PhoneticUnit::from_str("AH:2"),
        Ok(PhoneticUnit {
            phone: ArpaPhone::Ah,
            context: Some(AuxiliarySymbol::RisingOrInternalJuncture)
        })
    );
    assert_eq!(
        PhoneticUnit::from_str("B?"),
        Ok(PhoneticUnit {
            phone: ArpaPhone::B,
            context: Some(AuxiliarySymbol::RisingOrInternalJuncture)
        })
    );
    assert_eq!(
        PhoneticUnit::from_str("ZH"),
        Ok(PhoneticUnit {
            phone: ArpaPhone::Zh,
            context: None
        })
    );
    assert_eq!(ArpaPhone::from_str("NG"), Ok(ArpaPhone::Ng));
    assert_eq!(ArpaPhone::from_str("ng"), Err(UnitError::InvalidPhone));
    assert_eq!(AuxiliarySymbol::from_str("."), Ok(AuxiliarySymbol::FallingOrDecliningJuncture));
    assert_eq!(AuxiliarySymbol::from_str("4"), Err(UnitError::InvalidSymbol));
    assert_eq!(Punctuation::from_str(" ' "), Ok(Punctuation::Apostrophe));
    assert_eq!(Punctuation::from_str("a"), Err(UnitError::InvalidPunctuation));
    assert_eq!(Punctuation::from_str(".."), Err(UnitError::InvalidPunctuation));
}

#[test]
fn units_are_written_as_text() {
    assert_eq!(phone(ArpaPhone::Ow, Some(AuxiliarySymbol::PrimaryStress)).to_string(), "OW1");
    assert_eq!(phone(ArpaPhone::Hh, None).to_string(), "HH");
    assert_eq!(Unit::Unk.to_string(), "<UNK>");
    assert_eq!(Unit::Padding.to_string(), "<PAD>");
    assert_eq!(Unit::Space.to_string(), " ");
    assert_eq!(Unit::Punct(Punctuation::OpenBracket).to_string(), "(");
    assert_eq!(Unit::Character('x').to_string(), "x");
    assert_eq!(AuxiliarySymbol::FallRiseOrNonTerminalJuncture.to_string(), ":3");
    assert_eq!(Punctuation::SemiColon.to_string(), ";");
    assert_eq!(UnitError::TooLong.to_string(), "input data too long");
}

#[test]
fn every_phonetic_unit_reads_back() {
    for code in 0..546 {
        let unit = PhoneticUnit::from_code(code).unwrap();
        assert_eq!(unit.code(), code);
        assert_eq!(PhoneticUnit::from_str(&unit.to_string()), Ok(unit));
    }
    assert_eq!(PhoneticUnit::from_code(546), None);
    assert_eq!(ArpaPhone::from_ordinal(38), ArpaPhone::Zh);
    assert_eq!(ArpaPhone::from_ordinal(0), ArpaPhone::Aa);
    assert_eq!(AuxiliarySymbol::from_ordinal(1), AuxiliarySymbol::PrimaryStress);
}

#[test]
fn tacotron2_vocabulary() {
    let list = tacotron2::generate_id_list();
    assert_eq!(list.len(), 148);
    assert_eq!(list[0], Unit::Padding);
    assert_eq!(list[1], Unit::Punct(Punctuation::Dash));
    assert_eq!(list[11], Unit::Space);
    assert_eq!(list[12], Unit::Character('A'));
    assert_eq!(list[37], Unit::Character('Z'));
    assert_eq!(list[38], Unit::Character('a'));
    assert_eq!(list[63], Unit::Character('z'));
    assert_eq!(list[64], phone(ArpaPhone::Aa, None));
    assert_eq!(list[67], phone(ArpaPhone::Aa, Some(AuxiliarySymbol::SecondaryStress)));
    assert_eq!(list[88], phone(ArpaPhone::B, None));
    assert_eq!(list[147], phone(ArpaPhone::Zh, None));
}

#[test]
fn speedyspeech_vocabulary() {
    let list = speedyspeech::generate_id_list();
    assert_eq!(list.len(), 78);
    assert_eq!(list[0], Unit::Padding);
    assert_eq!(list[1], Unit::Unk);
    assert_eq!(list[2], phone(ArpaPhone::Aa, Some(AuxiliarySymbol::NoStress)));
    assert_eq!(list[72], Unit::Space);
    assert_eq!(list[77], Unit::Punct(Punctuation::Dash));
    let vocabulary = speedyspeech::vocabulary();
    assert_eq!(vocabulary.unknown_index(), Some(1));
    assert_eq!(vocabulary.resolve(&phone(ArpaPhone::Uw, None)), best_match_for_unit(&phone(ArpaPhone::Uw, None), &list));
}

#[test]
fn best_match_prefers_the_unit_itself() {
    let list = tacotron2::generate_id_list();
    assert_eq!(
        best_match_for_unit(&phone(ArpaPhone::Ah, Some(AuxiliarySymbol::NoStress)), &list),
        Some(73)
    );
    assert_eq!(best_match_for_unit(&phone(ArpaPhone::Ah, None), &list), Some(72));
    // no stressed `B` in the list: the bare one stands in
    assert_eq!(
        best_match_for_unit(&phone(ArpaPhone::B, Some(AuxiliarySymbol::PrimaryStress)), &list),
        Some(88)
    );
    assert_eq!(best_match_for_unit(&Unit::Space, &list), Some(11));
    assert_eq!(best_match_for_unit(&Unit::Character('a'), &list), Some(38));
    assert_eq!(best_match_for_unit(&Unit::Unk, &list), None);
    assert_eq!(best_match_for_unit(&Unit::Character('1'), &list), None);
    assert_eq!(best_match_for_unit(&Unit::Padding, &[]), None);
}

#[test]
fn best_match_takes_the_unmarked_entry_where_there_is_one() {
    let list = vec![
        Unit::Padding,
        phone(ArpaPhone::Aa, Some(AuxiliarySymbol::PrimaryStress)),
        phone(ArpaPhone::Aa, None),
        phone(ArpaPhone::Ae, Some(AuxiliarySymbol::PrimaryStress)),
    ];
    assert_eq!(best_match_for_unit(&phone(ArpaPhone::Aa, None), &list), Some(2));
    assert_eq!(
        best_match_for_unit(&phone(ArpaPhone::Aa, Some(AuxiliarySymbol::NoStress)), &list),
        Some(1)
    );
    assert_eq!(best_match_for_unit(&phone(ArpaPhone::Ae, None), &list), Some(3));
    assert_eq!(best_match_for_unit(&phone(ArpaPhone::Ah, None), &list), None);
}

#[test]
fn resolve_gives_the_same_index_each_time() {
    let vocabulary = tacotron2::vocabulary();
    let units = [
        phone(ArpaPhone::Ey, Some(AuxiliarySymbol::PrimaryStress)),
        Unit::Space,
        Unit::Unk,
        Unit::Character('q'),
    ];
    for unit in units.iter() {
        assert_eq!(vocabulary.resolve(unit), vocabulary.resolve(unit));
    }
    assert_eq!(vocabulary.resolve(&Unit::Character('q')), Some(54));
    assert_eq!(vocabulary.padding_index(), 0);
    assert_eq!(vocabulary.unknown_index(), None);
    assert_eq!(vocabulary.len(), 148);
}

#[test]
fn vocabulary_must_start_with_padding() {
    assert!(UnitVocabulary::new(vec![]).is_none());
    assert!(UnitVocabulary::new(vec![Unit::Space, Unit::Padding]).is_none());
    let vocabulary = UnitVocabulary::new(vec![Unit::Padding, Unit::Unk, Unit::Space]).unwrap();
    assert_eq!(vocabulary.units(), &vec![Unit::Padding, Unit::Unk, Unit::Space]);
    assert_eq!(vocabulary.unknown_index(), Some(1));
    assert_eq!(vocabulary.resolve(&Unit::Space), Some(2));
}
