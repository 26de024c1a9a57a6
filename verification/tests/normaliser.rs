use ssml_parser::elements::{ParsedElement, PhonemeAlphabet};
use ssml_parser::parser::SsmlParserBuilder;
use ssml_parser::ParserEvent;
use xd_tts::phonemes::{ArpaPhone, AuxiliarySymbol, PhoneticUnit, Punctuation, Unit};
use xd_tts::text_normaliser::{
    break_duration, dict_normalise, handle_say_as, is_ssml, normalise_ssml_events,
    normalise_text, parse_integer, NormaliseError, NormalisedText, NormaliserChunk, SsmlElement,
    SsmlEvent, Strength,
};

fn element(e: ParsedElement) -> SsmlElement {
    match e {
        ParsedElement::Speak(_) => SsmlElement::Speak,
        ParsedElement::SayAs(sa) => SsmlElement::SayAs {
            interpret_as: sa.interpret_as,
        },
        ParsedElement::Phoneme(ph) => SsmlElement::Phoneme {
            ipa: matches!(ph.alphabet, None | Some(PhonemeAlphabet::Ipa)),
            ph: ph.ph,
        },
        ParsedElement::Break(b) => SsmlElement::Break {
            time: b.time.map(|t| t.duration().as_millis() as u64),
            strength: b.strength.map(|s| match s {
                ssml_parser::elements::Strength::No => Strength::No,
                ssml_parser::elements::Strength::ExtraWeak => Strength::ExtraWeak,
                ssml_parser::elements::Strength::Weak => Strength::Weak,
                ssml_parser::elements::Strength::Medium => Strength::Medium,
                ssml_parser::elements::Strength::Strong => Strength::Strong,
                ssml_parser::elements::Strength::ExtraStrong => Strength::ExtraStrong,
            }),
        },
        _ => SsmlElement::Other,
    }
}

fn normalise_ssml(x: &str) -> NormalisedText {
    let parser = SsmlParserBuilder::default()
        .expand_sub(true)
        .build()
        .unwrap();
    let events: Vec<SsmlEvent> = parser
        .parse(x)
        .unwrap()
        .event_iter()
        .map(|event| match event {
            ParserEvent::Text(t) => SsmlEvent::Text(t),
            ParserEvent::Open(e) => SsmlEvent::Open(element(e)),
            ParserEvent::Close(_) => SsmlEvent::Close,
            ParserEvent::Empty(e) => SsmlEvent::Empty(element(e)),
        })
        .collect();
    normalise_ssml_events(&events).unwrap()
}

fn text(s: &str) -> NormaliserChunk {
    NormaliserChunk::Text(s.to_string())
}

#[test]
fn basic_text_norm() {
    assert_eq!(normalise_text("2nd").unwrap().to_string_unchecked(), "SECOND");
    assert_eq!(normalise_text("3d").unwrap().to_string_unchecked(), "THREE D");
    assert_eq!(normalise_text("k8s").unwrap().to_string_unchecked(), "K EIGHT S");
}

#[test]
fn duplicate_removal() {
    assert_eq!(dict_normalise("BATH(2)").unwrap(), "BATH");
    assert_eq!(dict_normalise("HELLO(45)").unwrap(), "HELLO");
    assert_eq!(dict_normalise("(3)d").unwrap(), "THREE D");
}

#[test]
fn hyphened_numbers() {
    assert_eq!(
        normalise_text("sixty-four ninety-three").unwrap().to_string_unchecked(),
        "SIXTY FOUR NINETY THREE"
    )
}

#[test]
fn extract_punctuation() {
    let actual = normalise_text("Is this my 1st talk? You tell me!").unwrap();

    let expected = NormalisedText::from_chunks(vec![
        NormaliserChunk::Text("IS THIS MY FIRST TALK".to_string()),
        NormaliserChunk::Punct(Punctuation::QuestionMark),
        NormaliserChunk::Text(" YOU TELL ME".to_string()),
        NormaliserChunk::Punct(Punctuation::ExclamationMark),
    ]);

    assert_eq!(actual, expected);
}

#[test]
fn ssml_text_normalisation() {
    let text = r#"<speak>
        <say-as interpret-as="characters">SSML</say-as> 
        </speak>"#;
    let expected = "S S M L";

    assert_eq!(
        normalise_ssml(text).to_string_unchecked(),
        expected
    );

    let text = r#"<speak>
        <say-as interpret-as="cardinal">10</say-as> 
        </speak>"#;
    let expected = "TEN";

    assert_eq!(
        normalise_ssml(text).to_string_unchecked(),
        expected
    );

    let text = r#"<speak>
        <say-as interpret-as="ordinal">10</say-as>
        </speak>"#;
    let expected = "TENTH";

    assert_eq!(
        normalise_ssml(text).to_string_unchecked(),
        expected
    );

    let text = r#"<speak>
        <sub alias="World Wide Web Consortium">W3C</sub>
        </speak>"#;
    let expected = "WORLD WIDE WEB CONSORTIUM";

    assert_eq!(
        normalise_ssml(text).to_string_unchecked(),
        expected
    );

    let text = r#"<speak>
        <say-as interpret-as="characters">10</say-as>.
        </speak>"#;
    let expected = "ONE ZERO.";

    assert_eq!(
        normalise_ssml(text).to_string_unchecked(),
        expected
    );
}

#[test]
fn ssml_breaks_and_phonemes() {
    let normalised = normalise_ssml(
        "<speak>one<break time=\"250ms\"/>two<break strength=\"strong\"/><break strength=\"none\"/><break/><phoneme ph=\"k\">see</phoneme> three</speak>",
    );
    assert_eq!(
        normalised.chunks(),
        &vec![
            text("ONE"),
            NormaliserChunk::Break(250),
            text("TWO"),
            NormaliserChunk::Break(2000),
            NormaliserChunk::Break(1000),
            NormaliserChunk::Pronunciation(vec![Unit::Phone(PhoneticUnit {
                phone: ArpaPhone::K,
                context: None
            })]),
            text("THREE"),
        ]
    );
}

#[test]
fn events_without_a_parser() {
    let events = vec![
        SsmlEvent::Open(SsmlElement::Speak),
        SsmlEvent::Text("hello".to_string()),
        SsmlEvent::Open(SsmlElement::SayAs {
            interpret_as: "ordinal".to_string(),
        }),
        SsmlEvent::Open(SsmlElement::Other),
        SsmlEvent::Text("dropped".to_string()),
        SsmlEvent::Close,
        SsmlEvent::Text("world".to_string()),
        SsmlEvent::Close,
        SsmlEvent::Open(SsmlElement::Phoneme {
            ph: "ˈoʊ".to_string(),
            ipa: false,
        }),
        SsmlEvent::Text("oh".to_string()),
        SsmlEvent::Close,
        SsmlEvent::Empty(SsmlElement::Break {
            time: None,
            strength: Some(Strength::ExtraWeak),
        }),
        SsmlEvent::Empty(SsmlElement::Other),
        SsmlEvent::Close,
    ];
    let normalised = normalise_ssml_events(&events).unwrap();
    assert_eq!(
        normalised.chunks(),
        &vec![text("HELLO"), text("WORLD"), NormaliserChunk::Break(200)]
    );
    assert_eq!(
        normalise_ssml_events(&vec![SsmlEvent::Close]),
        Err(NormaliseError::UnbalancedTags)
    );
    let events = vec![
        SsmlEvent::Open(SsmlElement::SayAs {
            interpret_as: "date".to_string(),
        }),
        SsmlEvent::Text("today".to_string()),
    ];
    assert_eq!(
        normalise_ssml_events(&events),
        Err(NormaliseError::UnsupportedSayAs)
    );
    let events = vec![
        SsmlEvent::Open(SsmlElement::Phoneme {
            ph: "ˈoʊ".to_string(),
            ipa: true,
        }),
        SsmlEvent::Text("oh".to_string()),
        SsmlEvent::Close,
    ];
    assert_eq!(
        normalise_ssml_events(&events).unwrap().chunks(),
        &vec![NormaliserChunk::Pronunciation(vec![Unit::Phone(PhoneticUnit {
            phone: ArpaPhone::Ow,
            context: Some(AuxiliarySymbol::PrimaryStress)
        })])]
    );
}

#[test]
fn say_as_readings() {
    assert_eq!(handle_say_as("cardinal", " 10 "), Ok(text("TEN")));
    assert_eq!(handle_say_as("cardinal", "-21"), Ok(text("MINUS TWENTY ONE")));
    assert_eq!(handle_say_as("ordinal", "10"), Ok(text("TENTH")));
    assert_eq!(handle_say_as("ordinal", "22"), Ok(text("TWENTY SECOND")));
    assert_eq!(handle_say_as("ordinal", "-1"), Err(NormaliseError::InvalidOrdinal));
    assert_eq!(handle_say_as("ordinal", "ten"), Err(NormaliseError::InvalidInteger));
    assert_eq!(handle_say_as("cardinal", ""), Err(NormaliseError::InvalidInteger));
    assert_eq!(
        handle_say_as("cardinal", "9223372036854775808"),
        Err(NormaliseError::InvalidInteger)
    );
    assert_eq!(handle_say_as("characters", "SSML"), Ok(text("S S M L")));
    assert_eq!(handle_say_as("characters", "a?b"), Ok(text("A  B")));
    assert_eq!(handle_say_as("characters", ""), Ok(text("")));
    assert_eq!(handle_say_as("telephone", "10"), Err(NormaliseError::UnsupportedSayAs));
}

#[test]
fn integers_are_read() {
    let read = |s: &str| parse_integer(&s.chars().collect());
    assert_eq!(read("0"), Some(0));
    assert_eq!(read("+17"), Some(17));
    assert_eq!(read("-17"), Some(-17));
    assert_eq!(read("007"), Some(7));
    assert_eq!(read("9223372036854775807"), Some(i64::MAX));
    assert_eq!(read("-9223372036854775808"), Some(i64::MIN));
    assert_eq!(read("9223372036854775808"), None);
    assert_eq!(read("-9223372036854775809"), None);
    assert_eq!(read("99999999999999999999999"), None);
    assert_eq!(read(""), None);
    assert_eq!(read("-"), None);
    assert_eq!(read("+"), None);
    assert_eq!(read("1 "), None);
    assert_eq!(read("1a"), None);
    assert_eq!(read("--1"), None);
}

#[test]
fn breaks_have_a_length() {
    assert_eq!(break_duration(Some(40), Some(Strength::Strong)), Some(40));
    assert_eq!(break_duration(Some(0), None), Some(0));
    assert_eq!(break_duration(None, Some(Strength::No)), None);
    assert_eq!(break_duration(None, Some(Strength::ExtraWeak)), Some(200));
    assert_eq!(break_duration(None, Some(Strength::Weak)), Some(500));
    assert_eq!(break_duration(None, Some(Strength::Medium)), Some(1000));
    assert_eq!(break_duration(None, Some(Strength::Strong)), Some(2000));
    assert_eq!(break_duration(None, Some(Strength::ExtraStrong)), Some(5000));
    assert_eq!(break_duration(None, None), Some(1000));
}

#[test]
fn marked_up_text_is_told_apart() {
    assert!(is_ssml("<speak>hello</speak>"));
    assert!(is_ssml("  <?xml?><speak version=\"1.1\">"));
    assert!(!is_ssml("speak"));
    assert!(!is_ssml("<spea"));
    assert!(!is_ssml("< speak>"));
    assert!(!is_ssml(""));
}

#[test]
fn words_are_normalised() {
    let said = |s: &str| normalise_text(s).unwrap().to_string_unchecked();
    assert_eq!(said(""), "");
    assert_eq!(said("   "), "");
    assert_eq!(said("hello"), "HELLO");
    assert_eq!(said("café"), "CAFE");
    assert_eq!(said("rock & roll"), "ROCK AND ROLL");
    assert_eq!(said("R&D"), "RD");
    assert_eq!(said("well-known (fact)"), "WELL KNOWN FACT");
    assert_eq!(said("it's"), "ITS");
    assert_eq!(said("21st"), "TWENTY ONE ST");
    assert_eq!(said("1,000"), "ONE");
    assert_eq!(said("42"), "FORTY TWO");
    assert_eq!(said("a1b2c"), "A ONE B");
    assert_eq!(said("wait, what"), "WAIT,  WHAT");
    assert_eq!(said("no#"), "NO");
    assert_eq!(said("."), ".");
}

#[test]
fn chunks_of_a_text() {
    assert_eq!(
        normalise_text("Hi, you. ").unwrap().chunks(),
        &vec![
            text("HI"),
            NormaliserChunk::Punct(Punctuation::Comma),
            text(" YOU"),
            NormaliserChunk::Punct(Punctuation::FullStop),
        ]
    );
    assert_eq!(normalise_text("").unwrap().chunks(), &vec![]);
    assert_eq!(
        normalise_text("! !").unwrap().chunks(),
        &vec![
            NormaliserChunk::Punct(Punctuation::ExclamationMark),
            text(" "),
            NormaliserChunk::Punct(Punctuation::ExclamationMark),
        ]
    );
}

#[test]
fn numbers_without_a_spelling() {
    assert_eq!(normalise_text("..5"), Err(NormaliseError::InvalidNumber));
    assert_eq!(dict_normalise("..5(2)"), Err(NormaliseError::InvalidNumber));
    assert_eq!(
        NormaliseError::PronunciationInText.to_string(),
        "can't turn pronunciation chunk into text"
    );
}

#[test]
fn text_is_turned_into_units() {
    let mut normalised = normalise_text("Hi, you").unwrap();
    normalised.convert_to_units();
    assert_eq!(
        normalised.chunks(),
        &vec![
            NormaliserChunk::Pronunciation(vec![Unit::Character('h'), Unit::Character('i')]),
            NormaliserChunk::Pronunciation(vec![Unit::Punct(Punctuation::Comma)]),
            NormaliserChunk::Pronunciation(vec![
                Unit::Space,
                Unit::Character('y'),
                Unit::Character('o'),
                Unit::Character('u')
            ]),
        ]
    );
    assert_eq!(normalised.to_string(), Err(NormaliseError::PronunciationInText));
    let taken = normalised.drain_all();
    assert_eq!(taken.len(), 3);
    assert!(normalised.chunks().is_empty());
    assert_eq!(normalised.to_string(), Ok(String::new()));
}

#[test]
fn chunks_are_read_as_text() {
    let mut normalised = NormalisedText::from_chunks(vec![
        text("A"),
        NormaliserChunk::Break(500),
        text("B"),
        text(" C"),
        NormaliserChunk::Punct(Punctuation::FullStop),
        text("D "),
        text("E"),
    ]);
    assert_eq!(normalised.to_string(), Ok("A B  C. D E".to_string()));
    normalised.append(NormalisedText::from_chunks(vec![text("F")]));
    normalised.push(NormaliserChunk::Punct(Punctuation::QuestionMark));
    assert_eq!(normalised.to_string_unchecked(), "A B  C. D E F?");
}
