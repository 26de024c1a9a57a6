use xd_tts::cmu_dict::CmuDictionary;
use xd_tts::text_normaliser::NormaliseError;
use xd_tts::training::analytics::{AnalyticsGenerator, DiphoneStat};
use xd_tts::training::lj_speech::{transcribe, Dataset, Entry};

fn dictionary() -> CmuDictionary {
    let lines: Vec<String> = [
        "RUST  R AH1 S T",
        "HELLO  HH AH0 L OW1",
        "WORLD  W ER1 L D",
        "READ  R EH1 D",
        "READ(2)  R IY1 D",
    ]
    .iter()
    .map(|l| l.to_string())
    .collect();
    CmuDictionary::from_lines(&lines)
}

fn entry(id: &str, text: &str) -> Entry {
    Entry {
        id: id.to_string(),
        text: text.to_string(),
    }
}

fn stat(first: &str, second: &str, count: usize) -> DiphoneStat {
    DiphoneStat {
        phones: [first.to_string(), second.to_string()],
        count,
    }
}

#[test]
fn words_are_counted() {
    let mut analytics = AnalyticsGenerator::new(dictionary());
    assert_eq!(analytics.push_word("rust"), Ok(()));
    assert_eq!(analytics.push_word("xyzzy"), Ok(()));
    assert_eq!(analytics.push_word("xyzzy"), Ok(()));
    assert_eq!(analytics.push_word("..5"), Err(NormaliseError::InvalidNumber));
    let report = analytics.generate_report();
    assert_eq!(
        report.diphones,
        vec![stat("AH1", "S", 1), stat("R", "AH1", 1), stat("S", "T", 1)]
    );
    assert_eq!(report.phonemes.len(), 4);
    assert_eq!(report.phonemes.get("AH1"), Some(&1));
    assert_eq!(report.phonemes.get("R"), Some(&1));
    assert_eq!(report.phonemes.get("S"), Some(&1));
    assert_eq!(report.phonemes.get("T"), Some(&1));
    assert_eq!(report.phonemes.get("AH"), None);
    assert_eq!(report.oov.len(), 1);
    assert_eq!(report.oov.get("XYZZY"), Some(&2));
    assert!(report.sentence_lengths.is_empty());
}

#[test]
fn every_reading_of_a_word_is_counted() {
    let mut analytics = AnalyticsGenerator::new(dictionary());
    assert_eq!(analytics.push_word("read"), Ok(()));
    let report = analytics.generate_report();
    assert_eq!(report.phonemes.get("R"), Some(&2));
    assert_eq!(report.phonemes.get("D"), Some(&2));
    assert_eq!(report.phonemes.get("EH1"), Some(&1));
    assert_eq!(report.phonemes.get("IY1"), Some(&1));
    assert_eq!(
        report.diphones,
        vec![
            stat("EH1", "D", 1),
            stat("IY1", "D", 1),
            stat("R", "EH1", 1),
            stat("R", "IY1", 1)
        ]
    );
}

#[test]
fn sentences_are_counted() {
    let mut analytics = AnalyticsGenerator::new(dictionary());
    assert_eq!(analytics.push_sentence("Rust. Rust rust"), Ok(()));
    let report = analytics.generate_report();
    let lengths: Vec<(usize, usize)> = report.sentence_lengths.iter().map(|(k, v)| (*k, *v)).collect();
    assert_eq!(lengths, vec![(6, 1), (10, 1)]);
    assert_eq!(report.phonemes.get("R"), Some(&2));
    assert_eq!(report.oov.get("RUST."), Some(&1));
    assert_eq!(report.oov.len(), 1);
    assert_eq!(report.diphones, vec![stat("AH1", "S", 2), stat("R", "AH1", 2), stat("S", "T", 2)]);
}

#[test]
fn a_sentence_stops_at_a_word_without_spelling() {
    let mut analytics = AnalyticsGenerator::new(dictionary());
    assert_eq!(analytics.push_sentence("rust ..5 rust"), Err(NormaliseError::InvalidNumber));
    assert!(analytics.generate_report().phonemes.entries().is_empty());
    // the sentence as a whole is fine, one of its words is not
    assert_eq!(analytics.push_sentence("rust a..5 rust"), Ok(()));
    let mut analytics = AnalyticsGenerator::new(dictionary());
    assert_eq!(analytics.push_sentence("rust .,5. rust"), Err(NormaliseError::InvalidNumber));
}

#[test]
fn transcripts_are_written_with_phones() {
    let dict = dictionary();
    assert_eq!(
        transcribe("hello world.", &dict),
        Ok("{HH AH0 L OW1 } {W ER1 L D } . ".to_string())
    );
    assert_eq!(transcribe("hello, unknown world", &dict), Ok("{HH AH0 L OW1 } , {W ER1 L D } ".to_string()));
    assert_eq!(transcribe("", &dict), Ok(String::new()));
    assert_eq!(transcribe("..5", &dict), Err(NormaliseError::InvalidNumber));
}

#[test]
fn dataset_is_converted() {
    let dict = dictionary();
    let mut dataset = Dataset {
        entries: vec![entry("LJ001-0001", "Hello world."), entry("LJ001-0002", "rust")],
    };
    assert_eq!(dataset.convert_to_pronunciation(&dict), Ok(()));
    assert_eq!(
        dataset.entries,
        vec![
            entry("LJ001-0001", "{HH AH0 L OW1 } {W ER1 L D } . "),
            entry("LJ001-0002", "{R AH1 S T } ")
        ]
    );
    let mut dataset = Dataset {
        entries: vec![entry("LJ001-0001", "Hello world."), entry("LJ001-0002", "..5")],
    };
    assert_eq!(
        dataset.convert_to_pronunciation(&dict),
        Err(NormaliseError::InvalidNumber)
    );
    assert_eq!(dataset.entries[0], entry("LJ001-0001", "Hello world."));
}

#[test]
fn dataset_is_validated() {
    let good = Dataset {
        entries: vec![entry("a", "Hello world."), entry("b", "rust")],
    };
    assert!(good.validate());
    let empty = Dataset { entries: vec![] };
    assert!(empty.validate());
    let blank = Dataset {
        entries: vec![entry("a", "Hello world."), entry("b", "  ")],
    };
    assert!(!blank.validate());
    let nothing_spoken = Dataset {
        entries: vec![entry("a", "#")],
    };
    assert!(!nothing_spoken.validate());
    let no_spelling = Dataset {
        entries: vec![entry("a", "..5")],
    };
    assert!(!no_spelling.validate());
    let twice = Dataset {
        entries: vec![entry("a", "one"), entry("b", "two"), entry("a", "three")],
    };
    assert!(!twice.validate());
}

#[test]
fn dataset_from_records() {
    let record = |fields: &[&str]| fields.iter().map(|f| f.to_string()).collect::<Vec<String>>();
    let records = vec![
        record(&["LJ001-0001", "In 1970", "In nineteen seventy"]),
        record(&["LJ001-0002", "only one transcript"]),
        record(&["LJ001-0003"]),
        record(&[]),
        record(&["LJ001-0004", "a", "b", "c"]),
    ];
    let dataset = Dataset::from_records(&records);
    assert_eq!(
        dataset.entries,
        vec![
            entry("LJ001-0001", "In nineteen seventy"),
            entry("LJ001-0002", "only one transcript"),
            entry("LJ001-0004", "b")
        ]
    );
    assert_eq!(
        dataset.to_records(),
        vec![
            record(&["LJ001-0001", "In nineteen seventy", "In nineteen seventy"]),
            record(&["LJ001-0002", "only one transcript", "only one transcript"]),
            record(&["LJ001-0004", "b", "b"]),
        ]
    );
}
