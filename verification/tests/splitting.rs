use xd_tts::phonemes::{Punctuation, Unit};
use xd_tts::splitter::{find_splits, split_score};
use xd_tts::text_normaliser::{normalise_text, NormaliserChunk};

fn character_units(text: &str) -> Vec<Unit> {
    let mut normalised = normalise_text(text).unwrap();
    normalised.convert_to_units();
    let mut units = vec![];
    for chunk in normalised.drain_all() {
        if let NormaliserChunk::Pronunciation(mut u) = chunk {
            units.append(&mut u);
        }
    }
    units
}

fn largest_piece(splits: &[usize], len: usize) -> usize {
    let mut last = 0;
    let mut largest = 0;
    for s in splits.iter().chain(std::iter::once(&len)) {
        largest = largest.max(*s - last);
        last = *s;
    }
    largest
}

#[test]
fn split_units() {
    let text = "a b c d. e f g h. i j k l m n o p";
    let units = character_units(text);

    assert_eq!(text.chars().count(), units.len());

    let splits = find_splits(&units, 10);

    // Minimum number of splits we need!
    assert_eq!(splits.len(), 3);

    // location of the full stops
    assert_eq!(units[splits[0]], Unit::Punct(Punctuation::FullStop));
    assert_eq!(units[splits[1]], Unit::Punct(Punctuation::FullStop));
    assert!(splits[0] < splits[1]);

    assert!(splits[2] > splits[1] && splits[2] < splits[1] + 11);
    assert_eq!(units[splits[2]], Unit::Space);
}

#[test]
fn split_points_of_the_three_sentences() {
    let units = character_units("a b c d. e f g h. i j k l m n o p");
    assert_eq!(find_splits(&units, 10), vec![7, 16, 25]);
    assert_eq!(largest_piece(&[7, 16, 25], units.len()), 9);
}

#[test]
fn scores_of_units() {
    assert_eq!(split_score(&Unit::Punct(Punctuation::FullStop)), 3);
    assert_eq!(split_score(&Unit::Punct(Punctuation::QuestionMark)), 3);
    assert_eq!(split_score(&Unit::Punct(Punctuation::ExclamationMark)), 3);
    assert_eq!(split_score(&Unit::Padding), 3);
    assert_eq!(split_score(&Unit::Punct(Punctuation::Comma)), 2);
    assert_eq!(split_score(&Unit::Punct(Punctuation::SemiColon)), 2);
    assert_eq!(split_score(&Unit::Space), 1);
    assert_eq!(split_score(&Unit::Punct(Punctuation::Dash)), 0);
    assert_eq!(split_score(&Unit::Character('a')), 0);
    assert_eq!(split_score(&Unit::Unk), 0);
}

#[test]
fn short_input_is_not_split() {
    let units: Vec<Unit> = (0..40).map(|_| Unit::Character('a')).collect();
    assert_eq!(find_splits(&units, 100), Vec::<usize>::new());
    let units = character_units("one. two. three.");
    assert_eq!(find_splits(&units, units.len()), Vec::<usize>::new());
    assert_eq!(find_splits(&units, 1000), Vec::<usize>::new());
    assert_eq!(find_splits(&[], 0), Vec::<usize>::new());
    assert_eq!(find_splits(&[], 10), Vec::<usize>::new());
}

#[test]
fn pauses_are_used_before_spaces() {
    // the comma is taken in the first pass, the spaces are not needed
    let units = character_units("aa bb cc, dd ee ff");
    assert_eq!(units.len(), 18);
    assert_eq!(units[8], Unit::Punct(Punctuation::Comma));
    assert_eq!(find_splits(&units, 10), vec![8]);
    // with a window of six spaces have to serve as well
    let splits = find_splits(&units, 6);
    assert_eq!(splits, vec![5, 8, 12]);
    assert!(largest_piece(&splits, units.len()) <= 6);
}

#[test]
fn a_word_longer_than_the_window_cannot_be_split() {
    let units = character_units("abcdefghijkl mn");
    // the first boundary lies beyond the window: the start is returned,
    // and the first piece is longer than the window
    let splits = find_splits(&units, 5);
    assert_eq!(splits, vec![0, 12]);
    assert!(largest_piece(&splits, units.len()) > 5);
}

#[test]
fn splits_stand_on_boundaries_and_pieces_fit() {
    let text = "the quick brown fox, jumps over; the lazy dog. and again! and so on";
    let units = character_units(text);
    for max in [12usize, 15, 20, 30, 64] {
        let splits = find_splits(&units, max);
        let mut last = None;
        for s in splits.iter() {
            assert!(*s < units.len());
            assert!(split_score(&units[*s]) > 0);
            if let Some(l) = last {
                assert!(l < *s);
            }
            last = Some(*s);
        }
        assert!(largest_piece(&splits, units.len()) <= max);
    }
}
