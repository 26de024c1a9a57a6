use xd_tts::phonemes::{Punctuation, Unit};
use xd_tts::tacotron2::{
    count_frames, plan_inference, resolve_units, stitched_shape, vocabulary, DecodeAction,
    DecoderLayout, DecoderStateMachine, InferError, Stage, MAX_DECODER_STEPS, PADDING_INDEX,
    WINDOW_SIZE,
};
use xd_tts::vocabulary::MissPolicy;

fn letters(n: usize) -> Vec<Unit> {
    (0..n).map(|i| Unit::Character((b'a' + (i % 26) as u8) as char)).collect()
}

#[test]
fn empty_input_plans_no_chunk() {
    let plan = plan_inference(&vocabulary(), &[], MissPolicy::Skip).unwrap();
    assert!(plan.chunks.is_empty());
    assert!(plan.misses.is_empty());
    assert_eq!(stitched_shape(&vec![]), Ok((0, 0)));
}

#[test]
fn forty_units_make_one_padded_chunk() {
    let units = letters(40);
    let plan = plan_inference(&vocabulary(), &units, MissPolicy::Skip).unwrap();
    assert_eq!(plan.chunks.len(), 1);
    let chunk = &plan.chunks[0];
    assert_eq!(chunk.length, 40);
    assert_eq!(chunk.indices.len(), 100);
    assert_eq!(WINDOW_SIZE, 100);
    for i in 0..40 {
        assert_eq!(chunk.indices[i], 38 + (i % 26) as i64);
    }
    for i in 40..100 {
        assert_eq!(chunk.indices[i], PADDING_INDEX);
    }
}

#[test]
fn chunks_cover_the_input_exactly() {
    // 30 sentences of 9 units each
    let mut units = vec![];
    for _ in 0..30 {
        units.extend(letters(8));
        units.push(Unit::Punct(Punctuation::FullStop));
    }
    let vocab = vocabulary();
    let plan = plan_inference(&vocab, &units, MissPolicy::Skip).unwrap();
    let resolved = resolve_units(&vocab, &units, MissPolicy::Skip);
    assert_eq!(resolved.indices.len(), 270);
    let mut joined = vec![];
    for chunk in plan.chunks.iter() {
        assert_eq!(chunk.indices.len(), WINDOW_SIZE);
        assert!(chunk.length <= WINDOW_SIZE);
        joined.extend_from_slice(&chunk.indices[..chunk.length]);
        assert!(chunk.indices[chunk.length..].iter().all(|i| *i == PADDING_INDEX));
    }
    assert_eq!(joined, resolved.indices);
    let lengths: Vec<usize> = plan.chunks.iter().map(|c| c.length).collect();
    assert_eq!(lengths, vec![98, 99, 73]);
}

#[test]
fn a_stretch_without_boundary_fails_the_plan() {
    let units = letters(101);
    let plan = plan_inference(&vocabulary(), &units, MissPolicy::Skip);
    // the only split stands at the start, so that the second piece is the whole input
    assert!(matches!(plan, Err(InferError::ChunkTooLong { chunk: 1, length: 101 })));
    let units = letters(100);
    assert!(plan_inference(&vocabulary(), &units, MissPolicy::Skip).is_ok());
}

#[test]
fn misses_follow_the_policy() {
    let units = vec![
        Unit::Character('a'),
        Unit::Character('1'),
        Unit::Unk,
        Unit::Character('b'),
    ];
    let vocab = vocabulary();
    let skipped = resolve_units(&vocab, &units, MissPolicy::Skip);
    assert_eq!(skipped.indices, vec![38, 39]);
    assert_eq!(skipped.units, vec![Unit::Character('a'), Unit::Character('b')]);
    assert_eq!(skipped.misses, vec![1, 2]);
    let replaced = resolve_units(&vocab, &units, MissPolicy::Substitute(7));
    assert_eq!(replaced.indices, vec![38, 7, 7, 39]);
    assert_eq!(replaced.units, units);
    assert_eq!(replaced.misses, vec![1, 2]);
    let plan = plan_inference(&vocab, &units, MissPolicy::Skip).unwrap();
    assert_eq!(plan.chunks[0].length, 2);
    assert_eq!(plan.misses, vec![1, 2]);
    let plan = plan_inference(&vocab, &units, MissPolicy::Substitute(7)).unwrap();
    assert_eq!(plan.chunks[0].length, 4);
}

#[test]
fn a_gate_that_fires_at_once_gives_one_frame() {
    let mut machine = DecoderStateMachine::new();
    assert_eq!(machine.stage(), Stage::Decode(0));
    assert_eq!(machine.accept_frame(true), DecodeAction::Finish);
    assert_eq!(machine.frame_count(), 1);
    assert!(machine.is_finished());
    assert_eq!(machine.stage(), Stage::PostProcess);
    assert_eq!(count_frames(&vec![true, false, true], MAX_DECODER_STEPS), 1);
}

#[test]
fn the_decoder_stops_at_the_cap() {
    let mut machine = DecoderStateMachine::new();
    let mut steps = 0;
    loop {
        steps += 1;
        if machine.accept_frame(false) == DecodeAction::Finish {
            break;
        }
        assert_eq!(machine.stage(), Stage::Decode(steps));
    }
    assert_eq!(steps, 1000);
    assert_eq!(machine.frame_count(), MAX_DECODER_STEPS);
    assert!(machine.is_finished());
}

#[test]
fn frames_are_counted_up_to_the_first_fired_gate() {
    assert_eq!(count_frames(&vec![false, false, true, true], 1000), 3);
    assert_eq!(count_frames(&vec![false, false, false, false], 1000), 4);
    assert_eq!(count_frames(&vec![false, false, false, false], 2), 2);
    assert_eq!(count_frames(&vec![false, true], 1), 1);
    assert_eq!(count_frames(&vec![], 1000), 0);
    assert_eq!(count_frames(&vec![false, false], 0), 1);
    assert!(DecoderStateMachine::with_max_steps(0).is_none());
    let mut machine = DecoderStateMachine::with_max_steps(2).unwrap();
    assert_eq!(machine.accept_frame(false), DecodeAction::Step);
    assert_eq!(machine.accept_frame(false), DecodeAction::Finish);
}

#[test]
fn decoder_state_is_laid_out_for_the_chunk() {
    let layout = DecoderLayout::new(1, 100, 40).unwrap();
    assert_eq!(layout.decoder_input, (1, 80));
    assert_eq!(layout.attention_hidden, (1, 1024));
    assert_eq!(layout.attention_cell, (1, 1024));
    assert_eq!(layout.decoder_hidden, (1, 1024));
    assert_eq!(layout.decoder_cell, (1, 1024));
    assert_eq!(layout.attention_weights, (1, 100));
    assert_eq!(layout.attention_weights_cum, (1, 100));
    assert_eq!(layout.attention_context, (1, 512));
    assert_eq!(layout.mask.len(), 100);
    assert!(layout.mask[..40].iter().all(|m| !*m));
    assert!(layout.mask[40..].iter().all(|m| *m));
    assert!(DecoderLayout::new(1, 100, 100).unwrap().mask.iter().all(|m| !*m));
    assert!(DecoderLayout::new(1, 100, 101).is_none());
}

#[test]
fn chunk_outputs_are_joined_along_time() {
    assert_eq!(stitched_shape(&vec![(120, 80)]), Ok((120, 80)));
    assert_eq!(stitched_shape(&vec![(120, 80), (30, 80), (7, 80)]), Ok((157, 80)));
    assert_eq!(stitched_shape(&vec![(0, 0), (30, 80)]), Ok((30, 80)));
    assert_eq!(
        stitched_shape(&vec![(120, 80), (30, 79), (7, 80)]),
        Err(InferError::ShapeMismatch {
            chunk: 1,
            stage: Stage::PostProcess
        })
    );
    assert_eq!(
        stitched_shape(&vec![(usize::MAX, 80), (1, 80)]),
        Err(InferError::ShapeMismatch {
            chunk: 1,
            stage: Stage::PostProcess
        })
    );
}
