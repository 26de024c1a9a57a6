//! Inference with an encoder-decoder spectrogram model whose input window
//! has a fixed size.
//!
//! The tensor arithmetic of the three networks is done elsewhere. What is
//! decided here is everything around it: which index each unit is fed as,
//! where a long input is cut, how each chunk is padded, how the decoder's
//! state is laid out, when the decoder stops, and what shape the stitched
//! spectrogram has.
use crate::phonemes::{ArpaPhone, AuxiliarySymbol, PhoneticUnit, Punctuation, Unit};
use crate::splitter::{find_splits, positions, splits};
use crate::vocabulary::{best_match, MissPolicy, UnitVocabulary};
use vstd::prelude::*;

verus! {

/// The number of indices that the encoder takes at once.
pub const WINDOW_SIZE: usize = 100;

/// The number of frames after which the decoder is stopped, whatever its
/// gate says.
pub const MAX_DECODER_STEPS: usize = 1000;

/// The index that pads a chunk: that of the padding unit.
pub const PADDING_INDEX: i64 = 0;

/// The number of mel channels of a frame.
pub const MEL_CHANNELS: usize = 80;

/// The width of the attention network's recurrent state.
pub const ATTENTION_RNN_DIM: usize = 1024;

/// The width of the decoder network's recurrent state.
pub const DECODER_RNN_DIM: usize = 1024;

/// The width of an encoder output.
pub const ENCODER_EMBEDDING_DIM: usize = 512;

/// A phone without stress, as a unit.
pub open spec fn plain(phone: ArpaPhone) -> Unit {
    Unit::Phone(PhoneticUnit { phone, context: None })
}

/// A phone with a stress, as a unit.
pub open spec fn stressed(phone: ArpaPhone, stress: AuxiliarySymbol) -> Unit {
    Unit::Phone(PhoneticUnit { phone, context: Some(stress) })
}

/// The first entries of the vocabulary: padding, the punctuation marks
/// and the space.
pub open spec fn mark_units() -> Seq<Unit> {
    seq![
        Unit::Padding,
        Unit::Punct(Punctuation::Dash),
        Unit::Punct(Punctuation::ExclamationMark),
        Unit::Punct(Punctuation::Apostrophe),
        Unit::Punct(Punctuation::OpenBracket),
        Unit::Punct(Punctuation::CloseBracket),
        Unit::Punct(Punctuation::Comma),
        Unit::Punct(Punctuation::FullStop),
        Unit::Punct(Punctuation::Colon),
        Unit::Punct(Punctuation::SemiColon),
        Unit::Punct(Punctuation::QuestionMark),
        Unit::Space,
    ]
}

/// The `i`-th letter of `A` to `Z` followed by `a` to `z`.
pub open spec fn letter(i: int) -> char {
    if i < 26 {
        ((65 + i) as u8) as char
    } else {
        ((97 + i - 26) as u8) as char
    }
}

/// The capital letters, then the small ones, as character units.
pub open spec fn letter_units() -> Seq<Unit> {
    Seq::new(52, |i: int| Unit::Character(letter(i)))
}

/// The entries of one phone: the phone alone and, for a vowel, the phone
/// with no, primary and secondary stress.
pub open spec fn phone_entries(phone: ArpaPhone) -> Seq<Unit> {
    if phone.is_vowel() {
        seq![
            plain(phone),
            stressed(phone, AuxiliarySymbol::NoStress),
            stressed(phone, AuxiliarySymbol::PrimaryStress),
            stressed(phone, AuxiliarySymbol::SecondaryStress),
        ]
    } else {
        seq![plain(phone)]
    }
}

/// The entries of the first `n` phones of the alphabetical list.
pub open spec fn phone_units(n: int) -> Seq<Unit>
    decreases n,
{
    if n <= 0 {
        Seq::empty()
    } else {
        phone_units(n - 1) + phone_entries(ArpaPhone::at((n - 1) as u8))
    }
}

/// The vocabulary of the model: marks, letters, phones.
pub open spec fn id_list() -> Seq<Unit> {
    mark_units() + letter_units() + phone_units(39)
}

proof fn lemma_phone_units_len(n: int)
    requires
        0 <= n <= 39,
    ensures
        n <= phone_units(n).len() <= 4 * n,
    decreases n,
{
    if n > 0 {
        lemma_phone_units_len(n - 1);
    }
}

/// Generates the ordered list of the units that the model knows. The
/// index of a unit in this list is what the model is fed for it.
pub fn generate_id_list() -> (list: Vec<Unit>)
    ensures
        list@ == id_list(),
        list@[0] == Unit::Padding,
        64 <= list@.len() <= 220,
{
    let mut list: Vec<Unit> = vec![
        Unit::Padding,
        Unit::Punct(Punctuation::Dash),
        Unit::Punct(Punctuation::ExclamationMark),
        Unit::Punct(Punctuation::Apostrophe),
        Unit::Punct(Punctuation::OpenBracket),
        Unit::Punct(Punctuation::CloseBracket),
        Unit::Punct(Punctuation::Comma),
        Unit::Punct(Punctuation::FullStop),
        Unit::Punct(Punctuation::Colon),
        Unit::Punct(Punctuation::SemiColon),
        Unit::Punct(Punctuation::QuestionMark),
        Unit::Space,
    ];
    let mut i: u8 = 0;
    while i < 52
        invariant
            i <= 52,
            list@ == mark_units() + letter_units().take(i as int),
        decreases 52 - i,
    {
        let c: char = if i < 26 {
            (65u8 + i) as char
        } else {
            (97u8 + (i - 26)) as char
        };
        list.push(Unit::Character(c));
        i += 1;
    }
    let mut n: u8 = 0;
    while n < 39
        invariant
            n <= 39,
            list@ == mark_units() + letter_units() + phone_units(n as int),
        decreases 39 - n,
    {
        let phone = ArpaPhone::from_ordinal(n);
        list.push(Unit::Phone(PhoneticUnit { phone, context: None }));
        if phone.vowel() {
            list.push(Unit::Phone(PhoneticUnit { phone, context: Some(AuxiliarySymbol::NoStress) }));
            list.push(
                Unit::Phone(PhoneticUnit { phone, context: Some(AuxiliarySymbol::PrimaryStress) }),
            );
            list.push(
                Unit::Phone(PhoneticUnit { phone, context: Some(AuxiliarySymbol::SecondaryStress) }),
            );
        }
        n += 1;
    }
    proof {
        lemma_phone_units_len(39);
    }
    list
}

/// The vocabulary of the model.
pub fn vocabulary() -> (v: UnitVocabulary)
    ensures
        v.wf(),
        v@ == id_list(),
{
    UnitVocabulary::from_units(generate_id_list())
}

/// The units that get an index: those that the vocabulary holds and,
/// where misses are substituted, the others too.
pub open spec fn kept_units(list: Seq<Unit>, units: Seq<Unit>, policy: MissPolicy) -> Seq<Unit>
    decreases units.len(),
{
    if units.len() == 0 {
        Seq::empty()
    } else {
        let front = kept_units(list, units.drop_last(), policy);
        if best_match(list, units.last()) is Some || policy is Substitute {
            front.push(units.last())
        } else {
            front
        }
    }
}

/// The indices of the kept units, in order. A miss that is kept has the
/// index that the policy names.
pub open spec fn kept_indices(list: Seq<Unit>, units: Seq<Unit>, policy: MissPolicy) -> Seq<int>
    decreases units.len(),
{
    if units.len() == 0 {
        Seq::empty()
    } else {
        let front = kept_indices(list, units.drop_last(), policy);
        match (best_match(list, units.last()), policy) {
            (Some(i), _) => front.push(i),
            (None, MissPolicy::Substitute(i)) => front.push(i as int),
            (None, MissPolicy::Skip) => front,
        }
    }
}

/// The positions of the units that the vocabulary does not hold.
pub open spec fn missed(list: Seq<Unit>, units: Seq<Unit>) -> Seq<int>
    decreases units.len(),
{
    if units.len() == 0 {
        Seq::empty()
    } else {
        let front = missed(list, units.drop_last());
        if best_match(list, units.last()) is None {
            front.push(units.len() - 1)
        } else {
            front
        }
    }
}

/// Every kept unit has an index, no more units are kept than there
/// are, and where misses are substituted every unit is kept.
pub proof fn lemma_kept_len(list: Seq<Unit>, units: Seq<Unit>, policy: MissPolicy)
    ensures
        kept_units(list, units, policy).len() == kept_indices(list, units, policy).len(),
        kept_units(list, units, policy).len() <= units.len(),
        missed(list, units).len() <= units.len(),
        policy is Substitute ==> kept_units(list, units, policy) == units,
    decreases units.len(),
{
    if units.len() > 0 {
        lemma_kept_len(list, units.drop_last(), policy);
        if policy is Substitute {
            assert(units.drop_last().push(units.last()) == units);
        }
    }
}

/// Indices as mathematical integers.
pub open spec fn index_values(v: Seq<i64>) -> Seq<int> {
    v.map_values(|x: i64| x as int)
}

/// The outcome of looking every unit up in a vocabulary.
pub struct Resolution {
    /// The units that got an index.
    pub units: Vec<Unit>,
    /// Their indices.
    pub indices: Vec<i64>,
    /// The positions, in the input, of the units that the vocabulary does
    /// not hold.
    pub misses: Vec<usize>,
}

/// Looks every unit up in the vocabulary. What happens to a unit that it
/// does not hold is for `policy` to say; either way its position is
/// reported.
pub fn resolve_units(vocabulary: &UnitVocabulary, units: &[Unit], policy: MissPolicy) -> (r:
    Resolution)
    requires
        vocabulary.wf(),
    ensures
        r.units@ == kept_units(vocabulary@, units@, policy),
        index_values(r.indices@) == kept_indices(vocabulary@, units@, policy),
        positions(r.misses@) == missed(vocabulary@, units@),
{
    let mut kept: Vec<Unit> = Vec::new();
    let mut indices: Vec<i64> = Vec::new();
    let mut misses: Vec<usize> = Vec::new();
    let mut i: usize = 0;
    while i < units.len()
        invariant
            i <= units.len(),
            vocabulary.wf(),
            kept@ == kept_units(vocabulary@, units@.take(i as int), policy),
            index_values(indices@) == kept_indices(vocabulary@, units@.take(i as int), policy),
            positions(misses@) == missed(vocabulary@, units@.take(i as int)),
        decreases units.len() - i,
    {
        proof {
            assert(units@.take(i + 1).drop_last() == units@.take(i as int));
        }
        let unit = units[i];
        match vocabulary.resolve(&unit) {
            Some(index) => {
                kept.push(unit);
                indices.push(index);
            },
            None => {
                misses.push(i);
                match policy {
                    MissPolicy::Substitute(index) => {
                        kept.push(unit);
                        indices.push(index);
                    },
                    MissPolicy::Skip => {},
                }
            },
        }
        i += 1;
    }
    assert(units@.take(units.len() as int) == units@);
    Resolution { units: kept, indices, misses }
}

/// Where the chunks of a sequence of `len` units end: at each split and
/// at the end. An empty sequence has no chunk.
pub open spec fn chunk_ends(units: Seq<Unit>, window: int) -> Seq<int> {
    if units.len() == 0 {
        Seq::empty()
    } else {
        splits(units, window).push(units.len() as int)
    }
}

/// Where chunk `k` starts.
pub open spec fn chunk_start(ends: Seq<int>, k: int) -> int {
    if k <= 0 {
        0
    } else {
        ends[k - 1]
    }
}

/// `piece` filled up to `window` values with `pad`.
pub open spec fn padded(piece: Seq<int>, window: int, pad: int) -> Seq<int> {
    if piece.len() >= window {
        piece
    } else {
        piece + Seq::new((window - piece.len()) as nat, |i: int| pad)
    }
}

/// The first `k` pieces of `values` cut at `ends`, joined again.
pub open spec fn joined(values: Seq<int>, ends: Seq<int>, k: int) -> Seq<int>
    decreases k,
{
    if k <= 0 {
        Seq::empty()
    } else {
        joined(values, ends, k - 1) + values.subrange(chunk_start(ends, k - 1), ends[k - 1])
    }
}

/// Cutting a sequence and joining the pieces gives the sequence back:
/// nothing is dropped and nothing doubled at a cut.
pub proof fn lemma_joined_is_whole(values: Seq<int>, ends: Seq<int>, k: int)
    requires
        0 <= k <= ends.len(),
        forall|i: int, j: int| 0 <= i <= j < ends.len() ==> ends[i] <= ends[j],
        forall|i: int| 0 <= i < ends.len() ==> 0 <= #[trigger] ends[i] <= values.len(),
    ensures
        joined(values, ends, k) == values.take(chunk_start(ends, k)),
        k == ends.len() && k > 0 && ends.last() == values.len() ==> joined(values, ends, k)
            == values,
    decreases k,
{
    if k > 0 {
        lemma_joined_is_whole(values, ends, k - 1);
        let a = chunk_start(ends, k - 1);
        let b = ends[k - 1];
        if k >= 2 {
            assert(ends[k - 2] <= ends[k - 1]);
        }
        assert(values.take(a) + values.subrange(a, b) == values.take(b));
        if b == values.len() {
            assert(values.take(b) == values);
        }
    }
}

/// One stretch of the input, ready for the encoder.
pub struct Chunk {
    /// The indices of the chunk, padded to the window.
    pub indices: Vec<i64>,
    /// How many of them stand for units.
    pub length: usize,
}

/// Why an inference cannot go on. Apart from the index of the chunk, the
/// stage says where the fault arose.
#[derive(Clone, Copy, Debug, PartialEq, Eq, Structural)]
pub enum InferError {
    /// A stretch without a place to split is longer than the window.
    ChunkTooLong { chunk: usize, length: usize },
    /// A call of a network failed.
    EngineFailure { chunk: usize, stage: Stage },
    /// A network returned a tensor of an unexpected shape.
    ShapeMismatch { chunk: usize, stage: Stage },
}

/// The stages that a chunk goes through.
#[derive(Clone, Copy, Debug, PartialEq, Eq, Structural)]
pub enum Stage {
    /// The encoder's one call.
    Encode,
    /// The decoder's call with the given number, counted from 0.
    Decode(usize),
    /// The one call of the network that refines the spectrogram.
    PostProcess,
}

/// What an inference will feed the model: the chunks in order, and the
/// positions of the units that the vocabulary does not hold.
pub struct InferencePlan {
    pub chunks: Vec<Chunk>,
    pub misses: Vec<usize>,
}

/// Whether `chunk` is the `k`-th piece of `values` cut at `ends`, padded
/// with `pad` to the window.
pub open spec fn is_piece(chunk: Chunk, values: Seq<int>, ends: Seq<int>, k: int, pad: int) -> bool {
    &&& chunk.length == ends[k] - chunk_start(ends, k)
    &&& index_values(chunk.indices@) == padded(
        values.subrange(chunk_start(ends, k), ends[k]),
        WINDOW_SIZE as int,
        pad,
    )
}

/// The first chunk that does not fit the window, if there is one below
/// `k`.
pub open spec fn first_too_long(ends: Seq<int>, k: int) -> Option<int>
    decreases k,
{
    if k <= 0 {
        None
    } else {
        match first_too_long(ends, k - 1) {
            Some(i) => Some(i),
            None => if ends[k - 1] - chunk_start(ends, k - 1) > WINDOW_SIZE {
                Some(k - 1)
            } else {
                None
            },
        }
    }
}

/// Plans an inference: resolves the units, cuts the sequence where
/// `find_splits` says and pads every chunk to the window.
///
/// An empty input gives a plan without chunks. The plan fails where a
/// chunk would be longer than the window, and names the first such
/// chunk. Otherwise every chunk holds exactly `WINDOW_SIZE` indices, of
/// which the first `length` are those of its units and the rest is
/// padding.
pub fn plan_inference(vocabulary: &UnitVocabulary, units: &[Unit], policy: MissPolicy) -> (r:
    Result<InferencePlan, InferError>)
    requires
        vocabulary.wf(),
    ensures
        ({
            let kept = kept_units(vocabulary@, units@, policy);
            let values = kept_indices(vocabulary@, units@, policy);
            let ends = chunk_ends(kept, WINDOW_SIZE as int);
            match r {
                Ok(plan) => {
                    &&& first_too_long(ends, ends.len() as int) is None
                    &&& positions(plan.misses@) == missed(vocabulary@, units@)
                    &&& plan.chunks@.len() == ends.len()
                    &&& forall|k: int|
                        0 <= k < ends.len() ==> is_piece(
                            #[trigger] plan.chunks@[k],
                            values,
                            ends,
                            k,
                            PADDING_INDEX as int,
                        )
                    &&& forall|k: int|
                        0 <= k < ends.len() ==> (#[trigger] plan.chunks@[k]).indices@.len()
                            == WINDOW_SIZE
                    &&& joined(values, ends, ends.len() as int) == values
                },
                Err(e) => {
                    &&& first_too_long(ends, ends.len() as int) matches Some(k)
                    &&& e == (InferError::ChunkTooLong {
                        chunk: k as usize,
                        length: (ends[k] - chunk_start(ends, k)) as usize,
                    })
                },
            }
        }),
{
    let resolution = resolve_units(vocabulary, units, policy);
    let kept = resolution.units;
    let indices = resolution.indices;
    let pad = vocabulary.padding_index();
    let ghost values = index_values(indices@);
    proof {
        lemma_kept_len(vocabulary@, units@, policy);
    }
    let mut chunks: Vec<Chunk> = Vec::new();
    if kept.len() == 0 {
        return Ok(InferencePlan { chunks, misses: resolution.misses });
    }
    let mut ends = find_splits(kept.as_slice(), WINDOW_SIZE);
    let ghost found = ends@;
    ends.push(kept.len());
    let ghost cuts = positions(ends@);
    proof {
        assert(cuts == positions(found).push(kept.len() as int));
        lemma_joined_is_whole(values, cuts, cuts.len() as int);
    }
    let mut start: usize = 0;
    let mut k: usize = 0;
    while k < ends.len()
        invariant
            k <= ends.len(),
            cuts == positions(ends@),
            cuts == chunk_ends(
                kept_units(vocabulary@, units@, policy),
                WINDOW_SIZE as int,
            ),
            values == index_values(indices@),
            pad == 0,
            start == chunk_start(cuts, k as int),
            chunks@.len() == k,
            first_too_long(cuts, k as int) is None,
            forall|i: int, j: int| 0 <= i <= j < cuts.len() ==> cuts[i] <= cuts[j],
            forall|i: int| 0 <= i < cuts.len() ==> 0 <= #[trigger] cuts[i] <= values.len(),
            forall|j: int| 0 <= j < k ==> is_piece(#[trigger] chunks@[j], values, cuts, j, 0),
            forall|j: int| 0 <= j < k ==> (#[trigger] chunks@[j]).indices@.len() == WINDOW_SIZE,
        decreases ends.len() - k,
    {
        let end = ends[k];
        proof {
            assert(cuts[k as int] == end);
        }
        let length = end - start;
        if length > WINDOW_SIZE {
            proof {
                lemma_first_too_long_found(cuts, k as int, cuts.len() as int);
            }
            return Err(InferError::ChunkTooLong { chunk: k, length });
        }
        let mut piece: Vec<i64> = Vec::new();
        let mut i: usize = start;
        while i < end
            invariant
                start <= i <= end <= indices.len(),
                index_values(piece@) == index_values(indices@).subrange(start as int, i as int),
            decreases end - i,
        {
            let ghost before = piece@;
            piece.push(indices[i]);
            assert(index_values(piece@) == index_values(before).push(indices@[i as int] as int));
            i += 1;
        }
        let ghost bare = index_values(piece@);
        while piece.len() < WINDOW_SIZE
            invariant
                piece.len() <= WINDOW_SIZE,
                bare.len() == length,
                length <= WINDOW_SIZE,
                pad == 0,
                index_values(piece@) == bare + Seq::new(
                    (piece.len() - length) as nat,
                    |i: int| 0int,
                ),
            decreases WINDOW_SIZE - piece.len(),
        {
            let ghost old_piece = piece@;
            piece.push(pad);
            assert(index_values(piece@) == index_values(old_piece).push(0));
        }
        chunks.push(Chunk { indices: piece, length });
        start = end;
        k += 1;
    }
    Ok(InferencePlan { chunks, misses: resolution.misses })
}

proof fn lemma_first_too_long_found(ends: Seq<int>, k: int, n: int)
    requires
        0 <= k < n,
        first_too_long(ends, k) is None,
        ends[k] - chunk_start(ends, k) > WINDOW_SIZE,
    ensures
        first_too_long(ends, n) == Some(k),
    decreases n - k,
{
    if n > k + 1 {
        lemma_first_too_long_found(ends, k, n - 1);
    }
}

/// For a sequence that fits the window the plan is a single chunk, or
/// none where the sequence is empty.
pub proof fn lemma_short_input_is_one_chunk(units: Seq<Unit>)
    requires
        units.len() <= WINDOW_SIZE,
        splits(units, WINDOW_SIZE as int).len() == 0,
    ensures
        chunk_ends(units, WINDOW_SIZE as int) == if units.len() == 0 {
            Seq::<int>::empty()
        } else {
            seq![units.len() as int]
        },
        first_too_long(
            chunk_ends(units, WINDOW_SIZE as int),
            chunk_ends(units, WINDOW_SIZE as int).len() as int,
        ) is None,
{
    let ends = chunk_ends(units, WINDOW_SIZE as int);
    if units.len() > 0 {
        assert(ends == seq![units.len() as int]);
        assert(first_too_long(ends, 0) is None);
    }
}

/// The shapes of the tensors that the decoder threads from step to step,
/// and the mask that tells it where the chunk's units end. All tensors
/// start filled with zeros.
pub struct DecoderLayout {
    /// Rows and columns of the previous frame fed back in.
    pub decoder_input: (usize, usize),
    /// Shape of the hidden state of the attention network.
    pub attention_hidden: (usize, usize),
    /// Shape of the cell state of the attention network.
    pub attention_cell: (usize, usize),
    /// Shape of the hidden state of the decoder network.
    pub decoder_hidden: (usize, usize),
    /// Shape of the cell state of the decoder network.
    pub decoder_cell: (usize, usize),
    /// Shape of the attention weights.
    pub attention_weights: (usize, usize),
    /// Shape of the summed attention weights.
    pub attention_weights_cum: (usize, usize),
    /// Shape of the attention context.
    pub attention_context: (usize, usize),
    /// One flag per position of the window: true where padding stands.
    pub mask: Vec<bool>,
}

impl DecoderLayout {
    /// Lays out a fresh decoder state for an encoder output of `batch`
    /// rows and `seq_len` positions, of which the first `unpadded_len`
    /// stand for units. `None` says that the encoder's output is shorter
    /// than the chunk.
    pub fn new(batch: usize, seq_len: usize, unpadded_len: usize) -> (r: Option<DecoderLayout>)
        ensures
            r is Some <==> unpadded_len <= seq_len,
            r matches Some(layout) ==> {
                &&& layout.decoder_input == (batch, MEL_CHANNELS)
                &&& layout.attention_hidden == (batch, ATTENTION_RNN_DIM)
                &&& layout.attention_cell == (batch, ATTENTION_RNN_DIM)
                &&& layout.decoder_hidden == (batch, DECODER_RNN_DIM)
                &&& layout.decoder_cell == (batch, DECODER_RNN_DIM)
                &&& layout.attention_weights == (batch, seq_len)
                &&& layout.attention_weights_cum == (batch, seq_len)
                &&& layout.attention_context == (batch, ENCODER_EMBEDDING_DIM)
                &&& layout.mask@.len() == seq_len
                &&& forall|i: int|
                    0 <= i < seq_len ==> #[trigger] layout.mask@[i] == (i >= unpadded_len)
            },
    {
        if unpadded_len > seq_len {
            return None;
        }
        let mut mask: Vec<bool> = Vec::new();
        let mut i: usize = 0;
        while i < seq_len
            invariant
                i <= seq_len,
                mask@.len() == i,
                forall|j: int| 0 <= j < i ==> #[trigger] mask@[j] == (j >= unpadded_len),
            decreases seq_len - i,
        {
            mask.push(i >= unpadded_len);
            i += 1;
        }
        Some(
            DecoderLayout {
                decoder_input: (batch, MEL_CHANNELS),
                attention_hidden: (batch, ATTENTION_RNN_DIM),
                attention_cell: (batch, ATTENTION_RNN_DIM),
                decoder_hidden: (batch, DECODER_RNN_DIM),
                decoder_cell: (batch, DECODER_RNN_DIM),
                attention_weights: (batch, seq_len),
                attention_weights_cum: (batch, seq_len),
                attention_context: (batch, ENCODER_EMBEDDING_DIM),
                mask,
            },
        )
    }
}

/// What the decode loop does next.
#[derive(Clone, Copy, Debug, PartialEq, Eq, Structural)]
pub enum DecodeAction {
    /// Call the decoder again, with the state that the last call
    /// returned.
    Step,
    /// Stop: hand the frames gathered so far to post-processing.
    Finish,
}

/// The number of frames that a decode loop gathers, given what the stop
/// gate says after each frame: one more than the number of frames before
/// it first fires, never more than `max_steps`, and all of them where
/// the answers end before either.
pub open spec fn frames_gathered(gates: Seq<bool>, max_steps: int) -> int
    decreases gates.len(),
{
    if gates.len() == 0 {
        0
    } else if max_steps <= 1 || gates[0] {
        1
    } else {
        1 + frames_gathered(gates.drop_first(), max_steps - 1)
    }
}

/// The decode loop of one chunk: counts the frames and decides after each
/// whether another one is asked for.
pub struct DecoderStateMachine {
    max_steps: usize,
    frames: usize,
    finished: bool,
}

impl DecoderStateMachine {
    /// The number of frames at which the loop stops whatever its gate
    /// says.
    pub closed spec fn max_steps(&self) -> int {
        self.max_steps as int
    }

    /// The number of frames accepted so far.
    pub closed spec fn frames(&self) -> int {
        self.frames as int
    }

    /// Whether the loop has stopped.
    pub closed spec fn finished(&self) -> bool {
        self.finished
    }

    /// What holds in every state: the cap is never passed, and it is
    /// reached only by a loop that has stopped.
    pub open spec fn wf(&self) -> bool {
        &&& 0 < self.max_steps()
        &&& 0 <= self.frames() <= self.max_steps()
        &&& self.frames() == self.max_steps() ==> self.finished()
        &&& self.finished() ==> self.frames() > 0
    }

    /// A loop that has gathered nothing yet.
    pub fn new() -> (m: DecoderStateMachine)
        ensures
            m.wf(),
            m.frames() == 0,
            !m.finished(),
            m.max_steps() == MAX_DECODER_STEPS,
    {
        DecoderStateMachine { max_steps: MAX_DECODER_STEPS, frames: 0, finished: false }
    }

    /// A loop with a cap of its own, which must be positive.
    pub fn with_max_steps(max_steps: usize) -> (m: Option<DecoderStateMachine>)
        ensures
            m is Some <==> max_steps > 0,
            m matches Some(machine) ==> machine.wf() && machine.frames() == 0
                && !machine.finished() && machine.max_steps() == max_steps,
    {
        if max_steps == 0 {
            None
        } else {
            Some(DecoderStateMachine { max_steps, frames: 0, finished: false })
        }
    }

    /// The number of frames accepted so far.
    pub fn frame_count(&self) -> (n: usize)
        ensures
            n == self.frames(),
    {
        self.frames
    }

    /// Whether the loop has stopped.
    pub fn is_finished(&self) -> (b: bool)
        ensures
            b == self.finished(),
    {
        self.finished
    }

    /// The stage that the next call of the decoder belongs to.
    pub fn stage(&self) -> (s: Stage)
        ensures
            s == if self.finished() {
                Stage::PostProcess
            } else {
                Stage::Decode(self.frames() as usize)
            },
    {
        if self.finished {
            Stage::PostProcess
        } else {
            Stage::Decode(self.frames)
        }
    }

    /// Takes in one frame of the decoder together with what its stop
    /// gate said. The frame is always accepted. The loop stops when the
    /// gate has fired or the cap is reached; reaching the cap is no
    /// error.
    pub fn accept_frame(&mut self, gate_fired: bool) -> (action: DecodeAction)
        requires
            old(self).wf(),
            !old(self).finished(),
        ensures
            final(self).wf(),
            final(self).max_steps() == old(self).max_steps(),
            final(self).frames() == old(self).frames() + 1,
            final(self).finished() == (gate_fired || final(self).frames() == old(self).max_steps()),
            action == if final(self).finished() {
                DecodeAction::Finish
            } else {
                DecodeAction::Step
            },
    {
        self.frames = self.frames + 1;
        if gate_fired || self.frames == self.max_steps {
            self.finished = true;
            DecodeAction::Finish
        } else {
            DecodeAction::Step
        }
    }
}

/// Runs a decode loop over the answers of the stop gate and returns the
/// number of frames gathered. Answers after the stop are not looked at;
/// where the answers run out before the loop stops, the frames so far
/// are counted. The first frame is always taken, so that a cap of 0
/// counts as a cap of 1.
pub fn count_frames(gates: &Vec<bool>, max_steps: usize) -> (frames: usize)
    ensures
        frames == frames_gathered(gates@, max_steps as int),
        frames <= max_steps || frames == 1,
        frames <= gates.len(),
        gates.len() > 0 ==> frames >= 1,
{
    let cap: usize = if max_steps == 0 {
        1
    } else {
        max_steps
    };
    let mut machine = match DecoderStateMachine::with_max_steps(cap) {
        Some(m) => m,
        None => {
            return 0;
        },
    };
    let mut i: usize = 0;
    assert(gates@.skip(0) == gates@);
    while i < gates.len() && !machine.is_finished()
        invariant
            i <= gates.len(),
            machine.wf(),
            machine.frames() == i,
            machine.max_steps() == cap,
            cap == if max_steps == 0 {
                1int
            } else {
                max_steps as int
            },
            frames_gathered(gates@, max_steps as int) == if machine.finished() {
                i as int
            } else {
                i + frames_gathered(gates@.skip(i as int), max_steps - i)
            },
        decreases gates.len() - i,
    {
        proof {
            assert(gates@.skip(i as int).drop_first() == gates@.skip(i + 1));
        }
        machine.accept_frame(gates[i]);
        i += 1;
    }
    machine.frame_count()
}

/// The shape of the spectrogram after one more chunk has been joined to
/// it along the time axis. The first chunk that holds anything sets the
/// number of channels. `None` says that the channels differ, or that the
/// frames are more than can be counted.
pub open spec fn joined_shape(so_far: (int, int), next: (int, int)) -> Option<(int, int)> {
    if so_far.0 == 0 || so_far.1 == 0 {
        Some(next)
    } else if next.1 != so_far.1 || so_far.0 + next.0 > usize::MAX {
        None
    } else {
        Some((so_far.0 + next.0, so_far.1))
    }
}

/// The shape of the first `k` chunk outputs joined, each given as frames
/// by channels.
pub open spec fn stitched(shapes: Seq<(usize, usize)>, k: int) -> Option<(int, int)>
    decreases k,
{
    if k <= 0 {
        Some((0int, 0int))
    } else {
        match stitched(shapes, k - 1) {
            None => None,
            Some(so_far) => joined_shape(
                so_far,
                (shapes[k - 1].0 as int, shapes[k - 1].1 as int),
            ),
        }
    }
}

/// The shape of the spectrogram that joins the chunk outputs along the
/// time axis, in chunk order. No chunks give an empty spectrogram. The
/// first chunk that cannot be joined to what came before is reported as
/// a shape mismatch after post-processing.
pub fn stitched_shape(shapes: &Vec<(usize, usize)>) -> (r: Result<(usize, usize), InferError>)
    ensures
        match r {
            Ok(shape) => stitched(shapes@, shapes.len() as int) == Some(
                (shape.0 as int, shape.1 as int),
            ),
            Err(e) => exists|k: int|
                0 <= k < shapes.len() && stitched(shapes@, k) is Some && #[trigger] stitched(
                    shapes@,
                    k + 1,
                ) is None && e == (InferError::ShapeMismatch {
                    chunk: k as usize,
                    stage: Stage::PostProcess,
                }),
        },
{
    let mut frames: usize = 0;
    let mut channels: usize = 0;
    let mut k: usize = 0;
    while k < shapes.len()
        invariant
            k <= shapes.len(),
            stitched(shapes@, k as int) == Some((frames as int, channels as int)),
        decreases shapes.len() - k,
    {
        let next = shapes[k];
        assert(stitched(shapes@, k + 1) == joined_shape(
            (frames as int, channels as int),
            (next.0 as int, next.1 as int),
        ));
        if frames == 0 || channels == 0 {
            frames = next.0;
            channels = next.1;
        } else if next.1 != channels || next.0 > usize::MAX - frames {
            return Err(InferError::ShapeMismatch { chunk: k, stage: Stage::PostProcess });
        } else {
            frames = frames + next.0;
        }
        k += 1;
    }
    Ok((frames, channels))
}

} // verus!
