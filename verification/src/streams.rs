//! Classification of input streams and the dense mapping from input stream
//! indices to output stream indices.

use crate::timebase::Rational;
use crate::timebase::TimeBase;
use vstd::prelude::*;

verus! {

/// What a stream carries.
#[derive(Clone, Copy, Debug, PartialEq, Eq, Structural)]
pub enum MediaKind {
    Video,
    Audio,
    Subtitle,
    Other,
}

/// What is done with a stream: video is transcoded, audio and subtitles are
/// copied, anything else is dropped.
#[derive(Clone, Copy, Debug, PartialEq, Eq, Structural)]
pub enum StreamClass {
    Video,
    AudioOrSubtitle,
    Unsupported,
}

/// The codec parameters of a stream, as far as the orchestration reads them.
#[derive(Clone, Copy, Debug, PartialEq, Eq, Structural)]
pub struct CodecParameters {
    pub kind: MediaKind,
    pub codec_id: u32,
    pub codec_tag: u32,
}

/// Identity of one input stream, fixed once the input container is read.
#[derive(Clone, Copy, Debug, PartialEq, Eq, Structural)]
pub struct StreamDescriptor {
    pub index: usize,
    pub parameters: CodecParameters,
    pub time_base: TimeBase,
    pub frame_rate: Rational,
}

/// Where an input stream goes: to the output stream of that index, or nowhere.
#[derive(Clone, Copy, Debug, PartialEq, Eq, Structural)]
pub enum Slot {
    Output(usize),
    Dropped,
}

/// The class of a kind of stream.
pub open spec fn classify_spec(kind: MediaKind) -> StreamClass {
    match kind {
        MediaKind::Video => StreamClass::Video,
        MediaKind::Audio => StreamClass::AudioOrSubtitle,
        MediaKind::Subtitle => StreamClass::AudioOrSubtitle,
        MediaKind::Other => StreamClass::Unsupported,
    }
}

/// Says what is done with a stream of this kind.
pub fn classify(kind: MediaKind) -> (class: StreamClass)
    ensures
        class == classify_spec(kind),
{
    match kind {
        MediaKind::Video => StreamClass::Video,
        MediaKind::Audio => StreamClass::AudioOrSubtitle,
        MediaKind::Subtitle => StreamClass::AudioOrSubtitle,
        MediaKind::Other => StreamClass::Unsupported,
    }
}

/// A stream is kept unless its kind is unsupported.
pub open spec fn kept(s: StreamDescriptor) -> bool {
    classify_spec(s.parameters.kind) != StreamClass::Unsupported
}

/// How many of the first `n` streams are kept.
pub open spec fn kept_before(streams: Seq<StreamDescriptor>, n: int) -> nat
    decreases n,
{
    if n <= 0 {
        0
    } else {
        kept_before(streams, n - 1) + if kept(streams[n - 1]) {
            1nat
        } else {
            0nat
        }
    }
}

/// How many of the first `n` streams are dropped.
pub open spec fn dropped_before(streams: Seq<StreamDescriptor>, n: int) -> nat
    decreases n,
{
    if n <= 0 {
        0
    } else {
        dropped_before(streams, n - 1) + if kept(streams[n - 1]) {
            0nat
        } else {
            1nat
        }
    }
}

/// The number of output streams: the kept input streams.
pub open spec fn kept_count(streams: Seq<StreamDescriptor>) -> nat {
    kept_before(streams, streams.len() as int)
}

/// The slot of input stream `i`: a kept stream gets the next free output
/// index, which is the number of kept streams before it.
pub open spec fn slot_of(streams: Seq<StreamDescriptor>, i: int) -> Slot {
    if kept(streams[i]) {
        Slot::Output(kept_before(streams, i) as usize)
    } else {
        Slot::Dropped
    }
}

/// The mapping of a list of input streams: one slot per input stream.
pub open spec fn mapping_of(streams: Seq<StreamDescriptor>) -> Seq<Slot> {
    Seq::new(streams.len(), |i: int| slot_of(streams, i))
}

/// Of the first `n` streams each is either kept or dropped.
pub proof fn lemma_kept_before_bounds(streams: Seq<StreamDescriptor>, n: int)
    requires
        0 <= n,
    ensures
        kept_before(streams, n) <= n,
        kept_before(streams, n) + dropped_before(streams, n) == n,
    decreases n,
{
    if n > 0 {
        lemma_kept_before_bounds(streams, n - 1);
    }
}

/// The count of kept streams grows with the streams counted, and a kept
/// stream adds to it.
pub proof fn lemma_kept_before_monotonic(streams: Seq<StreamDescriptor>, i: int, j: int)
    requires
        0 <= i <= j,
    ensures
        kept_before(streams, i) <= kept_before(streams, j),
        i < j && kept(streams[i]) ==> kept_before(streams, i) < kept_before(streams, j),
    decreases j - i,
{
    if i < j {
        lemma_kept_before_monotonic(streams, i, j - 1);
    }
}

/// The stream mapping of one session: built once, read-only afterwards.
#[derive(Debug)]
pub struct StreamMapping {
    pub slots: Vec<Slot>,
}

impl StreamMapping {
    /// The output indices are dense and in the order of the input streams:
    /// each is the number of output slots before it.
    pub open spec fn wf(self) -> bool {
        forall|i: int|
            0 <= i < self.slots.len() && (#[trigger] self.slots[i]) is Output
                ==> self.slots[i]->Output_0 == outputs_before(self.slots@, i)
    }

    /// Classifies every stream and assigns the output indices.
    pub fn build(streams: &Vec<StreamDescriptor>) -> (m: StreamMapping)
        ensures
            m.slots@ == mapping_of(streams@),
            m.wf(),
    {
        let mut slots: Vec<Slot> = Vec::new();
        let mut next: usize = 0;
        let mut i: usize = 0;
        while i < streams.len()
            invariant
                i <= streams.len(),
                slots.len() == i,
                next == kept_before(streams@, i as int),
                forall|k: int| 0 <= k < i ==> slots[k] == slot_of(streams@, k),
            decreases streams.len() - i,
        {
            proof {
                lemma_kept_before_bounds(streams@, i as int);
            }
            match classify(streams[i].parameters.kind) {
                StreamClass::Unsupported => {
                    slots.push(Slot::Dropped);
                },
                _ => {
                    slots.push(Slot::Output(next));
                    next = next + 1;
                },
            }
            i = i + 1;
        }
        assert(slots@ =~= mapping_of(streams@));
        proof {
            assert forall|i: int| 0 <= i < slots.len() && (#[trigger] slots[i]) is Output implies slots[i]->Output_0
                == outputs_before(slots@, i) by {
                lemma_outputs_before_mapping(streams@, i);
                lemma_kept_before_bounds(streams@, i);
            }
        }
        StreamMapping { slots }
    }

    /// The number of input streams.
    pub fn len(&self) -> (n: usize)
        ensures
            n == self.slots.len(),
    {
        self.slots.len()
    }

    /// The slot of input stream `i`; a stream that the mapping does not know
    /// is dropped.
    pub fn get(&self, i: usize) -> (s: Slot)
        ensures
            s == if i < self.slots.len() {
                self.slots[i as int]
            } else {
                Slot::Dropped
            },
    {
        if i < self.slots.len() {
            self.slots[i]
        } else {
            Slot::Dropped
        }
    }

    /// The number of output streams.
    pub fn output_count(&self) -> (k: usize)
        ensures
            k == outputs_before(self.slots@, self.slots.len() as int),
    {
        let mut k: usize = 0;
        let mut i: usize = 0;
        while i < self.slots.len()
            invariant
                i <= self.slots.len(),
                k == outputs_before(self.slots@, i as int),
                k <= i,
            decreases self.slots.len() - i,
        {
            match self.slots[i] {
                Slot::Output(_) => {
                    k = k + 1;
                },
                Slot::Dropped => {},
            }
            i = i + 1;
        }
        k
    }
}

/// How many of the first `n` slots lead to an output stream.
pub open spec fn outputs_before(slots: Seq<Slot>, n: int) -> nat
    decreases n,
{
    if n <= 0 {
        0
    } else {
        outputs_before(slots, n - 1) + if slots[n - 1] is Output {
            1nat
        } else {
            0nat
        }
    }
}

/// Output index `k` is the slot of some input stream.
pub open spec fn is_assigned(slots: Seq<Slot>, k: int) -> bool {
    exists|i: int| 0 <= i < slots.len() && #[trigger] slots[i] == Slot::Output(k as usize)
}

/// The number of output streams of a mapping.
pub open spec fn output_count_of(slots: Seq<Slot>) -> nat {
    outputs_before(slots, slots.len() as int)
}

/// The output slots of a mapping are the kept streams.
pub proof fn lemma_outputs_before_mapping(streams: Seq<StreamDescriptor>, n: int)
    requires
        0 <= n <= streams.len(),
    ensures
        outputs_before(mapping_of(streams), n) == kept_before(streams, n),
    decreases n,
{
    if n > 0 {
        lemma_outputs_before_mapping(streams, n - 1);
    }
}

/// The output streams are as many as the input streams that are kept, and
/// that is all input streams but the dropped ones.
pub proof fn lemma_stream_count_conserved(streams: Seq<StreamDescriptor>)
    ensures
        mapping_of(streams).len() == streams.len(),
        output_count_of(mapping_of(streams)) == kept_count(streams),
        kept_count(streams) == streams.len() - dropped_before(streams, streams.len() as int),
{
    lemma_outputs_before_mapping(streams, streams.len() as int);
    lemma_kept_before_bounds(streams, streams.len() as int);
}

/// The output indices are exactly `0 .. K`, `K` the number of kept streams:
/// every slot's index is below `K`, every index below `K` is the slot of some
/// input stream, and of two kept streams the later one has the larger index.
pub proof fn lemma_output_indices_dense(streams: Seq<StreamDescriptor>)
    requires
        streams.len() <= usize::MAX,
    ensures
        forall|i: int|
            0 <= i < streams.len() && kept(streams[i]) ==> (#[trigger] mapping_of(streams)[i])
                is Output && mapping_of(streams)[i]->Output_0 < kept_count(streams),
        forall|i: int|
            0 <= i < streams.len() && !kept(streams[i]) ==> (#[trigger] mapping_of(
                streams,
            )[i]) is Dropped,
        forall|k: int|
            0 <= k < kept_count(streams) ==> #[trigger] is_assigned(mapping_of(streams), k),
        forall|i: int, j: int|
            0 <= i < j < streams.len() && kept(streams[i]) && kept(streams[j]) ==> (
            #[trigger] mapping_of(streams)[i])->Output_0 < (#[trigger] mapping_of(
                streams,
            )[j])->Output_0,
{
    let m = mapping_of(streams);
    let len = streams.len() as int;
    assert forall|i: int| 0 <= i < len && kept(streams[i]) implies (#[trigger] m[i]) is Output
        && m[i]->Output_0 < kept_count(streams) by {
        lemma_kept_before_bounds(streams, i);
        lemma_kept_before_monotonic(streams, i, len);
    }
    assert forall|i: int, j: int|
        0 <= i < j < len && kept(streams[i]) && kept(streams[j]) implies (#[trigger] m[i])
        ->Output_0 < (#[trigger] m[j])->Output_0 by {
        lemma_kept_before_bounds(streams, i);
        lemma_kept_before_bounds(streams, j);
        lemma_kept_before_monotonic(streams, i, j);
    }
    assert forall|k: int| 0 <= k < kept_count(streams) implies #[trigger] is_assigned(m, k) by {
        let i = lemma_index_with_rank(streams, len, k);
        lemma_kept_before_bounds(streams, i);
        assert(m[i] == Slot::Output(k as usize));
    }
}

/// Below `n` there is a kept stream with exactly `k` kept streams before it,
/// for every `k` smaller than the number of kept streams below `n`.
proof fn lemma_index_with_rank(streams: Seq<StreamDescriptor>, n: int, k: int) -> (i: int)
    requires
        0 <= k < kept_before(streams, n),
    ensures
        0 <= i < n,
        kept(streams[i]),
        kept_before(streams, i) == k,
    decreases n,
{
    if kept(streams[n - 1]) && kept_before(streams, n - 1) == k {
        n - 1
    } else {
        lemma_index_with_rank(streams, n - 1, k)
    }
}

} // verus!
