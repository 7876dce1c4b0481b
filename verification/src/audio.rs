//! The audio side of the pipeline: the sample source, which cuts a stream
//! into blocks, and the playback adapter, which turns one block (or none)
//! into an output frame and two channels for analysis.
//!
//! Everything here moves samples without looking inside them, so the sample
//! type is a parameter.

use crossbeam_channel::{Receiver, Sender};
use vstd::prelude::*;

verus! {

/// The sending half of a `crossbeam_channel` channel. Nothing is known of
/// what is inside.
#[verifier::external_type_specification]
#[verifier::external_body]
#[verifier::reject_recursive_types(T)]
pub struct ExSender<T>(Sender<T>);

/// The receiving half of a `crossbeam_channel` channel. Nothing is known of
/// what is inside.
#[verifier::external_type_specification]
#[verifier::external_body]
#[verifier::reject_recursive_types(T)]
pub struct ExReceiver<T>(Receiver<T>);

/// Calls `Receiver::try_recv`, which returns at once, and keeps the message if
/// there was one. Whether there is one depends on the other side of the
/// channel, so nothing is claimed of the result.
#[verifier::external_body]
fn try_receive<T>(receiver: &Receiver<T>) -> (message: Option<T>) {
    receiver.try_recv().ok()
}

/// Calls `Sender::try_send`, which returns at once, and ignores the outcome:
/// a message that a full or disconnected channel turns away is dropped.
#[verifier::external_body]
fn forward<T>(sender: &Sender<T>, message: T) {
    let _ = sender.try_send(message);
}

/// What a sample source is, as mathematics.
pub struct SourceView<T> {
    /// Number of samples in a block: twice the block size, for two channels.
    pub block_len: nat,
    /// The samples taken in since the last block was handed out.
    pub pending: Seq<T>,
}

impl<T> SourceView<T> {
    /// Blocks are not empty and the pending samples do not yet make one.
    pub open spec fn wf(self) -> bool {
        self.pending.len() < self.block_len
    }

    /// A source for blocks of `block_size` frames that has taken in nothing.
    pub open spec fn fresh(block_size: nat) -> Self {
        SourceView { block_len: 2 * block_size, pending: Seq::empty() }
    }

    /// The source after one more sample.
    pub open spec fn pushed(self, sample: T) -> Self {
        if self.pending.len() + 1 == self.block_len {
            SourceView { block_len: self.block_len, pending: Seq::empty() }
        } else {
            SourceView { block_len: self.block_len, pending: self.pending.push(sample) }
        }
    }

    /// The block that taking in `sample` completes, if it completes one.
    pub open spec fn completed(self, sample: T) -> Option<Seq<T>> {
        if self.pending.len() + 1 == self.block_len {
            Some(self.pending.push(sample))
        } else {
            None
        }
    }

    /// The source after a run of samples.
    pub open spec fn fed(self, samples: Seq<T>) -> Self
        decreases samples.len(),
    {
        if samples.len() == 0 {
            self
        } else {
            self.fed(samples.drop_last()).pushed(samples.last())
        }
    }

    /// The blocks handed out during a run of samples, in order.
    pub open spec fn emitted(self, samples: Seq<T>) -> Seq<Seq<T>>
        decreases samples.len(),
    {
        if samples.len() == 0 {
            Seq::empty()
        } else {
            let earlier = self.emitted(samples.drop_last());
            match self.fed(samples.drop_last()).completed(samples.last()) {
                Some(block) => earlier.push(block),
                None => earlier,
            }
        }
    }
}

/// The `k`-th stretch of `len` items of `stream`.
pub open spec fn chunk<T>(stream: Seq<T>, len: nat, k: int) -> Seq<T> {
    stream.subrange(k * len, (k + 1) * len)
}

/// Cuts a stream of interleaved stereo samples into blocks of a fixed number
/// of frames. A block is handed out when its last sample arrives; samples
/// that do not fill a block stay behind.
pub struct SampleSource<T> {
    pending: Vec<T>,
    block_len: usize,
}

impl<T> View for SampleSource<T> {
    type V = SourceView<T>;

    closed spec fn view(&self) -> SourceView<T> {
        SourceView { block_len: self.block_len as nat, pending: self.pending@ }
    }
}

impl<T> SampleSource<T> {
    /// The source is well formed: see [`SourceView::wf`].
    pub open spec fn wf(&self) -> bool {
        self@.wf()
    }

    /// A source for blocks of `block_size` frames, two samples each.
    pub fn new(block_size: usize) -> (source: Self)
        requires
            block_size > 0,
            2 * block_size <= usize::MAX,
        ensures
            source.wf(),
            source@ == SourceView::<T>::fresh(block_size as nat),
    {
        SampleSource { pending: Vec::with_capacity(2 * block_size), block_len: 2 * block_size }
    }

    /// Number of samples in a block.
    pub fn block_len(&self) -> (len: usize)
        ensures
            len == self@.block_len,
    {
        self.block_len
    }

    /// Takes in one sample, and hands out the block if this sample
    /// completes it.
    pub fn push(&mut self, sample: T) -> (block: Option<Vec<T>>)
        requires
            old(self).wf(),
        ensures
            final(self).wf(),
            final(self)@ == old(self)@.pushed(sample),
            match block {
                Some(b) => old(self)@.completed(sample) == Some(b@),
                None => old(self)@.completed(sample) is None,
            },
    {
        self.pending.push(sample);
        if self.pending.len() == self.block_len {
            let mut block: Vec<T> = Vec::with_capacity(self.block_len);
            std::mem::swap(&mut self.pending, &mut block);
            Some(block)
        } else {
            None
        }
    }
}

/// What a source with pending samples `pending` makes of a run of samples:
/// the blocks are the stretches of the pending samples followed by the run,
/// and what does not fill a block stays pending.
proof fn lemma_feed<T>(source: SourceView<T>, samples: Seq<T>)
    requires
        source.wf(),
    ensures
        ({
            let stream = source.pending + samples;
            let blocks = source.emitted(samples);
            let after = source.fed(samples);
            &&& after.wf()
            &&& after.block_len == source.block_len
            &&& blocks.len() == stream.len() / source.block_len
            &&& forall|k: int| 0 <= k < blocks.len() ==> #[trigger] blocks[k] == chunk(stream, source.block_len, k)
            &&& after.pending == stream.subrange((blocks.len() * source.block_len) as int, stream.len() as int)
        }),
    decreases samples.len(),
{
    let len = source.block_len as int;
    let stream = source.pending + samples;
    let blocks = source.emitted(samples);
    let after = source.fed(samples);
    if samples.len() == 0 {
        assert(stream =~= source.pending);
        vstd::arithmetic::div_mod::lemma_basic_div(stream.len() as int, len);
        assert(after.pending =~= stream.subrange(0, stream.len() as int));
    } else {
        let shorter = samples.drop_last();
        let sample = samples.last();
        lemma_feed(source, shorter);
        let earlier_stream = source.pending + shorter;
        let earlier = source.emitted(shorter);
        let middle = source.fed(shorter);
        let count = earlier.len() as int;
        assert(stream =~= earlier_stream.push(sample));
        vstd::arithmetic::div_mod::lemma_fundamental_div_mod(earlier_stream.len() as int, len);
        assert(count * len == len * count) by (nonlinear_arith);
        assert forall|k: int| 0 <= k < count implies #[trigger] chunk(
            earlier_stream,
            source.block_len,
            k,
        ) == chunk(stream, source.block_len, k) by {
            assert(0 <= k * len && (k + 1) * len <= count * len && (k + 1) * len == k * len + len)
                by (nonlinear_arith)
                requires
                    0 <= k < count,
                    0 < len,
            ;
            assert(chunk(earlier_stream, source.block_len, k) =~= chunk(stream, source.block_len, k));
        }
        if middle.pending.len() + 1 == len {
            assert((count + 1) * len == count * len + len) by (nonlinear_arith);
            vstd::arithmetic::div_mod::lemma_fundamental_div_mod_converse(
                stream.len() as int,
                len,
                count + 1,
                0,
            );
            assert(middle.pending.push(sample) =~= chunk(stream, source.block_len, count));
            assert(after.pending =~= stream.subrange((count + 1) * len, stream.len() as int));
        } else {
            vstd::arithmetic::div_mod::lemma_fundamental_div_mod_converse(
                stream.len() as int,
                len,
                count,
                middle.pending.len() as int + 1,
            );
            assert(after.pending =~= stream.subrange(count * len, stream.len() as int));
        }
    }
}

/// A fresh source that takes in a stream of `n` samples hands out
/// `n / (2 * block_size)` blocks, rounded down. Each has `2 * block_size`
/// samples: the blocks are the successive stretches of the stream, in order,
/// and the samples after the last whole stretch stay pending.
pub proof fn lemma_source_emits_whole_blocks<T>(block_size: nat, samples: Seq<T>)
    requires
        block_size > 0,
    ensures
        ({
            let source = SourceView::<T>::fresh(block_size);
            let blocks = source.emitted(samples);
            &&& blocks.len() == samples.len() / (2 * block_size)
            &&& forall|k: int|
                0 <= k < blocks.len() ==> (#[trigger] blocks[k]).len() == 2 * block_size && blocks[k]
                    == chunk(samples, 2 * block_size, k)
            &&& source.fed(samples).pending == samples.subrange(
                (blocks.len() * (2 * block_size)) as int,
                samples.len() as int,
            )
        }),
{
    let source = SourceView::<T>::fresh(block_size);
    let len = (2 * block_size) as int;
    lemma_feed(source, samples);
    assert(source.pending + samples =~= samples);
    let blocks = source.emitted(samples);
    vstd::arithmetic::div_mod::lemma_fundamental_div_mod(samples.len() as int, len);
    assert forall|k: int| 0 <= k < blocks.len() implies (#[trigger] blocks[k]).len() == 2 * block_size by {
        assert(0 <= k * len && (k + 1) * len <= blocks.len() * len && (k + 1) * len == k * len + len
            && blocks.len() * len == len * blocks.len()) by (nonlinear_arith)
            requires
                0 <= k < blocks.len(),
                0 < len,
        ;
    }
}

/// The block played when none is pending: `frames` frames of silence.
pub open spec fn silence_block<T>(frames: nat, silence: T) -> Seq<T> {
    Seq::new(2 * frames, |i: int| silence)
}

/// The block with `left[i]` and `right[i]` as its `i`-th frame.
pub open spec fn interleaved<T>(left: Seq<T>, right: Seq<T>) -> Seq<T> {
    Seq::new(
        2 * left.len(),
        |k: int|
            if k % 2 == 0 {
                left[k / 2]
            } else {
                right[k / 2]
            },
    )
}

/// The samples at the even indices of `block`, in order.
pub open spec fn left_channel<T>(block: Seq<T>) -> Seq<T> {
    Seq::new((block.len() + 1) / 2, |i: int| block[2 * i])
}

/// The samples at the odd indices of `block`, in order.
pub open spec fn right_channel<T>(block: Seq<T>) -> Seq<T> {
    Seq::new(block.len() / 2, |i: int| block[2 * i + 1])
}

/// Whether the whole frames of `block` fit an output buffer of `room` samples.
pub open spec fn fits<T>(block: Seq<T>, room: nat) -> bool {
    2 * (block.len() / 2) <= room
}

/// An output buffer of `room` samples that holds the whole frames of `block`
/// from its start, and silence after them.
pub open spec fn output<T>(block: Seq<T>, room: nat, silence: T) -> Seq<T> {
    Seq::new(
        room,
        |k: int|
            if k < 2 * (block.len() / 2) {
                block[k]
            } else {
                silence
            },
    )
}

/// The block a turn deals with: the one received, or silence for `frames`
/// frames.
pub open spec fn block_at_hand<T>(received: Option<Seq<T>>, frames: nat, silence: T) -> Seq<T> {
    match received {
        Some(block) => block,
        None => silence_block(frames, silence),
    }
}

/// What the handoff queue held, as mathematics.
pub open spec fn held<T>(received: Option<Vec<T>>) -> Option<Seq<T>> {
    match received {
        Some(block) => Some(block@),
        None => None,
    }
}

/// What a turn makes of what the handoff queue held: how the turn ends,
/// and what the output buffer `out` holds after it.
///
/// The block at hand is played if its whole frames fit the buffer, as a
/// block if it was received and as an underrun if it stands in for a
/// missing one. If they do not fit, the buffer stays as it was.
pub open spec fn turn_outcome<T>(
    received: Option<Seq<T>>,
    frames: nat,
    silence: T,
    out: Seq<T>,
) -> (Playback, Seq<T>) {
    let block = block_at_hand(received, frames, silence);
    if !fits(block, out.len()) {
        (Playback::Overlong, out)
    } else if received is Some {
        (Playback::Block, output(block, out.len(), silence))
    } else {
        (Playback::Underrun, output(block, out.len(), silence))
    }
}

/// Taking a block apart undoes putting it together: the channels of the
/// block `[l0, r0, l1, r1, ..]` are `[l0, l1, ..]` and `[r0, r1, ..]`.
pub proof fn lemma_deinterleave_inverts_interleave<T>(left: Seq<T>, right: Seq<T>)
    requires
        left.len() == right.len(),
    ensures
        left_channel(interleaved(left, right)) == left,
        right_channel(interleaved(left, right)) == right,
{
    assert(left_channel(interleaved(left, right)) =~= left);
    assert(right_channel(interleaved(left, right)) =~= right);
}

/// On an underrun the block at hand has the requested number of frames and
/// holds nothing but silence; it fits a buffer with room for those frames,
/// and the output is then silence from end to end.
pub proof fn lemma_underrun_plays_silence<T>(frames: nat, room: nat, silence: T)
    requires
        2 * frames <= room,
    ensures
        ({
            let block = block_at_hand(None::<Seq<T>>, frames, silence);
            &&& block.len() == 2 * frames
            &&& forall|k: int| 0 <= k < block.len() ==> #[trigger] block[k] == silence
            &&& fits(block, room)
            &&& output(block, room, silence) == Seq::new(room, |k: int| silence)
        }),
{
    let block = silence_block(frames, silence);
    assert forall|k: int| 0 <= k < room implies #[trigger] output(block, room, silence)[k] == silence by {
        if k < 2 * (block.len() / 2) {
            assert(block[k] == silence);
        }
    }
    assert(output(block, room, silence) =~= Seq::new(room, |k: int| silence));
}

/// A block of `frames` frames of silence.
pub fn silent_block<T: Copy>(frames: usize, silence: T) -> (block: Vec<T>)
    requires
        2 * frames <= usize::MAX,
    ensures
        block@ == silence_block(frames as nat, silence),
{
    let len: usize = 2 * frames;
    let mut block: Vec<T> = Vec::with_capacity(len);
    let mut i: usize = 0;
    while i < len
        invariant
            i <= len,
            block@.len() == i,
            forall|j: int| 0 <= j < i ==> block@[j] == silence,
        decreases len - i,
    {
        block.push(silence);
        i += 1;
    }
    assert(block@ =~= silence_block(frames as nat, silence));
    block
}

/// Splits a block of interleaved stereo samples into its two channels.
pub fn deinterleave<T: Copy>(block: &[T]) -> (channels: (Vec<T>, Vec<T>))
    ensures
        channels.0@ == left_channel(block@),
        channels.1@ == right_channel(block@),
{
    let len: usize = block.len();
    let mut left: Vec<T> = Vec::new();
    let mut right: Vec<T> = Vec::new();
    let mut i: usize = 0;
    while i < len
        invariant
            len == block@.len(),
            i <= len,
            left@.len() == (i + 1) / 2,
            right@.len() == i / 2,
            forall|j: int| 0 <= j < left@.len() ==> left@[j] == block@[2 * j],
            forall|j: int| 0 <= j < right@.len() ==> right@[j] == block@[2 * j + 1],
        decreases len - i,
    {
        if i % 2 == 0 {
            left.push(block[i]);
        } else {
            right.push(block[i]);
        }
        i += 1;
    }
    assert(left@ =~= left_channel(block@));
    assert(right@ =~= right_channel(block@));
    (left, right)
}

/// Fills the output buffer with the whole frames of `block`, and with
/// silence where the block has ended.
pub fn write_frames<T: Copy>(block: &[T], out: &mut [T], silence: T)
    requires
        fits(block@, old(out)@.len()),
    ensures
        final(out)@ == output(block@, old(out)@.len(), silence),
{
    let room: usize = out.len();
    let whole: usize = 2 * (block.len() / 2);
    let mut k: usize = 0;
    while k < room
        invariant
            k <= room,
            room == out@.len(),
            whole == 2 * (block@.len() / 2),
            whole <= room,
            forall|j: int| 0 <= j < k ==> #[trigger] out@[j] == output(block@, room as nat, silence)[j],
        decreases room - k,
    {
        if k < whole {
            out[k] = block[k];
        } else {
            out[k] = silence;
        }
        k += 1;
    }
    assert(out@ =~= output(block@, room as nat, silence));
}

/// How one turn of the playback adapter ended.
#[derive(Clone, Copy, Debug, PartialEq, Eq, Structural)]
pub enum Playback {
    /// A pending block was played.
    Block,
    /// No block was pending, and silence was played in its place.
    Underrun,
    /// The block has more whole frames than the output buffer has room for;
    /// the buffer was left as it was.
    Overlong,
}

/// What a turn of the playback adapter yields: how it ended, and the two
/// channels of the block it dealt with.
pub struct Turn<T> {
    /// How the turn ended.
    pub playback: Playback,
    /// The left channel of the block.
    pub left: Vec<T>,
    /// The right channel of the block.
    pub right: Vec<T>,
}

/// One turn of the playback adapter, given what the handoff queue held.
///
/// The block is the one received, or `frames` frames of silence if there
/// was none. Its two channels are returned for analysis. If its whole
/// frames fit the output buffer they are written there, followed by
/// silence; if they do not, the buffer is left alone.
pub fn play<T: Copy>(received: Option<Vec<T>>, frames: usize, silence: T, out: &mut [T]) -> (turn:
    Turn<T>)
    requires
        2 * frames <= usize::MAX,
    ensures
        ({
            let block = block_at_hand(
                match received {
                    Some(b) => Some(b@),
                    None => None,
                },
                frames as nat,
                silence,
            );
            &&& turn.left@ == left_channel(block)
            &&& turn.right@ == right_channel(block)
            &&& turn.playback == if !fits(block, old(out)@.len()) {
                Playback::Overlong
            } else if received is Some {
                Playback::Block
            } else {
                Playback::Underrun
            }
            &&& final(out)@ == if fits(block, old(out)@.len()) {
                output(block, old(out)@.len(), silence)
            } else {
                old(out)@
            }
        }),
        (turn.playback, final(out)@) == turn_outcome(
            held(received),
            frames as nat,
            silence,
            old(out)@,
        ),
{
    let underrun: bool = received.is_none();
    let block: Vec<T> = match received {
        Some(b) => b,
        None => silent_block(frames, silence),
    };
    let (left, right) = deinterleave(block.as_slice());
    let playback = if 2 * (block.len() / 2) > out.len() {
        Playback::Overlong
    } else {
        write_frames(block.as_slice(), out, silence);
        if underrun {
            Playback::Underrun
        } else {
            Playback::Block
        }
    };
    Turn { playback, left, right }
}

/// The output callback: takes the pending block from `blocks` without
/// waiting, plays it or silence into `out`, and forwards the two channels
/// to `left` and `right` for analysis.
///
/// Which block is pending is for the other side of the queue to decide.
/// Whatever the queue held, a block no longer than a vector can be or
/// nothing at all, the result and the buffer are what [`turn_outcome`]
/// makes of it. So an underrun is reported only where the silence fits the
/// buffer, which it then fills; a block is reported only where one that
/// fits was written; and the buffer is left alone only where the block at
/// hand, received or silent, did not fit.
pub fn playback<T: Copy>(
    blocks: &Receiver<Vec<T>>,
    left: &Sender<Vec<T>>,
    right: &Sender<Vec<T>>,
    frames: usize,
    silence: T,
    out: &mut [T],
) -> (playback: Playback)
    requires
        2 * frames <= usize::MAX,
    ensures
        final(out)@.len() == old(out)@.len(),
        exists|received: Option<Seq<T>>|
            {
                &&& received matches Some(block) ==> block.len() <= usize::MAX
                &&& #[trigger] turn_outcome(received, frames as nat, silence, old(out)@) == (
                    playback,
                    final(out)@,
                )
            },
        playback is Underrun ==> 2 * frames <= old(out)@.len() && final(out)@ == Seq::new(
            old(out)@.len(),
            |k: int| silence,
        ),
        playback is Block ==> exists|block: Seq<T>|
            fits(block, old(out)@.len()) && final(out)@ == #[trigger] output(
                block,
                old(out)@.len(),
                silence,
            ),
        playback is Overlong ==> final(out)@ == old(out)@,
{
    let received = try_receive(blocks);
    let ghost queued = held(received);
    proof {
        if received is Some {
            let block = received->0;
            assert(block.len() == block@.len());
        }
    }
    let turn = play(received, frames, silence, out);
    proof {
        assert(turn_outcome(queued, frames as nat, silence, old(out)@) == (turn.playback, out@));
        if turn.playback is Underrun {
            lemma_underrun_plays_silence(frames as nat, old(out)@.len(), silence);
        }
    }
    forward(left, turn.left);
    forward(right, turn.right);
    turn.playback
}

} // verus!
