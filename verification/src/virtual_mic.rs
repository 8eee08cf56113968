//! The ring through which the receiver feeds the virtual microphone. Samples are
//! handled as the bit patterns of 32-bit floating-point numbers.

use vstd::prelude::*;

verus! {

pub const SAMPLE_RATE: u32 = 48_000;

pub const CHANNELS: u32 = 1;

pub const RING_SECONDS: usize = 10;

pub const RING_SAMPLES: usize = 480_000;

pub const LATENCY_FRAMES: u64 = 2_400;

pub const DEFAULT_RING_PATH: &'static str = "/tmp/m5mic-virtual-mic-ring-v1";

/// `M5VR`, least significant byte first.
pub const RING_MAGIC: u32 = 0x5256_354d;

pub const RING_VERSION: u32 = 1;

pub const HEADER_BYTES: usize = 4096;

pub const TOTAL_BYTES: usize = 1_924_096;

#[derive(Debug, Clone, Copy, PartialEq, Eq, Structural)]
pub enum FeedState {
    Idle,
    Receiving,
}

impl FeedState {
    pub open spec fn code(self) -> u32 {
        match self {
            FeedState::Idle => 0,
            FeedState::Receiving => 1,
        }
    }
}

/// What stands in front of the samples.
#[derive(Debug, Clone, Copy, PartialEq, Eq, Structural)]
pub struct RingHeader {
    pub magic: u32,
    pub version: u32,
    pub header_bytes: u32,
    pub sample_rate: u32,
    pub channels: u32,
    pub ring_samples: u32,
    pub state: u32,
    pub write_index: u64,
    pub generation: u64,
    pub last_write_unix_ms: u64,
}

#[derive(Debug, Clone, Copy, PartialEq, Eq, Structural)]
pub struct FeedStatus {
    pub state: FeedState,
    pub write_index: u64,
    pub generation: u64,
    pub last_write_unix_ms: u64,
}

#[derive(Debug, Clone, Copy, PartialEq, Eq, Structural)]
pub enum RingError {
    NotInitialized,
    FormatMismatch,
}

impl RingError {
    pub fn message(self) -> (message: &'static str)
        ensures
            message == match self {
                RingError::NotInitialized => "virtual mic ring is not initialized",
                RingError::FormatMismatch => "virtual mic ring format mismatch",
            },
    {
        match self {
            RingError::NotInitialized => "virtual mic ring is not initialized",
            RingError::FormatMismatch => "virtual mic ring format mismatch",
        }
    }
}

pub fn default_ring_path() -> (path: &'static str)
    ensures
        path == DEFAULT_RING_PATH,
{
    DEFAULT_RING_PATH
}

impl RingHeader {
    /// Whether version and format are those of this ring.
    pub open spec fn format_matches(self) -> bool {
        &&& self.version == RING_VERSION
        &&& self.sample_rate == SAMPLE_RATE
        &&& self.channels == CHANNELS
        &&& self.ring_samples == RING_SAMPLES
    }

    /// The header of a ring that has just been laid out.
    pub open spec fn fresh() -> RingHeader {
        RingHeader {
            magic: RING_MAGIC,
            version: RING_VERSION,
            header_bytes: HEADER_BYTES as u32,
            sample_rate: SAMPLE_RATE,
            channels: CHANNELS,
            ring_samples: RING_SAMPLES as u32,
            state: FeedState::Idle.code(),
            write_index: 0,
            generation: 1,
            last_write_unix_ms: 0,
        }
    }

    /// Makes the ring ready for a writer: one of this format is kept and goes
    /// idle, anything else is laid out anew.
    pub fn initialize(&mut self, ring: &mut [u32])
        ensures
            old(self).magic == RING_MAGIC && old(self).format_matches() ==> *final(self) == (
            RingHeader { state: FeedState::Idle.code(), ..*old(self) }) && final(ring)@ == old(ring)@,
            !(old(self).magic == RING_MAGIC && old(self).format_matches()) ==> *final(self)
                == RingHeader::fresh() && final(ring)@ == Seq::new(
                old(ring)@.len(),
                |i: int| 0u32,
            ),
    {
        if self.magic == RING_MAGIC && self.version == RING_VERSION && self.sample_rate
            == SAMPLE_RATE && self.channels == CHANNELS && self.ring_samples as usize
            == RING_SAMPLES {
            self.state = 0;
            return;
        }
        fill_zero(ring, 0);
        assert(ring@ =~= Seq::new(ring@.len(), |i: int| 0u32));
        *self = RingHeader {
            magic: RING_MAGIC,
            version: RING_VERSION,
            header_bytes: HEADER_BYTES as u32,
            sample_rate: SAMPLE_RATE,
            channels: CHANNELS,
            ring_samples: RING_SAMPLES as u32,
            state: 0,
            write_index: 0,
            generation: 1,
            last_write_unix_ms: 0,
        };
    }

    /// Whether a reader may use the ring.
    pub fn validate(&self) -> (result: Result<(), RingError>)
        ensures
            result == if self.magic != RING_MAGIC {
                Err::<(), RingError>(RingError::NotInitialized)
            } else if !self.format_matches() {
                Err(RingError::FormatMismatch)
            } else {
                Ok(())
            },
    {
        if self.magic != RING_MAGIC {
            return Err(RingError::NotInitialized);
        }
        if self.version != RING_VERSION || self.sample_rate != SAMPLE_RATE || self.channels
            != CHANNELS || self.ring_samples as usize != RING_SAMPLES {
            return Err(RingError::FormatMismatch);
        }
        Ok(())
    }

    pub fn status(&self) -> (status: FeedStatus)
        ensures
            status == (FeedStatus {
                state: if self.state == FeedState::Receiving.code() {
                    FeedState::Receiving
                } else {
                    FeedState::Idle
                },
                write_index: self.write_index,
                generation: self.generation,
                last_write_unix_ms: self.last_write_unix_ms,
            }),
    {
        FeedStatus {
            state: if self.state == 1 {
                FeedState::Receiving
            } else {
                FeedState::Idle
            },
            write_index: self.write_index,
            generation: self.generation,
            last_write_unix_ms: self.last_write_unix_ms,
        }
    }

    /// Ends the feed: readers hear silence until the next write.
    pub fn set_idle(&mut self)
        ensures
            *final(self) == (RingHeader {
                state: FeedState::Idle.code(),
                generation: if old(self).generation == u64::MAX {
                    0
                } else {
                    (old(self).generation + 1) as u64
                },
                ..*old(self)
            }),
    {
        self.state = 0;
        self.generation = if self.generation == u64::MAX {
            0
        } else {
            self.generation + 1
        };
    }
}

/// Zeroes `out` from `from` on.
fn fill_zero(out: &mut [u32], from: usize)
    requires
        from <= old(out)@.len(),
    ensures
        final(out)@ == old(out)@.take(from as int) + Seq::new(
            (old(out)@.len() - from) as nat,
            |i: int| 0u32,
        ),
{
    let ghost before = out@;
    let mut i: usize = from;
    while i < out.len()
        invariant
            from <= i <= out@.len(),
            out@.len() == before.len(),
            forall|k: int| 0 <= k < from ==> out@[k] == before[k],
            forall|k: int| from <= k < i ==> out@[k] == 0,
        decreases out@.len() - i,
    {
        out[i] = 0;
        i += 1;
    }
    assert(out@ =~= before.take(from as int) + Seq::new(
        (before.len() - from) as nat,
        |i: int| 0u32,
    ));
}

/// The samples of a write that reach the ring: the last ones, if there are more
/// than it holds.
pub open spec fn kept(samples: Seq<u32>) -> Seq<u32> {
    if samples.len() > RING_SAMPLES {
        samples.skip(samples.len() - RING_SAMPLES)
    } else {
        samples
    }
}

/// How many samples behind the slot `start` the slot `p` comes, going round.
pub open spec fn slots_behind(p: int, start: int) -> int {
    if p >= start {
        p - start
    } else {
        p + RING_SAMPLES - start
    }
}

/// `ring` after `source` has been written from sample number `write_index` on.
pub open spec fn ring_after(ring: Seq<u32>, write_index: int, source: Seq<u32>) -> Seq<u32> {
    Seq::new(
        ring.len(),
        |p: int|
            {
                let k = slots_behind(p, write_index % RING_SAMPLES as int);
                if k < source.len() {
                    source[k]
                } else {
                    ring[p]
                }
            },
    )
}

/// The header and the ring after a write of `samples`.
pub open spec fn after_write(
    header: RingHeader,
    ring: Seq<u32>,
    samples: Seq<u32>,
    now_unix_ms: u64,
) -> (RingHeader, Seq<u32>) {
    if samples.len() == 0 {
        (header, ring)
    } else {
        (
            RingHeader {
                state: FeedState::Receiving.code(),
                write_index: if header.write_index + kept(samples).len() > u64::MAX {
                    u64::MAX
                } else {
                    (header.write_index + kept(samples).len()) as u64
                },
                last_write_unix_ms: now_unix_ms,
                ..header
            },
            ring_after(ring, header.write_index as int, kept(samples)),
        )
    }
}

/// Writes `samples` at the head of the ring.
pub fn write_samples(header: &mut RingHeader, ring: &mut [u32], samples: &[u32], now_unix_ms: u64)
    requires
        old(ring)@.len() == RING_SAMPLES,
    ensures
        (*final(header), final(ring)@) == after_write(
            *old(header),
            old(ring)@,
            samples@,
            now_unix_ms,
        ),
{
    if samples.len() == 0 {
        return;
    }
    let count: usize = if samples.len() > RING_SAMPLES {
        RING_SAMPLES
    } else {
        samples.len()
    };
    let skipped: usize = samples.len() - count;
    let start: usize = (header.write_index % 480_000) as usize;
    let ghost before = ring@;
    let ghost source = kept(samples@);
    let total: usize = samples.len();
    let mut k: usize = 0;
    while k < count
        invariant
            total == samples@.len(),
            count <= RING_SAMPLES,
            skipped + count == total,
            source == kept(samples@),
            source.len() == count,
            k <= count,
            start < RING_SAMPLES,
            ring@.len() == RING_SAMPLES,
            before.len() == RING_SAMPLES,
            forall|p: int|
                0 <= p < RING_SAMPLES ==> #[trigger] ring@[p] == if slots_behind(p, start as int)
                    < k {
                    source[slots_behind(p, start as int)]
                } else {
                    before[p]
                },
        decreases count - k,
    {
        let slot: usize = if start + k < RING_SAMPLES {
            start + k
        } else {
            start + k - RING_SAMPLES
        };
        assert(slots_behind(slot as int, start as int) == k);
        assert(source[k as int] == samples@[skipped + k]);
        ring[slot] = samples[skipped + k];
        k += 1;
    }
    assert(ring@ =~= ring_after(before, header.write_index as int, source));
    header.write_index = header.write_index.saturating_add(count as u64);
    header.last_write_unix_ms = now_unix_ms;
    header.state = 1;
}

pub open spec fn saturating_difference(a: int, b: int) -> int {
    if a > b {
        a - b
    } else {
        0
    }
}

/// The sample number from which a reader at `read_index` goes on: it skips what
/// the ring no longer holds, and falls back to its latency when it has come to
/// lag behind twice as far.
pub open spec fn resume_index(read_index: int, write_index: int, latency_frames: int) -> int {
    let held = if saturating_difference(write_index, read_index) > RING_SAMPLES {
        saturating_difference(write_index, RING_SAMPLES as int)
    } else {
        read_index
    };
    let limit = if latency_frames * 2 > u64::MAX {
        u64::MAX as int
    } else {
        latency_frames * 2
    };
    if latency_frames > 0 && saturating_difference(write_index, held) > limit {
        saturating_difference(write_index, latency_frames)
    } else {
        held
    }
}

/// Where a reader stands in the ring.
#[derive(Debug, Clone, Copy, PartialEq, Eq, Structural)]
pub struct RingReader {
    pub read_index: u64,
    pub latency_frames: u64,
}

/// How many samples a reader at `from` gets when it asks for `wanted`.
pub open spec fn read_count(from: int, write_index: int, wanted: int) -> int {
    let available = saturating_difference(write_index, from);
    if wanted < available {
        wanted
    } else {
        available
    }
}

/// What a reader that asks for `wanted` samples hears: those from number `from`
/// on, and zeros for want of more.
pub open spec fn heard(ring: Seq<u32>, from: int, write_index: int, wanted: nat) -> Seq<u32> {
    Seq::new(
        wanted,
        |i: int|
            if i < read_count(from, write_index, wanted as int) {
                ring[(from + i) % RING_SAMPLES as int]
            } else {
                0
            },
    )
}

pub open spec fn silence(len: nat) -> Seq<u32> {
    Seq::new(len, |i: int| 0u32)
}

/// What a read comes to.
#[verifier::ext_equal]
pub ghost struct RingRead {
    pub reader: RingReader,
    pub out: Seq<u32>,
    /// How many of the samples came from the ring.
    pub count: int,
}

/// A read of `wanted` samples. While nothing is being received, it gives silence.
pub open spec fn after_read(
    reader: RingReader,
    header: RingHeader,
    ring: Seq<u32>,
    wanted: nat,
) -> RingRead {
    let write_index = header.write_index as int;
    let from = resume_index(
        reader.read_index as int,
        write_index,
        reader.latency_frames as int,
    );
    let n = read_count(from, write_index, wanted as int);
    if header.magic != RING_MAGIC || header.state != FeedState::Receiving.code() || n == 0 {
        RingRead { reader, out: silence(wanted), count: 0 }
    } else {
        RingRead {
            reader: RingReader { read_index: (from + n) as u64, ..reader },
            out: heard(ring, from, write_index, wanted),
            count: n,
        }
    }
}

impl RingReader {
    /// A reader that starts its latency behind the writer.
    pub fn open(header: &RingHeader, latency_frames: u64) -> (result: Result<RingReader, RingError>)
        ensures
            result == if header.magic != RING_MAGIC {
                Err::<RingReader, RingError>(RingError::NotInitialized)
            } else if !header.format_matches() {
                Err(RingError::FormatMismatch)
            } else {
                Ok(
                    RingReader {
                        read_index: saturating_difference(
                            header.write_index as int,
                            latency_frames as int,
                        ) as u64,
                        latency_frames,
                    },
                )
            },
    {
        match header.validate() {
            Ok(()) => {},
            Err(error) => return Err(error),
        }
        let read_index: u64 = if header.write_index > latency_frames {
            header.write_index - latency_frames
        } else {
            0
        };
        Ok(RingReader { read_index, latency_frames })
    }

    /// Fills `out` from the ring; returns how many samples came from it. While
    /// nothing is being received, `out` is silent.
    pub fn read(&mut self, header: &RingHeader, ring: &[u32], out: &mut [u32]) -> (count: usize)
        requires
            ring@.len() == RING_SAMPLES,
        ensures
            (RingRead { reader: *final(self), out: final(out)@, count: count as int })
                == after_read(*old(self), *header, ring@, old(out)@.len()),
    {
        let wanted: usize = out.len();
        if wanted == 0 {
            assert(out@ =~= silence(0));
            return 0;
        }
        if header.magic != RING_MAGIC || header.state != 1 {
            fill_zero(out, 0);
            assert(out@ =~= silence(wanted as nat));
            return 0;
        }
        let write_index: u64 = header.write_index;
        let ring_samples: u64 = 480_000;
        let mut read_index: u64 = self.read_index;
        if write_index.saturating_sub(read_index) > ring_samples {
            read_index = write_index.saturating_sub(ring_samples);
        }
        if self.latency_frames > 0 && write_index.saturating_sub(read_index)
            > self.latency_frames.saturating_add(self.latency_frames) {
            read_index = write_index.saturating_sub(self.latency_frames);
        }
        let available: u64 = write_index.saturating_sub(read_index);
        assert(read_index == resume_index(
            self.read_index as int,
            write_index as int,
            self.latency_frames as int,
        ));
        assert(available <= RING_SAMPLES);
        if available == 0 {
            fill_zero(out, 0);
            assert(out@ =~= silence(wanted as nat));
            return 0;
        }
        let to_read: usize = if wanted < available as usize {
            wanted
        } else {
            available as usize
        };
        let start: usize = (read_index % 480_000) as usize;
        let ghost before = out@;
        let mut i: usize = 0;
        while i < to_read
            invariant
                i <= to_read <= wanted,
                wanted == out@.len(),
                to_read <= RING_SAMPLES,
                ring@.len() == RING_SAMPLES,
                start == read_index % 480_000,
                forall|k: int|
                    0 <= k < i ==> #[trigger] out@[k] == ring@[(read_index + k) % 480_000],
            decreases to_read - i,
        {
            let slot: usize = if start + i < RING_SAMPLES {
                start + i
            } else {
                start + i - RING_SAMPLES
            };
            assert(slot == (read_index + i) % 480_000);
            out[i] = ring[slot];
            i += 1;
        }
        fill_zero(out, to_read);
        assert(out@ =~= heard(ring@, read_index as int, write_index as int, wanted as nat));
        self.read_index = read_index.saturating_add(to_read as u64);
        to_read
    }
}

/// The ring holds the latest of all the samples ever written.
pub open spec fn holds(ring: Seq<u32>, history: Seq<u32>) -> bool {
    &&& ring.len() == RING_SAMPLES
    &&& forall|i: int|
        0 <= i < history.len() && history.len() - RING_SAMPLES <= i ==> #[trigger] history[i]
            == ring[i % RING_SAMPLES as int]
}

/// A write adds its samples to those that the ring holds the latest of.
pub proof fn law_write_extends_what_the_ring_holds(
    ring: Seq<u32>,
    history: Seq<u32>,
    samples: Seq<u32>,
)
    requires
        holds(ring, history),
    ensures
        holds(
            ring_after(ring, history.len() as int, kept(samples)),
            history + kept(samples),
        ),
{
    let w = history.len() as int;
    let source = kept(samples);
    let next = ring_after(ring, w, source);
    let all = history + source;
    assert forall|i: int|
        0 <= i < all.len() && all.len() - RING_SAMPLES <= i implies #[trigger] all[i] == next[i
        % RING_SAMPLES as int] by {
        let p = i % 480_000;
        let start = w % 480_000;
        if i >= w {
            assert(slots_behind(p, start) == i - w);
        } else {
            assert(slots_behind(p, start) == i - w + 480_000);
            assert(slots_behind(p, start) >= source.len());
        }
    }
}

/// All the samples that reach a ring over several writes.
pub open spec fn kept_of_all(writes: Seq<Seq<u32>>) -> Seq<u32>
    decreases writes.len(),
{
    if writes.len() == 0 {
        Seq::empty()
    } else {
        kept_of_all(writes.drop_last()) + kept(writes.last())
    }
}

/// A ring that nothing had been written to, after several writes.
pub open spec fn ring_after_all(ring: Seq<u32>, writes: Seq<Seq<u32>>) -> Seq<u32>
    decreases writes.len(),
{
    if writes.len() == 0 {
        ring
    } else {
        ring_after(
            ring_after_all(ring, writes.drop_last()),
            kept_of_all(writes.drop_last()).len() as int,
            kept(writes.last()),
        )
    }
}

/// Whatever is written, and however much, the ring holds the latest of it.
pub proof fn law_the_ring_holds_the_latest_of_all_writes(ring: Seq<u32>, writes: Seq<Seq<u32>>)
    requires
        ring.len() == RING_SAMPLES,
    ensures
        holds(ring_after_all(ring, writes), kept_of_all(writes)),
    decreases writes.len(),
{
    if writes.len() > 0 {
        let before = writes.drop_last();
        law_the_ring_holds_the_latest_of_all_writes(ring, before);
        law_write_extends_what_the_ring_holds(
            ring_after_all(ring, before),
            kept_of_all(before),
            writes.last(),
        );
    }
}

/// What a reader hears is what was written: the samples from where it resumes,
/// in order, with silence only where nothing more has been written.
pub proof fn law_read_gives_back_what_was_written(
    ring: Seq<u32>,
    history: Seq<u32>,
    reader: RingReader,
    wanted: nat,
)
    requires
        holds(ring, history),
        history.len() <= u64::MAX,
        reader.read_index <= history.len(),
    ensures
        ({
            let w = history.len() as int;
            let from = resume_index(
                reader.read_index as int,
                w,
                reader.latency_frames as int,
            );
            let n = read_count(from, w, wanted as int);
            &&& reader.read_index <= from <= w
            &&& heard(ring, from, w, wanted) == history.subrange(from, from + n) + silence(
                (wanted - n) as nat,
            )
        }),
{
    let w = history.len() as int;
    let from = resume_index(reader.read_index as int, w, reader.latency_frames as int);
    let n = read_count(from, w, wanted as int);
    let out = heard(ring, from, w, wanted);
    assert(w - from <= RING_SAMPLES);
    assert forall|i: int| 0 <= i < wanted implies out[i] == (history.subrange(from, from + n)
        + silence((wanted - n) as nat))[i] by {
        if i < n {
            assert(history[from + i] == ring[(from + i) % RING_SAMPLES as int]);
        }
    }
    assert(out =~= history.subrange(from, from + n) + silence((wanted - n) as nat));
}

/// Something that is done to a ring that one writer and one reader share.
pub ghost enum RingStep {
    Write { samples: Seq<u32>, now_unix_ms: u64 },
    Read { wanted: nat },
}

/// A ring in use, with all the samples that have been written to it and all those that
/// its reader has been given or has passed over.
pub ghost struct RingRun {
    pub header: RingHeader,
    pub ring: Seq<u32>,
    pub reader: RingReader,
    pub written: Seq<u32>,
    pub read: Seq<u32>,
}

impl RingRun {
    pub open spec fn unread(self) -> int {
        self.written.len() - self.read.len()
    }

    /// What a read of `wanted` samples comes to now.
    pub open spec fn reading(self, wanted: nat) -> RingRead {
        after_read(self.reader, self.header, self.ring, wanted)
    }

    /// What has been read is what was written first, and the ring holds the rest.
    pub open spec fn in_step(self) -> bool {
        &&& holds(self.ring, self.written)
        &&& self.header.magic == RING_MAGIC
        &&& self.header.write_index == self.written.len()
        &&& self.reader.read_index == self.read.len()
        &&& self.read.len() <= self.written.len()
        &&& self.read == self.written.take(self.read.len() as int)
        &&& self.header.state == FeedState::Receiving.code() || self.unread() == 0
    }

    /// That the reader has fallen behind neither so far that the ring has lost
    /// samples nor so far that it skips some to keep its latency.
    pub open spec fn keeps_up(self) -> bool {
        &&& self.unread() <= RING_SAMPLES
        &&& self.reader.latency_frames > 0 ==> self.unread() <= 2 * self.reader.latency_frames
        &&& self.written.len() <= u64::MAX
    }
}

pub open spec fn step_after(run: RingRun, step: RingStep) -> RingRun {
    match step {
        RingStep::Write { samples, now_unix_ms } => {
            let (header, ring) = after_write(run.header, run.ring, samples, now_unix_ms);
            RingRun { header, ring, written: run.written + samples, ..run }
        },
        RingStep::Read { wanted } => {
            let reading = run.reading(wanted);
            RingRun {
                reader: reading.reader,
                read: run.read + reading.out.take(reading.count),
                ..run
            }
        },
    }
}

pub open spec fn run_after(run: RingRun, steps: Seq<RingStep>) -> RingRun
    decreases steps.len(),
{
    if steps.len() == 0 {
        run
    } else {
        step_after(run_after(run, steps.drop_last()), steps.last())
    }
}

/// That the reader keeps up after each of the steps.
pub open spec fn keeps_up_throughout(start: RingRun, steps: Seq<RingStep>) -> bool {
    forall|k: int| 0 <= k <= steps.len() ==> (#[trigger] run_after(start, steps.take(k))).keeps_up()
}

/// What a read of `wanted` samples owes when `written` has been written and the first
/// `read` samples of it have been read: the next ones, as many as there are, and then
/// silence.
pub open spec fn next_samples(written: Seq<u32>, read: int, wanted: nat) -> Seq<u32> {
    let n = read_count(read, written.len() as int, wanted as int);
    written.subrange(read, read + n) + silence((wanted - n) as nat)
}

proof fn lemma_read_in_step(run: RingRun, wanted: nat)
    requires
        run.in_step(),
        run.keeps_up(),
    ensures
        run.reading(wanted).count == read_count(0, run.unread(), wanted as int),
        run.reading(wanted).out == next_samples(run.written, run.read.len() as int, wanted),
        step_after(run, RingStep::Read { wanted }).in_step(),
{
    let w = run.written.len() as int;
    let from = run.read.len() as int;
    let n = read_count(from, w, wanted as int);
    assert(resume_index(from, w, run.reader.latency_frames as int) == from);
    law_read_gives_back_what_was_written(run.ring, run.written, run.reader, wanted);
    let reading = run.reading(wanted);
    let owed = next_samples(run.written, from, wanted);
    if n == 0 {
        assert(run.written.subrange(from, from) =~= Seq::<u32>::empty());
        assert(owed =~= silence(wanted));
    }
    assert(reading.out == owed);
    assert(reading.out.take(n) =~= run.written.subrange(from, from + n));
    let after = step_after(run, RingStep::Read { wanted });
    assert(after.read =~= run.written.take(from + n));
}

proof fn lemma_write_in_step(run: RingRun, samples: Seq<u32>, now_unix_ms: u64)
    requires
        run.in_step(),
        step_after(run, RingStep::Write { samples, now_unix_ms }).keeps_up(),
    ensures
        step_after(run, RingStep::Write { samples, now_unix_ms }).in_step(),
{
    let after = step_after(run, RingStep::Write { samples, now_unix_ms });
    assert(kept(samples) == samples);
    assert(after.read =~= after.written.take(after.read.len() as int));
    if samples.len() == 0 {
        assert(after.written =~= run.written);
    } else {
        law_write_extends_what_the_ring_holds(run.ring, run.written, samples);
    }
}

proof fn lemma_run_in_step(start: RingRun, steps: Seq<RingStep>)
    requires
        start.in_step(),
        keeps_up_throughout(start, steps),
    ensures
        run_after(start, steps).in_step(),
        run_after(start, steps).keeps_up(),
    decreases steps.len(),
{
    assert(steps.take(steps.len() as int) =~= steps);
    assert(run_after(start, steps.take(steps.len() as int)).keeps_up());
    if steps.len() > 0 {
        let before = steps.drop_last();
        assert(keeps_up_throughout(start, before)) by {
            assert forall|k: int| 0 <= k <= before.len() implies (#[trigger] run_after(
                start,
                before.take(k),
            )).keeps_up() by {
                assert(before.take(k) =~= steps.take(k));
            }
        }
        lemma_run_in_step(start, before);
        let run = run_after(start, before);
        match steps.last() {
            RingStep::Write { samples, now_unix_ms } => {
                lemma_write_in_step(run, samples, now_unix_ms);
            },
            RingStep::Read { wanted } => {
                lemma_read_in_step(run, wanted);
            },
        }
    }
}

/// However writes and reads alternate, as long as the reader keeps up, each read gives
/// as many of the unread samples as there are and were asked for, and then silence;
/// and all that has been read is the first part of all that has been written. So no
/// sample is lost, repeated or put in another place, also round the end of the ring.
pub proof fn law_reads_give_the_writes_in_order(start: RingRun, steps: Seq<RingStep>)
    requires
        start.in_step(),
        keeps_up_throughout(start, steps),
    ensures
        forall|k: int, wanted: nat|
            #![trigger run_after(start, steps.take(k)).reading(wanted)]
            0 <= k < steps.len() && steps[k] == (RingStep::Read { wanted }) ==> {
                let run = run_after(start, steps.take(k));
                &&& run.reading(wanted).count == read_count(0, run.unread(), wanted as int)
                &&& run.reading(wanted).out == next_samples(
                    run.written,
                    run.read.len() as int,
                    wanted,
                )
            },
        run_after(start, steps).in_step(),
{
    lemma_run_in_step(start, steps);
    assert forall|k: int, wanted: nat|
        #![trigger run_after(start, steps.take(k)).reading(wanted)]
        0 <= k < steps.len() && steps[k] == (RingStep::Read { wanted }) implies {
        let run = run_after(start, steps.take(k));
        &&& run.reading(wanted).count == read_count(0, run.unread(), wanted as int)
        &&& run.reading(wanted).out == next_samples(run.written, run.read.len() as int, wanted)
    } by {
        let before = steps.take(k);
        assert(keeps_up_throughout(start, before)) by {
            assert forall|j: int| 0 <= j <= before.len() implies (#[trigger] run_after(
                start,
                before.take(j),
            )).keeps_up() by {
                assert(before.take(j) =~= steps.take(j));
            }
        }
        lemma_run_in_step(start, before);
        lemma_read_in_step(run_after(start, before), wanted);
    }
}

/// All the samples of the writes among `steps`.
pub open spec fn all_written(steps: Seq<RingStep>) -> Seq<u32>
    decreases steps.len(),
{
    if steps.len() == 0 {
        Seq::empty()
    } else {
        match steps.last() {
            RingStep::Write { samples, .. } => all_written(steps.drop_last()) + samples,
            RingStep::Read { .. } => all_written(steps.drop_last()),
        }
    }
}

/// All the samples that the reads among `steps` give, one read after the other.
pub open spec fn all_read(start: RingRun, steps: Seq<RingStep>) -> Seq<u32>
    decreases steps.len(),
{
    if steps.len() == 0 {
        Seq::empty()
    } else {
        match steps.last() {
            RingStep::Write { .. } => all_read(start, steps.drop_last()),
            RingStep::Read { wanted } => {
                let reading = run_after(start, steps.drop_last()).reading(wanted);
                all_read(start, steps.drop_last()) + reading.out.take(reading.count)
            },
        }
    }
}

/// A ring whose reader has just been opened without latency, whatever was written to
/// the ring before.
pub open spec fn just_opened(header: RingHeader, ring: Seq<u32>) -> RingRun {
    let before = Seq::new(
        header.write_index as nat,
        |i: int| ring[i % RING_SAMPLES as int],
    );
    RingRun {
        header,
        ring,
        reader: RingReader { read_index: header.write_index, latency_frames: 0 },
        written: before,
        read: before,
    }
}

/// What a reader without latency is given from when it is opened is the first part of
/// what is written from then on, as long as the ring can hold what is unread.
pub proof fn law_a_reader_hears_what_is_written_since_it_opened(
    header: RingHeader,
    ring: Seq<u32>,
    steps: Seq<RingStep>,
)
    requires
        header.magic == RING_MAGIC,
        ring.len() == RING_SAMPLES,
        keeps_up_throughout(just_opened(header, ring), steps),
    ensures
        just_opened(header, ring).in_step(),
        ({
            let read = all_read(just_opened(header, ring), steps);
            &&& read.len() <= all_written(steps).len()
            &&& read == all_written(steps).take(read.len() as int)
            &&& run_after(just_opened(header, ring), steps).unread() == all_written(steps).len()
                - read.len()
        }),
{
    let start = just_opened(header, ring);
    assert(start.read =~= start.written.take(start.read.len() as int));
    law_reads_give_the_writes_in_order(start, steps);
    lemma_logs(start, steps);
    let end = run_after(start, steps);
    let read = all_read(start, steps);
    let w = header.write_index as int;
    assert forall|i: int| 0 <= i < read.len() implies read[i] == all_written(steps)[i] by {
        assert(read[i] == end.read[w + i]);
        assert(end.read[w + i] == end.written[w + i]);
    }
    assert(read =~= all_written(steps).take(read.len() as int));
}

proof fn lemma_logs(start: RingRun, steps: Seq<RingStep>)
    ensures
        run_after(start, steps).written == start.written + all_written(steps),
        run_after(start, steps).read == start.read + all_read(start, steps),
    decreases steps.len(),
{
    if steps.len() == 0 {
        assert(start.written + Seq::<u32>::empty() =~= start.written);
        assert(start.read + Seq::<u32>::empty() =~= start.read);
    } else {
        lemma_logs(start, steps.drop_last());
        assert(run_after(start, steps).written =~= start.written + all_written(steps));
        assert(run_after(start, steps).read =~= start.read + all_read(start, steps));
    }
}

/// A reader goes on where it is as long as the ring still holds that and it does not lag
/// behind twice as far as it is meant to; one that lags further goes on at its latency,
/// and one without a latency at the oldest sample that the ring holds.
pub proof fn law_a_reader_skips_only_when_it_lags(
    read_index: int,
    write_index: int,
    latency_frames: int,
)
    requires
        0 <= read_index <= u64::MAX,
        0 <= write_index <= u64::MAX,
        0 <= latency_frames <= u64::MAX,
    ensures
        ({
            let from = resume_index(read_index, write_index, latency_frames);
            let lag = write_index - read_index;
            &&& lag <= 480_000 && (latency_frames == 0 || lag <= 2 * latency_frames) ==> from
                == read_index
            &&& lag > 2 * latency_frames && latency_frames > 0 && 2 * latency_frames < 480_000
                ==> from == write_index - latency_frames
            &&& lag > 480_000 && (latency_frames == 0 || 2 * latency_frames >= 480_000) ==> from
                == write_index - 480_000
        }),
{
}

/// A reader gets all it wants, or all there is.
pub proof fn law_a_reader_gets_what_there_is(from: int, write_index: int, wanted: int)
    requires
        from <= write_index,
        0 <= wanted,
    ensures
        ({
            let n = read_count(from, write_index, wanted);
            &&& 0 <= n <= wanted && from + n <= write_index
            &&& n == wanted || from + n == write_index
        }),
{
}

/// A reader hears silence and stays where it is unless audio is being received, whatever
/// else the feed is doing and whatever the ring holds; while it is, the reader hears what
/// it has not heard yet and moves on by as much.
pub proof fn law_a_reader_hears_only_what_is_being_received(
    reader: RingReader,
    header: RingHeader,
    ring: Seq<u32>,
    wanted: nat,
    i: int,
)
    requires
        reader.read_index <= header.write_index,
    ensures
        ({
            let read = after_read(reader, header, ring, wanted);
            &&& read.out.len() == wanted
            &&& header.state != 1 || header.magic != RING_MAGIC ==> read.reader == reader
                && read.count == 0 && (0 <= i < wanted ==> read.out[i] == 0)
            &&& header.state == 1 && header.magic == RING_MAGIC && wanted > 0 && reader.read_index
                < header.write_index ==> read.count > 0 && read.reader.read_index
                > reader.read_index
            &&& read.reader.latency_frames == reader.latency_frames
            &&& 0 <= read.count <= wanted
            &&& read.count <= i < wanted ==> read.out[i] == 0
        }),
{
}

} // verus!
