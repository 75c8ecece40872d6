//! One readback of GPU results at a time: the busy flag, the counters that have to balance, and
//! what each outcome of mapping the staging buffer means.
use crate::bytes::{bytes_hold, bytes_to_words, lemma_bytes_spell_words, little_endian};
use crate::chars::writes;
use crate::context::MerkleTreeGpuContext;
use crate::text::{decimal, lemma_decimal_writes, push_decimal};
use vstd::prelude::*;
use vstd::string::*;

verus! {

/// Milliseconds after which mapping the staging buffer counts as failed.
pub const MAP_TIMEOUT_MS: u32 = 5000;

/// Readbacks and mapped slices that are under way, and the number of the next readback.
#[derive(Clone, Copy, Debug, PartialEq, Eq, Structural)]
pub struct ReadbackCounters {
    pub active_readbacks: u32,
    pub active_mapped_slices: u32,
    pub readback_seq: u32,
}

impl ReadbackCounters {
    /// Nothing under way; readbacks are numbered from one.
    pub fn new() -> (counters: ReadbackCounters)
        ensures
            counters == (ReadbackCounters {
                active_readbacks: 0,
                active_mapped_slices: 0,
                readback_seq: 1,
            }),
    {
        ReadbackCounters { active_readbacks: 0, active_mapped_slices: 0, readback_seq: 1 }
    }
}

/// Counts one readback for as long as it is active.
#[derive(Debug)]
pub struct ReadbackGuard {
    pub size_bytes: u64,
    pub active: bool,
}

impl ReadbackGuard {
    /// Counts a new readback. Also returns how many were active before.
    pub fn new(counters: &mut ReadbackCounters, size_bytes: u64) -> (result: (ReadbackGuard, u32))
        requires
            old(counters).active_readbacks < u32::MAX,
        ensures
            result.0.size_bytes == size_bytes,
            result.0.active,
            result.1 == old(counters).active_readbacks,
            *final(counters) == (ReadbackCounters {
                active_readbacks: (old(counters).active_readbacks + 1) as u32,
                ..*old(counters)
            }),
    {
        let previous: u32 = counters.active_readbacks;
        counters.active_readbacks = previous + 1;
        (ReadbackGuard { size_bytes, active: true }, previous)
    }

    /// Takes the readback out of the count, the first time it is called.
    pub fn release(&mut self, counters: &mut ReadbackCounters)
        requires
            old(self).active ==> old(counters).active_readbacks > 0,
        ensures
            final(self).size_bytes == old(self).size_bytes,
            !final(self).active,
            old(self).active ==> *final(counters) == (ReadbackCounters {
                active_readbacks: (old(counters).active_readbacks - 1) as u32,
                ..*old(counters)
            }),
            !old(self).active ==> *final(counters) == *old(counters),
    {
        if !self.active {
            return ;
        }
        counters.active_readbacks = counters.active_readbacks - 1;
        self.active = false;
    }
}

/// Counts one mapped slice for as long as it is mapped.
#[derive(Debug)]
pub struct MappedSliceGuard {
    pub active: bool,
}

impl MappedSliceGuard {
    /// Counts a new mapped slice.
    pub fn new(counters: &mut ReadbackCounters) -> (guard: MappedSliceGuard)
        requires
            old(counters).active_mapped_slices < u32::MAX,
        ensures
            guard.active,
            *final(counters) == (ReadbackCounters {
                active_mapped_slices: (old(counters).active_mapped_slices + 1) as u32,
                ..*old(counters)
            }),
    {
        counters.active_mapped_slices = counters.active_mapped_slices + 1;
        MappedSliceGuard { active: true }
    }

    /// Takes the slice out of the count, the first time it is called.
    pub fn release(&mut self, counters: &mut ReadbackCounters)
        requires
            old(self).active ==> old(counters).active_mapped_slices > 0,
        ensures
            !final(self).active,
            old(self).active ==> *final(counters) == (ReadbackCounters {
                active_mapped_slices: (old(counters).active_mapped_slices - 1) as u32,
                ..*old(counters)
            }),
            !old(self).active ==> *final(counters) == *old(counters),
    {
        if !self.active {
            return ;
        }
        counters.active_mapped_slices = counters.active_mapped_slices - 1;
        self.active = false;
    }
}

/// Why a readback gave no words.
#[derive(Debug)]
pub enum ReadbackError {
    /// Another readback is under way.
    Concurrent,
    /// The device found fault with the copy; the text is the device's.
    Validation(String),
    /// Mapping failed; the text is the device's.
    MapFailed(String),
    /// The callback for mapping was dropped.
    MapDropped,
    /// Mapping took too long.
    TimedOut { id: u32 },
    /// The timer was dropped before it fired.
    WatchdogDropped { id: u32 },
}

impl ReadbackError {
    /// What the error says.
    pub open spec fn text(self) -> Seq<char> {
        match self {
            ReadbackError::Concurrent => "concurrent readback detected"@,
            ReadbackError::Validation(detail) => "validation error during readback: "@ + detail@,
            ReadbackError::MapFailed(detail) => "map_async error: "@ + detail@,
            ReadbackError::MapDropped => "map_async callback dropped"@,
            ReadbackError::TimedOut { id } => "readback["@ + decimal(id as nat)
                + "] map_async timed out after "@ + decimal(MAP_TIMEOUT_MS as nat) + "ms"@,
            ReadbackError::WatchdogDropped { id } => "readback["@ + decimal(id as nat)
                + "] map_async watchdog channel dropped before firing"@,
        }
    }

    /// What the error says.
    pub fn message(&self) -> (message: String)
        ensures
            message@ == self.text(),
    {
        let mut out = String::new();
        match self {
            ReadbackError::Concurrent => {
                out.append("concurrent readback detected");
            },
            ReadbackError::Validation(detail) => {
                out.append("validation error during readback: ");
                out.append(detail.as_str());
            },
            ReadbackError::MapFailed(detail) => {
                out.append("map_async error: ");
                out.append(detail.as_str());
            },
            ReadbackError::MapDropped => {
                out.append("map_async callback dropped");
            },
            ReadbackError::TimedOut { id } => {
                out.append("readback[");
                push_decimal(&mut out, *id as u64);
                out.append("] map_async timed out after ");
                push_decimal(&mut out, MAP_TIMEOUT_MS as u64);
                out.append("ms");
            },
            ReadbackError::WatchdogDropped { id } => {
                out.append("readback[");
                push_decimal(&mut out, *id as u64);
                out.append("] map_async watchdog channel dropped before firing");
            },
        }
        assert(out@ =~= self.text());
        out
    }
}

/// What came first: the outcome of mapping, or the timer's.
#[derive(Debug)]
pub enum MapEvent {
    /// The staging buffer is mapped.
    Mapped,
    /// Mapping failed; the text is the device's.
    Failed(String),
    /// The callback for mapping was dropped.
    CallbackDropped,
    /// The timer fired.
    TimerFired,
    /// The timer was dropped.
    TimerDropped,
}

/// The error that an event of mapping stands for; none where the buffer is mapped.
pub open spec fn map_error(event: MapEvent, id: u32) -> Option<ReadbackError> {
    match event {
        MapEvent::Mapped => None,
        MapEvent::Failed(detail) => Some(ReadbackError::MapFailed(detail)),
        MapEvent::CallbackDropped => Some(ReadbackError::MapDropped),
        MapEvent::TimerFired => Some(ReadbackError::TimedOut { id }),
        MapEvent::TimerDropped => Some(ReadbackError::WatchdogDropped { id }),
    }
}

/// The error with which a readback ends before its bytes are read. A fault that the device found
/// with the copy goes before what became of mapping.
pub open spec fn settle_error(
    validation: Option<String>,
    event: MapEvent,
    id: u32,
) -> Option<ReadbackError> {
    match validation {
        Some(detail) => Some(ReadbackError::Validation(detail)),
        None => map_error(event, id),
    }
}

/// A readback under way.
#[derive(Debug)]
pub struct Readback {
    /// The number of the readback.
    pub id: u32,
    /// Words to read.
    pub word_len: u64,
    /// Bytes to read.
    pub staging_size: u64,
    pub readback_guard: ReadbackGuard,
    pub map_guard: MappedSliceGuard,
}

/// A readback that has begun.
#[derive(Debug)]
pub struct ReadbackStart {
    pub readback: Readback,
    /// A staging buffer of the readback's size has to be made.
    pub new_staging: bool,
    /// Readbacks that were active before; none, unless contexts overlap.
    pub overlapping: u32,
}

impl Readback {
    /// The readback is counted, and counted as mapped, in these counters.
    pub open spec fn counted(self, counters: ReadbackCounters) -> bool {
        &&& self.readback_guard.active
        &&& counters.active_readbacks > 0
        &&& self.map_guard.active ==> counters.active_mapped_slices > 0
    }
}

/// The counters after a readback has begun.
pub open spec fn counters_begun(counters: ReadbackCounters) -> ReadbackCounters {
    ReadbackCounters {
        active_readbacks: (counters.active_readbacks + 1) as u32,
        readback_seq: if counters.readback_seq == u32::MAX {
            0
        } else {
            (counters.readback_seq + 1) as u32
        },
        ..counters
    }
}

/// The counters after the staging buffer of a readback is being mapped.
pub open spec fn counters_mapping(counters: ReadbackCounters) -> ReadbackCounters {
    ReadbackCounters {
        active_mapped_slices: (counters.active_mapped_slices + 1) as u32,
        ..counters
    }
}

/// The counters after a readback has ended.
pub open spec fn counters_ended(
    readback: Readback,
    counters: ReadbackCounters,
) -> ReadbackCounters {
    ReadbackCounters {
        active_readbacks: (counters.active_readbacks - 1) as u32,
        active_mapped_slices: if readback.map_guard.active {
            (counters.active_mapped_slices - 1) as u32
        } else {
            counters.active_mapped_slices
        },
        ..counters
    }
}

/// The context while a readback of `size` bytes is under way.
pub open spec fn context_begun(context: MerkleTreeGpuContext, size: u64) -> MerkleTreeGpuContext {
    MerkleTreeGpuContext { readback_busy: true, ..context.with_staging(size) }
}

/// The context after a readback has ended.
pub open spec fn context_ended(context: MerkleTreeGpuContext) -> MerkleTreeGpuContext {
    MerkleTreeGpuContext { readback_busy: false, ..context }
}

/// Begins a readback of `word_len` words, unless one is under way on the context.
pub fn begin_readback(
    context: &mut MerkleTreeGpuContext,
    counters: &mut ReadbackCounters,
    word_len: u64,
) -> (result: Result<ReadbackStart, ReadbackError>)
    requires
        word_len * 4 <= u64::MAX,
        !old(context).readback_busy ==> old(counters).active_readbacks < u32::MAX,
    ensures
        old(context).readback_busy ==> {
            &&& result == Err::<ReadbackStart, ReadbackError>(ReadbackError::Concurrent)
            &&& *final(context) == *old(context)
            &&& *final(counters) == *old(counters)
        },
        !old(context).readback_busy ==> {
            &&& result matches Ok(start)
            &&& start.readback.id == old(counters).readback_seq
            &&& start.readback.word_len == word_len
            &&& start.readback.staging_size == word_len * 4
            &&& start.readback.readback_guard.size_bytes == word_len * 4
            &&& !start.readback.map_guard.active
            &&& start.readback.counted(*final(counters))
            &&& start.new_staging == old(context).needs_staging((word_len * 4) as u64)
            &&& start.overlapping == old(counters).active_readbacks
            &&& *final(context) == context_begun(*old(context), (word_len * 4) as u64)
            &&& *final(counters) == counters_begun(*old(counters))
        },
{
    if context.readback_busy {
        return Err(ReadbackError::Concurrent);
    }
    context.readback_busy = true;
    let id: u32 = counters.readback_seq;
    counters.readback_seq = if id == u32::MAX {
        0
    } else {
        id + 1
    };
    let staging_size: u64 = word_len * 4;
    let (readback_guard, overlapping) = ReadbackGuard::new(counters, staging_size);
    let new_staging = context.get_or_make_staging(staging_size);
    let map_guard = MappedSliceGuard { active: false };
    let readback = Readback { id, word_len, staging_size, readback_guard, map_guard };
    Ok(ReadbackStart { readback, new_staging, overlapping })
}

impl Readback {
    /// Counts the staging buffer as mapped, from the moment that mapping is asked for.
    pub fn begin_mapping(&mut self, counters: &mut ReadbackCounters)
        requires
            old(self).counted(*old(counters)),
            !old(self).map_guard.active,
            old(counters).active_mapped_slices < u32::MAX,
        ensures
            *final(self) == (Readback {
                map_guard: MappedSliceGuard { active: true },
                ..*old(self)
            }),
            final(self).counted(*final(counters)),
            *final(counters) == counters_mapping(*old(counters)),
    {
        self.map_guard = MappedSliceGuard::new(counters);
    }

    /// Mapping of the staging buffer was asked for. Before the readback ends, the buffer has to be
    /// unmapped then, whatever became of mapping.
    pub fn must_unmap(&self) -> (unmap: bool)
        ensures
            unmap == self.map_guard.active,
    {
        self.map_guard.active
    }

    /// Ends the readback, whatever became of it: nothing of it stays counted and the context is
    /// free again.
    pub fn end(self, context: &mut MerkleTreeGpuContext, counters: &mut ReadbackCounters)
        requires
            self.counted(*old(counters)),
        ensures
            *final(context) == context_ended(*old(context)),
            *final(counters) == counters_ended(self, *old(counters)),
    {
        let mut readback_guard = self.readback_guard;
        let mut map_guard = self.map_guard;
        map_guard.release(counters);
        readback_guard.release(counters);
        context.readback_busy = false;
    }

    /// Takes in what became of mapping, and what fault the device found with the copy. Where
    /// either is an error the readback ends; else it goes on as it was.
    pub fn settle(
        self,
        context: &mut MerkleTreeGpuContext,
        counters: &mut ReadbackCounters,
        validation: Option<String>,
        event: MapEvent,
    ) -> (result: Result<Readback, ReadbackError>)
        requires
            self.counted(*old(counters)),
        ensures
            match settle_error(validation, event, self.id) {
                Some(error) => {
                    &&& result == Err::<Readback, ReadbackError>(error)
                    &&& *final(context) == context_ended(*old(context))
                    &&& *final(counters) == counters_ended(self, *old(counters))
                },
                None => {
                    &&& result == Ok::<Readback, ReadbackError>(self)
                    &&& *final(context) == *old(context)
                    &&& *final(counters) == *old(counters)
                },
            },
    {
        let id: u32 = self.id;
        if let Some(detail) = validation {
            self.end(context, counters);
            return Err(ReadbackError::Validation(detail));
        }
        match event {
            MapEvent::Mapped => Ok(self),
            MapEvent::Failed(detail) => {
                self.end(context, counters);
                Err(ReadbackError::MapFailed(detail))
            },
            MapEvent::CallbackDropped => {
                self.end(context, counters);
                Err(ReadbackError::MapDropped)
            },
            MapEvent::TimerFired => {
                self.end(context, counters);
                Err(ReadbackError::TimedOut { id })
            },
            MapEvent::TimerDropped => {
                self.end(context, counters);
                Err(ReadbackError::WatchdogDropped { id })
            },
        }
    }

    /// Reads the words out of the mapped bytes and ends the readback.
    pub fn complete(
        self,
        context: &mut MerkleTreeGpuContext,
        counters: &mut ReadbackCounters,
        mapped: &[u8],
    ) -> (words: Vec<u32>)
        requires
            self.counted(*old(counters)),
            mapped@.len() == self.word_len * 4,
        ensures
            *final(context) == context_ended(*old(context)),
            *final(counters) == counters_ended(self, *old(counters)),
            words@.len() == self.word_len,
            bytes_hold(mapped@, words@),
            forall|i: int|
                0 <= i < words@.len() ==> (#[trigger] words@[i]) as int == mapped@[4 * i] + 0x100
                    * mapped@[4 * i + 1] + 0x1_0000 * mapped@[4 * i + 2] + 0x100_0000 * mapped@[4
                    * i + 3],
    {
        self.end(context, counters);
        let words = bytes_to_words(mapped).unwrap();
        proof {
            lemma_bytes_spell_words(mapped@, words@);
        }
        words
    }
}

/// A readback that has begun and ended, mapped or not, leaves no trace in the counts, and leaves
/// the context free, with a staging buffer that holds the readback.
pub proof fn lemma_readback_balanced(
    context: MerkleTreeGpuContext,
    counters: ReadbackCounters,
    readback: Readback,
    size: u64,
)
    requires
        context.wf(),
        !context.readback_busy,
        counters.active_readbacks < u32::MAX,
        counters.active_mapped_slices < u32::MAX,
    ensures
        ({
            let begun = counters_begun(counters);
            let ended = counters_ended(
                readback,
                if readback.map_guard.active {
                    counters_mapping(begun)
                } else {
                    begun
                },
            );
            &&& ended.active_readbacks == counters.active_readbacks
            &&& ended.active_mapped_slices == counters.active_mapped_slices
        }),
        context_ended(context_begun(context, size)) == context.with_staging(size),
        !context_ended(context_begun(context, size)).readback_busy,
        context_ended(context_begun(context, size)).wf(),
{
}

/// Mapping and unmapping balance: a readback has to be unmapped just once mapping was asked for,
/// which counts one mapped slice, and its end takes that one out of the count again, and no other.
pub proof fn lemma_unmap_balances(readback: Readback, counters: ReadbackCounters)
    requires
        readback.counted(counters),
    ensures
        readback.map_guard.active ==> counters_ended(readback, counters).active_mapped_slices
            == counters.active_mapped_slices - 1,
        !readback.map_guard.active ==> counters_ended(readback, counters).active_mapped_slices
            == counters.active_mapped_slices,
{
}

/// Context and counters agree: one readback is counted just while the context is busy, and nothing
/// is mapped without it.
pub open spec fn in_step(context: MerkleTreeGpuContext, counters: ReadbackCounters) -> bool {
    &&& counters.active_readbacks == (if context.readback_busy {
        1int
    } else {
        0int
    })
    &&& counters.active_mapped_slices <= counters.active_readbacks
}

/// Readbacks never overlap: one begins only where none is counted, and beginning, mapping and
/// ending keep context and counters in step.
pub proof fn lemma_stays_in_step(
    context: MerkleTreeGpuContext,
    counters: ReadbackCounters,
    readback: Readback,
    size: u64,
)
    requires
        in_step(context, counters),
    ensures
        !context.readback_busy ==> counters.active_readbacks == 0 && in_step(
            context_begun(context, size),
            counters_begun(counters),
        ),
        context.readback_busy && counters.active_mapped_slices == 0 ==> in_step(
            context,
            counters_mapping(counters),
        ),
        context.readback_busy && (readback.map_guard.active <==> counters.active_mapped_slices
            == 1) ==> in_step(context_ended(context), counters_ended(readback, counters)),
{
}

/// Words that are turned into bytes, and mapped as they are, come back as the same words: what a
/// completed readback hands out is what was written.
pub proof fn lemma_readback_gives_written_words(
    written: Seq<u32>,
    mapped: Seq<u8>,
    read: Seq<u32>,
)
    requires
        little_endian(mapped, written),
        4 * read.len() == mapped.len(),
        forall|i: int|
            0 <= i < read.len() ==> (#[trigger] read[i]) as int == mapped[4 * i] + 0x100 * mapped[4
                * i + 1] + 0x1_0000 * mapped[4 * i + 2] + 0x100_0000 * mapped[4 * i + 3],
    ensures
        read == written,
{
    lemma_bytes_spell_words(mapped, written);
    assert forall|i: int| 0 <= i < read.len() implies read[i] == #[trigger] written[i] by {
        assert(read[i] as int == written[i] as int);
    }
    assert(read =~= written);
}

/// Readbacks are numbered one after the other, modulo `2^32`.
pub proof fn lemma_numbered(counters: ReadbackCounters)
    ensures
        counters_begun(counters).readback_seq == (counters.readback_seq + 1) % 0x1_0000_0000,
{
}

/// A readback goes on just where the device found no fault with the copy and the buffer is mapped;
/// a fault that the device found is told as it is, whatever became of mapping, and a fault of
/// mapping is told with the detail or the number of the readback.
pub proof fn lemma_settled(validation: Option<String>, event: MapEvent, id: u32)
    ensures
        settle_error(validation, event, id) is None <==> validation is None && event is Mapped,
        validation matches Some(detail) ==> settle_error(validation, event, id) == Some(
            ReadbackError::Validation(detail),
        ),
        validation is None ==> (event matches MapEvent::Failed(detail) ==> settle_error(
            validation,
            event,
            id,
        ) == Some(ReadbackError::MapFailed(detail))),
        validation is None && event is CallbackDropped ==> settle_error(validation, event, id)
            == Some(ReadbackError::MapDropped),
        validation is None && event is TimerFired ==> settle_error(validation, event, id) == Some(
            ReadbackError::TimedOut { id },
        ),
        validation is None && event is TimerDropped ==> settle_error(validation, event, id) == Some(
            ReadbackError::WatchdogDropped { id },
        ),
{
}

/// What an error says can be read back: the number of the readback stands in it in decimal digits,
/// and the device's own words stand at its end.
pub proof fn lemma_readback_error_readable(error: ReadbackError)
    ensures
        match error {
            ReadbackError::Validation(detail) => error.text()
                == "validation error during readback: "@ + detail@,
            ReadbackError::MapFailed(detail) => error.text() == "map_async error: "@ + detail@,
            ReadbackError::TimedOut { id } => exists|number: Seq<char>, limit: Seq<char>|
                #[trigger] writes(number, id as int) && #[trigger] writes(limit, 5000)
                    && error.text() == "readback["@ + number + "] map_async timed out after "@
                    + limit + "ms"@,
            ReadbackError::WatchdogDropped { id } => exists|number: Seq<char>| #[trigger]
                writes(number, id as int) && error.text() == "readback["@ + number
                    + "] map_async watchdog channel dropped before firing"@,
            _ => true,
        },
{
    match error {
        ReadbackError::TimedOut { id } => {
            lemma_decimal_writes(id as nat);
            lemma_decimal_writes(5000);
        },
        ReadbackError::WatchdogDropped { id } => {
            lemma_decimal_writes(id as nat);
        },
        _ => {},
    }
}

} // verus!
