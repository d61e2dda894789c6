//! A chunked byte stream: producers write or reserve bytes in fixed-size
//! chunks, commit them as spans, and a consumer drains the committed spans
//! in order. Chunks are reused once the per-chunk state byte says they are
//! free, and grown on demand unless the growth policy blocks.
use std::collections::VecDeque;
use vstd::prelude::*;

verus! {

pub const STATUS_OK: i32 = 0;

pub const STATUS_ERR_NO_SPACE: i32 = -1;

pub const STATUS_ERR_MAX_BYTES: i32 = -2;

pub const STATUS_ERR_INVALID: i32 = -3;

pub const STATUS_ERR_ALLOC: i32 = -4;

pub const STATUS_ERR_BUSY: i32 = -5;

pub const SPAN_QUEUE_CAPACITY_DEFAULT: u32 = 4096;

pub const DEFAULT_CHUNK_SIZE: u32 = 65536;

/// Whether the stream may allocate new chunks when every chunk is in use.
#[derive(Clone, Copy, Debug, PartialEq, Eq)]
pub enum GrowthPolicy {
    Grow,
    Block,
}

impl GrowthPolicy {
    pub open spec fn code_spec(self) -> u8 {
        match self {
            GrowthPolicy::Grow => 0,
            GrowthPolicy::Block => 1,
        }
    }

    /// The byte that encodes this policy in [`Options::growth_policy`].
    pub fn code(self) -> (c: u8)
        ensures
            c == self.code_spec(),
    {
        match self {
            GrowthPolicy::Grow => 0,
            GrowthPolicy::Block => 1,
        }
    }
}

#[derive(Clone, Copy, Debug)]
pub struct Options {
    pub chunk_size: u32,
    pub initial_chunks: u32,
    pub max_bytes: u64,
    pub growth_policy: u8,
    pub auto_commit_on_full: u8,
    pub span_queue_capacity: u32,
}

#[derive(Clone, Copy, Debug, Default, PartialEq, Eq)]
pub struct Stats {
    pub bytes_written: u64,
    pub spans_committed: u64,
    pub chunks: u32,
    pub pending_spans: u32,
}

/// A committed run of bytes: `len` bytes at `offset` in chunk `chunk_index`.
#[derive(Clone, Copy, Debug, Default, PartialEq, Eq)]
pub struct SpanInfo {
    pub chunk_index: u32,
    pub offset: u32,
    pub len: u32,
    pub reserved: u32,
}

/// The writable region handed out by [`Stream::reserve`].
#[derive(Clone, Copy, Debug, Default, PartialEq, Eq)]
pub struct ReserveInfo {
    pub chunk_index: u32,
    pub offset: u32,
    pub len: u32,
    pub reserved: u32,
}

#[derive(Clone, Copy, Debug, PartialEq, Eq)]
pub enum StreamError {
    NoSpace,
    MaxBytes,
    Invalid,
    OutOfMemory,
    Busy,
}

/// A notification for the stream's listener, queued while a listener is set.
#[derive(Clone, Copy, Debug, PartialEq, Eq)]
pub enum StreamEvent {
    ChunkAdded { chunk_index: u32, len: u64 },
    Closed,
    DataAvailable { count: u32 },
    StateBuffer { len: u64 },
}

impl StreamEvent {
    /// The numeric event id of the listener protocol.
    pub fn event_id(&self) -> (id: u32)
        ensures
            id == match *self {
                StreamEvent::ChunkAdded { .. } => 2u32,
                StreamEvent::Closed => 5u32,
                StreamEvent::DataAvailable { .. } => 7u32,
                StreamEvent::StateBuffer { .. } => 8u32,
            },
    {
        match self {
            StreamEvent::ChunkAdded { .. } => 2,
            StreamEvent::Closed => 5,
            StreamEvent::DataAvailable { .. } => 7,
            StreamEvent::StateBuffer { .. } => 8,
        }
    }
}

pub open spec fn default_options_spec() -> Options {
    Options {
        chunk_size: 65536,
        initial_chunks: 2,
        max_bytes: 0,
        growth_policy: 0,
        auto_commit_on_full: 1,
        span_queue_capacity: 0,
    }
}

pub fn default_options() -> (o: Options)
    ensures
        o == default_options_spec(),
{
    Options {
        chunk_size: DEFAULT_CHUNK_SIZE,
        initial_chunks: 2,
        max_bytes: 0,
        growth_policy: GrowthPolicy::Grow.code(),
        auto_commit_on_full: 1,
        span_queue_capacity: 0,
    }
}

pub open spec fn normalize_options_spec(o: Options) -> Options {
    Options {
        chunk_size: if o.chunk_size == 0 { 65536 } else { o.chunk_size },
        initial_chunks: if o.initial_chunks == 0 { 1 } else { o.initial_chunks },
        span_queue_capacity: if o.span_queue_capacity == 0 { 4096 } else { o.span_queue_capacity },
        ..o
    }
}

/// Replaces each zero among chunk size, initial chunk count and queue capacity
/// by its default.
pub fn normalize_options(options: Options) -> (o: Options)
    ensures
        o == normalize_options_spec(options),
{
    let mut options = options;
    if options.chunk_size == 0 {
        options.chunk_size = DEFAULT_CHUNK_SIZE;
    }
    if options.initial_chunks == 0 {
        options.initial_chunks = 1;
    }
    if options.span_queue_capacity == 0 {
        options.span_queue_capacity = SPAN_QUEUE_CAPACITY_DEFAULT;
    }
    options
}

pub open spec fn status_of(error: StreamError) -> i32 {
    match error {
        StreamError::NoSpace => -1i32,
        StreamError::MaxBytes => -2i32,
        StreamError::Invalid => -3i32,
        StreamError::OutOfMemory => -4i32,
        StreamError::Busy => -5i32,
    }
}

pub fn error_to_status(error: StreamError) -> (s: i32)
    ensures
        s == status_of(error),
{
    match error {
        StreamError::NoSpace => STATUS_ERR_NO_SPACE,
        StreamError::MaxBytes => STATUS_ERR_MAX_BYTES,
        StreamError::Invalid => STATUS_ERR_INVALID,
        StreamError::OutOfMemory => STATUS_ERR_ALLOC,
        StreamError::Busy => STATUS_ERR_BUSY,
    }
}

/// The bytes that a span designates in the given chunk contents.
pub open spec fn span_content(chunks: Seq<Seq<u8>>, s: SpanInfo) -> Seq<u8> {
    chunks[s.chunk_index as int].subrange(s.offset as int, s.offset + s.len)
}

/// The bytes of a sequence of spans, concatenated in order.
pub open spec fn spans_content(chunks: Seq<Seq<u8>>, spans: Seq<SpanInfo>) -> Seq<u8>
    decreases spans.len(),
{
    if spans.len() == 0 {
        Seq::empty()
    } else {
        spans_content(chunks, spans.drop_last()) + span_content(chunks, spans.last())
    }
}

pub open spec fn span_fits(chunks: Seq<Seq<u8>>, s: SpanInfo) -> bool {
    &&& (s.chunk_index as int) < chunks.len()
    &&& s.offset + s.len <= chunks[s.chunk_index as int].len()
}

/// Concatenating span lists concatenates their bytes.
pub proof fn lemma_spans_content_append(chunks: Seq<Seq<u8>>, a: Seq<SpanInfo>, b: Seq<SpanInfo>)
    ensures
        spans_content(chunks, a + b) == spans_content(chunks, a) + spans_content(chunks, b),
    decreases b.len(),
{
    if b.len() == 0 {
        assert(a + b =~= a);
    } else {
        lemma_spans_content_append(chunks, a, b.drop_last());
        assert((a + b).drop_last() =~= a + b.drop_last());
    }
}

/// Spans whose designated bytes agree in two chunk contents have the same bytes.
pub proof fn lemma_spans_content_frame(c1: Seq<Seq<u8>>, c2: Seq<Seq<u8>>, spans: Seq<SpanInfo>)
    requires
        forall|i: int| 0 <= i < spans.len() ==> span_content(c1, #[trigger] spans[i]) == span_content(c2, spans[i]),
    ensures
        spans_content(c1, spans) == spans_content(c2, spans),
    decreases spans.len(),
{
    if spans.len() > 0 {
        lemma_spans_content_frame(c1, c2, spans.drop_last());
        assert(span_content(c1, spans[spans.len() - 1]) == span_content(c2, spans[spans.len() - 1]));
    }
}

pub struct Stream {
    options: Options,
    chunks: Vec<Vec<u8>>,
    current_chunk_index: usize,
    write_offset: usize,
    pending_chunk_index: usize,
    pending_offset: usize,
    pending_len: usize,
    reserved_active: bool,
    reserved_chunk_index: usize,
    reserved_offset: usize,
    reserved_len: usize,
    attached: bool,
    callback: bool,
    closed: bool,
    span_ring: VecDeque<SpanInfo>,
    span_ring_capacity: u32,
    state_buffer: Vec<u8>,
    stats: Stats,
    events: Vec<StreamEvent>,
    drained: Ghost<nat>,
}

fn new_chunk(chunk_size: u32) -> (c: Vec<u8>)
    ensures
        c@.len() == chunk_size,
{
    let len = chunk_size as usize;
    let c: Vec<u8> = vec![0u8; len];
    c
}

impl Stream {
    pub closed spec fn chunk_data(&self) -> Seq<Seq<u8>> {
        self.chunks@.map_values(|c: Vec<u8>| c@)
    }

    pub closed spec fn queued_spans(&self) -> Seq<SpanInfo> {
        self.span_ring@
    }

    /// Bytes written since the last commit, not yet in a span.
    pub closed spec fn pending_bytes(&self) -> Seq<u8> {
        self.chunks@[self.pending_chunk_index as int]@.subrange(
            self.pending_offset as int,
            self.pending_offset + self.pending_len,
        )
    }

    /// Everything written and not yet drained: the queued spans' bytes, then
    /// the pending bytes.
    pub open spec fn content(&self) -> Seq<u8> {
        spans_content(self.chunk_data(), self.queued_spans()) + self.pending_bytes()
    }

    pub closed spec fn options_view(&self) -> Options {
        self.options
    }

    pub closed spec fn stats_view(&self) -> Stats {
        self.stats
    }

    pub closed spec fn is_closed(&self) -> bool {
        self.closed
    }

    pub closed spec fn is_attached(&self) -> bool {
        self.attached
    }

    pub closed spec fn has_listener(&self) -> bool {
        self.callback
    }

    pub closed spec fn events_view(&self) -> Seq<StreamEvent> {
        self.events@
    }

    pub closed spec fn has_reservation(&self) -> bool {
        self.reserved_active
    }

    pub closed spec fn chunk_count(&self) -> nat {
        self.chunks@.len()
    }

    /// Room left in the chunk being written.
    pub closed spec fn space_in_current(&self) -> int {
        self.options.chunk_size - self.write_offset
    }

    /// How many chunk boundaries a write of `n` bytes can reach: it bounds
    /// the chunks that the write opens and the spans that it commits.
    pub open spec fn write_chunk_budget(&self, n: nat) -> int {
        (self.options_view().chunk_size - self.space_in_current() + n - 1) / (self.options_view().chunk_size as int)
    }

    pub closed spec fn pending_len_view(&self) -> nat {
        self.pending_len as nat
    }

    /// Where the pending bytes start in their chunk.
    pub closed spec fn pending_offset_view(&self) -> nat {
        self.pending_offset as nat
    }

    /// The chunk being written.
    pub closed spec fn current_chunk_view(&self) -> nat {
        self.current_chunk_index as nat
    }

    /// The chunk that holds the active reservation.
    pub closed spec fn reserved_chunk_view(&self) -> nat {
        self.reserved_chunk_index as nat
    }

    /// Where the active reservation starts in its chunk.
    pub closed spec fn reserved_offset_view(&self) -> nat {
        self.reserved_offset as nat
    }

    /// How many committed spans a consumer has drained so far.
    pub closed spec fn spans_drained(&self) -> nat {
        self.drained@
    }

    /// Some chunk is free, its state byte being zero.
    pub open spec fn has_free_chunk(&self) -> bool {
        exists|i: int| 0 <= i < self.chunk_count() && self.state_view()[i] == 0
    }

    /// One more chunk fits under the byte limit (zero means no limit).
    pub open spec fn growth_allowed(&self) -> bool {
        self.options_view().max_bytes == 0 || (self.chunk_count() + 1) * self.options_view().chunk_size
            <= self.options_view().max_bytes
    }

    /// The write position, the pending bytes' place and the drained count
    /// agree with those of `other`.
    pub open spec fn same_position(&self, other: Stream) -> bool {
        &&& self.current_chunk_view() == other.current_chunk_view()
        &&& self.space_in_current() == other.space_in_current()
        &&& self.pending_offset_view() == other.pending_offset_view()
        &&& self.pending_len_view() == other.pending_len_view()
        &&& self.spans_drained() == other.spans_drained()
    }

    /// No counter is below its value in `other`: bytes written, spans
    /// committed and spans drained only grow.
    pub open spec fn counters_grow(&self, other: Stream) -> bool {
        &&& other.stats_view().bytes_written <= self.stats_view().bytes_written
        &&& other.stats_view().spans_committed <= self.stats_view().spans_committed
        &&& other.spans_drained() <= self.spans_drained()
    }

    /// A queued span, the pending bytes or the active reservation lie in
    /// chunk `index`.
    pub open spec fn chunk_in_use(&self, index: int) -> bool {
        ||| exists|j: int| 0 <= j < self.queued_spans().len() && self.queued_spans()[j].chunk_index == index
        ||| (self.pending_len_view() > 0 && self.current_chunk_view() == index)
        ||| (self.has_reservation() && self.reserved_chunk_view() == index)
    }

    /// Committing the pending bytes would find room in the span queue.
    pub open spec fn can_commit(&self) -> bool {
        self.pending_len_view() == 0 || self.queued_spans().len() < self.options_view().span_queue_capacity
    }

    /// Once the pending bytes are committed, a writable chunk can be had: a
    /// free one other than the chunk that held them, or a new one.
    pub open spec fn can_open_next_chunk(&self) -> bool {
        ||| exists|i: int|
            0 <= i < self.chunk_count() && self.state_view()[i] == 0 && !(self.pending_len_view() > 0 && i
                == self.current_chunk_view())
        ||| (self.options_view().growth_policy != 1 && self.growth_allowed())
    }

    /// A writable chunk can be had: a free one, or a new one under the
    /// growth policy and the byte limit.
    pub open spec fn can_open_chunk(&self) -> bool {
        self.has_free_chunk() || (self.options_view().growth_policy != 1 && self.growth_allowed())
    }

    /// The bytes of the active reservation.
    pub closed spec fn reserved_region(&self) -> Seq<u8> {
        self.chunks@[self.reserved_chunk_index as int]@.subrange(
            self.reserved_offset as int,
            self.reserved_offset + self.reserved_len,
        )
    }

    pub closed spec fn reserved_len_view(&self) -> nat {
        self.reserved_len as nat
    }

    pub closed spec fn wf(&self) -> bool {
        let cs = self.options.chunk_size as int;
        &&& self.options.chunk_size > 0
        &&& self.options.span_queue_capacity > 0
        &&& self.options.initial_chunks > 0
        &&& self.span_ring_capacity == self.options.span_queue_capacity
        &&& self.chunks@.len() >= 1
        &&& forall|i: int| 0 <= i < self.chunks@.len() ==> (#[trigger] self.chunks@[i])@.len() == cs
        &&& self.current_chunk_index < self.chunks@.len()
        &&& self.pending_chunk_index < self.chunks@.len()
        &&& self.write_offset <= cs
        &&& self.pending_offset + self.pending_len <= cs
        &&& self.pending_len > 0 ==> {
            &&& self.pending_chunk_index == self.current_chunk_index
            &&& self.pending_offset + self.pending_len == self.write_offset
        }
        &&& self.reserved_active ==> {
            &&& self.pending_len == 0
            &&& self.reserved_chunk_index == self.current_chunk_index
            &&& self.reserved_offset == self.write_offset
            &&& self.reserved_offset + self.reserved_len == cs
        }
        &&& self.state_buffer@.len() >= self.chunks@.len()
        &&& forall|i: int| self.chunks@.len() <= i < self.state_buffer@.len() ==> self.state_buffer@[i] == 0
        &&& self.span_ring@.len() <= self.span_ring_capacity
        &&& self.stats.pending_spans == self.span_ring@.len()
        &&& self.stats.spans_committed == self.drained@ + self.span_ring@.len()
        &&& self.chunks@.len() <= u32::MAX
        &&& self.stats.chunks == self.chunks@.len()
        &&& forall|i: int|
            #![trigger self.span_ring@[i]]
            0 <= i < self.span_ring@.len() ==> {
                let s = self.span_ring@[i];
                &&& (s.chunk_index as int) < self.chunks@.len()
                &&& s.offset + s.len <= cs
                &&& self.state_buffer@[s.chunk_index as int] > 0
                &&& s.chunk_index == self.current_chunk_index ==> s.offset + s.len <= self.write_offset
            }
    }

    /// Opens a stream with the normalized options and its initial chunks.
    pub fn create(options: Options) -> (r: Result<Stream, StreamError>)
        ensures
            ({
                let o = normalize_options_spec(options);
                match r {
                    Ok(s) => {
                        &&& s.wf()
                        &&& !(o.max_bytes != 0 && (o.initial_chunks as int) * (o.chunk_size as int)
                            > o.max_bytes)
                        &&& s.options_view() == o
                        &&& s.chunk_count() == o.initial_chunks
                        &&& s.content() == Seq::<u8>::empty()
                        &&& s.queued_spans() == Seq::<SpanInfo>::empty()
                        &&& s.stats_view().bytes_written == 0
                        &&& s.stats_view().spans_committed == 0
                        &&& s.stats_view().pending_spans == 0
                        &&& s.stats_view().chunks == o.initial_chunks
                        &&& s.spans_drained() == 0
                        &&& s.current_chunk_view() == 0
                        &&& s.space_in_current() == o.chunk_size
                        &&& s.pending_len_view() == 0
                        &&& forall|i: int| 0 <= i < s.state_view().len() ==> s.state_view()[i] == 0
                        &&& s.state_view().len() >= s.chunk_count()
                        &&& !s.is_closed() && !s.is_attached() && !s.has_listener()
                        &&& !s.has_reservation()
                        &&& s.events_view() == Seq::<StreamEvent>::empty()
                    },
                    Err(e) => {
                        &&& e == StreamError::MaxBytes
                        &&& o.max_bytes != 0
                        &&& (o.initial_chunks as int) * (o.chunk_size as int) > o.max_bytes
                    },
                }
            }),
    {
        let opts = normalize_options(options);
        let initial_chunks = opts.initial_chunks as usize;
        let mut stream = Stream {
            options: opts,
            chunks: Vec::new(),
            current_chunk_index: 0,
            write_offset: 0,
            pending_chunk_index: 0,
            pending_offset: 0,
            pending_len: 0,
            reserved_active: false,
            reserved_chunk_index: 0,
            reserved_offset: 0,
            reserved_len: 0,
            attached: false,
            callback: false,
            closed: false,
            span_ring: VecDeque::with_capacity(opts.span_queue_capacity as usize),
            span_ring_capacity: opts.span_queue_capacity,
            state_buffer: Vec::new(),
            stats: Stats { bytes_written: 0, spans_committed: 0, chunks: 0, pending_spans: 0 },
            events: Vec::new(),
            drained: Ghost(0),
        };
        let res = stream.ensure_state_capacity(opts.initial_chunks);
        assert(stream.state_buffer@.len() >= opts.initial_chunks);
        let mut k: usize = 0;
        while k < initial_chunks
            invariant
                0 <= k <= initial_chunks,
                initial_chunks == opts.initial_chunks,
                opts == normalize_options_spec(options),
                stream.options == opts,
                stream.chunks@.len() == k,
                forall|i: int| 0 <= i < stream.chunks@.len() ==> (#[trigger] stream.chunks@[i])@.len() == opts.chunk_size,
                stream.state_buffer@.len() >= opts.initial_chunks,
                forall|i: int| 0 <= i < stream.state_buffer@.len() ==> stream.state_buffer@[i] == 0,
                stream.current_chunk_index == 0,
                stream.write_offset == 0,
                stream.pending_chunk_index == 0,
                stream.pending_offset == 0,
                stream.pending_len == 0,
                !stream.reserved_active,
                !stream.attached,
                !stream.callback,
                !stream.closed,
                stream.span_ring@ == Seq::<SpanInfo>::empty(),
                stream.span_ring_capacity == opts.span_queue_capacity,
                stream.stats.bytes_written == 0,
                stream.stats.spans_committed == 0,
                stream.stats.pending_spans == 0,
                stream.stats.chunks == k,
                stream.events@ == Seq::<StreamEvent>::empty(),
                stream.drained@ == 0,
                opts.max_bytes != 0 ==> (k as int) * (opts.chunk_size as int) <= opts.max_bytes,
            decreases initial_chunks - k,
        {
            let chunk_size = opts.chunk_size;
            proof {
                assert(((k + 1) as int) * (chunk_size as int) <= (u32::MAX as int) * (u32::MAX as int))
                    by (nonlinear_arith)
                    requires
                        k + 1 <= u32::MAX,
                        chunk_size <= u32::MAX,
                ;
                assert(((k + 1) as int) * (chunk_size as int) == (k as int) * (chunk_size as int)
                    + chunk_size) by (nonlinear_arith);
            }
            let allocated: u64 = (k as u64) * (chunk_size as u64);
            assert(allocated as int == (k as int) * (chunk_size as int));
            if opts.max_bytes != 0 && allocated + (chunk_size as u64) > opts.max_bytes {
                proof {
                    assert((opts.initial_chunks as int) * (chunk_size as int) >= (k as int + 1)
                        * (chunk_size as int)) by (nonlinear_arith)
                        requires
                            k + 1 <= opts.initial_chunks,
                    ;
                }
                assert(normalize_options_spec(options).max_bytes != 0);
                assert(normalize_options_spec(options).initial_chunks * normalize_options_spec(options).chunk_size > normalize_options_spec(options).max_bytes);
                return Err(StreamError::MaxBytes);
            }
            let chunk = new_chunk(chunk_size);
            stream.chunks.push(chunk);
            stream.stats.chunks = (k + 1) as u32;
            proof {
                assert(((k + 1) as int) * (chunk_size as int) == (k as int) * (chunk_size as int)
                    + chunk_size) by (nonlinear_arith);
            }
            k = k + 1;
        }
        proof {
            assert(stream.chunk_data()[0] == stream.chunks@[0]@);
            assert(stream.pending_bytes() =~= Seq::<u8>::empty());
        }
        Ok(stream)
    }

    /// Marks the stream attached; with a listener set, replays the state
    /// buffer, every chunk and the queued count.
    pub fn attach(&mut self) -> (r: Result<(), StreamError>)
        requires
            old(self).wf(),
        ensures
            final(self).wf(),
            final(self).counters_grow(*old(self)),
            old(self).is_closed() ==> r == Err::<(), StreamError>(StreamError::Invalid) && *final(self)
                == *old(self),
            !old(self).is_closed() ==> {
                &&& r is Ok
                &&& final(self).is_attached()
                &&& final(self).content() == old(self).content()
                &&& final(self).queued_spans() == old(self).queued_spans()
                &&& final(self).chunk_data() == old(self).chunk_data()
                &&& final(self).state_view() == old(self).state_view()
                &&& final(self).chunk_count() == old(self).chunk_count()
                &&& final(self).same_position(*old(self))
                &&& final(self).events_view() == old(self).events_view() + old(self).replay_events()
                &&& final(self).is_closed() == old(self).is_closed()
                &&& final(self).has_listener() == old(self).has_listener()
                &&& final(self).options_view() == old(self).options_view()
                &&& final(self).stats_view() == old(self).stats_view()
                &&& final(self).has_reservation() == old(self).has_reservation()
            },
    {
        if self.closed {
            return Err(StreamError::Invalid);
        }
        self.attached = true;
        if !self.callback {
            return Ok(());
        }
        self.emit_replay();
        Ok(())
    }

    /// The events that announce the current state to a new listener: the
    /// state buffer, then each chunk in order, then the queued count when
    /// spans are queued; none without a listener.
    pub open spec fn replay_events(&self) -> Seq<StreamEvent> {
        if !self.has_listener() {
            Seq::empty()
        } else {
            seq![StreamEvent::StateBuffer { len: self.state_view().len() as u64 }]
                + Seq::new(
                self.chunk_count(),
                |i: int| StreamEvent::ChunkAdded { chunk_index: i as u32, len: self.options_view().chunk_size as u64 },
            ) + if self.queued_spans().len() > 0 {
                seq![StreamEvent::DataAvailable { count: self.queued_spans().len() as u32 }]
            } else {
                Seq::empty()
            }
        }
    }

    fn emit_replay(&mut self)
        requires
            old(self).callback,
        ensures
            final(self).events@ == old(self).events@ + old(self).replay_events(),
            final(self).events@.len() >= old(self).events@.len(),
            *final(self) == (Stream { events: final(self).events, ..*old(self) }),
    {
        let ghost old_events = self.events@;
        self.events.push(StreamEvent::StateBuffer { len: self.state_buffer.len() as u64 });
        let n = self.chunks.len();
        let mut i: usize = 0;
        while i < n
            invariant
                0 <= i <= n,
                n == self.chunks@.len(),
                *self == (Stream { events: self.events, ..*old(self) }),
                self.events@ == old_events + seq![StreamEvent::StateBuffer { len: self.state_buffer@.len() as u64 }]
                    + Seq::new(
                    i as nat,
                    |j: int| StreamEvent::ChunkAdded { chunk_index: j as u32, len: self.options.chunk_size as u64 },
                ),
            decreases n - i,
        {
            self.events.push(StreamEvent::ChunkAdded { chunk_index: i as u32, len: self.options.chunk_size as u64 });
            proof {
                let s1 = Seq::new(
                    i as nat,
                    |j: int| StreamEvent::ChunkAdded { chunk_index: j as u32, len: self.options.chunk_size as u64 },
                );
                let s2 = Seq::new(
                    (i + 1) as nat,
                    |j: int| StreamEvent::ChunkAdded { chunk_index: j as u32, len: self.options.chunk_size as u64 },
                );
                assert(s2 =~= s1.push(StreamEvent::ChunkAdded { chunk_index: i as u32, len: self.options.chunk_size as u64 }));
            }
            i = i + 1;
        }
        if self.span_ring.len() > 0 {
            self.events.push(StreamEvent::DataAvailable { count: self.span_ring.len() as u32 });
        }
        proof {
            assert(self.events@ =~= old(self).events@ + old(self).replay_events());
        }
    }

    /// Sets or clears the listener; with a listener on an attached stream,
    /// replays the state as [`Stream::attach`] does.
    pub fn set_callback(&mut self, present: bool)
        requires
            old(self).wf(),
        ensures
            final(self).wf(),
            final(self).counters_grow(*old(self)),
            final(self).has_listener() == present,
            final(self).same_position(*old(self)),
            final(self).state_view() == old(self).state_view(),
            final(self).chunk_count() == old(self).chunk_count(),
            final(self).content() == old(self).content(),
            final(self).queued_spans() == old(self).queued_spans(),
            final(self).chunk_data() == old(self).chunk_data(),
            final(self).is_attached() == old(self).is_attached(),
            final(self).is_closed() == old(self).is_closed(),
            final(self).stats_view() == old(self).stats_view(),
            final(self).options_view() == old(self).options_view(),
            final(self).has_reservation() == old(self).has_reservation(),
            present && old(self).is_attached() ==> final(self).events_view() == old(self).events_view()
                + final(self).replay_events(),
            !(present && old(self).is_attached()) ==> final(self).events_view() == old(self).events_view(),
    {
        self.callback = present;
        if !self.callback || !self.attached {
            return;
        }
        self.emit_replay();
    }

    /// Hands out and forgets the queued listener events.
    pub fn take_events(&mut self) -> (r: Vec<StreamEvent>)
        requires
            old(self).wf(),
        ensures
            final(self).wf(),
            final(self).counters_grow(*old(self)),
            r@ == old(self).events_view(),
            final(self).events_view() == Seq::<StreamEvent>::empty(),
            final(self).same_position(*old(self)),
            final(self).state_view() == old(self).state_view(),
            final(self).chunk_count() == old(self).chunk_count(),
            final(self).content() == old(self).content(),
            final(self).queued_spans() == old(self).queued_spans(),
            final(self).chunk_data() == old(self).chunk_data(),
            final(self).is_attached() == old(self).is_attached(),
            final(self).is_closed() == old(self).is_closed(),
            final(self).has_listener() == old(self).has_listener(),
            final(self).stats_view() == old(self).stats_view(),
            final(self).options_view() == old(self).options_view(),
            final(self).has_reservation() == old(self).has_reservation(),
    {
        let mut out: Vec<StreamEvent> = Vec::new();
        std::mem::swap(&mut out, &mut self.events);
        out
    }

    fn push_event(&mut self, e: StreamEvent)
        ensures
            old(self).callback ==> final(self).events@ == old(self).events@.push(e),
            !old(self).callback ==> final(self).events@ == old(self).events@,
            *final(self) == (Stream { events: final(self).events, ..*old(self) }),
    {
        if self.callback {
            self.events.push(e);
        }
    }

    fn ensure_state_capacity(&mut self, required: u32) -> (r: Result<(), StreamError>)
        ensures
            r is Ok,
            final(self).state_buffer@.len() >= required,
            final(self).state_buffer@.len() >= old(self).state_buffer@.len(),
            forall|i: int| 0 <= i < old(self).state_buffer@.len() ==> final(self).state_buffer@[i]
                == old(self).state_buffer@[i],
            forall|i: int| old(self).state_buffer@.len() <= i < final(self).state_buffer@.len() ==> final(self).state_buffer@[i]
                == 0,
            *final(self) == (Stream { state_buffer: final(self).state_buffer, events: final(self).events, ..*old(self) }),
            old(self).events@.is_prefix_of(final(self).events@),
            !(old(self).attached && old(self).callback) ==> final(self).events@ == old(self).events@,
    {
        let required = required as usize;
        if required <= self.state_buffer.len() {
            return Ok(());
        }
        let mut new_capacity: usize = if self.state_buffer.len() > 1 { self.state_buffer.len() } else { 1 };
        while new_capacity < required
            invariant
                new_capacity >= 1,
                new_capacity >= self.state_buffer@.len(),
                required <= u32::MAX,
            decreases if new_capacity < required { required - new_capacity } else { 0 },
        {
            let next = if new_capacity > usize::MAX / 2 { usize::MAX } else { new_capacity * 2 };
            assert(next > new_capacity);
            new_capacity = next;
        }
        self.state_buffer.resize(new_capacity, 0);
        if self.attached && self.callback {
            let len = self.state_buffer.len() as u64;
            self.push_event(StreamEvent::StateBuffer { len });
        }
        Ok(())
    }

    fn is_chunk_free(&self, index: usize) -> (b: bool)
        ensures
            b == (index >= self.state_buffer@.len() || self.state_buffer@[index as int] == 0),
    {
        if index < self.state_buffer.len() {
            self.state_buffer[index] == 0
        } else {
            true
        }
    }

    proof fn lemma_chunk_data_index(&self, i: int)
        requires
            0 <= i < self.chunks@.len(),
        ensures
            self.chunk_data()[i] == self.chunks@[i]@,
            self.chunk_data().len() == self.chunks@.len(),
    {
    }

    fn commit_locked(&mut self, notify: &mut bool) -> (r: Result<(), StreamError>)
        requires
            old(self).wf(),
            old(self).pending_len > 0 ==> old(self).stats.spans_committed < u64::MAX,
        ensures
            final(self).wf(),
            final(self).content() == old(self).content(),
            final(self).chunk_data() == old(self).chunk_data(),
            final(self).options == old(self).options,
            final(self).closed == old(self).closed,
            final(self).attached == old(self).attached,
            final(self).callback == old(self).callback,
            final(self).reserved_active == old(self).reserved_active,
            final(self).events@ == old(self).events@,
            final(self).stats.bytes_written == old(self).stats.bytes_written,
            final(self).drained == old(self).drained,
            final(self).current_chunk_index == old(self).current_chunk_index,
            final(self).write_offset >= old(self).write_offset,
            final(self).chunks@.len() == old(self).chunks@.len(),
            final(self).state_buffer@.len() == old(self).state_buffer@.len(),
            r is Ok ==> final(self).pending_len == 0,
            old(self).pending_len == 0 ==> r is Ok && *final(self) == *old(self) && *final(notify) == *old(notify),
            r is Ok && old(self).pending_len > 0 ==> {
                &&& final(self).span_ring@ == old(self).span_ring@.push(
                    SpanInfo {
                        chunk_index: old(self).pending_chunk_index as u32,
                        offset: old(self).pending_offset as u32,
                        len: old(self).pending_len as u32,
                        reserved: 0,
                    },
                )
                &&& final(self).stats.spans_committed == old(self).stats.spans_committed + 1
                &&& final(self).state_buffer@[old(self).pending_chunk_index as int] > 0
                &&& forall|i: int| 0 <= i < old(self).state_buffer@.len() && i != old(self).pending_chunk_index
                    ==> final(self).state_buffer@[i] == old(self).state_buffer@[i]
            },
            r is Err ==> *final(self) == *old(self) && *final(notify) == *old(notify),
            r is Err ==> r == Err::<(), StreamError>(StreamError::NoSpace),
            r == Err::<(), StreamError>(StreamError::NoSpace) <==> (old(self).pending_len > 0
                && old(self).span_ring@.len() >= old(self).span_ring_capacity),
            *old(notify) ==> *final(notify),
    {
        if self.pending_len == 0 {
            return Ok(());
        }
        if self.span_ring.len() >= self.span_ring_capacity as usize {
            return Err(StreamError::NoSpace);
        }
        if self.pending_chunk_index > u32::MAX as usize {
            return Err(StreamError::OutOfMemory);
        }
        let info = SpanInfo {
            chunk_index: self.pending_chunk_index as u32,
            offset: self.pending_offset as u32,
            len: self.pending_len as u32,
            reserved: 0,
        };
        let ghost old_chunks = self.chunk_data();
        let ghost old_pending = self.pending_bytes();
        let queued_before = self.span_ring.len() as u32;
        self.span_ring.push_back(info);
        self.stats.pending_spans = self.span_ring.len() as u32;
        let ci = self.pending_chunk_index;
        let state = self.state_buffer[ci];
        let next_state = state.saturating_add(1);
        self.state_buffer.set(ci, next_state);
        if next_state == 255u8 {
            self.write_offset = self.options.chunk_size as usize;
        }
        self.stats.spans_committed = self.stats.spans_committed + 1;
        self.pending_len = 0;
        self.pending_offset = self.write_offset;
        self.pending_chunk_index = self.current_chunk_index;
        if self.attached && self.callback && queued_before < 1 && self.stats.pending_spans >= 1 {
            *notify = true;
        }
        proof {
            assert(self.chunk_data() =~= old_chunks);
            assert(self.span_ring@.drop_last() =~= old(self).span_ring@);
            assert(span_content(old_chunks, info) =~= old_pending) by {
                self.lemma_chunk_data_index(ci as int);
            }
            assert(self.pending_bytes() =~= Seq::<u8>::empty());
            assert forall|i: int|
                #![trigger self.span_ring@[i]]
                0 <= i < self.span_ring@.len() implies {
                let s = self.span_ring@[i];
                &&& (s.chunk_index as int) < self.chunks@.len()
                &&& s.offset + s.len <= self.options.chunk_size
                &&& self.state_buffer@[s.chunk_index as int] > 0
                &&& s.chunk_index == self.current_chunk_index ==> s.offset + s.len <= self.write_offset
            } by {
                if i < old(self).span_ring@.len() {
                    assert(self.span_ring@[i] == old(self).span_ring@[i]);
                }
            }
        }
        Ok(())
    }

    fn add_chunk_locked(&mut self) -> (r: Result<(), StreamError>)
        requires
            old(self).wf(),
            old(self).chunks@.len() < u32::MAX,
        ensures
            final(self).wf(),
            final(self).content() == old(self).content(),
            final(self).queued_spans() == old(self).queued_spans(),
            final(self).options == old(self).options,
            final(self).closed == old(self).closed,
            final(self).attached == old(self).attached,
            final(self).callback == old(self).callback,
            final(self).reserved_active == old(self).reserved_active,
            final(self).stats.bytes_written == old(self).stats.bytes_written,
            final(self).stats.spans_committed == old(self).stats.spans_committed,
            final(self).current_chunk_index == old(self).current_chunk_index,
            final(self).write_offset == old(self).write_offset,
            final(self).pending_len == old(self).pending_len,
            final(self).pending_offset == old(self).pending_offset,
            final(self).pending_chunk_index == old(self).pending_chunk_index,
            old(self).events@.is_prefix_of(final(self).events@),
            !old(self).callback ==> final(self).events@ == old(self).events@,
            forall|i: int| 0 <= i < old(self).chunks@.len() ==> final(self).chunks@[i] == old(self).chunks@[i],
            forall|i: int| 0 <= i < old(self).chunks@.len() ==> final(self).state_buffer@[i] == old(self).state_buffer@[i],
            r is Ok ==> {
                &&& final(self).chunks@.len() == old(self).chunks@.len() + 1
                &&& final(self).state_buffer@[old(self).chunks@.len() as int] == 0
            },
            r is Err ==> *final(self) == *old(self) && r == Err::<(), StreamError>(StreamError::MaxBytes),
            r is Err <==> (old(self).options.max_bytes != 0 && ((old(self).chunks@.len() + 1) as int) * (
            old(self).options.chunk_size as int) > old(self).options.max_bytes),
    {
        let chunk_size = self.options.chunk_size;
        let n = self.chunks.len();
        proof {
            assert(((n + 1) as int) * (chunk_size as int) <= (u32::MAX as int) * (u32::MAX as int))
                by (nonlinear_arith)
                requires
                    n + 1 <= u32::MAX,
                    chunk_size <= u32::MAX,
            ;
            assert(((n + 1) as int) * (chunk_size as int) == (n as int) * (chunk_size as int)
                + chunk_size) by (nonlinear_arith);
        }
        let allocated: u64 = (n as u64) * (chunk_size as u64);
        if self.options.max_bytes != 0 && allocated + (chunk_size as u64) > self.options.max_bytes {
            return Err(StreamError::MaxBytes);
        }
        let ghost old_self = *self;
        let _ = self.ensure_state_capacity((n + 1) as u32);
        let chunk = new_chunk(chunk_size);
        self.chunks.push(chunk);
        self.stats.chunks = (n + 1) as u32;
        let len = chunk_size as u64;
        self.push_event(StreamEvent::ChunkAdded { chunk_index: n as u32, len });
        proof {
            assert forall|i: int| 0 <= i < old_self.chunks@.len() implies self.chunk_data()[i]
                == old_self.chunk_data()[i] by {
                assert(self.chunks@[i] == old_self.chunks@[i]);
            }
            assert forall|i: int| 0 <= i < self.span_ring@.len() implies span_content(
                old_self.chunk_data(),
                #[trigger] self.span_ring@[i],
            ) == span_content(self.chunk_data(), self.span_ring@[i]) by {
                let s = self.span_ring@[i];
                assert(self.chunk_data()[s.chunk_index as int] == old_self.chunk_data()[s.chunk_index as int]);
            }
            lemma_spans_content_frame(old_self.chunk_data(), self.chunk_data(), self.span_ring@);
            assert(self.pending_bytes() == old_self.pending_bytes()) by {
                assert(self.chunks@[self.pending_chunk_index as int] == old_self.chunks@[self.pending_chunk_index as int]);
            }
            assert(old(self).events@.is_prefix_of(self.events@)) by {
                assert(self.events@.take(old(self).events@.len() as int) =~= old(self).events@);
            }
            assert forall|i: int|
                #![trigger self.span_ring@[i]]
                0 <= i < self.span_ring@.len() implies {
                let s = self.span_ring@[i];
                &&& (s.chunk_index as int) < self.chunks@.len()
                &&& s.offset + s.len <= self.options.chunk_size
                &&& self.state_buffer@[s.chunk_index as int] > 0
                &&& s.chunk_index == self.current_chunk_index ==> s.offset + s.len <= self.write_offset
            } by {
                assert(self.span_ring@[i] == old_self.span_ring@[i]);
            }
        }
        Ok(())
    }

    /// Moves the write position to the start of a free chunk, scanning
    /// cyclically from the current one, or of a new chunk when none is free.
    fn ensure_writable_chunk_locked(&mut self) -> (r: Result<(), StreamError>)
        requires
            old(self).wf(),
            old(self).pending_len == 0,
            !old(self).reserved_active,
            old(self).chunks@.len() < u32::MAX,
        ensures
            final(self).wf(),
            final(self).content() == old(self).content(),
            final(self).queued_spans() == old(self).queued_spans(),
            final(self).options == old(self).options,
            final(self).closed == old(self).closed,
            final(self).attached == old(self).attached,
            final(self).callback == old(self).callback,
            !final(self).reserved_active,
            final(self).pending_len == 0,
            final(self).stats.bytes_written == old(self).stats.bytes_written,
            final(self).stats.spans_committed == old(self).stats.spans_committed,
            final(self).drained == old(self).drained,
            old(self).events@.is_prefix_of(final(self).events@),
            !old(self).callback ==> final(self).events@ == old(self).events@,
            final(self).chunks@.len() <= old(self).chunks@.len() + 1,
            old(self).has_free_chunk() ==> final(self).chunks@.len() == old(self).chunks@.len(),
            !old(self).has_free_chunk() && r is Ok ==> final(self).chunks@.len() == old(self).chunks@.len() + 1
                && final(self).current_chunk_index == old(self).chunks@.len(),
            forall|i: int| 0 <= i < old(self).chunks@.len() ==> final(self).state_buffer@[i] == old(self).state_buffer@[i],
            r is Ok ==> final(self).write_offset == 0 && final(self).pending_offset == 0,
            r is Ok ==> final(self).state_buffer@[final(self).current_chunk_index as int] == 0,
            r is Err ==> *final(self) == *old(self),
            r is Ok <==> old(self).can_open_chunk(),
            r == Err::<(), StreamError>(StreamError::NoSpace) <==> !old(self).has_free_chunk()
                && old(self).options.growth_policy == 1,
            r == Err::<(), StreamError>(StreamError::MaxBytes) <==> !old(self).has_free_chunk()
                && old(self).options.growth_policy != 1 && !old(self).growth_allowed(),
    {
        let total = self.chunks.len();
        let start = self.current_chunk_index % total;
        proof {
            vstd::arithmetic::div_mod::lemma_small_mod(self.current_chunk_index as nat, total as nat);
        }
        let mut attempts: usize = 0;
        let mut index: usize = start;
        while attempts < total
            invariant
                self.wf(),
                *self == *old(self),
                total == self.chunks@.len(),
                attempts <= total,
                start < total,
                index == if start + attempts < total { start + attempts } else { start + attempts - total },
                forall|j: int|
                    0 <= j < total && (if start + attempts <= total {
                        start <= j < start + attempts
                    } else {
                        start <= j || j < start + attempts - total
                    }) ==> self.state_buffer@[j] != 0,
                self.pending_len == 0,
                !self.reserved_active,
            decreases total - attempts,
        {
            if self.is_chunk_free(index) {
                let ghost old_self = *self;
                self.current_chunk_index = index;
                self.write_offset = 0;
                self.pending_chunk_index = index;
                self.pending_offset = 0;
                self.pending_len = 0;
                proof {
                    assert(old_self.state_buffer@[index as int] == 0);
                    assert(old(self).state_view()[index as int] == 0);
                    assert(old(self).has_free_chunk());
                    assert(self.pending_bytes() =~= old_self.pending_bytes());
                    assert forall|i: int|
                        #![trigger self.span_ring@[i]]
                        0 <= i < self.span_ring@.len() implies {
                        let s = self.span_ring@[i];
                        &&& (s.chunk_index as int) < self.chunks@.len()
                        &&& s.offset + s.len <= self.options.chunk_size
                        &&& self.state_buffer@[s.chunk_index as int] > 0
                        &&& s.chunk_index == self.current_chunk_index ==> s.offset + s.len <= self.write_offset
                    } by {
                        assert(self.span_ring@[i] == old_self.span_ring@[i]);
                    }
                    assert(old(self).events@.is_prefix_of(self.events@)) by {
                        assert(self.events@.take(old(self).events@.len() as int) =~= old(self).events@);
                    }
                }
                return Ok(());
            }
            proof {
                if index + 1 < total {
                    vstd::arithmetic::div_mod::lemma_small_mod((index + 1) as nat, total as nat);
                } else {
                    vstd::arithmetic::div_mod::lemma_mod_self_0(total as int);
                }
            }
            index = (index + 1) % total;
            attempts = attempts + 1;
        }
        proof {
            assert forall|j: int| 0 <= j < self.chunk_count() implies self.state_view()[j] != 0 by {
                assert(self.state_buffer@[j] != 0);
            }
        }
        if self.options.growth_policy == GrowthPolicy::Block.code() {
            return Err(StreamError::NoSpace);
        }
        self.add_chunk_locked()?;
        let ghost old_self = *self;
        self.current_chunk_index = self.chunks.len() - 1;
        self.write_offset = 0;
        self.pending_chunk_index = self.current_chunk_index;
        self.pending_offset = 0;
        self.pending_len = 0;
        proof {
            assert(self.pending_bytes() =~= old_self.pending_bytes());
            assert forall|i: int|
                #![trigger self.span_ring@[i]]
                0 <= i < self.span_ring@.len() implies {
                let s = self.span_ring@[i];
                &&& (s.chunk_index as int) < self.chunks@.len()
                &&& s.offset + s.len <= self.options.chunk_size
                &&& self.state_buffer@[s.chunk_index as int] > 0
                &&& s.chunk_index == self.current_chunk_index ==> s.offset + s.len <= self.write_offset
            } by {
                assert(self.span_ring@[i] == old_self.span_ring@[i]);
            }
        }
        Ok(())
    }

    /// Copies `data[src..src + n]` into the chunk being written, extending the
    /// pending bytes.
    fn append_to_current(&mut self, data: &[u8], src: usize, n: usize)
        requires
            old(self).wf(),
            !old(self).reserved_active,
            n > 0,
            src + n <= data@.len(),
            old(self).write_offset + n <= old(self).options.chunk_size,
            old(self).stats.bytes_written + n <= u64::MAX,
        ensures
            final(self).wf(),
            final(self).content() == old(self).content() + data@.subrange(src as int, src + n),
            final(self).queued_spans() == old(self).queued_spans(),
            final(self).write_offset == old(self).write_offset + n,
            final(self).pending_len == old(self).pending_len + n,
            old(self).pending_len > 0 ==> final(self).pending_offset == old(self).pending_offset,
            old(self).pending_len == 0 ==> final(self).pending_offset == old(self).write_offset,
            final(self).current_chunk_index == old(self).current_chunk_index,
            final(self).chunks@.len() == old(self).chunks@.len(),
            final(self).state_buffer == old(self).state_buffer,
            final(self).options == old(self).options,
            final(self).closed == old(self).closed,
            final(self).attached == old(self).attached,
            final(self).callback == old(self).callback,
            !final(self).reserved_active,
            final(self).events == old(self).events,
            final(self).stats.bytes_written == old(self).stats.bytes_written + n,
            final(self).stats.spans_committed == old(self).stats.spans_committed,
    {
        if self.pending_len == 0 {
            self.pending_chunk_index = self.current_chunk_index;
            self.pending_offset = self.write_offset;
        }
        let ghost start = *self;
        let cur = self.current_chunk_index;
        let wo = self.write_offset;
        let ghost orig = self.chunks@[cur as int]@;
        let dlen = data.len();
        let mut j: usize = 0;
        while j < n
            invariant
                j <= n,
                src + n <= dlen,
                dlen == data@.len(),
                orig.len() == self.options.chunk_size,
                cur == self.current_chunk_index,
                wo == self.write_offset,
                wo + n <= self.options.chunk_size,
                cur < self.chunks@.len(),
                orig == start.chunks@[cur as int]@,
                self.chunks@.len() == start.chunks@.len(),
                forall|i: int| 0 <= i < self.chunks@.len() && i != cur ==> self.chunks@[i] == start.chunks@[i],
                self.chunks@[cur as int]@.len() == orig.len(),
                forall|k: int|
                    0 <= k < orig.len() ==> #[trigger] self.chunks@[cur as int]@[k] == if wo <= k < wo + j {
                        data@[src + k - wo]
                    } else {
                        orig[k]
                    },
                *self == (Stream { chunks: self.chunks, ..start }),
            decreases n - j,
        {
            let b = data[src + j];
            self.chunks[cur][wo + j] = b;
            j = j + 1;
        }
        let ghost written = *self;
        self.write_offset = wo + n;
        self.pending_len = self.pending_len + n;
        self.stats.bytes_written = self.stats.bytes_written + n as u64;
        proof {
            assert forall|i: int| 0 <= i < self.chunks@.len() implies (#[trigger] self.chunks@[i])@.len()
                == self.options.chunk_size by {
                if i != cur as int {
                    assert(self.chunks@[i] == start.chunks@[i]);
                }
            }
            assert forall|i: int| 0 <= i < self.span_ring@.len() implies span_content(
                start.chunk_data(),
                #[trigger] self.span_ring@[i],
            ) == span_content(self.chunk_data(), self.span_ring@[i]) by {
                let s = self.span_ring@[i];
                assert(start.span_ring@[i] == s);
                if s.chunk_index as int == cur as int {
                    assert(self.chunk_data()[cur as int].subrange(s.offset as int, s.offset + s.len)
                        =~= start.chunk_data()[cur as int].subrange(s.offset as int, s.offset + s.len));
                } else {
                    assert(self.chunk_data()[s.chunk_index as int] == start.chunk_data()[s.chunk_index as int]);
                }
            }
            lemma_spans_content_frame(start.chunk_data(), self.chunk_data(), self.span_ring@);
            assert(old(self).chunk_data() == start.chunk_data());
            assert(self.pending_bytes() =~= start.pending_bytes() + data@.subrange(src as int, src + n));
            assert(old(self).pending_bytes() =~= start.pending_bytes());
            assert(self.content() =~= old(self).content() + data@.subrange(src as int, src + n));
            assert forall|i: int|
                #![trigger self.span_ring@[i]]
                0 <= i < self.span_ring@.len() implies {
                let s = self.span_ring@[i];
                &&& (s.chunk_index as int) < self.chunks@.len()
                &&& s.offset + s.len <= self.options.chunk_size
                &&& self.state_buffer@[s.chunk_index as int] > 0
                &&& s.chunk_index == self.current_chunk_index ==> s.offset + s.len <= self.write_offset
            } by {
                assert(self.span_ring@[i] == old(self).span_ring@[i]);
            }
        }
    }

    fn finish(&mut self, notify: bool)
        ensures
            *final(self) == (Stream { events: final(self).events, ..*old(self) }),
            final(self).events@ == old(self).events@ + old(self).finish_events(notify),
            !notify ==> *final(self) == *old(self),
    {
        if !notify {
            return;
        }
        let queued = self.span_ring.len() as u32;
        if queued > 0 {
            self.push_event(StreamEvent::DataAvailable { count: queued });
        }
        proof {
            assert(self.events@ =~= old(self).events@ + old(self).finish_events(notify));
        }
    }

    pub open spec fn finish_events(&self, notify: bool) -> Seq<StreamEvent> {
        if notify && self.has_listener() && (self.queued_spans().len() as u32) > 0 {
            seq![StreamEvent::DataAvailable { count: self.queued_spans().len() as u32 }]
        } else {
            Seq::empty()
        }
    }

    /// Commits the pending bytes and moves to a writable chunk when the
    /// current one is full; returns the room in the chunk to write.
    fn make_room(&mut self, notify: &mut bool) -> (r: Result<usize, StreamError>)
        requires
            old(self).wf(),
            !old(self).reserved_active,
            old(self).pending_len > 0 ==> old(self).stats.spans_committed < u64::MAX,
            old(self).chunks@.len() < u32::MAX,
        ensures
            final(self).wf(),
            !final(self).reserved_active,
            final(self).content() == old(self).content(),
            final(self).options == old(self).options,
            final(self).closed == old(self).closed,
            final(self).attached == old(self).attached,
            final(self).callback == old(self).callback,
            final(self).stats.bytes_written == old(self).stats.bytes_written,
            final(self).drained == old(self).drained,
            final(self).stats.spans_committed >= old(self).stats.spans_committed,
            final(self).stats.spans_committed + (if final(self).pending_len > 0 { 1int } else { 0int })
                == old(self).stats.spans_committed + (if old(self).pending_len > 0 { 1int } else { 0int }),
            old(self).events@.is_prefix_of(final(self).events@),
            !old(self).callback ==> final(self).events@ == old(self).events@,
            final(self).chunks@.len() <= old(self).chunks@.len() + 1,
            old(self).write_offset < old(self).options.chunk_size ==> *final(self) == *old(self) && r
                == Ok::<usize, StreamError>((old(self).options.chunk_size - old(self).write_offset) as usize),
            r matches Ok(a) ==> a == final(self).options.chunk_size - final(self).write_offset && a > 0,
            r matches Ok(a) && old(self).write_offset == old(self).options.chunk_size ==> final(self).write_offset == 0
                && final(self).pending_offset == 0 && final(self).pending_len == 0,
            old(self).write_offset == old(self).options.chunk_size ==> {
                &&& r is Ok <==> old(self).can_commit() && old(self).can_open_next_chunk()
                &&& r is Ok ==> final(self).span_ring@.len() == old(self).span_ring@.len() + (if old(self).pending_len
                    > 0 { 1int } else { 0int })
                &&& r is Ok && old(self).pending_len > 0 ==> final(self).span_ring@ == old(self).span_ring@.push(
                    SpanInfo {
                        chunk_index: old(self).pending_chunk_index as u32,
                        offset: old(self).pending_offset as u32,
                        len: old(self).pending_len as u32,
                        reserved: 0,
                    },
                )
                &&& r is Ok && old(self).pending_len == 0 ==> final(self).span_ring@ == old(self).span_ring@
                &&& old(self).pending_len > 0 && old(self).span_ring@.len() < old(self).span_ring_capacity ==> {
                    &&& final(self).span_ring@ == old(self).span_ring@.push(
                        SpanInfo {
                            chunk_index: old(self).pending_chunk_index as u32,
                            offset: old(self).pending_offset as u32,
                            len: old(self).pending_len as u32,
                            reserved: 0,
                        },
                    )
                    &&& final(self).pending_len == 0
                }
                &&& !(old(self).pending_len > 0 && old(self).span_ring@.len() < old(self).span_ring_capacity)
                    ==> final(self).span_ring@ == old(self).span_ring@
                &&& r is Err ==> final(self).write_offset == old(self).write_offset && final(self).chunks@.len()
                    == old(self).chunks@.len() && final(self).current_chunk_index == old(self).current_chunk_index
                &&& r is Err && !(old(self).pending_len > 0 && old(self).span_ring@.len() < old(self).span_ring_capacity)
                    ==> *final(self) == *old(self)
                &&& old(self).pending_len == 0 && r is Err ==> *final(self) == *old(self)
                &&& old(self).pending_len == 0 && old(self).options.growth_policy == 1 && (forall|i: int|
                    0 <= i < old(self).chunks@.len() ==> old(self).state_buffer@[i] != 0) ==> r
                    == Err::<usize, StreamError>(StreamError::NoSpace)
            },
            r is Err ==> r == Err::<usize, StreamError>(StreamError::NoSpace) || r == Err::<usize, StreamError>(
                StreamError::MaxBytes,
            ),
            final(self).chunks@.len() >= old(self).chunks@.len(),
            others_in_use(old(self).state_buffer@, old(self).chunks@.len() as int, old(self).current_chunk_index as int)
                && (old(self).pending_len == 0 ==> old(self).state_buffer@[old(self).current_chunk_index as int] != 0)
                && old(self).write_offset == old(self).options.chunk_size && r is Ok ==> {
                &&& final(self).chunks@.len() == old(self).chunks@.len() + 1
                &&& others_in_use(
                    final(self).state_buffer@,
                    final(self).chunks@.len() as int,
                    final(self).current_chunk_index as int,
                )
            },
            others_in_use(old(self).state_buffer@, old(self).chunks@.len() as int, old(self).current_chunk_index as int)
                && r is Err ==> others_in_use(
                final(self).state_buffer@,
                final(self).chunks@.len() as int,
                final(self).current_chunk_index as int,
            ),
            r is Err && old(self).pending_len > 0 && final(self).pending_len == 0 ==> final(self).state_buffer@[
                final(self).current_chunk_index as int] != 0,
    {
        let chunk_len = self.options.chunk_size as usize;
        if self.write_offset < chunk_len {
            return Ok(chunk_len - self.write_offset);
        }
        if self.pending_len > 0 {
            self.commit_locked(notify)?;
        }
        let ghost mid = *self;
        proof {
            if mid.has_free_chunk() {
                let i = choose|i: int| 0 <= i < mid.chunk_count() && mid.state_view()[i] == 0;
                assert(old(self).state_view()[i] == 0 && !(old(self).pending_len_view() > 0 && i
                    == old(self).current_chunk_view()));
            }
            if exists|i: int|
                0 <= i < old(self).chunk_count() && old(self).state_view()[i] == 0 && !(old(self).pending_len_view() > 0
                    && i == old(self).current_chunk_view()) {
                let i = choose|i: int|
                    0 <= i < old(self).chunk_count() && old(self).state_view()[i] == 0 && !(
                    old(self).pending_len_view() > 0 && i == old(self).current_chunk_view());
                assert(mid.state_view()[i] == 0);
            }
        }
        let res = self.ensure_writable_chunk_locked();
        proof {
            let len = old(self).chunks@.len() as int;
            let cur = old(self).current_chunk_index as int;
            if others_in_use(old(self).state_buffer@, len, cur) {
                lemma_others_in_use_frame(old(self).state_buffer@, mid.state_buffer@, len, cur);
                if (old(self).pending_len == 0 ==> old(self).state_buffer@[cur] != 0) && res is Ok {
                    lemma_others_in_use_unfold(mid.state_buffer@, len, cur);
                    assert(mid.state_buffer@[cur] != 0);
                    if mid.has_free_chunk() {
                        let i = choose|i: int| 0 <= i < mid.chunk_count() && mid.state_view()[i] == 0;
                        if i != cur {
                            assert(mid.state_buffer@[i] != 0);
                        }
                    }
                    assert forall|i: int|
                        0 <= i < self.chunks@.len() && i != self.current_chunk_index implies self.state_buffer@[i] != 0 by {
                        assert(self.state_buffer@[i] == mid.state_buffer@[i]);
                        if i != cur {
                            assert(mid.state_buffer@[i] != 0);
                        }
                    }
                    lemma_others_in_use_start(self.state_buffer@, self.chunks@.len() as int, self.current_chunk_index as int);
                }
            }
        }
        match res {
            Ok(()) => Ok(chunk_len),
            Err(e) => Err(e),
        }
    }

    /// Commits the pending bytes when the chunk is full and auto-commit is on.
    fn commit_if_full(&mut self, auto_commit: bool, notify: &mut bool) -> (r: Result<(), StreamError>)
        requires
            old(self).wf(),
            !old(self).reserved_active,
            old(self).pending_len > 0 ==> old(self).stats.spans_committed < u64::MAX,
        ensures
            final(self).wf(),
            !final(self).reserved_active,
            final(self).content() == old(self).content(),
            final(self).options == old(self).options,
            final(self).closed == old(self).closed,
            final(self).attached == old(self).attached,
            final(self).callback == old(self).callback,
            final(self).stats.bytes_written == old(self).stats.bytes_written,
            final(self).drained == old(self).drained,
            final(self).stats.spans_committed >= old(self).stats.spans_committed,
            final(self).stats.spans_committed + (if final(self).pending_len > 0 { 1int } else { 0int })
                == old(self).stats.spans_committed + (if old(self).pending_len > 0 { 1int } else { 0int }),
            final(self).events@ == old(self).events@,
            final(self).chunks@.len() == old(self).chunks@.len(),
            final(self).write_offset >= old(self).write_offset,
            final(self).current_chunk_index == old(self).current_chunk_index,
            r is Err ==> r == Err::<(), StreamError>(StreamError::NoSpace),
            !(old(self).write_offset == old(self).options.chunk_size && auto_commit) ==> (r is Ok && *final(self) == *old(self)
                && *final(notify) == *old(notify)),
            (old(self).write_offset == old(self).options.chunk_size && auto_commit) ==> {
                &&& (r is Err <==> (old(self).pending_len > 0 && old(self).span_ring@.len() >= old(self).span_ring_capacity))
                &&& (old(self).pending_len == 0 ==> *final(self) == *old(self))
                &&& (r is Ok ==> final(self).pending_len == 0)
                &&& (r is Ok && old(self).pending_len > 0 ==> {
                    &&& final(self).span_ring@ == old(self).span_ring@.push(
                        SpanInfo {
                            chunk_index: old(self).pending_chunk_index as u32,
                            offset: old(self).pending_offset as u32,
                            len: old(self).pending_len as u32,
                            reserved: 0,
                        },
                    )
                    &&& final(self).stats.spans_committed == old(self).stats.spans_committed + 1
                    &&& final(self).state_buffer@[old(self).pending_chunk_index as int] > 0
                    &&& forall|i: int| 0 <= i < old(self).state_buffer@.len() && i != old(self).pending_chunk_index
                        ==> final(self).state_buffer@[i] == old(self).state_buffer@[i]
                })
            },
            r is Err ==> *final(self) == *old(self) && *final(notify) == *old(notify),
            *old(notify) ==> *final(notify),
            others_in_use(old(self).state_buffer@, old(self).chunks@.len() as int, old(self).current_chunk_index as int)
                ==> others_in_use(
                final(self).state_buffer@,
                final(self).chunks@.len() as int,
                final(self).current_chunk_index as int,
            ),
    {
        if self.write_offset == self.options.chunk_size as usize && auto_commit {
            self.commit_locked(notify)?;
            proof {
                if others_in_use(old(self).state_buffer@, old(self).chunks@.len() as int, old(self).current_chunk_index as int) {
                    lemma_others_in_use_frame(
                        old(self).state_buffer@,
                        self.state_buffer@,
                        old(self).chunks@.len() as int,
                        old(self).current_chunk_index as int,
                    );
                }
            }
        }
        Ok(())
    }

    /// Writes all of `data` into one chunk without auto-commit: the current
    /// one when it has room left, else the next writable chunk after the
    /// pending bytes are committed; refuses with `NoSpace` when `data` does
    /// not fit, having written nothing.
    fn write_in_one_chunk(&mut self, data: &[u8], notify: &mut bool) -> (r: Result<(), StreamError>)
        requires
            old(self).wf(),
            !old(self).reserved_active,
            data@.len() > 0,
            old(self).stats.bytes_written + data@.len() <= u64::MAX,
            old(self).stats.spans_committed < u64::MAX,
            old(self).chunks@.len() < u32::MAX,
        ensures
            final(self).wf(),
            !final(self).reserved_active,
            final(self).options == old(self).options,
            final(self).closed == old(self).closed,
            final(self).attached == old(self).attached,
            final(self).callback == old(self).callback,
            final(self).drained == old(self).drained,
            final(self).chunks@.len() >= old(self).chunks@.len(),
            final(self).stats.spans_committed >= old(self).stats.spans_committed,
            old(self).events@.is_prefix_of(final(self).events@),
            !old(self).callback ==> final(self).events@ == old(self).events@,
            r is Ok ==> final(self).content() == old(self).content() + data@ && final(self).stats.bytes_written
                == old(self).stats.bytes_written + data@.len(),
            r is Err ==> final(self).content() == old(self).content() && final(self).stats.bytes_written
                == old(self).stats.bytes_written,
            r is Err ==> r == Err::<(), StreamError>(StreamError::NoSpace) || r == Err::<(), StreamError>(
                StreamError::MaxBytes,
            ),
            0 < old(self).space_in_current() ==> (r is Ok <==> data@.len() <= old(self).space_in_current()),
            0 < old(self).space_in_current() < data@.len() ==> r == Err::<(), StreamError>(StreamError::NoSpace)
                && *final(self) == *old(self),
            old(self).space_in_current() == 0 ==> (r is Ok <==> old(self).can_commit() && old(self).can_open_next_chunk()
                && data@.len() <= old(self).options.chunk_size),
    {
        let available = match self.make_room(notify) {
            Ok(a) => a,
            Err(e) => {
                return Err(e);
            },
        };
        if data.len() > available {
            return Err(StreamError::NoSpace);
        }
        self.append_to_current(data, 0, data.len());
        proof {
            assert(data@.subrange(0, data@.len() as int) =~= data@);
        }
        Ok(())
    }

    /// Appends `data` to the stream. Full chunks are committed when auto-commit
    /// is on, and the write goes on in a free or new chunk; without
    /// auto-commit a write that does not fit in one chunk is refused with
    /// `NoSpace` and nothing of it is written. On an error raised midway, a
    /// prefix of `data` has been appended.
    #[verifier::rlimit(100)]
    #[verifier::spinoff_prover]
    pub fn write(&mut self, data: &[u8]) -> (r: Result<(), StreamError>)
        requires
            old(self).wf(),
            old(self).stats_view().bytes_written + data@.len() <= u64::MAX,
            old(self).stats_view().spans_committed + data@.len() + 1 <= u64::MAX,
            old(self).chunk_count() + old(self).write_chunk_budget(data@.len()) + 1 <= u32::MAX,
        ensures
            final(self).wf(),
            final(self).counters_grow(*old(self)),
            old(self).is_closed() ==> r == Err::<(), StreamError>(StreamError::Invalid) && *final(self)
                == *old(self),
            !old(self).is_closed() && data@.len() == 0 ==> r is Ok && *final(self) == *old(self),
            !old(self).is_closed() && data@.len() > 0 && old(self).has_reservation() ==> r == Err::<
                (),
                StreamError,
            >(StreamError::Busy) && *final(self) == *old(self),
            !old(self).is_closed() && data@.len() > 0 && !old(self).has_reservation() ==> {
                let o = old(self).options_view();
                let space = old(self).space_in_current();
                &&& r is Ok ==> final(self).content() == old(self).content() + data@
                &&& r is Ok ==> final(self).stats_view().bytes_written == old(self).stats_view().bytes_written
                    + data@.len()
                &&& exists|k: int|
                    0 <= k <= data@.len() && final(self).content() == old(self).content() + data@.take(k)
                        && final(self).stats_view().bytes_written == old(self).stats_view().bytes_written
                        + k
                &&& r is Err ==> r == Err::<(), StreamError>(StreamError::NoSpace) || r == Err::<(), StreamError>(
                    StreamError::MaxBytes,
                )
                &&& data@.len() < space ==> r is Ok
                &&& o.auto_commit_on_full != 0 && o.growth_policy != 1 && (o.max_bytes == 0 || (old(self).chunk_count()
                    + old(self).write_chunk_budget(data@.len())) * o.chunk_size <= o.max_bytes)
                    && old(self).queued_spans().len() + old(self).write_chunk_budget(data@.len()) + 1
                    <= o.span_queue_capacity ==> r is Ok
                &&& o.auto_commit_on_full != 0 && r is Ok ==> {
                    let fresh = if space == 0 && old(self).pending_len_view() == 0 { 1int } else { 0int };
                    let q = old(self).queued_spans().len() as int;
                    let total = o.chunk_size - space + data@.len();
                    &&& final(self).queued_spans().len() == q + total / (o.chunk_size as int) - fresh
                    &&& final(self).stats_view().spans_committed == old(self).stats_view().spans_committed + total
                        / (o.chunk_size as int) - fresh
                    &&& final(self).queued_spans().take(q) == old(self).queued_spans()
                    &&& fresh == 0 && final(self).queued_spans().len() > q ==> final(self).queued_spans()[q] == (
                    SpanInfo {
                        chunk_index: old(self).current_chunk_view() as u32,
                        offset: (o.chunk_size - space - old(self).pending_len_view()) as u32,
                        len: (old(self).pending_len_view() + space) as u32,
                        reserved: 0,
                    })
                    &&& forall|j: int|
                        q + 1 - fresh <= j < final(self).queued_spans().len() ==> (
                        #[trigger] final(self).queued_spans()[j]).offset == 0 && final(self).queued_spans()[j].len
                            == o.chunk_size
                    &&& final(self).pending_len_view() == if total % (o.chunk_size as int) == 0 {
                        0int
                    } else if total < o.chunk_size {
                        old(self).pending_len_view() + data@.len() as int
                    } else {
                        total % (o.chunk_size as int)
                    }
                    &&& (forall|i: int|
                        0 <= i < old(self).chunk_count() && i != old(self).current_chunk_view() ==> old(
                            self,
                        ).state_view()[i] != 0) && (space == 0 && old(self).pending_len_view() == 0 ==> old(
                        self,
                    ).state_view()[old(self).current_chunk_view() as int] != 0) ==> final(self).chunk_count()
                        == old(self).chunk_count() + old(self).write_chunk_budget(data@.len())
                }
                &&& o.auto_commit_on_full == 0 && r is Err ==> final(self).content() == old(self).content()
                    && final(self).stats_view().bytes_written == old(self).stats_view().bytes_written
                &&& o.auto_commit_on_full == 0 && 0 < space ==> (r is Ok <==> data@.len() <= space)
                &&& o.auto_commit_on_full == 0 && 0 < space < data@.len() ==> r == Err::<(), StreamError>(
                    StreamError::NoSpace,
                ) && *final(self) == *old(self)
                &&& o.auto_commit_on_full == 0 && space == 0 ==> (r is Ok <==> old(self).can_commit()
                    && old(self).can_open_next_chunk() && data@.len() <= o.chunk_size)
                &&& o.auto_commit_on_full != 0 && o.growth_policy == 1 && 0 < space < data@.len()
                    && old(self).queued_spans().len() < o.span_queue_capacity && (forall|i: int|
                    0 <= i < old(self).chunk_count() && i != old(self).current_chunk_view() ==> old(
                        self,
                    ).state_view()[i] != 0) ==> {
                    &&& r == Err::<(), StreamError>(StreamError::NoSpace)
                    &&& final(self).content() == old(self).content() + data@.take(space)
                    &&& final(self).stats_view().bytes_written == old(self).stats_view().bytes_written + space
                    &&& final(self).stats_view().spans_committed == old(self).stats_view().spans_committed + 1
                    &&& final(self).queued_spans() == old(self).queued_spans().push(
                        SpanInfo {
                            chunk_index: old(self).current_chunk_view() as u32,
                            offset: (o.chunk_size - space - old(self).pending_len_view()) as u32,
                            len: (old(self).pending_len_view() + space) as u32,
                            reserved: 0,
                        },
                    )
                    &&& final(self).chunk_count() == old(self).chunk_count()
                    &&& final(self).pending_len_view() == 0
                }
            },
            final(self).is_closed() == old(self).is_closed(),
            final(self).is_attached() == old(self).is_attached(),
            final(self).has_listener() == old(self).has_listener(),
            final(self).options_view() == old(self).options_view(),
            final(self).spans_drained() == old(self).spans_drained(),
            final(self).chunk_count() >= old(self).chunk_count(),
            !final(self).has_reservation() || *final(self) == *old(self),
            old(self).events_view().is_prefix_of(final(self).events_view()),
            !old(self).has_listener() ==> final(self).events_view() == old(self).events_view(),
    {
        if self.closed {
            return Err(StreamError::Invalid);
        }
        if data.len() == 0 {
            return Ok(());
        }
        if self.reserved_active {
            return Err(StreamError::Busy);
        }
        let mut notify = false;
        let mut remaining = data.len();
        let mut src_index: usize = 0;
        let auto_commit = self.options.auto_commit_on_full != 0;
        if !auto_commit {
            let r = self.write_in_one_chunk(data, &mut notify);
            if r.is_err() {
                proof {
                    let k = 0int;
                    assert(data@.take(0) =~= Seq::<u8>::empty());
                    assert(0 <= k <= data@.len() && self.content() == old(self).content() + data@.take(k)
                        && self.stats_view().bytes_written == old(self).stats_view().bytes_written + k);
                }
                return r;
            }
            self.finish(notify);
            proof {
                let k = data@.len() as int;
                assert(data@.take(k) =~= data@);
                assert(0 <= k <= data@.len() && self.content() == old(self).content() + data@.take(k)
                    && self.stats_view().bytes_written == old(self).stats_view().bytes_written + k);
                assert(old(self).events@.is_prefix_of(self.events@)) by {
                    assert(self.events@.take(old(self).events@.len() as int) =~= old(self).events@);
                }
            }
            return Ok(());
        }
        let chunk_len = self.options.chunk_size as usize;
        let ghost cs: int = chunk_len as int;
        let ghost c0 = self.chunks@.len();
        let ghost q0 = self.span_ring@.len();
        let ghost wo0: int = self.write_offset as int;
        let ghost p0: int = if self.pending_len > 0 { 1 } else { 0 };
        let ghost space0: int = self.options.chunk_size - self.write_offset;
        let ghost budget: int = old(self).write_chunk_budget(data@.len());
        let ghost grow_ok: bool = auto_commit && self.options.growth_policy != 1 && (self.options.max_bytes == 0
            || (c0 + budget) * cs <= self.options.max_bytes) && q0 + budget + 1 <= self.span_ring_capacity;
        let ghost blk: bool = old(self).options_view().auto_commit_on_full != 0 && old(self).options_view().growth_policy
            == 1 && 0 < old(self).space_in_current() < data@.len() && old(self).queued_spans().len()
            < old(self).options_view().span_queue_capacity && (forall|i: int|
            0 <= i < old(self).chunk_count() && i != old(self).current_chunk_view() ==> old(self).state_view()[i]
                != 0);
        let ghost span0 = SpanInfo {
            chunk_index: self.current_chunk_index as u32,
            offset: (cs - space0 - self.pending_len) as u32,
            len: (self.pending_len + space0) as u32,
            reserved: 0,
        };
        let ghost d0: int = if space0 == 0 && self.pending_len == 0 { 1 } else { 0 };
        let ghost gh: bool = (forall|i: int|
            0 <= i < old(self).chunk_count() && i != old(self).current_chunk_view() ==> old(self).state_view()[i]
                != 0) && (old(self).space_in_current() == 0 && old(self).pending_len_view() == 0 ==> old(
            self,
        ).state_view()[old(self).current_chunk_view() as int] != 0);
        let ghost cur0 = self.current_chunk_index;
        let ghost mut ens: int = 0;
        let ghost mut base: int = 0;
        proof {
            assert(budget == (wo0 + data@.len() - 1) / cs);
            lemma_auto_write_ring_start(self.span_ring@, d0, span0, cs);
            if gh {
                assert forall|i: int|
                    0 <= i < self.chunks@.len() && i != self.current_chunk_index implies self.state_buffer@[i] != 0 by {
                    assert(old(self).state_view()[i] != 0);
                }
                lemma_others_in_use_start(self.state_buffer@, self.chunks@.len() as int, self.current_chunk_index as int);
            }
        }
        let mut err: Option<StreamError> = None;
        while remaining > 0 && err.is_none()
            invariant
                self.wf(),
                !self.reserved_active,
                !self.closed,
                !old(self).closed,
                !old(self).reserved_active,
                data@.len() > 0,
                remaining + src_index == data@.len(),
                chunk_len == self.options.chunk_size,
                cs == chunk_len,
                auto_commit,
                auto_commit == (self.options.auto_commit_on_full != 0),
                self.options == old(self).options,
                self.attached == old(self).attached,
                self.callback == old(self).callback,
                self.drained == old(self).drained,
                self.span_ring_capacity == old(self).span_ring_capacity,
                self.content() == old(self).content() + data@.take(src_index as int),
                self.stats.bytes_written == old(self).stats.bytes_written + src_index,
                old(self).stats.bytes_written + data@.len() <= u64::MAX,
                old(self).stats.spans_committed + data@.len() + 1 <= u64::MAX,
                c0 + budget + 1 <= u32::MAX,
                data@.len() <= usize::MAX,
                self.chunks@.len() >= c0,
                auto_commit && gh ==> {
                    &&& self.chunks@.len() == c0 + ens
                    &&& others_in_use(self.state_buffer@, self.chunks@.len() as int, self.current_chunk_index as int)
                    &&& self.write_offset == chunk_len && self.pending_len == 0 ==> self.state_buffer@[
                        self.current_chunk_index as int] != 0
                },
                c0 == old(self).chunks@.len(),
                q0 == old(self).span_ring@.len(),
                wo0 == old(self).write_offset,
                p0 == if old(self).pending_len > 0 { 1int } else { 0int },
                space0 == old(self).options.chunk_size - old(self).write_offset,
                budget == (wo0 + data@.len() - 1) / cs,
                grow_ok == (auto_commit && old(self).options.growth_policy != 1 && (old(self).options.max_bytes == 0
                    || (c0 + budget) * cs <= old(self).options.max_bytes) && q0 + budget + 1
                    <= old(self).span_ring_capacity),
                blk == (old(self).options_view().auto_commit_on_full != 0 && old(self).options_view().growth_policy
                    == 1 && 0 < old(self).space_in_current() < data@.len() && old(self).queued_spans().len()
                    < old(self).options_view().span_queue_capacity && (forall|i: int|
                    0 <= i < old(self).chunk_count() && i != old(self).current_chunk_view() ==> old(
                        self,
                    ).state_view()[i] != 0)),
                span0 == (SpanInfo {
                    chunk_index: old(self).current_chunk_index as u32,
                    offset: (cs - space0 - old(self).pending_len) as u32,
                    len: (old(self).pending_len + space0) as u32,
                    reserved: 0,
                }),
                self.stats.spans_committed + (if self.pending_len > 0 { 1int } else { 0int })
                    <= old(self).stats.spans_committed + p0 + src_index,
                self.stats.spans_committed >= old(self).stats.spans_committed,
                err is None && src_index == 0 ==> *self == *old(self),
                data@.len() < space0 ==> src_index == 0 || remaining == 0,
                old(self).events@.is_prefix_of(self.events@),
                !old(self).callback ==> self.events@ == old(self).events@,
                ens >= 0,
                base == ens * cs,
                base + self.write_offset == wo0 + src_index,
                self.chunks@.len() <= c0 + ens,
                self.span_ring@.len() <= q0 + ens + (if self.write_offset == chunk_len && self.pending_len == 0 {
                    1int
                } else {
                    0int
                }),
                d0 == (if space0 == 0 && old(self).pending_len == 0 { 1int } else { 0int }),
                cur0 == old(self).current_chunk_index,
                src_index > 0 ==> self.write_offset >= 1,
                ens == 0 ==> self.current_chunk_index == cur0,
                q0 <= self.span_ring@.len(),
                auto_commit ==> auto_write_ring(self.span_ring@, old(self).span_ring@, d0, span0, cs),
                auto_commit ==> self.span_ring@.len() == q0 + ens + (if self.write_offset == chunk_len
                    && self.pending_len == 0 { 1int } else { 0int }) - d0,
                err is None && auto_commit && self.write_offset == chunk_len && self.pending_len > 0 ==> src_index
                    == 0,
                err matches Some(e) ==> e == StreamError::NoSpace || e == StreamError::MaxBytes,
                err is Some ==> !grow_ok,
                err is Some && blk ==> err == Some(StreamError::NoSpace) && src_index > 0,
                data@.len() < space0 ==> err is None,
                auto_commit && ens > 0 && self.pending_len > 0 ==> self.pending_offset == 0,
                auto_commit && src_index > 0 && self.write_offset < chunk_len ==> self.pending_len > 0,
                auto_commit && ens == 0 && !(self.write_offset == chunk_len && self.pending_len == 0)
                    ==> self.pending_len == old(self).pending_len + src_index,
                blk && src_index > 0 ==> {
                    &&& src_index == space0
                    &&& self.write_offset == chunk_len
                    &&& self.pending_len == 0
                    &&& self.span_ring@ == old(self).span_ring@.push(span0)
                    &&& self.stats.spans_committed == old(self).stats.spans_committed + 1
                    &&& self.chunks@.len() == c0
                    &&& forall|i: int| 0 <= i < c0 ==> self.state_buffer@[i] != 0
                },
            decreases remaining + (if err is None { 1int } else { 0int }),
        {
            let ghost pre = *self;
            assert(self.chunks@.len() < u32::MAX) by {
                lemma_ens_within_budget(ens, cs, wo0, data@.len() as int, base, self.write_offset as int, src_index as int);
            }
            let mut available: usize = 0;
            match self.make_room(&mut notify) {
                Ok(a) => {
                    available = a;
                },
                Err(e) => {
                    proof {
                        let k = src_index as int;
                        assert(0 <= k <= data@.len() && self.content() == old(self).content() + data@.take(k)
                            && self.stats_view().bytes_written == old(self).stats_view().bytes_written + k);
                        assert(grow_ok && pre.write_offset == chunk_len ==> pre.can_commit()
                            && pre.can_open_next_chunk()) by {
                            if grow_ok && pre.write_offset == chunk_len {
                                lemma_room_for_next_chunk(ens, cs, wo0, data@.len() as int, base, src_index as int);
                                assert(ens + 1 <= budget);
                                assert(q0 + budget + 1 <= pre.span_ring_capacity);
                                assert(pre.pending_len > 0 ==> pre.span_ring@.len() <= q0 + ens);
                                assert(pre.can_commit());
                                if pre.options.max_bytes != 0 {
                                    vstd::arithmetic::mul::lemma_mul_inequality(
                                        (pre.chunks@.len() + 1) as int,
                                        (c0 + budget) as int,
                                        cs,
                                    );
                                }
                                assert(pre.growth_allowed());
                            }
                        }
                        if blk && src_index > 0 {
                            assert(self.span_ring@ == old(self).span_ring@.push(span0));
                        }
                    }
                    err = Some(e);
                },
            }
            proof {
                if auto_commit && pre.write_offset == chunk_len && pre.pending_len > 0 && pre.span_ring@.len()
                    < pre.span_ring_capacity {
                    assert(src_index == 0);
                        lemma_auto_write_ring_push(
                            pre.span_ring@,
                            old(self).span_ring@,
                            d0,
                            span0,
                            cs,
                            SpanInfo {
                                chunk_index: pre.pending_chunk_index as u32,
                                offset: pre.pending_offset as u32,
                                len: pre.pending_len as u32,
                                reserved: 0,
                        },
                    );
                }
            }
            if err.is_none() {
                proof {
                    if pre.write_offset == chunk_len {
                        assert((ens + 1) * cs == ens * cs + cs) by (nonlinear_arith);
                        base = base + cs;
                        ens = ens + 1;
                    }
                }
                let to_write = if remaining < available { remaining } else { available };
                self.append_to_current(data, src_index, to_write);
                proof {
                    assert(data@.take(src_index as int) + data@.subrange(src_index as int, src_index + to_write)
                        =~= data@.take(src_index + to_write));
                }
                src_index = src_index + to_write;
                remaining = remaining - to_write;
                let ghost pre2 = *self;
                match self.commit_if_full(auto_commit, &mut notify) {
                    Ok(()) => {},
                    Err(e) => {
                        proof {
                            let k = src_index as int;
                            assert(0 <= k <= data@.len() && self.content() == old(self).content() + data@.take(k)
                                && self.stats_view().bytes_written == old(self).stats_view().bytes_written + k);
                            if grow_ok {
                                lemma_room_to_commit(ens, cs, wo0, data@.len() as int, base, src_index as int);
                            }
                        }
                        err = Some(e);
                    },
                }
                proof {
                    assert(err is None && auto_commit && pre2.write_offset == chunk_len ==> auto_write_ring(
                        self.span_ring@,
                        old(self).span_ring@,
                        d0,
                        span0,
                        cs,
                    )) by {
                        if err is None && auto_commit && pre2.write_offset == chunk_len {
                            if pre2.span_ring@.len() == q0 && d0 == 0 {
                                assert(ens == 0);
                            } else {
                                assert(ens > 0);
                                if pre.write_offset == chunk_len {
                                    assert(pre2.pending_offset == 0);
                                } else {
                                    assert(pre.pending_len > 0);
                                    assert(pre2.pending_offset == 0);
                                }
                            }
                            lemma_auto_write_ring_push(
                                pre2.span_ring@,
                                old(self).span_ring@,
                                d0,
                                span0,
                                cs,
                                SpanInfo {
                                    chunk_index: pre2.pending_chunk_index as u32,
                                    offset: pre2.pending_offset as u32,
                                    len: pre2.pending_len as u32,
                                    reserved: 0,
                                },
                            );
                        }
                    }
                    if blk && pre.write_offset < chunk_len && src_index > 0 {
                        assert forall|i: int| 0 <= i < c0 implies self.state_buffer@[i] != 0 by {
                            if i != old(self).current_chunk_index {
                                assert(old(self).state_view()[i] != 0);
                                assert(pre2.state_buffer@[i] == old(self).state_buffer@[i]);
                            }
                        }
                    }
                }
            }
        }
        if let Some(e) = err {
            proof {
                let k = src_index as int;
                assert(0 <= k <= data@.len() && self.content() == old(self).content() + data@.take(k)
                    && self.stats_view().bytes_written == old(self).stats_view().bytes_written + k);
            }
            return Err(e);
        }
        self.finish(notify);
        proof {
            if auto_commit {
                lemma_auto_write_ring_facts(self.span_ring@, old(self).span_ring@, d0, span0, cs);
                lemma_write_totals(ens, cs, wo0, data@.len() as int, base, self.write_offset as int);
            }
            assert(data@.take(data@.len() as int) =~= data@);
            let k = data@.len() as int;
            assert(0 <= k <= data@.len() && self.content() == old(self).content() + data@.take(k)
                && self.stats_view().bytes_written == old(self).stats_view().bytes_written + k);
            assert(old(self).events@.is_prefix_of(self.events@)) by {
                assert(self.events@.take(old(self).events@.len() as int) =~= old(self).events@);
            }
        }
        Ok(())
    }

    /// Reserves the rest of a writable chunk for direct writes, to be
    /// committed by [`Stream::commit_reserved`].
    pub fn reserve(&mut self, min_len: u32) -> (r: Result<ReserveInfo, StreamError>)
        requires
            old(self).wf(),
            old(self).chunk_count() < u32::MAX,
        ensures
            final(self).wf(),
            final(self).counters_grow(*old(self)),
            final(self).content() == old(self).content(),
            final(self).queued_spans() == old(self).queued_spans(),
            final(self).is_closed() == old(self).is_closed(),
            final(self).is_attached() == old(self).is_attached(),
            final(self).has_listener() == old(self).has_listener(),
            final(self).options_view() == old(self).options_view(),
            final(self).stats_view().bytes_written == old(self).stats_view().bytes_written,
            final(self).stats_view().spans_committed == old(self).stats_view().spans_committed,
            final(self).spans_drained() == old(self).spans_drained(),
            old(self).events_view().is_prefix_of(final(self).events_view()),
            !old(self).has_listener() ==> final(self).events_view() == old(self).events_view(),
            old(self).is_closed() ==> r == Err::<ReserveInfo, StreamError>(StreamError::Invalid) && *final(
            self) == *old(self),
            !old(self).is_closed() && (old(self).has_reservation() || old(self).pending_len_view() > 0)
                ==> r == Err::<ReserveInfo, StreamError>(StreamError::Busy) && *final(self) == *old(self),
            !old(self).is_closed() && !old(self).has_reservation() && old(self).pending_len_view() == 0 ==> {
                &&& r is Ok <==> old(self).can_open_chunk() && min_len <= old(self).options_view().chunk_size
                &&& r == Err::<ReserveInfo, StreamError>(StreamError::MaxBytes) <==> !old(self).can_open_chunk()
                    && old(self).options_view().growth_policy != 1
                &&& r == Err::<ReserveInfo, StreamError>(StreamError::NoSpace) <==> (!old(self).can_open_chunk()
                    && old(self).options_view().growth_policy == 1) || (old(self).can_open_chunk() && min_len
                    > old(self).options_view().chunk_size)
                &&& !old(self).can_open_chunk() ==> *final(self) == *old(self)
                &&& r is Err ==> !final(self).has_reservation()
            },
            r matches Ok(info) ==> {
                &&& final(self).has_reservation()
                &&& info.chunk_index == final(self).reserved_chunk_view()
                &&& info.chunk_index == final(self).current_chunk_view()
                &&& (info.chunk_index as int) < final(self).chunk_count()
                &&& final(self).state_view()[info.chunk_index as int] == 0
                &&& info.offset == 0
                &&& final(self).reserved_offset_view() == 0
                &&& info.len == old(self).options_view().chunk_size
                &&& final(self).reserved_len_view() == info.len
                &&& info.reserved == 0
                &&& old(self).has_free_chunk() ==> final(self).chunk_count() == old(self).chunk_count()
                &&& !old(self).has_free_chunk() ==> final(self).chunk_count() == old(self).chunk_count() + 1
            },
    {
        if self.closed {
            return Err(StreamError::Invalid);
        }
        if self.reserved_active || self.pending_len != 0 {
            return Err(StreamError::Busy);
        }
        self.ensure_writable_chunk_locked()?;
        let available = self.chunks[self.current_chunk_index].len() - self.write_offset;
        if available < min_len as usize {
            return Err(StreamError::NoSpace);
        }
        let ghost before = *self;
        self.reserved_active = true;
        self.reserved_chunk_index = self.current_chunk_index;
        self.reserved_offset = self.write_offset;
        self.reserved_len = available;
        proof {
            assert(self.pending_bytes() == before.pending_bytes());
            assert forall|i: int|
                #![trigger self.span_ring@[i]]
                0 <= i < self.span_ring@.len() implies {
                let s = self.span_ring@[i];
                &&& (s.chunk_index as int) < self.chunks@.len()
                &&& s.offset + s.len <= self.options.chunk_size
                &&& self.state_buffer@[s.chunk_index as int] > 0
                &&& s.chunk_index == self.current_chunk_index ==> s.offset + s.len <= self.write_offset
            } by {
                assert(self.span_ring@[i] == before.span_ring@[i]);
            }
        }
        Ok(ReserveInfo {
            chunk_index: self.current_chunk_index as u32,
            offset: self.write_offset as u32,
            len: available as u32,
            reserved: 0,
        })
    }

    /// Writes `bytes` at `at` within the active reservation.
    pub fn write_reserved(&mut self, at: u32, bytes: &[u8]) -> (r: Result<(), StreamError>)
        requires
            old(self).wf(),
        ensures
            final(self).wf(),
            final(self).counters_grow(*old(self)),
            final(self).content() == old(self).content(),
            final(self).queued_spans() == old(self).queued_spans(),
            final(self).has_reservation() == old(self).has_reservation(),
            final(self).reserved_len_view() == old(self).reserved_len_view(),
            final(self).is_closed() == old(self).is_closed(),
            final(self).is_attached() == old(self).is_attached(),
            final(self).has_listener() == old(self).has_listener(),
            final(self).options_view() == old(self).options_view(),
            final(self).stats_view() == old(self).stats_view(),
            final(self).events_view() == old(self).events_view(),
            r is Ok <==> old(self).has_reservation() && at + bytes@.len() <= old(self).reserved_len_view(),
            r is Err ==> r == Err::<(), StreamError>(StreamError::Invalid) && *final(self) == *old(self),
            r is Ok ==> final(self).reserved_region() == old(self).reserved_region().take(at as int)
                + bytes@ + old(self).reserved_region().skip(at + bytes@.len()),
    {
        let n = bytes.len();
        if !self.reserved_active || n > self.reserved_len || (at as usize) > self.reserved_len - n {
            return Err(StreamError::Invalid);
        }
        let ci = self.reserved_chunk_index;
        let base = self.reserved_offset + at as usize;
        let ghost start = *self;
        let ghost orig = self.chunks@[ci as int]@;
        let mut j: usize = 0;
        while j < n
            invariant
                j <= n,
                n == bytes@.len(),
                ci == self.reserved_chunk_index,
                base == self.reserved_offset + at,
                base + n <= self.reserved_offset + self.reserved_len,
                self.reserved_offset + self.reserved_len == self.options.chunk_size,
                ci < self.chunks@.len(),
                orig == start.chunks@[ci as int]@,
                orig.len() == self.options.chunk_size,
                self.chunks@.len() == start.chunks@.len(),
                forall|i: int| 0 <= i < self.chunks@.len() && i != ci ==> self.chunks@[i] == start.chunks@[i],
                self.chunks@[ci as int]@.len() == orig.len(),
                forall|k: int|
                    0 <= k < orig.len() ==> #[trigger] self.chunks@[ci as int]@[k] == if base <= k < base + j {
                        bytes@[k - base]
                    } else {
                        orig[k]
                    },
                *self == (Stream { chunks: self.chunks, ..start }),
            decreases n - j,
        {
            self.chunks[ci][base + j] = bytes[j];
            j = j + 1;
        }
        proof {
            assert forall|i: int| 0 <= i < self.chunks@.len() implies (#[trigger] self.chunks@[i])@.len()
                == self.options.chunk_size by {
                if i != ci as int {
                    assert(self.chunks@[i] == start.chunks@[i]);
                }
            }
            assert forall|i: int| 0 <= i < self.span_ring@.len() implies span_content(
                start.chunk_data(),
                #[trigger] self.span_ring@[i],
            ) == span_content(self.chunk_data(), self.span_ring@[i]) by {
                let s = self.span_ring@[i];
                if s.chunk_index as int == ci as int {
                    assert(self.chunk_data()[ci as int].subrange(s.offset as int, s.offset + s.len)
                        =~= start.chunk_data()[ci as int].subrange(s.offset as int, s.offset + s.len));
                } else {
                    assert(self.chunk_data()[s.chunk_index as int] == start.chunk_data()[s.chunk_index as int]);
                }
            }
            lemma_spans_content_frame(start.chunk_data(), self.chunk_data(), self.span_ring@);
            assert(self.pending_bytes() =~= start.pending_bytes());
            assert(self.reserved_region() =~= start.reserved_region().take(at as int) + bytes@
                + start.reserved_region().skip(at + bytes@.len()));
        }
        Ok(())
    }

    /// Turns the first `len` reserved bytes into a committed span and ends the
    /// reservation.
    pub fn commit_reserved(&mut self, len: u32) -> (r: Result<(), StreamError>)
        requires
            old(self).wf(),
            old(self).stats_view().bytes_written + len <= u64::MAX,
            old(self).stats_view().spans_committed < u64::MAX,
        ensures
            final(self).wf(),
            final(self).counters_grow(*old(self)),
            final(self).is_closed() == old(self).is_closed(),
            final(self).is_attached() == old(self).is_attached(),
            final(self).has_listener() == old(self).has_listener(),
            final(self).options_view() == old(self).options_view(),
            old(self).events_view().is_prefix_of(final(self).events_view()),
            !old(self).has_listener() ==> final(self).events_view() == old(self).events_view(),
            old(self).is_closed() ==> r == Err::<(), StreamError>(StreamError::Invalid) && *final(self)
                == *old(self),
            !old(self).is_closed() && !old(self).has_reservation() ==> r == Err::<(), StreamError>(
                StreamError::Invalid,
            ) && *final(self) == *old(self),
            !old(self).is_closed() && old(self).has_reservation() && len > old(self).reserved_len_view()
                ==> r == Err::<(), StreamError>(StreamError::NoSpace) && *final(self) == *old(self),
            !old(self).is_closed() && old(self).has_reservation() && len <= old(self).reserved_len_view() ==> {
                &&& final(self).content() == old(self).content() + old(self).reserved_region().take(len as int)
                &&& !final(self).has_reservation()
                &&& final(self).stats_view().bytes_written == old(self).stats_view().bytes_written + len
                &&& r is Err ==> r == Err::<(), StreamError>(StreamError::NoSpace)
                &&& r is Err <==> old(self).queued_spans().len() >= old(self).options_view().span_queue_capacity
                    && len > 0
                &&& r is Ok && len > 0 ==> final(self).queued_spans() == old(self).queued_spans().push(
                    SpanInfo {
                        chunk_index: old(self).reserved_chunk_view() as u32,
                        offset: old(self).reserved_offset_view() as u32,
                        len: len,
                        reserved: 0,
                    },
                ) && final(self).pending_len_view() == 0
                    && final(self).stats_view().spans_committed == old(self).stats_view().spans_committed + 1
                &&& len == 0 ==> r is Ok && final(self).queued_spans() == old(self).queued_spans()
                    && final(self).stats_view().spans_committed == old(self).stats_view().spans_committed
                    && final(self).pending_len_view() == 0
            },
            final(self).spans_drained() == old(self).spans_drained(),
    {
        if self.closed {
            return Err(StreamError::Invalid);
        }
        if !self.reserved_active {
            return Err(StreamError::Invalid);
        }
        if len as usize > self.reserved_len {
            return Err(StreamError::NoSpace);
        }
        let mut notify = false;
        let ghost before = *self;
        self.pending_chunk_index = self.reserved_chunk_index;
        self.pending_offset = self.reserved_offset;
        self.pending_len = len as usize;
        self.write_offset = self.reserved_offset + len as usize;
        self.reserved_active = false;
        self.reserved_len = 0;
        self.stats.bytes_written = self.stats.bytes_written + len as u64;
        proof {
            assert(self.pending_bytes() =~= before.reserved_region().take(len as int));
            assert(before.pending_bytes() =~= Seq::<u8>::empty());
            assert(self.chunk_data() == before.chunk_data());
            assert forall|i: int|
                #![trigger self.span_ring@[i]]
                0 <= i < self.span_ring@.len() implies {
                let s = self.span_ring@[i];
                &&& (s.chunk_index as int) < self.chunks@.len()
                &&& s.offset + s.len <= self.options.chunk_size
                &&& self.state_buffer@[s.chunk_index as int] > 0
                &&& s.chunk_index == self.current_chunk_index ==> s.offset + s.len <= self.write_offset
            } by {
                assert(self.span_ring@[i] == before.span_ring@[i]);
            }
            assert(self.content() =~= before.content() + before.reserved_region().take(len as int));
        }
        let res = self.commit_locked(&mut notify);
        if res.is_err() {
            return res;
        }
        self.finish(notify);
        Ok(())
    }

    /// Turns the pending bytes into a committed span.
    pub fn commit(&mut self) -> (r: Result<(), StreamError>)
        requires
            old(self).wf(),
            old(self).stats_view().spans_committed < u64::MAX,
        ensures
            final(self).wf(),
            final(self).counters_grow(*old(self)),
            final(self).content() == old(self).content(),
            final(self).is_closed() == old(self).is_closed(),
            final(self).is_attached() == old(self).is_attached(),
            final(self).has_listener() == old(self).has_listener(),
            final(self).options_view() == old(self).options_view(),
            final(self).has_reservation() == old(self).has_reservation(),
            final(self).stats_view().bytes_written == old(self).stats_view().bytes_written,
            old(self).events_view().is_prefix_of(final(self).events_view()),
            !old(self).has_listener() ==> final(self).events_view() == old(self).events_view(),
            old(self).is_closed() ==> r == Err::<(), StreamError>(StreamError::Invalid) && *final(self)
                == *old(self),
            !old(self).is_closed() && old(self).has_reservation() ==> r == Err::<(), StreamError>(StreamError::Busy)
                && *final(self) == *old(self),
            !old(self).is_closed() && !old(self).has_reservation() ==> {
                &&& r is Err <==> old(self).pending_len_view() > 0 && old(self).queued_spans().len()
                    >= old(self).options_view().span_queue_capacity
                &&& r is Err ==> r == Err::<(), StreamError>(StreamError::NoSpace) && *final(self) == *old(self)
                &&& r is Ok ==> final(self).pending_len_view() == 0 && final(self).queued_spans()
                    == old(self).queued_spans() + (if old(self).pending_len_view() > 0 {
                    seq![final(self).queued_spans().last()]
                } else {
                    Seq::empty()
                })
                &&& r is Ok && old(self).pending_len_view() > 0 ==> final(self).stats_view().spans_committed
                    == old(self).stats_view().spans_committed + 1
                &&& r is Ok && old(self).pending_len_view() > 0 ==> final(self).queued_spans() == old(self).queued_spans().push(
                SpanInfo {
                    chunk_index: old(self).current_chunk_view() as u32,
                    offset: old(self).pending_offset_view() as u32,
                    len: old(self).pending_len_view() as u32,
                    reserved: 0,
                })
                &&& r is Ok ==> final(self).stats_view() == (Stats {
                    spans_committed: final(self).stats_view().spans_committed,
                    pending_spans: final(self).queued_spans().len() as u32,
                    ..old(self).stats_view()
                })
                &&& old(self).pending_len_view() == 0 ==> r is Ok && *final(self) == *old(self)
            },
            final(self).spans_drained() == old(self).spans_drained(),
    {
        if self.closed {
            return Err(StreamError::Invalid);
        }
        if self.reserved_active {
            return Err(StreamError::Busy);
        }
        let mut notify = false;
        let res = self.commit_locked(&mut notify);
        if res.is_err() {
            return res;
        }
        proof {
            if old(self).pending_len > 0 {
                assert(self.span_ring@ =~= old(self).span_ring@ + seq![self.span_ring@.last()]);
            } else {
                assert(self.span_ring@ =~= old(self).span_ring@ + Seq::<SpanInfo>::empty());
            }
        }
        self.finish(notify);
        proof {
            assert(old(self).events@.is_prefix_of(self.events@)) by {
                assert(self.events@.take(old(self).events@.len() as int) =~= old(self).events@);
            }
        }
        Ok(())
    }

    pub fn get_stats(&self) -> (s: Stats)
        ensures
            s == self.stats_view(),
    {
        self.stats
    }

    /// Updates the byte limit, growth policy and auto-commit flag.
    pub fn set_options(&mut self, options: Options) -> (r: Result<(), StreamError>)
        requires
            old(self).wf(),
        ensures
            final(self).wf(),
            final(self).counters_grow(*old(self)),
            old(self).is_closed() ==> r == Err::<(), StreamError>(StreamError::Invalid) && *final(self)
                == *old(self),
            !old(self).is_closed() ==> r is Ok && final(self).options_view() == (Options {
                max_bytes: options.max_bytes,
                growth_policy: options.growth_policy,
                auto_commit_on_full: options.auto_commit_on_full,
                ..old(self).options_view()
            }),
            final(self).content() == old(self).content(),
            final(self).queued_spans() == old(self).queued_spans(),
            final(self).is_closed() == old(self).is_closed(),
            final(self).is_attached() == old(self).is_attached(),
            final(self).has_listener() == old(self).has_listener(),
            final(self).has_reservation() == old(self).has_reservation(),
            final(self).stats_view() == old(self).stats_view(),
            final(self).events_view() == old(self).events_view(),
            final(self).same_position(*old(self)),
            final(self).state_view() == old(self).state_view(),
            final(self).chunk_count() == old(self).chunk_count(),
    {
        if self.closed {
            return Err(StreamError::Invalid);
        }
        self.options.max_bytes = options.max_bytes;
        self.options.growth_policy = options.growth_policy;
        self.options.auto_commit_on_full = options.auto_commit_on_full;
        Ok(())
    }

    /// Commits the pending bytes and closes the stream.
    pub fn close(&mut self) -> (r: Result<(), StreamError>)
        requires
            old(self).wf(),
            old(self).stats_view().spans_committed < u64::MAX,
        ensures
            final(self).wf(),
            final(self).counters_grow(*old(self)),
            final(self).content() == old(self).content(),
            old(self).events_view().is_prefix_of(final(self).events_view()),
            !old(self).has_listener() ==> final(self).events_view() == old(self).events_view(),
            old(self).is_closed() ==> r is Ok && *final(self) == *old(self),
            !old(self).is_closed() && old(self).has_reservation() ==> r == Err::<(), StreamError>(StreamError::Busy)
                && *final(self) == *old(self),
            !old(self).is_closed() && !old(self).has_reservation() ==> {
                &&& r is Err <==> old(self).pending_len_view() > 0 && old(self).queued_spans().len()
                    >= old(self).options_view().span_queue_capacity
                &&& r is Err ==> r == Err::<(), StreamError>(StreamError::NoSpace) && *final(self) == *old(self)
                &&& r is Ok ==> final(self).is_closed() && !final(self).is_attached()
                    && final(self).pending_len_view() == 0
                &&& r is Ok && old(self).has_listener() ==> final(self).events_view().last() == StreamEvent::Closed
                &&& r is Ok && old(self).pending_len_view() > 0 ==> final(self).queued_spans() == old(self).queued_spans().push(
                SpanInfo {
                    chunk_index: old(self).current_chunk_view() as u32,
                    offset: old(self).pending_offset_view() as u32,
                    len: old(self).pending_len_view() as u32,
                    reserved: 0,
                }) && final(self).stats_view().spans_committed == old(self).stats_view().spans_committed + 1
                &&& r is Ok && old(self).pending_len_view() == 0 ==> final(self).queued_spans() == old(self).queued_spans()
                    && final(self).stats_view() == old(self).stats_view()
            },
            final(self).spans_drained() == old(self).spans_drained(),
    {
        if self.closed {
            return Ok(());
        }
        if self.reserved_active {
            return Err(StreamError::Busy);
        }
        let mut notify = false;
        if self.pending_len > 0 {
            let res = self.commit_locked(&mut notify);
            if res.is_err() {
                return res;
            }
        }
        self.closed = true;
        self.attached = false;
        self.finish(notify);
        self.push_event(StreamEvent::Closed);
        proof {
            assert(old(self).events@.is_prefix_of(self.events@)) by {
                assert(self.events@.take(old(self).events@.len() as int) =~= old(self).events@);
            }
        }
        Ok(())
    }

    /// Marks chunk `index` free again once the consumer is done with its
    /// spans, so that later writes and reservations can reuse it. Refused
    /// while a queued span, the pending bytes or the active reservation lie
    /// in that chunk.
    pub fn release_chunk(&mut self, index: usize) -> (r: Result<(), StreamError>)
        requires
            old(self).wf(),
        ensures
            final(self).wf(),
            final(self).counters_grow(*old(self)),
            r is Err ==> *final(self) == *old(self),
            r == Err::<(), StreamError>(StreamError::Invalid) <==> index >= old(self).chunk_count(),
            r == Err::<(), StreamError>(StreamError::Busy) <==> index < old(self).chunk_count() && old(
                self,
            ).chunk_in_use(index as int),
            r is Ok ==> {
                &&& final(self).state_view() == old(self).state_view().update(index as int, 0u8)
                &&& final(self).content() == old(self).content()
                &&& final(self).queued_spans() == old(self).queued_spans()
                &&& final(self).chunk_data() == old(self).chunk_data()
                &&& final(self).chunk_count() == old(self).chunk_count()
                &&& final(self).stats_view() == old(self).stats_view()
                &&& final(self).options_view() == old(self).options_view()
                &&& final(self).same_position(*old(self))
                &&& final(self).is_closed() == old(self).is_closed()
                &&& final(self).is_attached() == old(self).is_attached()
                &&& final(self).has_listener() == old(self).has_listener()
                &&& final(self).has_reservation() == old(self).has_reservation()
                &&& final(self).events_view() == old(self).events_view()
            },
    {
        if index >= self.chunks.len() {
            return Err(StreamError::Invalid);
        }
        if (self.pending_len > 0 && self.current_chunk_index == index) || (self.reserved_active
            && self.reserved_chunk_index == index) {
            return Err(StreamError::Busy);
        }
        let n = self.span_ring.len();
        let mut j: usize = 0;
        while j < n
            invariant
                j <= n,
                n == self.span_ring@.len(),
                index < self.chunks@.len(),
                self.wf(),
                *self == *old(self),
                forall|k: int| 0 <= k < j ==> self.span_ring@[k].chunk_index != index,
            decreases n - j,
        {
            if self.span_ring[j].chunk_index as usize == index {
                proof {
                    assert(old(self).queued_spans()[j as int].chunk_index == index);
                }
                return Err(StreamError::Busy);
            }
            j = j + 1;
        }
        let ghost before = *self;
        self.state_buffer.set(index, 0);
        proof {
            assert(self.pending_bytes() == before.pending_bytes());
            assert forall|i: int|
                #![trigger self.span_ring@[i]]
                0 <= i < self.span_ring@.len() implies {
                let s = self.span_ring@[i];
                &&& (s.chunk_index as int) < self.chunks@.len()
                &&& s.offset + s.len <= self.options.chunk_size
                &&& self.state_buffer@[s.chunk_index as int] > 0
                &&& s.chunk_index == self.current_chunk_index ==> s.offset + s.len <= self.write_offset
            } by {
                assert(self.span_ring@[i] == before.span_ring@[i]);
                assert(before.span_ring@[i].chunk_index != index);
            }
        }
        Ok(())
    }

    /// Moves up to `out.len()` queued spans, oldest first, into `out`, and
    /// returns how many were moved.
    pub fn drain_spans(&mut self, out: &mut [SpanInfo]) -> (count: u32)
        requires
            old(self).wf(),
        ensures
            final(self).wf(),
            final(self).counters_grow(*old(self)),
            count == if old(out)@.len() < old(self).queued_spans().len() {
                old(out)@.len()
            } else {
                old(self).queued_spans().len()
            },
            final(out)@.len() == old(out)@.len(),
            final(out)@.take(count as int) == old(self).queued_spans().take(count as int),
            final(out)@.skip(count as int) == old(out)@.skip(count as int),
            final(self).queued_spans() == old(self).queued_spans().skip(count as int),
            final(self).chunk_data() == old(self).chunk_data(),
            old(self).content() == spans_content(old(self).chunk_data(), final(out)@.take(count as int))
                + final(self).content(),
            final(self).stats_view() == (Stats { pending_spans: final(self).queued_spans().len() as u32, ..old(self).stats_view() }),
            final(self).spans_drained() == old(self).spans_drained() + count,
            final(self).current_chunk_view() == old(self).current_chunk_view(),
            final(self).space_in_current() == old(self).space_in_current(),
            final(self).pending_offset_view() == old(self).pending_offset_view(),
            final(self).pending_len_view() == old(self).pending_len_view(),
            final(self).state_view() == old(self).state_view(),
            final(self).chunk_count() == old(self).chunk_count(),
            final(self).is_closed() == old(self).is_closed(),
            final(self).is_attached() == old(self).is_attached(),
            final(self).has_listener() == old(self).has_listener(),
            final(self).options_view() == old(self).options_view(),
            final(self).has_reservation() == old(self).has_reservation(),
            final(self).events_view() == old(self).events_view(),
    {
        let to_read = if out.len() < self.span_ring.len() { out.len() } else { self.span_ring.len() };
        let ghost ring0 = self.span_ring@;
        let mut i: usize = 0;
        while i < to_read
            invariant
                i <= to_read,
                to_read <= out@.len(),
                to_read <= self.span_ring@.len(),
                self.span_ring@ == ring0,
                out@.len() == old(out)@.len(),
                forall|k: int| 0 <= k < i ==> out@[k] == ring0[k],
                forall|k: int| i <= k < out@.len() ==> out@[k] == old(out)@[k],
            decreases to_read - i,
        {
            out[i] = self.span_ring[i];
            i = i + 1;
        }
        let ghost before = *self;
        let mut j: usize = 0;
        while j < to_read
            invariant
                j <= to_read,
                to_read <= ring0.len(),
                self.span_ring@ == ring0.skip(j as int),
                *self == (Stream { span_ring: self.span_ring, ..before }),
            decreases to_read - j,
        {
            let _ = self.span_ring.pop_front();
            proof {
                assert(ring0.skip(j as int).subrange(1, ring0.skip(j as int).len() as int) =~= ring0.skip(
                    j + 1,
                ));
            }
            j = j + 1;
        }
        self.stats.pending_spans = self.span_ring.len() as u32;
        proof {
            self.drained@ = self.drained@ + to_read as nat;
            assert(out@.take(to_read as int) =~= ring0.take(to_read as int));
            assert(out@.skip(to_read as int) =~= old(out)@.skip(to_read as int));
            assert(ring0 =~= ring0.take(to_read as int) + ring0.skip(to_read as int));
            lemma_spans_content_append(before.chunk_data(), ring0.take(to_read as int), ring0.skip(to_read as int));
            assert(self.pending_bytes() == before.pending_bytes());
            assert forall|i: int|
                #![trigger self.span_ring@[i]]
                0 <= i < self.span_ring@.len() implies {
                let s = self.span_ring@[i];
                &&& (s.chunk_index as int) < self.chunks@.len()
                &&& s.offset + s.len <= self.options.chunk_size
                &&& self.state_buffer@[s.chunk_index as int] > 0
                &&& s.chunk_index == self.current_chunk_index ==> s.offset + s.len <= self.write_offset
            } by {
                assert(self.span_ring@[i] == ring0[i + to_read]);
            }
        }
        to_read as u32
    }

    /// The bytes a span designates, when it lies within a chunk.
    pub fn read_span(&self, span: SpanInfo) -> (r: Option<Vec<u8>>)
        requires
            self.wf(),
        ensures
            r is Some <==> span_fits(self.chunk_data(), span),
            r matches Some(v) ==> v@ == span_content(self.chunk_data(), span),
    {
        let ci = span.chunk_index as usize;
        if ci >= self.chunks.len() {
            return None;
        }
        let start = span.offset as usize;
        let len = span.len as usize;
        let chunk = &self.chunks[ci];
        if start > chunk.len() || len > chunk.len() - start {
            return None;
        }
        let mut v: Vec<u8> = Vec::new();
        let mut k: usize = 0;
        while k < len
            invariant
                k <= len,
                start + len <= chunk.len(),
                chunk@ == self.chunk_data()[ci as int],
                v@ == chunk@.subrange(start as int, start + k),
            decreases len - k,
        {
            v.push(chunk[start + k]);
            proof {
                assert(v@ =~= chunk@.subrange(start as int, start + k + 1));
            }
            k = k + 1;
        }
        Some(v)
    }

    /// How many chunk boundaries a write of `n` bytes can reach from the
    /// current write position.
    pub fn write_chunk_budget_exec(&self, n: usize) -> (b: u128)
        requires
            self.wf(),
            n > 0,
        ensures
            b == self.write_chunk_budget(n as nat),
    {
        let cs = self.options.chunk_size as u128;
        let wo = self.write_offset as u128;
        (wo + n as u128 - 1) / cs
    }

    pub fn chunk_count_exec(&self) -> (n: usize)
        requires
            self.wf(),
        ensures
            n == self.chunk_count(),
    {
        self.chunks.len()
    }

    pub closed spec fn state_view(&self) -> Seq<u8> {
        self.state_buffer@
    }

    /// The per-chunk state bytes: a nonzero entry marks a chunk with
    /// committed spans.
    pub fn state_bytes(&self) -> (r: &[u8])
        ensures
            r@ == self.state_view(),
    {
        self.state_buffer.as_slice()
    }

    /// The bytes of chunk `index`.
    pub fn chunk_bytes(&self, index: usize) -> (r: &[u8])
        requires
            index < self.chunk_count(),
        ensures
            r@ == self.chunk_data()[index as int],
    {
        self.chunks[index].as_slice()
    }
}

/// The span queue during a write with auto-commit: the old queue as a
/// prefix, then the first span (unless the write began on a full chunk with
/// nothing pending), then whole chunks.
#[verifier::opaque]
spec fn auto_write_ring(ring: Seq<SpanInfo>, old_ring: Seq<SpanInfo>, d0: int, span0: SpanInfo, cs: int) -> bool {
    &&& old_ring.len() <= ring.len()
    &&& ring.take(old_ring.len() as int) == old_ring
    &&& d0 == 0 && ring.len() > old_ring.len() ==> ring[old_ring.len() as int] == span0
    &&& forall|j: int|
        old_ring.len() + 1 - d0 <= j < ring.len() ==> (#[trigger] ring[j]).offset == 0 && ring[j].len == cs
}

proof fn lemma_auto_write_ring_start(ring: Seq<SpanInfo>, d0: int, span0: SpanInfo, cs: int)
    requires
        0 <= d0 <= 1,
    ensures
        auto_write_ring(ring, ring, d0, span0, cs),
{
    reveal(auto_write_ring);
    assert(ring.take(ring.len() as int) =~= ring);
}

proof fn lemma_auto_write_ring_push(
    ring: Seq<SpanInfo>,
    old_ring: Seq<SpanInfo>,
    d0: int,
    span0: SpanInfo,
    cs: int,
    s: SpanInfo,
)
    requires
        auto_write_ring(ring, old_ring, d0, span0, cs),
        0 <= d0 <= 1,
        ring.len() == old_ring.len() && d0 == 0 ==> s == span0,
        !(ring.len() == old_ring.len() && d0 == 0) ==> s.offset == 0 && s.len == cs,
    ensures
        auto_write_ring(ring.push(s), old_ring, d0, span0, cs),
{
    reveal(auto_write_ring);
    let r2 = ring.push(s);
    assert(r2.take(old_ring.len() as int) =~= ring.take(old_ring.len() as int));
    assert forall|j: int| old_ring.len() + 1 - d0 <= j < r2.len() implies (#[trigger] r2[j]).offset == 0
        && r2[j].len == cs by {
        if j < ring.len() {
            assert(r2[j] == ring[j]);
        }
    }
}

proof fn lemma_auto_write_ring_facts(ring: Seq<SpanInfo>, old_ring: Seq<SpanInfo>, d0: int, span0: SpanInfo, cs: int)
    requires
        auto_write_ring(ring, old_ring, d0, span0, cs),
    ensures
        old_ring.len() <= ring.len(),
        ring.take(old_ring.len() as int) == old_ring,
        d0 == 0 && ring.len() > old_ring.len() ==> ring[old_ring.len() as int] == span0,
        forall|j: int|
            old_ring.len() + 1 - d0 <= j < ring.len() ==> (#[trigger] ring[j]).offset == 0 && ring[j].len == cs,
{
    reveal(auto_write_ring);
}

/// At the end of a write that crossed `ens` chunk boundaries, the bytes
/// from the start of the first chunk split into whole chunks and a rest.
proof fn lemma_write_totals(ens: int, cs: int, wo0: int, n: int, base: int, wo: int)
    requires
        cs > 0,
        ens >= 0,
        base == ens * cs,
        base + wo == wo0 + n,
        1 <= wo <= cs,
    ensures
        (wo0 + n) / cs == ens + (if wo == cs { 1int } else { 0int }),
        (wo0 + n) % cs == (if wo == cs { 0int } else { wo }),
        wo < cs ==> (ens == 0 <==> wo0 + n < cs),
        (wo0 + n - 1) / cs == ens,
{
    vstd::arithmetic::div_mod::lemma_fundamental_div_mod_converse(wo0 + n - 1, cs, ens, wo - 1);
    if ens >= 1 {
        vstd::arithmetic::mul::lemma_mul_inequality(1, ens, cs);
    }
    if wo == cs {
        assert((ens + 1) * cs == ens * cs + cs) by (nonlinear_arith);
        vstd::arithmetic::div_mod::lemma_fundamental_div_mod_converse(wo0 + n, cs, ens + 1, 0);
    } else {
        vstd::arithmetic::div_mod::lemma_fundamental_div_mod_converse(wo0 + n, cs, ens, wo);
    }
}

/// A write that has crossed `ens` chunk boundaries and reached the end of a
/// chunk with bytes still to go stays within its budget of boundaries.
proof fn lemma_room_for_next_chunk(ens: int, cs: int, wo0: int, n: int, base: int, src: int)
    requires
        cs > 0,
        ens >= 0,
        base == ens * cs,
        base + cs == wo0 + src,
        src <= n - 1,
    ensures
        ens + 1 <= (wo0 + n - 1) / cs,
{
    assert((ens + 1) * cs == ens * cs + cs) by (nonlinear_arith);
    lemma_mul_le_div(ens + 1, cs, wo0 + n - 1);
}

/// Every chunk but `cur` among the first `len` has a nonzero state byte.
#[verifier::opaque]
spec fn others_in_use(state: Seq<u8>, len: int, cur: int) -> bool {
    forall|i: int| 0 <= i < len && i != cur ==> state[i] != 0
}

proof fn lemma_others_in_use_start(state: Seq<u8>, len: int, cur: int)
    requires
        forall|i: int| 0 <= i < len && i != cur ==> state[i] != 0,
    ensures
        others_in_use(state, len, cur),
{
    reveal(others_in_use);
}

/// Changing only the state byte of `cur` keeps the others in use.
proof fn lemma_others_in_use_frame(s1: Seq<u8>, s2: Seq<u8>, len: int, cur: int)
    requires
        others_in_use(s1, len, cur),
        forall|i: int| 0 <= i < len && i != cur ==> s2[i] == s1[i],
    ensures
        others_in_use(s2, len, cur),
{
    reveal(others_in_use);
    assert forall|i: int| 0 <= i < len && i != cur implies s2[i] != 0 by {
        assert(s1[i] != 0);
    }
}

proof fn lemma_others_in_use_unfold(state: Seq<u8>, len: int, cur: int)
    requires
        others_in_use(state, len, cur),
    ensures
        forall|i: int| 0 <= i < len && i != cur ==> state[i] != 0,
{
    reveal(others_in_use);
}

/// A write that has crossed `ens` chunk boundaries with bytes still to go
/// stays within its budget of boundaries.
proof fn lemma_ens_within_budget(ens: int, cs: int, wo0: int, n: int, base: int, wo: int, src: int)
    requires
        cs > 0,
        ens >= 0,
        base == ens * cs,
        base + wo == wo0 + src,
        wo >= 0,
        src <= n - 1,
    ensures
        ens <= (wo0 + n - 1) / cs,
{
    lemma_mul_le_div(ens, cs, wo0 + n - 1);
}

/// A write that has crossed `ens` chunk boundaries and just filled a chunk
/// stays within its budget of boundaries.
proof fn lemma_room_to_commit(ens: int, cs: int, wo0: int, n: int, base: int, src: int)
    requires
        cs > 0,
        ens >= 0,
        base == ens * cs,
        base + cs == wo0 + src,
        src <= n,
    ensures
        ens <= (wo0 + n - 1) / cs,
{
    lemma_mul_le_div(ens, cs, wo0 + n - 1);
}

proof fn lemma_mul_le_div(a: int, c: int, y: int)
    requires
        c > 0,
        a >= 0,
        a * c <= y,
    ensures
        a <= y / c,
{
    vstd::arithmetic::div_mod::lemma_fundamental_div_mod(y, c);
    if a > y / c {
        vstd::arithmetic::mul::lemma_mul_inequality(y / c + 1, a, c);
        assert((y / c + 1) * c == c * (y / c) + c) by (nonlinear_arith);
    }
}

/// Every committed span is either drained or still queued, and the stats
/// agree with the queue and the chunks.
pub proof fn lemma_stats_agree(s: &Stream)
    requires
        s.wf(),
    ensures
        s.stats_view().spans_committed == s.spans_drained() + s.queued_spans().len(),
        s.stats_view().pending_spans == s.queued_spans().len(),
        s.stats_view().chunks == s.chunk_count(),
        s.state_view().len() >= s.chunk_count(),
        s.queued_spans().len() <= s.options_view().span_queue_capacity,
        s.space_in_current() >= 0,
        s.space_in_current() <= s.options_view().chunk_size,
        s.chunk_count() >= 1,
        s.options_view().chunk_size > 0,
        s.pending_len_view() <= s.options_view().chunk_size,
        s.current_chunk_view() < s.chunk_count(),
{
}

/// Bytes written to an empty stream and then committed come back, in
/// order, from a drain that takes every queued span.
pub proof fn lemma_drain_gives_back_writes(
    empty: &Stream,
    written: &Stream,
    committed: &Stream,
    data: Seq<u8>,
    drained: Seq<SpanInfo>,
)
    requires
        committed.wf(),
        empty.content() == Seq::<u8>::empty(),
        written.content() == empty.content() + data,
        committed.content() == written.content(),
        committed.pending_len_view() == 0,
        drained == committed.queued_spans(),
    ensures
        spans_content(committed.chunk_data(), drained) == data,
{
    assert(committed.pending_bytes() =~= Seq::<u8>::empty());
    assert(committed.content() =~= spans_content(committed.chunk_data(), drained));
    assert(empty.content() + data =~= data);
}

} // verus!
