use opentui_core::span_feed::{
    default_options, normalize_options, GrowthPolicy, Options, SpanInfo, Stats, Stream, StreamError,
    StreamEvent,
};

fn small(growth: GrowthPolicy, auto: u8, max_bytes: u64) -> Options {
    Options {
        chunk_size: 4,
        initial_chunks: 1,
        max_bytes,
        growth_policy: growth.code(),
        auto_commit_on_full: auto,
        span_queue_capacity: 8,
    }
}

#[test]
fn normalize_applies_defaults() {
    let options = normalize_options(Options {
        chunk_size: 0,
        initial_chunks: 0,
        max_bytes: 0,
        growth_policy: GrowthPolicy::Grow.code(),
        auto_commit_on_full: 1,
        span_queue_capacity: 0,
    });

    assert_eq!(options.chunk_size, 64 * 1024);
    assert_eq!(options.initial_chunks, 1);
    assert_eq!(options.span_queue_capacity, 4096);
}

#[test]
fn write_commit_and_drain_round_trip() {
    let mut stream = Stream::create(default_options()).unwrap();
    stream.attach().unwrap();
    stream.write(b"hello").unwrap();
    stream.commit().unwrap();

    let mut out = [SpanInfo::default(); 2];
    let count = stream.drain_spans(&mut out);
    assert_eq!(count, 1);
    assert_eq!(out[0].len, 5);
    assert_eq!(stream.get_stats().spans_committed, 1);
}

#[test]
fn reserve_commit_reserved_round_trip() {
    let mut stream = Stream::create(Options {
        chunk_size: 16,
        initial_chunks: 1,
        max_bytes: 0,
        growth_policy: GrowthPolicy::Grow.code(),
        auto_commit_on_full: 0,
        span_queue_capacity: 8,
    })
    .unwrap();

    let reservation = stream.reserve(4).unwrap();
    stream.write_reserved(0, b"rust").unwrap();
    assert!(reservation.len >= 4);
    stream.commit_reserved(4).unwrap();

    let mut out = [SpanInfo::default(); 2];
    assert_eq!(stream.drain_spans(&mut out), 1);
    assert_eq!(out[0].len, 4);
}

#[test]
fn attach_emits_state_chunk_and_data_events() {
    let mut stream = Stream::create(default_options()).unwrap();
    stream.set_callback(true);
    stream.write(b"queued").unwrap();
    stream.commit().unwrap();
    stream.attach().unwrap();

    let captured = stream.take_events();
    assert!(captured.iter().any(|e| matches!(e, StreamEvent::StateBuffer { .. })));
    assert!(captured.iter().any(|e| matches!(e, StreamEvent::ChunkAdded { .. })));
    assert!(captured.iter().any(|e| matches!(e, StreamEvent::DataAvailable { .. })));
    assert!(captured.iter().any(|e| e.event_id() == 8));
}

#[test]
fn drained_spans_read_back_what_was_written() {
    let mut stream = Stream::create(default_options()).unwrap();
    stream.attach().unwrap();
    stream.write(b"abc").unwrap();
    stream.commit().unwrap();
    stream.write(b"defg").unwrap();
    stream.commit().unwrap();
    let mut out = [SpanInfo::default(); 4];
    let n = stream.drain_spans(&mut out);
    assert_eq!(n, 2);
    let mut all = Vec::new();
    for span in &out[..n as usize] {
        all.extend(stream.read_span(*span).unwrap());
    }
    assert_eq!(all, b"abcdefg");
}

#[test]
fn write_after_close_is_refused() {
    let mut stream = Stream::create(default_options()).unwrap();
    stream.close().unwrap();
    assert!(stream.write(b"x").is_err());
}

#[test]
fn block_policy_refuses_to_grow() {
    let mut stream = Stream::create(Options {
        chunk_size: 4,
        initial_chunks: 1,
        max_bytes: 0,
        growth_policy: GrowthPolicy::Block.code(),
        auto_commit_on_full: 1,
        span_queue_capacity: 8,
    })
    .unwrap();
    assert!(stream.write(b"abcdefgh").is_err());
}

#[test]
fn write_across_chunks_commits_the_full_chunk_and_grows() {
    let mut stream = Stream::create(small(GrowthPolicy::Grow, 1, 0)).unwrap();
    assert_eq!(stream.write(b"hello"), Ok(()));
    assert_eq!(
        stream.get_stats(),
        Stats { bytes_written: 5, spans_committed: 1, chunks: 2, pending_spans: 1 }
    );
    stream.commit().unwrap();
    let mut out = [SpanInfo::default(); 4];
    assert_eq!(stream.drain_spans(&mut out), 2);
    assert_eq!(out[0], SpanInfo { chunk_index: 0, offset: 0, len: 4, reserved: 0 });
    assert_eq!(out[1], SpanInfo { chunk_index: 1, offset: 0, len: 1, reserved: 0 });
    assert_eq!(stream.read_span(out[0]).unwrap(), b"hell".to_vec());
    assert_eq!(stream.read_span(out[1]).unwrap(), b"o".to_vec());
}

#[test]
fn write_with_block_policy_keeps_the_full_chunk_committed() {
    let mut stream = Stream::create(small(GrowthPolicy::Block, 1, 0)).unwrap();
    assert_eq!(stream.write(b"hello"), Err(StreamError::NoSpace));
    assert_eq!(
        stream.get_stats(),
        Stats { bytes_written: 4, spans_committed: 1, chunks: 1, pending_spans: 1 }
    );
}

#[test]
fn write_without_auto_commit_is_never_partial() {
    let mut stream = Stream::create(small(GrowthPolicy::Grow, 0, 0)).unwrap();
    assert_eq!(stream.write(b"hello"), Err(StreamError::NoSpace));
    assert_eq!(stream.get_stats().bytes_written, 0);
    assert_eq!(stream.write(b"abcd"), Ok(()));
    assert_eq!(stream.get_stats().bytes_written, 4);
    assert_eq!(stream.write(b"e"), Ok(()));
    assert_eq!(stream.get_stats().spans_committed, 1);
    assert_eq!(stream.get_stats().bytes_written, 5);
}

#[test]
fn reserve_errors_follow_their_causes() {
    let mut stream = Stream::create(small(GrowthPolicy::Grow, 1, 4)).unwrap();
    assert_eq!(stream.reserve(5), Err(StreamError::NoSpace));
    stream.write(b"ab").unwrap();
    assert_eq!(stream.reserve(1), Err(StreamError::Busy));
    stream.write(b"cd").unwrap();
    assert_eq!(stream.reserve(1), Err(StreamError::MaxBytes));

    let mut blocked = Stream::create(small(GrowthPolicy::Block, 1, 0)).unwrap();
    blocked.write(b"abcd").unwrap();
    assert_eq!(blocked.reserve(1), Err(StreamError::NoSpace));

    let mut closed = Stream::create(small(GrowthPolicy::Grow, 1, 0)).unwrap();
    closed.close().unwrap();
    assert_eq!(closed.reserve(1), Err(StreamError::Invalid));
}

#[test]
fn reserve_grants_a_whole_free_chunk() {
    let mut stream = Stream::create(small(GrowthPolicy::Grow, 1, 0)).unwrap();
    let info = stream.reserve(4).unwrap();
    assert_eq!(info.offset, 0);
    assert_eq!(info.len, 4);
    assert_eq!(info.reserved, 0);
    assert_eq!(stream.write(b"x"), Err(StreamError::Busy));
    assert_eq!(stream.commit(), Err(StreamError::Busy));
    assert_eq!(stream.close(), Err(StreamError::Busy));
    assert_eq!(stream.reserve(1), Err(StreamError::Busy));
}

#[test]
fn commit_reserved_of_nothing_queues_no_span() {
    let mut stream = Stream::create(small(GrowthPolicy::Grow, 0, 0)).unwrap();
    stream.reserve(1).unwrap();
    assert_eq!(stream.commit_reserved(0), Ok(()));
    assert_eq!(stream.get_stats().spans_committed, 0);
    assert_eq!(stream.get_stats().pending_spans, 0);
    let info = stream.reserve(1).unwrap();
    stream.write_reserved(0, b"zz").unwrap();
    assert_eq!(stream.commit_reserved(5), Err(StreamError::NoSpace));
    assert_eq!(stream.commit_reserved(2), Ok(()));
    let mut out = [SpanInfo::default(); 2];
    assert_eq!(stream.drain_spans(&mut out), 1);
    assert_eq!(out[0], SpanInfo { chunk_index: info.chunk_index, offset: 0, len: 2, reserved: 0 });
}

#[test]
fn commit_without_pending_bytes_changes_nothing() {
    let mut stream = Stream::create(default_options()).unwrap();
    stream.commit().unwrap();
    assert_eq!(stream.get_stats(), Stats { bytes_written: 0, spans_committed: 0, chunks: 2, pending_spans: 0 });
    stream.write(b"abc").unwrap();
    stream.commit().unwrap();
    stream.commit().unwrap();
    assert_eq!(stream.get_stats().spans_committed, 1);
    assert_eq!(stream.get_stats().pending_spans, 1);
}

#[test]
fn close_commits_the_pending_bytes_as_one_span() {
    let mut stream = Stream::create(default_options()).unwrap();
    stream.write(b"tail").unwrap();
    stream.close().unwrap();
    let mut out = [SpanInfo::default(); 2];
    assert_eq!(stream.drain_spans(&mut out), 1);
    assert_eq!(out[0], SpanInfo { chunk_index: 0, offset: 0, len: 4, reserved: 0 });
    assert_eq!(stream.close(), Ok(()));
}

#[test]
fn drain_leaves_the_counters_and_chunks() {
    let mut stream = Stream::create(default_options()).unwrap();
    stream.write(b"ab").unwrap();
    stream.commit().unwrap();
    stream.write(b"cd").unwrap();
    stream.commit().unwrap();
    let mut out = [SpanInfo::default(); 1];
    assert_eq!(stream.drain_spans(&mut out), 1);
    assert_eq!(stream.get_stats(), Stats { bytes_written: 4, spans_committed: 2, chunks: 2, pending_spans: 1 });
}

#[test]
fn attach_replays_state_chunks_and_count_in_order() {
    let mut stream = Stream::create(default_options()).unwrap();
    stream.set_callback(true);
    stream.write(b"queued").unwrap();
    stream.commit().unwrap();
    assert!(stream.take_events().is_empty());
    stream.attach().unwrap();
    assert_eq!(
        stream.take_events(),
        vec![
            StreamEvent::StateBuffer { len: 2 },
            StreamEvent::ChunkAdded { chunk_index: 0, len: 65536 },
            StreamEvent::ChunkAdded { chunk_index: 1, len: 65536 },
            StreamEvent::DataAvailable { count: 1 },
        ]
    );
}

#[test]
fn no_listener_means_no_events() {
    let mut stream = Stream::create(small(GrowthPolicy::Grow, 1, 0)).unwrap();
    stream.attach().unwrap();
    stream.write(b"hello world").unwrap();
    stream.commit().unwrap();
    stream.close().unwrap();
    assert!(stream.take_events().is_empty());
}

#[test]
fn released_chunk_is_reused_under_block_policy() {
    let mut stream = Stream::create(small(GrowthPolicy::Block, 1, 0)).unwrap();
    stream.write(b"abcd").unwrap();
    assert_eq!(stream.release_chunk(0), Err(StreamError::Busy));
    assert_eq!(stream.release_chunk(1), Err(StreamError::Invalid));
    let mut out = [SpanInfo::default(); 1];
    assert_eq!(stream.drain_spans(&mut out), 1);
    assert_eq!(stream.state_bytes()[0], 1);
    assert_eq!(stream.release_chunk(0), Ok(()));
    assert_eq!(stream.state_bytes()[0], 0);
    assert_eq!(stream.write(b"efgh"), Ok(()));
    assert_eq!(
        stream.get_stats(),
        Stats { bytes_written: 8, spans_committed: 2, chunks: 1, pending_spans: 1 }
    );
}

#[test]
fn write_chunk_budget_counts_the_boundaries_a_write_can_reach() {
    let mut stream = Stream::create(small(GrowthPolicy::Grow, 1, 0)).unwrap();
    assert_eq!(stream.write_chunk_budget_exec(4), 0);
    assert_eq!(stream.write_chunk_budget_exec(5), 1);
    assert_eq!(stream.write_chunk_budget_exec(9), 2);
    stream.write(b"abc").unwrap();
    assert_eq!(stream.write_chunk_budget_exec(1), 0);
    assert_eq!(stream.write_chunk_budget_exec(2), 1);
}

#[test]
fn each_filled_chunk_opens_a_new_one_when_none_is_free() {
    let mut stream = Stream::create(small(GrowthPolicy::Grow, 1, 0)).unwrap();
    stream.write(b"abcdefghij").unwrap();
    assert_eq!(
        stream.get_stats(),
        Stats { bytes_written: 10, spans_committed: 2, chunks: 3, pending_spans: 2 }
    );
}
