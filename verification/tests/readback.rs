use merkle_gpu::context::{
    initialize, is_initialized, AlreadyInitialized, DeviceRequest, GpuContextCell, InitStep,
    MerkleTreeGpuContext,
};
use merkle_gpu::readback::{
    begin_readback, MapEvent, MappedSliceGuard, ReadbackCounters, ReadbackGuard,
};

fn counts(counters: &ReadbackCounters) -> (u32, u32, u32) {
    (
        counters.active_readbacks,
        counters.active_mapped_slices,
        counters.readback_seq,
    )
}

#[test]
fn initialization_happens_once() {
    let mut cell = GpuContextCell::empty();
    assert!(!is_initialized(&cell));
    assert_eq!(
        initialize(&cell),
        InitStep::CreateDevice(DeviceRequest {
            max_buffer_size: 4294967291,
            max_storage_buffer_binding_size: 4294967291,
        })
    );
    assert!(cell.install(MerkleTreeGpuContext::new()).is_ok());
    assert!(is_initialized(&cell));
    assert_eq!(initialize(&cell), InitStep::AlreadyDone);
}

#[test]
fn a_second_context_is_refused() {
    let mut cell = GpuContextCell::empty();
    let mut first = MerkleTreeGpuContext::new();
    first.get_or_make_staging(64);
    cell.install(first).unwrap();
    let error = cell.install(MerkleTreeGpuContext::new()).unwrap_err();
    assert_eq!(error, AlreadyInitialized);
    assert_eq!(error.message(), "GPU context already initialized");
    assert_eq!(cell.context.unwrap().readback_capacity, 64);
}

#[test]
fn staging_is_reused_where_it_is_large_enough() {
    let mut context = MerkleTreeGpuContext::new();
    assert!(context.get_or_make_staging(100));
    assert!(!context.get_or_make_staging(100));
    assert!(!context.get_or_make_staging(40));
    assert_eq!(context.readback_capacity, 100);
    assert!(context.get_or_make_staging(101));
    assert_eq!(context.readback_capacity, 101);
}

#[test]
fn a_first_staging_buffer_is_made_even_for_nothing() {
    let mut context = MerkleTreeGpuContext::new();
    assert!(context.get_or_make_staging(0));
    assert!(!context.get_or_make_staging(0));
}

#[test]
fn guards_count_once() {
    let mut counters = ReadbackCounters::new();
    let (mut guard, before) = ReadbackGuard::new(&mut counters, 128);
    assert_eq!((before, guard.size_bytes, guard.active), (0, 128, true));
    let mut mapped = MappedSliceGuard::new(&mut counters);
    assert_eq!(counts(&counters), (1, 1, 1));
    mapped.release(&mut counters);
    mapped.release(&mut counters);
    guard.release(&mut counters);
    guard.release(&mut counters);
    assert_eq!(counts(&counters), (0, 0, 1));
}

#[test]
fn a_readback_from_begin_to_end() {
    let mut context = MerkleTreeGpuContext::new();
    let mut counters = ReadbackCounters::new();
    let start = begin_readback(&mut context, &mut counters, 3).unwrap();
    assert!(start.new_staging);
    assert_eq!(start.overlapping, 0);
    assert!(context.readback_busy);
    assert_eq!(counts(&counters), (1, 0, 2));
    let mut readback = start.readback;
    assert_eq!((readback.id, readback.word_len, readback.staging_size), (1, 3, 12));
    assert!(!readback.must_unmap());
    readback.begin_mapping(&mut counters);
    assert!(readback.must_unmap());
    assert_eq!(counts(&counters), (1, 1, 2));
    let readback = readback
        .settle(&mut context, &mut counters, None, MapEvent::Mapped)
        .unwrap();
    assert!(context.readback_busy);
    let words = [1u32, 2, 0xFFFF_0000];
    let mapped: &[u8] = bytemuck::cast_slice(&words);
    let read = readback.complete(&mut context, &mut counters, mapped);
    assert_eq!(read, words.to_vec());
    assert!(!context.readback_busy);
    assert_eq!(context.readback_capacity, 12);
    assert_eq!(counts(&counters), (0, 0, 2));
}

#[test]
fn readbacks_do_not_overlap() {
    let mut context = MerkleTreeGpuContext::new();
    let mut counters = ReadbackCounters::new();
    let start = begin_readback(&mut context, &mut counters, 3).unwrap();
    let error = begin_readback(&mut context, &mut counters, 3).unwrap_err();
    assert_eq!(error.message(), "concurrent readback detected");
    assert_eq!(counts(&counters), (1, 0, 2));
    start.readback.end(&mut context, &mut counters);
    assert_eq!(counts(&counters), (0, 0, 2));
    let next = begin_readback(&mut context, &mut counters, 2).unwrap();
    assert_eq!(next.readback.id, 2);
    assert!(!next.new_staging);
}

#[test]
fn readback_numbers_wrap() {
    let mut context = MerkleTreeGpuContext::new();
    let mut counters = ReadbackCounters::new();
    counters.readback_seq = u32::MAX;
    let start = begin_readback(&mut context, &mut counters, 1).unwrap();
    assert_eq!(start.readback.id, u32::MAX);
    assert_eq!(counters.readback_seq, 0);
}

#[test]
fn failures_end_the_readback() {
    let cases: Vec<(Option<&str>, MapEvent, &str)> = vec![
        (
            None,
            MapEvent::Failed(String::from("BufferAsyncError")),
            "map_async error: BufferAsyncError",
        ),
        (None, MapEvent::CallbackDropped, "map_async callback dropped"),
        (
            None,
            MapEvent::TimerFired,
            "readback[1] map_async timed out after 5000ms",
        ),
        (
            None,
            MapEvent::TimerDropped,
            "readback[1] map_async watchdog channel dropped before firing",
        ),
        (
            Some("too large"),
            MapEvent::Mapped,
            "validation error during readback: too large",
        ),
        (
            Some("too large"),
            MapEvent::TimerFired,
            "validation error during readback: too large",
        ),
    ];
    for (validation, event, message) in cases {
        let mut context = MerkleTreeGpuContext::new();
        let mut counters = ReadbackCounters::new();
        let mut readback = begin_readback(&mut context, &mut counters, 4).unwrap().readback;
        readback.begin_mapping(&mut counters);
        let error = readback
            .settle(&mut context, &mut counters, validation.map(String::from), event)
            .unwrap_err();
        assert_eq!(error.message(), message);
        assert!(!context.readback_busy);
        assert_eq!(counts(&counters), (0, 0, 2));
    }
}
