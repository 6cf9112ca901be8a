use wasmium_pdk::exports::{addition, example_function};
use wasmium_pdk::frame::FrameError;
use wasmium_pdk::memory::{alloc_frame, read_bytes, wasmium_alloc, wasmium_free, write_bytes, GuestMemory};

#[test]
fn alloc_returns_end_of_memory_and_zero_fills() {
    let mut memory = GuestMemory::from_bytes(vec![5, 5, 5]);
    let ptr = wasmium_alloc(&mut memory, 4);
    assert_eq!(ptr, 3);
    assert_eq!(memory.bytes(), &[5, 5, 5, 0, 0, 0, 0]);
    assert_eq!(memory.live_regions(), vec![(3, 4)]);
    let second = wasmium_alloc(&mut memory, 2);
    assert_eq!(second, 7);
    assert_eq!(memory.live_regions(), vec![(3, 4), (7, 2)]);
}

#[test]
fn free_removes_the_region_and_keeps_bytes() {
    let mut memory = GuestMemory::new();
    let a = wasmium_alloc(&mut memory, 4);
    let b = wasmium_alloc(&mut memory, 8);
    wasmium_free(&mut memory, a, 4);
    assert_eq!(memory.live_regions(), vec![(b, 8)]);
    assert_eq!((a, b), (1, 5));
    assert_eq!(memory.bytes().len(), 13);
    assert!(!memory.is_live(a, 4));
    assert!(memory.is_live(b, 8));
}

#[test]
fn alloc_then_free_restores_live_regions() {
    let mut memory = GuestMemory::new();
    let a = wasmium_alloc(&mut memory, 3);
    let before = memory.live_regions();
    let b = wasmium_alloc(&mut memory, 5);
    wasmium_free(&mut memory, b, 5);
    assert_eq!(memory.live_regions(), before);
    assert!(memory.is_live(a, 3));
}

#[test]
fn zero_size_requests_reserve_nothing() {
    let mut memory = GuestMemory::from_bytes(vec![7, 7]);
    let a = wasmium_alloc(&mut memory, 3);
    let z = wasmium_alloc(&mut memory, 0);
    assert_eq!(z, 1);
    assert_eq!(memory.bytes(), &[7, 7, 0, 0, 0]);
    assert_eq!(memory.live_regions(), vec![(a, 3)]);
    wasmium_free(&mut memory, z, 0);
    wasmium_free(&mut memory, 12345, 0);
    assert_eq!(memory.bytes(), &[7, 7, 0, 0, 0]);
    assert_eq!(memory.live_regions(), vec![(a, 3)]);
}

#[test]
fn write_then_read_gives_back_data() {
    let mut memory = GuestMemory::new();
    let ptr = wasmium_alloc(&mut memory, 8 + 3);
    write_bytes(&mut memory, ptr, &[10, 20, 30]);
    assert_eq!(read_bytes(&memory, ptr), Ok(vec![10, 20, 30]));
    assert_eq!(ptr, 1);
    assert_eq!(memory.bytes(), &[0, 3, 0, 0, 0, 0, 0, 0, 0, 10, 20, 30]);
}

#[test]
fn write_leaves_other_bytes_alone() {
    let mut memory = GuestMemory::from_bytes(vec![1; 14]);
    write_bytes(&mut memory, 2, &[7, 8]);
    assert_eq!(memory.bytes(), &[1, 1, 2, 0, 0, 0, 0, 0, 0, 0, 7, 8, 1, 1]);
}

#[test]
fn read_bytes_reports_frames_outside_memory() {
    let memory = GuestMemory::from_bytes(vec![200, 0, 0, 0, 0, 0, 0, 0, 1]);
    assert_eq!(read_bytes(&memory, 0), Err(FrameError::PayloadOutOfBounds));
    assert_eq!(read_bytes(&memory, 2), Err(FrameError::HeaderOutOfBounds));
}

#[test]
fn alloc_frame_appends_frame() {
    let mut memory = GuestMemory::from_bytes(vec![42]);
    let ptr = alloc_frame(&mut memory, &[9]);
    assert_eq!(ptr, 1);
    assert_eq!(memory.bytes(), &[42, 1, 0, 0, 0, 0, 0, 0, 0, 9]);
    assert_eq!(memory.live_regions(), vec![(1, 9)]);
}

#[test]
fn example_function_echoes_its_input() {
    let mut memory = GuestMemory::new();
    let input = alloc_frame(&mut memory, b"ping");
    let output = example_function(&mut memory, input).unwrap();
    assert_ne!(output, input);
    assert_eq!(read_bytes(&memory, output), Ok(b"ping".to_vec()));
    assert_eq!(read_bytes(&memory, input), Ok(b"ping".to_vec()));
    assert_eq!(memory.live_regions(), vec![(input, 12), (output, 12)]);
}

#[test]
fn example_function_rejects_bad_input_and_changes_nothing() {
    let mut memory = GuestMemory::from_bytes(vec![9, 0, 0, 0, 0, 0, 0, 0, 1]);
    assert_eq!(example_function(&mut memory, 0), Err(FrameError::PayloadOutOfBounds));
    assert_eq!(example_function(&mut memory, 5), Err(FrameError::HeaderOutOfBounds));
    assert_eq!(memory.bytes().len(), 9);
    assert!(memory.live_regions().is_empty());
}

#[test]
fn addition_adds() {
    assert_eq!(addition(2, 3), 5);
    assert_eq!(addition(-7, 4), -3);
    assert_eq!(addition(i64::MAX - 1, 1), i64::MAX);
}

#[test]
fn alloc_keeps_existing_frames_readable() {
    let mut memory = GuestMemory::new();
    let ptr = alloc_frame(&mut memory, &[1, 2, 3, 4]);
    let _ = wasmium_alloc(&mut memory, 100);
    assert_eq!(read_bytes(&memory, ptr), Ok(vec![1, 2, 3, 4]));
}

#[test]
fn no_allocation_starts_at_address_zero() {
    let mut memory = GuestMemory::new();
    assert_eq!(wasmium_alloc(&mut memory, 1), 1);
    assert_eq!(memory.bytes(), &[0, 0]);
    let mut empty = GuestMemory::from_bytes(Vec::new());
    assert_eq!(alloc_frame(&mut empty, &[]), 1);
    let mut zero_sized = GuestMemory::new();
    assert_eq!(wasmium_alloc(&mut zero_sized, 0), 1);
    assert!(zero_sized.bytes().is_empty());
    assert!(zero_sized.live_regions().is_empty());
}

#[test]
fn example_function_answers_after_end_of_memory() {
    let mut memory = GuestMemory::from_bytes(vec![0, 0, 0, 0, 0, 0, 0, 0]);
    let output = example_function(&mut memory, 0).unwrap();
    assert_eq!(output, 8);
    assert_eq!(read_bytes(&memory, output), Ok(vec![]));
}
