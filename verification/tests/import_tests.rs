use wasmium_pdk::frame::FrameError;
use wasmium_pdk::import::{
    begin_import_call, finish_import_call, finish_log, log, log_payload, log_reply, release_answer,
    ImportError,
};
use wasmium_pdk::memory::{alloc_frame, read_bytes, GuestMemory};

#[test]
fn import_call_roundtrip_frees_both_regions() {
    let mut memory = GuestMemory::new();
    let keep = alloc_frame(&mut memory, &[1]);
    let call = begin_import_call(&mut memory, &[0xc0]);
    assert_ne!(call.input_ptr, 0);
    assert_eq!(read_bytes(&memory, call.input_ptr), Ok(vec![0xc0]));
    assert_eq!(call.input_size, 9);
    // The host answers through the plugin's allocator.
    let answer = alloc_frame(&mut memory, &[0xa1, b'x']);
    let reply = finish_import_call(&mut memory, call, answer).unwrap();
    assert_eq!(reply, vec![0xa1, b'x']);
    // The answer stays reserved until it has been decoded and released.
    assert_eq!(memory.live_regions(), vec![(keep, 9), (answer, 10)]);
    release_answer(&mut memory, answer, &reply);
    assert_eq!(memory.live_regions(), vec![(keep, 9)]);
}

#[test]
fn import_answer_outside_memory_is_an_error() {
    let mut memory = GuestMemory::new();
    let call = begin_import_call(&mut memory, &[1, 2]);
    let reply = finish_import_call(&mut memory, call, 1000);
    assert_eq!(reply, Err(ImportError::Output(FrameError::HeaderOutOfBounds)));
    assert!(memory.live_regions().is_empty());
}

#[test]
fn import_answer_not_allocated_is_an_error() {
    let mut memory = GuestMemory::new();
    let call = begin_import_call(&mut memory, &[1, 2]);
    // The argument frame itself is a frame, but no longer live once freed.
    let reply = finish_import_call(&mut memory, call, call.input_ptr);
    assert_eq!(reply, Err(ImportError::OutputNotLive));
    assert!(memory.live_regions().is_empty());
}

#[test]
fn log_sends_message_as_fixstr() {
    let mut memory = GuestMemory::new();
    let call = log(&mut memory, "hi").unwrap();
    assert_eq!(read_bytes(&memory, call.input_ptr), Ok(vec![0xa2, b'h', b'i']));
    assert_eq!(call.input_size, 11);
}

#[test]
fn log_sends_longer_message_as_str8() {
    let mut memory = GuestMemory::new();
    let message = "a".repeat(40);
    let call = log(&mut memory, &message).unwrap();
    let mut expected = vec![0xd9, 40];
    expected.extend(message.as_bytes());
    assert_eq!(read_bytes(&memory, call.input_ptr), Ok(expected));
}

#[test]
fn log_sends_utf8_bytes_and_str16_length() {
    let mut memory = GuestMemory::new();
    let message = "é".repeat(150);
    let call = log(&mut memory, &message).unwrap();
    let mut expected = vec![0xda, 0x01, 0x2c];
    expected.extend(message.as_bytes());
    assert_eq!(read_bytes(&memory, call.input_ptr), Ok(expected));
}

#[test]
fn log_reply_accepts_nil() {
    assert_eq!(log_reply(&[0xc0]), Ok(()));
}

#[test]
fn log_reply_ignores_bytes_after_nil() {
    assert_eq!(log_reply(&[0xc0, 0x05, 0x06]), Ok(()));
}

#[test]
fn log_reply_rejects_other_values() {
    assert_eq!(log_reply(&[0x90]), Err(ImportError::Decode));
    assert_eq!(log_reply(&[0xc1]), Err(ImportError::Decode));
    assert_eq!(log_reply(&[0x01]), Err(ImportError::Decode));
    assert_eq!(log_reply(&[]), Err(ImportError::Decode));
}

#[test]
fn log_sends_very_long_message_as_str32() {
    let mut memory = GuestMemory::new();
    let message = "z".repeat(70000);
    let call = log(&mut memory, &message).unwrap();
    let mut expected = vec![0xdb, 0x00, 0x01, 0x11, 0x70];
    expected.extend(message.as_bytes());
    assert_eq!(read_bytes(&memory, call.input_ptr), Ok(expected));
}

#[test]
fn log_payload_is_msgpack_str() {
    assert_eq!(log_payload("hi"), Some(vec![0xa2, b'h', b'i']));
    assert_eq!(log_payload(""), Some(vec![0xa0]));
}

#[test]
fn finish_log_accepts_nil_and_frees_both_regions() {
    let mut memory = GuestMemory::new();
    let call = log(&mut memory, "hello").unwrap();
    let answer = alloc_frame(&mut memory, &[0xc0]);
    assert_eq!(finish_log(&mut memory, call, answer), Ok(()));
    assert!(memory.live_regions().is_empty());
}

#[test]
fn finish_log_rejects_other_answer_and_keeps_its_region() {
    let mut memory = GuestMemory::new();
    let call = log(&mut memory, "hello").unwrap();
    let answer = alloc_frame(&mut memory, &[0x01]);
    assert_eq!(finish_log(&mut memory, call, answer), Err(ImportError::Decode));
    // The argument region is given back; the answer's region stays reserved.
    assert_eq!(memory.live_regions(), vec![(answer, 9)]);
}

#[test]
fn finish_log_answer_outside_memory_is_an_error() {
    let mut memory = GuestMemory::new();
    let call = log(&mut memory, "x").unwrap();
    assert_eq!(
        finish_log(&mut memory, call, 5000),
        Err(ImportError::Output(FrameError::HeaderOutOfBounds))
    );
    assert!(memory.live_regions().is_empty());
}

#[test]
fn finish_log_answer_not_live_is_an_error() {
    let mut memory = GuestMemory::new();
    let call = log(&mut memory, "x").unwrap();
    assert_eq!(finish_log(&mut memory, call, call.input_ptr), Err(ImportError::OutputNotLive));
    assert!(memory.live_regions().is_empty());
}
