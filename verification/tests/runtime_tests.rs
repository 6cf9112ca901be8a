use wasmium_pdk::exports::addition_log_text;
use wasmium_pdk::memory::{read_bytes, GuestMemory};
use wasmium_pdk::msgpack::unit_payload;
use wasmium_pdk::runtime::{
    __sys_init, panic_message, sys_init_answer, InitAction, InitState, PanicLocation,
};

#[test]
fn sys_init_installs_hook_once() {
    let mut state = InitState::new();
    assert_eq!(__sys_init(&mut state), InitAction::InstallPanicHook);
    assert!(state.hook_installed);
    assert_eq!(__sys_init(&mut state), InitAction::Nothing);
    assert_eq!(__sys_init(&mut state), InitAction::Nothing);
    assert!(state.hook_installed);
}

#[test]
fn panic_message_with_text_and_location() {
    let location = PanicLocation { file: "src/lib.rs".to_string(), line: 10, column: 5 };
    assert_eq!(panic_message(Some("boom"), Some(&location)), "panic: boom at src/lib.rs:10:5");
}

#[test]
fn panic_message_without_location() {
    assert_eq!(panic_message(Some("index out of bounds"), None), "panic: index out of bounds");
}

#[test]
fn panic_message_with_other_payload() {
    let location = PanicLocation { file: "a.rs".to_string(), line: 1234, column: 0 };
    assert_eq!(
        panic_message(None, Some(&location)),
        "panic: <non-string panic payload> at a.rs:1234:0"
    );
    assert_eq!(panic_message(None, None), "panic: <non-string panic payload>");
}

#[test]
fn unit_payload_is_nil() {
    assert_eq!(unit_payload(), Some(vec![0xc0]));
}

#[test]
fn sys_init_answer_is_framed_nil() {
    let mut memory = GuestMemory::new();
    let ptr = sys_init_answer(&mut memory).unwrap();
    assert_eq!(ptr, 1);
    assert_eq!(read_bytes(&memory, ptr), Ok(vec![0xc0]));
    assert_eq!(memory.live_regions(), vec![(1, 9)]);
}

#[test]
fn addition_log_text_shows_both_arguments() {
    assert_eq!(addition_log_text(2, 3), "Example addition function called with x=2, y=3");
    assert_eq!(addition_log_text(-15, 0), "Example addition function called with x=-15, y=0");
    assert_eq!(
        addition_log_text(i64::MIN, i64::MAX),
        "Example addition function called with x=-9223372036854775808, y=9223372036854775807"
    );
}
