use native_bridge::discovery::{discover, has_extension, ProbeResult};
use native_bridge::dispatch::{prepare_call, settle_reply, BridgeError, NativeReply};
use native_bridge::registry::ModuleRegistry;
use native_bridge::stream::{start_streaming, StreamRoute, StreamStart, PROGRESS_EVENT};
use native_bridge::wire::encode_wire;

fn loaded(name: &str, handle: u32) -> ProbeResult<u32> {
    ProbeResult::Loaded { name: name.as_bytes().to_vec(), handle }
}

#[test]
fn lookup_ignores_case() {
    let mut reg: ModuleRegistry<u32> = ModuleRegistry::new();
    reg.register("Sample", 7);
    assert_eq!(reg.lookup("sample"), Some(7));
    assert_eq!(reg.lookup("SAMPLE"), Some(7));
    assert_eq!(reg.lookup("Sample"), Some(7));
    assert_eq!(reg.lookup("other"), None);
    assert_eq!(reg.len(), 1);
}

#[test]
fn register_same_name_overwrites() {
    let mut reg: ModuleRegistry<u32> = ModuleRegistry::new();
    reg.register("math", 1);
    reg.register("strings", 2);
    reg.register("MATH", 3);
    assert_eq!(reg.len(), 2);
    assert_eq!(reg.lookup("math"), Some(3));
    assert_eq!(reg.lookup("strings"), Some(2));
}

#[test]
fn empty_registry_has_no_modules() {
    let reg: ModuleRegistry<u32> = ModuleRegistry::new();
    assert_eq!(reg.len(), 0);
    assert_eq!(reg.lookup(""), None);
}

#[test]
fn wire_appends_terminator() {
    assert_eq!(encode_wire("{}"), Some(vec![b'{', b'}', 0]));
    assert_eq!(encode_wire(""), Some(vec![0]));
    assert_eq!(encode_wire("é"), Some(vec![0xc3, 0xa9, 0]));
}

#[test]
fn wire_refuses_embedded_terminator() {
    assert_eq!(encode_wire("a\0b"), None);
    assert_eq!(encode_wire("\0"), None);
}

#[test]
fn call_to_unknown_module_is_not_found() {
    let mut reg: ModuleRegistry<u32> = ModuleRegistry::new();
    reg.register("sample", 1);
    match prepare_call(&reg, "unknown", "{}") {
        Err(e) => assert_eq!(e, BridgeError::ModuleNotFound),
        Ok(_) => panic!("an unknown module must not be invoked"),
    }
    let empty: ModuleRegistry<u32> = ModuleRegistry::new();
    assert!(matches!(prepare_call(&empty, "unknown", "{}"), Err(BridgeError::ModuleNotFound)));
}

#[test]
fn call_with_terminator_in_payload_is_encoding_error() {
    let mut reg: ModuleRegistry<u32> = ModuleRegistry::new();
    reg.register("sample", 1);
    assert!(matches!(prepare_call(&reg, "sample", "{\0}"), Err(BridgeError::EncodingError)));
    // the module is looked up first
    assert!(matches!(prepare_call(&reg, "none", "{\0}"), Err(BridgeError::ModuleNotFound)));
}

#[test]
fn call_prepares_handle_and_request() {
    let mut reg: ModuleRegistry<u32> = ModuleRegistry::new();
    reg.register("Sample", 9);
    let inv = prepare_call(&reg, "SAMPLE", "{\"x\":1}").ok().unwrap();
    assert_eq!(inv.handle, 9);
    assert_eq!(inv.request, b"{\"x\":1}\0".to_vec());
}

#[test]
fn buffer_reply_is_returned_and_released_once() {
    let s = settle_reply(NativeReply::Buffer { token: 0xdead_u64, content: b"{\"ok\":true}".to_vec() });
    assert_eq!(s.result, Ok("{\"ok\":true}".to_string()));
    assert_eq!(s.release, Some(0xdead_u64));
}

#[test]
fn empty_buffer_reply_is_empty_text() {
    let s = settle_reply(NativeReply::Buffer { token: 1u8, content: Vec::new() });
    assert_eq!(s.result, Ok(String::new()));
    assert_eq!(s.release, Some(1u8));
}

#[test]
fn invalid_utf8_reply_is_decoded_lossily() {
    let s = settle_reply(NativeReply::Buffer { token: 2u8, content: vec![b'a', 0xff, b'b'] });
    assert_eq!(s.result, Ok("a\u{fffd}b".to_string()));
    assert_eq!(s.release, Some(2u8));
}

#[test]
fn null_reply_fails_and_releases_nothing() {
    let s = settle_reply(NativeReply::<u64>::Null);
    assert_eq!(s.result, Err(BridgeError::NativeExecutionFailed));
    assert_eq!(s.release, None);
}

#[test]
fn streaming_relays_messages_in_order() {
    let mut reg: ModuleRegistry<u32> = ModuleRegistry::new();
    reg.register("stream", 5);
    let mut route: StreamRoute<u32> = StreamRoute::new();
    route.attach_sink();
    match start_streaming(&mut route, &reg, "Stream", "{}") {
        StreamStart::Launch(inv) => {
            assert_eq!(inv.handle, 5);
            assert_eq!(inv.request, vec![b'{', b'}', 0]);
        }
        _ => panic!("the streaming call must start"),
    }
    let mut events: Vec<String> = Vec::new();
    let mut releases: Vec<u32> = Vec::new();
    for m in ["a", "b", "c"] {
        let action = route.on_progress(m.as_bytes());
        events.push(action.emit.unwrap());
        releases.push(action.release_with.unwrap());
    }
    assert_eq!(events, vec!["a".to_string(), "b".to_string(), "c".to_string()]);
    assert_eq!(releases, vec![5, 5, 5]);
    assert_eq!(PROGRESS_EVENT, "stream-progress");
}

#[test]
fn streaming_unknown_module_is_silent() {
    let reg: ModuleRegistry<u32> = ModuleRegistry::new();
    let mut route: StreamRoute<u32> = StreamRoute::new();
    route.attach_sink();
    assert!(matches!(start_streaming(&mut route, &reg, "missing", "{}"), StreamStart::Skipped));
    assert_eq!(route.releaser, None);
    assert!(route.sink_ready);
}

#[test]
fn streaming_bad_payload_leaves_route() {
    let mut reg: ModuleRegistry<u32> = ModuleRegistry::new();
    reg.register("a", 1);
    reg.register("b", 2);
    let mut route: StreamRoute<u32> = StreamRoute::new();
    assert!(matches!(start_streaming(&mut route, &reg, "a", "{}"), StreamStart::Launch(_)));
    assert!(matches!(start_streaming(&mut route, &reg, "b", "\0"), StreamStart::Rejected));
    assert_eq!(route.releaser, Some(1));
}

#[test]
fn later_streaming_call_takes_release_slot() {
    let mut reg: ModuleRegistry<u32> = ModuleRegistry::new();
    reg.register("a", 1);
    reg.register("b", 2);
    let mut route: StreamRoute<u32> = StreamRoute::new();
    route.attach_sink();
    assert!(matches!(start_streaming(&mut route, &reg, "a", "{}"), StreamStart::Launch(_)));
    assert!(matches!(start_streaming(&mut route, &reg, "b", "{}"), StreamStart::Launch(_)));
    assert_eq!(route.on_progress(b"x").release_with, Some(2));
}

#[test]
fn progress_without_sink_is_dropped_but_released() {
    let mut reg: ModuleRegistry<u32> = ModuleRegistry::new();
    reg.register("a", 4);
    let mut route: StreamRoute<u32> = StreamRoute::new();
    assert!(matches!(start_streaming(&mut route, &reg, "a", "{}"), StreamStart::Launch(_)));
    let action = route.on_progress(b"hello");
    assert_eq!(action.emit, None);
    assert_eq!(action.release_with, Some(4));
}

#[test]
fn progress_before_any_stream_leaks() {
    let mut route: StreamRoute<u32> = StreamRoute::new();
    route.attach_sink();
    let action = route.on_progress(b"hi");
    assert_eq!(action.emit, Some("hi".to_string()));
    assert_eq!(action.release_with, None);
}

#[test]
fn library_extension_is_recognised() {
    assert!(has_extension("sample.dll", "dll"));
    assert!(has_extension("a.b.dll", "dll"));
    assert!(has_extension("a..dll", "dll"));
    assert!(has_extension("libm.so", "so"));
    assert!(!has_extension(".dll", "dll"));
    assert!(!has_extension("dll", "dll"));
    assert!(!has_extension("sample.DLL", "dll"));
    assert!(!has_extension("sample.dll.bak", "dll"));
    assert!(!has_extension("sample.dl", "dll"));
    assert!(!has_extension("..", ""));
    assert!(has_extension("a.", ""));
    assert!(!has_extension("", "dll"));
}

#[test]
fn discovery_counts_valid_and_skipped() {
    let mut reg: ModuleRegistry<u32> = ModuleRegistry::new();
    let probes = vec![
        ProbeResult::Rejected,
        loaded("Sample", 1),
        ProbeResult::Rejected,
        loaded("math", 2),
        loaded("io", 3),
        ProbeResult::Rejected,
    ];
    let report = discover(&mut reg, probes);
    assert_eq!(report.loaded, 3);
    assert_eq!(report.skipped, 3);
    assert_eq!(reg.len(), 3);
    assert_eq!(reg.lookup("sample"), Some(1));
    assert_eq!(reg.lookup("MATH"), Some(2));
    assert_eq!(reg.lookup("io"), Some(3));
}

#[test]
fn discovery_of_nothing_registers_nothing() {
    let mut reg: ModuleRegistry<u32> = ModuleRegistry::new();
    let report = discover(&mut reg, Vec::new());
    assert_eq!(report.loaded, 0);
    assert_eq!(report.skipped, 0);
    assert_eq!(reg.len(), 0);
}

#[test]
fn discovery_duplicate_name_last_wins() {
    let mut reg: ModuleRegistry<u32> = ModuleRegistry::new();
    let report = discover(&mut reg, vec![loaded("Sample", 1), loaded("SAMPLE", 2)]);
    assert_eq!(report.loaded, 2);
    assert_eq!(report.skipped, 0);
    assert_eq!(reg.len(), 1);
    assert_eq!(reg.lookup("sample"), Some(2));
}
