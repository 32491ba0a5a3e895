use wheel_metadata::encoder::{encode_results, frame_member, ObjectEncoder};
use wheel_metadata::fetch::{FetchAction, FetchError, FetchEvent, FetchFailure, FetchState, FetchStep, MetadataResult};
use wheel_metadata::reader::{Services, WheelUrl};

fn done(locator: &str, text: &str) -> MetadataResult {
    MetadataResult { url: WheelUrl::from_str(locator).unwrap(), outcome: Ok(text.to_string()) }
}

fn failed(locator: &str, step: FetchStep, cause: FetchError) -> MetadataResult {
    MetadataResult { url: WheelUrl::from_str(locator).unwrap(), outcome: Err(FetchFailure { step, cause }) }
}

fn text(bytes: Vec<u8>) -> String {
    String::from_utf8(bytes).unwrap()
}

#[test]
fn frames_a_member() {
    assert_eq!(frame_member(true, b"\"k\"".to_vec(), b"\"v\"".to_vec()), b"\"k\":\"v\"".to_vec());
    assert_eq!(frame_member(false, b"\"k\"".to_vec(), b"\"v\"".to_vec()), b",\"k\":\"v\"".to_vec());
    assert_eq!(frame_member(true, Vec::new(), Vec::new()), b":".to_vec());
    assert_eq!(frame_member(false, vec![1, 2], vec![3]), vec![0x2c, 1, 2, 0x3a, 3]);
}

#[test]
fn writes_an_object_chunk_by_chunk() {
    let (mut encoder, opening) = ObjectEncoder::begin();
    assert_eq!(opening, b"{".to_vec());
    let first = encoder.member("a.whl", "Name: A");
    assert_eq!(text(first), "\"a.whl\":\"Name: A\"");
    let second = encoder.member("b.whl", "Name: B");
    assert_eq!(text(second), ",\"b.whl\":\"Name: B\"");
    let third = encoder.member("c.whl", "");
    assert_eq!(text(third), ",\"c.whl\":\"\"");
    assert_eq!(encoder.end(), b"}".to_vec());
}

#[test]
fn empty_object() {
    let (encoder, opening) = ObjectEncoder::begin();
    let closing = encoder.end();
    assert_eq!([opening, closing].concat(), b"{}".to_vec());
    assert_eq!(encode_results(&Vec::new()), b"{}".to_vec());
}

#[test]
fn strings_are_quoted_and_escaped() {
    let (mut encoder, _) = ObjectEncoder::begin();
    let chunk = encoder.member("say \"hi\"", "back\\slash");
    assert_eq!(text(chunk), "\"say \\\"hi\\\"\":\"back\\\\slash\"");
}

#[test]
fn text_beyond_ascii_is_written_as_utf8() {
    let (mut encoder, _) = ObjectEncoder::begin();
    let chunk = encoder.member("naïve.whl", "Größe ✓");
    assert_eq!(text(chunk), "\"naïve.whl\":\"Größe ✓\"");
}

#[test]
fn failed_result_writes_nothing() {
    let (mut encoder, _) = ObjectEncoder::begin();
    let chunk = encoder.result(&failed("/tmp/a.whl", FetchStep::LocateEntry, FetchError::NotFound));
    assert_eq!(chunk, Vec::<u8>::new());
    let chunk = encoder.result(&done("/tmp/b.whl", "Name: B"));
    assert_eq!(text(chunk), "\"b.whl\":\"Name: B\"");
    let chunk = encoder.result(&failed("/tmp/c.whl", FetchStep::OpenArchive, FetchError::Io));
    assert_eq!(chunk, Vec::<u8>::new());
    let chunk = encoder.result(&done("/tmp/d.whl", "Name: D"));
    assert_eq!(text(chunk), ",\"d.whl\":\"Name: D\"");
}

#[test]
fn archive_without_metadata_is_no_member() {
    let url = WheelUrl::from_str("/tmp/empty.whl").unwrap();
    let (state, action) = Services::<()>::run(
        FetchState::BackendResolved,
        FetchEvent::ArchiveOpened { names: vec![Some("pkg/__init__.py".to_string())] },
    );
    assert_eq!(action, FetchAction::Finish);
    let result = MetadataResult::of(url, state).unwrap();
    assert_eq!(result.outcome, Err(FetchFailure { step: FetchStep::LocateEntry, cause: FetchError::NotFound }));
    assert_eq!(encode_results(&vec![result]), b"{}".to_vec());
}

#[test]
fn every_kind_of_failure_is_left_out() {
    let results = vec![
        failed("/a.whl", FetchStep::ResolveBackend, FetchError::Io),
        failed("/b.whl", FetchStep::OpenArchive, FetchError::InvalidFormat),
        done("/c.whl", "C"),
        failed("/d.whl", FetchStep::LocateEntry, FetchError::NotFound),
        failed("/e.whl", FetchStep::DecodeText, FetchError::Encoding),
    ];
    assert_eq!(text(encode_results(&results)), "{\"c.whl\":\"C\"}");
}

#[test]
fn members_stand_in_the_order_of_arrival() {
    let fast = done("https://example.com/fast.whl", "F");
    let slow = done("https://example.com/slow.whl", "S");
    let out = text(encode_results(&vec![fast, slow]));
    assert_eq!(out, "{\"fast.whl\":\"F\",\"slow.whl\":\"S\"}");
    assert!(out.find("fast.whl").unwrap() < out.find("slow.whl").unwrap());
    let fast = done("https://example.com/fast.whl", "F");
    let slow = done("https://example.com/slow.whl", "S");
    let out = text(encode_results(&vec![slow, fast]));
    assert_eq!(out, "{\"slow.whl\":\"S\",\"fast.whl\":\"F\"}");
}

#[test]
fn chunks_add_up_to_the_whole_output() {
    let results = vec![done("/a.whl", "A"), failed("/x.whl", FetchStep::ReadEntry, FetchError::Io), done("/b.whl", "B")];
    let (mut encoder, mut written) = ObjectEncoder::begin();
    for result in &results {
        written.extend(encoder.result(result));
    }
    written.extend(encoder.end());
    assert_eq!(written, encode_results(&results));
}

#[test]
fn key_falls_back_to_the_whole_locator() {
    let out = text(encode_results(&vec![done("https://example.com/", "root")]));
    assert_eq!(out, "{\"https://example.com/\":\"root\"}");
}

fn fetch(locator: &str, directory: &[&str], payload: &[u8]) -> MetadataResult {
    let url = WheelUrl::from_str(locator).unwrap();
    let names = directory.iter().map(|name| Some(name.to_string())).collect();
    let (state, action) = Services::<()>::run(FetchState::Pending, FetchEvent::BackendReady);
    assert_eq!(action, FetchAction::OpenArchive);
    let (state, action) = Services::<()>::run(state, FetchEvent::ArchiveOpened { names });
    let state = match action {
        FetchAction::ReadEntry { .. } => Services::<()>::run(state, FetchEvent::EntryRead { bytes: payload.to_vec() }).0,
        _ => state,
    };
    MetadataResult::of(url, state).unwrap()
}

#[test]
fn two_local_archives_end_to_end() {
    let a = || fetch("file:///tmp/a.whl", &["pkgA/__init__.py", "pkgA-1.0.dist-info/METADATA"], b"Name: A");
    let b = || fetch("file:///tmp/b.whl", &["pkgB-2.0.dist-info/METADATA", "pkgB-2.0.dist-info/RECORD"], b"Name: B");
    let a_first = text(encode_results(&vec![a(), b()]));
    assert_eq!(a_first, "{\"a.whl\":\"Name: A\",\"b.whl\":\"Name: B\"}");
    let b_first = text(encode_results(&vec![b(), a()]));
    assert_eq!(b_first, "{\"b.whl\":\"Name: B\",\"a.whl\":\"Name: A\"}");
}

#[test]
fn remote_archive_end_to_end() {
    let result = fetch("https://example.com/pkg.whl", &["pkg-1.0.dist-info/METADATA"], b"Name: pkg");
    assert_eq!(text(encode_results(&vec![result])), "{\"pkg.whl\":\"Name: pkg\"}");
}

#[test]
fn failed_task_is_left_out_and_the_other_is_written() {
    let a = || fetch("/tmp/a.whl", &["pkg/__init__.py"], b"");
    let b = || fetch("/tmp/b.whl", &["pkg-1.0.dist-info/METADATA"], b"Name: B");
    assert!(a().outcome.is_err());
    assert_eq!(text(encode_results(&vec![a(), b()])), "{\"b.whl\":\"Name: B\"}");
    assert_eq!(text(encode_results(&vec![b(), a()])), "{\"b.whl\":\"Name: B\"}");
}

#[test]
fn control_characters_stay_as_they_are() {
    let (mut encoder, _) = ObjectEncoder::begin();
    let chunk = encoder.member("k", "Name: A\nVersion: 1\t\u{1}");
    assert_eq!(text(chunk), "\"k\":\"Name: A\nVersion: 1\t\u{1}\"");
}

#[test]
fn key_of_a_bare_path_is_its_name_as_written() {
    let out = text(encode_results(&vec![done("/tmp/my pkg.whl", "x")]));
    assert_eq!(out, "{\"my pkg.whl\":\"x\"}");
}

fn quoted(text: &str) -> Vec<u8> {
    let mut bytes = vec![b'"'];
    for byte in text.bytes() {
        if byte == b'"' || byte == b'\\' {
            bytes.push(b'\\');
        }
        bytes.push(byte);
    }
    bytes.push(b'"');
    bytes
}

#[test]
fn strings_are_encoded_by_the_stated_rule() {
    let samples = [
        "",
        "plain",
        "\"",
        "\\",
        "\\\"",
        "a\"b\\c\"\"",
        "tab\tline\nreturn\rnull\0",
        "ünïcödé ✓ 日本語 🦀",
        "{}[],:",
        "\u{7f}\u{80}\u{7ff}\u{800}\u{ffff}\u{10000}\u{10ffff}",
    ];
    for key in samples {
        for value in samples {
            let (mut encoder, _) = ObjectEncoder::begin();
            let expected = [quoted(key), b":".to_vec(), quoted(value)].concat();
            assert_eq!(encoder.member(key, value), expected, "key {key:?} value {value:?}");
        }
    }
}
