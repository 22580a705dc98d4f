use platform_api::clipboard::{
    get_selected_text, ClipboardError, ClipboardRead, ClipboardReply, ClipboardRequest, ClipboardSnapshot,
    MAX_TEXT_UNITS,
};
use platform_api::platform::Platform;
use platform_api::utf16::{decode_terminated, decode_units, find_text_length, REPLACEMENT_CHARACTER};

fn units(s: &str) -> Vec<u16> {
    s.encode_utf16().collect()
}

fn terminated(s: &str) -> Vec<u16> {
    let mut u = units(s);
    u.push(0);
    u
}

fn snapshot(text_available: bool, can_open: bool, text: Option<Vec<u16>>) -> ClipboardSnapshot {
    ClipboardSnapshot { text_available, can_open, text }
}

#[test]
fn text_ends_at_the_first_zero() {
    assert_eq!(find_text_length(&[104, 105, 0, 120, 0], 100), 2);
    assert_eq!(find_text_length(&[0, 104], 100), 0);
    assert_eq!(find_text_length(&[], 100), 0);
}

#[test]
fn text_without_a_zero_ends_with_the_buffer() {
    assert_eq!(find_text_length(&[104, 105, 33], 100), 3);
}

#[test]
fn text_never_passes_the_limit() {
    assert_eq!(find_text_length(&[104, 105, 33, 0], 2), 2);
    assert_eq!(find_text_length(&[104, 105, 33, 0], 0), 0);
    assert_eq!(find_text_length(&[104, 105, 33, 0], 3), 3);
    assert_eq!(find_text_length(&[104, 105, 33, 0], 4), 3);
}

#[test]
fn decode_plain_text() {
    let u = units("Hello, мир");
    let chars = decode_units(&u, u.len());
    assert_eq!(chars.iter().collect::<String>(), "Hello, мир");
    assert_eq!(decode_units(&u, 5).iter().collect::<String>(), "Hello");
    assert_eq!(decode_units(&u, 0), Vec::<char>::new());
}

#[test]
fn decode_surrogate_pairs() {
    let u = units("a😀b𝄞");
    assert_eq!(u.len(), 6);
    assert_eq!(decode_units(&u, u.len()), vec!['a', '😀', 'b', '𝄞']);
    assert_eq!(decode_units(&[0xD800, 0xDC00], 2), vec!['\u{10000}']);
    assert_eq!(decode_units(&[0xDBFF, 0xDFFF], 2), vec!['\u{10FFFF}']);
}

#[test]
fn decode_replaces_lone_surrogates() {
    assert_eq!(REPLACEMENT_CHARACTER, '\u{FFFD}');
    assert_eq!(decode_units(&[0xD800], 1), vec!['\u{FFFD}']);
    assert_eq!(decode_units(&[0xDC00], 1), vec!['\u{FFFD}']);
    assert_eq!(decode_units(&[0xD800, 0x41], 2), vec!['\u{FFFD}', 'A']);
    assert_eq!(decode_units(&[0xDC00, 0xD800], 2), vec!['\u{FFFD}', '\u{FFFD}']);
    assert_eq!(decode_units(&[0xD800, 0xD800, 0xDC00], 3), vec!['\u{FFFD}', '\u{10000}']);
    // A pair cut by the length is a lone high surrogate.
    assert_eq!(decode_units(&[0xD83D, 0xDE00], 1), vec!['\u{FFFD}']);
}

#[test]
fn decode_agrees_with_std() {
    let interesting: [u16; 12] = [0x41, 0x20, 0xE9, 0x7FF, 0x800, 0xD7FF, 0xD800, 0xDBFF, 0xDC00, 0xDFFF, 0xE000, 0xFFFF];
    for a in interesting {
        for b in interesting {
            for c in interesting {
                let u = [a, b, c];
                let got: String = decode_units(&u, 3).iter().collect();
                assert_eq!(got, String::from_utf16_lossy(&u), "{:x?}", u);
            }
        }
    }
}

#[test]
fn decode_terminated_stops_at_the_zero() {
    let mut u = terminated("copy me");
    u.extend(units("garbage"));
    assert_eq!(decode_terminated(&u, MAX_TEXT_UNITS), "copy me");
    assert_eq!(decode_terminated(&u, 4), "copy");
    assert_eq!(decode_terminated(&[0], MAX_TEXT_UNITS), "");
    assert_eq!(decode_terminated(&[], MAX_TEXT_UNITS), "");
    assert_eq!(decode_terminated(&units("no zero"), MAX_TEXT_UNITS), "no zero");
}

#[test]
fn read_without_text_is_empty() {
    let read = ClipboardRead::start(Platform::Windows);
    assert_eq!(read.request(), Some(ClipboardRequest::QueryTextFormat));
    let read = read.advance(ClipboardReply::TextFormat { available: false });
    assert_eq!(read.request(), None);
    assert!(!read.holds_clipboard());
    assert_eq!(read.outcome(), Some(Ok(String::new())));
}

#[test]
fn read_that_cannot_open_is_an_error() {
    let read = ClipboardRead::start(Platform::Windows);
    let read = read.advance(ClipboardReply::TextFormat { available: true });
    assert_eq!(read.request(), Some(ClipboardRequest::Open));
    assert!(!read.holds_clipboard());
    let read = read.advance(ClipboardReply::Opened { granted: false });
    assert_eq!(read.request(), None);
    assert!(!read.holds_clipboard());
    assert_eq!(read.outcome(), Some(Err(ClipboardError::AccessDenied)));
}

#[test]
fn read_of_text_closes_before_it_ends() {
    let read = ClipboardRead::start(Platform::Windows);
    let read = read.advance(ClipboardReply::TextFormat { available: true });
    let read = read.advance(ClipboardReply::Opened { granted: true });
    assert!(read.holds_clipboard());
    assert_eq!(read.request(), Some(ClipboardRequest::ReadText));
    let read = read.advance(ClipboardReply::Text { units: Some(terminated("selected")) });
    assert!(read.holds_clipboard());
    assert_eq!(read.request(), Some(ClipboardRequest::Close));
    let read = read.advance(ClipboardReply::Closed);
    assert!(!read.holds_clipboard());
    assert_eq!(read.request(), None);
    assert_eq!(read.outcome(), Some(Ok("selected".to_string())));
}

#[test]
fn read_whose_fetch_fails_closes_and_is_empty() {
    let read = ClipboardRead::start(Platform::Windows);
    let read = read.advance(ClipboardReply::TextFormat { available: true });
    let read = read.advance(ClipboardReply::Opened { granted: true });
    let read = read.advance(ClipboardReply::Text { units: None });
    assert!(read.holds_clipboard());
    assert_eq!(read.request(), Some(ClipboardRequest::Close));
    let read = read.advance(ClipboardReply::Closed);
    assert_eq!(read.outcome(), Some(Ok(String::new())));
}

#[test]
fn read_is_not_finished_while_it_runs() {
    let read = ClipboardRead::start(Platform::Windows);
    assert_eq!(read.outcome(), None);
    let read = ClipboardRead::start(Platform::Windows).advance(ClipboardReply::TextFormat { available: true });
    assert_eq!(read.outcome(), None);
}

#[test]
fn replies_that_were_not_asked_for_change_nothing() {
    let read = ClipboardRead::start(Platform::Windows);
    let read = read.advance(ClipboardReply::Closed);
    assert_eq!(read, ClipboardRead::AwaitingFormat);
    let read = read.advance(ClipboardReply::Opened { granted: true });
    assert_eq!(read, ClipboardRead::AwaitingFormat);
    let read = read.advance(ClipboardReply::Text { units: Some(vec![65]) });
    assert_eq!(read, ClipboardRead::AwaitingFormat);
    let open = ClipboardRead::AwaitingText.advance(ClipboardReply::Closed);
    assert_eq!(open, ClipboardRead::AwaitingText);
    let done = ClipboardRead::Done { outcome: Ok("x".to_string()) }.advance(ClipboardReply::TextFormat { available: true });
    assert_eq!(done, ClipboardRead::Done { outcome: Ok("x".to_string()) });
}

#[test]
fn platforms_without_a_reader_are_finished_at_once() {
    for platform in [Platform::MacOs, Platform::Linux] {
        let read = ClipboardRead::start(platform);
        assert_eq!(read.request(), None);
        assert_eq!(read.outcome(), Some(Ok(String::new())));
    }
}

#[test]
fn selected_text_of_each_condition() {
    let w = Platform::Windows;
    assert_eq!(get_selected_text(w, snapshot(false, true, Some(terminated("x")))), Ok(String::new()));
    assert_eq!(get_selected_text(w, snapshot(false, false, None)), Ok(String::new()));
    assert_eq!(get_selected_text(w, snapshot(true, false, Some(terminated("x")))), Err(ClipboardError::AccessDenied));
    assert_eq!(get_selected_text(w, snapshot(true, true, None)), Ok(String::new()));
    assert_eq!(get_selected_text(w, snapshot(true, true, Some(terminated("héllo 😀")))), Ok("héllo 😀".to_string()));
    assert_eq!(get_selected_text(w, snapshot(true, true, Some(vec![0xD800, 0x41, 0, 0x42]))), Ok("\u{FFFD}A".to_string()));
}

#[test]
fn selected_text_elsewhere_is_empty() {
    for platform in [Platform::MacOs, Platform::Linux] {
        assert_eq!(get_selected_text(platform, snapshot(true, true, Some(terminated("x")))), Ok(String::new()));
        assert_eq!(get_selected_text(platform, snapshot(true, false, None)), Ok(String::new()));
    }
}

#[test]
fn selected_text_is_the_same_on_every_call() {
    let first = get_selected_text(Platform::Windows, snapshot(true, true, Some(terminated("one"))));
    let second = get_selected_text(Platform::Windows, snapshot(true, true, Some(terminated("two"))));
    let third = get_selected_text(Platform::Windows, snapshot(true, true, Some(terminated("one"))));
    assert_eq!(first, Ok("one".to_string()));
    assert_eq!(second, Ok("two".to_string()));
    assert_eq!(first, third);
}

#[test]
fn error_message() {
    assert_eq!(ClipboardError::AccessDenied.message(), "Failed to open clipboard");
}
