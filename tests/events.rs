use term_gfx::event::{Event, EventHandler};

#[test]
fn decode_events_skips_end_of_burst() {
    let evs = EventHandler::decode_events(&b"ab\x01c".to_vec()).unwrap();
    assert_eq!(evs, vec![Event::CharEvent('a'), Event::CharEvent('b'), Event::CharEvent('c')]);
}

#[test]
fn decode_events_multibyte() {
    let evs = EventHandler::decode_events(&"é€".as_bytes().to_vec()).unwrap();
    assert_eq!(evs, vec![Event::CharEvent('é'), Event::CharEvent('€')]);
}

#[test]
fn decode_events_rejects_invalid_utf8() {
    assert!(EventHandler::decode_events(&vec![0xff, 0x61]).is_none());
}

#[test]
fn decode_events_empty() {
    assert_eq!(EventHandler::decode_events(&Vec::new()).unwrap(), Vec::new());
}

#[test]
fn char_events_filters_marker() {
    assert_eq!(EventHandler::char_events(&vec!['\u{1}', 'z', '\u{1}']), vec![Event::CharEvent('z')]);
}

#[test]
fn resize_event_only_on_change() {
    let mut h = EventHandler::with_dimensions(Some((80, 24)));
    assert_eq!(h.resize_event(Some((80, 24))), None);
    assert_eq!(h.resize_event(None), None);
    assert_eq!(h.resize_event(Some((100, 30))), Some(Event::Resize(100, 30)));
    assert_eq!(h.resize_event(Some((100, 30))), None);
}

#[test]
fn events_with_appends_resize_last() {
    let mut h = EventHandler::with_dimensions(Some((80, 24)));
    let evs = h.events_with(&b"k".to_vec(), Some((81, 24))).unwrap();
    assert_eq!(evs, vec![Event::CharEvent('k'), Event::Resize(81, 24)]);
    let evs = h.events_with(&Vec::new(), Some((81, 24))).unwrap();
    assert!(evs.is_empty());
    assert!(h.events_with(&vec![0xc3], Some((1, 1))).is_none());
    assert_eq!(h.resize_event(Some((1, 1))), Some(Event::Resize(1, 1)));
}

#[test]
fn handler_without_terminal_starts_at_zero() {
    let mut h = EventHandler::with_dimensions(None);
    assert_eq!(h.resize_event(Some((0, 0))), None);
}
