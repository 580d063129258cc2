use robin_lib::history::{History, HistoryEntry, MAX_ENTRIES};

fn make_entry(text: &str) -> HistoryEntry {
    HistoryEntry {
        text: text.to_string(),
        timestamp: 0,
        engine: "local".to_string(),
    }
}

#[test]
fn push_prepends_newest_first() {
    let mut h = History::default();
    h.push(make_entry("first"));
    h.push(make_entry("second"));

    assert_eq!(h.list()[0].text, "second");
    assert_eq!(h.list()[1].text, "first");
}

#[test]
fn caps_at_max_entries() {
    let mut h = History::default();
    for i in 0..=MAX_ENTRIES + 5 {
        h.push(make_entry(&format!("entry {i}")));
    }
    assert_eq!(h.list().len(), MAX_ENTRIES);
    assert_eq!(h.list()[0].text, format!("entry {}", MAX_ENTRIES + 5));
    assert_eq!(h.list()[MAX_ENTRIES - 1].text, "entry 6");
}

#[test]
fn clear_empties_list() {
    let mut h = History::default();
    h.push(make_entry("something"));
    h.clear();
    assert!(h.list().is_empty());
}

#[test]
fn oversized_loaded_history_is_cut_on_next_push() {
    let entries: Vec<HistoryEntry> = (0..70).map(|i| make_entry(&format!("old {i}"))).collect();
    let mut h = History::from_entries(entries);
    assert_eq!(h.list().len(), 70);
    h.push(make_entry("new"));
    assert_eq!(h.list().len(), MAX_ENTRIES);
    assert_eq!(h.list()[0].text, "new");
    assert_eq!(h.list()[1].text, "old 0");
}

#[test]
fn empty_transcriptions_are_not_recorded() {
    let mut h = History::new();
    assert!(!h.record_transcription("", 5, "local"));
    assert!(h.list().is_empty());
    assert!(h.record_transcription("hello", 42, "cloud"));
    assert_eq!(h.list().len(), 1);
    assert_eq!(h.list()[0].text, "hello");
    assert_eq!(h.list()[0].timestamp, 42);
    assert_eq!(h.list()[0].engine, "cloud");
}
