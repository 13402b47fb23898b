use getman::history::{History, HistoryEntry, MAX_HISTORY_ENTRIES};
use getman::http_types::HttpMethod;

fn make_entry(url: &str) -> HistoryEntry {
    HistoryEntry {
        timestamp: 0,
        method: HttpMethod::Get,
        url: url.to_string(),
        status: None,
        duration_ms: None,
    }
}

#[test]
fn push_and_retrieve() {
    let mut history = History::new();
    history.push(make_entry("https://a.com"));
    history.push(make_entry("https://b.com"));

    assert_eq!(history.entries().len(), 2);
    assert_eq!(history.entries()[0].url, "https://b.com");
    assert_eq!(history.entries()[1].url, "https://a.com");
}

#[test]
fn evicts_oldest_when_full() {
    let mut history = History::new();
    for i in 0..MAX_HISTORY_ENTRIES + 5 {
        history.push(make_entry(&format!("https://example.com/{i}")));
    }
    assert_eq!(history.entries().len(), MAX_HISTORY_ENTRIES);
    // Most recent is first
    assert_eq!(
        history.entries()[0].url,
        format!("https://example.com/{}", MAX_HISTORY_ENTRIES + 4)
    );
}

#[test]
fn clear_empties_entries() {
    let mut history = History::new();
    history.push(make_entry("https://a.com"));
    history.clear();
    assert!(history.entries().is_empty());
}
