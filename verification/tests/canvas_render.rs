use redrob::canvas::history::{HistoryConfig, HARD_MAX_HISTORY_ENTRIES};
use redrob::canvas::render::RenderSnapshot;

#[test]
fn history_defaults_and_normalization_caps_entries_only() {
    let config = HistoryConfig::default();
    assert_eq!(config.max_entries, 256);
    assert_eq!(config.memory_budget_bytes, 256 * 1024 * 1024);
    assert_eq!(config.normalized(), config);

    let large = HistoryConfig {
        max_entries: usize::MAX,
        memory_budget_bytes: 0,
    };
    let normalized = large.normalized();
    assert_eq!(normalized.max_entries, HARD_MAX_HISTORY_ENTRIES);
    assert_eq!(normalized.max_entries, 1_024);
    assert_eq!(normalized.memory_budget_bytes, 0);
    assert_eq!(normalized.normalized(), normalized);

    let exact = HistoryConfig {
        max_entries: 1_024,
        memory_budget_bytes: 5,
    };
    assert_eq!(exact.normalized(), exact);
}

#[test]
fn render_snapshots_need_four_bytes_per_pixel_and_share_storage() {
    assert!(RenderSnapshot::from_pixels(2, 1, 0, vec![0; 7]).is_none());
    assert!(RenderSnapshot::from_pixels(2, 1, 0, vec![0; 9]).is_none());
    let pixels: Vec<u8> = (0..8).collect();
    let snapshot = RenderSnapshot::from_pixels(2, 1, 42, pixels.clone()).unwrap();
    assert_eq!(snapshot.width(), 2);
    assert_eq!(snapshot.height(), 1);
    assert_eq!(snapshot.generation(), 42);
    assert_eq!(snapshot.pixels(), pixels.as_slice());
    let shared = snapshot.shared_pixels();
    assert_eq!(shared.as_slice(), pixels.as_slice());
    let copy = snapshot.clone();
    assert!(copy.shared_pixels().shares_storage_with(&shared));
    let empty = RenderSnapshot::from_pixels(0, 5, 1, Vec::new()).unwrap();
    assert!(empty.pixels().is_empty());
}
