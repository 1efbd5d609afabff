//! Cursors, base-64 text and pages.

use meridian_api::pagination::{
    base64_decode, base64_encode, compute_page, decode_cursor_string, encode_cursor_string,
    fletcher16, normalize_page_size, Cursor, Page, PaginationError, DEFAULT_PAGE_SIZE,
    MAX_PAGE_SIZE,
};

#[test]
fn cursor_roundtrip() {
    let cursor = Cursor::new("alice".into(), 1700000000, 42);
    let encoded = cursor.encode();
    let decoded = Cursor::decode(&encoded).unwrap();
    assert_eq!(cursor, decoded);
}

#[test]
fn cursor_base64_roundtrip() {
    let cursor = Cursor::new("bob".into(), 1700000000, 99);
    let b64 = encode_cursor_string(&cursor);
    let decoded = decode_cursor_string(&b64).unwrap();
    assert_eq!(cursor, decoded);
}

#[test]
fn cursor_decode_empty_fails() {
    assert!(Cursor::decode(&[]).is_err());
}

#[test]
fn cursor_decode_too_short_fails() {
    assert!(Cursor::decode(&[0; 10]).is_err());
}

#[test]
fn cursor_decode_tampered_checksum_fails() {
    let cursor = Cursor::new("alice".into(), 100, 1);
    let mut encoded = cursor.encode();
    // Tamper with the last byte (part of checksum).
    let last = encoded.len() - 1;
    encoded[last] = encoded[last].wrapping_add(1);
    assert!(Cursor::decode(&encoded).is_err());
}

#[test]
fn cursor_decode_tampered_subject_fails() {
    let cursor = Cursor::new("alice".into(), 100, 1);
    let mut encoded = cursor.encode();
    // Tamper with subject byte (after length prefix).
    encoded[3] = b'z';
    assert!(Cursor::decode(&encoded).is_err());
}

#[test]
fn cursor_scope_validation_passes() {
    let cursor = Cursor::new("alice".into(), 100, 1);
    assert!(cursor.validate_scope("alice").is_ok());
}

#[test]
fn cursor_scope_validation_fails() {
    let cursor = Cursor::new("alice".into(), 100, 1);
    let result = cursor.validate_scope("bob");
    assert!(matches!(
        result,
        Err(PaginationError::CursorScopeMismatch { .. })
    ));
}

#[test]
fn normalize_page_size_default() {
    assert_eq!(normalize_page_size(0), DEFAULT_PAGE_SIZE);
}

#[test]
fn normalize_page_size_valid() {
    assert_eq!(normalize_page_size(50), 50);
}

#[test]
fn normalize_page_size_clamped_max() {
    assert_eq!(normalize_page_size(200), MAX_PAGE_SIZE);
}

#[test]
fn normalize_page_size_min_boundary() {
    assert_eq!(normalize_page_size(1), 1);
}

#[test]
fn normalize_page_size_exactly_max() {
    assert_eq!(normalize_page_size(MAX_PAGE_SIZE), MAX_PAGE_SIZE);
}

#[test]
fn empty_page() {
    let page: Page<String> = Page::empty("alice");
    assert!(page.is_empty());
    assert_eq!(page.len(), 0);
    assert_eq!(page.total_count, 0);
    assert!(!page.has_more);
    assert!(page.next_cursor.is_none());
}

#[derive(Debug, Clone, PartialEq, Eq)]
struct TestItem {
    id: u64,
    created_at: u64,
    subject: String,
}

fn test_sort_key(item: &TestItem) -> (u64, u64) {
    (item.created_at, item.id)
}

fn make_items(subject: &str, count: usize, start_ts: u64) -> Vec<TestItem> {
    (0..count)
        .map(|i| TestItem {
            id: (i + 1) as u64,
            created_at: start_ts + (i as u64),
            subject: subject.to_string(),
        })
        .collect()
}

#[test]
fn compute_page_empty_collection() {
    let items: Vec<TestItem> = vec![];
    let page = compute_page(&items, "alice", None, 10, test_sort_key).unwrap();
    assert!(page.is_empty());
    assert!(!page.has_more);
    assert!(page.next_cursor.is_none());
}

#[test]
fn compute_page_single_page() {
    let items = make_items("alice", 5, 1000);
    // Sorted DESC by (created_at, id) — reverse the creation order.
    let mut sorted = items;
    sorted.sort_by(|a, b| (b.created_at, b.id).cmp(&(a.created_at, a.id)));

    let page = compute_page(&sorted, "alice", None, 10, test_sort_key).unwrap();
    assert_eq!(page.len(), 5);
    assert!(!page.has_more);
    assert!(page.next_cursor.is_none());
}

#[test]
fn compute_page_with_pagination() {
    let items = make_items("alice", 25, 1000);
    let mut sorted = items;
    sorted.sort_by(|a, b| (b.created_at, b.id).cmp(&(a.created_at, a.id)));

    // First page.
    let page1 = compute_page(&sorted, "alice", None, 10, test_sort_key).unwrap();
    assert_eq!(page1.len(), 10);
    assert!(page1.has_more);
    assert!(page1.next_cursor.is_some());

    let cursor1 = page1.next_cursor.as_ref().unwrap();

    // Second page.
    let page2 = compute_page(&sorted, "alice", Some(cursor1), 10, test_sort_key).unwrap();
    assert_eq!(page2.len(), 10);
    assert!(page2.has_more);

    let cursor2 = page2.next_cursor.as_ref().unwrap();

    // Third page (remaining 5).
    let page3 = compute_page(&sorted, "alice", Some(cursor2), 10, test_sort_key).unwrap();
    assert_eq!(page3.len(), 5);
    assert!(!page3.has_more);
    assert!(page3.next_cursor.is_none());
}

#[test]
fn compute_page_exact_boundary() {
    // Exactly 20 items with page_size=10 → two pages, second has no more.
    let items = make_items("alice", 20, 1000);
    let mut sorted = items;
    sorted.sort_by(|a, b| (b.created_at, b.id).cmp(&(a.created_at, a.id)));

    let page1 = compute_page(&sorted, "alice", None, 10, test_sort_key).unwrap();
    assert_eq!(page1.len(), 10);
    assert!(page1.has_more);

    let cursor1 = page1.next_cursor.as_ref().unwrap();
    let page2 = compute_page(&sorted, "alice", Some(cursor1), 10, test_sort_key).unwrap();
    assert_eq!(page2.len(), 10);
    assert!(!page2.has_more);
    assert!(page2.next_cursor.is_none());
}

#[test]
fn compute_page_invalid_cursor_scope_fails() {
    let items = make_items("alice", 5, 1000);
    let mut sorted = items;
    sorted.sort_by(|a, b| (b.created_at, b.id).cmp(&(a.created_at, a.id)));

    let cursor = Cursor::new("bob".into(), 1001, 2);
    let result = compute_page(&sorted, "alice", Some(&cursor), 10, test_sort_key);
    assert!(matches!(
        result,
        Err(PaginationError::CursorScopeMismatch { .. })
    ));
}

#[test]
fn compute_page_stale_cursor_returns_empty() {
    // Cursor at position before all items in DESC order (all items
    // have timestamps >= 1000, so a cursor at 900 means "show me
    // items after position (900, 0)" — none exist).
    let items = make_items("alice", 5, 1000);
    let mut sorted = items;
    sorted.sort_by(|a, b| (b.created_at, b.id).cmp(&(a.created_at, a.id)));

    let cursor = Cursor::new("alice".into(), 900, 0);
    let page = compute_page(&sorted, "alice", Some(&cursor), 10, test_sort_key).unwrap();
    assert!(page.is_empty());
    assert!(!page.has_more);
}

#[test]
fn compute_page_page_size_one() {
    let items = make_items("alice", 3, 1000);
    let mut sorted = items;
    sorted.sort_by(|a, b| (b.created_at, b.id).cmp(&(a.created_at, a.id)));

    let page1 = compute_page(&sorted, "alice", None, 1, test_sort_key).unwrap();
    assert_eq!(page1.len(), 1);
    assert!(page1.has_more);

    let cursor1 = page1.next_cursor.as_ref().unwrap();
    let page2 = compute_page(&sorted, "alice", Some(cursor1), 1, test_sort_key).unwrap();
    assert_eq!(page2.len(), 1);
    assert!(page2.has_more);

    let cursor2 = page2.next_cursor.as_ref().unwrap();
    let page3 = compute_page(&sorted, "alice", Some(cursor2), 1, test_sort_key).unwrap();
    assert_eq!(page3.len(), 1);
    assert!(!page3.has_more);
}

#[test]
fn compute_page_preserves_desc_order() {
    let items = make_items("alice", 10, 1000);
    let mut sorted = items;
    sorted.sort_by(|a, b| (b.created_at, b.id).cmp(&(a.created_at, a.id)));

    let page = compute_page(&sorted, "alice", None, 10, test_sort_key).unwrap();

    // Verify descending order within the page.
    for window in page.items.windows(2) {
        assert!(
            (window[0].created_at, window[0].id) > (window[1].created_at, window[1].id),
            "items not in descending order"
        );
    }
}

#[test]
fn fletcher16_deterministic() {
    let data = b"hello world";
    assert_eq!(fletcher16(data), fletcher16(data));
}

#[test]
fn fletcher16_different_inputs() {
    assert_ne!(fletcher16(b"hello"), fletcher16(b"world"));
}

#[test]
fn base64_roundtrip() {
    let data = vec![0, 1, 2, 3, 4, 5, 127, 255, 254, 253];
    let encoded = base64_encode(&data);
    let decoded = base64_decode(&encoded).unwrap();
    assert_eq!(data, decoded);
}

#[test]
fn base64_empty() {
    let encoded = base64_encode(&[]);
    let decoded = base64_decode(&encoded).unwrap();
    assert!(decoded.is_empty());
}

#[test]
fn base64_invalid_char_fails() {
    assert!(base64_decode("!!!").is_err());
}

#[test]
fn concurrent_cursor_generation_deterministic() {
    // Two cursors from the same position produce the same encoding.
    let c1 = Cursor::new("alice".into(), 1700000000, 42);
    let c2 = Cursor::new("alice".into(), 1700000000, 42);
    assert_eq!(c1.encode(), c2.encode());
}

#[test]
fn different_positions_different_cursors() {
    let c1 = Cursor::new("alice".into(), 1700000000, 42);
    let c2 = Cursor::new("alice".into(), 1700000000, 43);
    assert_ne!(c1.encode(), c2.encode());
}

#[test]
fn large_result_set_full_pagination() {
    let items = make_items("alice", 250, 1000);
    let mut sorted = items;
    sorted.sort_by(|a, b| (b.created_at, b.id).cmp(&(a.created_at, a.id)));

    let mut cursor: Option<Cursor> = None;
    let mut total_fetched = 0;
    let mut pages = 0;

    loop {
        let page = compute_page(
            &sorted,
            "alice",
            cursor.as_ref(),
            MAX_PAGE_SIZE,
            test_sort_key,
        )
        .unwrap();

        total_fetched += page.len();
        pages += 1;

        if !page.has_more {
            assert!(page.next_cursor.is_none());
            break;
        }
        cursor = page.next_cursor;
    }

    assert_eq!(total_fetched, 250);
    // 250 / 100 = 2.5 → 3 pages
    assert_eq!(pages, 3);
}

#[test]
fn cursor_after_all_items_returns_full_page() {
    let items = make_items("alice", 3, 1000);
    let mut sorted = items;
    sorted.sort_by(|a, b| (b.created_at, b.id).cmp(&(a.created_at, a.id)));

    // Cursor with timestamp after all items — all items have
    // (ts, id) < cursor, so all qualify.
    let cursor = Cursor::new("alice".into(), 2000, 0);
    let page = compute_page(&sorted, "alice", Some(&cursor), 10, test_sort_key).unwrap();
    assert_eq!(page.len(), 3);
    assert!(!page.has_more);
    assert!(page.next_cursor.is_none());
}

#[test]
fn cursor_between_items_returns_remaining() {
    let items = make_items("alice", 5, 1000);
    let mut sorted = items;
    sorted.sort_by(|a, b| (b.created_at, b.id).cmp(&(a.created_at, a.id)));

    // Cursor at item 3 (created_at=1002, id=3). In DESC order,
    // items 1001/2 and 1000/1 come after it.
    let cursor = Cursor::new("alice".into(), 1002, 3);
    let page = compute_page(&sorted, "alice", Some(&cursor), 10, test_sort_key).unwrap();
    // Should get items with (ts, id) < (1002, 3): (1001,2) and (1000,1).
    assert_eq!(page.len(), 2);
    assert!(!page.has_more);
}

#[test]
fn pagination_error_display() {
    let e = PaginationError::CursorInvalid("test".into());
    assert!(e.to_string().contains("test"));

    let e = PaginationError::CursorScopeMismatch {
        expected: "alice".into(),
        actual: "bob".into(),
    };
    let msg = e.to_string();
    assert!(msg.contains("alice"));
    assert!(msg.contains("bob"));

    let e = PaginationError::InvalidPageSize(0);
    assert!(e.to_string().contains("0"));
}
