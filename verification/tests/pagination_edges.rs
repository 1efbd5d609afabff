//! Cursors byte by byte, base-64 text, and walks through whole collections.

use meridian_api::auth::{AuthService, RecoveryService, RecoveryStatus, TokenStore};
use meridian_api::pagination::{
    base64_decode, base64_encode, compute_page, decode_cursor_string, encode_cursor_string,
    fletcher16, normalize_page_size, Cursor, Page, PaginatedCollection, PaginationError,
    DEFAULT_PAGE_SIZE, MAX_PAGE_SIZE, MIN_PAGE_SIZE,
};

fn invalid<T>(text: &str) -> Result<T, PaginationError> {
    Err(PaginationError::CursorInvalid(text.to_string()))
}

#[test]
fn page_size_limits() {
    assert_eq!(MIN_PAGE_SIZE, 1);
    assert_eq!(DEFAULT_PAGE_SIZE, 20);
    assert_eq!(MAX_PAGE_SIZE, 100);
    assert_eq!(normalize_page_size(101), 100);
    assert_eq!(normalize_page_size(usize::MAX), 100);
}

#[test]
fn cursor_bytes_are_laid_out_in_order() {
    let cursor = Cursor::new("a".into(), 1, 2);
    assert_eq!(
        cursor.encode(),
        vec![0, 1, 97, 0, 0, 0, 0, 0, 0, 0, 1, 0, 0, 0, 0, 0, 0, 0, 2, 148, 101]
    );
    assert_eq!(encode_cursor_string(&cursor), "AAFhAAAAAAAAAAEAAAAAAAAAApRl");
}

#[test]
fn cursor_roundtrips_at_the_edges() {
    for subject in ["", "alice", "\u{e9}\u{1f600}"] {
        for (timestamp, id) in [(0, 0), (u64::MAX, u64::MAX), (256, 65_536)] {
            let cursor = Cursor::new(subject.to_string(), timestamp, id);
            assert_eq!(Cursor::decode(&cursor.encode()), Ok(cursor.clone()));
            assert_eq!(decode_cursor_string(&encode_cursor_string(&cursor)), Ok(cursor));
        }
    }
    let longest = Cursor::new("x".repeat(65_535), 1, 2);
    assert_eq!(Cursor::decode(&longest.encode()), Ok(longest));
}

#[test]
fn subject_past_the_length_field_is_rejected() {
    for len in [65_536, 65_541] {
        let cursor = Cursor::new("x".repeat(len), 1, 2);
        assert_eq!(Cursor::decode(&cursor.encode()), invalid("cursor has surplus data"));
    }
}

#[test]
fn every_altered_byte_is_noticed() {
    let encoded = Cursor::new("alice".into(), 1_700_000_000, 42).encode();
    for i in 0..encoded.len() {
        for byte in 0..=255u8 {
            let swapped = [encoded[i], byte] == [0, 255] || [encoded[i], byte] == [255, 0];
            if byte == encoded[i] || (swapped && i < encoded.len() - 2) {
                continue;
            }
            let mut altered = encoded.clone();
            altered[i] = byte;
            assert_eq!(Cursor::decode(&altered), invalid("cursor checksum mismatch"));
        }
    }
}

#[test]
fn cursor_failures_in_words() {
    assert_eq!(Cursor::decode(&[0; 19]), invalid("cursor too short"));
    assert_eq!(
        Cursor::decode(&[0, 9, 97, 0, 0, 0, 0, 0, 0, 0, 1, 0, 0, 0, 0, 0, 0, 0, 2, 37, 109]),
        invalid("cursor data truncated")
    );
    assert_eq!(
        Cursor::decode(&[
            0, 2, 255, 254, 0, 0, 0, 0, 0, 0, 0, 1, 0, 0, 0, 0, 0, 0, 0, 2, 32, 4
        ]),
        invalid("invalid utf8: invalid utf-8 sequence of 1 bytes from index 0")
    );
}

#[test]
fn surplus_bytes_are_rejected() {
    assert_eq!(
        Cursor::decode(&[
            0, 1, 97, 0, 0, 0, 0, 0, 0, 0, 1, 0, 0, 0, 0, 0, 0, 0, 2, 7, 7, 116, 115
        ]),
        invalid("cursor has surplus data")
    );
    assert_eq!(Cursor::decode(&[0; 21]), invalid("cursor has surplus data"));
    assert_eq!(Cursor::decode(&[0; 20]), Ok(Cursor::new("".into(), 0, 0)));
}

#[test]
fn scope_mismatch_names_both_subjects() {
    let cursor = Cursor::new("alice".into(), 1, 2);
    assert_eq!(
        cursor.validate_scope("bob"),
        Err(PaginationError::CursorScopeMismatch {
            expected: "bob".to_string(),
            actual: "alice".to_string(),
        })
    );
}

#[test]
fn checksum_values() {
    assert_eq!(fletcher16(&[]), 0);
    assert_eq!(fletcher16(&[1]), 257);
    assert_eq!(fletcher16(b"abcde"), 0xC8F0);
    assert_eq!(fletcher16(b"abcdef"), 0x2057);
    assert_eq!(fletcher16(b"abcdefgh"), 0x0627);
    assert_eq!(fletcher16(b"hello world"), 6752);
    assert_eq!(fletcher16(&[255; 300]), 0);
    assert_eq!(fletcher16(&[254; 300]), 61650);
}

#[test]
fn base64_known_texts() {
    let pairs: [(&[u8], &str); 7] = [
        (b"", ""),
        (b"M", "TQ=="),
        (b"Ma", "TWE="),
        (b"Man", "TWFu"),
        (b"foobar", "Zm9vYmFy"),
        (&[255, 255, 255], "////"),
        (&[251, 239, 190], "++++"),
    ];
    for (data, text) in pairs {
        assert_eq!(base64_encode(data), text);
        assert_eq!(base64_decode(text), Ok(data.to_vec()));
        assert_eq!(base64_decode(text.trim_end_matches('=')), Ok(data.to_vec()));
    }
}

#[test]
fn base64_roundtrips_every_byte() {
    let data: Vec<u8> = (0..=255).collect();
    for len in 0..data.len() {
        let text = base64_encode(&data[..len]);
        assert_eq!(text.len(), (len + 2) / 3 * 4);
        assert_eq!(base64_decode(&text), Ok(data[..len].to_vec()));
    }
}

#[test]
fn base64_lone_digit_gives_a_byte() {
    assert_eq!(base64_decode("A"), Ok(vec![0]));
    assert_eq!(base64_decode("T"), Ok(vec![76]));
    assert_eq!(base64_decode("TWFuT==="), Ok(vec![77, 97, 110, 76]));
    assert_eq!(base64_decode("TWFu!"), invalid("invalid base64 character: 33"));
    assert_eq!(decode_cursor_string("T"), invalid("cursor too short"));
}

#[test]
fn base64_failures_name_the_first_foreign_byte() {
    assert_eq!(base64_decode("!!!"), invalid("invalid base64 character: 33"));
    assert_eq!(base64_decode("TW!u?"), invalid("invalid base64 character: 33"));
    assert_eq!(base64_decode("TQ==TQ=="), invalid("invalid base64 character: 61"));
    assert_eq!(base64_decode("TWFu\u{e9}"), invalid("invalid base64 character: 195"));
    assert_eq!(decode_cursor_string("-"), invalid("invalid base64 character: 45"));
    assert_eq!(decode_cursor_string(""), invalid("cursor too short"));
}

#[test]
fn pagination_error_texts() {
    assert_eq!(
        PaginationError::CursorInvalid("x".to_string()).to_string(),
        "invalid cursor: x"
    );
    assert_eq!(
        PaginationError::CursorScopeMismatch {
            expected: "a".to_string(),
            actual: "b".to_string(),
        }
        .to_string(),
        "cursor scope mismatch: expected subject 'a', got 'b'"
    );
    assert_eq!(
        PaginationError::InvalidPageSize(500).to_string(),
        "invalid page size 500: must be between 1 and 100"
    );
}

fn own_key(key: &(u64, u64)) -> (u64, u64) {
    *key
}

fn keys(count: u64) -> Vec<(u64, u64)> {
    (0..count).rev().map(|i| (1_000 + i / 3, i)).collect()
}

#[test]
fn page_fields_are_kept() {
    let cursor = Cursor::new("alice".into(), 1, 2);
    let page = Page::new(vec![1, 2, 3], 3, 9, Some(cursor.clone()), true);
    assert_eq!(page.items, vec![1, 2, 3]);
    assert_eq!(page.next_cursor, Some(cursor));
    assert!(page.has_more);
    assert_eq!(page.total_count, 9);
    assert_eq!(page.len(), 3);
    assert!(!page.is_empty());
}

#[test]
fn page_names_the_last_item_in_its_cursor() {
    let items = keys(7);
    let page = compute_page(&items, "alice", None, 3, own_key).unwrap();
    assert_eq!(page.items, vec![(1_002, 6), (1_001, 5), (1_001, 4)]);
    assert_eq!(page.next_cursor, Some(Cursor::new("alice".into(), 1_001, 4)));
    assert_eq!(page.total_count, 7);
}

#[test]
fn cursors_break_ties_by_id() {
    let items = vec![(5, 9), (5, 7), (5, 3), (4, 8)];
    let cursor = Cursor::new("alice".into(), 5, 7);
    let page = compute_page(&items, "alice", Some(&cursor), 10, own_key).unwrap();
    assert_eq!(page.items, vec![(5, 3), (4, 8)]);
    assert_eq!(page.total_count, 4);
}

#[test]
fn walking_the_pages_meets_every_item_once() {
    for size in [1, 2, 7, 20, 100] {
        let items = keys(50);
        let mut met = Vec::new();
        let mut cursor: Option<Cursor> = None;
        loop {
            let page = compute_page(&items, "alice", cursor.as_ref(), size, own_key).unwrap();
            assert!(page.len() <= size);
            assert_eq!(page.has_more, page.next_cursor.is_some());
            met.extend(page.items);
            if !page.has_more {
                break;
            }
            cursor = page.next_cursor;
        }
        assert_eq!(met, items);
    }
}

#[test]
fn new_items_leave_the_next_page_as_it_was() {
    let items = keys(20);
    let cursor = compute_page(&items, "alice", None, 5, own_key).unwrap().next_cursor;
    let before = compute_page(&items, "alice", cursor.as_ref(), 5, own_key).unwrap();
    let mut grown = items.clone();
    grown.insert(0, (9_999, 99));
    let after = compute_page(&grown, "alice", cursor.as_ref(), 5, own_key).unwrap();
    assert_eq!(before.items, after.items);
    assert_eq!(before.next_cursor, after.next_cursor);
    assert_eq!(after.total_count, 21);
}

#[test]
fn asking_twice_gives_the_same_page() {
    let items = keys(20);
    let cursor = Cursor::new("alice".into(), 1_004, 13);
    let first = compute_page(&items, "alice", Some(&cursor), 4, own_key).unwrap();
    let second = compute_page(&items, "alice", Some(&cursor), 4, own_key).unwrap();
    assert_eq!(first, second);
}

#[test]
fn sessions_are_listed_newest_first() {
    let mut auth = AuthService::new();
    for now in [30, 10, 20, 30] {
        auth.login_at("alice".into(), "password", None, now).unwrap();
    }
    auth.login_at("bob".into(), "password", None, 40).unwrap();
    auth.logout(3).unwrap();
    let first = auth.list_sessions("alice", None, 3).unwrap();
    let ids: Vec<u64> = first.items.iter().map(|session| session.id).collect();
    assert_eq!(ids, vec![4, 1, 3]);
    assert_eq!(first.total_count, 4);
    assert_eq!(first.next_cursor, Some(Cursor::new("alice".into(), 20, 3)));
    let second = auth.list_sessions("alice", first.next_cursor.as_ref(), 3).unwrap();
    assert_eq!(second.items[0].id, 2);
    assert_eq!(second.len(), 1);
    assert!(!second.has_more);
    assert_eq!(
        auth.list_sessions("bob", first.next_cursor.as_ref(), 3),
        Err(PaginationError::CursorScopeMismatch {
            expected: "bob".to_string(),
            actual: "alice".to_string(),
        })
    );
    assert!(auth.list_sessions("carol", None, 3).unwrap().is_empty());
}

#[test]
fn tokens_of_open_sessions_are_listed() {
    let mut auth = AuthService::new();
    for now in [10, 20, 30] {
        auth.login_at("alice".into(), "password", None, now).unwrap();
    }
    auth.logout(2).unwrap();
    let page = auth.list_tokens("alice", None, 0).unwrap();
    let issued: Vec<u64> = page.items.iter().map(|pair| pair.access.issued_at).collect();
    assert_eq!(issued, vec![30, 10]);
    assert_eq!(page.total_count, 2);
    assert!(auth.list_tokens("bob", None, 0).unwrap().is_empty());
}

#[test]
fn recovery_requests_are_listed_and_filtered() {
    let mut recovery = RecoveryService::new();
    let mut store = TokenStore::new();
    let first = recovery.request_recovery_at("alice".into(), 1, 10).unwrap();
    recovery.request_recovery_at("alice".into(), 2, 30).unwrap();
    recovery.request_recovery_at("alice".into(), 3, 20).unwrap();
    recovery.request_recovery_at("bob".into(), 4, 40).unwrap();
    recovery.complete_recovery_at(&first, &mut store, 50).unwrap();
    recovery.cancel_recovery(3).unwrap();

    let all = recovery.list_requests("alice", None, 10).unwrap();
    let sessions: Vec<u64> = all.items.iter().map(|request| request.session_id).collect();
    assert_eq!(sessions, vec![2, 3, 1]);

    for (status, session) in [
        (RecoveryStatus::Pending, 2),
        (RecoveryStatus::Cancelled, 3),
        (RecoveryStatus::Completed, 1),
    ] {
        let page = recovery.list_requests_by_status("alice", status, None, 10).unwrap();
        assert_eq!(page.total_count, 1);
        assert_eq!(page.items[0].session_id, session);
        assert_eq!(page.items[0].status, status);
    }
}

#[test]
fn services_are_paginated_collections() {
    let mut auth = AuthService::new();
    let login = auth.login_at("alice".into(), "password", None, 10).unwrap();
    assert_eq!(AuthService::sort_key(&login.session), (10, 1));
    assert_eq!(<AuthService as PaginatedCollection>::subject(&login.session), "alice");
    assert_eq!(auth.query("alice", None, 5).unwrap().items, vec![login.session]);

    let mut recovery = RecoveryService::new();
    recovery.request_recovery_at("alice".into(), 1, 10).unwrap();
    let page = recovery.query("alice", None, 5).unwrap();
    assert_eq!(page.len(), 1);
    assert_eq!(RecoveryService::sort_key(&page.items[0]), (10, 1));
    assert_eq!(RecoveryService::subject(&page.items[0]), "alice");
}
