use ledger_core::cursor::{decode_account_cursor, decode_entry_cursor, encode_account_cursor,
    encode_entry_cursor, CursorToken};
use ledger_core::ledger::{Ledger, NewAccount};
use ledger_core::types::LedgerError;

fn account(n: usize) -> NewAccount {
    let id = format!("00000000-0000-4000-8000-0000000000{:02x}", n);
    NewAccount {
        id: Some(id),
        code: format!("code-{:02}", n),
        name: format!("account {}", n),
        external_id: None,
        description: None,
        metadata: None,
    }
}

#[test]
fn cursor_round_trip() {
    let t = encode_account_cursor(&"code-07".to_string());
    assert_eq!(decode_account_cursor(&t).unwrap(), "code-07");
}

#[test]
fn malformed_cursor_rejected() {
    let junk = CursorToken { token: "???not base64???".to_string() };
    assert!(matches!(decode_account_cursor(&junk), Err(LedgerError::DecodeError)));
    // A valid base64 token without the collection tag is foreign.
    let foreign = CursorToken { token: "AAAA".to_string() };
    assert!(matches!(decode_account_cursor(&foreign), Err(LedgerError::DecodeError)));
}

#[test]
fn pagination_completeness() {
    let mut l = Ledger::new();
    // Insert out of code order on purpose.
    for n in [4usize, 1, 5, 3, 2] {
        l.create_account(account(n)).unwrap();
    }
    let mut seen: Vec<String> = Vec::new();
    let mut after: Option<CursorToken> = None;
    let mut pages = 0;
    loop {
        let page = match &after {
            Some(t) => l.list_accounts(Some(t), 2).unwrap(),
            None => l.list_accounts(None, 2).unwrap(),
        };
        for a in &page.accounts {
            seen.push(a.code.clone());
        }
        pages += 1;
        assert!(pages < 10, "pagination must terminate");
        if !page.has_next_page {
            break;
        }
        after = page.end_cursor;
    }
    // Exactly the five codes, each once, in ascending order.
    assert_eq!(seen, vec!["code-01", "code-02", "code-03", "code-04", "code-05"]);
}

#[test]
fn empty_collection_lists_empty() {
    let l = Ledger::new();
    let page = l.list_accounts(None, 10).unwrap();
    assert!(page.accounts.is_empty());
    assert!(!page.has_next_page);
    assert!(page.end_cursor.is_none());
}

#[test]
fn outbox_events_are_densely_ordered() {
    let mut l = Ledger::new();
    for n in 1..=3usize {
        l.create_account(account(n)).unwrap();
    }
    assert_eq!(l.outbox.len(), 3);
    for (i, ev) in l.outbox.iter().enumerate() {
        assert_eq!(ev.sequence, i);
    }
}

#[test]
fn entry_cursor_round_trip() {
    let t = encode_entry_cursor(7_000_000_123);
    assert_eq!(decode_entry_cursor(&t).unwrap(), 7_000_000_123);
    let zero = encode_entry_cursor(0);
    assert_eq!(decode_entry_cursor(&zero).unwrap(), 0);
}

#[test]
fn malformed_entry_cursor_rejected() {
    let junk = CursorToken { token: "???".to_string() };
    assert!(matches!(decode_entry_cursor(&junk), Err(LedgerError::DecodeError)));
    // Too short a payload, and a foreign (account) tag, are both rejected.
    let short = CursorToken { token: "ZW50Og".to_string() };
    assert!(matches!(decode_entry_cursor(&short), Err(LedgerError::DecodeError)));
    let foreign = encode_account_cursor(&"code-01".to_string());
    assert!(matches!(decode_entry_cursor(&foreign), Err(LedgerError::DecodeError)));
}

#[test]
fn template_cursor_round_trip() {
    let t = ledger_core::cursor::encode_template_cursor(3);
    assert_eq!(ledger_core::cursor::decode_template_cursor(&t).unwrap(), 3);
    // Entry and account cursors are foreign tokens for the template
    // collection.
    let foreign = encode_entry_cursor(3);
    assert!(matches!(
        ledger_core::cursor::decode_template_cursor(&foreign),
        Err(LedgerError::DecodeError)
    ));
}
