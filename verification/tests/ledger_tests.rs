use ledger_core::decimal::Dec;
use ledger_core::ledger::{Ledger, ListDirection, NewAccount, NewJournal};
use ledger_core::params::{
    bind_params, NewParamDefinitionValues, ParamArg, ParamDataTypeValues, ParamInput, ParamValue,
};
use ledger_core::template::{
    NewTxTemplateEntryValues, NewTxTemplateTransactionValues, NewTxTemplateValues,
};
use ledger_core::types::{DateVal, Direction, Layer, LedgerError};

const J1: &str = "00000000-0000-4000-8000-00000000000a";
const A1: &str = "00000000-0000-4000-8000-0000000000a1";
const A2: &str = "00000000-0000-4000-8000-0000000000a2";
const T1: &str = "00000000-0000-4000-8000-0000000000f1";
const TX1: &str = "00000000-0000-4000-8000-0000000000e1";
const TX2: &str = "00000000-0000-4000-8000-0000000000e2";

fn new_journal(code: &str) -> NewJournal {
    NewJournal {
        id: Some(J1.to_string()),
        code: code.to_string(),
        name: "book".to_string(),
        description: None,
        metadata: None,
    }
}

fn new_account(id: &str, code: &str) -> NewAccount {
    NewAccount {
        id: Some(id.to_string()),
        code: code.to_string(),
        name: code.to_string(),
        external_id: None,
        description: None,
        metadata: None,
    }
}

fn amount_template() -> NewTxTemplateValues {
    let entry = |account: &str, direction: &str| NewTxTemplateEntryValues {
        entry_type: format!("'{}'", direction),
        account_id: format!("'{}'", account),
        layer: "'SETTLED'".to_string(),
        direction: format!("'{}'", direction),
        units: "params.amount".to_string(),
        currency: "'USD'".to_string(),
        description: None,
        metadata: None,
    };
    NewTxTemplateValues {
        id: Some(T1.to_string()),
        code: "T1".to_string(),
        external_id: None,
        description: None,
        params: Some(vec![NewParamDefinitionValues {
            name: "amount".to_string(),
            param_type: ParamDataTypeValues::Decimal,
            default: None,
            description: None,
        }]),
        entries: vec![entry(A1, "DEBIT"), entry(A2, "CREDIT")],
        metadata: None,
        transaction: Some(NewTxTemplateTransactionValues {
            effective: "'2022-11-01T12:00:00Z'".to_string(),
            journal_id: format!("'{}'", J1),
            correlation_id: None,
            external_id: None,
            description: None,
            metadata: None,
        }),
    }
}

fn ledger_with_template() -> Ledger {
    let mut l = Ledger::new();
    l.create_journal(new_journal("mainbook12345678")).unwrap();
    l.create_account(new_account(A1, "assets")).unwrap();
    l.create_account(new_account(A2, "liabilities")).unwrap();
    l.create_tx_template(amount_template()).unwrap();
    l
}

fn amount_args(text: &str) -> Vec<ParamArg> {
    vec![ParamArg { name: "amount".to_string(), value: ParamInput::Num(text.to_string()) }]
}

#[test]
fn journal_find_by_code() {
    let mut l = Ledger::new();
    let code = "q7b2m9x4k1w8r5t3";
    l.create_journal(new_journal(code)).unwrap();
    let journal = l.find_journal_by_code(&code.to_string()).unwrap();
    assert_eq!(journal.id, J1);
}

#[test]
fn journal_cannot_find_by_code() {
    let l = Ledger::new();
    let code = "z9y8x7w6v5u4t3s2";
    let result = l.find_journal_by_code(&code.to_string());
    assert!(result.is_err());
    assert!(matches!(result, Err(LedgerError::CouldNotFindByCode { .. })));
}

#[test]
fn account_round_trip_by_code() {
    let mut l = Ledger::new();
    l.create_account(new_account(A1, "cash")).unwrap();
    let found = l.find_account_by_code(&"cash".to_string()).unwrap();
    assert_eq!(found.id, A1);
    let missing = l.find_account_by_code(&"never-assigned".to_string());
    assert!(matches!(missing, Err(LedgerError::CouldNotFindByCode { .. })));
}

#[test]
fn account_find_by_id_and_external_id() {
    let mut l = Ledger::new();
    let mut a = new_account(A1, "cash");
    a.external_id = Some("ext-1".to_string());
    l.create_account(a).unwrap();
    assert_eq!(l.find_account_by_id(&A1.to_string()).unwrap().code, "cash");
    assert_eq!(l.find_account_by_external_id(&"ext-1".to_string()).unwrap().code, "cash");
    assert!(matches!(
        l.find_account_by_id(&"not-a-uuid".to_string()),
        Err(LedgerError::MalformedId { .. })
    ));
    assert!(matches!(
        l.find_account_by_external_id(&"ext-2".to_string()),
        Err(LedgerError::CouldNotFindByExternalId { .. })
    ));
}

#[test]
fn duplicate_codes_rejected() {
    let mut l = Ledger::new();
    l.create_account(new_account(A1, "cash")).unwrap();
    let dup = l.create_account(new_account(A2, "cash"));
    assert!(matches!(dup, Err(LedgerError::DuplicateCode { .. })));
    let dup_id = l.create_account(new_account(A1, "other"));
    assert!(matches!(dup_id, Err(LedgerError::DuplicateId { .. })));
}

#[test]
fn scenario_post_template_amount() {
    let mut l = ledger_with_template();
    let ix = l.post(&TX1.to_string(), &"T1".to_string(), &amount_args("42.50")).unwrap();
    let tx = &l.transactions[ix];
    assert_eq!(tx.id, TX1);
    assert_eq!(tx.journal_id, J1);
    assert_eq!(tx.effective, DateVal { year: 2022, month: 11, day: 1 });

    let entries = l.list_entries_for_transaction(&TX1.to_string()).unwrap();
    assert_eq!(entries.len(), 2);
    assert_eq!(entries[0].units, Dec { mantissa: 4250, scale: 2 });
    assert_eq!(entries[1].units, Dec { mantissa: 4250, scale: 2 });
    assert_eq!(entries[0].direction, Direction::Debit);
    assert_eq!(entries[1].direction, Direction::Credit);
    assert_eq!(entries[0].account_id, A1);
    assert_eq!(entries[1].account_id, A2);
    assert_eq!(entries[0].layer, Layer::Settled);
    assert_eq!(entries[0].sequence, 0);
    assert_eq!(entries[1].sequence, 1);

    // Balance(A1) and Balance(A2) moved by equal and opposite amounts in
    // the settled layer.
    let ba = l.find_balance(&J1.to_string(), &A1.to_string(), &"USD".to_string()).unwrap();
    let bb = l.find_balance(&J1.to_string(), &A2.to_string(), &"USD".to_string()).unwrap();
    assert_eq!(ba.values().settled, "42.50");
    assert_eq!(bb.values().settled, "-42.50");
    assert_eq!(ba.values().pending, "0");
    assert_eq!(ba.values().encumbrance, "0");
}

#[test]
fn post_rejects_duplicate_transaction_id() {
    let mut l = ledger_with_template();
    l.post(&TX1.to_string(), &"T1".to_string(), &amount_args("1")).unwrap();
    let again = l.post(&TX1.to_string(), &"T1".to_string(), &amount_args("1"));
    assert!(matches!(again, Err(LedgerError::DuplicateTransactionId { .. })));
}

#[test]
fn post_rejects_unknown_template() {
    let mut l = ledger_with_template();
    let r = l.post(&TX1.to_string(), &"T9".to_string(), &amount_args("1"));
    assert!(matches!(r, Err(LedgerError::TemplateNotFound { .. })));
}

#[test]
fn post_rejects_missing_param() {
    let mut l = ledger_with_template();
    let r = l.post(&TX1.to_string(), &"T1".to_string(), &vec![]);
    assert!(matches!(r, Err(LedgerError::MissingRequiredParam { .. })));
    // Nothing was persisted.
    assert_eq!(l.transactions.len(), 0);
    assert_eq!(l.entries.len(), 0);
}

#[test]
fn unbalanced_template_rejected() {
    let mut l = Ledger::new();
    l.create_journal(new_journal("mainbook12345678")).unwrap();
    l.create_account(new_account(A1, "assets")).unwrap();
    l.create_account(new_account(A2, "liabilities")).unwrap();
    let mut t = amount_template();
    // Both entries debit: the SETTLED/USD group sums to twice the amount.
    t.entries[1].direction = "'DEBIT'".to_string();
    l.create_tx_template(t).unwrap();
    let r = l.post(&TX1.to_string(), &"T1".to_string(), &amount_args("5"));
    assert!(matches!(r, Err(LedgerError::UnbalancedTransaction { .. })));
    assert_eq!(l.entries.len(), 0);
}

#[test]
fn void_negates_and_restores_balances() {
    let mut l = ledger_with_template();
    l.post(&TX1.to_string(), &"T1".to_string(), &amount_args("42.50")).unwrap();
    let ix = l.void_transaction(&TX2.to_string(), &TX1.to_string()).unwrap();
    assert_eq!(l.transactions[ix].void_of.as_deref(), Some(TX1));

    let voided = l.list_entries_for_transaction(&TX2.to_string()).unwrap();
    let original = l.list_entries_for_transaction(&TX1.to_string()).unwrap();
    assert_eq!(voided.len(), original.len());
    for (v, o) in voided.iter().zip(original.iter()) {
        assert_eq!(v.account_id, o.account_id);
        assert_eq!(v.currency, o.currency);
        assert_eq!(v.layer, o.layer);
        assert_eq!(v.units, o.units);
        assert_ne!(v.direction, o.direction);
    }

    // Every touched balance is back at zero, its pre-transaction value.
    let ba = l.find_balance(&J1.to_string(), &A1.to_string(), &"USD".to_string()).unwrap();
    let bb = l.find_balance(&J1.to_string(), &A2.to_string(), &"USD".to_string()).unwrap();
    assert_eq!(ba.values().settled, "0.00");
    assert_eq!(bb.values().settled, "0.00");

    // A void cannot be voided again.
    let again = l.void_transaction(
        &"00000000-0000-4000-8000-0000000000e3".to_string(),
        &TX2.to_string(),
    );
    assert!(matches!(again, Err(LedgerError::AlreadyVoided { .. })));
}

#[test]
fn stale_version_conflict() {
    let mut l = Ledger::new();
    l.create_account(new_account(A1, "cash")).unwrap();
    // First writer wins from version 1.
    l.update_account(&A1.to_string(), 1, "till".to_string(), None, None).unwrap();
    assert_eq!(l.find_account_by_id(&A1.to_string()).unwrap().version, 2);
    // Second writer cites the version it read before the first won.
    let loser = l.update_account(&A1.to_string(), 1, "safe".to_string(), None, None);
    match loser {
        Err(LedgerError::StaleVersion { expected, actual }) => {
            assert_eq!(expected, 1);
            assert_eq!(actual, 2);
        }
        other => panic!("expected StaleVersion, got {:?}", other),
    }
    // The aggregate advanced by exactly one overall.
    assert_eq!(l.find_account_by_id(&A1.to_string()).unwrap().version, 2);
    assert_eq!(l.find_account_by_id(&A1.to_string()).unwrap().name, "till");
}

#[test]
fn param_type_enforcement() {
    let defs = vec![NewParamDefinitionValues {
        name: "amount".to_string(),
        param_type: ParamDataTypeValues::Decimal,
        default: None,
        description: None,
    }];
    // A non-numeric string bound to a Decimal parameter fails, naming it.
    let bad = bind_params(
        &defs,
        &vec![ParamArg {
            name: "amount".to_string(),
            value: ParamInput::Text("not-a-number".to_string()),
        }],
    );
    match bad {
        Err(LedgerError::ParamTypeMismatch { name }) => assert_eq!(name, "amount"),
        other => panic!("expected ParamTypeMismatch, got {:?}", other),
    }
    // A numeric string parses exactly.
    let good = bind_params(
        &defs,
        &vec![ParamArg {
            name: "amount".to_string(),
            value: ParamInput::Text("42.50".to_string()),
        }],
    )
    .unwrap();
    match &good.bound[0].value {
        ParamValue::VDec(d) => assert_eq!(*d, Dec { mantissa: 4250, scale: 2 }),
        other => panic!("expected a decimal, got {:?}", std::mem::discriminant(other)),
    }
}

#[test]
fn date_param_parsing() {
    let defs = vec![NewParamDefinitionValues {
        name: "effective".to_string(),
        param_type: ParamDataTypeValues::Date,
        default: None,
        description: None,
    }];
    let good = bind_params(
        &defs,
        &vec![ParamArg {
            name: "effective".to_string(),
            value: ParamInput::Text("2022-11-01T12:30:00Z".to_string()),
        }],
    )
    .unwrap();
    match &good.bound[0].value {
        ParamValue::VDate(d) => assert_eq!(*d, DateVal { year: 2022, month: 11, day: 1 }),
        _ => panic!("expected a date"),
    }
    let bad = bind_params(
        &defs,
        &vec![ParamArg {
            name: "effective".to_string(),
            value: ParamInput::Text("2022-13-99".to_string()),
        }],
    );
    match bad {
        Err(LedgerError::ParamTypeMismatch { name }) => assert_eq!(name, "effective"),
        other => panic!("expected ParamTypeMismatch, got {:?}", other),
    }
}

#[test]
fn default_param_applies() {
    let defs = vec![NewParamDefinitionValues {
        name: "amount".to_string(),
        param_type: ParamDataTypeValues::Decimal,
        default: Some("7.25".to_string()),
        description: None,
    }];
    let bound = bind_params(&defs, &vec![]).unwrap();
    match &bound.bound[0].value {
        ParamValue::VDec(d) => assert_eq!(*d, Dec { mantissa: 725, scale: 2 }),
        _ => panic!("expected the default decimal"),
    }
}

#[test]
fn template_validation_errors() {
    let mut l = Ledger::new();
    let mut t = amount_template();
    t.params = Some(vec![
        NewParamDefinitionValues {
            name: "amount".to_string(),
            param_type: ParamDataTypeValues::Decimal,
            default: None,
            description: None,
        },
        NewParamDefinitionValues {
            name: "amount".to_string(),
            param_type: ParamDataTypeValues::String,
            default: None,
            description: None,
        },
    ]);
    assert!(matches!(
        l.create_tx_template(t),
        Err(LedgerError::DuplicateParamName { .. })
    ));

    let mut t2 = amount_template();
    t2.entries[0].units = "params.missing".to_string();
    match l.create_tx_template(t2) {
        Err(LedgerError::UndeclaredParam { name }) => assert_eq!(name, "missing"),
        other => panic!("expected UndeclaredParam, got {:?}", other.err()),
    }

    let mut t3 = amount_template();
    t3.entries[0].units = "1 +".to_string();
    assert!(matches!(
        l.create_tx_template(t3),
        Err(LedgerError::MalformedExpression { .. })
    ));
}

#[test]
fn entry_listings_by_journal_and_account() {
    let mut l = ledger_with_template();
    l.post(&TX1.to_string(), &"T1".to_string(), &amount_args("5")).unwrap();
    l.post(&TX2.to_string(), &"T1".to_string(), &amount_args("7")).unwrap();

    let asc = l
        .list_entries_for_journal_id(&J1.to_string(), ListDirection::Ascending)
        .unwrap();
    assert_eq!(asc.len(), 4);
    assert_eq!(asc[0].transaction_id, TX1);
    assert_eq!(asc[3].transaction_id, TX2);

    let desc = l
        .list_entries_for_journal_id(&J1.to_string(), ListDirection::Descending)
        .unwrap();
    assert_eq!(desc.len(), 4);
    assert_eq!(desc[0].transaction_id, TX2);

    let by_account = l
        .list_entries_for_account_id(&A1.to_string(), ListDirection::Ascending)
        .unwrap();
    assert_eq!(by_account.len(), 2);
    assert!(by_account.iter().all(|e| e.account_id == A1));
}

#[test]
fn balances_for_account_cover_every_key() {
    let mut l = ledger_with_template();
    l.post(&TX1.to_string(), &"T1".to_string(), &amount_args("5")).unwrap();
    let balances = l.find_balances_for_account(&A1.to_string()).unwrap();
    assert_eq!(balances.len(), 1);
    assert_eq!(balances[0].journal_id, J1);
    assert_eq!(balances[0].currency, "USD");
    assert_eq!(balances[0].values().settled, "5");
    let none = l
        .find_balances_for_account(&"00000000-0000-4000-8000-0000000000ff".to_string())
        .unwrap();
    assert!(none.is_empty());
}

#[test]
fn entry_pagination_completeness() {
    let mut l = ledger_with_template();
    l.post(&TX1.to_string(), &"T1".to_string(), &amount_args("5")).unwrap();
    l.post(&TX2.to_string(), &"T1".to_string(), &amount_args("7")).unwrap();
    let full = l
        .list_entries_for_journal_id(&J1.to_string(), ListDirection::Ascending)
        .unwrap();
    assert_eq!(full.len(), 4);

    let mut seen: Vec<(String, u32)> = Vec::new();
    let mut after: Option<ledger_core::cursor::CursorToken> = None;
    let mut pages = 0;
    loop {
        let page = l
            .list_entries_page_for_journal_id(
                &J1.to_string(),
                after.as_ref(),
                3,
                ListDirection::Ascending,
            )
            .unwrap();
        for e in &page.entries {
            seen.push((e.transaction_id.clone(), e.sequence));
        }
        pages += 1;
        assert!(pages < 10, "pagination must terminate");
        if !page.has_next_page {
            break;
        }
        after = page.end_cursor;
    }
    assert_eq!(pages, 2);
    let expected: Vec<(String, u32)> = full
        .iter()
        .map(|e| (e.transaction_id.clone(), e.sequence))
        .collect();
    assert_eq!(seen, expected);
}

#[test]
fn entry_page_rejects_foreign_cursor() {
    let l = ledger_with_template();
    // An accounts cursor is a foreign token for the entry collection.
    let foreign = ledger_core::cursor::encode_account_cursor(&"code-01".to_string());
    let r = l.list_entries_page_for_journal_id(
        &J1.to_string(),
        Some(&foreign),
        3,
        ListDirection::Ascending,
    );
    assert!(matches!(r, Err(LedgerError::DecodeError)));
}

#[test]
fn find_balance_rejects_malformed_currency() {
    let mut l = ledger_with_template();
    l.post(&TX1.to_string(), &"T1".to_string(), &amount_args("5")).unwrap();
    let r = l.find_balance(&J1.to_string(), &A1.to_string(), &"not a code".to_string());
    assert!(matches!(r, Err(LedgerError::Validation { .. })));
    let missing = l.find_balance(&J1.to_string(), &A1.to_string(), &"EUR".to_string());
    assert!(matches!(missing, Err(LedgerError::BalanceNotFound { .. })));
}

#[test]
fn template_listing_pages_through_all() {
    let mut l = Ledger::new();
    l.create_journal(new_journal("mainbook12345678")).unwrap();
    l.create_account(new_account(A1, "assets")).unwrap();
    l.create_account(new_account(A2, "liabilities")).unwrap();
    for n in 1..=3u32 {
        let mut t = amount_template();
        t.id = Some(format!("00000000-0000-4000-8000-0000000000f{}", n));
        t.code = format!("T{}", n);
        l.create_tx_template(t).unwrap();
    }
    let mut seen: Vec<String> = Vec::new();
    let mut after: Option<ledger_core::cursor::CursorToken> = None;
    let mut pages = 0;
    loop {
        let page = l.list_tx_templates(after.as_ref(), 2).unwrap();
        for t in &page.tx_templates {
            assert_eq!(t.version, 1);
            seen.push(t.code.clone());
        }
        pages += 1;
        assert!(pages < 10);
        if !page.has_next_page {
            break;
        }
        after = page.end_cursor;
    }
    assert_eq!(seen, vec!["T1", "T2", "T3"]);
}
