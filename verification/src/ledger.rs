//! The ledger: event-sourced entity stores, the transaction poster, the
//! balance projector and the transactional outbox.
//!
//! Every mutation appends one change event to the outbox in the same call
//! that performs it, bumps the touched aggregate's version by exactly one,
//! and preserves the ledger invariant [`Ledger::wf`]: unique identities and
//! codes, per-transaction strictly increasing entry sequences, balanced
//! persisted transactions, and balances that are exactly the signed sums
//! of the persisted entries.

use crate::decimal::Dec;
use crate::expand::{expand, spec_expand_ok, DraftTransaction};
use crate::params::{spec_bind_one, ParamArg};
use crate::template::{validate_template, NewTxTemplateValues, TxTemplateRecord};
use crate::types::{lemma_canonical_idempotent, parse_id, spec_canonical_uuid,
    spec_is_canonical_uuid, spec_is_uuid, DateVal, Direction, Layer, LedgerError};
use vstd::prelude::*;

verus! {

/// A stored account.
pub struct AccountRecord {
    pub id: String,
    pub code: String,
    pub name: String,
    pub external_id: Option<String>,
    pub description: Option<String>,
    pub metadata: Option<String>,
    pub version: u32,
}

/// A stored journal.
pub struct JournalRecord {
    pub id: String,
    pub code: String,
    pub name: String,
    pub description: Option<String>,
    pub metadata: Option<String>,
    pub version: u32,
}

/// A new account, as supplied by a caller.
pub struct NewAccount {
    pub id: Option<String>,
    pub code: String,
    pub name: String,
    pub external_id: Option<String>,
    pub description: Option<String>,
    pub metadata: Option<String>,
}

/// A new journal, as supplied by a caller.
pub struct NewJournal {
    pub id: Option<String>,
    pub code: String,
    pub name: String,
    pub description: Option<String>,
    pub metadata: Option<String>,
}

/// A stored transaction header.
pub struct TransactionRecord {
    pub id: String,
    pub tx_template_id: String,
    pub effective: DateVal,
    pub journal_id: String,
    pub correlation_id: Option<String>,
    pub external_id: Option<String>,
    pub description: Option<String>,
    pub metadata: Option<String>,
    /// The transaction this one reverses, where it was created by `void`.
    pub void_of: Option<String>,
    pub version: u32,
}

/// A stored, immutable entry.  An entry is identified by its transaction
/// and its sequence number within it.
pub struct EntryRecord {
    pub transaction_id: String,
    pub journal_id: String,
    pub account_id: String,
    pub entry_type: String,
    pub sequence: u32,
    pub layer: Layer,
    pub units: Dec,
    pub currency: String,
    pub direction: Direction,
    pub description: Option<String>,
    pub metadata: Option<String>,
    pub version: u32,
}

/// A running balance for one (journal, account, currency) key.
pub struct BalanceRecord {
    pub journal_id: String,
    pub account_id: String,
    pub currency: String,
    pub pending: Dec,
    pub settled: Dec,
    pub encumbrance: Dec,
}

/// The kind of entity a change event is about.
#[derive(Clone, Copy, Debug, PartialEq, Eq, Structural)]
pub enum EntityKind {
    AccountEntity,
    JournalEntity,
    TxTemplateEntity,
    TransactionEntity,
    EntryEntity,
    BalanceEntity,
}

/// What happened to the entity.
#[derive(Clone, Copy, Debug, PartialEq, Eq, Structural)]
pub enum ChangeAction {
    Created,
    Updated,
}

/// One durable, ordered change event.
pub struct OutboxEvent {
    pub sequence: usize,
    pub entity: EntityKind,
    pub entity_id: String,
    pub action: ChangeAction,
}

/// The ledger state: the system of record.
pub struct Ledger {
    pub accounts: Vec<AccountRecord>,
    pub journals: Vec<JournalRecord>,
    pub templates: Vec<TxTemplateRecord>,
    pub transactions: Vec<TransactionRecord>,
    pub entries: Vec<EntryRecord>,
    pub outbox: Vec<OutboxEvent>,
}

/// The signed contribution of one entry to the balance of a
/// (journal, account, currency, layer) key: debit positive, credit
/// negative, zero for another key.
pub open spec fn entry_contribution(
    e: EntryRecord,
    j: Seq<char>,
    a: Seq<char>,
    c: Seq<char>,
    l: Layer,
) -> int {
    if e.journal_id@ == j && e.account_id@ == a && e.currency@ == c && e.layer == l {
        if e.direction is Debit {
            e.units.val()
        } else {
            -e.units.val()
        }
    } else {
        0
    }
}

/// The signed sum of all entries for one balance key: what the balance
/// projector must equal.
pub open spec fn entries_sum(
    es: Seq<EntryRecord>,
    j: Seq<char>,
    a: Seq<char>,
    c: Seq<char>,
    l: Layer,
) -> int
    decreases es.len(),
{
    if es.len() == 0 {
        0
    } else {
        entries_sum(es.drop_last(), j, a, c, l) + entry_contribution(es.last(), j, a, c, l)
    }
}

impl EntryRecord {
    /// Structural validity of a stored entry.
    pub open spec fn wf(self) -> bool {
        &&& spec_is_canonical_uuid(self.transaction_id@)
        &&& spec_is_canonical_uuid(self.journal_id@)
        &&& spec_is_canonical_uuid(self.account_id@)
        &&& self.units.wf()
        &&& crate::types::spec_is_currency(self.currency@)
    }
}

/// A balance, rendered for the boundary: one decimal string per layer.
pub struct BalanceValues {
    pub pending: String,
    pub settled: String,
    pub encumbrance: String,
}

impl BalanceRecord {
    /// Render the three running totals as decimal text.
    pub fn values(&self) -> (r: BalanceValues)
        requires
            self.wf(),
        ensures
            r.pending@ == crate::decimal::spec_decimal_string(
                self.pending.mantissa,
                self.pending.scale,
            ),
            r.settled@ == crate::decimal::spec_decimal_string(
                self.settled.mantissa,
                self.settled.scale,
            ),
            r.encumbrance@ == crate::decimal::spec_decimal_string(
                self.encumbrance.mantissa,
                self.encumbrance.scale,
            ),
    {
        BalanceValues {
            pending: crate::decimal::decimal_to_string(&self.pending),
            settled: crate::decimal::decimal_to_string(&self.settled),
            encumbrance: crate::decimal::decimal_to_string(&self.encumbrance),
        }
    }
}

impl BalanceRecord {
    /// This record projects the entry log exactly, layer by layer.
    pub open spec fn consistent_with(self, es: Seq<EntryRecord>) -> bool {
        &&& self.pending.val() == entries_sum(es, self.journal_id@, self.account_id@, self.currency@, Layer::Pending)
        &&& self.settled.val() == entries_sum(es, self.journal_id@, self.account_id@, self.currency@, Layer::Settled)
        &&& self.encumbrance.val() == entries_sum(es, self.journal_id@, self.account_id@, self.currency@, Layer::Encumbrance)
    }

    /// Structural validity.
    pub open spec fn wf(self) -> bool {
        self.pending.wf() && self.settled.wf() && self.encumbrance.wf()
    }
}

impl Ledger {
    /// The empty ledger.
    pub fn new() -> (r: Ledger)
        ensures
            r.wf(),
            r.accounts@.len() == 0,
            r.journals@.len() == 0,
            r.templates@.len() == 0,
            r.transactions@.len() == 0,
            r.entries@.len() == 0,
            r.outbox@.len() == 0,
    {
        Ledger {
            accounts: Vec::new(),
            journals: Vec::new(),
            templates: Vec::new(),
            transactions: Vec::new(),
            entries: Vec::new(),
            outbox: Vec::new(),
        }
    }

    /// The ledger invariant.
    pub open spec fn wf(self) -> bool {
        &&& accounts_ok(self.accounts@)
        &&& journals_ok(self.journals@)
        &&& templates_ok(self.templates@)
        &&& transactions_ok(self.transactions@)
        &&& entries_ok(self.entries@)
        &&& entries_linked(self.entries@, self.transactions@)
        &&& outbox_ok(self.outbox@)
    }
}

/// Accounts: canonical unique identities, non-empty unique codes, unique
/// external identifiers.
pub open spec fn accounts_ok(accs: Seq<AccountRecord>) -> bool {
    &&& forall|i: int|
        0 <= i < accs.len() ==> spec_is_canonical_uuid((#[trigger] accs[i]).id@) && accs[i].code@.len() > 0
    &&& forall|i: int, j: int|
        0 <= i < j < accs.len() ==> (#[trigger] accs[i]).id@ != (#[trigger] accs[j]).id@
            && accs[i].code@ != accs[j].code@ && (match (accs[i].external_id, accs[j].external_id) {
            (Some(a), Some(b)) => a@ != b@,
            _ => true,
        })
}

/// Journals: the same shape as accounts.
pub open spec fn journals_ok(js: Seq<JournalRecord>) -> bool {
    &&& forall|i: int|
        0 <= i < js.len() ==> spec_is_canonical_uuid((#[trigger] js[i]).id@) && js[i].code@.len() > 0
    &&& forall|i: int, j: int|
        0 <= i < j < js.len() ==> (#[trigger] js[i]).id@ != (#[trigger] js[j]).id@ && js[i].code@
            != js[j].code@
}

/// Templates: validated, with canonical unique identities and unique codes.
pub open spec fn templates_ok(ts: Seq<TxTemplateRecord>) -> bool {
    &&& forall|i: int|
        0 <= i < ts.len() ==> (#[trigger] ts[i]).wf() && spec_is_canonical_uuid(ts[i].id@)
    &&& forall|i: int, j: int|
        0 <= i < j < ts.len() ==> (#[trigger] ts[i]).id@ != (#[trigger] ts[j]).id@ && ts[i].code@
            != ts[j].code@
}

/// Transactions: canonical unique identities, unique external identifiers.
pub open spec fn transactions_ok(txs: Seq<TransactionRecord>) -> bool {
    &&& forall|i: int| 0 <= i < txs.len() ==> spec_is_canonical_uuid((#[trigger] txs[i]).id@)
    &&& forall|i: int, j: int|
        0 <= i < j < txs.len() ==> (#[trigger] txs[i]).id@ != (#[trigger] txs[j]).id@ && (match (
            txs[i].external_id,
            txs[j].external_id,
        ) {
            (Some(a), Some(b)) => a@ != b@,
            _ => true,
        })
}

/// Entries: structurally valid, and sequences strictly increasing within
/// one transaction in log order.
pub open spec fn entries_ok(es: Seq<EntryRecord>) -> bool {
    &&& forall|i: int| 0 <= i < es.len() ==> (#[trigger] es[i]).wf()
    &&& forall|i: int, j: int|
        0 <= i < j < es.len() && (#[trigger] es[i]).transaction_id@ == (
        #[trigger] es[j]).transaction_id@ ==> es[i].sequence < es[j].sequence
}

/// Every entry belongs to a stored transaction.
pub open spec fn entries_linked(es: Seq<EntryRecord>, txs: Seq<TransactionRecord>) -> bool {
    forall|k: int|
        0 <= k < es.len() ==> exists|t: int|
            0 <= t < txs.len() && (#[trigger] txs[t]).id@ == (#[trigger] es[k]).transaction_id@
}

/// The outbox is dense: event `i` carries sequence `i`.
pub open spec fn outbox_ok(ob: Seq<OutboxEvent>) -> bool {
    forall|i: int| 0 <= i < ob.len() ==> (#[trigger] ob[i]).sequence == i
}

/// The first account with this code, if any.
pub open spec fn spec_account_by_code(accs: Seq<AccountRecord>, code: Seq<char>) -> Option<
    AccountRecord,
>
    decreases accs.len(),
{
    if accs.len() == 0 {
        None
    } else if accs[0].code@ == code {
        Some(accs[0])
    } else {
        spec_account_by_code(accs.drop_first(), code)
    }
}

/// The first journal with this code, if any.
pub open spec fn spec_journal_by_code(js: Seq<JournalRecord>, code: Seq<char>) -> Option<
    JournalRecord,
>
    decreases js.len(),
{
    if js.len() == 0 {
        None
    } else if js[0].code@ == code {
        Some(js[0])
    } else {
        spec_journal_by_code(js.drop_first(), code)
    }
}

/// The first template with this code, if any.
pub open spec fn spec_template_by_code(ts: Seq<TxTemplateRecord>, code: Seq<char>) -> Option<
    TxTemplateRecord,
>
    decreases ts.len(),
{
    if ts.len() == 0 {
        None
    } else if ts[0].code@ == code {
        Some(ts[0])
    } else {
        spec_template_by_code(ts.drop_first(), code)
    }
}

impl Ledger {
    /// Append one change event, in the same call as the mutation it
    /// describes.
    fn emit(&mut self, entity: EntityKind, entity_id: String, action: ChangeAction)
        requires
            outbox_ok(old(self).outbox@),
        ensures
            final(self).outbox@ == old(self).outbox@.push(
                OutboxEvent {
                    sequence: old(self).outbox@.len() as usize,
                    entity,
                    entity_id,
                    action,
                },
            ),
            outbox_ok(final(self).outbox@),
            final(self).accounts == old(self).accounts,
            final(self).journals == old(self).journals,
            final(self).templates == old(self).templates,
            final(self).transactions == old(self).transactions,
            final(self).entries == old(self).entries,
    {
        let seq_no = self.outbox.len();
        self.outbox.push(OutboxEvent { sequence: seq_no, entity, entity_id, action });
    }

    /// Index of the account with this identifier.
    fn account_idx_by_id(&self, id: &String) -> (r: Option<usize>)
        ensures
            match r {
                Some(k) => 0 <= k < self.accounts@.len() && self.accounts@[k as int].id@ == id@,
                None => forall|i: int|
                    0 <= i < self.accounts@.len() ==> (#[trigger] self.accounts@[i]).id@ != id@,
            },
    {
        let mut i: usize = 0;
        while i < self.accounts.len()
            invariant
                0 <= i <= self.accounts@.len(),
                forall|j: int| 0 <= j < i ==> (#[trigger] self.accounts@[j]).id@ != id@,
            decreases self.accounts@.len() - i,
        {
            if self.accounts[i].id == *id {
                return Some(i);
            }
            i = i + 1;
        }
        None
    }

    /// Index of the account with this code.
    fn account_idx_by_code(&self, code: &String) -> (r: Option<usize>)
        ensures
            match r {
                Some(k) => 0 <= k < self.accounts@.len() && self.accounts@[k as int].code@ == code@
                    && spec_account_by_code(self.accounts@, code@) == Some(
                    self.accounts@[k as int],
                ),
                None => spec_account_by_code(self.accounts@, code@) is None && forall|i: int|
                    0 <= i < self.accounts@.len() ==> (#[trigger] self.accounts@[i]).code@ != code@,
            },
    {
        let mut i: usize = 0;
        proof {
            assert(self.accounts@.skip(0) =~= self.accounts@);
        }
        while i < self.accounts.len()
            invariant
                0 <= i <= self.accounts@.len(),
                forall|j: int| 0 <= j < i ==> (#[trigger] self.accounts@[j]).code@ != code@,
                spec_account_by_code(self.accounts@.skip(i as int), code@) == spec_account_by_code(
                    self.accounts@,
                    code@,
                ),
            decreases self.accounts@.len() - i,
        {
            proof {
                assert(self.accounts@.skip(i as int)[0] == self.accounts@[i as int]);
                assert(self.accounts@.skip(i as int).drop_first() =~= self.accounts@.skip(
                    i as int + 1,
                ));
            }
            if self.accounts[i].code == *code {
                return Some(i);
            }
            i = i + 1;
        }
        proof {
            assert(self.accounts@.skip(i as int).len() == 0);
        }
        None
    }

    /// Index of the account with this external identifier.
    fn account_idx_by_external(&self, external_id: &String) -> (r: Option<usize>)
        ensures
            match r {
                Some(k) => 0 <= k < self.accounts@.len() && (match self.accounts@[k as int].external_id {
                    Some(e) => e@ == external_id@,
                    None => false,
                }),
                None => forall|i: int|
                    0 <= i < self.accounts@.len() ==> (match (#[trigger] self.accounts@[i]).external_id {
                        Some(e) => e@ != external_id@,
                        None => true,
                    }),
            },
    {
        let mut i: usize = 0;
        while i < self.accounts.len()
            invariant
                0 <= i <= self.accounts@.len(),
                forall|j: int|
                    0 <= j < i ==> (match (#[trigger] self.accounts@[j]).external_id {
                        Some(e) => e@ != external_id@,
                        None => true,
                    }),
            decreases self.accounts@.len() - i,
        {
            match &self.accounts[i].external_id {
                Some(e) => {
                    if *e == *external_id {
                        return Some(i);
                    }
                },
                None => {},
            }
            i = i + 1;
        }
        None
    }

    /// Create an account.
    ///
    /// The caller may supply the identity (any well-formed hyphenated UUID,
    /// brought to canonical form) or leave it to the ledger, which derives
    /// a canonical one; on that path no success is owed, since any derived
    /// identifier may already be taken and the duplicate check decides.
    /// Succeeds with
    /// the index of the new record exactly when the identifier parses (where
    /// supplied), the code is non-empty, and identity, code and external
    /// identifier are not yet taken; the record then carries the given
    /// fields at version 1 and a `Created` event is appended.  Fails with
    /// `MalformedId` on an unparsable identifier, `Validation` naming
    /// `code` on an empty code, and `DuplicateId`, `DuplicateCode` or
    /// `DuplicateExternalId` carrying the taken key.
    pub fn create_account(&mut self, new: NewAccount) -> (r: Result<usize, LedgerError>)
        requires
            old(self).wf(),
        ensures
            final(self).wf(),
            match r {
                Ok(ix) => {
                    &&& ix == old(self).accounts@.len()
                    &&& final(self).accounts@.len() == old(self).accounts@.len() + 1
                    &&& final(self).accounts@.subrange(0, ix as int) == old(self).accounts@
                    &&& {
                        let a = final(self).accounts@[ix as int];
                        &&& a.code@ == new.code@
                        &&& a.name@ == new.name@
                        &&& a.version == 1
                        &&& (match new.id {
                            Some(given) => a.id@ == spec_canonical_uuid(given@),
                            None => spec_is_canonical_uuid(a.id@),
                        })
                        &&& (match (new.external_id, a.external_id) {
                            (Some(x), Some(y)) => x@ == y@,
                            (None, None) => true,
                            _ => false,
                        })
                        &&& (match (new.description, a.description) {
                            (Some(x), Some(y)) => x@ == y@,
                            (None, None) => true,
                            _ => false,
                        })
                        &&& (match (new.metadata, a.metadata) {
                            (Some(x), Some(y)) => x@ == y@,
                            (None, None) => true,
                            _ => false,
                        })
                        &&& spec_account_by_code(final(self).accounts@, new.code@) == Some(a)
                    }
                    &&& final(self).outbox@.len() == old(self).outbox@.len() + 1
                    &&& final(self).journals == old(self).journals
                    &&& final(self).templates == old(self).templates
                    &&& final(self).transactions == old(self).transactions
                    &&& final(self).entries == old(self).entries
                },
                Err(e) => {
                    &&& *final(self) == *old(self)
                    &&& (match e {
                        LedgerError::MalformedId { text } => new.id matches Some(g) && text@ == g@
                            && !spec_is_uuid(g@),
                        LedgerError::Validation { field } => field@ == "code"@ && new.code@.len()
                            == 0,
                        LedgerError::DuplicateId { id } => (match new.id {
                            Some(g) => id@ == spec_canonical_uuid(g@),
                            None => spec_is_canonical_uuid(id@),
                        }) && exists|i: int|
                            0 <= i < old(self).accounts@.len() && (#[trigger] old(
                                self,
                            ).accounts@[i]).id@ == id@,
                        LedgerError::DuplicateCode { code } => code@ == new.code@ && exists|i: int|
                            0 <= i < old(self).accounts@.len() && (#[trigger] old(
                                self,
                            ).accounts@[i]).code@ == new.code@,
                        LedgerError::DuplicateExternalId { external_id } => (match new.external_id {
                            Some(x) => external_id@ == x@,
                            None => false,
                        }) && exists|i: int|
                            0 <= i < old(self).accounts@.len() && (match (#[trigger] old(
                                self,
                            ).accounts@[i]).external_id {
                                Some(x) => x@ == external_id@,
                                None => false,
                            }),
                        _ => false,
                    })
                },
            },
            // Success is owed whenever a supplied identifier parses, the
            // code is non-empty, and no uniqueness rule is broken.
            (new.id matches Some(g) && spec_is_uuid(g@) && new.code@.len() > 0 && (forall|i: int|
                0 <= i < old(self).accounts@.len() ==> (#[trigger] old(self).accounts@[i]).id@
                    != spec_canonical_uuid(g@) && old(self).accounts@[i].code@ != new.code@ && (
                match (old(self).accounts@[i].external_id, new.external_id) {
                    (Some(x), Some(y)) => x@ != y@,
                    _ => true,
                }))) ==> r is Ok,
    {
        let NewAccount { id, code, name, external_id, description, metadata } = new;
        let id = match id {
            Some(given) => {
                match parse_id(&given) {
                    Ok(c) => c,
                    Err(e) => {
                        return Err(e);
                    },
                }
            },
            None => self.generate_id(),
        };
        if code.as_str().unicode_len() == 0 {
            return Err(LedgerError::Validation { field: String::from_str("code") });
        }
        if let Some(_) = self.account_idx_by_id(&id) {
            return Err(LedgerError::DuplicateId { id });
        }
        if let Some(_) = self.account_idx_by_code(&code) {
            return Err(LedgerError::DuplicateCode { code });
        }
        if let Some(x) = &external_id {
            if let Some(_) = self.account_idx_by_external(x) {
                return Err(LedgerError::DuplicateExternalId { external_id: x.clone() });
            }
        }
        let ix = self.accounts.len();
        let event_id = id.clone();
        let record = AccountRecord {
            id,
            code,
            name,
            external_id,
            description,
            metadata,
            version: 1,
        };
        self.accounts.push(record);
        proof {
            let accs = self.accounts@;
            let olds = old(self).accounts@;
            assert forall|i: int| 0 <= i < accs.len() implies spec_is_canonical_uuid(
                (#[trigger] accs[i]).id@,
            ) && accs[i].code@.len() > 0 by {
                if i < olds.len() {
                    assert(accs[i] == olds[i]);
                }
            }
            assert forall|i: int, j: int| 0 <= i < j < accs.len() implies (#[trigger] accs[i]).id@
                != (#[trigger] accs[j]).id@ && accs[i].code@ != accs[j].code@ && (match (
                accs[i].external_id,
                accs[j].external_id,
            ) {
                (Some(a), Some(b)) => a@ != b@,
                _ => true,
            }) by {
                if j < olds.len() {
                    assert(olds[i].id@ != olds[j].id@);
                } else {
                    assert(accs[i] == olds[i]);
                }
            }
            assert(accounts_ok(self.accounts@));
        }
        self.emit(EntityKind::AccountEntity, event_id, ChangeAction::Created);
        proof {
            assert(final(self).accounts@.subrange(0, ix as int) =~= old(self).accounts@);
            lemma_pushed_code_found(old(self).accounts@, final(self).accounts@[ix as int]);
        }
        Ok(ix)
    }

    /// A fresh identifier in canonical form, derived from the number of
    /// accounts, journals, templates and transactions ever created.  The
    /// caller still checks it against the store: uniqueness is enforced by
    /// the duplicate checks, never assumed.
    fn generate_id(&self) -> (r: String)
        ensures
            spec_is_canonical_uuid(r@),
    {
        let tag: usize = self.outbox.len();
        counter_uuid(tag as u64)
    }

    /// Find an account by identifier.  `Ok` exactly when an account with
    /// the (canonicalised) identifier exists; `MalformedId` on an
    /// unparsable identifier, else `CouldNotFindById` carrying it.
    pub fn find_account_by_id(&self, id: &String) -> (r: Result<&AccountRecord, LedgerError>)
        ensures
            match r {
                Ok(a) => exists|i: int|
                    0 <= i < self.accounts@.len() && #[trigger] self.accounts@[i] == *a && a.id@
                        == spec_canonical_uuid(id@),
                Err(e) => match e {
                    LedgerError::MalformedId { text } => text@ == id@ && !spec_is_uuid(id@),
                    LedgerError::CouldNotFindById { id: k } => k@ == spec_canonical_uuid(id@)
                        && spec_is_uuid(id@) && forall|i: int|
                        0 <= i < self.accounts@.len() ==> (#[trigger] self.accounts@[i]).id@
                            != spec_canonical_uuid(id@),
                    _ => false,
                },
            },
    {
        let canonical = match parse_id(id) {
            Ok(c) => c,
            Err(e) => {
                return Err(e);
            },
        };
        match self.account_idx_by_id(&canonical) {
            Some(k) => Ok(&self.accounts[k]),
            None => Err(LedgerError::CouldNotFindById { id: canonical }),
        }
    }

    /// Find an account by code.  `Ok` exactly when an account with this
    /// code exists — it is then the first (and, by uniqueness, only) such
    /// record; else `CouldNotFindByCode` carrying the code.
    pub fn find_account_by_code(&self, code: &String) -> (r: Result<&AccountRecord, LedgerError>)
        ensures
            match r {
                Ok(a) => spec_account_by_code(self.accounts@, code@) == Some(*a),
                Err(e) => e matches LedgerError::CouldNotFindByCode { code: c } && c@ == code@
                    && spec_account_by_code(self.accounts@, code@) is None,
            },
    {
        match self.account_idx_by_code(code) {
            Some(k) => Ok(&self.accounts[k]),
            None => Err(LedgerError::CouldNotFindByCode { code: code.clone() }),
        }
    }

    /// Find an account by external identifier.  `Ok` exactly when an
    /// account carries it; else `CouldNotFindByExternalId` carrying the
    /// key.
    pub fn find_account_by_external_id(&self, external_id: &String) -> (r: Result<
        &AccountRecord,
        LedgerError,
    >)
        ensures
            match r {
                Ok(a) => (exists|i: int|
                    0 <= i < self.accounts@.len() && #[trigger] self.accounts@[i] == *a) && (
                match a.external_id {
                    Some(x) => x@ == external_id@,
                    None => false,
                }),
                Err(e) => e matches LedgerError::CouldNotFindByExternalId { external_id: x } && x@
                    == external_id@ && forall|i: int|
                    0 <= i < self.accounts@.len() ==> (match (#[trigger] self.accounts@[i]).external_id {
                        Some(y) => y@ != external_id@,
                        None => true,
                    }),
            },
    {
        match self.account_idx_by_external(external_id) {
            Some(k) => Ok(&self.accounts[k]),
            None => Err(
                LedgerError::CouldNotFindByExternalId { external_id: external_id.clone() },
            ),
        }
    }

    /// Update an account's mutable fields (name, description, metadata)
    /// under optimistic concurrency.
    ///
    /// The caller cites the version it read.  Succeeds exactly when the
    /// account exists and the cited version is the persisted one (and the
    /// version counter is not exhausted): the fields are replaced, the
    /// version advances by exactly one, and an `Updated` event is
    /// appended.  A write against any other version fails with
    /// `StaleVersion` carrying both versions, and changes nothing.
    pub fn update_account(
        &mut self,
        account_id: &String,
        expected_version: u32,
        name: String,
        description: Option<String>,
        metadata: Option<String>,
    ) -> (r: Result<(), LedgerError>)
        requires
            old(self).wf(),
        ensures
            final(self).wf(),
            match r {
                Ok(()) => exists|i: int|
                    {
                        &&& 0 <= i < old(self).accounts@.len()
                        &&& (#[trigger] old(self).accounts@[i]).id@ == spec_canonical_uuid(
                            account_id@,
                        )
                        &&& old(self).accounts@[i].version == expected_version
                        &&& expected_version < 0xffffffffu32
                        &&& final(self).accounts@ == old(self).accounts@.update(
                            i,
                            AccountRecord {
                                id: old(self).accounts@[i].id,
                                code: old(self).accounts@[i].code,
                                external_id: old(self).accounts@[i].external_id,
                                name,
                                description,
                                metadata,
                                version: (expected_version + 1) as u32,
                            },
                        )
                        &&& final(self).outbox@.len() == old(self).outbox@.len() + 1
                        &&& final(self).journals == old(self).journals
                        &&& final(self).templates == old(self).templates
                        &&& final(self).transactions == old(self).transactions
                        &&& final(self).entries == old(self).entries
                    },
                Err(e) => {
                    &&& *final(self) == *old(self)
                    &&& (match e {
                        LedgerError::MalformedId { text } => text@ == account_id@ && !spec_is_uuid(
                            account_id@,
                        ),
                        LedgerError::CouldNotFindById { id } => id@ == spec_canonical_uuid(
                            account_id@,
                        ) && forall|i: int|
                            0 <= i < old(self).accounts@.len() ==> (#[trigger] old(
                                self,
                            ).accounts@[i]).id@ != spec_canonical_uuid(account_id@),
                        LedgerError::StaleVersion { expected, actual } => expected
                            == expected_version && expected != actual && exists|i: int|
                            0 <= i < old(self).accounts@.len() && (#[trigger] old(
                                self,
                            ).accounts@[i]).id@ == spec_canonical_uuid(account_id@) && old(
                            self,
                        ).accounts@[i].version == actual,
                        LedgerError::StorageFailure => expected_version == 0xffffffffu32,
                        _ => false,
                    })
                },
            },
            (spec_is_uuid(account_id@) && expected_version < 0xffffffffu32 && exists|i: int|
                0 <= i < old(self).accounts@.len() && (#[trigger] old(self).accounts@[i]).id@
                    == spec_canonical_uuid(account_id@) && old(self).accounts@[i].version
                    == expected_version) ==> r is Ok,
    {
        let canonical = match parse_id(account_id) {
            Ok(c) => c,
            Err(e) => {
                return Err(e);
            },
        };
        let k = match self.account_idx_by_id(&canonical) {
            Some(k) => k,
            None => {
                return Err(LedgerError::CouldNotFindById { id: canonical });
            },
        };
        let actual = self.accounts[k].version;
        if actual != expected_version {
            return Err(LedgerError::StaleVersion { expected: expected_version, actual });
        }
        if expected_version == u32::MAX {
            return Err(LedgerError::StorageFailure);
        }
        let old_rec = &self.accounts[k];
        let updated = AccountRecord {
            id: old_rec.id.clone(),
            code: old_rec.code.clone(),
            external_id: match &old_rec.external_id {
                Some(x) => Some(x.clone()),
                None => None,
            },
            name,
            description,
            metadata,
            version: expected_version + 1,
        };
        let event_id = updated.id.clone();
        self.accounts.set(k, updated);
        proof {
            let accs = self.accounts@;
            let olds = old(self).accounts@;
            assert(accs[k as int].id == olds[k as int].id);
            assert(accs[k as int].code == olds[k as int].code);
            assert(accs[k as int].external_id == olds[k as int].external_id);
            assert forall|i: int| 0 <= i < accs.len() implies spec_is_canonical_uuid(
                (#[trigger] accs[i]).id@,
            ) && accs[i].code@.len() > 0 by {
                if i != k {
                    assert(accs[i] == olds[i]);
                }
            }
            assert forall|i: int, j: int| 0 <= i < j < accs.len() implies (#[trigger] accs[i]).id@
                != (#[trigger] accs[j]).id@ && accs[i].code@ != accs[j].code@ && (match (
                accs[i].external_id,
                accs[j].external_id,
            ) {
                (Some(a), Some(b)) => a@ != b@,
                _ => true,
            }) by {
                assert(olds[i].id@ != olds[j].id@ && olds[i].code@ != olds[j].code@ && (match (
                    olds[i].external_id,
                    olds[j].external_id,
                ) {
                    (Some(a), Some(b)) => a@ != b@,
                    _ => true,
                }));
                if i != k {
                    assert(accs[i] == olds[i]);
                }
                if j != k {
                    assert(accs[j] == olds[j]);
                }
            }
            assert(accounts_ok(self.accounts@));
        }
        self.emit(EntityKind::AccountEntity, event_id, ChangeAction::Updated);
        Ok(())
    }
}

impl Ledger {
    /// Index of the journal with this identifier.
    fn journal_idx_by_id(&self, id: &String) -> (r: Option<usize>)
        ensures
            match r {
                Some(k) => 0 <= k < self.journals@.len() && self.journals@[k as int].id@ == id@,
                None => forall|i: int|
                    0 <= i < self.journals@.len() ==> (#[trigger] self.journals@[i]).id@ != id@,
            },
    {
        let mut i: usize = 0;
        while i < self.journals.len()
            invariant
                0 <= i <= self.journals@.len(),
                forall|j: int| 0 <= j < i ==> (#[trigger] self.journals@[j]).id@ != id@,
            decreases self.journals@.len() - i,
        {
            if self.journals[i].id == *id {
                return Some(i);
            }
            i = i + 1;
        }
        None
    }

    /// Index of the journal with this code.
    fn journal_idx_by_code(&self, code: &String) -> (r: Option<usize>)
        ensures
            match r {
                Some(k) => 0 <= k < self.journals@.len() && self.journals@[k as int].code@ == code@
                    && spec_journal_by_code(self.journals@, code@) == Some(
                    self.journals@[k as int],
                ),
                None => spec_journal_by_code(self.journals@, code@) is None && forall|i: int|
                    0 <= i < self.journals@.len() ==> (#[trigger] self.journals@[i]).code@ != code@,
            },
    {
        let mut i: usize = 0;
        proof {
            assert(self.journals@.skip(0) =~= self.journals@);
        }
        while i < self.journals.len()
            invariant
                0 <= i <= self.journals@.len(),
                forall|j: int| 0 <= j < i ==> (#[trigger] self.journals@[j]).code@ != code@,
                spec_journal_by_code(self.journals@.skip(i as int), code@) == spec_journal_by_code(
                    self.journals@,
                    code@,
                ),
            decreases self.journals@.len() - i,
        {
            proof {
                assert(self.journals@.skip(i as int)[0] == self.journals@[i as int]);
                assert(self.journals@.skip(i as int).drop_first() =~= self.journals@.skip(
                    i as int + 1,
                ));
            }
            if self.journals[i].code == *code {
                return Some(i);
            }
            i = i + 1;
        }
        proof {
            assert(self.journals@.skip(i as int).len() == 0);
        }
        None
    }

    /// Create a journal, as [`Ledger::create_account`] creates an account:
    /// the same identifier, code and uniqueness rules, the same `Created`
    /// event, success owed under the same conditions.
    pub fn create_journal(&mut self, new: NewJournal) -> (r: Result<usize, LedgerError>)
        requires
            old(self).wf(),
        ensures
            final(self).wf(),
            match r {
                Ok(ix) => {
                    &&& ix == old(self).journals@.len()
                    &&& final(self).journals@.len() == old(self).journals@.len() + 1
                    &&& final(self).journals@.subrange(0, ix as int) == old(self).journals@
                    &&& {
                        let a = final(self).journals@[ix as int];
                        &&& a.code@ == new.code@
                        &&& a.name@ == new.name@
                        &&& a.version == 1
                        &&& (match new.id {
                            Some(given) => a.id@ == spec_canonical_uuid(given@),
                            None => spec_is_canonical_uuid(a.id@),
                        })
                        &&& (match (new.description, a.description) {
                            (Some(x), Some(y)) => x@ == y@,
                            (None, None) => true,
                            _ => false,
                        })
                        &&& (match (new.metadata, a.metadata) {
                            (Some(x), Some(y)) => x@ == y@,
                            (None, None) => true,
                            _ => false,
                        })
                        &&& spec_journal_by_code(final(self).journals@, new.code@) == Some(a)
                    }
                    &&& final(self).outbox@.len() == old(self).outbox@.len() + 1
                    &&& final(self).accounts == old(self).accounts
                    &&& final(self).templates == old(self).templates
                    &&& final(self).transactions == old(self).transactions
                    &&& final(self).entries == old(self).entries
                },
                Err(e) => {
                    &&& *final(self) == *old(self)
                    &&& (match e {
                        LedgerError::MalformedId { text } => new.id matches Some(g) && text@ == g@
                            && !spec_is_uuid(g@),
                        LedgerError::Validation { field } => field@ == "code"@ && new.code@.len()
                            == 0,
                        LedgerError::DuplicateId { id } => (match new.id {
                            Some(g) => id@ == spec_canonical_uuid(g@),
                            None => spec_is_canonical_uuid(id@),
                        }) && exists|i: int|
                            0 <= i < old(self).journals@.len() && (#[trigger] old(
                                self,
                            ).journals@[i]).id@ == id@,
                        LedgerError::DuplicateCode { code } => code@ == new.code@ && exists|i: int|
                            0 <= i < old(self).journals@.len() && (#[trigger] old(
                                self,
                            ).journals@[i]).code@ == new.code@,
                        _ => false,
                    })
                },
            },
            (new.id matches Some(g) && spec_is_uuid(g@) && new.code@.len() > 0 && (forall|i: int|
                0 <= i < old(self).journals@.len() ==> (#[trigger] old(self).journals@[i]).id@
                    != spec_canonical_uuid(g@) && old(self).journals@[i].code@ != new.code@))
                ==> r is Ok,
    {
        let NewJournal { id, code, name, description, metadata } = new;
        let id = match id {
            Some(given) => {
                match parse_id(&given) {
                    Ok(c) => c,
                    Err(e) => {
                        return Err(e);
                    },
                }
            },
            None => self.generate_id(),
        };
        if code.as_str().unicode_len() == 0 {
            return Err(LedgerError::Validation { field: String::from_str("code") });
        }
        if let Some(_) = self.journal_idx_by_id(&id) {
            return Err(LedgerError::DuplicateId { id });
        }
        if let Some(_) = self.journal_idx_by_code(&code) {
            return Err(LedgerError::DuplicateCode { code });
        }
        let ix = self.journals.len();
        let event_id = id.clone();
        let record = JournalRecord { id, code, name, description, metadata, version: 1 };
        self.journals.push(record);
        proof {
            let js = self.journals@;
            let olds = old(self).journals@;
            assert forall|i: int| 0 <= i < js.len() implies spec_is_canonical_uuid(
                (#[trigger] js[i]).id@,
            ) && js[i].code@.len() > 0 by {
                if i < olds.len() {
                    assert(js[i] == olds[i]);
                }
            }
            assert forall|i: int, j: int| 0 <= i < j < js.len() implies (#[trigger] js[i]).id@
                != (#[trigger] js[j]).id@ && js[i].code@ != js[j].code@ by {
                if j < olds.len() {
                    assert(olds[i].id@ != olds[j].id@);
                } else {
                    assert(js[i] == olds[i]);
                }
            }
            assert(journals_ok(self.journals@));
        }
        self.emit(EntityKind::JournalEntity, event_id, ChangeAction::Created);
        proof {
            assert(final(self).journals@.subrange(0, ix as int) =~= old(self).journals@);
            lemma_pushed_journal_code_found(old(self).journals@, final(self).journals@[ix as int]);
        }
        Ok(ix)
    }

    /// Find a journal by identifier, as accounts are found by identifier.
    pub fn find_journal_by_id(&self, id: &String) -> (r: Result<&JournalRecord, LedgerError>)
        ensures
            match r {
                Ok(a) => exists|i: int|
                    0 <= i < self.journals@.len() && #[trigger] self.journals@[i] == *a && a.id@
                        == spec_canonical_uuid(id@),
                Err(e) => match e {
                    LedgerError::MalformedId { text } => text@ == id@ && !spec_is_uuid(id@),
                    LedgerError::CouldNotFindById { id: k } => k@ == spec_canonical_uuid(id@)
                        && spec_is_uuid(id@) && forall|i: int|
                        0 <= i < self.journals@.len() ==> (#[trigger] self.journals@[i]).id@
                            != spec_canonical_uuid(id@),
                    _ => false,
                },
            },
    {
        let canonical = match parse_id(id) {
            Ok(c) => c,
            Err(e) => {
                return Err(e);
            },
        };
        match self.journal_idx_by_id(&canonical) {
            Some(k) => Ok(&self.journals[k]),
            None => Err(LedgerError::CouldNotFindById { id: canonical }),
        }
    }

    /// Find a journal by code.  `Ok` exactly when a journal with this code
    /// exists; else `CouldNotFindByCode` carrying the code.
    pub fn find_journal_by_code(&self, code: &String) -> (r: Result<&JournalRecord, LedgerError>)
        ensures
            match r {
                Ok(a) => spec_journal_by_code(self.journals@, code@) == Some(*a),
                Err(e) => e matches LedgerError::CouldNotFindByCode { code: c } && c@ == code@
                    && spec_journal_by_code(self.journals@, code@) is None,
            },
    {
        match self.journal_idx_by_code(code) {
            Some(k) => Ok(&self.journals[k]),
            None => Err(LedgerError::CouldNotFindByCode { code: code.clone() }),
        }
    }

    /// Index of the template with this identifier.
    fn template_idx_by_id(&self, id: &String) -> (r: Option<usize>)
        ensures
            match r {
                Some(k) => 0 <= k < self.templates@.len() && self.templates@[k as int].id@ == id@,
                None => forall|i: int|
                    0 <= i < self.templates@.len() ==> (#[trigger] self.templates@[i]).id@ != id@,
            },
    {
        let mut i: usize = 0;
        while i < self.templates.len()
            invariant
                0 <= i <= self.templates@.len(),
                forall|j: int| 0 <= j < i ==> (#[trigger] self.templates@[j]).id@ != id@,
            decreases self.templates@.len() - i,
        {
            if self.templates[i].id == *id {
                return Some(i);
            }
            i = i + 1;
        }
        None
    }

    /// Index of the template with this code.
    fn template_idx_by_code(&self, code: &String) -> (r: Option<usize>)
        ensures
            match r {
                Some(k) => 0 <= k < self.templates@.len() && self.templates@[k as int].code@
                    == code@ && spec_template_by_code(self.templates@, code@) == Some(
                    self.templates@[k as int],
                ),
                None => spec_template_by_code(self.templates@, code@) is None && forall|i: int|
                    0 <= i < self.templates@.len() ==> (#[trigger] self.templates@[i]).code@
                        != code@,
            },
    {
        let mut i: usize = 0;
        proof {
            assert(self.templates@.skip(0) =~= self.templates@);
        }
        while i < self.templates.len()
            invariant
                0 <= i <= self.templates@.len(),
                forall|j: int| 0 <= j < i ==> (#[trigger] self.templates@[j]).code@ != code@,
                spec_template_by_code(self.templates@.skip(i as int), code@)
                    == spec_template_by_code(self.templates@, code@),
            decreases self.templates@.len() - i,
        {
            proof {
                assert(self.templates@.skip(i as int)[0] == self.templates@[i as int]);
                assert(self.templates@.skip(i as int).drop_first() =~= self.templates@.skip(
                    i as int + 1,
                ));
            }
            if self.templates[i].code == *code {
                return Some(i);
            }
            i = i + 1;
        }
        proof {
            assert(self.templates@.skip(i as int).len() == 0);
        }
        None
    }

    /// Create a transaction template: validate and compile the definition
    /// ([`validate_template`]), then store it under the same identifier,
    /// code and uniqueness rules as the other entities, with a `Created`
    /// event.
    pub fn create_tx_template(&mut self, new: NewTxTemplateValues) -> (r: Result<
        usize,
        LedgerError,
    >)
        requires
            old(self).wf(),
        ensures
            final(self).wf(),
            match r {
                Ok(ix) => {
                    &&& ix == old(self).templates@.len()
                    &&& final(self).templates@.len() == old(self).templates@.len() + 1
                    &&& final(self).templates@.subrange(0, ix as int) == old(self).templates@
                    &&& {
                        let t = final(self).templates@[ix as int];
                        &&& t.wf()
                        &&& t.code@ == new.code@
                        &&& t.version == 1
                        &&& t.entries@.len() == new.entries@.len()
                        &&& (match new.params {
                            Some(ps) => t.params@ == ps@,
                            None => t.params@.len() == 0,
                        })
                        &&& spec_template_by_code(final(self).templates@, new.code@) == Some(t)
                    }
                    &&& final(self).outbox@.len() == old(self).outbox@.len() + 1
                    &&& final(self).accounts == old(self).accounts
                    &&& final(self).journals == old(self).journals
                    &&& final(self).transactions == old(self).transactions
                    &&& final(self).entries == old(self).entries
                },
                Err(e) => {
                    &&& *final(self) == *old(self)
                    &&& (match e {
                        LedgerError::MalformedId { text } => new.id matches Some(g) && text@ == g@
                            && !spec_is_uuid(g@),
                        LedgerError::DuplicateId { id } => (match new.id {
                            Some(g) => id@ == spec_canonical_uuid(g@),
                            None => spec_is_canonical_uuid(id@),
                        }) && exists|i: int|
                            0 <= i < old(self).templates@.len() && (#[trigger] old(
                                self,
                            ).templates@[i]).id@ == id@,
                        LedgerError::DuplicateCode { code } => code@ == new.code@ && exists|i: int|
                            0 <= i < old(self).templates@.len() && (#[trigger] old(
                                self,
                            ).templates@[i]).code@ == new.code@,
                        LedgerError::Validation { field } => new.code@.len() == 0
                            || new.transaction is None,
                        LedgerError::DuplicateParamName { name } => crate::template::spec_params_dup(
                            new.params,
                            name@,
                        ),
                        LedgerError::MalformedExpression { field } => new.code@.len() > 0
                            && new.transaction is Some && crate::template::spec_params_unique(
                            new.params,
                        ),
                        LedgerError::UndeclaredParam { name } => new.code@.len() > 0
                            && new.transaction is Some && crate::template::spec_params_unique(
                            new.params,
                        ) && !crate::template::spec_params_declare(new.params, name@),
                        _ => false,
                    })
                },
            },
            // Success is owed whenever a supplied identifier parses and is
            // fresh, the code is fresh, and the definition is a simple
            // template (every field an atom of the grammar over uniquely
            // declared names).
            (crate::template::spec_simple_template(new) && (match new.id {
                Some(g) => spec_is_uuid(g@) && (forall|i: int|
                    0 <= i < old(self).templates@.len() ==> (#[trigger] old(
                        self,
                    ).templates@[i]).id@ != spec_canonical_uuid(g@)),
                None => false,
            }) && (forall|i: int|
                0 <= i < old(self).templates@.len() ==> (#[trigger] old(self).templates@[i]).code@
                    != new.code@)) ==> r is Ok,
    {
        let id = match &new.id {
            Some(given) => {
                match parse_id(given) {
                    Ok(c) => c,
                    Err(e) => {
                        return Err(e);
                    },
                }
            },
            None => self.generate_id(),
        };
        if let Some(_) = self.template_idx_by_id(&id) {
            return Err(LedgerError::DuplicateId { id });
        }
        if let Some(_) = self.template_idx_by_code(&new.code) {
            return Err(LedgerError::DuplicateCode { code: new.code.clone() });
        }
        let ghost new_code_view = new.code@;
        let record = match validate_template(id, new) {
            Ok(t) => t,
            Err(e) => {
                return Err(e);
            },
        };
        let ix = self.templates.len();
        let event_id = record.id.clone();
        self.templates.push(record);
        proof {
            let ts = self.templates@;
            let olds = old(self).templates@;
            assert forall|i: int| 0 <= i < ts.len() implies (#[trigger] ts[i]).wf()
                && spec_is_canonical_uuid(ts[i].id@) by {
                if i < olds.len() {
                    assert(ts[i] == olds[i]);
                }
            }
            assert forall|i: int, j: int| 0 <= i < j < ts.len() implies (#[trigger] ts[i]).id@
                != (#[trigger] ts[j]).id@ && ts[i].code@ != ts[j].code@ by {
                if j < olds.len() {
                    assert(olds[i].id@ != olds[j].id@);
                } else {
                    assert(ts[i] == olds[i]);
                }
            }
            assert(templates_ok(self.templates@));
        }
        self.emit(EntityKind::TxTemplateEntity, event_id, ChangeAction::Created);
        proof {
            assert(final(self).templates@.subrange(0, ix as int) =~= old(self).templates@);
            lemma_pushed_template_code_found(
                old(self).templates@,
                final(self).templates@[ix as int],
            );
        }
        Ok(ix)
    }

    /// Find a template by code.  `Ok` exactly when a template with this
    /// code exists; else `TemplateNotFound` carrying the code.
    pub fn find_tx_template_by_code(&self, code: &String) -> (r: Result<
        &TxTemplateRecord,
        LedgerError,
    >)
        ensures
            match r {
                Ok(t) => spec_template_by_code(self.templates@, code@) == Some(*t),
                Err(e) => e matches LedgerError::TemplateNotFound { code: c } && c@ == code@
                    && spec_template_by_code(self.templates@, code@) is None,
            },
    {
        match self.template_idx_by_code(code) {
            Some(k) => Ok(&self.templates[k]),
            None => Err(LedgerError::TemplateNotFound { code: code.clone() }),
        }
    }
}

/// The signed sum of a sequence of entries for one (currency, layer)
/// group, regardless of account: the per-transaction balance invariant
/// sums this to zero.
pub open spec fn tx_entries_sum(es: Seq<EntryRecord>, cur: Seq<char>, lay: Layer) -> int
    decreases es.len(),
{
    if es.len() == 0 {
        0
    } else {
        tx_entries_sum(es.drop_last(), cur, lay) + (if es.last().currency@ == cur && es.last().layer
            == lay {
            if es.last().direction is Debit {
                es.last().units.val()
            } else {
                -es.last().units.val()
            }
        } else {
            0
        })
    }
}

/// The journal the template's transaction shape denotes under these
/// arguments is stored.
pub open spec fn spec_draft_journal_found(
    js: Seq<JournalRecord>,
    tpl: TxTemplateRecord,
    args: Seq<ParamArg>,
) -> bool {
    match crate::expand::spec_uuid_of(
        crate::expr::spec_eval(
            tpl.transaction.journal_id,
            crate::expand::spec_bound_env(tpl.params@, args),
        ),
    ) {
        Some(jv) => exists|i: int| 0 <= i < js.len() && (#[trigger] js[i]).id@ == jv,
        None => false,
    }
}

/// Every account a template entry denotes under these arguments is stored.
pub open spec fn spec_draft_accounts_found(
    accs: Seq<AccountRecord>,
    tpl: TxTemplateRecord,
    args: Seq<ParamArg>,
) -> bool {
    forall|k: int|
        0 <= k < tpl.entries@.len() ==> (match crate::expand::spec_uuid_of(
            crate::expr::spec_eval(
                (#[trigger] tpl.entries@[k]).account_id,
                crate::expand::spec_bound_env(tpl.params@, args),
            ),
        ) {
            Some(av) => exists|i: int| 0 <= i < accs.len() && (#[trigger] accs[i]).id@ == av,
            None => false,
        })
}

/// The external identifier the template denotes under these arguments, if
/// any, is carried by no stored transaction.
pub open spec fn spec_draft_external_fresh(
    txs: Seq<TransactionRecord>,
    tpl: TxTemplateRecord,
    args: Seq<ParamArg>,
) -> bool {
    match tpl.transaction.external_id {
        Some(e) => match crate::expand::spec_str_of(
            crate::expr::spec_eval(e, crate::expand::spec_bound_env(tpl.params@, args)),
        ) {
            Some(x) => forall|i: int|
                0 <= i < txs.len() ==> (match (#[trigger] txs[i]).external_id {
                    Some(y) => y@ != x,
                    None => true,
                }),
            None => true,
        },
        None => true,
    }
}

/// The entries of one transaction, in log order.
pub open spec fn spec_tx_entries(es: Seq<EntryRecord>, txid: Seq<char>) -> Seq<EntryRecord>
    decreases es.len(),
{
    if es.len() == 0 {
        Seq::empty()
    } else if es.last().transaction_id@ == txid {
        spec_tx_entries(es.drop_last(), txid).push(es.last())
    } else {
        spec_tx_entries(es.drop_last(), txid)
    }
}

/// Entry records that mirror balance items groupwise have the same group
/// sums.
proof fn lemma_tx_sum_matches(
    records: Seq<EntryRecord>,
    items: Seq<crate::expand::GroupItem>,
    cur: Seq<char>,
    lay: Layer,
)
    requires
        records.len() == items.len(),
        forall|i: int|
            0 <= i < records.len() ==> (#[trigger] records[i]).currency@ == items[i].cur
                && records[i].layer == items[i].lay && records[i].direction == items[i].dir
                && records[i].units == items[i].units,
    ensures
        tx_entries_sum(records, cur, lay) == crate::expand::spec_group_sum(items, cur, lay),
    decreases records.len(),
{
    if records.len() > 0 {
        assert(records.drop_last() =~= records.subrange(0, records.len() - 1));
        assert(items.drop_last() =~= items.subrange(0, items.len() - 1));
        lemma_tx_sum_matches(records.drop_last(), items.drop_last(), cur, lay);
    }
}

/// The balance sum over concatenated logs is the sum of the parts.
pub proof fn lemma_entries_sum_append(
    es1: Seq<EntryRecord>,
    es2: Seq<EntryRecord>,
    j: Seq<char>,
    a: Seq<char>,
    c: Seq<char>,
    l: Layer,
)
    ensures
        entries_sum(es1 + es2, j, a, c, l) == entries_sum(es1, j, a, c, l) + entries_sum(
            es2,
            j,
            a,
            c,
            l,
        ),
    decreases es2.len(),
{
    if es2.len() == 0 {
        assert(es1 + es2 =~= es1);
    } else {
        assert((es1 + es2).drop_last() =~= es1 + es2.drop_last());
        assert((es1 + es2).last() == es2.last());
        lemma_entries_sum_append(es1, es2.drop_last(), j, a, c, l);
    }
}

/// Entries that reverse each other's direction, field for field, have
/// opposite balance sums.
pub proof fn lemma_entries_sum_negated(
    orig: Seq<EntryRecord>,
    rev: Seq<EntryRecord>,
    j: Seq<char>,
    a: Seq<char>,
    c: Seq<char>,
    l: Layer,
)
    requires
        orig.len() == rev.len(),
        forall|i: int|
            0 <= i < orig.len() ==> (#[trigger] rev[i]).journal_id@ == orig[i].journal_id@
                && rev[i].account_id@ == orig[i].account_id@ && rev[i].currency@
                == orig[i].currency@ && rev[i].layer == orig[i].layer && rev[i].units
                == orig[i].units && rev[i].direction == (match orig[i].direction {
                Direction::Debit => Direction::Credit,
                Direction::Credit => Direction::Debit,
            }),
    ensures
        entries_sum(rev, j, a, c, l) == -entries_sum(orig, j, a, c, l),
    decreases orig.len(),
{
    if orig.len() > 0 {
        assert(orig.drop_last() =~= orig.subrange(0, orig.len() - 1));
        assert(rev.drop_last() =~= rev.subrange(0, rev.len() - 1));
        lemma_entries_sum_negated(orig.drop_last(), rev.drop_last(), j, a, c, l);
    }
}

impl Ledger {
    /// Index of the transaction with this identifier.
    fn transaction_idx_by_id(&self, id: &String) -> (r: Option<usize>)
        ensures
            match r {
                Some(k) => 0 <= k < self.transactions@.len() && self.transactions@[k as int].id@
                    == id@,
                None => forall|i: int|
                    0 <= i < self.transactions@.len() ==> (#[trigger] self.transactions@[i]).id@
                        != id@,
            },
    {
        let mut i: usize = 0;
        while i < self.transactions.len()
            invariant
                0 <= i <= self.transactions@.len(),
                forall|j: int| 0 <= j < i ==> (#[trigger] self.transactions@[j]).id@ != id@,
            decreases self.transactions@.len() - i,
        {
            if self.transactions[i].id == *id {
                return Some(i);
            }
            i = i + 1;
        }
        None
    }

    /// Find a transaction by identifier.  `Ok` exactly when a transaction
    /// with the (canonicalised) identifier exists; `MalformedId` on an
    /// unparsable identifier, else `CouldNotFindById` carrying it.
    pub fn find_transaction_by_id(&self, id: &String) -> (r: Result<
        &TransactionRecord,
        LedgerError,
    >)
        ensures
            match r {
                Ok(t) => exists|i: int|
                    0 <= i < self.transactions@.len() && #[trigger] self.transactions@[i] == *t
                        && t.id@ == spec_canonical_uuid(id@),
                Err(e) => match e {
                    LedgerError::MalformedId { text } => text@ == id@ && !spec_is_uuid(id@),
                    LedgerError::CouldNotFindById { id: k } => k@ == spec_canonical_uuid(id@)
                        && spec_is_uuid(id@) && forall|i: int|
                        0 <= i < self.transactions@.len() ==> (#[trigger] self.transactions@[i]).id@
                            != spec_canonical_uuid(id@),
                    _ => false,
                },
            },
    {
        let canonical = match parse_id(id) {
            Ok(c) => c,
            Err(e) => {
                return Err(e);
            },
        };
        match self.transaction_idx_by_id(&canonical) {
            Some(k) => Ok(&self.transactions[k]),
            None => Err(LedgerError::CouldNotFindById { id: canonical }),
        }
    }

    /// Find a transaction by external identifier.
    pub fn find_transaction_by_external_id(&self, external_id: &String) -> (r: Result<
        &TransactionRecord,
        LedgerError,
    >)
        ensures
            match r {
                Ok(t) => (exists|i: int|
                    0 <= i < self.transactions@.len() && #[trigger] self.transactions@[i] == *t)
                    && (match t.external_id {
                    Some(x) => x@ == external_id@,
                    None => false,
                }),
                Err(e) => e matches LedgerError::CouldNotFindByExternalId { external_id: x } && x@
                    == external_id@ && forall|i: int|
                    0 <= i < self.transactions@.len() ==> (match (
                    #[trigger] self.transactions@[i]).external_id {
                        Some(y) => y@ != external_id@,
                        None => true,
                    }),
            },
    {
        let mut i: usize = 0;
        while i < self.transactions.len()
            invariant
                0 <= i <= self.transactions@.len(),
                forall|j: int|
                    0 <= j < i ==> (match (#[trigger] self.transactions@[j]).external_id {
                        Some(y) => y@ != external_id@,
                        None => true,
                    }),
            decreases self.transactions@.len() - i,
        {
            match &self.transactions[i].external_id {
                Some(x) => {
                    if *x == *external_id {
                        return Ok(&self.transactions[i]);
                    }
                },
                None => {},
            }
            i = i + 1;
        }
        Err(LedgerError::CouldNotFindByExternalId { external_id: external_id.clone() })
    }

    /// Post a transaction: look the template up by code, expand it against
    /// the arguments, and atomically persist the transaction, its entries
    /// (sequence numbers in declaration order) and one change event per
    /// created record.  Nothing is persisted on any failure.
    ///
    /// The caller supplies the transaction identifier; reposting an
    /// identifier already used is rejected (`DuplicateTransactionId`), so a
    /// caller that retries with the same identifier cannot apply a
    /// transaction twice.  For every (currency, layer) group of the new
    /// entries the signed sum (debit positive, credit negative) is exactly
    /// zero.
    pub fn post(
        &mut self,
        transaction_id: &String,
        tx_template_code: &String,
        args: &Vec<ParamArg>,
    ) -> (r: Result<usize, LedgerError>)
        requires
            old(self).wf(),
        ensures
            final(self).wf(),
            match r {
                Ok(ix) => {
                    let canonical = spec_canonical_uuid(transaction_id@);
                    let tpl = spec_template_by_code(old(self).templates@, tx_template_code@).unwrap();
                    let env = crate::expand::spec_bound_env(tpl.params@, args@);
                    let n = tpl.entries@.len();
                    let base = old(self).entries@.len();
                    &&& spec_is_uuid(transaction_id@)
                    &&& spec_template_by_code(old(self).templates@, tx_template_code@) is Some
                    &&& spec_expand_ok(tpl, args@)
                    &&& ix == old(self).transactions@.len()
                    &&& final(self).transactions@.len() == old(self).transactions@.len() + 1
                    &&& final(self).transactions@.subrange(0, ix as int) == old(
                        self,
                    ).transactions@
                    &&& {
                        let tx = final(self).transactions@[ix as int];
                        &&& tx.id@ == canonical
                        &&& tx.version == 1
                        &&& tx.void_of is None
                        &&& crate::expand::spec_uuid_of(
                            crate::expr::spec_eval(tpl.transaction.journal_id, env),
                        ) == Some(tx.journal_id@)
                        &&& crate::expand::spec_date_of(
                            crate::expr::spec_eval(tpl.transaction.effective, env),
                        ) == Some(tx.effective)
                        &&& (match tpl.transaction.correlation_id {
                            Some(ex) => tx.correlation_id matches Some(s)
                                && crate::expand::spec_str_of(crate::expr::spec_eval(ex, env))
                                == Some(s@),
                            None => tx.correlation_id is None,
                        })
                        &&& (match tpl.transaction.external_id {
                            Some(ex) => tx.external_id matches Some(s)
                                && crate::expand::spec_str_of(crate::expr::spec_eval(ex, env))
                                == Some(s@),
                            None => tx.external_id is None,
                        })
                        &&& (match tpl.transaction.description {
                            Some(ex) => tx.description matches Some(s)
                                && crate::expand::spec_str_of(crate::expr::spec_eval(ex, env))
                                == Some(s@),
                            None => tx.description is None,
                        })
                        &&& (match tpl.transaction.metadata {
                            Some(ex) => tx.metadata matches Some(s)
                                && crate::expand::spec_meta_of(crate::expr::spec_eval(ex, env))
                                == Some(s@),
                            None => tx.metadata is None,
                        })
                    }
                    &&& final(self).entries@.len() == base + n
                    &&& final(self).entries@.subrange(0, base as int) == old(self).entries@
                    &&& forall|k: int|
                        0 <= k < n ==> {
                            let e = #[trigger] final(self).entries@[base + k];
                            let te = tpl.entries@[k];
                            &&& e.transaction_id@ == canonical
                            &&& e.sequence == k
                            &&& e.version == 1
                            &&& crate::expand::spec_uuid_of(
                                crate::expr::spec_eval(tpl.transaction.journal_id, env),
                            ) == Some(e.journal_id@)
                            &&& crate::expand::spec_uuid_of(
                                crate::expr::spec_eval(te.account_id, env),
                            ) == Some(e.account_id@)
                            &&& crate::expand::spec_str_of(
                                crate::expr::spec_eval(te.entry_type, env),
                            ) == Some(e.entry_type@)
                            &&& crate::expand::spec_layer_of(crate::expr::spec_eval(te.layer, env))
                                == Some(e.layer)
                            &&& crate::expand::spec_direction_of(
                                crate::expr::spec_eval(te.direction, env),
                            ) == Some(e.direction)
                            &&& crate::expand::spec_units_of(crate::expr::spec_eval(te.units, env))
                                == Some(e.units)
                            &&& crate::expand::spec_currency_of(
                                crate::expr::spec_eval(te.currency, env),
                            ) == Some(e.currency@)
                            &&& (match te.description {
                                Some(ex) => e.description matches Some(s)
                                    && crate::expand::spec_str_of(crate::expr::spec_eval(ex, env))
                                    == Some(s@),
                                None => e.description is None,
                            })
                            &&& (match te.metadata {
                                Some(ex) => e.metadata matches Some(s)
                                    && crate::expand::spec_meta_of(crate::expr::spec_eval(ex, env))
                                    == Some(s@),
                                None => e.metadata is None,
                            })
                        }
                    &&& forall|cur: Seq<char>, lay: Layer|
                        #[trigger] tx_entries_sum(
                            final(self).entries@.subrange(base as int, (base + n) as int),
                            cur,
                            lay,
                        ) == 0
                    &&& final(self).accounts == old(self).accounts
                    &&& final(self).journals == old(self).journals
                    &&& final(self).templates == old(self).templates
                    &&& final(self).outbox@.len() > old(self).outbox@.len()
                },
                Err(e) => {
                    &&& *final(self) == *old(self)
                    &&& (match e {
                        LedgerError::MalformedId { text } => text@ == transaction_id@
                            && !spec_is_uuid(transaction_id@),
                        LedgerError::DuplicateTransactionId { id } => id@ == spec_canonical_uuid(
                            transaction_id@,
                        ) && exists|i: int|
                            0 <= i < old(self).transactions@.len() && (#[trigger] old(
                                self,
                            ).transactions@[i]).id@ == spec_canonical_uuid(transaction_id@),
                        LedgerError::TemplateNotFound { code } => code@ == tx_template_code@
                            && spec_template_by_code(
                            old(self).templates@,
                            tx_template_code@,
                        ) is None,
                        LedgerError::CouldNotFindById { id } => (match spec_template_by_code(
                            old(self).templates@,
                            tx_template_code@,
                        ) {
                            Some(tpl) => spec_expand_ok(tpl, args@) && {
                                let env = crate::expand::spec_bound_env(tpl.params@, args@);
                                ||| (crate::expand::spec_uuid_of(
                                    crate::expr::spec_eval(tpl.transaction.journal_id, env),
                                ) == Some(id@) && !spec_draft_journal_found(
                                    old(self).journals@,
                                    tpl,
                                    args@,
                                ))
                                ||| (exists|k: int|
                                    0 <= k < tpl.entries@.len() && crate::expand::spec_uuid_of(
                                        crate::expr::spec_eval(
                                            (#[trigger] tpl.entries@[k]).account_id,
                                            env,
                                        ),
                                    ) == Some(id@) && (forall|i: int|
                                        0 <= i < old(self).accounts@.len() ==> (#[trigger] old(
                                            self,
                                        ).accounts@[i]).id@ != id@))
                            },
                            None => false,
                        }),
                        LedgerError::DuplicateExternalId { external_id } => (match spec_template_by_code(
                            old(self).templates@,
                            tx_template_code@,
                        ) {
                            Some(tpl) => spec_expand_ok(tpl, args@)
                                && !spec_draft_external_fresh(
                                old(self).transactions@,
                                tpl,
                                args@,
                            ) && (match tpl.transaction.external_id {
                                Some(e) => crate::expand::spec_str_of(
                                    crate::expr::spec_eval(
                                        e,
                                        crate::expand::spec_bound_env(tpl.params@, args@),
                                    ),
                                ) == Some(external_id@),
                                None => false,
                            }),
                            None => false,
                        }),
                        LedgerError::StorageFailure => (match spec_template_by_code(
                            old(self).templates@,
                            tx_template_code@,
                        ) {
                            Some(tpl) => spec_expand_ok(tpl, args@) && tpl.entries@.len()
                                >= 0xffffffff,
                            None => false,
                        }),
                        _ => (e is ParamTypeMismatch || e is MissingRequiredParam
                            || e is UndeclaredParam || e is EvalTypeMismatch || e is AmountOverflow
                            || e is UnbalancedTransaction) && (match spec_template_by_code(
                            old(self).templates@,
                            tx_template_code@,
                        ) {
                            Some(tpl) => !spec_expand_ok(tpl, args@) && crate::expand::spec_expand_err(
                                tpl,
                                args@,
                                e,
                            ) && ((!(forall|i: int|
                                0 <= i < tpl.params@.len() ==> (#[trigger] spec_bind_one(
                                    tpl.params@[i],
                                    args@,
                                )) is Ok)) ==> crate::expand::spec_first_bind_err(tpl, args@, e)),
                            None => false,
                        }),
                    })
                },
            },
            // Success is owed whenever the identifier parses and is fresh,
            // the template exists, expansion succeeds, the denoted journal
            // and accounts are stored, the denoted external identifier is
            // fresh, and the entry count fits the sequence range.
            (spec_is_uuid(transaction_id@) && (forall|i: int|
                0 <= i < old(self).transactions@.len() ==> (#[trigger] old(
                    self,
                ).transactions@[i]).id@ != spec_canonical_uuid(transaction_id@)) && (
            match spec_template_by_code(old(self).templates@, tx_template_code@) {
                Some(tpl) => spec_expand_ok(tpl, args@) && spec_draft_journal_found(
                    old(self).journals@,
                    tpl,
                    args@,
                ) && spec_draft_accounts_found(old(self).accounts@, tpl, args@)
                    && spec_draft_external_fresh(old(self).transactions@, tpl, args@)
                    && tpl.entries@.len() < 0xffffffff,
                None => false,
            })) ==> r is Ok,
    {
        let canonical = match parse_id(transaction_id) {
            Ok(c) => c,
            Err(e) => {
                return Err(e);
            },
        };
        if let Some(_) = self.transaction_idx_by_id(&canonical) {
            return Err(LedgerError::DuplicateTransactionId { id: canonical });
        }
        let t = match self.template_idx_by_code(tx_template_code) {
            Some(t) => t,
            None => {
                return Err(LedgerError::TemplateNotFound { code: tx_template_code.clone() });
            },
        };
        proof {
            assert(self.templates@[t as int].wf());
        }
        let draft = match expand(&self.templates[t], args) {
            Ok(d) => d,
            Err(e) => {
                return Err(e);
            },
        };
        let ghost tpl = self.templates@[t as int];
        let ghost dsnap = draft;
        proof {
            assert(spec_template_by_code(old(self).templates@, tx_template_code@) == Some(tpl));
        }
        // The journal and every account must exist before anything is
        // persisted.
        if self.journal_idx_by_id(&draft.journal_id).is_none() {
            return Err(LedgerError::CouldNotFindById { id: draft.journal_id });
        }
        let mut ai: usize = 0;
        while ai < draft.entries.len()
            invariant
                0 <= ai <= draft.entries@.len(),
                *self == *old(self),
                old(self).wf(),
                spec_template_by_code(old(self).templates@, tx_template_code@) == Some(tpl),
                spec_expand_ok(tpl, args@),
                draft.entries@.len() == tpl.entries@.len(),
                forall|k: int|
                    0 <= k < tpl.entries@.len() ==> crate::expand::spec_entry_matches(
                        #[trigger] tpl.entries@[k],
                        crate::expand::spec_bound_env(tpl.params@, args@),
                        draft.entries@[k],
                    ),
            decreases draft.entries@.len() - ai,
        {
            if self.account_idx_by_id(&draft.entries[ai].account_id).is_none() {
                proof {
                    assert(crate::expand::spec_uuid_of(
                        crate::expr::spec_eval(
                            tpl.entries@[ai as int].account_id,
                            crate::expand::spec_bound_env(tpl.params@, args@),
                        ),
                    ) == Some(draft.entries@[ai as int].account_id@));
                    assert(!spec_draft_accounts_found(old(self).accounts@, tpl, args@));
                }
                return Err(
                    LedgerError::CouldNotFindById { id: draft.entries[ai].account_id.clone() },
                );
            }
            ai = ai + 1;
        }
        // A denoted external identifier must be fresh.
        match &draft.external_id {
            Some(x) => {
                let mut ti: usize = 0;
                while ti < self.transactions.len()
                    invariant
                        0 <= ti <= self.transactions@.len(),
                        *self == *old(self),
                        old(self).wf(),
                        spec_template_by_code(old(self).templates@, tx_template_code@) == Some(
                            tpl,
                        ),
                        spec_expand_ok(tpl, args@),
                        (match tpl.transaction.external_id {
                            Some(e) => crate::expand::spec_str_of(
                                crate::expr::spec_eval(
                                    e,
                                    crate::expand::spec_bound_env(tpl.params@, args@),
                                ),
                            ) == Some(x@),
                            None => false,
                        }),
                        forall|j: int|
                            0 <= j < ti ==> (match (#[trigger] self.transactions@[j]).external_id {
                                Some(y) => y@ != x@,
                                None => true,
                            }),
                    decreases self.transactions@.len() - ti,
                {
                    match &self.transactions[ti].external_id {
                        Some(y) => {
                            if *y == *x {
                                proof {
                                    assert(!spec_draft_external_fresh(
                                        old(self).transactions@,
                                        tpl,
                                        args@,
                                    )) by {
                                        assert(match (
                                        #[trigger] old(self).transactions@[ti as int]).external_id {
                                            Some(y2) => y2@ == x@,
                                            None => false,
                                        });
                                    }
                                }
                                return Err(
                                    LedgerError::DuplicateExternalId { external_id: x.clone() },
                                );
                            }
                        },
                        None => {},
                    }
                    ti = ti + 1;
                }
            },
            None => {},
        }
        if draft.entries.len() >= 0xffffffff {
            return Err(LedgerError::StorageFailure);
        }
        // Commit: nothing after this point fails.
        let DraftTransaction {
            effective,
            journal_id,
            correlation_id,
            external_id,
            description,
            metadata,
            entries: draft_entries,
        } = draft;
        let ix = self.transactions.len();
        let tx_record = TransactionRecord {
            id: canonical.clone(),
            tx_template_id: self.templates[t].id.clone(),
            effective,
            journal_id: journal_id.clone(),
            correlation_id,
            external_id,
            description,
            metadata,
            void_of: None,
            version: 1,
        };
        self.transactions.push(tx_record);
        proof {
            lemma_transactions_push_ok(old(self).transactions@, self.transactions@, canonical@);
        }
        let ghost txs_after = self.transactions@;
        let ghost base = self.entries@.len();
        let mut k: usize = 0;
        while k < draft_entries.len()
            invariant
                old(self).wf(),
                0 <= k <= draft_entries@.len(),
                draft_entries@.len() < 0xffffffff,
                self.entries@.len() == base + k,
                base == old(self).entries@.len(),
                self.entries@.subrange(0, base as int) == old(self).entries@,
                self.transactions@ == txs_after,
                self.accounts == old(self).accounts,
                self.journals == old(self).journals,
                self.templates == old(self).templates,
                self.outbox == old(self).outbox,
                self.transactions@.len() == old(self).transactions@.len() + 1,
                self.transactions@.subrange(0, old(self).transactions@.len() as int) == old(
                    self,
                ).transactions@,
                self.transactions@.last().id@ == canonical@,
                spec_is_canonical_uuid(canonical@),
                forall|i: int|
                    0 <= i < old(self).transactions@.len() ==> (#[trigger] old(
                        self,
                    ).transactions@[i]).id@ != canonical@,
                forall|i: int| 0 <= i < draft_entries@.len() ==> (#[trigger] draft_entries@[i]).wf(),
                spec_is_canonical_uuid(journal_id@),
                forall|k2: int|
                    0 <= k2 < k ==> {
                        let e = #[trigger] self.entries@[base + k2];
                        let de = draft_entries@[k2];
                        &&& e.transaction_id@ == canonical@
                        &&& e.journal_id@ == journal_id@
                        &&& e.sequence == k2
                        &&& e.version == 1
                        &&& e.account_id@ == de.account_id@
                        &&& e.entry_type@ == de.entry_type@
                        &&& e.layer == de.layer
                        &&& e.direction == de.direction
                        &&& e.units == de.units
                        &&& e.currency@ == de.currency@
                        &&& e.description == de.description
                        &&& e.metadata == de.metadata
                        &&& e.wf()
                    },
            decreases draft_entries@.len() - k,
        {
            let de = &draft_entries[k];
            let e = EntryRecord {
                transaction_id: canonical.clone(),
                journal_id: journal_id.clone(),
                account_id: de.account_id.clone(),
                entry_type: de.entry_type.clone(),
                sequence: k as u32,
                layer: de.layer,
                units: de.units,
                currency: de.currency.clone(),
                direction: de.direction,
                description: match &de.description {
                    Some(s) => Some(s.clone()),
                    None => None,
                },
                metadata: match &de.metadata {
                    Some(s) => Some(s.clone()),
                    None => None,
                },
                version: 1,
            };
            self.entries.push(e);
            proof {
                assert(self.entries@.subrange(0, base as int) =~= old(self).entries@);
            }
            k = k + 1;
        }
        let ghost entries_after = self.entries@;
        self.emit(EntityKind::TransactionEntity, canonical.clone(), ChangeAction::Created);
        let mut evk: usize = 0;
        let n_entries = draft_entries.len();
        while evk < n_entries
            invariant
                outbox_ok(self.outbox@),
                self.accounts == old(self).accounts,
                self.journals == old(self).journals,
                self.templates == old(self).templates,
                self.transactions@ == txs_after,
                self.entries@ == entries_after,
                self.outbox@.len() > old(self).outbox@.len(),
                spec_is_canonical_uuid(canonical@),
                0 <= evk <= n_entries,
            decreases n_entries - evk,
        {
            self.emit(EntityKind::EntryEntity, canonical.clone(), ChangeAction::Created);
            evk = evk + 1;
        }
        proof {
            assert forall|k2: int|
                base <= k2 < self.entries@.len() implies (#[trigger] self.entries@[k2]).transaction_id@
                == canonical@ && self.entries@[k2].sequence == k2 - base
                && self.entries@[k2].wf() by {
                let e = self.entries@[base + (k2 - base)];
                assert(e.transaction_id@ == canonical@);
            }
            lemma_post_entries_ok(old(self), self, canonical@, base as int);
            let items = crate::expand::spec_denoted_items(tpl, args@);
            assert forall|i: int| 0 <= i < items.len() implies (#[trigger] items[i]).units.wf() by {
                assert(crate::expand::spec_entry_matches(
                    tpl.entries@[i],
                    crate::expand::spec_bound_env(tpl.params@, args@),
                    dsnap.entries@[i],
                ));
                assert(dsnap.entries@[i].wf());
            }
            let seg = self.entries@.subrange(base as int, self.entries@.len() as int);
            assert forall|cur: Seq<char>, lay: Layer|
                #[trigger] tx_entries_sum(seg, cur, lay) == 0 by {
                assert(seg.len() == items.len());
                assert forall|i: int| 0 <= i < seg.len() implies (#[trigger] seg[i]).currency@
                    == items[i].cur && seg[i].layer == items[i].lay && seg[i].direction
                    == items[i].dir && seg[i].units == items[i].units by {
                    assert(seg[i] == self.entries@[base + i]);
                    assert(crate::expand::spec_entry_matches(
                        tpl.entries@[i],
                        crate::expand::spec_bound_env(tpl.params@, args@),
                        draft_entries@[i],
                    ));
                }
                lemma_tx_sum_matches(seg, items, cur, lay);
                crate::expand::lemma_fold_val(items, cur, lay);
            }
        }
        Ok(ix)
    }
}

/// Pushing a transaction with a fresh canonical identifier keeps the
/// transaction store well-formed.
proof fn lemma_transactions_push_ok(
    olds: Seq<TransactionRecord>,
    news: Seq<TransactionRecord>,
    canonical: Seq<char>,
)
    requires
        transactions_ok(olds),
        news.len() == olds.len() + 1,
        forall|i: int| 0 <= i < olds.len() ==> news[i] == olds[i],
        news.last().id@ == canonical,
        spec_is_canonical_uuid(canonical),
        forall|i: int| 0 <= i < olds.len() ==> (#[trigger] olds[i]).id@ != canonical,
        (match news.last().external_id {
            Some(x) => forall|i: int|
                0 <= i < olds.len() ==> (match (#[trigger] olds[i]).external_id {
                    Some(y) => y@ != x@,
                    None => true,
                }),
            None => true,
        }),
    ensures
        transactions_ok(news),
{
    assert forall|i: int| 0 <= i < news.len() implies spec_is_canonical_uuid(
        (#[trigger] news[i]).id@,
    ) by {
        if i < olds.len() {
            assert(news[i] == olds[i]);
        }
    }
    assert forall|i: int, j: int| 0 <= i < j < news.len() implies (#[trigger] news[i]).id@ != (
    #[trigger] news[j]).id@ && (match (news[i].external_id, news[j].external_id) {
        (Some(a), Some(b)) => a@ != b@,
        _ => true,
    }) by {
        if j < olds.len() {
            assert(olds[i].id@ != olds[j].id@);
        } else {
            assert(news[i] == olds[i]);
        }
    }
}

/// After appending the entries of one fresh transaction, the entry store
/// stays well-formed and linked.
proof fn lemma_post_entries_ok(a: &Ledger, b: &Ledger, canonical: Seq<char>, base: int)
    requires
        entries_ok(a.entries@),
        entries_linked(a.entries@, a.transactions@),
        transactions_ok(a.transactions@),
        0 <= base == a.entries@.len(),
        b.entries@.len() >= base,
        b.entries@.subrange(0, base) == a.entries@,
        b.transactions@.len() == a.transactions@.len() + 1,
        b.transactions@.subrange(0, a.transactions@.len() as int) == a.transactions@,
        b.transactions@.last().id@ == canonical,
        forall|i: int| 0 <= i < a.transactions@.len() ==> (#[trigger] a.transactions@[i]).id@ != canonical,
        forall|k: int|
            base <= k < b.entries@.len() ==> (#[trigger] b.entries@[k]).transaction_id@ == canonical
                && b.entries@[k].sequence == k - base && b.entries@[k].wf(),
    ensures
        entries_ok(b.entries@),
        entries_linked(b.entries@, b.transactions@),
{
    let es = b.entries@;
    assert forall|i: int| 0 <= i < es.len() implies (#[trigger] es[i]).wf() by {
        if i < base {
            assert(es[i] == a.entries@[i]);
        }
    }
    assert forall|i: int, j: int|
        0 <= i < j < es.len() && (#[trigger] es[i]).transaction_id@ == (
        #[trigger] es[j]).transaction_id@ implies es[i].sequence < es[j].sequence by {
        if j < base {
            assert(es[i] == a.entries@[i] && es[j] == a.entries@[j]);
        } else if i < base {
            // An old entry belongs to an old transaction, whose identifier
            // is not the fresh one.
            assert(es[i] == a.entries@[i]);
            let t = choose|t: int|
                0 <= t < a.transactions@.len() && (#[trigger] a.transactions@[t]).id@
                    == a.entries@[i].transaction_id@;
            assert(a.transactions@[t].id@ != canonical);
            assert(false);
        }
    }
    assert forall|k: int| 0 <= k < es.len() implies exists|t: int|
        0 <= t < b.transactions@.len() && (#[trigger] b.transactions@[t]).id@ == (
        #[trigger] es[k]).transaction_id@ by {
        if k < base {
            assert(es[k] == a.entries@[k]);
            let t = choose|t: int|
                0 <= t < a.transactions@.len() && (#[trigger] a.transactions@[t]).id@
                    == a.entries@[k].transaction_id@;
            assert(b.transactions@[t] == a.transactions@[t]);
            assert(0 <= t < b.transactions@.len() && b.transactions@[t].id@
                == es[k].transaction_id@);
        } else {
            let t = b.transactions@.len() - 1;
            assert(0 <= t < b.transactions@.len() && b.transactions@[t].id@
                == es[k].transaction_id@);
        }
    }
}

/// The decimal fold of one balance key over the entry log, exactly as the
/// projector computes it; `None` where a partial sum leaves the
/// representable range.
pub open spec fn balance_fold(
    es: Seq<EntryRecord>,
    j: Seq<char>,
    a: Seq<char>,
    c: Seq<char>,
    l: Layer,
) -> Option<Dec>
    decreases es.len(),
{
    if es.len() == 0 {
        Some(Dec { mantissa: 0, scale: 0 })
    } else {
        match balance_fold(es.drop_last(), j, a, c, l) {
            Some(acc) => {
                let e = es.last();
                if e.journal_id@ == j && e.account_id@ == a && e.currency@ == c && e.layer == l {
                    let signed = if e.direction is Debit {
                        e.units
                    } else {
                        crate::decimal::spec_neg(e.units)
                    };
                    if crate::decimal::add_overflows(acc, signed) {
                        None
                    } else {
                        Some(crate::expr::spec_add_dec(acc, signed))
                    }
                } else {
                    Some(acc)
                }
            },
            None => None,
        }
    }
}

/// A successful balance fold is well-formed and denotes the key's signed
/// sum.
pub proof fn lemma_balance_fold_val(
    es: Seq<EntryRecord>,
    j: Seq<char>,
    a: Seq<char>,
    c: Seq<char>,
    l: Layer,
)
    requires
        forall|i: int| 0 <= i < es.len() ==> (#[trigger] es[i]).units.wf(),
    ensures
        match balance_fold(es, j, a, c, l) {
            Some(d) => d.wf() && d.val() == entries_sum(es, j, a, c, l),
            None => true,
        },
    decreases es.len(),
{
    if es.len() > 0 {
        lemma_balance_fold_val(es.drop_last(), j, a, c, l);
        match balance_fold(es.drop_last(), j, a, c, l) {
            Some(acc) => {
                let e = es.last();
                if e.journal_id@ == j && e.account_id@ == a && e.currency@ == c && e.layer == l {
                    let signed = if e.direction is Debit {
                        e.units
                    } else {
                        crate::decimal::spec_neg(e.units)
                    };
                    assert(signed.wf() && signed.val() == (if e.direction is Debit {
                        e.units.val()
                    } else {
                        -e.units.val()
                    })) by {
                        if !(e.direction is Debit) {
                            vstd::arithmetic::mul::lemma_mul_unary_negation(
                                e.units.mantissa as int,
                                vstd::arithmetic::power::pow(
                                    10,
                                    (crate::decimal::MAX_SCALE - e.units.scale) as nat,
                                ),
                            );
                        }
                    }
                    if acc.wf() && !crate::decimal::add_overflows(acc, signed) {
                        crate::decimal::lemma_add_dec_val(acc, signed);
                    }
                }
            },
            None => {},
        }
    } else {
        vstd::arithmetic::mul::lemma_mul_by_zero_is_zero(
            vstd::arithmetic::power::pow(10, crate::decimal::MAX_SCALE as nat),
        );
    }
}

/// Some persisted entry touches this (journal, account, currency) key.
pub open spec fn key_touched(
    es: Seq<EntryRecord>,
    j: Seq<char>,
    a: Seq<char>,
    c: Seq<char>,
) -> bool {
    exists|k: int|
        0 <= k < es.len() && (#[trigger] es[k]).journal_id@ == j && es[k].account_id@ == a
            && es[k].currency@ == c
}

/// Some layer's fold for this key leaves the representable range.
pub open spec fn spec_key_overflows(
    es: Seq<EntryRecord>,
    j: Seq<char>,
    a: Seq<char>,
    c: Seq<char>,
) -> bool {
    ||| balance_fold(es, j, a, c, Layer::Pending) is None
    ||| balance_fold(es, j, a, c, Layer::Settled) is None
    ||| balance_fold(es, j, a, c, Layer::Encumbrance) is None
}

/// A balance fold that has overflowed stays overflowed as the prefix
/// grows.
proof fn lemma_balance_fold_prefix_none(
    es: Seq<EntryRecord>,
    k: int,
    m: int,
    j: Seq<char>,
    a: Seq<char>,
    c: Seq<char>,
    l: Layer,
)
    requires
        0 <= k <= m <= es.len(),
        balance_fold(es.subrange(0, k), j, a, c, l) is None,
    ensures
        balance_fold(es.subrange(0, m), j, a, c, l) is None,
    decreases m - k,
{
    if m > k {
        lemma_balance_fold_prefix_none(es, k, m - 1, j, a, c, l);
        assert(es.subrange(0, m).drop_last() =~= es.subrange(0, m - 1));
    }
}

/// Copy an entry record.
pub(crate) fn dup_entry(e: &EntryRecord) -> (r: EntryRecord)
    ensures
        r == *e,
{
    EntryRecord {
        transaction_id: e.transaction_id.clone(),
        journal_id: e.journal_id.clone(),
        account_id: e.account_id.clone(),
        entry_type: e.entry_type.clone(),
        sequence: e.sequence,
        layer: e.layer,
        units: e.units,
        currency: e.currency.clone(),
        direction: e.direction,
        description: match &e.description {
            Some(s) => Some(s.clone()),
            None => None,
        },
        metadata: match &e.metadata {
            Some(s) => Some(s.clone()),
            None => None,
        },
        version: e.version,
    }
}

impl Ledger {
    /// The entries of one transaction, in log order (and so in ascending
    /// sequence order).  Empty where the identifier matches no entry.
    pub fn list_entries_for_transaction(&self, transaction_id: &String) -> (r: Result<
        Vec<EntryRecord>,
        LedgerError,
    >)
        ensures
            match r {
                Ok(v) => v@ == spec_tx_entries(
                    self.entries@,
                    spec_canonical_uuid(transaction_id@),
                ) && spec_is_uuid(transaction_id@),
                Err(e) => e matches LedgerError::MalformedId { text } && text@ == transaction_id@
                    && !spec_is_uuid(transaction_id@),
            },
    {
        let canonical = match parse_id(transaction_id) {
            Ok(c) => c,
            Err(e) => {
                return Err(e);
            },
        };
        let mut out: Vec<EntryRecord> = Vec::new();
        let mut i: usize = 0;
        while i < self.entries.len()
            invariant
                0 <= i <= self.entries@.len(),
                canonical@ == spec_canonical_uuid(transaction_id@),
                out@ == spec_tx_entries(self.entries@.subrange(0, i as int), canonical@),
            decreases self.entries@.len() - i,
        {
            proof {
                assert(self.entries@.subrange(0, i + 1 as int).drop_last() =~= self.entries@.subrange(
                    0,
                    i as int,
                ));
                assert(self.entries@.subrange(0, i + 1 as int).last() == self.entries@[i as int]);
            }
            if self.entries[i].transaction_id == canonical {
                out.push(dup_entry(&self.entries[i]));
            }
            i = i + 1;
        }
        proof {
            assert(self.entries@.subrange(0, self.entries@.len() as int) =~= self.entries@);
        }
        Ok(out)
    }

    /// The three running totals of one (journal, account, currency) key,
    /// folded from the entry log: the projector is a pure function of the
    /// log, never an independent source of truth.
    ///
    /// `Ok` exactly when both identifiers parse, at least one entry touches
    /// the key, and no partial sum leaves the representable range; the
    /// result then carries, for each layer, a decimal denoting the signed
    /// sum of the key's entries.  `BalanceNotFound` carries the key where
    /// no entry touches it; `AmountOverflow` reports an unrepresentable
    /// partial sum.
    pub fn find_balance(&self, journal_id: &String, account_id: &String, currency: &String) -> (r:
        Result<BalanceRecord, LedgerError>)
        requires
            self.wf(),
        ensures
            match r {
                Ok(b) => {
                    let jv = spec_canonical_uuid(journal_id@);
                    let av = spec_canonical_uuid(account_id@);
                    &&& b.journal_id@ == jv
                    &&& b.account_id@ == av
                    &&& b.currency@ == currency@
                    &&& b.pending.wf() && b.settled.wf() && b.encumbrance.wf()
                    &&& b.pending.val() == entries_sum(self.entries@, jv, av, currency@, Layer::Pending)
                    &&& b.settled.val() == entries_sum(self.entries@, jv, av, currency@, Layer::Settled)
                    &&& b.encumbrance.val() == entries_sum(
                        self.entries@,
                        jv,
                        av,
                        currency@,
                        Layer::Encumbrance,
                    )
                    &&& key_touched(self.entries@, jv, av, currency@)
                },
                Err(e) => match e {
                    LedgerError::MalformedId { text } => (text@ == journal_id@ && !spec_is_uuid(
                        journal_id@,
                    )) || (text@ == account_id@ && !spec_is_uuid(account_id@)),
                    LedgerError::BalanceNotFound { journal_id: j, account_id: a, currency: c } => j@
                        == spec_canonical_uuid(journal_id@) && a@ == spec_canonical_uuid(
                        account_id@,
                    ) && c@ == currency@ && spec_is_uuid(journal_id@) && spec_is_uuid(account_id@)
                        && crate::types::spec_is_currency(currency@) && !key_touched(
                        self.entries@,
                        spec_canonical_uuid(journal_id@),
                        spec_canonical_uuid(account_id@),
                        currency@,
                    ),
                    LedgerError::Validation { field } => field@ == "currency"@
                        && !crate::types::spec_is_currency(currency@),
                    LedgerError::AmountOverflow => spec_is_uuid(journal_id@) && spec_is_uuid(
                        account_id@,
                    ) && crate::types::spec_is_currency(currency@) && (balance_fold(
                        self.entries@,
                        spec_canonical_uuid(journal_id@),
                        spec_canonical_uuid(account_id@),
                        currency@,
                        Layer::Pending,
                    ) is None || balance_fold(
                        self.entries@,
                        spec_canonical_uuid(journal_id@),
                        spec_canonical_uuid(account_id@),
                        currency@,
                        Layer::Settled,
                    ) is None || balance_fold(
                        self.entries@,
                        spec_canonical_uuid(journal_id@),
                        spec_canonical_uuid(account_id@),
                        currency@,
                        Layer::Encumbrance,
                    ) is None),
                    _ => false,
                },
            },
            // Success is owed whenever both identifiers parse, the currency
            // is well-formed, some entry touches the key, and no partial
            // sum leaves the representable range.
            (spec_is_uuid(journal_id@) && spec_is_uuid(account_id@)
                && crate::types::spec_is_currency(currency@) && (exists|i: int|
                0 <= i < self.entries@.len() && (#[trigger] self.entries@[i]).journal_id@
                    == spec_canonical_uuid(journal_id@) && self.entries@[i].account_id@
                    == spec_canonical_uuid(account_id@) && self.entries@[i].currency@ == currency@)
                && balance_fold(
                self.entries@,
                spec_canonical_uuid(journal_id@),
                spec_canonical_uuid(account_id@),
                currency@,
                Layer::Pending,
            ) is Some && balance_fold(
                self.entries@,
                spec_canonical_uuid(journal_id@),
                spec_canonical_uuid(account_id@),
                currency@,
                Layer::Settled,
            ) is Some && balance_fold(
                self.entries@,
                spec_canonical_uuid(journal_id@),
                spec_canonical_uuid(account_id@),
                currency@,
                Layer::Encumbrance,
            ) is Some) ==> r is Ok,
    {
        let jc = match parse_id(journal_id) {
            Ok(c) => c,
            Err(e) => {
                return Err(e);
            },
        };
        let ac = match parse_id(account_id) {
            Ok(c) => c,
            Err(e) => {
                return Err(e);
            },
        };
        if !crate::types::is_currency_code(currency) {
            return Err(LedgerError::Validation { field: String::from_str("currency") });
        }
        let mut pending = Dec { mantissa: 0, scale: 0 };
        let mut settled = Dec { mantissa: 0, scale: 0 };
        let mut encumbrance = Dec { mantissa: 0, scale: 0 };
        let mut found = false;
        let mut i: usize = 0;
        proof {
            assert(self.entries@.subrange(0, 0).len() == 0);
        }
        while i < self.entries.len()
            invariant
                self.wf(),
                0 <= i <= self.entries@.len(),
                jc@ == spec_canonical_uuid(journal_id@),
                ac@ == spec_canonical_uuid(account_id@),
                spec_is_uuid(journal_id@),
                spec_is_uuid(account_id@),
                crate::types::spec_is_currency(currency@),
                pending.wf(),
                settled.wf(),
                encumbrance.wf(),
                balance_fold(self.entries@.subrange(0, i as int), jc@, ac@, currency@, Layer::Pending)
                    == Some(pending),
                balance_fold(self.entries@.subrange(0, i as int), jc@, ac@, currency@, Layer::Settled)
                    == Some(settled),
                balance_fold(
                    self.entries@.subrange(0, i as int),
                    jc@,
                    ac@,
                    currency@,
                    Layer::Encumbrance,
                ) == Some(encumbrance),
                found <==> exists|k: int|
                    0 <= k < i && (#[trigger] self.entries@[k]).journal_id@ == jc@
                        && self.entries@[k].account_id@ == ac@ && self.entries@[k].currency@
                        == currency@,
            decreases self.entries@.len() - i,
        {
            proof {
                assert(self.entries@.subrange(0, i + 1 as int).drop_last() =~= self.entries@.subrange(
                    0,
                    i as int,
                ));
                assert(self.entries@.subrange(0, i + 1 as int).last() == self.entries@[i as int]);
                assert(self.entries@[i as int].wf());
            }
            let e = &self.entries[i];
            if e.journal_id == jc && e.account_id == ac && e.currency == *currency {
                found = true;
                let signed = if matches!(e.direction, Direction::Debit) {
                    e.units
                } else {
                    e.units.neg()
                };
                match e.layer {
                    Layer::Pending => {
                        match pending.add(signed) {
                            Some(v) => {
                                pending = v;
                            },
                            None => {
                                proof {
                                    lemma_balance_fold_prefix_none(
                                        self.entries@,
                                        i + 1,
                                        self.entries@.len() as int,
                                        jc@,
                                        ac@,
                                        currency@,
                                        Layer::Pending,
                                    );
                                    assert(self.entries@.subrange(
                                        0,
                                        self.entries@.len() as int,
                                    ) =~= self.entries@);
                                }
                                return Err(LedgerError::AmountOverflow);
                            },
                        }
                    },
                    Layer::Settled => {
                        match settled.add(signed) {
                            Some(v) => {
                                settled = v;
                            },
                            None => {
                                proof {
                                    lemma_balance_fold_prefix_none(
                                        self.entries@,
                                        i + 1,
                                        self.entries@.len() as int,
                                        jc@,
                                        ac@,
                                        currency@,
                                        Layer::Settled,
                                    );
                                    assert(self.entries@.subrange(
                                        0,
                                        self.entries@.len() as int,
                                    ) =~= self.entries@);
                                }
                                return Err(LedgerError::AmountOverflow);
                            },
                        }
                    },
                    Layer::Encumbrance => {
                        match encumbrance.add(signed) {
                            Some(v) => {
                                encumbrance = v;
                            },
                            None => {
                                proof {
                                    lemma_balance_fold_prefix_none(
                                        self.entries@,
                                        i + 1,
                                        self.entries@.len() as int,
                                        jc@,
                                        ac@,
                                        currency@,
                                        Layer::Encumbrance,
                                    );
                                    assert(self.entries@.subrange(
                                        0,
                                        self.entries@.len() as int,
                                    ) =~= self.entries@);
                                }
                                return Err(LedgerError::AmountOverflow);
                            },
                        }
                    },
                }
            }
            i = i + 1;
        }
        proof {
            assert(self.entries@.subrange(0, self.entries@.len() as int) =~= self.entries@);
            lemma_balance_fold_val(self.entries@, jc@, ac@, currency@, Layer::Pending);
            lemma_balance_fold_val(self.entries@, jc@, ac@, currency@, Layer::Settled);
            lemma_balance_fold_val(self.entries@, jc@, ac@, currency@, Layer::Encumbrance);
        }
        if !found {
            proof {
                assert(!key_touched(self.entries@, jc@, ac@, currency@));
            }
            return Err(
                LedgerError::BalanceNotFound {
                    journal_id: jc,
                    account_id: ac,
                    currency: currency.clone(),
                },
            );
        }
        proof {
            assert(key_touched(self.entries@, jc@, ac@, currency@));
        }
        Ok(
            BalanceRecord {
                journal_id: jc,
                account_id: ac,
                currency: currency.clone(),
                pending,
                settled,
                encumbrance,
            },
        )
    }

    /// Void a transaction: atomically post a new transaction whose entries
    /// exactly reverse the target's (same journal, account, currency,
    /// layer and magnitude; opposite direction), referencing the target.
    /// Nothing is persisted on any failure.
    ///
    /// A transaction that is itself a void cannot be voided again
    /// (`AlreadyVoided`): reversal is never ambiguous.
    pub fn void_transaction(
        &mut self,
        void_transaction_id: &String,
        existing_transaction_id: &String,
    ) -> (r: Result<usize, LedgerError>)
        requires
            old(self).wf(),
        ensures
            final(self).wf(),
            match r {
                Ok(ix) => {
                    let vcanon = spec_canonical_uuid(void_transaction_id@);
                    let ecanon = spec_canonical_uuid(existing_transaction_id@);
                    let orig = spec_tx_entries(old(self).entries@, ecanon);
                    let base = old(self).entries@.len();
                    &&& spec_is_uuid(void_transaction_id@)
                    &&& spec_is_uuid(existing_transaction_id@)
                    &&& exists|i: int|
                        0 <= i < old(self).transactions@.len() && (#[trigger] old(
                            self,
                        ).transactions@[i]).id@ == ecanon && old(self).transactions@[i].void_of is None
                    &&& ix == old(self).transactions@.len()
                    &&& final(self).transactions@.len() == old(self).transactions@.len() + 1
                    &&& final(self).transactions@.subrange(0, ix as int) == old(
                        self,
                    ).transactions@
                    &&& {
                        let tx = final(self).transactions@[ix as int];
                        &&& tx.id@ == vcanon
                        &&& tx.version == 1
                        &&& (tx.void_of matches Some(v) && v@ == ecanon)
                    }
                    &&& final(self).entries@.len() == base + orig.len()
                    &&& final(self).entries@.subrange(0, base as int) == old(self).entries@
                    &&& forall|k: int|
                        0 <= k < orig.len() ==> {
                            let e = #[trigger] final(self).entries@[base + k];
                            &&& e.transaction_id@ == vcanon
                            &&& e.sequence == k
                            &&& e.journal_id@ == orig[k].journal_id@
                            &&& e.account_id@ == orig[k].account_id@
                            &&& e.currency@ == orig[k].currency@
                            &&& e.layer == orig[k].layer
                            &&& e.units == orig[k].units
                            &&& e.direction == (match orig[k].direction {
                                Direction::Debit => Direction::Credit,
                                Direction::Credit => Direction::Debit,
                            })
                        }
                    &&& final(self).accounts == old(self).accounts
                    &&& final(self).journals == old(self).journals
                    &&& final(self).templates == old(self).templates
                    &&& final(self).outbox@.len() > old(self).outbox@.len()
                },
                Err(e) => {
                    &&& *final(self) == *old(self)
                    &&& (match e {
                        LedgerError::MalformedId { text } => (text@ == void_transaction_id@
                            && !spec_is_uuid(void_transaction_id@)) || (text@
                            == existing_transaction_id@ && !spec_is_uuid(existing_transaction_id@)),
                        LedgerError::DuplicateTransactionId { id } => id@ == spec_canonical_uuid(
                            void_transaction_id@,
                        ) && spec_is_uuid(void_transaction_id@) && exists|i: int|
                            0 <= i < old(self).transactions@.len() && (#[trigger] old(
                                self,
                            ).transactions@[i]).id@ == spec_canonical_uuid(void_transaction_id@),
                        LedgerError::TransactionNotFound { id } => id@ == spec_canonical_uuid(
                            existing_transaction_id@,
                        ) && spec_is_uuid(void_transaction_id@) && spec_is_uuid(
                            existing_transaction_id@,
                        ) && forall|i: int|
                            0 <= i < old(self).transactions@.len() ==> (#[trigger] old(
                                self,
                            ).transactions@[i]).id@ != spec_canonical_uuid(
                                existing_transaction_id@,
                            ),
                        LedgerError::AlreadyVoided { id } => id@ == spec_canonical_uuid(
                            existing_transaction_id@,
                        ) && spec_is_uuid(void_transaction_id@) && spec_is_uuid(
                            existing_transaction_id@,
                        ) && exists|i: int|
                            0 <= i < old(self).transactions@.len() && (#[trigger] old(
                                self,
                            ).transactions@[i]).id@ == spec_canonical_uuid(
                                existing_transaction_id@,
                            ) && old(self).transactions@[i].void_of is Some,
                        LedgerError::StorageFailure => spec_tx_entries(
                            old(self).entries@,
                            spec_canonical_uuid(existing_transaction_id@),
                        ).len() >= 0xffffffff,
                        _ => false,
                    })
                },
            },
            // Success is owed whenever both identifiers parse, the void
            // identifier is fresh, the target exists, is not itself a void,
            // and its entry count is within the sequence range.
            (spec_is_uuid(void_transaction_id@) && spec_is_uuid(existing_transaction_id@)
                && (forall|i: int|
                0 <= i < old(self).transactions@.len() ==> (#[trigger] old(
                    self,
                ).transactions@[i]).id@ != spec_canonical_uuid(void_transaction_id@)) && (exists|
                i: int,
            |
                0 <= i < old(self).transactions@.len() && (#[trigger] old(
                    self,
                ).transactions@[i]).id@ == spec_canonical_uuid(existing_transaction_id@) && old(
                    self,
                ).transactions@[i].void_of is None) && spec_tx_entries(
                old(self).entries@,
                spec_canonical_uuid(existing_transaction_id@),
            ).len() < 0xffffffff) ==> r is Ok,
    {
        let vcanon = match parse_id(void_transaction_id) {
            Ok(c) => c,
            Err(e) => {
                return Err(e);
            },
        };
        let ecanon = match parse_id(existing_transaction_id) {
            Ok(c) => c,
            Err(e) => {
                return Err(e);
            },
        };
        if let Some(_) = self.transaction_idx_by_id(&vcanon) {
            return Err(LedgerError::DuplicateTransactionId { id: vcanon });
        }
        let et = match self.transaction_idx_by_id(&ecanon) {
            Some(k) => k,
            None => {
                return Err(LedgerError::TransactionNotFound { id: ecanon });
            },
        };
        if self.transactions[et].void_of.is_some() {
            proof {
                // Identities are unique, so the one transaction carrying
                // this identifier is the voided one.
                assert forall|i: int|
                    0 <= i < self.transactions@.len() && (#[trigger] self.transactions@[i]).id@
                        == ecanon@ implies !(self.transactions@[i].void_of is None) by {
                    if i != et {
                        if i < et {
                            assert(self.transactions@[i].id@ != self.transactions@[et as int].id@);
                        } else {
                            assert(self.transactions@[et as int].id@ != self.transactions@[i].id@);
                        }
                    }
                }
            }
            return Err(LedgerError::AlreadyVoided { id: ecanon });
        }
        // Collect the target's entries, in log order.
        let mut origs: Vec<EntryRecord> = Vec::new();
        let mut i: usize = 0;
        while i < self.entries.len()
            invariant
                *self == *old(self),
                old(self).wf(),
                0 <= i <= self.entries@.len(),
                origs@ == spec_tx_entries(self.entries@.subrange(0, i as int), ecanon@),
            decreases self.entries@.len() - i,
        {
            proof {
                assert(self.entries@.subrange(0, i + 1 as int).drop_last() =~= self.entries@.subrange(
                    0,
                    i as int,
                ));
                assert(self.entries@.subrange(0, i + 1 as int).last() == self.entries@[i as int]);
            }
            if self.entries[i].transaction_id == ecanon {
                origs.push(dup_entry(&self.entries[i]));
            }
            i = i + 1;
        }
        proof {
            assert(self.entries@.subrange(0, self.entries@.len() as int) =~= self.entries@);
            lemma_tx_entries_wf(self.entries@, ecanon@);
        }
        if origs.len() >= 0xffffffff {
            return Err(LedgerError::StorageFailure);
        }
        // Commit: nothing after this point fails.
        let existing = &self.transactions[et];
        let ix = self.transactions.len();
        let tx_record = TransactionRecord {
            id: vcanon.clone(),
            tx_template_id: existing.tx_template_id.clone(),
            effective: existing.effective,
            journal_id: existing.journal_id.clone(),
            correlation_id: match &existing.correlation_id {
                Some(s) => Some(s.clone()),
                None => None,
            },
            external_id: None,
            description: None,
            metadata: None,
            void_of: Some(ecanon.clone()),
            version: 1,
        };
        self.transactions.push(tx_record);
        proof {
            lemma_transactions_push_ok(old(self).transactions@, self.transactions@, vcanon@);
            assert(self.transactions@.subrange(0, old(self).transactions@.len() as int) =~= old(
                self,
            ).transactions@);
        }
        let ghost txs_after = self.transactions@;
        let ghost base = self.entries@.len();
        let mut k: usize = 0;
        while k < origs.len()
            invariant
                old(self).wf(),
                0 <= k <= origs@.len(),
                origs@.len() < 0xffffffff,
                origs@ == spec_tx_entries(old(self).entries@, ecanon@),
                forall|i2: int| 0 <= i2 < origs@.len() ==> (#[trigger] origs@[i2]).wf(),
                self.entries@.len() == base + k,
                base == old(self).entries@.len(),
                self.entries@.subrange(0, base as int) == old(self).entries@,
                self.transactions@ == txs_after,
                self.accounts == old(self).accounts,
                self.journals == old(self).journals,
                self.templates == old(self).templates,
                self.outbox == old(self).outbox,
                spec_is_canonical_uuid(vcanon@),
                forall|k2: int|
                    0 <= k2 < k ==> {
                        let e = #[trigger] self.entries@[base + k2];
                        let o = origs@[k2];
                        &&& e.transaction_id@ == vcanon@
                        &&& e.sequence == k2
                        &&& e.version == 1
                        &&& e.journal_id@ == o.journal_id@
                        &&& e.account_id@ == o.account_id@
                        &&& e.currency@ == o.currency@
                        &&& e.layer == o.layer
                        &&& e.units == o.units
                        &&& e.direction == (match o.direction {
                            Direction::Debit => Direction::Credit,
                            Direction::Credit => Direction::Debit,
                        })
                        &&& e.wf()
                    },
            decreases origs@.len() - k,
        {
            let o = &origs[k];
            let e = EntryRecord {
                transaction_id: vcanon.clone(),
                journal_id: o.journal_id.clone(),
                account_id: o.account_id.clone(),
                entry_type: o.entry_type.clone(),
                sequence: k as u32,
                layer: o.layer,
                units: o.units,
                currency: o.currency.clone(),
                direction: match o.direction {
                    Direction::Debit => Direction::Credit,
                    Direction::Credit => Direction::Debit,
                },
                description: match &o.description {
                    Some(s) => Some(s.clone()),
                    None => None,
                },
                metadata: match &o.metadata {
                    Some(s) => Some(s.clone()),
                    None => None,
                },
                version: 1,
            };
            self.entries.push(e);
            proof {
                assert(self.entries@.subrange(0, base as int) =~= old(self).entries@);
            }
            k = k + 1;
        }
        let ghost entries_after = self.entries@;
        self.emit(EntityKind::TransactionEntity, vcanon.clone(), ChangeAction::Created);
        let mut evk: usize = 0;
        let n_entries = origs.len();
        while evk < n_entries
            invariant
                outbox_ok(self.outbox@),
                self.accounts == old(self).accounts,
                self.journals == old(self).journals,
                self.templates == old(self).templates,
                self.transactions@ == txs_after,
                self.entries@ == entries_after,
                self.outbox@.len() > old(self).outbox@.len(),
                spec_is_canonical_uuid(vcanon@),
                0 <= evk <= n_entries,
            decreases n_entries - evk,
        {
            self.emit(EntityKind::EntryEntity, vcanon.clone(), ChangeAction::Created);
            evk = evk + 1;
        }
        proof {
            assert forall|k2: int|
                base <= k2 < self.entries@.len() implies (#[trigger] self.entries@[k2]).transaction_id@
                == vcanon@ && self.entries@[k2].sequence == k2 - base
                && self.entries@[k2].wf() by {
                let e = self.entries@[base + (k2 - base)];
                assert(e.transaction_id@ == vcanon@);
            }
            lemma_post_entries_ok(old(self), self, vcanon@, base as int);
        }
        Ok(ix)
    }
}

/// Does some record of `v` carry this (journal, currency) key?
pub open spec fn covers_key(v: Seq<BalanceRecord>, j: Seq<char>, c: Seq<char>) -> bool {
    exists|x: int| 0 <= x < v.len() && (#[trigger] v[x]).journal_id@ == j && v[x].currency@ == c
}

/// The order entries of a listing come back in.
#[derive(Clone, Copy, Debug, PartialEq, Eq, Structural)]
pub enum ListDirection {
    Ascending,
    Descending,
}

/// The entries of one journal, in log (creation) order.
pub open spec fn spec_journal_entries(es: Seq<EntryRecord>, jv: Seq<char>) -> Seq<EntryRecord>
    decreases es.len(),
{
    if es.len() == 0 {
        Seq::empty()
    } else if es.last().journal_id@ == jv {
        spec_journal_entries(es.drop_last(), jv).push(es.last())
    } else {
        spec_journal_entries(es.drop_last(), jv)
    }
}

/// The entries of one account, in log (creation) order.
pub open spec fn spec_account_entries(es: Seq<EntryRecord>, av: Seq<char>) -> Seq<EntryRecord>
    decreases es.len(),
{
    if es.len() == 0 {
        Seq::empty()
    } else if es.last().account_id@ == av {
        spec_account_entries(es.drop_last(), av).push(es.last())
    } else {
        spec_account_entries(es.drop_last(), av)
    }
}

/// Reverse a vector of entries.
fn reverse_entries(v: Vec<EntryRecord>) -> (r: Vec<EntryRecord>)
    ensures
        r@ == v@.reverse(),
{
    let n = v.len();
    let mut out: Vec<EntryRecord> = Vec::new();
    let mut i: usize = 0;
    while i < n
        invariant
            0 <= i <= n,
            n == v@.len(),
            out@.len() == i,
            forall|k: int| 0 <= k < i ==> #[trigger] out@[k] == v@[n - 1 - k],
        decreases n - i,
    {
        out.push(dup_entry(&v[n - 1 - i]));
        i = i + 1;
    }
    proof {
        assert(out@ =~= v@.reverse());
    }
    out
}

impl Ledger {
    /// The entries of one journal, in creation order or its reverse.
    /// `MalformedId` on an unparsable identifier; empty where the journal
    /// has no entries.
    pub fn list_entries_for_journal_id(&self, journal_id: &String, direction: ListDirection) -> (r:
        Result<Vec<EntryRecord>, LedgerError>)
        ensures
            match r {
                Ok(v) => {
                    let sel = spec_journal_entries(
                        self.entries@,
                        spec_canonical_uuid(journal_id@),
                    );
                    spec_is_uuid(journal_id@) && (match direction {
                        ListDirection::Ascending => v@ == sel,
                        ListDirection::Descending => v@ == sel.reverse(),
                    })
                },
                Err(e) => e matches LedgerError::MalformedId { text } && text@ == journal_id@
                    && !spec_is_uuid(journal_id@),
            },
    {
        let canonical = match parse_id(journal_id) {
            Ok(c) => c,
            Err(e) => {
                return Err(e);
            },
        };
        let mut out: Vec<EntryRecord> = Vec::new();
        let mut i: usize = 0;
        while i < self.entries.len()
            invariant
                0 <= i <= self.entries@.len(),
                canonical@ == spec_canonical_uuid(journal_id@),
                out@ == spec_journal_entries(self.entries@.subrange(0, i as int), canonical@),
            decreases self.entries@.len() - i,
        {
            proof {
                assert(self.entries@.subrange(0, i + 1 as int).drop_last() =~= self.entries@.subrange(
                    0,
                    i as int,
                ));
                assert(self.entries@.subrange(0, i + 1 as int).last() == self.entries@[i as int]);
            }
            if self.entries[i].journal_id == canonical {
                out.push(dup_entry(&self.entries[i]));
            }
            i = i + 1;
        }
        proof {
            assert(self.entries@.subrange(0, self.entries@.len() as int) =~= self.entries@);
        }
        match direction {
            ListDirection::Ascending => Ok(out),
            ListDirection::Descending => Ok(reverse_entries(out)),
        }
    }

    /// The entries of one account, in creation order or its reverse.
    pub fn list_entries_for_account_id(&self, account_id: &String, direction: ListDirection) -> (r:
        Result<Vec<EntryRecord>, LedgerError>)
        ensures
            match r {
                Ok(v) => {
                    let sel = spec_account_entries(
                        self.entries@,
                        spec_canonical_uuid(account_id@),
                    );
                    spec_is_uuid(account_id@) && (match direction {
                        ListDirection::Ascending => v@ == sel,
                        ListDirection::Descending => v@ == sel.reverse(),
                    })
                },
                Err(e) => e matches LedgerError::MalformedId { text } && text@ == account_id@
                    && !spec_is_uuid(account_id@),
            },
    {
        let canonical = match parse_id(account_id) {
            Ok(c) => c,
            Err(e) => {
                return Err(e);
            },
        };
        let mut out: Vec<EntryRecord> = Vec::new();
        let mut i: usize = 0;
        while i < self.entries.len()
            invariant
                0 <= i <= self.entries@.len(),
                canonical@ == spec_canonical_uuid(account_id@),
                out@ == spec_account_entries(self.entries@.subrange(0, i as int), canonical@),
            decreases self.entries@.len() - i,
        {
            proof {
                assert(self.entries@.subrange(0, i + 1 as int).drop_last() =~= self.entries@.subrange(
                    0,
                    i as int,
                ));
                assert(self.entries@.subrange(0, i + 1 as int).last() == self.entries@[i as int]);
            }
            if self.entries[i].account_id == canonical {
                out.push(dup_entry(&self.entries[i]));
            }
            i = i + 1;
        }
        proof {
            assert(self.entries@.subrange(0, self.entries@.len() as int) =~= self.entries@);
        }
        match direction {
            ListDirection::Ascending => Ok(out),
            ListDirection::Descending => Ok(reverse_entries(out)),
        }
    }

    /// All balances of one account: one record per (journal, currency) key
    /// its entries touch, each the exact fold of the log for that key —
    /// no key repeated, none missed.
    #[verifier::rlimit(60)]
    #[verifier::spinoff_prover]
    pub fn find_balances_for_account(&self, account_id: &String) -> (r: Result<
        Vec<BalanceRecord>,
        LedgerError,
    >)
        requires
            self.wf(),
        ensures
            match r {
                Ok(v) => {
                    &&& spec_is_uuid(account_id@)
                    &&& forall|x: int|
                        0 <= x < v@.len() ==> (#[trigger] v@[x]).account_id@
                            == spec_canonical_uuid(account_id@) && key_touched(
                            self.entries@,
                            v@[x].journal_id@,
                            v@[x].account_id@,
                            v@[x].currency@,
                        ) && v@[x].pending.wf() && v@[x].settled.wf() && v@[x].encumbrance.wf()
                            && v@[x].pending.val() == entries_sum(
                            self.entries@,
                            v@[x].journal_id@,
                            v@[x].account_id@,
                            v@[x].currency@,
                            Layer::Pending,
                        ) && v@[x].settled.val() == entries_sum(
                            self.entries@,
                            v@[x].journal_id@,
                            v@[x].account_id@,
                            v@[x].currency@,
                            Layer::Settled,
                        ) && v@[x].encumbrance.val() == entries_sum(
                            self.entries@,
                            v@[x].journal_id@,
                            v@[x].account_id@,
                            v@[x].currency@,
                            Layer::Encumbrance,
                        )
                    &&& forall|x: int, y: int|
                        0 <= x < y < v@.len() ==> !((#[trigger] v@[x]).journal_id@ == (
                        #[trigger] v@[y]).journal_id@ && v@[x].currency@ == v@[y].currency@)
                    &&& forall|k: int|
                        0 <= k < self.entries@.len() && (#[trigger] self.entries@[k]).account_id@
                            == spec_canonical_uuid(account_id@) ==> covers_key(
                            v@,
                            self.entries@[k].journal_id@,
                            self.entries@[k].currency@,
                        )
                },
                Err(e) => match e {
                    LedgerError::MalformedId { text } => text@ == account_id@ && !spec_is_uuid(
                        account_id@,
                    ),
                    LedgerError::AmountOverflow => exists|k: int|
                        0 <= k < self.entries@.len() && (#[trigger] self.entries@[k]).account_id@
                            == spec_canonical_uuid(account_id@) && spec_key_overflows(
                            self.entries@,
                            self.entries@[k].journal_id@,
                            self.entries@[k].account_id@,
                            self.entries@[k].currency@,
                        ),
                    _ => false,
                },
            },
            // Success is owed whenever the identifier parses and no touched
            // key's fold leaves the representable range.
            (spec_is_uuid(account_id@) && (forall|k: int|
                0 <= k < self.entries@.len() && (#[trigger] self.entries@[k]).account_id@
                    == spec_canonical_uuid(account_id@) ==> !spec_key_overflows(
                    self.entries@,
                    self.entries@[k].journal_id@,
                    self.entries@[k].account_id@,
                    self.entries@[k].currency@,
                ))) ==> r is Ok,
    {
        let canonical = match parse_id(account_id) {
            Ok(c) => c,
            Err(e) => {
                return Err(e);
            },
        };
        let mut out: Vec<BalanceRecord> = Vec::new();
        let n = self.entries.len();
        let mut i: usize = 0;
        while i < n
            invariant
                self.wf(),
                n == self.entries@.len(),
                0 <= i <= n,
                canonical@ == spec_canonical_uuid(account_id@),
                spec_is_canonical_uuid(canonical@),
                spec_is_uuid(account_id@),
                forall|x: int|
                    0 <= x < out@.len() ==> (#[trigger] out@[x]).account_id@ == canonical@
                        && key_touched(
                        self.entries@,
                        out@[x].journal_id@,
                        out@[x].account_id@,
                        out@[x].currency@,
                    ) && out@[x].pending.wf() && out@[x].settled.wf() && out@[x].encumbrance.wf()
                        && out@[x].pending.val() == entries_sum(
                        self.entries@,
                        out@[x].journal_id@,
                        out@[x].account_id@,
                        out@[x].currency@,
                        Layer::Pending,
                    ) && out@[x].settled.val() == entries_sum(
                        self.entries@,
                        out@[x].journal_id@,
                        out@[x].account_id@,
                        out@[x].currency@,
                        Layer::Settled,
                    ) && out@[x].encumbrance.val() == entries_sum(
                        self.entries@,
                        out@[x].journal_id@,
                        out@[x].account_id@,
                        out@[x].currency@,
                        Layer::Encumbrance,
                    ),
                forall|x: int, y: int|
                    0 <= x < y < out@.len() ==> !((#[trigger] out@[x]).journal_id@ == (
                    #[trigger] out@[y]).journal_id@ && out@[x].currency@ == out@[y].currency@),
                forall|k: int|
                    0 <= k < i && (#[trigger] self.entries@[k]).account_id@ == canonical@
                        ==> covers_key(
                        out@,
                        self.entries@[k].journal_id@,
                        self.entries@[k].currency@,
                    ),
            decreases n - i,
        {
            let matches_account = self.entries[i].account_id == canonical;
            if matches_account {
                // Is this entry's (journal, currency) key already present?
                let mut present = false;
                let mut x: usize = 0;
                while x < out.len()
                    invariant
                        0 <= x <= out@.len(),
                        i < n,
                        n == self.entries@.len(),
                        present ==> covers_key(
                            out@,
                            self.entries@[i as int].journal_id@,
                            self.entries@[i as int].currency@,
                        ),
                        !present ==> forall|x2: int|
                            0 <= x2 < x ==> !((#[trigger] out@[x2]).journal_id@
                                == self.entries@[i as int].journal_id@ && out@[x2].currency@
                                == self.entries@[i as int].currency@),
                    decreases out@.len() - x,
                {
                    if out[x].journal_id == self.entries[i].journal_id && out[x].currency
                        == self.entries[i].currency {
                        present = true;
                    }
                    x = x + 1;
                }
                if !present {
                    proof {
                        self.lemma_entry_ids_canonical(i as int);
                        lemma_canonical_idempotent(self.entries@[i as int].journal_id@);
                        lemma_canonical_idempotent(self.entries@[i as int].account_id@);
                    }
                    let b = match self.find_balance(
                        &self.entries[i].journal_id,
                        &self.entries[i].account_id,
                        &self.entries[i].currency,
                    ) {
                        Ok(b) => b,
                        Err(e) => {
                            proof {
                                // The key has an entry and well-formed
                                // arguments, so only an overflow can stop
                                // the fold.
                                assert(self.entries@[i as int].journal_id@ == spec_canonical_uuid(
                                    self.entries@[i as int].journal_id@,
                                ));
                                assert(self.entries@[i as int].account_id@ == spec_canonical_uuid(
                                    self.entries@[i as int].account_id@,
                                ));
                                assert(!(e is BalanceNotFound));
                                assert(!(e is MalformedId));
                                assert(!(e is Validation));
                                assert(e is AmountOverflow);
                                assert(spec_key_overflows(
                                    self.entries@,
                                    self.entries@[i as int].journal_id@,
                                    self.entries@[i as int].account_id@,
                                    self.entries@[i as int].currency@,
                                ));
                            }
                            return Err(LedgerError::AmountOverflow);
                        },
                    };
                    let ghost out_before = out@;
                    let ghost bsnap = b;
                    out.push(b);
                    proof {
                        assert(out@[out@.len() - 1] == bsnap);
                        assert(bsnap.journal_id@ == self.entries@[i as int].journal_id@);
                        assert(bsnap.account_id@ == canonical@);
                        assert(bsnap.currency@ == self.entries@[i as int].currency@);
                        assert forall|k: int|
                            0 <= k < i + 1 && (#[trigger] self.entries@[k]).account_id@
                                == canonical@ implies covers_key(
                            out@,
                            self.entries@[k].journal_id@,
                            self.entries@[k].currency@,
                        ) by {
                            if k < i {
                                let x = choose|x: int|
                                    0 <= x < out_before.len() && (#[trigger] out_before[x]).journal_id@
                                        == self.entries@[k].journal_id@ && out_before[x].currency@
                                        == self.entries@[k].currency@;
                                assert(out@[x] == out_before[x]);
                            } else {
                                assert(out@[out@.len() - 1].journal_id@
                                    == self.entries@[k].journal_id@ && out@[out@.len()
                                    - 1].currency@ == self.entries@[k].currency@);
                            }
                        }
                        assert forall|x: int| 0 <= x < out@.len() implies (
                        #[trigger] out@[x]).account_id@ == canonical@ && key_touched(
                            self.entries@,
                            out@[x].journal_id@,
                            out@[x].account_id@,
                            out@[x].currency@,
                        ) && out@[x].pending.wf() && out@[x].settled.wf()
                            && out@[x].encumbrance.wf() by {
                            if x < out_before.len() {
                                assert(out@[x] == out_before[x]);
                            } else {
                                assert(out@[x] == bsnap);
                            }
                        }
                    }
                }
                proof {
                    assert forall|k: int|
                        0 <= k < i + 1 && (#[trigger] self.entries@[k]).account_id@ == canonical@
                            implies covers_key(
                        out@,
                        self.entries@[k].journal_id@,
                        self.entries@[k].currency@,
                    ) by {}
                }
            }
            i = i + 1;
        }
        Ok(out)
    }

    /// Every stored entry's identifiers are canonical.
    proof fn lemma_entry_ids_canonical(&self, i: int)
        requires
            self.wf(),
            0 <= i < self.entries@.len(),
        ensures
            spec_is_canonical_uuid(self.entries@[i].journal_id@),
            spec_is_canonical_uuid(self.entries@[i].account_id@),
            spec_is_canonical_uuid(self.entries@[i].transaction_id@),
    {
        assert(self.entries@[i].wf());
    }
}

/// Entries selected from a well-formed log are well-formed.
proof fn lemma_tx_entries_wf(es: Seq<EntryRecord>, txid: Seq<char>)
    requires
        forall|i: int| 0 <= i < es.len() ==> (#[trigger] es[i]).wf(),
    ensures
        forall|i: int|
            0 <= i < spec_tx_entries(es, txid).len() ==> (#[trigger] spec_tx_entries(es, txid)[i]).wf(),
    decreases es.len(),
{
    if es.len() > 0 {
        assert forall|i: int| 0 <= i < es.drop_last().len() implies (
        #[trigger] es.drop_last()[i]).wf() by {
            assert(es.drop_last()[i] == es[i]);
        }
        lemma_tx_entries_wf(es.drop_last(), txid);
        let rec = spec_tx_entries(es.drop_last(), txid);
        assert forall|i: int| 0 <= i < spec_tx_entries(es, txid).len() implies (
        #[trigger] spec_tx_entries(es, txid)[i]).wf() by {
            if es.last().transaction_id@ == txid {
                if i < rec.len() {
                    assert(spec_tx_entries(es, txid)[i] == rec[i]);
                } else {
                    assert(spec_tx_entries(es, txid)[i] == es.last());
                    assert(es.last() == es[es.len() - 1]);
                }
            } else {
                assert(spec_tx_entries(es, txid)[i] == rec[i]);
            }
        }
    }
}

/// A journal pushed with a fresh code is found by its code.
proof fn lemma_pushed_journal_code_found(js: Seq<JournalRecord>, a: JournalRecord)
    requires
        forall|i: int| 0 <= i < js.len() ==> (#[trigger] js[i]).code@ != a.code@,
    ensures
        spec_journal_by_code(js.push(a), a.code@) == Some(a),
    decreases js.len(),
{
    if js.len() == 0 {
        assert(js.push(a)[0] == a);
    } else {
        assert(js.push(a)[0] == js[0]);
        assert(js.push(a).drop_first() =~= js.drop_first().push(a));
        lemma_pushed_journal_code_found(js.drop_first(), a);
    }
}

/// A template pushed with a fresh code is found by its code.
proof fn lemma_pushed_template_code_found(ts: Seq<TxTemplateRecord>, a: TxTemplateRecord)
    requires
        forall|i: int| 0 <= i < ts.len() ==> (#[trigger] ts[i]).code@ != a.code@,
    ensures
        spec_template_by_code(ts.push(a), a.code@) == Some(a),
    decreases ts.len(),
{
    if ts.len() == 0 {
        assert(ts.push(a)[0] == a);
    } else {
        assert(ts.push(a)[0] == ts[0]);
        assert(ts.push(a).drop_first() =~= ts.drop_first().push(a));
        lemma_pushed_template_code_found(ts.drop_first(), a);
    }
}

/// A record pushed with a code no stored record carries is found by its
/// code.
proof fn lemma_pushed_code_found(accs: Seq<AccountRecord>, a: AccountRecord)
    requires
        forall|i: int| 0 <= i < accs.len() ==> (#[trigger] accs[i]).code@ != a.code@,
    ensures
        spec_account_by_code(accs.push(a), a.code@) == Some(a),
    decreases accs.len(),
{
    if accs.len() == 0 {
        assert(accs.push(a)[0] == a);
    } else {
        assert(accs.push(a)[0] == accs[0]);
        assert(accs.push(a).drop_first() =~= accs.drop_first().push(a));
        lemma_pushed_code_found(accs.drop_first(), a);
    }
}

/// Build a canonical identifier from a counter: the counter's sixteen
/// hexadecimal digits spread over the last sixteen digit positions.
fn counter_uuid(n: u64) -> (r: String)
    ensures
        spec_is_canonical_uuid(r@),
{
    let mut out = String::new();
    let mut digits: Vec<u8> = Vec::new();
    let mut v = n;
    let mut d: usize = 0;
    while d < 16
        invariant
            0 <= d <= 16,
            digits@.len() == d,
            forall|x: int| 0 <= x < d ==> digits@[x] < 16,
        decreases 16 - d,
    {
        digits.push((v % 16) as u8);
        v = v / 16;
        d = d + 1;
    }
    let mut i: usize = 0;
    while i < 36
        invariant
            0 <= i <= 36,
            out@.len() == i,
            digits@.len() == 16,
            forall|x: int| 0 <= x < 16 ==> digits@[x] < 16,
            forall|j: int|
                0 <= j < i ==> (if j == 8 || j == 13 || j == 18 || j == 23 {
                    out@[j] == '-'
                } else {
                    crate::types::spec_is_hex_lower(out@[j])
                }),
        decreases 36 - i,
    {
        let c: char = if i == 8 || i == 13 || i == 18 || i == 23 {
            '-'
        } else if i < 20 {
            '0'
        } else {
            hex_char(digits[35 - i])
        };
        crate::types::push_char(&mut out, c);
        i = i + 1;
    }
    out
}

/// The lower-case hexadecimal digit character.
fn hex_char(d: u8) -> (r: char)
    requires
        d < 16,
    ensures
        crate::types::spec_is_hex_lower(r),
{
    if d < 10 {
        (48 + d) as char
    } else {
        (87 + d) as char
    }
}

} // verus!
