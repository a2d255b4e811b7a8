//! The ledger's cross-operation laws, stated and proved once over the
//! specifications the operations' own contracts use.

use crate::cursor::{lemma_str_lt_trichotomy, spec_page_count, spec_page_skip, spec_str_lt};
use crate::ledger::{
    entries_sum, lemma_entries_sum_append, lemma_entries_sum_negated, spec_tx_entries,
    AccountRecord, EntryRecord,
};
use crate::types::{Direction, Layer};
use vstd::prelude::*;

verus! {

/// Idempotent void: applying a transaction's entries and then their exact
/// reversal (same journal, account, currency, layer and magnitude,
/// opposite direction) leaves every balance key's signed sum exactly where
/// it stood before the transaction.
pub proof fn lemma_void_restores_balances(
    log0: Seq<EntryRecord>,
    seg: Seq<EntryRecord>,
    rev: Seq<EntryRecord>,
    j: Seq<char>,
    a: Seq<char>,
    c: Seq<char>,
    l: Layer,
)
    requires
        seg.len() == rev.len(),
        forall|i: int|
            0 <= i < seg.len() ==> (#[trigger] rev[i]).journal_id@ == seg[i].journal_id@
                && rev[i].account_id@ == seg[i].account_id@ && rev[i].currency@
                == seg[i].currency@ && rev[i].layer == seg[i].layer && rev[i].units
                == seg[i].units && rev[i].direction == (match seg[i].direction {
                Direction::Debit => Direction::Credit,
                Direction::Credit => Direction::Debit,
            }),
    ensures
        entries_sum(log0 + seg + rev, j, a, c, l) == entries_sum(log0, j, a, c, l),
{
    lemma_entries_sum_append(log0 + seg, rev, j, a, c, l);
    lemma_entries_sum_append(log0, seg, j, a, c, l);
    lemma_entries_sum_negated(seg, rev, j, a, c, l);
}

/// A freshly posted transaction's entries are exactly what a later lookup
/// of that transaction finds: the log before the post holds none of its
/// entries, so selecting by its identifier returns the appended segment.
pub proof fn lemma_tx_entries_of_append(
    log0: Seq<EntryRecord>,
    seg: Seq<EntryRecord>,
    txid: Seq<char>,
)
    requires
        forall|i: int| 0 <= i < log0.len() ==> (#[trigger] log0[i]).transaction_id@ != txid,
        forall|i: int| 0 <= i < seg.len() ==> (#[trigger] seg[i]).transaction_id@ == txid,
    ensures
        spec_tx_entries(log0 + seg, txid) == seg,
    decreases seg.len(),
{
    if seg.len() == 0 {
        assert(log0 + seg =~= log0);
        lemma_tx_entries_none(log0, txid);
        assert(spec_tx_entries(log0 + seg, txid) =~= seg);
    } else {
        assert((log0 + seg).drop_last() =~= log0 + seg.drop_last());
        assert((log0 + seg).last() == seg.last());
        assert forall|i: int| 0 <= i < seg.drop_last().len() implies (
        #[trigger] seg.drop_last()[i]).transaction_id@ == txid by {
            assert(seg.drop_last()[i] == seg[i]);
        }
        lemma_tx_entries_of_append(log0, seg.drop_last(), txid);
        assert(spec_tx_entries(log0 + seg, txid) =~= seg);
    }
}

/// A log without a transaction's entries selects nothing for it.
pub proof fn lemma_tx_entries_none(log0: Seq<EntryRecord>, txid: Seq<char>)
    requires
        forall|i: int| 0 <= i < log0.len() ==> (#[trigger] log0[i]).transaction_id@ != txid,
    ensures
        spec_tx_entries(log0, txid) == Seq::<EntryRecord>::empty(),
    decreases log0.len(),
{
    if log0.len() > 0 {
        assert forall|i: int| 0 <= i < log0.drop_last().len() implies (
        #[trigger] log0.drop_last()[i]).transaction_id@ != txid by {
            assert(log0.drop_last()[i] == log0[i]);
        }
        lemma_tx_entries_none(log0.drop_last(), txid);
    }
}

/// Optimistic concurrency: once one writer has advanced an aggregate from
/// the version both writers read, the aggregate carries the next version
/// and no record with that identity still carries the one cited — so by
/// the update contract the second writer cannot succeed, and the version
/// has advanced by exactly one overall.
pub proof fn lemma_conflicting_update_stale(
    before: Seq<AccountRecord>,
    after: Seq<AccountRecord>,
    i: int,
    id: Seq<char>,
    cited: u32,
    winner: AccountRecord,
)
    requires
        0 <= i < before.len(),
        before[i].id@ == id,
        before[i].version == cited,
        cited < 0xffffffffu32,
        winner.id@ == id,
        winner.version == cited + 1,
        after == before.update(i, winner),
        // identities are unique on both sides
        forall|x: int, y: int|
            0 <= x < y < before.len() ==> (#[trigger] before[x]).id@ != (#[trigger] before[y]).id@,
    ensures
        after[i].id@ == id && after[i].version == cited + 1,
        forall|x: int|
            0 <= x < after.len() && (#[trigger] after[x]).id@ == id ==> after[x].version == cited
                + 1,
{
    assert forall|x: int| 0 <= x < after.len() && (#[trigger] after[x]).id@ == id implies after[x].version
        == cited + 1 by {
        if x != i {
            assert(after[x] == before[x]);
            assert(before[x].id@ != before[i].id@) by {
                if x < i {
                    assert(before[x].id@ != before[i].id@);
                }
            }
        }
    }
}

/// Pagination partitions: under a page's contract, every stored code the
/// cursor admits lies either on the page (at or below its last code) or
/// strictly beyond it — never both, and never neither.  Following
/// `end_cursor` page by page therefore yields every admitted item exactly
/// once, in ascending code order, with no gaps.
pub proof fn lemma_page_partitions(
    stored: Seq<AccountRecord>,
    page: Seq<AccountRecord>,
    k: int,
)
    requires
        page.len() > 0,
        0 <= k < stored.len(),
        // the page is strictly ascending by code
        forall|x: int, y: int|
            0 <= x < y < page.len() ==> spec_str_lt(
                (#[trigger] page[x]).code@,
                (#[trigger] page[y]).code@,
            ),
        // completeness: an admitted stored code not beyond the last is on
        // the page
        !spec_str_lt(page.last().code@, stored[k].code@) ==> exists|x: int|
            0 <= x < page.len() && #[trigger] page[x] == stored[k],
    ensures
        spec_str_lt(page.last().code@, stored[k].code@) || exists|x: int|
            0 <= x < page.len() && #[trigger] page[x] == stored[k],
        !(spec_str_lt(page.last().code@, stored[k].code@) && exists|x: int|
            0 <= x < page.len() && #[trigger] page[x] == stored[k]),
{
    lemma_str_lt_trichotomy(page.last().code@, stored[k].code@);
    if spec_str_lt(page.last().code@, stored[k].code@) {
        if exists|x: int| 0 <= x < page.len() && #[trigger] page[x] == stored[k] {
            let x = choose|x: int| 0 <= x < page.len() && #[trigger] page[x] == stored[k];
            if x < page.len() - 1 {
                assert(spec_str_lt(page[x].code@, page.last().code@)) by {
                    assert(page.last() == page[page.len() - 1]);
                }
                crate::cursor::lemma_str_lt_trans(
                    page[x].code@,
                    page.last().code@,
                    stored[k].code@,
                );
                lemma_str_lt_trichotomy(page[x].code@, stored[k].code@);
            } else {
                assert(page[x] == page.last());
            }
            assert(false);
        }
    }
}

/// The resume position after following `q` pages of size `k` from the
/// start of a selection of length `len`, as the position-paged listings
/// compute it: each page starts at the previous cursor and its cursor is
/// the position just past it.
pub open spec fn spec_chain_pos(q: nat, k: int, len: int) -> int
    decreases q,
{
    if q == 0 {
        0
    } else {
        let prev = spec_chain_pos((q - 1) as nat, k, len);
        let skip = spec_page_skip(prev, len);
        skip + spec_page_count(skip, k, len)
    }
}

/// Pagination completeness for the position-paged listings: after `q`
/// pages of size `k` the resume position stands at `min(q*k, len)`, so the
/// pages are consecutive, disjoint slices; once `q*k` reaches the
/// selection's length the pages together hold every item exactly once, in
/// order, and the listing reports no next page.
pub proof fn lemma_position_pages_complete(q: nat, k: int, len: int)
    requires
        k >= 0,
        len >= 0,
    ensures
        spec_chain_pos(q, k, len) == (if q * k <= len {
            q * k
        } else {
            len
        }),
    decreases q,
{
    if q == 0 {
        assert(q * k == 0) by (nonlinear_arith)
            requires
                q == 0,
        ;
    } else {
        lemma_position_pages_complete((q - 1) as nat, k, len);
        let prev = spec_chain_pos((q - 1) as nat, k, len);
        assert(q * k == (q - 1) as nat * k + k) by (nonlinear_arith)
            requires
                q >= 1,
        ;
        assert(0 <= prev <= len);
        let skip = spec_page_skip(prev, len);
        assert(skip == prev);
        assert(skip + spec_page_count(skip, k, len) == (if prev + k <= len {
            prev + k
        } else {
            len
        }));
        assert((q - 1) as nat * k >= 0) by (nonlinear_arith)
            requires
                k >= 0,
        ;
    }
}

} // verus!
