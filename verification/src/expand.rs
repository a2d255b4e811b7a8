//! Template expansion: from a validated template and a bag of typed
//! arguments to a balanced draft transaction.
//!
//! Expansion has no side effects and may be retried freely.  It binds the
//! arguments, evaluates the transaction-shape expressions, evaluates every
//! entry's expressions in declaration order, and verifies that for every
//! (currency, layer) pair the signed entry magnitudes (debit positive,
//! credit negative — the convention used throughout) sum to exactly zero.

use crate::decimal::{add_overflows, lemma_add_dec_val, spec_neg, Dec, MAX_SCALE};
use crate::expr::{
    as_dec, env_view, eval, spec_add_dec, spec_as_dec, spec_eval, view_of, EvalFailure, Expr,
    SpecFailure, SpecVal,
};
use crate::params::{
    bind_params, is_canonical_uuid, parse_rfc3339_date, spec_bind_one, spec_parse_rfc3339_date,
    NewParamDefinitionValues, ParamArg, ParamValue, Params,
};
use crate::template::{TemplateEntry, TxTemplateRecord};
use crate::types::{
    direction_from_string, is_currency_code, layer_from_string, spec_direction_from,
    spec_is_canonical_uuid, spec_is_currency, spec_layer_from, DateVal, Direction, Layer,
    LedgerError,
};
use vstd::arithmetic::mul::lemma_mul_by_zero_is_zero;
use vstd::arithmetic::mul::lemma_mul_unary_negation;
use vstd::arithmetic::power::pow;
use vstd::prelude::*;

verus! {

/// A drafted entry, ready to persist.  All entries of a draft share the
/// draft's journal.
pub struct DraftEntry {
    pub entry_type: String,
    pub account_id: String,
    pub layer: Layer,
    pub units: Dec,
    pub currency: String,
    pub direction: Direction,
    pub description: Option<String>,
    pub metadata: Option<String>,
}

/// A drafted transaction: the resolved header and its entries, in template
/// declaration order.
pub struct DraftTransaction {
    pub effective: DateVal,
    pub journal_id: String,
    pub correlation_id: Option<String>,
    pub external_id: Option<String>,
    pub description: Option<String>,
    pub metadata: Option<String>,
    pub entries: Vec<DraftEntry>,
}

impl DraftEntry {
    /// Structural validity of a drafted entry.
    pub open spec fn wf(self) -> bool {
        &&& spec_is_canonical_uuid(self.account_id@)
        &&& self.units.wf()
        &&& spec_is_currency(self.currency@)
    }
}

impl DraftTransaction {
    /// Structural validity of a draft.
    pub open spec fn wf(self) -> bool {
        &&& self.effective.wf()
        &&& spec_is_canonical_uuid(self.journal_id@)
        &&& forall|i: int| 0 <= i < self.entries@.len() ==> (#[trigger] self.entries@[i]).wf()
    }
}

/// What the balance invariant reads of an entry: its currency, layer,
/// direction and magnitude.
pub ghost struct GroupItem {
    pub cur: Seq<char>,
    pub lay: Layer,
    pub dir: Direction,
    pub units: Dec,
}

/// The balance-relevant projection of a drafted entry.
pub open spec fn item_of(e: DraftEntry) -> GroupItem {
    GroupItem { cur: e.currency@, lay: e.layer, dir: e.direction, units: e.units }
}

/// The balance-relevant projection of a sequence of drafted entries.
pub open spec fn items_of(es: Seq<DraftEntry>) -> Seq<GroupItem> {
    es.map_values(|e: DraftEntry| item_of(e))
}

/// The abstract environment a template's parameters and a bag of arguments
/// bind to (meaningful where every binding succeeds).
pub open spec fn spec_bound_env(
    defs: Seq<NewParamDefinitionValues>,
    inputs: Seq<ParamArg>,
) -> Seq<(Seq<char>, SpecVal)> {
    Seq::new(
        defs.len(),
        |i: int|
            (
                defs[i].name@,
                view_of(
                    match spec_bind_one(defs[i], inputs) {
                        Ok(v) => v,
                        Err(_) => ParamValue::VBool(false),
                    },
                ),
            ),
    )
}

/// The date a field result denotes: a date value, or RFC 3339 text.
pub open spec fn spec_date_of(res: Result<SpecVal, SpecFailure>) -> Option<DateVal> {
    match res {
        Ok(SpecVal::SvDate(d)) => Some(d),
        Ok(SpecVal::SvStr(s)) => match spec_parse_rfc3339_date(s) {
            Some(d) => Some(DateVal { year: d.0, month: d.1, day: d.2 }),
            None => None,
        },
        _ => None,
    }
}

/// The identifier a field result denotes: an identifier value, or canonical
/// UUID text.
pub open spec fn spec_uuid_of(res: Result<SpecVal, SpecFailure>) -> Option<Seq<char>> {
    match res {
        Ok(SpecVal::SvUuid(u)) => Some(u),
        Ok(SpecVal::SvStr(s)) => if spec_is_canonical_uuid(s) {
            Some(s)
        } else {
            None
        },
        _ => None,
    }
}

/// The text a field result denotes.
pub open spec fn spec_str_of(res: Result<SpecVal, SpecFailure>) -> Option<Seq<char>> {
    match res {
        Ok(SpecVal::SvStr(s)) => Some(s),
        _ => None,
    }
}

/// The metadata text a field result denotes: structured or plain text.
pub open spec fn spec_meta_of(res: Result<SpecVal, SpecFailure>) -> Option<Seq<char>> {
    match res {
        Ok(SpecVal::SvJson(s)) => Some(s),
        Ok(SpecVal::SvStr(s)) => Some(s),
        _ => None,
    }
}

/// The amount a field result denotes: any numeric value.
pub open spec fn spec_units_of(res: Result<SpecVal, SpecFailure>) -> Option<Dec> {
    match res {
        Ok(v) => spec_as_dec(v),
        _ => None,
    }
}

/// The layer a field result denotes, by its upper-case name.
pub open spec fn spec_layer_of(res: Result<SpecVal, SpecFailure>) -> Option<Layer> {
    match res {
        Ok(SpecVal::SvStr(s)) => spec_layer_from(s),
        _ => None,
    }
}

/// The direction a field result denotes, by its upper-case name.
pub open spec fn spec_direction_of(res: Result<SpecVal, SpecFailure>) -> Option<Direction> {
    match res {
        Ok(SpecVal::SvStr(s)) => spec_direction_from(s),
        _ => None,
    }
}

/// The currency a field result denotes.
pub open spec fn spec_currency_of(res: Result<SpecVal, SpecFailure>) -> Option<Seq<char>> {
    match res {
        Ok(SpecVal::SvStr(s)) => if spec_is_currency(s) {
            Some(s)
        } else {
            None
        },
        _ => None,
    }
}

/// How a failed field maps to the ledger's error taxonomy: an unknown
/// variable names the undeclared parameter, an arithmetic overflow is
/// reported as such, and everything else is a type mismatch naming the
/// field.
pub open spec fn spec_field_failed(
    res: Result<SpecVal, SpecFailure>,
    field: Seq<char>,
    err: LedgerError,
) -> bool {
    match res {
        Err(SpecFailure::FUnknownVar(n)) => err matches LedgerError::UndeclaredParam { name }
            && name@ == n,
        Err(SpecFailure::FOverflow) => err is AmountOverflow,
        _ => err matches LedgerError::EvalTypeMismatch { field: f } && f@ == field,
    }
}

/// Translate an evaluation failure.
fn map_failure(f: EvalFailure, field: &str) -> (r: LedgerError)
    ensures
        match f {
            EvalFailure::UnknownVar { name } => r matches LedgerError::UndeclaredParam {
                name: n,
            } && n@ == name@,
            EvalFailure::WrongType => r matches LedgerError::EvalTypeMismatch { field: g } && g@
                == field@,
            EvalFailure::Overflow => r is AmountOverflow,
        },
{
    match f {
        EvalFailure::UnknownVar { name } => LedgerError::UndeclaredParam { name },
        EvalFailure::WrongType => LedgerError::EvalTypeMismatch { field: field.to_owned() },
        EvalFailure::Overflow => LedgerError::AmountOverflow,
    }
}

/// Evaluate a field to a date.
fn eval_date(e: &Expr, env: &Params, field: &str) -> (r: Result<DateVal, LedgerError>)
    requires
        e.wf(),
        env.wf(),
    ensures
        match r {
            Ok(d) => spec_date_of(spec_eval(*e, env_view(env.bound@))) == Some(d) && d.wf(),
            Err(err) => spec_date_of(spec_eval(*e, env_view(env.bound@))) is None
                && spec_field_failed(spec_eval(*e, env_view(env.bound@)), field@, err),
        },
{
    match eval(e, env) {
        Ok(ParamValue::VDate(d)) => Ok(d),
        Ok(ParamValue::VStr(s)) => match parse_rfc3339_date(&s) {
            Some(d) => Ok(d),
            None => Err(LedgerError::EvalTypeMismatch { field: field.to_owned() }),
        },
        Ok(_) => Err(LedgerError::EvalTypeMismatch { field: field.to_owned() }),
        Err(f) => Err(map_failure(f, field)),
    }
}

/// Evaluate a field to a canonical identifier.
fn eval_uuid(e: &Expr, env: &Params, field: &str) -> (r: Result<String, LedgerError>)
    requires
        e.wf(),
        env.wf(),
    ensures
        match r {
            Ok(u) => spec_uuid_of(spec_eval(*e, env_view(env.bound@))) == Some(u@)
                && spec_is_canonical_uuid(u@),
            Err(err) => spec_uuid_of(spec_eval(*e, env_view(env.bound@))) is None
                && spec_field_failed(spec_eval(*e, env_view(env.bound@)), field@, err),
        },
{
    match eval(e, env) {
        Ok(ParamValue::VUuid(u)) => Ok(u),
        Ok(ParamValue::VStr(s)) => {
            if is_canonical_uuid(&s) {
                Ok(s)
            } else {
                Err(LedgerError::EvalTypeMismatch { field: field.to_owned() })
            }
        },
        Ok(_) => Err(LedgerError::EvalTypeMismatch { field: field.to_owned() }),
        Err(f) => Err(map_failure(f, field)),
    }
}

/// Evaluate a field to text.
fn eval_str(e: &Expr, env: &Params, field: &str) -> (r: Result<String, LedgerError>)
    requires
        e.wf(),
        env.wf(),
    ensures
        match r {
            Ok(s) => spec_str_of(spec_eval(*e, env_view(env.bound@))) == Some(s@),
            Err(err) => spec_str_of(spec_eval(*e, env_view(env.bound@))) is None
                && spec_field_failed(spec_eval(*e, env_view(env.bound@)), field@, err),
        },
{
    match eval(e, env) {
        Ok(ParamValue::VStr(s)) => Ok(s),
        Ok(_) => Err(LedgerError::EvalTypeMismatch { field: field.to_owned() }),
        Err(f) => Err(map_failure(f, field)),
    }
}

/// Evaluate a field to metadata text.
fn eval_meta(e: &Expr, env: &Params, field: &str) -> (r: Result<String, LedgerError>)
    requires
        e.wf(),
        env.wf(),
    ensures
        match r {
            Ok(s) => spec_meta_of(spec_eval(*e, env_view(env.bound@))) == Some(s@),
            Err(err) => spec_meta_of(spec_eval(*e, env_view(env.bound@))) is None
                && spec_field_failed(spec_eval(*e, env_view(env.bound@)), field@, err),
        },
{
    match eval(e, env) {
        Ok(ParamValue::VJson(s)) => Ok(s),
        Ok(ParamValue::VStr(s)) => Ok(s),
        Ok(_) => Err(LedgerError::EvalTypeMismatch { field: field.to_owned() }),
        Err(f) => Err(map_failure(f, field)),
    }
}

/// Evaluate a field to an amount.
fn eval_units(e: &Expr, env: &Params, field: &str) -> (r: Result<Dec, LedgerError>)
    requires
        e.wf(),
        env.wf(),
    ensures
        match r {
            Ok(d) => spec_units_of(spec_eval(*e, env_view(env.bound@))) == Some(d) && d.wf(),
            Err(err) => spec_units_of(spec_eval(*e, env_view(env.bound@))) is None
                && spec_field_failed(spec_eval(*e, env_view(env.bound@)), field@, err),
        },
{
    match eval(e, env) {
        Ok(v) => match as_dec(&v) {
            Some(d) => Ok(d),
            None => Err(LedgerError::EvalTypeMismatch { field: field.to_owned() }),
        },
        Err(f) => Err(map_failure(f, field)),
    }
}

/// Evaluate a field to a layer.
fn eval_layer(e: &Expr, env: &Params, field: &str) -> (r: Result<Layer, LedgerError>)
    requires
        e.wf(),
        env.wf(),
    ensures
        match r {
            Ok(l) => spec_layer_of(spec_eval(*e, env_view(env.bound@))) == Some(l),
            Err(err) => spec_layer_of(spec_eval(*e, env_view(env.bound@))) is None
                && spec_field_failed(spec_eval(*e, env_view(env.bound@)), field@, err),
        },
{
    match eval(e, env) {
        Ok(ParamValue::VStr(s)) => match layer_from_string(&s) {
            Some(l) => Ok(l),
            None => Err(LedgerError::EvalTypeMismatch { field: field.to_owned() }),
        },
        Ok(_) => Err(LedgerError::EvalTypeMismatch { field: field.to_owned() }),
        Err(f) => Err(map_failure(f, field)),
    }
}

/// Evaluate a field to a direction.
fn eval_direction(e: &Expr, env: &Params, field: &str) -> (r: Result<Direction, LedgerError>)
    requires
        e.wf(),
        env.wf(),
    ensures
        match r {
            Ok(d) => spec_direction_of(spec_eval(*e, env_view(env.bound@))) == Some(d),
            Err(err) => spec_direction_of(spec_eval(*e, env_view(env.bound@))) is None
                && spec_field_failed(spec_eval(*e, env_view(env.bound@)), field@, err),
        },
{
    match eval(e, env) {
        Ok(ParamValue::VStr(s)) => match direction_from_string(&s) {
            Some(d) => Ok(d),
            None => Err(LedgerError::EvalTypeMismatch { field: field.to_owned() }),
        },
        Ok(_) => Err(LedgerError::EvalTypeMismatch { field: field.to_owned() }),
        Err(f) => Err(map_failure(f, field)),
    }
}

/// Evaluate a field to a currency code.
fn eval_currency(e: &Expr, env: &Params, field: &str) -> (r: Result<String, LedgerError>)
    requires
        e.wf(),
        env.wf(),
    ensures
        match r {
            Ok(c) => spec_currency_of(spec_eval(*e, env_view(env.bound@))) == Some(c@)
                && spec_is_currency(c@),
            Err(err) => spec_currency_of(spec_eval(*e, env_view(env.bound@))) is None
                && spec_field_failed(spec_eval(*e, env_view(env.bound@)), field@, err),
        },
{
    match eval(e, env) {
        Ok(ParamValue::VStr(s)) => {
            if is_currency_code(&s) {
                Ok(s)
            } else {
                Err(LedgerError::EvalTypeMismatch { field: field.to_owned() })
            }
        },
        Ok(_) => Err(LedgerError::EvalTypeMismatch { field: field.to_owned() }),
        Err(f) => Err(map_failure(f, field)),
    }
}

/// The item magnitude with its sign: debit positive, credit negative.
pub open spec fn item_signed(e: GroupItem) -> Dec {
    if e.dir is Debit {
        e.units
    } else {
        spec_neg(e.units)
    }
}

/// The signed integer contribution of one item to a (currency, layer)
/// group: its `val` for a debit, the negation for a credit, zero where the
/// item belongs to another group.
pub open spec fn group_contribution(e: GroupItem, cur: Seq<char>, lay: Layer) -> int {
    if e.cur == cur && e.lay == lay {
        if e.dir is Debit {
            e.units.val()
        } else {
            -e.units.val()
        }
    } else {
        0
    }
}

/// The signed sum of a (currency, layer) group, as an unbounded integer.
pub open spec fn spec_group_sum(es: Seq<GroupItem>, cur: Seq<char>, lay: Layer) -> int
    decreases es.len(),
{
    if es.len() == 0 {
        0
    } else {
        spec_group_sum(es.drop_last(), cur, lay) + group_contribution(es.last(), cur, lay)
    }
}

/// The decimal fold of a (currency, layer) group, exactly as the balance
/// check computes it; `None` where a partial sum leaves the representable
/// range.
pub open spec fn spec_group_fold(es: Seq<GroupItem>, cur: Seq<char>, lay: Layer) -> Option<Dec>
    decreases es.len(),
{
    if es.len() == 0 {
        Some(Dec { mantissa: 0, scale: 0 })
    } else {
        match spec_group_fold(es.drop_last(), cur, lay) {
            Some(acc) => {
                let e = es.last();
                if e.cur == cur && e.lay == lay {
                    if add_overflows(acc, item_signed(e)) {
                        None
                    } else {
                        Some(spec_add_dec(acc, item_signed(e)))
                    }
                } else {
                    Some(acc)
                }
            },
            None => None,
        }
    }
}

/// Every (currency, layer) group folds without overflow to a decimal
/// denoting zero.
pub open spec fn spec_balanced(es: Seq<GroupItem>) -> bool {
    forall|cur: Seq<char>, lay: Layer|
        match #[trigger] spec_group_fold(es, cur, lay) {
            Some(s) => s.val() == 0,
            None => false,
        }
}

/// A successful group fold is well-formed and denotes the group's signed
/// sum.
pub proof fn lemma_fold_val(es: Seq<GroupItem>, cur: Seq<char>, lay: Layer)
    requires
        forall|i: int| 0 <= i < es.len() ==> (#[trigger] es[i]).units.wf(),
    ensures
        match spec_group_fold(es, cur, lay) {
            Some(d) => d.wf() && d.val() == spec_group_sum(es, cur, lay),
            None => true,
        },
    decreases es.len(),
{
    if es.len() > 0 {
        lemma_fold_val(es.drop_last(), cur, lay);
        match spec_group_fold(es.drop_last(), cur, lay) {
            Some(acc) => {
                let e = es.last();
                if e.cur == cur && e.lay == lay {
                    let s = item_signed(e);
                    assert(s.wf() && s.val() == (if e.dir is Debit {
                        e.units.val()
                    } else {
                        -e.units.val()
                    })) by {
                        if !(e.dir is Debit) {
                            lemma_mul_unary_negation(
                                e.units.mantissa as int,
                                pow(10, (MAX_SCALE - e.units.scale) as nat),
                            );
                        }
                    }
                    if acc.wf() && !add_overflows(acc, s) {
                        lemma_add_dec_val(acc, s);
                    }
                }
            },
            None => {},
        }
    } else {
        lemma_mul_by_zero_is_zero(pow(10, MAX_SCALE as nat));
    }
}

/// A group no item belongs to folds to zero.
pub proof fn lemma_fold_no_match(es: Seq<GroupItem>, cur: Seq<char>, lay: Layer)
    requires
        forall|i: int| 0 <= i < es.len() ==> !((#[trigger] es[i]).cur == cur && es[i].lay == lay),
    ensures
        spec_group_fold(es, cur, lay) == Some(Dec { mantissa: 0, scale: 0 }),
        (Dec { mantissa: 0, scale: 0 }).val() == 0,
    decreases es.len(),
{
    lemma_mul_by_zero_is_zero(pow(10, MAX_SCALE as nat));
    if es.len() > 0 {
        lemma_fold_no_match(es.drop_last(), cur, lay);
        assert(!(es.last().cur == cur && es.last().lay == lay));
    }
}

/// A fold that has overflowed stays overflowed as the prefix grows.
proof fn lemma_fold_prefix_none(es: Seq<GroupItem>, k: int, m: int, cur: Seq<char>, lay: Layer)
    requires
        0 <= k <= m <= es.len(),
        spec_group_fold(es.subrange(0, k), cur, lay) is None,
    ensures
        spec_group_fold(es.subrange(0, m), cur, lay) is None,
    decreases m - k,
{
    if m > k {
        lemma_fold_prefix_none(es, k, m - 1, cur, lay);
        assert(es.subrange(0, m).drop_last() =~= es.subrange(0, m - 1));
    }
}

/// Check the balance invariant over drafted entries.
///
/// Returns `Ok` exactly when every (currency, layer) group folds without
/// overflow to zero ([`spec_balanced`]); otherwise `AmountOverflow` where a
/// partial group sum left the representable range, or
/// `UnbalancedTransaction` naming the journal, currency and layer of a
/// group whose sum is not zero.
pub fn check_balanced(entries: &Vec<DraftEntry>, journal_id: &String) -> (r: Result<
    (),
    LedgerError,
>)
    requires
        forall|i: int| 0 <= i < entries@.len() ==> (#[trigger] entries@[i]).units.wf(),
    ensures
        r is Ok <==> spec_balanced(items_of(entries@)),
        r matches Err(e) ==> (e is AmountOverflow && (exists|cur: Seq<char>, lay: Layer|
            #[trigger] spec_group_fold(items_of(entries@), cur, lay) is None)) || (
        e matches LedgerError::UnbalancedTransaction {
            journal_id: j,
            currency,
            layer,
        } && j@ == journal_id@ && (match spec_group_fold(items_of(entries@), currency@, layer) {
            Some(s) => s.val() != 0,
            None => false,
        })),
{
    let ghost items = items_of(entries@);
    proof {
        assert(items.len() == entries@.len());
        assert(forall|i: int| 0 <= i < items.len() ==> (#[trigger] items[i]).units.wf());
    }
    let n = entries.len();
    let mut i: usize = 0;
    while i < n
        invariant
            n == entries@.len(),
            items == items_of(entries@),
            items.len() == n,
            0 <= i <= n,
            forall|i2: int| 0 <= i2 < n ==> (#[trigger] items[i2]).units.wf(),
            forall|j: int|
                0 <= j < i ==> (match spec_group_fold(
                    items,
                    (#[trigger] items[j]).cur,
                    items[j].lay,
                ) {
                    Some(s) => s.val() == 0,
                    None => false,
                }),
        decreases n - i,
    {
        // Skip keys already checked at an earlier entry.
        let mut seen = false;
        let mut j: usize = 0;
        while j < i
            invariant
                0 <= j <= i < n,
                n == entries@.len(),
                items == items_of(entries@),
                items.len() == n,
                seen ==> exists|j2: int|
                    0 <= j2 < i && (#[trigger] items[j2]).cur == items[i as int].cur
                        && items[j2].lay == items[i as int].lay,
            decreases i - j,
        {
            if entries[j].currency == entries[i].currency && entries[j].layer == entries[i].layer {
                proof {
                    assert(items[j as int].cur == items[i as int].cur && items[j as int].lay
                        == items[i as int].lay);
                }
                seen = true;
            }
            j = j + 1;
        }
        if !seen {
            // Fold the whole list for this entry's key.
            let ghost cur = items[i as int].cur;
            let ghost lay = items[i as int].lay;
            let mut acc = Dec { mantissa: 0, scale: 0 };
            let mut k: usize = 0;
            proof {
                assert(items.subrange(0, 0).len() == 0);
            }
            while k < n
                invariant
                    n == entries@.len(),
                    items == items_of(entries@),
                    items.len() == n,
                    0 <= k <= n,
                    forall|i2: int| 0 <= i2 < n ==> (#[trigger] items[i2]).units.wf(),
                    cur == items[i as int].cur,
                    lay == items[i as int].lay,
                    i < n,
                    acc.wf(),
                    spec_group_fold(items.subrange(0, k as int), cur, lay) == Some(acc),
                decreases n - k,
            {
                proof {
                    assert(items.subrange(0, k + 1 as int).drop_last() =~= items.subrange(
                        0,
                        k as int,
                    ));
                    assert(items.subrange(0, k + 1 as int).last() == items[k as int]);
                }
                let e = &entries[k];
                let key_match = e.currency == entries[i].currency && e.layer == entries[i].layer;
                if key_match {
                    let signed = if matches!(e.direction, Direction::Debit) {
                        e.units
                    } else {
                        e.units.neg()
                    };
                    proof {
                        assert(signed == item_signed(items[k as int]));
                    }
                    match acc.add(signed) {
                        Some(next) => {
                            acc = next;
                        },
                        None => {
                            proof {
                                lemma_fold_prefix_none(items, k + 1, n as int, cur, lay);
                                assert(items.subrange(0, n as int) =~= items);
                                assert(!spec_balanced(items));
                                assert(spec_group_fold(items, cur, lay) is None);
                            }
                            return Err(LedgerError::AmountOverflow);
                        },
                    }
                }
                k = k + 1;
            }
            proof {
                assert(items.subrange(0, n as int) =~= items);
            }
            if !acc.is_zero() {
                proof {
                    assert(!spec_balanced(items));
                }
                return Err(
                    LedgerError::UnbalancedTransaction {
                        journal_id: journal_id.clone(),
                        currency: entries[i].currency.clone(),
                        layer: entries[i].layer,
                    },
                );
            }
        }
        i = i + 1;
    }
    proof {
        assert forall|cur: Seq<char>, lay: Layer|
            match #[trigger] spec_group_fold(items, cur, lay) {
                Some(s) => s.val() == 0,
                None => false,
            } by {
            if exists|k: int| 0 <= k < n && (#[trigger] items[k]).cur == cur && items[k].lay == lay {
                let k = choose|k: int|
                    0 <= k < n && (#[trigger] items[k]).cur == cur && items[k].lay == lay;
                assert(match spec_group_fold(items, items[k].cur, items[k].lay) {
                    Some(s) => s.val() == 0,
                    None => false,
                });
            } else {
                lemma_fold_no_match(items, cur, lay);
            }
        }
    }
    Ok(())
}

/// Every field of one template entry evaluates to a value of the needed
/// type.
pub open spec fn spec_entry_ok(te: TemplateEntry, env: Seq<(Seq<char>, SpecVal)>) -> bool {
    &&& spec_str_of(spec_eval(te.entry_type, env)) is Some
    &&& spec_uuid_of(spec_eval(te.account_id, env)) is Some
    &&& spec_layer_of(spec_eval(te.layer, env)) is Some
    &&& spec_direction_of(spec_eval(te.direction, env)) is Some
    &&& spec_units_of(spec_eval(te.units, env)) is Some
    &&& spec_currency_of(spec_eval(te.currency, env)) is Some
    &&& (te.description matches Some(e) ==> spec_str_of(spec_eval(e, env)) is Some)
    &&& (te.metadata matches Some(e) ==> spec_meta_of(spec_eval(e, env)) is Some)
}

/// The balance-relevant item one template entry denotes under `env`
/// (meaningful where [`spec_entry_ok`] holds).
pub open spec fn spec_denoted_item(te: TemplateEntry, env: Seq<(Seq<char>, SpecVal)>) -> GroupItem {
    GroupItem {
        cur: match spec_currency_of(spec_eval(te.currency, env)) {
            Some(c) => c,
            None => Seq::empty(),
        },
        lay: match spec_layer_of(spec_eval(te.layer, env)) {
            Some(l) => l,
            None => Layer::Settled,
        },
        dir: match spec_direction_of(spec_eval(te.direction, env)) {
            Some(d) => d,
            None => Direction::Debit,
        },
        units: match spec_units_of(spec_eval(te.units, env)) {
            Some(u) => u,
            None => Dec { mantissa: 0, scale: 0 },
        },
    }
}

/// The balance-relevant items a template denotes under a bag of arguments.
pub open spec fn spec_denoted_items(tpl: TxTemplateRecord, args: Seq<ParamArg>) -> Seq<GroupItem> {
    Seq::new(
        tpl.entries@.len(),
        |i: int| spec_denoted_item(tpl.entries@[i], spec_bound_env(tpl.params@, args)),
    )
}

/// The drafted entry a template entry denotes under `env` (meaningful
/// where [`spec_entry_ok`] holds): each field is the value its expression
/// evaluates to.
pub open spec fn spec_entry_matches(
    te: TemplateEntry,
    env: Seq<(Seq<char>, SpecVal)>,
    de: DraftEntry,
) -> bool {
    &&& spec_str_of(spec_eval(te.entry_type, env)) == Some(de.entry_type@)
    &&& spec_uuid_of(spec_eval(te.account_id, env)) == Some(de.account_id@)
    &&& spec_layer_of(spec_eval(te.layer, env)) == Some(de.layer)
    &&& spec_direction_of(spec_eval(te.direction, env)) == Some(de.direction)
    &&& spec_units_of(spec_eval(te.units, env)) == Some(de.units)
    &&& spec_currency_of(spec_eval(te.currency, env)) == Some(de.currency@)
    &&& (match te.description {
        Some(e) => de.description matches Some(s) && spec_str_of(spec_eval(e, env)) == Some(s@),
        None => de.description is None,
    })
    &&& (match te.metadata {
        Some(e) => de.metadata matches Some(s) && spec_meta_of(spec_eval(e, env)) == Some(s@),
        None => de.metadata is None,
    })
}

/// Some field of the template's transaction shape or of one of its
/// entries fails under `env` with exactly this error: its projection
/// yields nothing, and the error is the field's failure (an undeclared
/// parameter by name, a type mismatch naming the field, or an arithmetic
/// overflow).
pub open spec fn spec_field_err_at(
    tpl: TxTemplateRecord,
    env: Seq<(Seq<char>, SpecVal)>,
    e: LedgerError,
) -> bool {
    ||| (spec_date_of(spec_eval(tpl.transaction.effective, env)) is None && spec_field_failed(
        spec_eval(tpl.transaction.effective, env),
        "effective"@,
        e,
    ))
    ||| (spec_uuid_of(spec_eval(tpl.transaction.journal_id, env)) is None && spec_field_failed(
        spec_eval(tpl.transaction.journal_id, env),
        "journal_id"@,
        e,
    ))
    ||| (tpl.transaction.correlation_id matches Some(ex) && spec_str_of(spec_eval(ex, env)) is None
        && spec_field_failed(spec_eval(ex, env), "correlation_id"@, e))
    ||| (tpl.transaction.external_id matches Some(ex) && spec_str_of(spec_eval(ex, env)) is None
        && spec_field_failed(spec_eval(ex, env), "external_id"@, e))
    ||| (tpl.transaction.description matches Some(ex) && spec_str_of(spec_eval(ex, env)) is None
        && spec_field_failed(spec_eval(ex, env), "description"@, e))
    ||| (tpl.transaction.metadata matches Some(ex) && spec_meta_of(spec_eval(ex, env)) is None
        && spec_field_failed(spec_eval(ex, env), "metadata"@, e))
    ||| (exists|k: int|
        0 <= k < tpl.entries@.len() && spec_entry_field_err(#[trigger] tpl.entries@[k], env, e))
}

/// Some field of one template entry fails under `env` with exactly this
/// error.
pub open spec fn spec_entry_field_err(
    te: TemplateEntry,
    env: Seq<(Seq<char>, SpecVal)>,
    e: LedgerError,
) -> bool {
    ||| (spec_str_of(spec_eval(te.entry_type, env)) is None && spec_field_failed(
        spec_eval(te.entry_type, env),
        "entry_type"@,
        e,
    ))
    ||| (spec_uuid_of(spec_eval(te.account_id, env)) is None && spec_field_failed(
        spec_eval(te.account_id, env),
        "account_id"@,
        e,
    ))
    ||| (spec_layer_of(spec_eval(te.layer, env)) is None && spec_field_failed(
        spec_eval(te.layer, env),
        "layer"@,
        e,
    ))
    ||| (spec_direction_of(spec_eval(te.direction, env)) is None && spec_field_failed(
        spec_eval(te.direction, env),
        "direction"@,
        e,
    ))
    ||| (spec_units_of(spec_eval(te.units, env)) is None && spec_field_failed(
        spec_eval(te.units, env),
        "units"@,
        e,
    ))
    ||| (spec_currency_of(spec_eval(te.currency, env)) is None && spec_field_failed(
        spec_eval(te.currency, env),
        "currency"@,
        e,
    ))
    ||| (te.description matches Some(ex) && spec_str_of(spec_eval(ex, env)) is None
        && spec_field_failed(spec_eval(ex, env), "description"@, e))
    ||| (te.metadata matches Some(ex) && spec_meta_of(spec_eval(ex, env)) is None
        && spec_field_failed(spec_eval(ex, env), "metadata"@, e))
}

/// The expansion error is the first failing parameter binding's own
/// error, in declaration order: binding failures are detected and
/// reported before any expression is evaluated.
pub open spec fn spec_first_bind_err(
    tpl: TxTemplateRecord,
    args: Seq<ParamArg>,
    e: LedgerError,
) -> bool {
    exists|i: int|
        0 <= i < tpl.params@.len() && #[trigger] spec_bind_one(tpl.params@[i], args) == Err::<
            ParamValue,
            LedgerError,
        >(e) && (forall|j: int| 0 <= j < i ==> spec_bind_one(tpl.params@[j], args) is Ok)
}

/// What each expansion error kind reports, exactly: a binding failure is
/// the first failing parameter's own error; an undeclared parameter, type
/// mismatch or overflow names the failing field's cause; an unbalanced
/// draft names a (currency, layer) group whose sum is not zero, under the
/// draft's journal.
pub open spec fn spec_expand_err(tpl: TxTemplateRecord, args: Seq<ParamArg>, e: LedgerError) -> bool {
    let env = spec_bound_env(tpl.params@, args);
    match e {
        LedgerError::ParamTypeMismatch { .. } => exists|i: int|
            0 <= i < tpl.params@.len() && #[trigger] spec_bind_one(tpl.params@[i], args) == Err::<
                crate::params::ParamValue,
                LedgerError,
            >(e),
        LedgerError::MissingRequiredParam { .. } => exists|i: int|
            0 <= i < tpl.params@.len() && #[trigger] spec_bind_one(tpl.params@[i], args) == Err::<
                crate::params::ParamValue,
                LedgerError,
            >(e),
        LedgerError::UndeclaredParam { .. } => spec_field_err_at(tpl, env, e),
        LedgerError::EvalTypeMismatch { .. } => spec_field_err_at(tpl, env, e),
        LedgerError::AmountOverflow => spec_field_err_at(tpl, env, e) || (exists|
            cur: Seq<char>,
            lay: Layer,
        |
            #[trigger] spec_group_fold(spec_denoted_items(tpl, args), cur, lay) is None),
        LedgerError::UnbalancedTransaction { journal_id: j, currency, layer } => spec_uuid_of(
            spec_eval(tpl.transaction.journal_id, env),
        ) == Some(j@) && (match spec_group_fold(spec_denoted_items(tpl, args), currency@, layer) {
            Some(s) => s.val() != 0,
            None => false,
        }),
        _ => false,
    }
}

/// Does every declared parameter bind, and every template expression
/// evaluate to a value of the type its field needs, with the denoted
/// entries balanced?  Exactly the successful case of [`expand`].
pub open spec fn spec_expand_ok(tpl: TxTemplateRecord, args: Seq<ParamArg>) -> bool {
    let env = spec_bound_env(tpl.params@, args);
    &&& forall|i: int|
        0 <= i < tpl.params@.len() ==> (#[trigger] spec_bind_one(tpl.params@[i], args)) is Ok
    &&& spec_date_of(spec_eval(tpl.transaction.effective, env)) is Some
    &&& spec_uuid_of(spec_eval(tpl.transaction.journal_id, env)) is Some
    &&& (tpl.transaction.correlation_id matches Some(e) ==> spec_str_of(spec_eval(e, env)) is Some)
    &&& (tpl.transaction.external_id matches Some(e) ==> spec_str_of(spec_eval(e, env)) is Some)
    &&& (tpl.transaction.description matches Some(e) ==> spec_str_of(spec_eval(e, env)) is Some)
    &&& (tpl.transaction.metadata matches Some(e) ==> spec_meta_of(spec_eval(e, env)) is Some)
    &&& forall|i: int| 0 <= i < tpl.entries@.len() ==> spec_entry_ok(#[trigger] tpl.entries@[i], env)
    &&& spec_balanced(spec_denoted_items(tpl, args))
}

/// Expand a validated template against a bag of typed arguments into a
/// balanced draft transaction.
///
/// Pure: neither the template nor any stored state changes; retrying with
/// the same arguments gives the same result.  Succeeds exactly when every
/// declared parameter binds ([`bind_params`]), every transaction and entry
/// field evaluates to a value of the type its field needs, and the denoted
/// entries balance to zero for every (currency, layer) group
/// ([`spec_expand_ok`]).  On success every field of the draft is the value
/// its template expression denotes, entries stand in declaration order,
/// and the draft is balanced.  On failure the error is the binding error,
/// the field's failure (`UndeclaredParam`, `EvalTypeMismatch` naming the
/// field, `AmountOverflow`), or the balance violation
/// (`UnbalancedTransaction` naming journal, currency and layer).
pub fn expand(tpl: &TxTemplateRecord, args: &Vec<ParamArg>) -> (r: Result<
    DraftTransaction,
    LedgerError,
>)
    requires
        tpl.wf(),
    ensures
        r is Ok <==> spec_expand_ok(*tpl, args@),
        r matches Ok(d) ==> {
            let env = spec_bound_env(tpl.params@, args@);
            &&& d.wf()
            &&& spec_date_of(spec_eval(tpl.transaction.effective, env)) == Some(d.effective)
            &&& spec_uuid_of(spec_eval(tpl.transaction.journal_id, env)) == Some(d.journal_id@)
            &&& (match tpl.transaction.correlation_id {
                Some(e) => d.correlation_id matches Some(s) && spec_str_of(spec_eval(e, env))
                    == Some(s@),
                None => d.correlation_id is None,
            })
            &&& (match tpl.transaction.external_id {
                Some(e) => d.external_id matches Some(s) && spec_str_of(spec_eval(e, env)) == Some(
                    s@,
                ),
                None => d.external_id is None,
            })
            &&& (match tpl.transaction.description {
                Some(e) => d.description matches Some(s) && spec_str_of(spec_eval(e, env)) == Some(
                    s@,
                ),
                None => d.description is None,
            })
            &&& (match tpl.transaction.metadata {
                Some(e) => d.metadata matches Some(s) && spec_meta_of(spec_eval(e, env)) == Some(
                    s@,
                ),
                None => d.metadata is None,
            })
            &&& d.entries@.len() == tpl.entries@.len()
            &&& forall|i: int|
                0 <= i < d.entries@.len() ==> spec_entry_matches(
                    #[trigger] tpl.entries@[i],
                    env,
                    #[trigger] d.entries@[i],
                )
            &&& spec_balanced(items_of(d.entries@))
        },
        r matches Err(e) ==> {
            &&& {
                ||| e is ParamTypeMismatch
                ||| e is MissingRequiredParam
                ||| e is UndeclaredParam
                ||| e is EvalTypeMismatch
                ||| e is AmountOverflow
                ||| e is UnbalancedTransaction
            }
            &&& spec_expand_err(*tpl, args@, e)
            &&& ((!(forall|i: int|
                0 <= i < tpl.params@.len() ==> (#[trigger] spec_bind_one(tpl.params@[i], args@))
                    is Ok)) ==> spec_first_bind_err(*tpl, args@, e))
        },
{
    let env = match bind_params(&tpl.params, args) {
        Ok(env) => env,
        Err(e) => {
            proof {
                let i = choose|i: int|
                    0 <= i < tpl.params@.len() && #[trigger] spec_bind_one(tpl.params@[i], args@)
                        == Err::<ParamValue, LedgerError>(e) && (forall|j: int|
                        0 <= j < i ==> spec_bind_one(tpl.params@[j], args@) is Ok);
                assert(spec_bind_one(tpl.params@[i], args@) == Err::<ParamValue, LedgerError>(e));
                assert(e is ParamTypeMismatch || e is MissingRequiredParam);
                assert(spec_expand_err(*tpl, args@, e));
            }
            return Err(e);
        },
    };
    proof {
        assert(env_view(env.bound@) =~= spec_bound_env(tpl.params@, args@)) by {
            assert forall|i: int| 0 <= i < tpl.params@.len() implies env_view(env.bound@)[i]
                == spec_bound_env(tpl.params@, args@)[i] by {
                assert(env.bound@[i].name@ == tpl.params@[i].name@);
                assert(spec_bind_one(tpl.params@[i], args@) == Ok::<ParamValue, LedgerError>(
                    env.bound@[i].value,
                ));
            }
        }
    }
    let effective = match eval_date(&tpl.transaction.effective, &env, "effective") {
        Ok(d) => d,
        Err(e) => {
            proof {
                assert(spec_expand_err(*tpl, args@, e));
            }
            return Err(e);
        },
    };
    let journal_id = match eval_uuid(&tpl.transaction.journal_id, &env, "journal_id") {
        Ok(u) => u,
        Err(e) => {
            proof {
                assert(spec_expand_err(*tpl, args@, e));
            }
            return Err(e);
        },
    };
    let correlation_id = match &tpl.transaction.correlation_id {
        Some(e) => match eval_str(e, &env, "correlation_id") {
            Ok(s) => Some(s),
            Err(err) => {
                proof {
                    assert(spec_expand_err(*tpl, args@, err));
                }
                return Err(err);
            },
        },
        None => None,
    };
    let external_id = match &tpl.transaction.external_id {
        Some(e) => match eval_str(e, &env, "external_id") {
            Ok(s) => Some(s),
            Err(err) => {
                proof {
                    assert(spec_expand_err(*tpl, args@, err));
                }
                return Err(err);
            },
        },
        None => None,
    };
    let description = match &tpl.transaction.description {
        Some(e) => match eval_str(e, &env, "description") {
            Ok(s) => Some(s),
            Err(err) => {
                proof {
                    assert(spec_expand_err(*tpl, args@, err));
                }
                return Err(err);
            },
        },
        None => None,
    };
    let metadata = match &tpl.transaction.metadata {
        Some(e) => match eval_meta(e, &env, "metadata") {
            Ok(s) => Some(s),
            Err(err) => {
                proof {
                    assert(spec_expand_err(*tpl, args@, err));
                }
                return Err(err);
            },
        },
        None => None,
    };
    let mut drafts: Vec<DraftEntry> = Vec::new();
    let mut i: usize = 0;
    while i < tpl.entries.len()
        invariant
            tpl.wf(),
            env.wf(),
            0 <= i <= tpl.entries@.len(),
            drafts@.len() == i,
            env_view(env.bound@) == spec_bound_env(tpl.params@, args@),
            forall|i2: int|
                0 <= i2 < tpl.params@.len() ==> (#[trigger] spec_bind_one(tpl.params@[i2], args@))
                    is Ok,
            forall|j: int|
                0 <= j < i ==> spec_entry_ok(
                    #[trigger] tpl.entries@[j],
                    spec_bound_env(tpl.params@, args@),
                ),
            forall|j: int|
                0 <= j < i ==> spec_entry_matches(
                    #[trigger] tpl.entries@[j],
                    spec_bound_env(tpl.params@, args@),
                    #[trigger] drafts@[j],
                ),
            forall|j: int| 0 <= j < i ==> (#[trigger] drafts@[j]).wf(),
        decreases tpl.entries@.len() - i,
    {
        let te = &tpl.entries[i];
        proof {
            assert(tpl.entries@[i as int].wf(crate::template::spec_def_names(tpl.params@)));
        }
        let entry_type = match eval_str(&te.entry_type, &env, "entry_type") {
            Ok(s) => s,
            Err(e) => {
                proof {
                    assert(spec_entry_field_err(tpl.entries@[i as int], env_view(env.bound@), e));
                    assert(spec_expand_err(*tpl, args@, e));
                }
                return Err(e);
            },
        };
        let account_id = match eval_uuid(&te.account_id, &env, "account_id") {
            Ok(u) => u,
            Err(e) => {
                proof {
                    assert(spec_entry_field_err(tpl.entries@[i as int], env_view(env.bound@), e));
                    assert(spec_expand_err(*tpl, args@, e));
                }
                return Err(e);
            },
        };
        let layer = match eval_layer(&te.layer, &env, "layer") {
            Ok(l) => l,
            Err(e) => {
                proof {
                    assert(spec_entry_field_err(tpl.entries@[i as int], env_view(env.bound@), e));
                    assert(spec_expand_err(*tpl, args@, e));
                }
                return Err(e);
            },
        };
        let direction = match eval_direction(&te.direction, &env, "direction") {
            Ok(d) => d,
            Err(e) => {
                proof {
                    assert(spec_entry_field_err(tpl.entries@[i as int], env_view(env.bound@), e));
                    assert(spec_expand_err(*tpl, args@, e));
                }
                return Err(e);
            },
        };
        let units = match eval_units(&te.units, &env, "units") {
            Ok(u) => u,
            Err(e) => {
                proof {
                    assert(spec_entry_field_err(tpl.entries@[i as int], env_view(env.bound@), e));
                    assert(spec_expand_err(*tpl, args@, e));
                }
                return Err(e);
            },
        };
        let currency = match eval_currency(&te.currency, &env, "currency") {
            Ok(c) => c,
            Err(e) => {
                proof {
                    assert(spec_entry_field_err(tpl.entries@[i as int], env_view(env.bound@), e));
                    assert(spec_expand_err(*tpl, args@, e));
                }
                return Err(e);
            },
        };
        let e_description = match &te.description {
            Some(e) => match eval_str(e, &env, "description") {
                Ok(s) => Some(s),
                Err(err) => {
                    proof {
                        assert(spec_entry_field_err(
                            tpl.entries@[i as int],
                            env_view(env.bound@),
                            err,
                        ));
                        assert(spec_expand_err(*tpl, args@, err));
                    }
                    return Err(err);
                },
            },
            None => None,
        };
        let e_metadata = match &te.metadata {
            Some(e) => match eval_meta(e, &env, "metadata") {
                Ok(s) => Some(s),
                Err(err) => {
                    proof {
                        assert(spec_entry_field_err(
                            tpl.entries@[i as int],
                            env_view(env.bound@),
                            err,
                        ));
                        assert(spec_expand_err(*tpl, args@, err));
                    }
                    return Err(err);
                },
            },
            None => None,
        };
        drafts.push(
            DraftEntry {
                entry_type,
                account_id,
                layer,
                units,
                currency,
                direction,
                description: e_description,
                metadata: e_metadata,
            },
        );
        i = i + 1;
    }
    proof {
        assert(items_of(drafts@) =~= spec_denoted_items(*tpl, args@)) by {
            assert forall|j: int| 0 <= j < drafts@.len() implies items_of(drafts@)[j]
                == spec_denoted_items(*tpl, args@)[j] by {
                assert(spec_entry_matches(
                    tpl.entries@[j],
                    spec_bound_env(tpl.params@, args@),
                    drafts@[j],
                ));
            }
        }
    }
    match check_balanced(&drafts, &journal_id) {
        Ok(()) => {},
        Err(e) => {
            proof {
                assert(spec_expand_err(*tpl, args@, e));
            }
            return Err(e);
        },
    }
    Ok(
        DraftTransaction {
            effective,
            journal_id,
            correlation_id,
            external_id,
            description,
            metadata,
            entries: drafts,
        },
    )
}

} // verus!
