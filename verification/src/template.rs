//! Transaction templates: validation of a new template definition and its
//! compiled, stored form.
//!
//! A template declares typed parameters and gives every transaction and
//! entry field as an expression over them.  Validation rejects duplicate
//! parameter names, fields outside the expression grammar, and expressions
//! referring to undeclared parameters.

use crate::expr::{spec_vars_declared, Expr};
use crate::params::NewParamDefinitionValues;
use crate::parse::{compile_expr, spec_atom_matches, spec_atom_ok, spec_atom_vars_ok,
    spec_is_atom, spec_is_false, spec_is_numeral, spec_is_params_ref, spec_is_quoted,
    spec_is_true};
use crate::types::LedgerError;
use vstd::prelude::*;

verus! {

/// A new template entry, every field an expression in textual form.
pub struct NewTxTemplateEntryValues {
    pub entry_type: String,
    pub account_id: String,
    pub layer: String,
    pub direction: String,
    pub units: String,
    pub currency: String,
    pub description: Option<String>,
    pub metadata: Option<String>,
}

/// The transaction shape of a new template, every field an expression in
/// textual form.
pub struct NewTxTemplateTransactionValues {
    pub effective: String,
    pub journal_id: String,
    pub correlation_id: Option<String>,
    pub external_id: Option<String>,
    pub description: Option<String>,
    pub metadata: Option<String>,
}

/// A new template definition, as supplied by a caller.
pub struct NewTxTemplateValues {
    pub id: Option<String>,
    pub code: String,
    pub external_id: Option<String>,
    pub description: Option<String>,
    pub params: Option<Vec<NewParamDefinitionValues>>,
    pub entries: Vec<NewTxTemplateEntryValues>,
    pub metadata: Option<String>,
    pub transaction: Option<NewTxTemplateTransactionValues>,
}

/// A compiled template entry.
pub struct TemplateEntry {
    pub entry_type: Expr,
    pub account_id: Expr,
    pub layer: Expr,
    pub direction: Expr,
    pub units: Expr,
    pub currency: Expr,
    pub description: Option<Expr>,
    pub metadata: Option<Expr>,
}

/// A compiled transaction shape.
pub struct TemplateTransaction {
    pub effective: Expr,
    pub journal_id: Expr,
    pub correlation_id: Option<Expr>,
    pub external_id: Option<Expr>,
    pub description: Option<Expr>,
    pub metadata: Option<Expr>,
}

/// The names a sequence of parameter definitions declares, in order.
pub open spec fn spec_def_names(defs: Seq<NewParamDefinitionValues>) -> Seq<Seq<char>> {
    defs.map_values(|d: NewParamDefinitionValues| d.name@)
}

/// No name is declared twice.
pub open spec fn spec_names_unique(defs: Seq<NewParamDefinitionValues>) -> bool {
    forall|i: int, j: int|
        0 <= i < j < defs.len() ==> (#[trigger] defs[i].name)@ != (#[trigger] defs[j].name)@
}

/// The declared names of an optional parameter list are unique.
pub open spec fn spec_params_unique(params: Option<Vec<NewParamDefinitionValues>>) -> bool {
    match params {
        Some(ps) => spec_names_unique(ps@),
        None => true,
    }
}

/// An optional parameter list declares `name` twice.
pub open spec fn spec_params_dup(
    params: Option<Vec<NewParamDefinitionValues>>,
    name: Seq<char>,
) -> bool {
    match params {
        Some(ps) => !spec_names_unique(ps@) && spec_def_names(ps@).contains(name),
        None => false,
    }
}

/// An optional parameter list declares `name`.
pub open spec fn spec_params_declare(
    params: Option<Vec<NewParamDefinitionValues>>,
    name: Seq<char>,
) -> bool {
    match params {
        Some(ps) => spec_def_names(ps@).contains(name),
        None => false,
    }
}

/// Every field of one new entry is an atom of the grammar over the
/// declared names.
pub open spec fn spec_entry_atoms_ok(
    e: NewTxTemplateEntryValues,
    names: Seq<Seq<char>>,
) -> bool {
    &&& spec_atom_ok(e.entry_type@, names)
    &&& spec_atom_ok(e.account_id@, names)
    &&& spec_atom_ok(e.layer@, names)
    &&& spec_atom_ok(e.direction@, names)
    &&& spec_atom_ok(e.units@, names)
    &&& spec_atom_ok(e.currency@, names)
    &&& (e.description matches Some(t) ==> spec_atom_ok(t@, names))
    &&& (e.metadata matches Some(t) ==> spec_atom_ok(t@, names))
}

/// The names an optional parameter list declares.
pub open spec fn spec_params_names(params: Option<Vec<NewParamDefinitionValues>>) -> Seq<
    Seq<char>,
> {
    match params {
        Some(ps) => spec_def_names(ps@),
        None => Seq::empty(),
    }
}

/// A definition validation owes success to: non-empty code, a transaction
/// shape, uniquely named parameters, and every field an atom of the
/// grammar (a literal, `params.x`, or a bare name) over the declared
/// names.  Compound expressions may validate too; for them the parser's
/// contract is structural only.
pub open spec fn spec_simple_template(new: NewTxTemplateValues) -> bool {
    &&& new.code@.len() > 0
    &&& spec_params_unique(new.params)
    &&& (new.transaction matches Some(t) && {
        &&& spec_atom_ok(t.effective@, spec_params_names(new.params))
        &&& spec_atom_ok(t.journal_id@, spec_params_names(new.params))
        &&& (t.correlation_id matches Some(x) ==> spec_atom_ok(
            x@,
            spec_params_names(new.params),
        ))
        &&& (t.external_id matches Some(x) ==> spec_atom_ok(x@, spec_params_names(new.params)))
        &&& (t.description matches Some(x) ==> spec_atom_ok(x@, spec_params_names(new.params)))
        &&& (t.metadata matches Some(x) ==> spec_atom_ok(x@, spec_params_names(new.params)))
    })
    &&& forall|k: int|
        0 <= k < new.entries@.len() ==> spec_entry_atoms_ok(
            #[trigger] new.entries@[k],
            spec_params_names(new.params),
        )
}

impl TemplateEntry {
    /// All expressions compiled and well-formed, referring only to `declared`.
    pub open spec fn wf(self, declared: Seq<Seq<char>>) -> bool {
        &&& self.entry_type.wf() && spec_vars_declared(self.entry_type, declared)
        &&& self.account_id.wf() && spec_vars_declared(self.account_id, declared)
        &&& self.layer.wf() && spec_vars_declared(self.layer, declared)
        &&& self.direction.wf() && spec_vars_declared(self.direction, declared)
        &&& self.units.wf() && spec_vars_declared(self.units, declared)
        &&& self.currency.wf() && spec_vars_declared(self.currency, declared)
        &&& (self.description matches Some(e) ==> e.wf() && spec_vars_declared(e, declared))
        &&& (self.metadata matches Some(e) ==> e.wf() && spec_vars_declared(e, declared))
    }
}

impl TemplateTransaction {
    /// All expressions compiled and well-formed, referring only to `declared`.
    pub open spec fn wf(self, declared: Seq<Seq<char>>) -> bool {
        &&& self.effective.wf() && spec_vars_declared(self.effective, declared)
        &&& self.journal_id.wf() && spec_vars_declared(self.journal_id, declared)
        &&& (self.correlation_id matches Some(e) ==> e.wf() && spec_vars_declared(e, declared))
        &&& (self.external_id matches Some(e) ==> e.wf() && spec_vars_declared(e, declared))
        &&& (self.description matches Some(e) ==> e.wf() && spec_vars_declared(e, declared))
        &&& (self.metadata matches Some(e) ==> e.wf() && spec_vars_declared(e, declared))
    }
}

/// A stored, validated template.
pub struct TxTemplateRecord {
    pub id: String,
    pub code: String,
    pub external_id: Option<String>,
    pub description: Option<String>,
    pub params: Vec<NewParamDefinitionValues>,
    pub entries: Vec<TemplateEntry>,
    pub transaction: TemplateTransaction,
    pub metadata: Option<String>,
    pub version: u32,
}

impl TxTemplateRecord {
    /// A validated template: unique parameter names, and every expression
    /// well-formed over the declared names.
    pub open spec fn wf(self) -> bool {
        &&& self.code@.len() > 0
        &&& spec_names_unique(self.params@)
        &&& self.transaction.wf(spec_def_names(self.params@))
        &&& forall|i: int|
            0 <= i < self.entries@.len() ==> (#[trigger] self.entries@[i]).wf(
                spec_def_names(self.params@),
            )
    }
}

/// Is `name` among the declared names?
fn declares(defs: &Vec<NewParamDefinitionValues>, name: &String) -> (r: bool)
    ensures
        r == spec_def_names(defs@).contains(name@),
{
    let mut i: usize = 0;
    while i < defs.len()
        invariant
            0 <= i <= defs@.len(),
            forall|j: int| 0 <= j < i ==> (#[trigger] defs@[j].name)@ != name@,
        decreases defs@.len() - i,
    {
        if defs[i].name == *name {
            proof {
                assert(spec_def_names(defs@)[i as int] == name@);
            }
            return true;
        }
        i = i + 1;
    }
    proof {
        assert forall|k: int| 0 <= k < defs@.len() implies spec_def_names(defs@)[k] != name@ by {
            assert(defs@[k].name@ != name@);
        }
    }
    false
}

/// The first variable of `e` that `defs` does not declare, if any.
fn first_undeclared(e: &Expr, defs: &Vec<NewParamDefinitionValues>) -> (r: Option<String>)
    ensures
        r is None <==> spec_vars_declared(*e, spec_def_names(defs@)),
        r matches Some(n) ==> !spec_def_names(defs@).contains(n@),
    decreases *e,
{
    match e {
        Expr::Var(n) => {
            if declares(defs, n) {
                None
            } else {
                Some(n.clone())
            }
        },
        Expr::Unary(_, e1) => first_undeclared(e1, defs),
        Expr::Binary(_, e1, e2) => {
            match first_undeclared(e1, defs) {
                Some(n) => Some(n),
                None => first_undeclared(e2, defs),
            }
        },
        Expr::Cond(c, t, f) => {
            match first_undeclared(c, defs) {
                Some(n) => Some(n),
                None => match first_undeclared(t, defs) {
                    Some(n) => Some(n),
                    None => first_undeclared(f, defs),
                },
            }
        },
        _ => None,
    }
}

/// Compile one textual field and check its variables, or report which rule
/// it breaks: `MalformedExpression` naming the field where the text is not
/// a sentence of the grammar, `UndeclaredParam` naming the first variable
/// the template does not declare.
fn compile_field(text: &String, field: &str, defs: &Vec<NewParamDefinitionValues>) -> (r: Result<
    Expr,
    LedgerError,
>)
    ensures
        r matches Ok(e) ==> e.wf() && spec_vars_declared(e, spec_def_names(defs@)),
        spec_atom_ok(text@, spec_def_names(defs@)) ==> r is Ok,
        r matches Err(err) ==> (err matches LedgerError::MalformedExpression { field: f } && f@
            == field@) || (err matches LedgerError::UndeclaredParam { name: n }
            && !spec_def_names(defs@).contains(n@)),
{
    match compile_expr(text) {
        Some(e) => {
            match first_undeclared(&e, defs) {
                Some(n) => {
                    proof {
                        if spec_atom_ok(text@, spec_def_names(defs@)) {
                            lemma_atom_vars_declared(text@, e, spec_def_names(defs@));
                        }
                    }
                    Err(LedgerError::UndeclaredParam { name: n })
                },
                None => Ok(e),
            }
        },
        None => Err(LedgerError::MalformedExpression { field: field.to_owned() }),
    }
}

/// What an atom compiles to refers only to declared names, where the
/// atom's own reference is declared.
proof fn lemma_atom_vars_declared(s: Seq<char>, e: Expr, declared: Seq<Seq<char>>)
    requires
        spec_is_atom(s),
        spec_atom_vars_ok(s, declared),
        spec_atom_matches(s, e),
    ensures
        spec_vars_declared(e, declared),
{
    if spec_is_quoted(s) || spec_is_numeral(s) || spec_is_true(s) || spec_is_false(s) {
    } else if spec_is_params_ref(s) {
        assert(e matches Expr::Var(n) && declared.contains(n@));
    } else {
        assert(e matches Expr::Var(n) && declared.contains(n@));
    }
}

/// Compile an optional textual field.
fn compile_opt_field(
    text: &Option<String>,
    field: &str,
    defs: &Vec<NewParamDefinitionValues>,
) -> (r: Result<Option<Expr>, LedgerError>)
    ensures
        r matches Ok(oe) ==> (oe matches Some(e) ==> e.wf() && spec_vars_declared(
            e,
            spec_def_names(defs@),
        )),
        (match text {
            Some(t) => spec_atom_ok(t@, spec_def_names(defs@)),
            None => true,
        }) ==> r is Ok,
        r matches Err(err) ==> (err matches LedgerError::MalformedExpression { field: f } && f@
            == field@) || (err matches LedgerError::UndeclaredParam { name: n }
            && !spec_def_names(defs@).contains(n@)),
{
    match text {
        Some(t) => match compile_field(t, field, defs) {
            Ok(e) => Ok(Some(e)),
            Err(err) => Err(err),
        },
        None => Ok(None),
    }
}

/// Validate a new template definition and compile it to its stored form.
///
/// Balance checking is deliberately deferred to expansion: a template's
/// units and directions are expressions, so even an all-literal entry set
/// flows through the same exact zero-sum check there, before anything is
/// persisted.
///
/// Rejects an empty code (`Validation` naming `code`), a missing
/// transaction shape (`Validation` naming `transaction`), duplicate
/// parameter names (`DuplicateParamName` naming the repeated name), a field
/// outside the expression grammar (`MalformedExpression` naming the
/// field), and an expression referring to an undeclared parameter
/// (`UndeclaredParam` naming it).  On success the stored template carries
/// the given identity, code and parameters, compiled expressions for every
/// field, and version 1.
pub fn validate_template(id: String, new: NewTxTemplateValues) -> (r: Result<
    TxTemplateRecord,
    LedgerError,
>)
    ensures
        r matches Ok(t) ==> {
            &&& t.wf()
            &&& t.id@ == id@
            &&& t.code@ == new.code@
            &&& t.version == 1
            &&& t.entries@.len() == new.entries@.len()
            &&& (match new.params {
                Some(ps) => t.params@ == ps@,
                None => t.params@.len() == 0,
            })
            &&& t.external_id == new.external_id
            &&& t.description == new.description
            &&& t.metadata == new.metadata
        },
        spec_simple_template(new) ==> r is Ok,
        r matches Err(e) ==> (match e {
            LedgerError::Validation { field } => new.code@.len() == 0 || new.transaction is None,
            LedgerError::DuplicateParamName { name } => spec_params_dup(new.params, name@),
            LedgerError::MalformedExpression { field } => new.code@.len() > 0
                && new.transaction is Some && spec_params_unique(new.params),
            LedgerError::UndeclaredParam { name } => new.code@.len() > 0
                && new.transaction is Some && spec_params_unique(new.params)
                && !spec_params_declare(new.params, name@),
            _ => false,
        }),
{
    let NewTxTemplateValues { id: _, code, external_id, description, params, entries, metadata, transaction } =
        new;
    if code.as_str().unicode_len() == 0 {
        return Err(LedgerError::Validation { field: String::from_str("code") });
    }
    let tx_shape = match transaction {
        Some(t) => t,
        None => {
            return Err(LedgerError::Validation { field: String::from_str("transaction") });
        },
    };
    let defs: Vec<NewParamDefinitionValues> = match params {
        Some(ps) => ps,
        None => Vec::new(),
    };
    proof {
        assert(match new.params {
            Some(ps) => defs@ == ps@,
            None => defs@.len() == 0,
        });
        assert(spec_params_names(new.params) =~= spec_def_names(defs@));
    }
    // Reject duplicate parameter names.
    let mut i: usize = 0;
    while i < defs.len()
        invariant
            0 <= i <= defs@.len(),
            match new.params {
                Some(ps) => defs@ == ps@,
                None => defs@.len() == 0,
            },
            forall|a: int, b: int|
                0 <= a < b < defs@.len() && b < i ==> (#[trigger] defs@[a].name)@ != (
                #[trigger] defs@[b].name)@,
        decreases defs@.len() - i,
    {
        let mut j: usize = 0;
        while j < i
            invariant
                0 <= j <= i < defs@.len(),
                match new.params {
                    Some(ps) => defs@ == ps@,
                    None => defs@.len() == 0,
                },
                forall|a: int| 0 <= a < j ==> (#[trigger] defs@[a].name)@ != defs@[i as int].name@,
            decreases i - j,
        {
            if defs[j].name == defs[i].name {
                proof {
                    assert(!spec_names_unique(defs@)) by {
                        assert(defs@[j as int].name@ == defs@[i as int].name@);
                    }
                    assert(spec_def_names(defs@).contains(defs@[i as int].name@)) by {
                        assert(spec_def_names(defs@)[i as int] == defs@[i as int].name@);
                    }
                }
                return Err(LedgerError::DuplicateParamName { name: defs[i].name.clone() });
            }
            j = j + 1;
        }
        i = i + 1;
    }
    proof {
        assert(spec_names_unique(defs@));
        assert(spec_params_unique(new.params));
    }
    // Compile the transaction shape.
    let effective = match compile_field(&tx_shape.effective, "effective", &defs) {
        Ok(e) => e,
        Err(err) => {
            return Err(err);
        },
    };
    let journal_id = match compile_field(&tx_shape.journal_id, "journal_id", &defs) {
        Ok(e) => e,
        Err(err) => {
            return Err(err);
        },
    };
    let correlation_id = match compile_opt_field(&tx_shape.correlation_id, "correlation_id", &defs)
    {
        Ok(e) => e,
        Err(err) => {
            return Err(err);
        },
    };
    let tx_external_id = match compile_opt_field(&tx_shape.external_id, "external_id", &defs) {
        Ok(e) => e,
        Err(err) => {
            return Err(err);
        },
    };
    let tx_description = match compile_opt_field(&tx_shape.description, "description", &defs) {
        Ok(e) => e,
        Err(err) => {
            return Err(err);
        },
    };
    let tx_metadata = match compile_opt_field(&tx_shape.metadata, "metadata", &defs) {
        Ok(e) => e,
        Err(err) => {
            return Err(err);
        },
    };
    let compiled_tx = TemplateTransaction {
        effective,
        journal_id,
        correlation_id,
        external_id: tx_external_id,
        description: tx_description,
        metadata: tx_metadata,
    };
    // Compile every entry.
    let mut compiled_entries: Vec<TemplateEntry> = Vec::new();
    let mut k: usize = 0;
    while k < entries.len()
        invariant
            0 <= k <= entries@.len(),
            compiled_entries@.len() == k,
            match new.params {
                Some(ps) => defs@ == ps@,
                None => defs@.len() == 0,
            },
            spec_params_names(new.params) == spec_def_names(defs@),
            entries@ == new.entries@,
            spec_params_unique(new.params),
            new.code@.len() > 0,
            new.transaction is Some,
            forall|a: int|
                0 <= a < k ==> (#[trigger] compiled_entries@[a]).wf(spec_def_names(defs@)),
        decreases entries@.len() - k,
    {
        let te = &entries[k];
        let entry_type = match compile_field(&te.entry_type, "entry_type", &defs) {
            Ok(e) => e,
            Err(err) => {
                return Err(err);
            },
        };
        let account_id = match compile_field(&te.account_id, "account_id", &defs) {
            Ok(e) => e,
            Err(err) => {
                return Err(err);
            },
        };
        let layer = match compile_field(&te.layer, "layer", &defs) {
            Ok(e) => e,
            Err(err) => {
                return Err(err);
            },
        };
        let direction = match compile_field(&te.direction, "direction", &defs) {
            Ok(e) => e,
            Err(err) => {
                return Err(err);
            },
        };
        let units = match compile_field(&te.units, "units", &defs) {
            Ok(e) => e,
            Err(err) => {
                return Err(err);
            },
        };
        let currency = match compile_field(&te.currency, "currency", &defs) {
            Ok(e) => e,
            Err(err) => {
                return Err(err);
            },
        };
        let e_description = match compile_opt_field(&te.description, "description", &defs) {
            Ok(e) => e,
            Err(err) => {
                return Err(err);
            },
        };
        let e_metadata = match compile_opt_field(&te.metadata, "metadata", &defs) {
            Ok(e) => e,
            Err(err) => {
                return Err(err);
            },
        };
        compiled_entries.push(
            TemplateEntry {
                entry_type,
                account_id,
                layer,
                direction,
                units,
                currency,
                description: e_description,
                metadata: e_metadata,
            },
        );
        k = k + 1;
    }
    Ok(
        TxTemplateRecord {
            id,
            code,
            external_id,
            description,
            params: defs,
            entries: compiled_entries,
            transaction: compiled_tx,
            metadata,
            version: 1,
        },
    )
}

} // verus!
