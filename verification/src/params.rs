//! Template parameters: declared definitions, caller-supplied arguments, and
//! the typed binding step that checks every argument against its declared
//! type before any expression is evaluated.

use crate::decimal::{parse_decimal_raw, spec_parse_decimal, Dec};
use crate::types::{spec_is_canonical_uuid, spec_is_hex_lower, DateVal, LedgerError};
use vstd::prelude::*;

verus! {

/// The declared type of a template parameter.
#[derive(Clone, Copy, Debug, PartialEq, Eq, Structural)]
pub enum ParamDataTypeValues {
    String,
    Integer,
    Decimal,
    Boolean,
    Uuid,
    Date,
    Timestamp,
    Json,
}

/// A parameter declaration of a template: name, declared type, optional
/// default (in literal form), description.
#[derive(Debug)]
pub struct NewParamDefinitionValues {
    pub name: String,
    pub param_type: ParamDataTypeValues,
    pub default: Option<String>,
    pub description: Option<String>,
}

/// A typed parameter value produced by binding.
#[derive(Debug)]
pub enum ParamValue {
    VStr(String),
    VInt(i64),
    VDec(Dec),
    VBool(bool),
    VUuid(String),
    VDate(DateVal),
    VTs { secs: i64, nanos: u32 },
    VJson(String),
}

/// A caller-supplied argument value, before type checking.  Numbers arrive
/// as their literal text so that decimals are parsed exactly, never through
/// binary floating point.
#[derive(Debug)]
pub enum ParamInput {
    /// A piece of text.
    Text(String),
    /// A numeric literal, by its text.
    Num(String),
    /// A boolean.
    Flag(bool),
    /// A structured (JSON) document, by its text.
    JsonText(String),
    /// An explicit null.
    Null,
}

/// One named argument.
#[derive(Debug)]
pub struct ParamArg {
    pub name: String,
    pub value: ParamInput,
}

/// One bound, typed parameter.
#[derive(Debug)]
pub struct BoundParam {
    pub name: String,
    pub value: ParamValue,
}

/// The typed environment expressions are evaluated against.
#[derive(Debug)]
pub struct Params {
    pub bound: Vec<BoundParam>,
}

impl ParamValue {
    /// Structural validity of a bound value.
    pub open spec fn wf(self) -> bool {
        match self {
            ParamValue::VDec(d) => d.wf(),
            ParamValue::VDate(d) => d.wf(),
            ParamValue::VUuid(u) => spec_is_canonical_uuid(u@),
            _ => true,
        }
    }
}

/// What chrono's RFC 3339 parser makes of `s`: the UTC calendar date
/// (year, month, day) of the denoted instant, or `None` where `s` is not
/// RFC 3339 text.
pub uninterp spec fn spec_parse_rfc3339_date(s: Seq<char>) -> Option<(i32, u32, u32)>;

/// What chrono's RFC 3339 parser makes of `s` as an instant: seconds since
/// the Unix epoch and the subsecond nanoseconds, or `None` where `s` is not
/// RFC 3339 text.
pub uninterp spec fn spec_parse_rfc3339_ts(s: Seq<char>) -> Option<(i64, u32)>;

/// Relies on `chrono::DateTime::parse_from_rfc3339`, truncating the parsed
/// instant to its UTC calendar date; chrono only produces valid calendar
/// dates.
#[verifier::external_body]
pub(crate) fn parse_rfc3339_date_raw(s: &str) -> (r: Option<(i32, u32, u32)>)
    ensures
        r == spec_parse_rfc3339_date(s@),
        r matches Some(d) ==> (DateVal { year: d.0, month: d.1, day: d.2 }).wf(),
{
    match chrono::DateTime::parse_from_rfc3339(s) {
        Ok(dt) => {
            let d = dt.naive_utc().date();
            Some((chrono::Datelike::year(&d), chrono::Datelike::month(&d), chrono::Datelike::day(&d)))
        },
        Err(_) => None,
    }
}

/// Relies on `chrono::DateTime::parse_from_rfc3339` and `timestamp`/
/// `timestamp_subsec_nanos` for the epoch form of the parsed instant.
#[verifier::external_body]
pub(crate) fn parse_rfc3339_ts_raw(s: &str) -> (r: Option<(i64, u32)>)
    ensures
        r == spec_parse_rfc3339_ts(s@),
{
    match chrono::DateTime::parse_from_rfc3339(s) {
        Ok(dt) => Some((dt.timestamp(), dt.timestamp_subsec_nanos())),
        Err(_) => None,
    }
}

/// Parse an RFC 3339 string and truncate it to a calendar date.
pub fn parse_rfc3339_date(s: &String) -> (r: Option<DateVal>)
    ensures
        match spec_parse_rfc3339_date(s@) {
            Some(d) => r == Some(DateVal { year: d.0, month: d.1, day: d.2 })
                && r.unwrap().wf(),
            None => r is None,
        },
{
    match parse_rfc3339_date_raw(s.as_str()) {
        Some(d) => Some(DateVal { year: d.0, month: d.1, day: d.2 }),
        None => None,
    }
}

/// The value a numeric literal binds to under declared type Integer:
/// a decimal with scale zero whose mantissa fits an `i64`.
pub open spec fn spec_integer_of(t: Seq<char>) -> Option<i64> {
    match spec_parse_decimal(t) {
        Some(p) => if p.1 == 0 && -9223372036854775808 <= p.0 <= 9223372036854775807 {
            Some(p.0 as i64)
        } else {
            None
        },
        None => None,
    }
}

/// The value a caller-supplied argument binds to under a declared type, or
/// `None` where the argument does not have that type.
pub open spec fn spec_convert_input(t: ParamDataTypeValues, inp: ParamInput) -> Option<ParamValue> {
    match t {
        ParamDataTypeValues::String => match inp {
            ParamInput::Text(s) => Some(ParamValue::VStr(s)),
            _ => None,
        },
        ParamDataTypeValues::Integer => match inp {
            ParamInput::Num(n) => match spec_integer_of(n@) {
                Some(v) => Some(ParamValue::VInt(v)),
                None => None,
            },
            _ => None,
        },
        ParamDataTypeValues::Decimal => match inp {
            ParamInput::Num(n) => spec_decimal_value(n@),
            ParamInput::Text(s) => spec_decimal_value(s@),
            _ => None,
        },
        ParamDataTypeValues::Boolean => match inp {
            ParamInput::Flag(b) => Some(ParamValue::VBool(b)),
            _ => None,
        },
        ParamDataTypeValues::Uuid => match inp {
            ParamInput::Text(s) => if spec_is_canonical_uuid(s@) {
                Some(ParamValue::VUuid(s))
            } else {
                None
            },
            _ => None,
        },
        ParamDataTypeValues::Date => match inp {
            ParamInput::Text(s) => match spec_parse_rfc3339_date(s@) {
                Some(d) => Some(ParamValue::VDate(DateVal { year: d.0, month: d.1, day: d.2 })),
                None => None,
            },
            _ => None,
        },
        ParamDataTypeValues::Timestamp => match inp {
            ParamInput::Text(s) => match spec_parse_rfc3339_ts(s@) {
                Some(p) => Some(ParamValue::VTs { secs: p.0, nanos: p.1 }),
                None => None,
            },
            _ => None,
        },
        ParamDataTypeValues::Json => match inp {
            ParamInput::JsonText(s) => Some(ParamValue::VJson(s)),
            _ => None,
        },
    }
}

/// The decimal value of a literal, as a [`ParamValue`].
pub open spec fn spec_decimal_value(t: Seq<char>) -> Option<ParamValue> {
    match spec_parse_decimal(t) {
        Some(p) => Some(ParamValue::VDec(Dec { mantissa: p.0, scale: p.1 })),
        None => None,
    }
}

/// The value a default (given in literal form) binds to under a declared
/// type, or `None` where the literal does not have that type.
pub open spec fn spec_convert_default(t: ParamDataTypeValues, text: String) -> Option<ParamValue> {
    match t {
        ParamDataTypeValues::String => Some(ParamValue::VStr(text)),
        ParamDataTypeValues::Integer => match spec_integer_of(text@) {
            Some(v) => Some(ParamValue::VInt(v)),
            None => None,
        },
        ParamDataTypeValues::Decimal => spec_decimal_value(text@),
        ParamDataTypeValues::Boolean => if text@ == "true"@ {
            Some(ParamValue::VBool(true))
        } else if text@ == "false"@ {
            Some(ParamValue::VBool(false))
        } else {
            None
        },
        ParamDataTypeValues::Uuid => if spec_is_canonical_uuid(text@) {
            Some(ParamValue::VUuid(text))
        } else {
            None
        },
        ParamDataTypeValues::Date => match spec_parse_rfc3339_date(text@) {
            Some(d) => Some(ParamValue::VDate(DateVal { year: d.0, month: d.1, day: d.2 })),
            None => None,
        },
        ParamDataTypeValues::Timestamp => match spec_parse_rfc3339_ts(text@) {
            Some(p) => Some(ParamValue::VTs { secs: p.0, nanos: p.1 }),
            None => None,
        },
        ParamDataTypeValues::Json => Some(ParamValue::VJson(text)),
    }
}

/// The first argument named `name`, if any.
pub open spec fn spec_lookup_input(inputs: Seq<ParamArg>, name: Seq<char>) -> Option<ParamInput>
    decreases inputs.len(),
{
    if inputs.len() == 0 {
        None
    } else if inputs[0].name@ == name {
        Some(inputs[0].value)
    } else {
        spec_lookup_input(inputs.drop_first(), name)
    }
}

/// What binding one declared parameter yields: its typed value, or the
/// error.  A supplied argument is checked against the declared type; an
/// absent argument falls back to the declared default; a parameter with
/// neither is missing.
pub open spec fn spec_bind_one(def: NewParamDefinitionValues, inputs: Seq<ParamArg>) -> Result<
    ParamValue,
    LedgerError,
> {
    match spec_lookup_input(inputs, def.name@) {
        Some(inp) => match spec_convert_input(def.param_type, inp) {
            Some(v) => Ok(v),
            None => Err(LedgerError::ParamTypeMismatch { name: def.name }),
        },
        None => match def.default {
            Some(text) => match spec_convert_default(def.param_type, text) {
                Some(v) => Ok(v),
                None => Err(LedgerError::ParamTypeMismatch { name: def.name }),
            },
            None => Err(LedgerError::MissingRequiredParam { name: def.name }),
        },
    }
}

/// Index of the first argument named `name`.
fn lookup_input(inputs: &Vec<ParamArg>, name: &String) -> (r: Option<usize>)
    ensures
        match r {
            Some(k) => 0 <= k < inputs@.len() && inputs@[k as int].name@ == name@
                && spec_lookup_input(inputs@, name@) == Some(inputs@[k as int].value),
            None => spec_lookup_input(inputs@, name@) is None,
        },
{
    let mut i: usize = 0;
    proof {
        assert(inputs@.skip(0) =~= inputs@);
    }
    while i < inputs.len()
        invariant
            0 <= i <= inputs@.len(),
            spec_lookup_input(inputs@.skip(i as int), name@) == spec_lookup_input(inputs@, name@),
            forall|j: int| 0 <= j < i ==> inputs@[j].name@ != name@,
        decreases inputs@.len() - i,
    {
        proof {
            assert(inputs@.skip(i as int)[0] == inputs@[i as int]);
            assert(inputs@.skip(i as int).drop_first() =~= inputs@.skip(i as int + 1));
        }
        if inputs[i].name == *name {
            return Some(i);
        }
        i = i + 1;
    }
    proof {
        assert(inputs@.skip(i as int).len() == 0);
    }
    None
}

/// Convert one supplied argument to its declared type.
fn convert_input(t: ParamDataTypeValues, inp: &ParamInput) -> (r: Option<ParamValue>)
    ensures
        r == spec_convert_input(t, *inp),
        r matches Some(v) ==> v.wf(),
{
    match t {
        ParamDataTypeValues::String => match inp {
            ParamInput::Text(s) => Some(ParamValue::VStr(s.clone())),
            _ => None,
        },
        ParamDataTypeValues::Integer => match inp {
            ParamInput::Num(n) => convert_integer(n),
            _ => None,
        },
        ParamDataTypeValues::Decimal => match inp {
            ParamInput::Num(n) => convert_decimal(n),
            ParamInput::Text(s) => convert_decimal(s),
            _ => None,
        },
        ParamDataTypeValues::Boolean => match inp {
            ParamInput::Flag(b) => Some(ParamValue::VBool(*b)),
            _ => None,
        },
        ParamDataTypeValues::Uuid => match inp {
            ParamInput::Text(s) => convert_uuid(s),
            _ => None,
        },
        ParamDataTypeValues::Date => match inp {
            ParamInput::Text(s) => match parse_rfc3339_date(s) {
                Some(d) => Some(ParamValue::VDate(d)),
                None => None,
            },
            _ => None,
        },
        ParamDataTypeValues::Timestamp => match inp {
            ParamInput::Text(s) => match parse_rfc3339_ts_raw(s.as_str()) {
                Some(p) => Some(ParamValue::VTs { secs: p.0, nanos: p.1 }),
                None => None,
            },
            _ => None,
        },
        ParamDataTypeValues::Json => match inp {
            ParamInput::JsonText(s) => Some(ParamValue::VJson(s.clone())),
            _ => None,
        },
    }
}

/// Convert a default literal to its declared type.
fn convert_default(t: ParamDataTypeValues, text: &String) -> (r: Option<ParamValue>)
    ensures
        r == spec_convert_default(t, *text),
        r matches Some(v) ==> v.wf(),
{
    match t {
        ParamDataTypeValues::String => Some(ParamValue::VStr(text.clone())),
        ParamDataTypeValues::Integer => convert_integer(text),
        ParamDataTypeValues::Decimal => convert_decimal(text),
        ParamDataTypeValues::Boolean => {
            if *text == String::from_str("true") {
                Some(ParamValue::VBool(true))
            } else if *text == String::from_str("false") {
                Some(ParamValue::VBool(false))
            } else {
                None
            }
        },
        ParamDataTypeValues::Uuid => convert_uuid(text),
        ParamDataTypeValues::Date => match parse_rfc3339_date(text) {
            Some(d) => Some(ParamValue::VDate(d)),
            None => None,
        },
        ParamDataTypeValues::Timestamp => match parse_rfc3339_ts_raw(text.as_str()) {
            Some(p) => Some(ParamValue::VTs { secs: p.0, nanos: p.1 }),
            None => None,
        },
        ParamDataTypeValues::Json => Some(ParamValue::VJson(text.clone())),
    }
}

/// Parse a numeric literal as an integer (a scale-zero decimal in `i64`
/// range).
fn convert_integer(n: &String) -> (r: Option<ParamValue>)
    ensures
        r == (match spec_integer_of(n@) {
            Some(v) => Some(ParamValue::VInt(v)),
            None => None::<ParamValue>,
        }),
        r matches Some(v) ==> v.wf(),
{
    match parse_decimal_raw(n.as_str()) {
        Some(p) => {
            if p.1 == 0 && i64::MIN as i128 <= p.0 && p.0 <= i64::MAX as i128 {
                Some(ParamValue::VInt(p.0 as i64))
            } else {
                None
            }
        },
        None => None,
    }
}

/// Parse a numeric literal as an exact decimal.
fn convert_decimal(n: &String) -> (r: Option<ParamValue>)
    ensures
        r == spec_decimal_value(n@),
        r matches Some(v) ==> v.wf(),
{
    match parse_decimal_raw(n.as_str()) {
        Some(p) => Some(ParamValue::VDec(Dec { mantissa: p.0, scale: p.1 })),
        None => None,
    }
}

/// Accept a canonical UUID as a value.
fn convert_uuid(s: &String) -> (r: Option<ParamValue>)
    ensures
        r == (if spec_is_canonical_uuid(s@) {
            Some(ParamValue::VUuid(*s))
        } else {
            None::<ParamValue>
        }),
        r matches Some(v) ==> v.wf(),
{
    if is_canonical_uuid(s) {
        Some(ParamValue::VUuid(s.clone()))
    } else {
        None
    }
}

/// Validate that `s` is a canonical (hyphenated, lower-case) UUID.
pub fn is_canonical_uuid(s: &String) -> (r: bool)
    ensures
        r == spec_is_canonical_uuid(s@),
{
    let n = s.as_str().unicode_len();
    if n != 36 {
        return false;
    }
    let mut i: usize = 0;
    while i < 36
        invariant
            0 <= i <= 36,
            s@.len() == 36,
            forall|j: int|
                0 <= j < i ==> (if j == 8 || j == 13 || j == 18 || j == 23 {
                    s@[j] == '-'
                } else {
                    spec_is_hex_lower(s@[j])
                }),
        decreases 36 - i,
    {
        let c = s.as_str().get_char(i);
        let ok = if i == 8 || i == 13 || i == 18 || i == 23 {
            c == '-'
        } else {
            ('0' <= c && c <= '9') || ('a' <= c && c <= 'f')
        };
        if !ok {
            return false;
        }
        i = i + 1;
    }
    true
}

impl Params {
    /// All bound values are structurally valid.
    pub open spec fn wf(self) -> bool {
        forall|i: int| 0 <= i < self.bound@.len() ==> (#[trigger] self.bound@[i].value).wf()
    }

    /// The first binding named `name`, if any.
    pub open spec fn spec_lookup(self, name: Seq<char>) -> Option<ParamValue> {
        spec_lookup_bound(self.bound@, name)
    }

    /// Index of the first binding named `name`.
    pub fn lookup(&self, name: &String) -> (r: Option<usize>)
        ensures
            match r {
                Some(k) => 0 <= k < self.bound@.len() && self.bound@[k as int].name@ == name@
                    && self.spec_lookup(name@) == Some(self.bound@[k as int].value),
                None => self.spec_lookup(name@) is None,
            },
    {
        let mut i: usize = 0;
        proof {
            assert(self.bound@.skip(0) =~= self.bound@);
        }
        while i < self.bound.len()
            invariant
                0 <= i <= self.bound@.len(),
                spec_lookup_bound(self.bound@.skip(i as int), name@) == spec_lookup_bound(
                    self.bound@,
                    name@,
                ),
                forall|j: int| 0 <= j < i ==> self.bound@[j].name@ != name@,
            decreases self.bound@.len() - i,
        {
            proof {
                assert(self.bound@.skip(i as int)[0] == self.bound@[i as int]);
                assert(self.bound@.skip(i as int).drop_first() =~= self.bound@.skip(i as int + 1));
            }
            if self.bound[i].name == *name {
                return Some(i);
            }
            i = i + 1;
        }
        proof {
            assert(self.bound@.skip(i as int).len() == 0);
        }
        None
    }
}

/// The first binding named `name`, if any.
pub open spec fn spec_lookup_bound(env: Seq<BoundParam>, name: Seq<char>) -> Option<ParamValue>
    decreases env.len(),
{
    if env.len() == 0 {
        None
    } else if env[0].name@ == name {
        Some(env[0].value)
    } else {
        spec_lookup_bound(env.drop_first(), name)
    }
}

/// Bind caller-supplied arguments to a template's declared parameters.
///
/// Succeeds exactly when every declared parameter either is supplied with a
/// value of its declared type or has a default of that type; the result
/// then binds each declared name, in declaration order, to its typed value.
/// On failure the error is the one of the first (in declaration order)
/// parameter that fails: `ParamTypeMismatch` naming the parameter whose
/// supplied value or default does not have the declared type, or
/// `MissingRequiredParam` naming the parameter that is neither supplied nor
/// defaulted.  Arguments whose names no parameter declares are ignored.
pub fn bind_params(defs: &Vec<NewParamDefinitionValues>, inputs: &Vec<ParamArg>) -> (r: Result<
    Params,
    LedgerError,
>)
    ensures
        r is Ok <==> (forall|i: int|
            0 <= i < defs@.len() ==> (#[trigger] spec_bind_one(defs@[i], inputs@)) is Ok),
        r matches Ok(env) ==> {
            &&& env.bound@.len() == defs@.len()
            &&& forall|i: int|
                0 <= i < defs@.len() ==> (#[trigger] env.bound@[i]).name@ == defs@[i].name@
                    && spec_bind_one(defs@[i], inputs@) == Ok::<ParamValue, LedgerError>(
                    env.bound@[i].value,
                )
            &&& env.wf()
        },
        r matches Err(e) ==> exists|i: int|
            0 <= i < defs@.len() && #[trigger] spec_bind_one(defs@[i], inputs@) == Err::<
                ParamValue,
                LedgerError,
            >(e) && (forall|j: int| 0 <= j < i ==> spec_bind_one(defs@[j], inputs@) is Ok),
{
    let mut bound: Vec<BoundParam> = Vec::new();
    let mut i: usize = 0;
    while i < defs.len()
        invariant
            0 <= i <= defs@.len(),
            bound@.len() == i,
            forall|j: int| 0 <= j < i ==> (#[trigger] spec_bind_one(defs@[j], inputs@)) is Ok,
            forall|j: int|
                0 <= j < i ==> (#[trigger] bound@[j]).name@ == defs@[j].name@ && spec_bind_one(
                    defs@[j],
                    inputs@,
                ) == Ok::<ParamValue, LedgerError>(bound@[j].value) && bound@[j].value.wf(),
        decreases defs@.len() - i,
    {
        let def = &defs[i];
        let converted: Option<ParamValue> = match lookup_input(inputs, &def.name) {
            Some(k) => convert_input(def.param_type, &inputs[k].value),
            None => {
                match &def.default {
                    Some(text) => convert_default(def.param_type, text),
                    None => {
                        let e = LedgerError::MissingRequiredParam { name: def.name.clone() };
                        proof {
                            assert(spec_bind_one(defs@[i as int], inputs@) == Err::<
                                ParamValue,
                                LedgerError,
                            >(e));
                        }
                        return Err(e);
                    },
                }
            },
        };
        match converted {
            Some(v) => {
                bound.push(BoundParam { name: def.name.clone(), value: v });
            },
            None => {
                let e = LedgerError::ParamTypeMismatch { name: def.name.clone() };
                proof {
                    assert(spec_bind_one(defs@[i as int], inputs@) == Err::<
                        ParamValue,
                        LedgerError,
                    >(e));
                }
                return Err(e);
            },
        }
        i = i + 1;
    }
    Ok(Params { bound })
}

} // verus!
