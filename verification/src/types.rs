//! Identity and value primitives: settlement layers, entry directions,
//! calendar dates, identifier validation, and the ledger's error type.

use vstd::prelude::*;

verus! {

/// The settlement layer an entry's effect belongs to.
#[derive(Clone, Copy, Debug, PartialEq, Eq, Structural)]
pub enum Layer {
    Settled,
    Pending,
    Encumbrance,
}

/// Whether an entry debits or credits its account.
#[derive(Clone, Copy, Debug, PartialEq, Eq, Structural)]
pub enum Direction {
    Debit,
    Credit,
}

impl Layer {
    /// The display label of the layer.
    pub fn label(self) -> (r: String)
        ensures
            self is Settled ==> r@ == "Settled"@,
            self is Pending ==> r@ == "Pending"@,
            self is Encumbrance ==> r@ == "Encumbrance"@,
    {
        match self {
            Layer::Settled => String::from_str("Settled"),
            Layer::Pending => String::from_str("Pending"),
            Layer::Encumbrance => String::from_str("Encumbrance"),
        }
    }
}

/// The layer denoted by an (upper-case) template value, if any.
pub open spec fn spec_layer_from(s: Seq<char>) -> Option<Layer> {
    if s == "SETTLED"@ {
        Some(Layer::Settled)
    } else if s == "PENDING"@ {
        Some(Layer::Pending)
    } else if s == "ENCUMBRANCE"@ {
        Some(Layer::Encumbrance)
    } else {
        None
    }
}

/// Parse the upper-case name of a layer.
pub fn layer_from_string(s: &String) -> (r: Option<Layer>)
    ensures
        r == spec_layer_from(s@),
{
    if *s == String::from_str("SETTLED") {
        Some(Layer::Settled)
    } else if *s == String::from_str("PENDING") {
        Some(Layer::Pending)
    } else if *s == String::from_str("ENCUMBRANCE") {
        Some(Layer::Encumbrance)
    } else {
        None
    }
}

impl Direction {
    /// The display label of the direction.
    pub fn label(self) -> (r: String)
        ensures
            self is Debit ==> r@ == "Debit"@,
            self is Credit ==> r@ == "Credit"@,
    {
        match self {
            Direction::Debit => String::from_str("Debit"),
            Direction::Credit => String::from_str("Credit"),
        }
    }

    /// The opposite direction.
    pub fn opposite(self) -> (r: Direction)
        ensures
            r == (match self {
                Direction::Debit => Direction::Credit,
                Direction::Credit => Direction::Debit,
            }),
    {
        match self {
            Direction::Debit => Direction::Credit,
            Direction::Credit => Direction::Debit,
        }
    }
}

/// The direction denoted by an (upper-case) template value, if any.
pub open spec fn spec_direction_from(s: Seq<char>) -> Option<Direction> {
    if s == "DEBIT"@ {
        Some(Direction::Debit)
    } else if s == "CREDIT"@ {
        Some(Direction::Credit)
    } else {
        None
    }
}

/// Parse the upper-case name of a direction.
pub fn direction_from_string(s: &String) -> (r: Option<Direction>)
    ensures
        r == spec_direction_from(s@),
{
    if *s == String::from_str("DEBIT") {
        Some(Direction::Debit)
    } else if *s == String::from_str("CREDIT") {
        Some(Direction::Credit)
    } else {
        None
    }
}

/// A calendar date.
#[derive(Clone, Copy, Debug, PartialEq, Eq, Structural)]
pub struct DateVal {
    pub year: i32,
    pub month: u32,
    pub day: u32,
}

/// Is `y` a leap year (proleptic Gregorian calendar)?
pub open spec fn spec_is_leap_year(y: int) -> bool {
    (y % 4 == 0 && y % 100 != 0) || y % 400 == 0
}

/// The number of days in month `m` of year `y`.
pub open spec fn spec_days_in_month(y: int, m: int) -> int {
    if m == 2 {
        if spec_is_leap_year(y) {
            29
        } else {
            28
        }
    } else if m == 4 || m == 6 || m == 9 || m == 11 {
        30
    } else {
        31
    }
}

impl DateVal {
    /// A valid calendar date.
    pub open spec fn wf(self) -> bool {
        &&& 1 <= self.month <= 12
        &&& 1 <= self.day <= spec_days_in_month(self.year as int, self.month as int)
    }

    /// Chronological order of dates, as a lexicographic comparison of
    /// (year, month, day).
    pub open spec fn spec_le(self, other: DateVal) -> bool {
        if self.year != other.year {
            self.year < other.year
        } else if self.month != other.month {
            self.month < other.month
        } else {
            self.day <= other.day
        }
    }

    /// Chronological comparison.
    pub fn le(self, other: DateVal) -> (r: bool)
        ensures
            r == self.spec_le(other),
    {
        if self.year != other.year {
            self.year < other.year
        } else if self.month != other.month {
            self.month < other.month
        } else {
            self.day <= other.day
        }
    }
}

/// The error type of every fallible ledger operation.  Each variant carries
/// the key or name the failure is about, so callers can report precisely
/// which lookup, parameter or uniqueness rule failed.
#[derive(Clone, Debug)]
pub enum LedgerError {
    /// No entity with this identifier.
    CouldNotFindById { id: String },
    /// No entity with this code.
    CouldNotFindByCode { code: String },
    /// No entity with this external identifier.
    CouldNotFindByExternalId { external_id: String },
    /// The text is not a canonical UUID.
    MalformedId { text: String },
    /// A required field of a `create` input is malformed (empty code, or a
    /// malformed currency).
    Validation { field: String },
    /// An entity with this identifier already exists.
    DuplicateId { id: String },
    /// An entity with this code already exists.
    DuplicateCode { code: String },
    /// An entity with this external identifier already exists.
    DuplicateExternalId { external_id: String },
    /// A transaction with this caller-supplied identifier was already posted.
    DuplicateTransactionId { id: String },
    /// The write cited a version other than the persisted one.
    StaleVersion { expected: u32, actual: u32 },
    /// No template with this code.
    TemplateNotFound { code: String },
    /// A supplied parameter does not have its declared type.
    ParamTypeMismatch { name: String },
    /// A parameter without a default was not supplied.
    MissingRequiredParam { name: String },
    /// A template declares the same parameter name twice.
    DuplicateParamName { name: String },
    /// An expression refers to a parameter the template does not declare.
    UndeclaredParam { name: String },
    /// A template field is not a sentence of the expression grammar.
    MalformedExpression { field: String },
    /// An expression did not evaluate to a value of the needed type.
    EvalTypeMismatch { field: String },
    /// The drafted entries do not sum to zero for this journal, currency and
    /// layer.
    UnbalancedTransaction { journal_id: String, currency: String, layer: Layer },
    /// No transaction with this identifier.
    TransactionNotFound { id: String },
    /// The transaction to void is itself a void.
    AlreadyVoided { id: String },
    /// An amount left the representable decimal range.
    AmountOverflow,
    /// No entry has touched this balance key.
    BalanceNotFound { journal_id: String, account_id: String, currency: String },
    /// The pagination token is malformed or belongs to another collection.
    DecodeError,
    /// The underlying store cannot take another mutation (a version or
    /// sequence counter is exhausted).
    StorageFailure,
}

/// Is `c` a lower-case hexadecimal digit?
pub open spec fn spec_is_hex_lower(c: char) -> bool {
    ('0' <= c && c <= '9') || ('a' <= c && c <= 'f')
}

/// Is `c` an upper-case hexadecimal letter?
pub open spec fn spec_is_hex_upper(c: char) -> bool {
    'A' <= c && c <= 'F'
}

/// Lower-cased hexadecimal character.
pub open spec fn spec_hex_to_lower(c: char) -> char {
    if spec_is_hex_upper(c) {
        ((c as int) + 32) as char
    } else {
        c
    }
}

/// Is `s` a canonical (hyphenated, lower-case) UUID?
pub open spec fn spec_is_canonical_uuid(s: Seq<char>) -> bool {
    &&& s.len() == 36
    &&& forall|i: int|
        0 <= i < 36 ==> (if i == 8 || i == 13 || i == 18 || i == 23 {
            s[i] == '-'
        } else {
            spec_is_hex_lower(s[i])
        })
}

/// The lower-cased form of a hyphenated UUID.
pub open spec fn spec_canonical_uuid(s: Seq<char>) -> Seq<char> {
    s.map_values(|c: char| spec_hex_to_lower(c))
}

/// Is `s` a well-formed hyphenated UUID, in either case?
pub open spec fn spec_is_uuid(s: Seq<char>) -> bool {
    &&& s.len() == 36
    &&& forall|i: int|
        0 <= i < 36 ==> (if i == 8 || i == 13 || i == 18 || i == 23 {
            s[i] == '-'
        } else {
            spec_is_hex_lower(s[i]) || spec_is_hex_upper(s[i])
        })
}

/// Canonicalising an already canonical identifier changes nothing.
pub proof fn lemma_canonical_idempotent(s: Seq<char>)
    requires
        spec_is_canonical_uuid(s),
    ensures
        spec_canonical_uuid(s) == s,
{
    assert forall|i: int| 0 <= i < s.len() implies spec_canonical_uuid(s)[i] == s[i] by {
        assert(spec_canonical_uuid(s)[i] == spec_hex_to_lower(s[i]));
        if i == 8 || i == 13 || i == 18 || i == 23 {
            assert(s[i] == '-');
        } else {
            assert(spec_is_hex_lower(s[i]));
        }
    }
    assert(spec_canonical_uuid(s) =~= s);
}

/// Validate an identifier and bring it to canonical lower-case form.
/// Returns `Ok` exactly on well-formed hyphenated UUIDs; the result is the
/// lower-cased text.  A malformed identifier yields [`LedgerError::MalformedId`]
/// carrying the offending text.
pub fn parse_id(s: &String) -> (r: Result<String, LedgerError>)
    ensures
        r is Ok <==> spec_is_uuid(s@),
        r matches Ok(c) ==> c@ == spec_canonical_uuid(s@) && spec_is_canonical_uuid(c@),
        r matches Err(e) ==> e matches LedgerError::MalformedId { text } && text@ == s@,
{
    let n = s.as_str().unicode_len();
    if n != 36 {
        return Err(LedgerError::MalformedId { text: s.clone() });
    }
    let mut out = String::new();
    let mut i: usize = 0;
    while i < 36
        invariant
            0 <= i <= 36,
            s@.len() == 36,
            out@.len() == i,
            forall|j: int|
                0 <= j < i ==> (if j == 8 || j == 13 || j == 18 || j == 23 {
                    s@[j] == '-'
                } else {
                    spec_is_hex_lower(s@[j]) || spec_is_hex_upper(s@[j])
                }),
            out@ == spec_canonical_uuid(s@.subrange(0, i as int)),
        decreases 36 - i,
    {
        let c = s.as_str().get_char(i);
        let ok = if i == 8 || i == 13 || i == 18 || i == 23 {
            c == '-'
        } else {
            ('0' <= c && c <= '9') || ('a' <= c && c <= 'f') || ('A' <= c && c <= 'F')
        };
        if !ok {
            return Err(LedgerError::MalformedId { text: s.clone() });
        }
        let lc: char = if 'A' <= c && c <= 'F' {
            ((c as u8) + 32) as char
        } else {
            c
        };
        proof {
            assert(lc == spec_hex_to_lower(c));
        }
        push_char(&mut out, lc);
        proof {
            assert(out@ =~= spec_canonical_uuid(s@.subrange(0, i + 1 as int)));
        }
        i = i + 1;
    }
    proof {
        assert(s@.subrange(0, 36) =~= s@);
        assert(forall|j: int| 0 <= j < 36 ==> spec_canonical_uuid(s@)[j] == spec_hex_to_lower(s@[j]));
    }
    Ok(out)
}

/// Relies on `String::push`: appends one character.
#[verifier::external_body]
pub(crate) fn push_char(s: &mut String, c: char)
    ensures
        final(s)@ == old(s)@.push(c),
{
    s.push(c)
}

/// Is `s` a well-formed currency code: one to twelve upper-case letters?
pub open spec fn spec_is_currency(s: Seq<char>) -> bool {
    &&& 1 <= s.len() <= 12
    &&& forall|i: int| 0 <= i < s.len() ==> 'A' <= #[trigger] s[i] <= 'Z'
}

/// Validate a currency code.
pub fn is_currency_code(s: &String) -> (r: bool)
    ensures
        r == spec_is_currency(s@),
{
    let n = s.as_str().unicode_len();
    if n < 1 || n > 12 {
        return false;
    }
    let mut i: usize = 0;
    while i < n
        invariant
            0 <= i <= n,
            n == s@.len(),
            1 <= n <= 12,
            forall|j: int| 0 <= j < i ==> 'A' <= #[trigger] s@[j] <= 'Z',
        decreases n - i,
    {
        let c = s.as_str().get_char(i);
        if !('A' <= c && c <= 'Z') {
            return false;
        }
        i = i + 1;
    }
    true
}

} // verus!
