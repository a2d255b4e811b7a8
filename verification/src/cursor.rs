//! Opaque pagination cursors and ordered listing.
//!
//! A cursor encodes the code of the last item seen as an opaque token: the
//! base64 (standard alphabet, no padding) form of a tagged payload.  A
//! malformed or foreign token is rejected with a typed decode error, never
//! treated as an empty page.

use crate::ledger::{dup_entry, spec_account_entries, spec_journal_entries, AccountRecord,
    EntryRecord, Ledger, ListDirection};
use crate::template::TxTemplateRecord;
use crate::types::{spec_canonical_uuid, spec_is_uuid, LedgerError};
use vstd::arithmetic::div_mod::{
    lemma_basic_div, lemma_div_denominator, lemma_fundamental_div_mod,
};
use vstd::arithmetic::power::{lemma_pow1, lemma_pow_adds, pow};
use vstd::prelude::*;
use vstd::utf8::{encode_utf8, encode_utf8_decode_utf8, valid_utf8};

verus! {

/// An opaque continuation token.
pub struct CursorToken {
    pub token: String,
}

/// A page of accounts in code order.
pub struct PaginatedAccounts {
    pub accounts: Vec<AccountRecord>,
    pub has_next_page: bool,
    pub end_cursor: Option<CursorToken>,
}

/// A page of entries in creation order (or its reverse).
pub struct PaginatedEntries {
    pub entries: Vec<EntryRecord>,
    pub has_next_page: bool,
    pub end_cursor: Option<CursorToken>,
}

/// What base64 (standard alphabet, no padding) encodes a byte sequence to.
pub uninterp spec fn spec_b64_encode(bytes: Seq<u8>) -> Seq<char>;

/// What base64 (standard alphabet, no padding) decodes text to, or `None`
/// where the text is not a base64 encoding.
pub uninterp spec fn spec_b64_decode(s: Seq<char>) -> Option<Seq<u8>>;

/// Relies on base64's `STANDARD_NO_PAD` engine: encoding, which its
/// decoder inverts.
#[verifier::external_body]
fn b64_encode(bytes: &Vec<u8>) -> (r: String)
    ensures
        r@ == spec_b64_encode(bytes@),
        spec_b64_decode(r@) == Some(bytes@),
{
    base64::Engine::encode(&base64::engine::general_purpose::STANDARD_NO_PAD, bytes)
}

/// Relies on base64's `STANDARD_NO_PAD` engine: decoding.
#[verifier::external_body]
fn b64_decode(s: &str) -> (r: Option<Vec<u8>>)
    ensures
        match r {
            Some(b) => spec_b64_decode(s@) == Some(b@),
            None => spec_b64_decode(s@) is None,
        },
{
    match base64::Engine::decode(&base64::engine::general_purpose::STANDARD_NO_PAD, s) {
        Ok(b) => Some(b),
        Err(_) => None,
    }
}

/// Relies on `String::from_utf8`: succeeds exactly on valid UTF-8, and
/// returns the text those bytes encode.
#[verifier::external_body]
fn string_from_utf8(b: Vec<u8>) -> (r: Option<String>)
    ensures
        r is Some <==> valid_utf8(b@),
        r matches Some(s) ==> encode_utf8(s@) == b@,
{
    match String::from_utf8(b) {
        Ok(s) => Some(s),
        Err(_) => None,
    }
}

/// The tag that marks a payload as an account-collection cursor.
pub open spec fn spec_account_tag() -> Seq<u8> {
    seq![97u8, 99u8, 99u8, 116u8, 58u8]
}

/// Does this token decode as an account-collection cursor: base64 of a
/// tagged payload whose remainder is valid UTF-8?
pub open spec fn spec_cursor_decodes(t: CursorToken) -> bool {
    match spec_b64_decode(t.token@) {
        Some(p) => p.len() >= 5 && p.subrange(0, 5) == spec_account_tag() && valid_utf8(p.skip(5)),
        None => false,
    }
}

/// The payload of an account cursor: the tag, then the code's UTF-8 bytes.
pub open spec fn spec_account_payload(code: Seq<char>) -> Seq<u8> {
    spec_account_tag() + encode_utf8(code)
}

/// Encode the code of the last account seen as an opaque token.  The
/// token decodes back to exactly this code.
pub fn encode_account_cursor(code: &String) -> (r: CursorToken)
    ensures
        r.token@ == spec_b64_encode(spec_account_payload(code@)),
        spec_b64_decode(r.token@) == Some(spec_account_payload(code@)),
{
    let mut payload: Vec<u8> = Vec::new();
    payload.push(97);
    payload.push(99);
    payload.push(99);
    payload.push(116);
    payload.push(58);
    let code_bytes = code.as_str().as_bytes_vec();
    let mut i: usize = 0;
    while i < code_bytes.len()
        invariant
            0 <= i <= code_bytes@.len(),
            code_bytes@ == encode_utf8(code@),
            payload@ == spec_account_tag() + code_bytes@.subrange(0, i as int),
        decreases code_bytes@.len() - i,
    {
        payload.push(code_bytes[i]);
        proof {
            assert(payload@ =~= spec_account_tag() + code_bytes@.subrange(0, i + 1 as int));
        }
        i = i + 1;
    }
    proof {
        assert(code_bytes@.subrange(0, code_bytes@.len() as int) =~= code_bytes@);
    }
    CursorToken { token: b64_encode(&payload) }
}

/// Decode an account cursor.  Succeeds exactly when the token is the
/// base64 form of a tagged, valid payload, and then yields the code it
/// carries; anything else is a `DecodeError` — never an empty page.
pub fn decode_account_cursor(t: &CursorToken) -> (r: Result<String, LedgerError>)
    ensures
        match r {
            Ok(code) => spec_b64_decode(t.token@) matches Some(p) && p
                == spec_account_payload(code@) && spec_cursor_decodes(*t),
            Err(e) => e is DecodeError && !spec_cursor_decodes(*t),
        },
{
    let bytes = match b64_decode(t.token.as_str()) {
        Some(b) => b,
        None => {
            return Err(LedgerError::DecodeError);
        },
    };
    if bytes.len() < 5 {
        return Err(LedgerError::DecodeError);
    }
    if !(*bytes.get(0).unwrap() == 97 && *bytes.get(1).unwrap() == 99 && *bytes.get(2).unwrap()
        == 99 && *bytes.get(3).unwrap() == 116 && *bytes.get(4).unwrap() == 58) {
        proof {
            assert(bytes@.subrange(0, 5) != spec_account_tag());
        }
        return Err(LedgerError::DecodeError);
    }
    proof {
        assert(bytes@.subrange(0, 5) =~= spec_account_tag());
    }
    let mut rest: Vec<u8> = Vec::new();
    let mut i: usize = 5;
    while i < bytes.len()
        invariant
            5 <= i <= bytes@.len(),
            rest@ == bytes@.subrange(5, i as int),
        decreases bytes@.len() - i,
    {
        rest.push(bytes[i]);
        proof {
            assert(rest@ =~= bytes@.subrange(5, i + 1 as int));
        }
        i = i + 1;
    }
    proof {
        assert(rest@ =~= bytes@.skip(5));
    }
    match string_from_utf8(rest) {
        Some(code) => {
            proof {
                assert(bytes@ =~= spec_account_tag() + encode_utf8(code@));
                assert(spec_cursor_decodes(*t));
            }
            Ok(code)
        },
        None => Err(LedgerError::DecodeError),
    }
}

/// Lexicographic order on character sequences: the order account pages
/// follow.
pub open spec fn spec_str_lt(a: Seq<char>, b: Seq<char>) -> bool
    decreases a.len(),
{
    if b.len() == 0 {
        false
    } else if a.len() == 0 {
        true
    } else if a[0] != b[0] {
        a[0] < b[0]
    } else {
        spec_str_lt(a.drop_first(), b.drop_first())
    }
}

/// Exactly one of `a < b`, `a == b`, `b < a` holds.
pub proof fn lemma_str_lt_trichotomy(a: Seq<char>, b: Seq<char>)
    ensures
        spec_str_lt(a, b) ==> !spec_str_lt(b, a) && a != b,
        a == b ==> !spec_str_lt(a, b) && !spec_str_lt(b, a),
        !spec_str_lt(a, b) && !spec_str_lt(b, a) ==> a == b,
    decreases a.len(),
{
    if a.len() != 0 && b.len() != 0 {
        lemma_str_lt_trichotomy(a.drop_first(), b.drop_first());
        if a[0] == b[0] && a.drop_first() == b.drop_first() {
            assert forall|i: int| 0 <= i < a.len() implies a[i] == b[i] by {
                if i > 0 {
                    assert(a[i] == a.drop_first()[i - 1]);
                    assert(b[i] == b.drop_first()[i - 1]);
                }
            }
            assert(a =~= b);
        }
    } else if a.len() == 0 && b.len() == 0 {
        assert(a =~= b);
    }
}

/// Lexicographic order is transitive.
pub proof fn lemma_str_lt_trans(a: Seq<char>, b: Seq<char>, c: Seq<char>)
    requires
        spec_str_lt(a, b),
        spec_str_lt(b, c),
    ensures
        spec_str_lt(a, c),
    decreases a.len(),
{
    if a.len() != 0 && b.len() != 0 && c.len() != 0 {
        if a[0] == b[0] && b[0] == c[0] {
            lemma_str_lt_trans(a.drop_first(), b.drop_first(), c.drop_first());
        }
    }
}

/// Lexicographic comparison of two strings.
pub fn str_lt(a: &String, b: &String) -> (r: bool)
    ensures
        r == spec_str_lt(a@, b@),
{
    let na = a.as_str().unicode_len();
    let nb = b.as_str().unicode_len();
    let mut i: usize = 0;
    proof {
        assert(a@.skip(0) =~= a@);
        assert(b@.skip(0) =~= b@);
    }
    while i < na && i < nb
        invariant
            0 <= i <= na,
            0 <= i <= nb,
            na == a@.len(),
            nb == b@.len(),
            spec_str_lt(a@.skip(i as int), b@.skip(i as int)) == spec_str_lt(a@, b@),
            forall|j: int| 0 <= j < i ==> a@[j] == b@[j],
        decreases na - i,
    {
        let ca = a.as_str().get_char(i);
        let cb = b.as_str().get_char(i);
        proof {
            assert(a@.skip(i as int)[0] == a@[i as int]);
            assert(b@.skip(i as int)[0] == b@[i as int]);
            assert(a@.skip(i as int).drop_first() =~= a@.skip(i as int + 1));
            assert(b@.skip(i as int).drop_first() =~= b@.skip(i as int + 1));
        }
        if ca != cb {
            return ca < cb;
        }
        i = i + 1;
    }
    proof {
        if i >= na {
            assert(a@.skip(i as int).len() == 0);
        } else {
            assert(b@.skip(i as int).len() == 0);
        }
    }
    na < nb
}

/// Does `after` admit this code: no bound, or strictly greater than the
/// bound?
pub open spec fn spec_admits(after: Option<Seq<char>>, code: Seq<char>) -> bool {
    match after {
        Some(bound) => spec_str_lt(bound, code),
        None => true,
    }
}

impl Ledger {
    /// One page of accounts in ascending code order.
    ///
    /// Returns up to `first` accounts whose codes follow the cursor (all of
    /// them where fewer remain), in strictly ascending code order with no
    /// account skipped: every stored code admitted by the cursor and not
    /// after the page's last code is on the page.  `has_next_page` says
    /// whether any admitted code lies beyond the page, and `end_cursor`
    /// (present exactly on a non-empty page) re-encodes the last code
    /// seen, so that following it pages through every account exactly
    /// once.  A malformed cursor fails with `DecodeError`.
    pub fn list_accounts(&self, after: Option<&CursorToken>, first: usize) -> (r: Result<
        PaginatedAccounts,
        LedgerError,
    >)
        requires
            self.wf(),
        ensures
            match r {
                Ok(p) => {
                    let bound = match after {
                        Some(t) => Some(
                            (match spec_b64_decode(t.token@) {
                                Some(pl) => pl.skip(5),
                                None => Seq::empty(),
                            }),
                        ),
                        None => None::<Seq<u8>>,
                    };
                    &&& p.accounts@.len() <= first
                    &&& (forall|i: int, j: int|
                        0 <= i < j < p.accounts@.len() ==> spec_str_lt(
                            (#[trigger] p.accounts@[i]).code@,
                            (#[trigger] p.accounts@[j]).code@,
                        ))
                    &&& (forall|i: int|
                        0 <= i < p.accounts@.len() ==> exists|k: int|
                            0 <= k < self.accounts@.len() && #[trigger] p.accounts@[i]
                                == self.accounts@[k])
                    &&& (forall|i: int|
                        0 <= i < p.accounts@.len() ==> spec_admits(
                            spec_page_bound(after, *self),
                            (#[trigger] p.accounts@[i]).code@,
                        ))
                    &&& (p.accounts@.len() > 0 ==> (forall|k: int|
                        0 <= k < self.accounts@.len() && spec_admits(
                            spec_page_bound(after, *self),
                            (#[trigger] self.accounts@[k]).code@,
                        ) && !spec_str_lt(
                            p.accounts@.last().code@,
                            self.accounts@[k].code@,
                        ) ==> exists|i: int|
                            0 <= i < p.accounts@.len() && #[trigger] p.accounts@[i]
                                == self.accounts@[k]))
                    &&& (p.accounts@.len() < first ==> (forall|k: int|
                        0 <= k < self.accounts@.len() && spec_admits(
                            spec_page_bound(after, *self),
                            (#[trigger] self.accounts@[k]).code@,
                        ) ==> exists|i: int|
                            0 <= i < p.accounts@.len() && #[trigger] p.accounts@[i]
                                == self.accounts@[k]))
                    &&& (p.accounts@.len() < first ==> !p.has_next_page)
                    &&& (p.has_next_page <==> (p.accounts@.len() >= first && exists|k: int|
                        0 <= k < self.accounts@.len() && spec_admits(
                            if p.accounts@.len() > 0 {
                                Some(p.accounts@.last().code@)
                            } else {
                                spec_page_bound(after, *self)
                            },
                            (#[trigger] self.accounts@[k]).code@,
                        )))
                    &&& (match p.end_cursor {
                        Some(t) => p.accounts@.len() > 0 && spec_b64_decode(t.token@) == Some(
                            spec_account_payload(p.accounts@.last().code@),
                        ),
                        None => p.accounts@.len() == 0,
                    })
                },
                Err(e) => e is DecodeError,
            },
            // The cursor alone decides failure: a malformed or foreign
            // token is rejected, a decodable one is never.
            r is Err <==> (match after {
                Some(t) => !spec_cursor_decodes(*t),
                None => false,
            }),
    {
        let bound: Option<String> = match after {
            Some(t) => {
                match decode_account_cursor(t) {
                    Ok(code) => Some(code),
                    Err(e) => {
                        return Err(e);
                    },
                }
            },
            None => None,
        };
        proof {
            match (after, &bound) {
                (Some(t), Some(c)) => {
                    let p = spec_b64_decode(t.token@).unwrap();
                    assert(p.subrange(0, 5) =~= spec_account_tag());
                    assert(p.skip(5) =~= encode_utf8(c@));
                    vstd::utf8::encode_utf8_valid_utf8(c@);
                    encode_utf8_decode_utf8(c@);
                    assert(spec_page_bound(after, *self) == Some(c@));
                },
                _ => {},
            }
        }
        let mut out: Vec<AccountRecord> = Vec::new();
        let mut lower: Option<String> = bound;
        let ghost b0 = spec_page_bound(after, *self);
        let mut exhausted = false;
        while !exhausted && out.len() < first
            invariant
                self.wf(),
                out@.len() <= first,
                (match lower {
                    Some(l) => out@.len() > 0 && out@.last().code@ == l@ || (out@.len() == 0 && b0
                        == Some(l@)),
                    None => out@.len() == 0 && b0 is None,
                }),
                forall|i: int, j: int|
                    0 <= i < j < out@.len() ==> spec_str_lt(
                        (#[trigger] out@[i]).code@,
                        (#[trigger] out@[j]).code@,
                    ),
                forall|i: int|
                    0 <= i < out@.len() ==> exists|k: int|
                        0 <= k < self.accounts@.len() && #[trigger] out@[i] == self.accounts@[k],
                forall|i: int|
                    0 <= i < out@.len() ==> spec_admits(b0, (#[trigger] out@[i]).code@),
                forall|k: int|
                    0 <= k < self.accounts@.len() && spec_admits(
                        b0,
                        (#[trigger] self.accounts@[k]).code@,
                    ) && !(match lower {
                        Some(l) => spec_str_lt(l@, (#[trigger] self.accounts@[k]).code@),
                        None => true,
                    }) ==> exists|i: int|
                        0 <= i < out@.len() && #[trigger] out@[i] == self.accounts@[k],
                exhausted ==> forall|j: int|
                    0 <= j < self.accounts@.len() ==> !(match lower {
                        Some(l) => spec_str_lt(l@, (#[trigger] self.accounts@[j]).code@),
                        None => true,
                    }),
            decreases first - out@.len() + (if exhausted { 0int } else { 1int }),
        {
            // The least stored code strictly above `lower`.
            let mut best: Option<usize> = None;
            let mut k: usize = 0;
            while k < self.accounts.len()
                invariant
                    self.wf(),
                    0 <= k <= self.accounts@.len(),
                    (match lower {
                        Some(l) => out@.len() > 0 && out@.last().code@ == l@ || (out@.len() == 0
                            && b0 == Some(l@)),
                        None => out@.len() == 0 && b0 is None,
                    }),
                    match best {
                        Some(b) => {
                            &&& 0 <= b < k
                            &&& (match lower {
                                Some(l) => spec_str_lt(l@, self.accounts@[b as int].code@),
                                None => true,
                            })
                            &&& forall|j: int|
                                0 <= j < k && (match lower {
                                    Some(l) => spec_str_lt(l@, (#[trigger] self.accounts@[j]).code@),
                                    None => true,
                                }) ==> !spec_str_lt(
                                    self.accounts@[j].code@,
                                    self.accounts@[b as int].code@,
                                )
                        },
                        None => forall|j: int|
                            0 <= j < k ==> !(match lower {
                                Some(l) => spec_str_lt(l@, (#[trigger] self.accounts@[j]).code@),
                                None => true,
                            }),
                    },
                decreases self.accounts@.len() - k,
            {
                let admitted = match &lower {
                    Some(l) => str_lt(l, &self.accounts[k].code),
                    None => true,
                };
                if admitted {
                    match best {
                        Some(b) => {
                            if str_lt(&self.accounts[k].code, &self.accounts[b].code) {
                                proof {
                                    assert forall|j: int|
                                        0 <= j < k + 1 && (match lower {
                                            Some(l) => spec_str_lt(
                                                l@,
                                                (#[trigger] self.accounts@[j]).code@,
                                            ),
                                            None => true,
                                        }) implies !spec_str_lt(
                                        self.accounts@[j].code@,
                                        self.accounts@[k as int].code@,
                                    ) by {
                                        if j < k {
                                            if spec_str_lt(
                                                self.accounts@[j].code@,
                                                self.accounts@[k as int].code@,
                                            ) {
                                                lemma_str_lt_trans(
                                                    self.accounts@[j].code@,
                                                    self.accounts@[k as int].code@,
                                                    self.accounts@[b as int].code@,
                                                );
                                            }
                                        } else {
                                            lemma_str_lt_trichotomy(
                                                self.accounts@[k as int].code@,
                                                self.accounts@[k as int].code@,
                                            );
                                        }
                                    }
                                }
                                best = Some(k);
                            } else {
                                proof {
                                    assert forall|j: int|
                                        0 <= j < k + 1 && (match lower {
                                            Some(l) => spec_str_lt(
                                                l@,
                                                (#[trigger] self.accounts@[j]).code@,
                                            ),
                                            None => true,
                                        }) implies !spec_str_lt(
                                        self.accounts@[j].code@,
                                        self.accounts@[b as int].code@,
                                    ) by {}
                                }
                            }
                        },
                        None => {
                            proof {
                                assert forall|j: int|
                                    0 <= j < k + 1 && (match lower {
                                        Some(l) => spec_str_lt(
                                            l@,
                                            (#[trigger] self.accounts@[j]).code@,
                                        ),
                                        None => true,
                                    }) implies !spec_str_lt(
                                    self.accounts@[j].code@,
                                    self.accounts@[k as int].code@,
                                ) by {
                                    if j == k as int {
                                        lemma_str_lt_trichotomy(
                                            self.accounts@[k as int].code@,
                                            self.accounts@[k as int].code@,
                                        );
                                    }
                                }
                            }
                            best = Some(k);
                        },
                    }
                }
                k = k + 1;
            }
            match best {
                Some(b) => {
                    let rec = dup_account(&self.accounts[b]);
                    proof {
                        // The chosen code extends the page: larger than all
                        // chosen so far, and nothing admitted lies between.
                        assert forall|i: int| 0 <= i < out@.len() implies spec_str_lt(
                            (#[trigger] out@[i]).code@,
                            rec.code@,
                        ) by {
                            if i < out@.len() - 1 {
                                lemma_str_lt_trans(
                                    out@[i].code@,
                                    out@.last().code@,
                                    rec.code@,
                                );
                            }
                        }
                        assert forall|i: int| 0 <= i < out@.len() + 1 implies spec_admits(
                            b0,
                            (#[trigger] out@.push(rec)[i]).code@,
                        ) by {
                            if i == out@.len() {
                                match b0 {
                                    Some(bb) => {
                                        if out@.len() > 0 {
                                            lemma_str_lt_trans(bb, out@.last().code@, rec.code@);
                                        }
                                    },
                                    None => {},
                                }
                            } else {
                                assert(out@.push(rec)[i] == out@[i]);
                            }
                        }
                        assert forall|k2: int|
                            0 <= k2 < self.accounts@.len() && spec_admits(
                                b0,
                                (#[trigger] self.accounts@[k2]).code@,
                            ) && !spec_str_lt(rec.code@, self.accounts@[k2].code@) implies exists|
                            i: int,
                        |
                            0 <= i < out@.push(rec).len() && #[trigger] out@.push(rec)[i]
                                == self.accounts@[k2] by {
                            lemma_str_lt_trichotomy(self.accounts@[k2].code@, rec.code@);
                            if self.accounts@[k2].code@ == rec.code@ {
                                // Codes are unique: this is the chosen record.
                                assert(self.accounts@[k2] == self.accounts@[b as int]);
                                assert(out@.push(rec)[out@.len() as int] == rec);
                            } else {
                                // Strictly below the chosen code: it was
                                // already on the page.
                                assert(spec_str_lt(self.accounts@[k2].code@, rec.code@));
                                assert(!(match lower {
                                    Some(l) => spec_str_lt(l@, self.accounts@[k2].code@),
                                    None => true,
                                }) || false) by {
                                    if (match lower {
                                        Some(l) => spec_str_lt(l@, self.accounts@[k2].code@),
                                        None => true,
                                    }) {
                                        assert(!spec_str_lt(
                                            self.accounts@[k2].code@,
                                            self.accounts@[b as int].code@,
                                        ));
                                    }
                                }
                                // So its code is not above `lower`; by the
                                // completeness invariant it is already out.
                                match lower {
                                    Some(l) => {
                                        lemma_str_lt_trichotomy(l@, self.accounts@[k2].code@);
                                        if out@.len() > 0 {
                                            assert(!spec_str_lt(
                                                out@.last().code@,
                                                self.accounts@[k2].code@,
                                            ));
                                            let i = choose|i: int|
                                                0 <= i < out@.len() && #[trigger] out@[i]
                                                    == self.accounts@[k2];
                                            assert(out@.push(rec)[i] == self.accounts@[k2]);
                                        }
                                    },
                                    None => {},
                                }
                            }
                        }
                    }
                    lower = Some(rec.code.clone());
                    out.push(rec);
                },
                None => {
                    exhausted = true;
                },
            }
        }
        // No admitted code beyond the page remains iff the min-scan found
        // nothing after filling the page; re-scan once for the flag.
        let has_next = if out.len() < first {
            false
        } else {
            self.exists_beyond(&lower)
        };
        let end_cursor = if out.len() > 0 {
            Some(encode_account_cursor(&out[out.len() - 1].code))
        } else {
            None
        };
        Ok(PaginatedAccounts { accounts: out, has_next_page: has_next, end_cursor })
    }

    /// Is any stored code admitted by this bound?
    fn exists_beyond(&self, lower: &Option<String>) -> (r: bool)
        ensures
            r == exists|k: int|
                0 <= k < self.accounts@.len() && (match *lower {
                    Some(l) => spec_str_lt(l@, (#[trigger] self.accounts@[k]).code@),
                    None => true,
                }),
    {
        let mut k: usize = 0;
        while k < self.accounts.len()
            invariant
                0 <= k <= self.accounts@.len(),
                forall|j: int|
                    0 <= j < k ==> !(match *lower {
                        Some(l) => spec_str_lt(l@, (#[trigger] self.accounts@[j]).code@),
                        None => true,
                    }),
            decreases self.accounts@.len() - k,
        {
            let beyond = match lower {
                Some(l) => str_lt(l, &self.accounts[k].code),
                None => true,
            };
            if beyond {
                proof {
                    assert(exists|k2: int|
                        0 <= k2 < self.accounts@.len() && (match *lower {
                            Some(l) => spec_str_lt(l@, (#[trigger] self.accounts@[k2]).code@),
                            None => true,
                        })) by {
                        assert(match *lower {
                            Some(l) => spec_str_lt(l@, (#[trigger] self.accounts@[k as int]).code@),
                            None => true,
                        });
                    }
                }
                return true;
            }
            k = k + 1;
        }
        false
    }
}

/// The code bound a cursor denotes over this ledger (meaningful where the
/// cursor decodes).
pub open spec fn spec_page_bound(after: Option<&CursorToken>, l: Ledger) -> Option<Seq<char>> {
    match after {
        Some(t) => match spec_b64_decode(t.token@) {
            Some(p) => if p.len() >= 5 && p.subrange(0, 5) == spec_account_tag() && valid_utf8(
                p.skip(5),
            ) {
                Some(vstd::utf8::decode_utf8(p.skip(5)))
            } else {
                Some(Seq::empty())
            },
            None => Some(Seq::empty()),
        },
        None => None,
    }
}

/// Copy an account record.
fn dup_account(a: &AccountRecord) -> (r: AccountRecord)
    ensures
        r == *a,
{
    AccountRecord {
        id: a.id.clone(),
        code: a.code.clone(),
        name: a.name.clone(),
        external_id: match &a.external_id {
            Some(s) => Some(s.clone()),
            None => None,
        },
        description: match &a.description {
            Some(s) => Some(s.clone()),
            None => None,
        },
        metadata: match &a.metadata {
            Some(s) => Some(s.clone()),
            None => None,
        },
        version: a.version,
    }
}

/// The tag that marks a payload as an entry-collection cursor.
pub open spec fn spec_entry_tag() -> Seq<u8> {
    seq![101u8, 110u8, 116u8, 58u8]
}

/// The big-endian value of a byte sequence.
pub open spec fn spec_be_val(bs: Seq<u8>) -> int
    decreases bs.len(),
{
    if bs.len() == 0 {
        0
    } else {
        spec_be_val(bs.drop_last()) * 256 + bs.last()
    }
}

/// A byte sequence's big-endian value is bounded by `256^len`.
proof fn lemma_be_val_bound(bs: Seq<u8>)
    ensures
        0 <= spec_be_val(bs) < pow(256, bs.len() as nat),
    decreases bs.len(),
{
    if bs.len() == 0 {
        assert(pow(256, 0) == 1) by {
            vstd::arithmetic::power::lemma_pow0(256);
        }
    } else {
        lemma_be_val_bound(bs.drop_last());
        assert(pow(256, bs.len() as nat) == pow(256, (bs.len() - 1) as nat) * 256) by {
            lemma_pow1(256);
            lemma_pow_adds(256, (bs.len() - 1) as nat, 1);
        }
    }
}

/// Eight bytes hold exactly the `u64` range.
proof fn lemma_pow256_8()
    ensures
        pow(256, 8) == 0x10000000000000000,
{
    reveal_with_fuel(pow, 9);
}

/// The eight big-endian bytes of `n`.
fn u64_be_bytes(n: u64) -> (r: Vec<u8>)
    ensures
        r@.len() == 8,
        spec_be_val(r@) == n,
{
    let mut le: Vec<u8> = Vec::new();
    let mut v = n;
    let mut i: usize = 0;
    proof {
        assert(pow(256, 0) == 1) by {
            vstd::arithmetic::power::lemma_pow0(256);
        }
        assert(v == n as int / pow(256, 0));
    }
    while i < 8
        invariant
            0 <= i <= 8,
            le@.len() == i,
            v == n as int / pow(256, i as nat),
            forall|k: int| 0 <= k < i ==> le@[k] == (n as int / pow(256, k as nat)) % 256,
        decreases 8 - i,
    {
        le.push((v % 256) as u8);
        proof {
            assert(pow(256, (i + 1) as nat) == pow(256, i as nat) * 256) by {
                lemma_pow1(256);
                lemma_pow_adds(256, i as nat, 1);
            }
            vstd::arithmetic::power::lemma_pow_positive(256, i as nat);
            lemma_div_denominator(n as int, pow(256, i as nat), 256);
        }
        v = v / 256;
        i = i + 1;
    }
    let mut out: Vec<u8> = Vec::new();
    let mut j: usize = 0;
    while j < 8
        invariant
            0 <= j <= 8,
            le@.len() == 8,
            out@.len() == j,
            forall|k: int| 0 <= k < 8 ==> le@[k] == (n as int / pow(256, k as nat)) % 256,
            forall|k: int| 0 <= k < j ==> out@[k] == (n as int / pow(256, (7 - k) as nat)) % 256,
        decreases 8 - j,
    {
        out.push(le[7 - j]);
        j = j + 1;
    }
    proof {
        lemma_pow256_8();
        lemma_be_digits_val(out@, n as int);
    }
    out
}

/// Eight big-endian digits of `n` denote `n`.
proof fn lemma_be_digits_val(bs: Seq<u8>, n: int)
    requires
        bs.len() == 8,
        0 <= n < pow(256, 8),
        forall|k: int| 0 <= k < 8 ==> bs[k] == (n / pow(256, (7 - k) as nat)) % 256,
    ensures
        spec_be_val(bs) == n,
{
    assert forall|i: int| 0 <= i <= 8 implies spec_be_val(bs.subrange(0, i)) == n / pow(
        256,
        (8 - i) as nat,
    ) by {
        lemma_be_digits_val_prefix(bs, n, i);
    }
    assert(bs.subrange(0, 8) =~= bs);
    assert(pow(256, 0) == 1) by {
        vstd::arithmetic::power::lemma_pow0(256);
    }
    assert(n / 1 == n) by {
        vstd::arithmetic::div_mod::lemma_div_basics(n);
    }
}

/// The first `i` big-endian digits of `n` denote `n / 256^(8-i)`.
proof fn lemma_be_digits_val_prefix(bs: Seq<u8>, n: int, i: int)
    requires
        bs.len() == 8,
        0 <= n < pow(256, 8),
        0 <= i <= 8,
        forall|k: int| 0 <= k < 8 ==> bs[k] == (n / pow(256, (7 - k) as nat)) % 256,
    ensures
        spec_be_val(bs.subrange(0, i)) == n / pow(256, (8 - i) as nat),
    decreases i,
{
    if i == 0 {
        lemma_basic_div(n, pow(256, 8));
    } else {
        lemma_be_digits_val_prefix(bs, n, i - 1);
        assert(bs.subrange(0, i).drop_last() =~= bs.subrange(0, i - 1));
        assert(bs.subrange(0, i).last() == bs[i - 1]);
        let m = pow(256, (8 - i) as nat);
        vstd::arithmetic::power::lemma_pow_positive(256, (8 - i) as nat);
        let q = n / m;
        assert(pow(256, (8 - i + 1) as nat) == m * 256) by {
            lemma_pow1(256);
            lemma_pow_adds(256, (8 - i) as nat, 1);
        }
        // The previous prefix denotes q / 256, and the next digit is
        // q % 256, so the new prefix denotes q.
        lemma_div_denominator(n, m, 256);
        assert(n / pow(256, (8 - (i - 1)) as nat) == q / 256) by {
            assert(m * 256 == pow(256, (8 - (i - 1)) as nat));
        }
        lemma_fundamental_div_mod(q, 256);
    }
}

/// The `u64` a big-endian eight-byte sequence denotes.
fn be_bytes_val(b: &Vec<u8>) -> (r: u64)
    requires
        b@.len() == 8,
    ensures
        r == spec_be_val(b@),
{
    proof {
        assert(b@.subrange(0, 0).len() == 0);
        assert(pow(256, 0) == 1) by {
            vstd::arithmetic::power::lemma_pow0(256);
        }
    }
    let mut acc: u64 = 0;
    let mut i: usize = 0;
    while i < 8
        invariant
            0 <= i <= 8,
            b@.len() == 8,
            acc == spec_be_val(b@.subrange(0, i as int)),
            acc < pow(256, i as nat),
        decreases 8 - i,
    {
        proof {
            assert(b@.subrange(0, i + 1 as int).drop_last() =~= b@.subrange(0, i as int));
            assert(b@.subrange(0, i + 1 as int).last() == b@[i as int]);
            assert(pow(256, (i + 1) as nat) == pow(256, i as nat) * 256) by {
                lemma_pow1(256);
                lemma_pow_adds(256, i as nat, 1);
            }
            lemma_pow256_8();
            vstd::arithmetic::power::lemma_pow_increases(256, (i + 1) as nat, 8);
        }
        acc = acc * 256 + (b[i] as u64);
        i = i + 1;
    }
    proof {
        assert(b@.subrange(0, 8) =~= b@);
    }
    acc
}

/// Does this token decode as an entry-collection cursor: base64 of the
/// entry tag and eight position bytes?
pub open spec fn spec_entry_cursor_decodes(t: CursorToken) -> bool {
    match spec_b64_decode(t.token@) {
        Some(p) => p.len() == 12 && p.subrange(0, 4) == spec_entry_tag(),
        None => false,
    }
}

/// The position an entry cursor denotes (meaningful where it decodes).
pub open spec fn spec_entry_cursor_pos(t: CursorToken) -> int {
    match spec_b64_decode(t.token@) {
        Some(p) => spec_be_val(p.skip(4)),
        None => 0,
    }
}

/// Encode a resume position as an opaque entry cursor.  The token decodes
/// back to exactly this position.
pub fn encode_entry_cursor(pos: u64) -> (r: CursorToken)
    ensures
        spec_entry_cursor_decodes(r),
        spec_entry_cursor_pos(r) == pos,
{
    let mut payload: Vec<u8> = Vec::new();
    payload.push(101);
    payload.push(110);
    payload.push(116);
    payload.push(58);
    let be = u64_be_bytes(pos);
    let mut i: usize = 0;
    while i < 8
        invariant
            0 <= i <= 8,
            be@.len() == 8,
            spec_be_val(be@) == pos,
            payload@ == spec_entry_tag() + be@.subrange(0, i as int),
        decreases 8 - i,
    {
        payload.push(be[i]);
        proof {
            assert(payload@ =~= spec_entry_tag() + be@.subrange(0, i + 1 as int));
        }
        i = i + 1;
    }
    proof {
        assert(be@.subrange(0, 8) =~= be@);
    }
    let token = b64_encode(&payload);
    proof {
        assert(payload@.subrange(0, 4) =~= spec_entry_tag());
        assert(payload@.skip(4) =~= be@);
    }
    CursorToken { token }
}

/// Decode an entry cursor to its resume position.  Succeeds exactly when
/// the token is the base64 form of the entry tag and eight position
/// bytes; anything else is a `DecodeError`.
pub fn decode_entry_cursor(t: &CursorToken) -> (r: Result<u64, LedgerError>)
    ensures
        match r {
            Ok(pos) => spec_entry_cursor_decodes(*t) && pos == spec_entry_cursor_pos(*t),
            Err(e) => e is DecodeError && !spec_entry_cursor_decodes(*t),
        },
{
    let bytes = match b64_decode(t.token.as_str()) {
        Some(b) => b,
        None => {
            return Err(LedgerError::DecodeError);
        },
    };
    if bytes.len() != 12 {
        return Err(LedgerError::DecodeError);
    }
    if !(*bytes.get(0).unwrap() == 101 && *bytes.get(1).unwrap() == 110 && *bytes.get(2).unwrap()
        == 116 && *bytes.get(3).unwrap() == 58) {
        proof {
            assert(bytes@.subrange(0, 4) != spec_entry_tag());
        }
        return Err(LedgerError::DecodeError);
    }
    proof {
        assert(bytes@.subrange(0, 4) =~= spec_entry_tag());
    }
    let mut rest: Vec<u8> = Vec::new();
    let mut i: usize = 4;
    while i < bytes.len()
        invariant
            4 <= i <= bytes@.len(),
            bytes@.len() == 12,
            rest@ == bytes@.subrange(4, i as int),
        decreases bytes@.len() - i,
    {
        rest.push(bytes[i]);
        proof {
            assert(rest@ =~= bytes@.subrange(4, i + 1 as int));
        }
        i = i + 1;
    }
    proof {
        assert(rest@ =~= bytes@.skip(4));
    }
    Ok(be_bytes_val(&rest))
}

/// The resume position a cursor denotes: zero without one.
pub open spec fn spec_after_pos(after: Option<&CursorToken>) -> int {
    match after {
        Some(t) => spec_entry_cursor_pos(*t),
        None => 0,
    }
}

/// The position a page starts at: the resume position, capped at the
/// selection's end.
pub open spec fn spec_page_skip(pos: int, len: int) -> int {
    if pos <= len {
        pos
    } else {
        len
    }
}

/// How many items a page holds: the rest of the selection, capped at the
/// page size.
pub open spec fn spec_page_count(skip: int, first: int, len: int) -> int {
    if len - skip <= first {
        len - skip
    } else {
        first
    }
}

/// The entries of one journal, in the requested direction.
pub open spec fn spec_journal_selection(
    l: Ledger,
    jv: Seq<char>,
    direction: ListDirection,
) -> Seq<EntryRecord> {
    match direction {
        ListDirection::Ascending => spec_journal_entries(l.entries@, jv),
        ListDirection::Descending => spec_journal_entries(l.entries@, jv).reverse(),
    }
}

/// The entries of one account, in the requested direction.
pub open spec fn spec_account_selection(
    l: Ledger,
    av: Seq<char>,
    direction: ListDirection,
) -> Seq<EntryRecord> {
    match direction {
        ListDirection::Ascending => spec_account_entries(l.entries@, av),
        ListDirection::Descending => spec_account_entries(l.entries@, av).reverse(),
    }
}

/// One page of an ordered entry selection: resume at the cursor's
/// position, return at most `first` entries, and hand back a cursor for
/// the next page.
fn entries_page(sel: Vec<EntryRecord>, after: Option<&CursorToken>, first: usize) -> (r: Result<
    PaginatedEntries,
    LedgerError,
>)
    ensures
        r is Err <==> (match after {
            Some(t) => !spec_entry_cursor_decodes(*t),
            None => false,
        }),
        r matches Err(e) ==> e is DecodeError,
        r matches Ok(p) ==> {
            let skip = spec_page_skip(spec_after_pos(after), sel@.len() as int);
            let count = spec_page_count(skip, first as int, sel@.len() as int);
            &&& p.entries@ == sel@.subrange(skip, skip + count)
            &&& p.has_next_page == (skip + count < sel@.len())
            &&& (match p.end_cursor {
                Some(t) => p.entries@.len() > 0 && spec_entry_cursor_decodes(t)
                    && spec_entry_cursor_pos(t) == skip + count,
                None => p.entries@.len() == 0,
            })
        },
{
    let pos: u64 = match after {
        Some(t) => {
            match decode_entry_cursor(t) {
                Ok(p) => p,
                Err(e) => {
                    return Err(e);
                },
            }
        },
        None => 0,
    };
    let len = sel.len();
    let skip: usize = if pos >= len as u64 {
        len
    } else {
        pos as usize
    };
    let count: usize = if len - skip <= first {
        len - skip
    } else {
        first
    };
    let mut out: Vec<EntryRecord> = Vec::new();
    let mut q: usize = 0;
    proof {
        assert(sel@.subrange(skip as int, skip as int).len() == 0);
    }
    while q < count
        invariant
            0 <= q <= count,
            len == sel@.len(),
            skip + count <= len,
            out@ == sel@.subrange(skip as int, skip + q),
        decreases count - q,
    {
        proof {
            assert(skip + q < sel@.len());
        }
        out.push(dup_entry(&sel[skip + q]));
        proof {
            assert(out@ =~= sel@.subrange(skip as int, skip + q + 1));
        }
        q = q + 1;
    }
    let end_cursor = if count > 0 {
        Some(encode_entry_cursor((skip + count) as u64))
    } else {
        None
    };
    Ok(PaginatedEntries { entries: out, has_next_page: skip + count < len, end_cursor })
}

impl Ledger {
    /// One page of a journal's entries in creation order (or its reverse).
    ///
    /// The page is exactly the selection's slice `[skip, skip+count)`,
    /// where `skip` is the cursor's resume position (zero without a
    /// cursor, capped at the selection's end) and `count` at most `first`:
    /// following `end_cursor` (present exactly on a non-empty page, and
    /// re-encoding the position after it) until `has_next_page` is false
    /// yields the whole selection, each entry exactly once, in order.
    /// Fails with `MalformedId` exactly on an unparsable identifier and
    /// `DecodeError` exactly on an undecodable cursor.
    pub fn list_entries_page_for_journal_id(
        &self,
        journal_id: &String,
        after: Option<&CursorToken>,
        first: usize,
        direction: ListDirection,
    ) -> (r: Result<PaginatedEntries, LedgerError>)
        ensures
            r is Err <==> (!spec_is_uuid(journal_id@) || (match after {
                Some(t) => !spec_entry_cursor_decodes(*t),
                None => false,
            })),
            r matches Err(e) ==> (match e {
                LedgerError::MalformedId { text } => text@ == journal_id@ && !spec_is_uuid(
                    journal_id@,
                ),
                LedgerError::DecodeError => after matches Some(t) && !spec_entry_cursor_decodes(
                    *t,
                ),
                _ => false,
            }),
            r matches Ok(p) ==> {
                let sel = spec_journal_selection(
                    *self,
                    spec_canonical_uuid(journal_id@),
                    direction,
                );
                let skip = spec_page_skip(spec_after_pos(after), sel.len() as int);
                let count = spec_page_count(skip, first as int, sel.len() as int);
                &&& p.entries@ == sel.subrange(skip, skip + count)
                &&& p.has_next_page == (skip + count < sel.len())
                &&& (match p.end_cursor {
                    Some(t) => p.entries@.len() > 0 && spec_entry_cursor_decodes(t)
                        && spec_entry_cursor_pos(t) == skip + count,
                    None => p.entries@.len() == 0,
                })
            },
    {
        let sel = match self.list_entries_for_journal_id(journal_id, direction) {
            Ok(v) => v,
            Err(e) => {
                return Err(e);
            },
        };
        entries_page(sel, after, first)
    }

    /// One page of an account's entries in creation order (or its
    /// reverse), paged exactly as
    /// [`Ledger::list_entries_page_for_journal_id`] pages a journal's.
    pub fn list_entries_page_for_account_id(
        &self,
        account_id: &String,
        after: Option<&CursorToken>,
        first: usize,
        direction: ListDirection,
    ) -> (r: Result<PaginatedEntries, LedgerError>)
        ensures
            r is Err <==> (!spec_is_uuid(account_id@) || (match after {
                Some(t) => !spec_entry_cursor_decodes(*t),
                None => false,
            })),
            r matches Err(e) ==> (match e {
                LedgerError::MalformedId { text } => text@ == account_id@ && !spec_is_uuid(
                    account_id@,
                ),
                LedgerError::DecodeError => after matches Some(t) && !spec_entry_cursor_decodes(
                    *t,
                ),
                _ => false,
            }),
            r matches Ok(p) ==> {
                let sel = spec_account_selection(
                    *self,
                    spec_canonical_uuid(account_id@),
                    direction,
                );
                let skip = spec_page_skip(spec_after_pos(after), sel.len() as int);
                let count = spec_page_count(skip, first as int, sel.len() as int);
                &&& p.entries@ == sel.subrange(skip, skip + count)
                &&& p.has_next_page == (skip + count < sel.len())
                &&& (match p.end_cursor {
                    Some(t) => p.entries@.len() > 0 && spec_entry_cursor_decodes(t)
                        && spec_entry_cursor_pos(t) == skip + count,
                    None => p.entries@.len() == 0,
                })
            },
    {
        let sel = match self.list_entries_for_account_id(account_id, direction) {
            Ok(v) => v,
            Err(e) => {
                return Err(e);
            },
        };
        entries_page(sel, after, first)
    }
}

/// A stored template, summarised for the boundary.
pub struct TxTemplateValues {
    pub id: String,
    pub code: String,
    pub version: u32,
    pub description: Option<String>,
    pub metadata: Option<String>,
}

/// A page of template summaries in creation order.
pub struct PaginatedTxTemplates {
    pub tx_templates: Vec<TxTemplateValues>,
    pub has_next_page: bool,
    pub end_cursor: Option<CursorToken>,
}

/// Does this summary carry the record's identity, code, version,
/// description and metadata?
pub open spec fn spec_template_summary(t: TxTemplateRecord, v: TxTemplateValues) -> bool {
    &&& v.id@ == t.id@
    &&& v.code@ == t.code@
    &&& v.version == t.version
    &&& (match (t.description, v.description) {
        (Some(a), Some(b)) => a@ == b@,
        (None, None) => true,
        _ => false,
    })
    &&& (match (t.metadata, v.metadata) {
        (Some(a), Some(b)) => a@ == b@,
        (None, None) => true,
        _ => false,
    })
}

/// Summarise one template record.
fn template_values(t: &TxTemplateRecord) -> (r: TxTemplateValues)
    ensures
        spec_template_summary(*t, r),
{
    TxTemplateValues {
        id: t.id.clone(),
        code: t.code.clone(),
        version: t.version,
        description: match &t.description {
            Some(s) => Some(s.clone()),
            None => None,
        },
        metadata: match &t.metadata {
            Some(s) => Some(s.clone()),
            None => None,
        },
    }
}

/// The tag that marks a payload as a template-collection cursor.
pub open spec fn spec_template_tag() -> Seq<u8> {
    seq![116u8, 112u8, 108u8, 58u8]
}

/// Does this token decode as a template-collection cursor?
pub open spec fn spec_template_cursor_decodes(t: CursorToken) -> bool {
    match spec_b64_decode(t.token@) {
        Some(p) => p.len() == 12 && p.subrange(0, 4) == spec_template_tag(),
        None => false,
    }
}

/// The position a template cursor denotes (meaningful where it decodes).
pub open spec fn spec_template_cursor_pos(t: CursorToken) -> int {
    match spec_b64_decode(t.token@) {
        Some(p) => spec_be_val(p.skip(4)),
        None => 0,
    }
}

/// Encode a resume position as an opaque template cursor.
pub fn encode_template_cursor(pos: u64) -> (r: CursorToken)
    ensures
        spec_template_cursor_decodes(r),
        spec_template_cursor_pos(r) == pos,
{
    let mut payload: Vec<u8> = Vec::new();
    payload.push(116);
    payload.push(112);
    payload.push(108);
    payload.push(58);
    let be = u64_be_bytes(pos);
    let mut i: usize = 0;
    while i < 8
        invariant
            0 <= i <= 8,
            be@.len() == 8,
            spec_be_val(be@) == pos,
            payload@ == spec_template_tag() + be@.subrange(0, i as int),
        decreases 8 - i,
    {
        payload.push(be[i]);
        proof {
            assert(payload@ =~= spec_template_tag() + be@.subrange(0, i + 1 as int));
        }
        i = i + 1;
    }
    proof {
        assert(be@.subrange(0, 8) =~= be@);
    }
    let token = b64_encode(&payload);
    proof {
        assert(payload@.subrange(0, 4) =~= spec_template_tag());
        assert(payload@.skip(4) =~= be@);
    }
    CursorToken { token }
}

/// Decode a template cursor to its resume position; anything else is a
/// `DecodeError`.
pub fn decode_template_cursor(t: &CursorToken) -> (r: Result<u64, LedgerError>)
    ensures
        match r {
            Ok(pos) => spec_template_cursor_decodes(*t) && pos == spec_template_cursor_pos(*t),
            Err(e) => e is DecodeError && !spec_template_cursor_decodes(*t),
        },
{
    let bytes = match b64_decode(t.token.as_str()) {
        Some(b) => b,
        None => {
            return Err(LedgerError::DecodeError);
        },
    };
    if bytes.len() != 12 {
        return Err(LedgerError::DecodeError);
    }
    if !(*bytes.get(0).unwrap() == 116 && *bytes.get(1).unwrap() == 112 && *bytes.get(2).unwrap()
        == 108 && *bytes.get(3).unwrap() == 58) {
        proof {
            assert(bytes@.subrange(0, 4) != spec_template_tag());
        }
        return Err(LedgerError::DecodeError);
    }
    proof {
        assert(bytes@.subrange(0, 4) =~= spec_template_tag());
    }
    let mut rest: Vec<u8> = Vec::new();
    let mut i: usize = 4;
    while i < bytes.len()
        invariant
            4 <= i <= bytes@.len(),
            bytes@.len() == 12,
            rest@ == bytes@.subrange(4, i as int),
        decreases bytes@.len() - i,
    {
        rest.push(bytes[i]);
        proof {
            assert(rest@ =~= bytes@.subrange(4, i + 1 as int));
        }
        i = i + 1;
    }
    proof {
        assert(rest@ =~= bytes@.skip(4));
    }
    Ok(be_bytes_val(&rest))
}

impl Ledger {
    /// One page of template summaries in creation order: resume at the
    /// cursor's position, return at most `first` summaries, each carrying
    /// its record's identity, code, version, description and metadata.
    /// Following `end_cursor` (present exactly on a non-empty page) until
    /// `has_next_page` is false yields every stored template exactly once.
    /// Fails exactly on an undecodable or foreign cursor, with
    /// `DecodeError`.
    pub fn list_tx_templates(&self, after: Option<&CursorToken>, first: usize) -> (r: Result<
        PaginatedTxTemplates,
        LedgerError,
    >)
        ensures
            r is Err <==> (match after {
                Some(t) => !spec_template_cursor_decodes(*t),
                None => false,
            }),
            r matches Err(e) ==> e is DecodeError,
            r matches Ok(p) ==> {
                let pos = (match after {
                    Some(t) => spec_template_cursor_pos(*t),
                    None => 0,
                });
                let skip = spec_page_skip(pos, self.templates@.len() as int);
                let count = spec_page_count(skip, first as int, self.templates@.len() as int);
                &&& p.tx_templates@.len() == count
                &&& (forall|q: int|
                    0 <= q < count ==> spec_template_summary(
                        self.templates@[skip + q],
                        #[trigger] p.tx_templates@[q],
                    ))
                &&& p.has_next_page == (skip + count < self.templates@.len())
                &&& (match p.end_cursor {
                    Some(t) => p.tx_templates@.len() > 0 && spec_template_cursor_decodes(t)
                        && spec_template_cursor_pos(t) == skip + count,
                    None => p.tx_templates@.len() == 0,
                })
            },
    {
        let pos: u64 = match after {
            Some(t) => {
                match decode_template_cursor(t) {
                    Ok(p) => p,
                    Err(e) => {
                        return Err(e);
                    },
                }
            },
            None => 0,
        };
        let len = self.templates.len();
        let skip: usize = if pos >= len as u64 {
            len
        } else {
            pos as usize
        };
        let count: usize = if len - skip <= first {
            len - skip
        } else {
            first
        };
        let mut out: Vec<TxTemplateValues> = Vec::new();
        let mut q: usize = 0;
        while q < count
            invariant
                0 <= q <= count,
                len == self.templates@.len(),
                skip + count <= len,
                out@.len() == q,
                forall|q2: int|
                    0 <= q2 < q ==> spec_template_summary(
                        self.templates@[skip + q2],
                        #[trigger] out@[q2],
                    ),
            decreases count - q,
        {
            proof {
                assert(skip + q < self.templates@.len());
            }
            out.push(template_values(&self.templates[skip + q]));
            q = q + 1;
        }
        let end_cursor = if count > 0 {
            Some(encode_template_cursor((skip + count) as u64))
        } else {
            None
        };
        Ok(
            PaginatedTxTemplates {
                tx_templates: out,
                has_next_page: skip + count < len,
                end_cursor,
            },
        )
    }
}

} // verus!
