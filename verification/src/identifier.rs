//! The small fixed-format codes embedded in camera filenames.
//!
//! A four-character code names a recording (`File`); a two-character code
//! names a chapter, numeric (`Chapter`) or alphabetic (`Loop`). Identifiers
//! order numerically when both sides are numeric and otherwise by their
//! canonical zero-padded strings.

use crate::text::{
    all_digits, digits_val, lemma_digits_val_order, lemma_seq_lt_transitive,
    lemma_seq_lt_trichotomy, pad_zeros, parse_usize, parse_usize_spec, seq_lt, str_lt, zero_pad,
};
use vstd::prelude::*;

verus! {

/// What a code's shape says it names.
#[derive(Debug, PartialEq, Eq, Structural, Clone, Copy, Hash)]
pub enum Kind {
    File,
    Chapter,
    Loop,
}

/// Failure to read a code.
#[derive(Debug)]
pub enum Error {
    /// The code's length is not two or four; carries that length.
    InvalidIdentifierLen(usize),
    /// The code does not parse as a number; carries the raw code.
    ParseInt(String),
}

/// Mathematical model of an identifier: its raw characters and kind.
pub struct IdModel {
    pub raw: Seq<char>,
    pub kind: Kind,
}

/// The kind a raw code of admissible length receives: a two-character code
/// is a chapter exactly when it is numeric-parseable.
pub open spec fn kind_of(raw: Seq<char>) -> Kind {
    if raw.len() == 4 {
        Kind::File
    } else if parse_usize_spec(raw) is Some {
        Kind::Chapter
    } else {
        Kind::Loop
    }
}

/// A well-formed identifier: admissible length, kind derived from the code.
pub open spec fn id_wf(m: IdModel) -> bool {
    (m.raw.len() == 2 || m.raw.len() == 4) && m.kind == kind_of(m.raw)
}

/// Width to which the canonical form zero-pads, by kind.
pub open spec fn id_width(k: Kind) -> int {
    match k {
        Kind::File => 4,
        Kind::Chapter => 2,
        Kind::Loop => 0,
    }
}

/// Canonical string form: the raw code zero-padded to the kind's width.
pub open spec fn id_canon(m: IdModel) -> Seq<char> {
    zero_pad(m.raw, id_width(m.kind))
}

/// Identifier order: numeric when both codes parse, else by canonical
/// string.
pub open spec fn id_lt(a: IdModel, b: IdModel) -> bool {
    match (parse_usize_spec(a.raw), parse_usize_spec(b.raw)) {
        (Some(x), Some(y)) => x < y,
        _ => seq_lt(id_canon(a), id_canon(b)),
    }
}

/// Well-formed, and written without a redundant sign: a numeric code is
/// all digits, as the camera writes them. A sign-prefixed code such as
/// "+1" parses numerically yet differs from "01" as a string, and on such
/// pairs the ordering rule is not antisymmetric; the order laws below
/// therefore speak of canonical identifiers.
pub open spec fn id_canonical(m: IdModel) -> bool {
    id_wf(m) && (parse_usize_spec(m.raw) is Some ==> all_digits(m.raw))
}

/// Two identifiers on which the order behaves as a strict total order:
/// both canonical, and of the same width class.
pub open spec fn id_comparable(a: IdModel, b: IdModel) -> bool {
    id_canonical(a) && id_canonical(b) && ((a.kind is File) <==> (b.kind is File))
}

/// On comparable identifiers the order is the lexicographic order of the raw
/// codes, and equality is equality of the raw codes.
pub proof fn lemma_id_lt_is_lex(a: IdModel, b: IdModel)
    requires
        id_comparable(a, b),
    ensures
        id_lt(a, b) <==> seq_lt(a.raw, b.raw),
        a == b <==> a.raw == b.raw,
{
    assert(id_canon(a) == a.raw);
    assert(id_canon(b) == b.raw);
    match (parse_usize_spec(a.raw), parse_usize_spec(b.raw)) {
        (Some(x), Some(y)) => {
            assert(a.raw.len() == b.raw.len());
            crate::text::lemma_digits_val_bounds(a.raw);
            crate::text::lemma_digits_val_bounds(b.raw);
            lemma_digits_val_order(a.raw, b.raw);
            assert(x == digits_val(a.raw));
            assert(y == digits_val(b.raw));
        },
        _ => {},
    }
}

/// Identifier ordering is a strict total order on comparable identifiers:
/// exactly one of `a < b`, `a == b`, `b < a` holds.
pub proof fn lemma_identifier_order_trichotomy(a: IdModel, b: IdModel)
    requires
        id_comparable(a, b),
    ensures
        id_lt(a, b) || id_lt(b, a) || a == b,
        !(id_lt(a, b) && id_lt(b, a)),
        id_lt(a, b) ==> a != b,
{
    lemma_id_lt_is_lex(a, b);
    lemma_id_lt_is_lex(b, a);
    lemma_seq_lt_trichotomy(a.raw, b.raw);
}

/// Identifier ordering is transitive on comparable identifiers.
pub proof fn lemma_identifier_order_transitive(a: IdModel, b: IdModel, c: IdModel)
    requires
        id_comparable(a, b),
        id_comparable(b, c),
        id_comparable(a, c),
        id_lt(a, b),
        id_lt(b, c),
    ensures
        id_lt(a, c),
{
    lemma_id_lt_is_lex(a, b);
    lemma_id_lt_is_lex(b, c);
    lemma_id_lt_is_lex(a, c);
    lemma_seq_lt_transitive(a.raw, b.raw, c.raw);
}

/// A code of fixed width embedded in a camera filename.
#[derive(Debug, Hash)]
pub struct Identifier {
    raw_value: String,
    kind: Kind,
}

impl View for Identifier {
    type V = IdModel;

    closed spec fn view(&self) -> IdModel {
        IdModel { raw: self.raw_value@, kind: self.kind }
    }
}

impl Clone for Identifier {
    fn clone(&self) -> (r: Identifier)
        ensures
            r@ == self@,
    {
        Identifier { raw_value: self.raw_value.clone(), kind: self.kind }
    }
}

impl PartialEq for Identifier {
    fn eq(&self, other: &Identifier) -> (r: bool) {
        self.raw_value == other.raw_value && self.kind == other.kind
    }
}

impl vstd::std_specs::cmp::PartialEqSpecImpl for Identifier {
    open spec fn obeys_eq_spec() -> bool {
        true
    }

    open spec fn eq_spec(&self, other: &Identifier) -> bool {
        self@ == other@
    }
}

impl Kind {
    /// Classify a raw code, rejecting inadmissible lengths.
    pub fn try_from(value: &str) -> (r: Result<Kind, Error>)
        ensures
            match r {
                Ok(k) => (value@.len() == 2 || value@.len() == 4) && k == kind_of(value@),
                Err(e) => !(value@.len() == 2 || value@.len() == 4) && match e {
                    Error::InvalidIdentifierLen(l) => l == value@.len(),
                    _ => false,
                },
            },
    {
        let n = value.unicode_len();
        if n == 4 {
            Ok(Kind::File)
        } else if n == 2 {
            match parse_usize(value) {
                Some(_) => Ok(Kind::Chapter),
                None => Ok(Kind::Loop),
            }
        } else {
            Err(Error::InvalidIdentifierLen(n))
        }
    }
}

impl Identifier {
    /// Parse a raw code of length two or four; any other length is rejected
    /// with that length.
    pub fn try_from(v: &str) -> (r: Result<Identifier, Error>)
        ensures
            match r {
                Ok(id) => (v@.len() == 2 || v@.len() == 4) && id@.raw == v@ && id_wf(id@),
                Err(e) => !(v@.len() == 2 || v@.len() == 4) && match e {
                    Error::InvalidIdentifierLen(l) => l == v@.len(),
                    _ => false,
                },
            },
    {
        match Kind::try_from(v) {
            Ok(kind) => Ok(Identifier { raw_value: String::from_str(v), kind }),
            Err(e) => Err(e),
        }
    }

    /// Numeric value of the code, as the standard numeral rules read it;
    /// non-numeric codes report a parse failure carrying the raw code.
    pub fn numeric(&self) -> (r: Result<usize, Error>)
        ensures
            match (r, parse_usize_spec(self@.raw)) {
                (Ok(n), Some(m)) => n == m,
                (Err(e), None) => e matches Error::ParseInt(raw) && raw@ == self@.raw,
                _ => false,
            },
    {
        match parse_usize(self.raw_value.as_str()) {
            Some(n) => Ok(n),
            None => Err(Error::ParseInt(self.raw_value.clone())),
        }
    }

    /// Canonical string form, zero-padded to the kind's width.
    pub fn string(&self) -> (r: String)
        ensures
            r@ == id_canon(self@),
    {
        match self.kind {
            Kind::Chapter => pad_zeros(self.raw_value.as_str(), 2),
            Kind::File => pad_zeros(self.raw_value.as_str(), 4),
            Kind::Loop => self.raw_value.clone(),
        }
    }

    /// The identifier's kind.
    pub fn kind(&self) -> (r: Kind)
        ensures
            r == self@.kind,
    {
        self.kind
    }

    /// Strict comparison: numeric when both codes parse, else by canonical
    /// string.
    pub fn lt(&self, other: &Identifier) -> (r: bool)
        ensures
            r == id_lt(self@, other@),
    {
        let a = parse_usize(self.raw_value.as_str());
        let b = parse_usize(other.raw_value.as_str());
        match (a, b) {
            (Some(x), Some(y)) => x < y,
            _ => {
                let sa = self.string();
                let sb = other.string();
                str_lt(sa.as_str(), sb.as_str())
            },
        }
    }
}

} // verus!
