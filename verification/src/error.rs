//! The error type shared by the whole library.

use vstd::prelude::*;

verus! {

/// Everything that can go wrong while building or transforming a model.
///
/// Every variant carries enough context to locate the offending input:
/// the identifier, the field name, or the indices of the conflicting
/// merge rules.
#[derive(Debug)]
pub enum Error {
    /// Two records of one kind share an identifier at store-build time.
    IdentifierAlreadyExists(String),
    /// A mandatory foreign key does not resolve at model construction.
    DanglingReference { kind: String, id: String, field: String },
    /// A merge rule set is ambiguous or chained; the indices name the
    /// two conflicting rules and the identifier they disagree on.
    RuleConflict { first_rule: usize, second_rule: usize, id: String },
    /// A restriction window ends before it starts.
    InvalidPeriod,
    /// No relation path connects the two queried kinds.
    NoPathBetweenKinds,
    /// An XML element has no child of the wanted name.
    XmlChildNotFound { child: String, element: String },
    /// An XML element has more than one child of the wanted name.
    XmlChildNotUnique { child: String, element: String },
    /// An XML element lacks a wanted attribute.
    XmlAttributeNotFound { attribute: String, element: String },
    /// A ticket was built from an element of the wrong name.
    NotADistanceMatrixElement { name: String },
    /// A currency code is not a known ISO 4217 alpha-3 code.
    InvalidCurrency { currency: String },
    /// No unique line reference was found in a fare frame.
    LineReferenceNotFound,
    /// No unique line carries the referenced identifier.
    LineNotFound { line_ref: String },
    /// No unique scheduled stop point carries the referenced identifier.
    ScheduledStopPointNotFound { reference: String },
    /// An identifier has no prefix that could be removed.
    PrefixNotRemovable { reference: String },
    /// An element's key list holds no unique well-formed entry for a key.
    KeyValueNotFound { key: String },
    /// A text does not parse as an unsigned number.
    InvalidNumber { text: String },
    /// A text does not parse as a decimal number.
    InvalidDecimal { text: String },
    /// A decimal computation left the representable range.
    DecimalOutOfRange,
}

} // verus!
