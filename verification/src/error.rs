//! What a failed decode reports.

use vstd::prelude::*;
use vstd::string::StringExecFns;

verus! {

/// The rule that the input broke.
#[derive(Clone, Copy, Debug, PartialEq, Eq, Structural)]
pub enum ErrorKind {
    /// The schema holds no type for the value at hand.
    NoSpecification,
    /// The tag and length octets of a TLV are malformed.
    HeaderRead,
    /// A TLV claims more octets than there are.
    TlvRead,
    /// The buffer goes on after its TLV, by this many octets.
    TrailingOctets(usize),
    /// More explicit tags are nested than the decoder will peel.
    NestedExplicitTagLimit,
    /// The tags of the value are not those that the schema expects.
    SpecMismatch,
    /// The schema names a type family, by this identifier, that has no decoder.
    UnsupportedType(u8),
    /// A primitive type is encoded as constructed, or a constructed one as primitive.
    InvalidFormat,
    /// The value has this many octets, which its type does not allow.
    InvalidLength(usize),
    /// A BOOLEAN octet that is neither `0x00` nor `0xFF`.
    NonCanonical,
    /// The value has no octets where its type needs one.
    UnderRun,
    /// An integer with a leading octet that the sign does not need.
    NonMinimal,
    /// A BIT STRING counts this many unused bits, which its length does not allow.
    InvalidTrailerLength(u8),
    /// A BIT STRING with a one among its unused bits.
    NonZeroTrailer,
    /// A BIT STRING of named bits that ends in a zero bit.
    TrailingZeroBit,
    /// An OBJECT IDENTIFIER whose arcs are malformed.
    MalformedOid,
    /// A PrintableString with a character outside its set.
    NotPrintable,
    /// An aggregate that breaks a constraint of its schema.
    Inconsistent,
    /// A SEQUENCE with a component beyond those of its schema.
    ExcessiveComponents,
    /// A component with a default, encoded with that default as its value.
    ExplicitDefault,
    /// A SEQUENCE that lacks a required component.
    MissingRequired,
    /// A SET OF whose element at this index sorts before the one in front of it.
    OutOfOrder(usize),
}

/// A failed decode: the rule that was broken and where.
#[derive(Debug, PartialEq, Eq)]
pub struct DecodeError {
    pub kind: ErrorKind,
    /// Offset in the buffer of the first octet of the TLV at fault.
    pub offset: usize,
    /// Name of the schema node that the TLV was decoded against; empty where
    /// the failure came before any node was in play.
    pub schema_name: String,
    /// What the failure says of the rule that was broken; for a failure to
    /// read a TLV, what the parser of the TLV said.
    pub description: String,
}

/// A failed decode, as contracts speak of it.
pub struct ErrorView {
    pub kind: ErrorKind,
    pub offset: usize,
    pub schema_name: Seq<char>,
    pub description: Seq<char>,
}

impl View for DecodeError {
    type V = ErrorView;

    open spec fn view(&self) -> ErrorView {
        ErrorView {
            kind: self.kind,
            offset: self.offset,
            schema_name: self.schema_name@,
            description: self.description@,
        }
    }
}

/// A failure that names no schema node and needs no words beyond its kind.
pub open spec fn plain_error(kind: ErrorKind, offset: usize) -> ErrorView {
    ErrorView { kind, offset, schema_name: Seq::empty(), description: Seq::empty() }
}

impl DecodeError {
    /// A failure with the given parts.
    pub fn new(kind: ErrorKind, offset: usize, schema_name: String, description: String) -> (error:
        Self)
        ensures
            error@ == (ErrorView {
                kind,
                offset,
                schema_name: schema_name@,
                description: description@,
            }),
    {
        DecodeError { kind, offset, schema_name, description }
    }

    /// A failure that names no schema node and needs no words beyond its kind.
    pub fn plain(kind: ErrorKind, offset: usize) -> (error: Self)
        ensures
            error@ == plain_error(kind, offset),
    {
        DecodeError { kind, offset, schema_name: String::new(), description: String::new() }
    }
}

/// A digit in writing.
pub open spec fn digit_text(digit: nat) -> Seq<char> {
    if digit == 0 {
        "0"@
    } else if digit == 1 {
        "1"@
    } else if digit == 2 {
        "2"@
    } else if digit == 3 {
        "3"@
    } else if digit == 4 {
        "4"@
    } else if digit == 5 {
        "5"@
    } else if digit == 6 {
        "6"@
    } else if digit == 7 {
        "7"@
    } else if digit == 8 {
        "8"@
    } else {
        "9"@
    }
}

/// A number in decimal writing.
pub open spec fn decimal_text(n: nat) -> Seq<char>
    decreases n,
{
    if n < 10 {
        digit_text(n)
    } else {
        decimal_text(n / 10) + digit_text(n % 10)
    }
}

fn digit(d: usize) -> (text: &'static str)
    requires
        d < 10,
    ensures
        text@ == digit_text(d as nat),
{
    if d == 0 {
        "0"
    } else if d == 1 {
        "1"
    } else if d == 2 {
        "2"
    } else if d == 3 {
        "3"
    } else if d == 4 {
        "4"
    } else if d == 5 {
        "5"
    } else if d == 6 {
        "6"
    } else if d == 7 {
        "7"
    } else if d == 8 {
        "8"
    } else {
        "9"
    }
}

/// A number in decimal writing.
pub fn decimal(n: usize) -> (text: String)
    ensures
        text@ == decimal_text(n as nat),
    decreases n,
{
    if n < 10 {
        String::from_str(digit(n))
    } else {
        let mut text = decimal(n / 10);
        text.append(digit(n % 10));
        text
    }
}

/// What is said of a value in the wrong format, primitive or constructed.
pub open spec fn invalid_format_text(label: Seq<char>) -> Seq<char> {
    "Invalid "@ + label + " value format"@
}

pub fn invalid_format(label: &str) -> (text: String)
    ensures
        text@ == invalid_format_text(label@),
{
    let mut text = String::from_str("Invalid ");
    text.append(label);
    text.append(" value format");
    text
}

/// What is said of an integer without octets.
pub open spec fn under_run_text(label: Seq<char>) -> Seq<char> {
    "Substrate under-run in "@ + label + " value"@
}

pub fn under_run(label: &str) -> (text: String)
    ensures
        text@ == under_run_text(label@),
{
    let mut text = String::from_str("Substrate under-run in ");
    text.append(label);
    text.append(" value");
    text
}

/// What is said of an integer with a needless leading octet.
pub open spec fn non_minimal_text(label: Seq<char>) -> Seq<char> {
    "Non-minimal "@ + label + " encoding"@
}

pub fn non_minimal(label: &str) -> (text: String)
    ensures
        text@ == non_minimal_text(label@),
{
    let mut text = String::from_str("Non-minimal ");
    text.append(label);
    text.append(" encoding");
    text
}

/// What is said of a BOOLEAN that does not have one octet.
pub open spec fn boolean_length_text(length: usize) -> Seq<char> {
    "Invalid BOOLEAN value length of "@ + decimal_text(length as nat) + " octets"@
}

pub fn boolean_length(length: usize) -> (text: String)
    ensures
        text@ == boolean_length_text(length),
{
    let mut text = String::from_str("Invalid BOOLEAN value length of ");
    text.append(decimal(length).as_str());
    text.append(" octets");
    text
}

/// What is said of a BIT STRING whose count of unused bits cannot be.
pub open spec fn trailer_length_text(bits: u8) -> Seq<char> {
    "Invalid trailer length of "@ + decimal_text(bits as nat) + " bits in BIT STRING"@
}

pub fn trailer_length(bits: u8) -> (text: String)
    ensures
        text@ == trailer_length_text(bits),
{
    let mut text = String::from_str("Invalid trailer length of ");
    text.append(decimal(bits as usize).as_str());
    text.append(" bits in BIT STRING");
    text
}

/// What is said of a PrintableString that its check refuses with `said`.
pub open spec fn printable_text(said: Seq<char>) -> Seq<char> {
    "Error decoding PRINTABLESTRING: "@ + said
}

pub fn printable(said: &str) -> (text: String)
    ensures
        text@ == printable_text(said@),
{
    let mut text = String::from_str("Error decoding PRINTABLESTRING: ");
    text.append(said);
    text
}

/// What is said of a type family without a decoder.
pub open spec fn unsupported_text(id: u8) -> Seq<char> {
    "ASN.1 specification with type ID of "@ + decimal_text(id as nat) + " is not supported"@
}

pub fn unsupported(id: u8) -> (text: String)
    ensures
        text@ == unsupported_text(id),
{
    let mut text = String::from_str("ASN.1 specification with type ID of ");
    text.append(decimal(id as usize).as_str());
    text.append(" is not supported");
    text
}

/// What is said of an element of a SET OF that sorts before the one in front of it.
pub open spec fn out_of_order_text(index: usize) -> Seq<char> {
    "Out of order component at index "@ + decimal_text(index as nat)
}

pub fn out_of_order(index: usize) -> (text: String)
    ensures
        text@ == out_of_order_text(index),
{
    let mut text = String::from_str("Out of order component at index ");
    text.append(decimal(index).as_str());
    text
}

/// What is said of an aggregate with `count` components where its type
/// asks for at least `min` and at most `max`.
pub open spec fn size_text(count: usize, min: usize, max: usize) -> Seq<char> {
    "Value of "@ + decimal_text(count as nat) + " components is outside the bounds "@
        + decimal_text(min as nat) + ".."@ + decimal_text(max as nat)
}

pub fn size_description(count: usize, min: usize, max: usize) -> (text: String)
    ensures
        text@ == size_text(count, min, max),
{
    let mut text = String::from_str("Value of ");
    text.append(decimal(count).as_str());
    text.append(" components is outside the bounds ");
    text.append(decimal(min).as_str());
    text.append("..");
    text.append(decimal(max).as_str());
    text
}

/// What a failure says in one line: the rule that was broken, the schema
/// node where one was in play, and the offset.
pub open spec fn message_text(error: ErrorView) -> Seq<char> {
    let near = " near substrate offset "@ + decimal_text(error.offset as nat);
    match error.kind {
        ErrorKind::NoSpecification => "No ASN.1 specification"@ + near,
        ErrorKind::HeaderRead => "Error reading TLV header"@ + near + ": "@ + error.description,
        ErrorKind::TlvRead => "Error reading TLV"@ + near + ": "@ + error.description,
        ErrorKind::TrailingOctets(count) => decimal_text(count as nat)
            + " trailing octet(s) after TLV"@ + near,
        _ => "Error decoding \""@ + error.schema_name + "\" TLV"@ + near + ": "@
            + error.description,
    }
}

impl DecodeError {
    /// What the failure says, in one line.
    pub fn message(&self) -> (text: String)
        ensures
            text@ == message_text(self@),
    {
        let mut near = String::from_str(" near substrate offset ");
        near.append(decimal(self.offset).as_str());
        match self.kind {
            ErrorKind::NoSpecification => {
                let mut text = String::from_str("No ASN.1 specification");
                text.append(near.as_str());
                text
            },
            ErrorKind::HeaderRead => {
                let mut text = String::from_str("Error reading TLV header");
                text.append(near.as_str());
                text.append(": ");
                text.append(self.description.as_str());
                text
            },
            ErrorKind::TlvRead => {
                let mut text = String::from_str("Error reading TLV");
                text.append(near.as_str());
                text.append(": ");
                text.append(self.description.as_str());
                text
            },
            ErrorKind::TrailingOctets(count) => {
                let mut text = decimal(count);
                text.append(" trailing octet(s) after TLV");
                text.append(near.as_str());
                text
            },
            _ => {
                let mut text = String::from_str("Error decoding \"");
                text.append(self.schema_name.as_str());
                text.append("\" TLV");
                text.append(near.as_str());
                text.append(": ");
                text.append(self.description.as_str());
                text
            },
        }
    }
}

/// Whether a check ended as `model` says: passed where it passes, and
/// failed with its failure where it fails.
pub open spec fn verdict_is(r: Result<(), DecodeError>, model: Result<(), ErrorView>) -> bool {
    match r {
        Ok(_) => model is Ok,
        Err(e) => model == Err::<(), ErrorView>(e@),
    }
}

} // verus!
