//! Identifiers that name arguments in a format string.

use vstd::prelude::*;
use vstd::string::*;

use crate::text::{debug_of, debug_str, push_str};

verus! {

/// Whether `c` may start an identifier (Unicode `XID_Start`).
pub uninterp spec fn xid_start(c: char) -> bool;

/// Whether `c` may continue an identifier (Unicode `XID_Continue`).
pub uninterp spec fn xid_continue(c: char) -> bool;

/// The Unicode NFC normal form of `s`.
pub uninterp spec fn nfc_of(s: Seq<char>) -> Seq<char>;

/// Relies on `unicode_ident::is_xid_start`: it tests the `XID_Start`
/// property of `c`.
#[verifier::external_body]
pub(crate) fn is_xid_start(c: char) -> (r: bool)
    ensures
        r == xid_start(c),
{
    unicode_ident::is_xid_start(c)
}

/// Relies on `unicode_ident::is_xid_continue`: it tests the
/// `XID_Continue` property of `c`.
#[verifier::external_body]
pub(crate) fn is_xid_continue(c: char) -> (r: bool)
    ensures
        r == xid_continue(c),
{
    unicode_ident::is_xid_continue(c)
}

/// Relies on `unicode_normalization::UnicodeNormalization::nfc`: the NFC
/// normal form of `s`, collected into a string.
#[verifier::external_body]
fn nfc(s: &str) -> (r: String)
    ensures
        r@ == nfc_of(s@),
{
    unicode_normalization::UnicodeNormalization::nfc(s).collect::<String>()
}

/// Error message for an identifier that is not in NFC.
pub open spec fn nfc_message(name: Seq<char>) -> Seq<char> {
    "identifiers in format string must be normalized in Unicode NFC (`"@ + debug_of(name)
        + "` != `"@ + debug_of(nfc_of(name)) + "`)"@
}

/// An identifier in Unicode NFC.
#[derive(Debug, PartialEq)]
pub struct Id<'a>(&'a str);

impl<'a> View for Id<'a> {
    type V = Seq<char>;

    closed spec fn view(&self) -> Seq<char> {
        self.0@
    }
}

impl<'a> Id<'a> {
    /// Accepts `name` as an identifier where it is in NFC.
    pub fn new(name: &'a str) -> (r: Result<Self, String>)
        ensures
            r is Ok <==> nfc_of(name@) == name@,
            r matches Ok(id) ==> id@ == name@,
            r matches Err(e) ==> e@ == nfc_message(name@),
    {
        let normalized = nfc(name);
        let owned = String::from_str(name);
        if owned == normalized {
            Ok(Id(name))
        } else {
            let mut msg = String::from_str(
                "identifiers in format string must be normalized in Unicode NFC (`",
            );
            let d1 = debug_str(name);
            let d2 = debug_str(normalized.as_str());
            push_str(&mut msg, d1.as_str());
            push_str(&mut msg, "` != `");
            push_str(&mut msg, d2.as_str());
            push_str(&mut msg, "`)");
            Err(msg)
        }
    }

    /// Returns the identifier's text.
    pub fn name(&self) -> (r: &'a str)
        ensures
            r@ == self@,
    {
        self.0
    }
}

} // verus!
