//! Absolute addresses, held as their canonical text.
//!
//! Parsing, resolving a reference, dropping a fragment and comparing origins are
//! the work of the `url` crate. Each of those results is a function of the texts
//! handed in, and is spoken of here under a name of its own.

use vstd::prelude::*;
use crate::config::LinkError;
use crate::order::{str_le, text_le};

verus! {

/// The canonical text of the address that `input` parses to, if it parses.
pub uninterp spec fn parsed_text(input: Seq<char>) -> Option<Seq<char>>;

/// The canonical text of `reference` resolved against the address `base`, if
/// both parse.
pub uninterp spec fn joined_text(base: Seq<char>, reference: Seq<char>) -> Option<Seq<char>>;

/// The canonical text of the address `url` once its fragment is removed, if
/// `url` parses.
pub uninterp spec fn fragmentless_text(url: Seq<char>) -> Option<Seq<char>>;

/// Whether the addresses `a` and `b` both parse and have equal origins.
pub uninterp spec fn origins_equal(a: Seq<char>, b: Seq<char>) -> bool;

/// What stands for an address once its fragment is gone; a text that is no
/// address stands for itself.
pub open spec fn stripped(url: Seq<char>) -> Seq<char> {
    match fragmentless_text(url) {
        Some(text) => text,
        None => url,
    }
}

/// The text inside an optional string.
pub open spec fn text_of(s: Option<String>) -> Option<Seq<char>> {
    match s {
        Some(text) => Some(text@),
        None => None,
    }
}

/// Calls `url::Url::parse` and hands back the serialization of the address it
/// built. Trusted: the result is what that parser makes of `input`, nothing
/// where it refuses it.
#[verifier::external_body]
fn parse_text(input: &str) -> (r: Option<String>)
    ensures
        text_of(r) == parsed_text(input@),
{
    url::Url::parse(input).ok().map(String::from)
}

/// Calls `url::Url::join` on the address that `base` parses to. Trusted: the
/// result is the serialization of the address that `reference` resolves to
/// against it, nothing where `base` or the reference is refused.
#[verifier::external_body]
fn join_text(base: &str, reference: &str) -> (r: Option<String>)
    ensures
        text_of(r) == joined_text(base@, reference@),
{
    match url::Url::parse(base) {
        Ok(address) => address.join(reference).ok().map(String::from),
        Err(_) => None,
    }
}

/// Calls `url::Url::set_fragment` with no fragment on the address that `url`
/// parses to. Trusted: the result is the serialization that is left, nothing
/// where `url` is refused.
#[verifier::external_body]
fn defragment_text(url: &str) -> (r: Option<String>)
    ensures
        text_of(r) == fragmentless_text(url@),
{
    match url::Url::parse(url) {
        Ok(mut address) => {
            address.set_fragment(None);
            Some(String::from(address))
        },
        Err(_) => None,
    }
}

/// Compares what `url::Url::origin` gives for the addresses that `a` and `b`
/// parse to. Trusted: the result says whether both parse and those origins are
/// equal; an origin that is no (scheme, host, port) triple equals none.
#[verifier::external_body]
fn origin_eq_text(a: &str, b: &str) -> (r: bool)
    ensures
        r == origins_equal(a@, b@),
{
    match (url::Url::parse(a), url::Url::parse(b)) {
        (Ok(left), Ok(right)) => left.origin() == right.origin(),
        _ => false,
    }
}

/// An absolute address. Two addresses are the same address exactly when their
/// texts are the same.
#[derive(Debug)]
pub struct Url {
    text: String,
}

impl View for Url {
    type V = Seq<char>;

    closed spec fn view(&self) -> Seq<char> {
        self.text@
    }
}

impl Clone for Url {
    fn clone(&self) -> (r: Self)
        ensures
            r@ == self@,
    {
        Url { text: self.text.clone() }
    }
}

impl Url {
    /// Reads an absolute address.
    pub fn parse(input: &str) -> (r: Result<Url, LinkError>)
        ensures
            r is Ok <==> parsed_text(input@) is Some,
            r matches Ok(u) ==> Some(u@) == parsed_text(input@),
            r is Err ==> r == Err::<Url, LinkError>(LinkError::ResolutionError),
    {
        match parse_text(input) {
            Some(text) => Ok(Url { text }),
            None => Err(LinkError::ResolutionError),
        }
    }

    /// The canonical text.
    pub fn as_str(&self) -> (r: &str)
        ensures
            r@ == self@,
    {
        self.text.as_str()
    }

    /// The address that the raw link `raw` points to when it is found on the
    /// page at `self`.
    pub fn resolve(&self, raw: &str) -> (r: Result<Url, LinkError>)
        ensures
            r is Ok <==> joined_text(self@, raw@) is Some,
            r matches Ok(u) ==> Some(u@) == joined_text(self@, raw@),
            r is Err ==> r == Err::<Url, LinkError>(LinkError::ResolutionError),
    {
        match join_text(self.text.as_str(), raw) {
            Some(text) => Ok(Url { text }),
            None => Err(LinkError::ResolutionError),
        }
    }

    /// The same address without its fragment; `self` is left as it was.
    pub fn strip_fragment(&self) -> (r: Url)
        ensures
            r@ == stripped(self@),
    {
        match defragment_text(self.text.as_str()) {
            Some(text) => Url { text },
            None => self.clone(),
        }
    }

    /// Whether `self` and `other` have the same origin.
    pub fn same_origin(&self, other: &Url) -> (r: bool)
        ensures
            r == origins_equal(self@, other@),
    {
        origin_eq_text(self.text.as_str(), other.text.as_str())
    }

    /// Whether `self` comes no later than `other` in the order of their texts.
    pub fn precedes(&self, other: &Url) -> (r: bool)
        ensures
            r == text_le(self@, other@),
    {
        str_le(self.text.as_str(), other.text.as_str())
    }
}

impl PartialEq for Url {
    fn eq(&self, other: &Url) -> (r: bool) {
        self.text == other.text
    }
}

impl Eq for Url {

}

impl vstd::std_specs::cmp::PartialEqSpecImpl for Url {
    open spec fn obeys_eq_spec() -> bool {
        true
    }

    open spec fn eq_spec(&self, other: &Url) -> bool {
        self@ == other@
    }
}

} // verus!
