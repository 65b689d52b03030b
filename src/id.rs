//! Identifier of one catalog item (a fankit) and its URL codec.

use vstd::prelude::*;

use crate::text::{
    decimal, is_digit_spec, lemma_decimal_digits, lemma_parse_decimal, parse_usize,
    parse_usize_spec, push_char, push_decimal, starts_with, trim_end_slashes, trim_end_slashes_at,
};
use crate::URL_FANKIT_ITEM_BASE;

verus! {

/// Fankit ID.
#[derive(Debug, Clone, Copy, PartialEq, Eq, Structural, PartialOrd, Ord, Hash)]
pub struct FankitId(pub usize);

/// `FankitId` parse error.
#[derive(Debug, Clone, Copy, PartialEq, Eq, Structural)]
pub enum FankitIdParseError {
    /// Base URL mismatch.
    BaseMismatch,
    /// Invalid path.
    InvalidPath,
}

/// The URL of the fankit page with ID `id`: `<item-base><id>/`.
pub open spec fn item_url(id: usize) -> Seq<char> {
    URL_FANKIT_ITEM_BASE@ + decimal(id as nat) + seq!['/']
}

/// What parsing `url` as a fankit page URL gives. The URL must begin with
/// the item base; what follows, trailing slashes dropped, must parse as a
/// `usize`.
pub open spec fn parse_item_url(url: Seq<char>) -> Result<FankitId, FankitIdParseError> {
    let base = URL_FANKIT_ITEM_BASE@;
    if !base.is_prefix_of(url) {
        Err(FankitIdParseError::BaseMismatch)
    } else {
        match parse_usize_spec(trim_end_slashes(url.subrange(base.len() as int, url.len() as int))) {
            Some(v) => Ok(FankitId(v)),
            None => Err(FankitIdParseError::InvalidPath),
        }
    }
}

/// Dropping the trailing slashes of a number's decimal form followed by
/// one slash gives that decimal form back.
pub proof fn lemma_trim_decimal_slash(n: nat)
    ensures
        trim_end_slashes(decimal(n) + seq!['/']) == decimal(n),
{
    lemma_decimal_digits(n);
    let d = decimal(n);
    assert((d + seq!['/']).drop_last() =~= d);
    assert(is_digit_spec(d[d.len() - 1]));
    assert(d.last() != '/');
    assert(trim_end_slashes(d) == d);
    assert((d + seq!['/']).last() == '/');
}

impl FankitId {
    /// Creates a new `FankitId`.
    pub fn new(v: usize) -> (r: Self)
        ensures
            r.0 == v,
    {
        FankitId(v)
    }

    /// Returns the URL of the fankit.
    pub fn to_url(self) -> (r: String)
        ensures
            r@ == item_url(self.0),
    {
        let mut s = String::from_str(URL_FANKIT_ITEM_BASE);
        push_decimal(&mut s, self.0);
        push_char(&mut s, '/');
        s
    }

    /// Returns `usize` value.
    pub fn to_usize(self) -> (r: usize)
        ensures
            r == self.0,
    {
        self.0
    }

    /// Parses the URL of a fankit page.
    pub fn parse_url(url: &str) -> (r: Result<Self, FankitIdParseError>)
        ensures
            r == parse_item_url(url@),
    {
        if !starts_with(url, URL_FANKIT_ITEM_BASE) {
            return Err(FankitIdParseError::BaseMismatch);
        }
        let from = URL_FANKIT_ITEM_BASE.unicode_len();
        let len = url.unicode_len();
        let to = trim_end_slashes_at(url, from, len);
        match parse_usize(url, from, to) {
            Some(v) => Ok(FankitId(v)),
            None => Err(FankitIdParseError::InvalidPath),
        }
    }
}

impl FankitIdParseError {
    /// Describes the error.
    pub fn message(&self) -> (r: &'static str)
        ensures
            *self is BaseMismatch ==> r@ == "Base URL mismatch"@,
            *self is InvalidPath ==> r@ == "Invalid path"@,
    {
        match self {
            FankitIdParseError::BaseMismatch => "Base URL mismatch",
            FankitIdParseError::InvalidPath => "Invalid path",
        }
    }
}

impl std::str::FromStr for FankitId {
    type Err = FankitIdParseError;

    fn from_str(url: &str) -> Result<Self, Self::Err> {
        Self::parse_url(url)
    }
}

/// Parsing the URL of a fankit gives that fankit back.
pub proof fn lemma_item_url_round_trip(id: FankitId)
    ensures
        parse_item_url(item_url(id.0)) == Ok::<FankitId, FankitIdParseError>(id),
{
    let base = URL_FANKIT_ITEM_BASE@;
    let url = item_url(id.0);
    assert(url.subrange(0, base.len() as int) =~= base);
    assert(url.subrange(base.len() as int, url.len() as int) =~= decimal(id.0 as nat) + seq!['/']);
    lemma_trim_decimal_slash(id.0 as nat);
    lemma_parse_decimal(id.0);
}

} // verus!
