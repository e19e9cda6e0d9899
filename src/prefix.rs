//! Identifier prefixes: unset before inception, otherwise a basic (public key) or
//! self-addressing (digest) derivation.
use vstd::prelude::*;
use crate::bytes::{bytes_eq, copy_bytes, enc_bytes, push_bytes};

verus! {

/// An identifier prefix together with its derivation code.
#[derive(Debug)]
pub enum IdentifierPrefix {
    Unset,
    Basic(Vec<u8>),
    SelfAddressing(Vec<u8>),
}

/// What a prefix holds: its derivation and raw bytes.
pub enum PrefixView {
    Unset,
    Basic(Seq<u8>),
    SelfAddressing(Seq<u8>),
}

impl View for IdentifierPrefix {
    type V = PrefixView;

    open spec fn view(&self) -> PrefixView {
        match self {
            IdentifierPrefix::Unset => PrefixView::Unset,
            IdentifierPrefix::Basic(k) => PrefixView::Basic(k@),
            IdentifierPrefix::SelfAddressing(d) => PrefixView::SelfAddressing(d@),
        }
    }
}

/// Canonical encoding of a prefix: a derivation code byte, then the raw bytes.
pub open spec fn enc_prefix(p: PrefixView) -> Seq<u8> {
    match p {
        PrefixView::Unset => seq![0u8],
        PrefixView::Basic(k) => seq![1u8] + enc_bytes(k),
        PrefixView::SelfAddressing(d) => seq![2u8] + enc_bytes(d),
    }
}

impl Default for IdentifierPrefix {
    fn default() -> (r: IdentifierPrefix)
        ensures
            r@ == PrefixView::Unset,
    {
        IdentifierPrefix::Unset
    }
}

impl IdentifierPrefix {
    /// Whether the prefix is still unset.
    pub fn is_unset(&self) -> (r: bool)
        ensures
            r == (self@ == PrefixView::Unset),
    {
        match self {
            IdentifierPrefix::Unset => true,
            _ => false,
        }
    }

    /// Whether two prefixes have the same derivation and bytes.
    pub fn same_as(&self, other: &IdentifierPrefix) -> (r: bool)
        ensures
            r == (self@ == other@),
    {
        match (self, other) {
            (IdentifierPrefix::Unset, IdentifierPrefix::Unset) => true,
            (IdentifierPrefix::Basic(a), IdentifierPrefix::Basic(b)) => bytes_eq(a, b),
            (IdentifierPrefix::SelfAddressing(a), IdentifierPrefix::SelfAddressing(b)) => bytes_eq(
                a,
                b,
            ),
            _ => false,
        }
    }

    /// A copy of the prefix.
    pub fn copy(&self) -> (r: IdentifierPrefix)
        ensures
            r@ == self@,
    {
        match self {
            IdentifierPrefix::Unset => IdentifierPrefix::Unset,
            IdentifierPrefix::Basic(k) => IdentifierPrefix::Basic(copy_bytes(k)),
            IdentifierPrefix::SelfAddressing(d) => IdentifierPrefix::SelfAddressing(copy_bytes(d)),
        }
    }

    /// Appends the canonical encoding of the prefix.
    pub fn encode_into(&self, out: &mut Vec<u8>)
        ensures
            final(out)@ == old(out)@ + enc_prefix(self@),
    {
        match self {
            IdentifierPrefix::Unset => {
                out.push(0u8);
                assert(final(out)@ =~= old(out)@ + enc_prefix(self@));
            },
            IdentifierPrefix::Basic(k) => {
                out.push(1u8);
                push_bytes(out, k);
                assert(final(out)@ =~= old(out)@ + enc_prefix(self@));
            },
            IdentifierPrefix::SelfAddressing(d) => {
                out.push(2u8);
                push_bytes(out, d);
                assert(final(out)@ =~= old(out)@ + enc_prefix(self@));
            },
        }
    }
}

} // verus!
