//! Identities and identifiers.
//!
//! A [`Principal`] stands for an authenticated identity; the host attests,
//! before an operation is invoked on behalf of a principal, that the caller
//! proved control of it.  A [`SymbolId`] is a short symbolic identifier
//! (quest ids, badge ids), carried as bytes.

use vstd::prelude::*;

verus! {

/// An authenticated identity capable of proving authorization for an action.
/// The host maps its opaque account handles to these values one-to-one.
#[derive(Clone, Copy, PartialEq, Eq, Structural, Debug, Hash)]
pub struct Principal {
    pub id: u64,
}

impl Principal {
    pub fn new(id: u64) -> (p: Principal)
        ensures
            p.id == id,
    {
        Principal { id }
    }
}

/// A short symbolic identifier, unique by its byte content.
#[derive(Clone, PartialEq, Eq, Debug)]
pub struct SymbolId {
    pub bytes: Vec<u8>,
}

impl View for SymbolId {
    type V = Seq<u8>;

    open spec fn view(&self) -> Seq<u8> {
        self.bytes@
    }
}

impl SymbolId {
    pub fn new(bytes: Vec<u8>) -> (s: SymbolId)
        ensures
            s@ == bytes@,
    {
        SymbolId { bytes }
    }
}

/// Byte-wise equality of two byte vectors.
pub fn bytes_eq(a: &Vec<u8>, b: &Vec<u8>) -> (r: bool)
    ensures
        r <==> a@ == b@,
{
    if a.len() != b.len() {
        return false;
    }
    let n = a.len();
    let mut i: usize = 0;
    while i < n
        invariant
            n == a@.len(),
            n == b@.len(),
            0 <= i <= n,
            forall|j: int| 0 <= j < i ==> a@[j] == b@[j],
        decreases n - i,
    {
        if a[i] != b[i] {
            return false;
        }
        i = i + 1;
    }
    proof {
        assert(a@ =~= b@);
    }
    true
}

/// Equality of two symbolic identifiers.
pub fn sym_eq(a: &SymbolId, b: &SymbolId) -> (r: bool)
    ensures
        r <==> a@ == b@,
{
    bytes_eq(&a.bytes, &b.bytes)
}

/// A fresh byte vector with the same content.
pub fn copy_bytes(v: &Vec<u8>) -> (r: Vec<u8>)
    ensures
        r@ == v@,
{
    let mut r: Vec<u8> = Vec::new();
    let n = v.len();
    let mut i: usize = 0;
    while i < n
        invariant
            n == v@.len(),
            0 <= i <= n,
            r@ =~= v@.subrange(0, i as int),
        decreases n - i,
    {
        r.push(v[i]);
        i = i + 1;
    }
    proof {
        assert(r@ =~= v@);
    }
    r
}

/// A fresh identifier with the same content.
pub fn copy_symbol(s: &SymbolId) -> (r: SymbolId)
    ensures
        r@ == s@,
{
    SymbolId { bytes: copy_bytes(&s.bytes) }
}

/// A fresh optional identifier with the same content.
pub fn copy_symbol_opt(s: &Option<SymbolId>) -> (r: Option<SymbolId>)
    ensures
        match s {
            Some(x) => r matches Some(y) && y@ == x@,
            None => r is None,
        },
{
    match s {
        Some(x) => Some(copy_symbol(x)),
        None => None,
    }
}

} // verus!
