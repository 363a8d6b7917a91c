//! Dialects and account-address normalization.
//!
//! A dialect names a variant of the language differing in address-literal
//! format; in this family every dialect canonicalizes addresses the same
//! way.  An address literal is `0x` followed by one to 32 hex digits; its
//! canonical form pads the digits with zeros to 32 and lowercases them.

use vstd::prelude::*;

use crate::bytes::{bytes_eq, clone_bytes};
use crate::source_map::FileSourceMap;

verus! {

/// A hex digit, either case.
pub open spec fn is_hex_any(b: u8) -> bool {
    (48 <= b <= 57) || (97 <= b <= 102) || (65 <= b <= 70)
}

/// Uppercase hex letters fold to lowercase; other bytes stay.
pub open spec fn lower_hex(b: u8) -> u8 {
    if 65 <= b <= 70 {
        (b + 32) as u8
    } else {
        b
    }
}

/// A valid address literal: `0x`, then one to 32 hex digits, nothing else.
pub open spec fn spec_valid_address(a: Seq<u8>) -> bool {
    &&& 3 <= a.len() <= 34
    &&& a[0] == 48
    &&& a[1] == 120
    &&& forall|k: int| 2 <= k < a.len() ==> is_hex_any(#[trigger] a[k])
}

/// The canonical form: `0x`, the digits padded with zeros to 32, lowercased.
pub open spec fn spec_normalize_address(a: Seq<u8>) -> Seq<u8> {
    seq![48u8, 120u8] + Seq::new((34 - a.len()) as nat, |j: int| 48u8) + Seq::new(
        (a.len() - 2) as nat,
        |j: int| lower_hex(a[2 + j]),
    )
}

/// Normalizing a valid literal yields a valid, 34-byte literal, and
/// normalizing again returns it unchanged: canonical forms are fixed points.
pub proof fn lemma_normalize_idempotent(a: Seq<u8>)
    requires
        spec_valid_address(a),
    ensures
        spec_valid_address(spec_normalize_address(a)),
        spec_normalize_address(a).len() == 34,
        spec_normalize_address(spec_normalize_address(a)) == spec_normalize_address(a),
{
    let n = spec_normalize_address(a);
    assert forall|k: int| 2 <= k < n.len() implies is_hex_any(#[trigger] n[k]) by {
        if k >= 2 + 32 - (a.len() - 2) {
            assert(n[k] == lower_hex(a[k - 32 + (a.len() - 2)]));
        } else {
            assert(n[k] == 48u8);
        }
    }
    let m = spec_normalize_address(n);
    assert forall|k: int| 0 <= k < 34 implies m[k] == n[k] by {
        if k >= 2 {
            assert(m[k] == lower_hex(n[k]));
            if k >= 2 + 32 - (a.len() - 2) {
                assert(n[k] == lower_hex(a[k - 32 + (a.len() - 2)]));
            } else {
                assert(n[k] == 48u8);
            }
        }
    }
    assert(m =~= n);
}

/// The three textual forms of an account address carried together: as the
/// user typed it, normalized, and normalized to the extended width.
pub struct ProvidedAccountAddress {
    pub original: Vec<u8>,
    pub normalized_original: Vec<u8>,
    pub normalized_extended: Vec<u8>,
}

impl ProvidedAccountAddress {
    /// The normalized forms really are the canonical form of the original.
    pub open spec fn wf(&self) -> bool {
        &&& spec_valid_address(self.original@)
        &&& self.normalized_original@ == spec_normalize_address(self.original@)
        &&& self.normalized_extended@ == spec_normalize_address(self.original@)
        &&& self.normalized_original@.len() == 34
    }

    pub fn new(original: Vec<u8>, normalized_original: Vec<u8>, normalized_extended: Vec<u8>) -> (r:
        ProvidedAccountAddress)
        ensures
            r.original@ == original@,
            r.normalized_original@ == normalized_original@,
            r.normalized_extended@ == normalized_extended@,
    {
        ProvidedAccountAddress { original, normalized_original, normalized_extended }
    }

    /// Deep copy.
    pub fn duplicate(&self) -> (r: ProvidedAccountAddress)
        ensures
            r.original@ == self.original@,
            r.normalized_original@ == self.normalized_original@,
            r.normalized_extended@ == self.normalized_extended@,
            self.wf() ==> r.wf(),
    {
        ProvidedAccountAddress {
            original: clone_bytes(&self.original),
            normalized_original: clone_bytes(&self.normalized_original),
            normalized_extended: clone_bytes(&self.normalized_extended),
        }
    }
}

/// The address literal was not `0x` followed by one to 32 hex digits.
#[derive(PartialEq, Eq, Structural, Clone, Copy, Debug)]
pub struct InvalidAddressError;

/// The name is not one of the known dialects; carries the rejected name.
#[derive(Debug)]
pub struct UnknownDialectError {
    pub name: Vec<u8>,
}

/// The dialects of the language family.
#[derive(PartialEq, Eq, Structural, Clone, Copy, Debug)]
pub enum DialectName {
    Libra,
    Starcoin,
}

/// The name written `libra`.
pub open spec fn libra_name() -> Seq<u8> {
    seq![108u8, 105u8, 98u8, 114u8, 97u8]
}

/// The name written `starcoin`.
pub open spec fn starcoin_name() -> Seq<u8> {
    seq![115u8, 116u8, 97u8, 114u8, 99u8, 111u8, 105u8, 110u8]
}

impl DialectName {
    /// Parses a dialect name; a rejected name comes back in the error.
    pub fn from_bytes(s: &Vec<u8>) -> (r: Result<DialectName, UnknownDialectError>)
        ensures
            r matches Ok(d) ==> (s@ == libra_name() && d is Libra) || (s@ == starcoin_name()
                && d is Starcoin),
            r is Err <==> s@ != libra_name() && s@ != starcoin_name(),
            r matches Err(e) ==> e.name@ == s@,
    {
        let mut libra: Vec<u8> = Vec::new();
        libra.push(108);
        libra.push(105);
        libra.push(98);
        libra.push(114);
        libra.push(97);
        proof {
            assert(libra@ =~= libra_name());
        }
        if bytes_eq(s, &libra) {
            return Ok(DialectName::Libra);
        }
        let mut starcoin: Vec<u8> = Vec::new();
        starcoin.push(115);
        starcoin.push(116);
        starcoin.push(97);
        starcoin.push(114);
        starcoin.push(99);
        starcoin.push(111);
        starcoin.push(105);
        starcoin.push(110);
        proof {
            assert(starcoin@ =~= starcoin_name());
        }
        if bytes_eq(s, &starcoin) {
            return Ok(DialectName::Starcoin);
        }
        Err(UnknownDialectError { name: clone_bytes(s) })
    }

    /// The dialect this name selects; in this family both names share one
    /// behaviour.
    pub fn get_dialect(&self) -> (r: LibraDialect)
        ensures
            r == LibraDialect,
    {
        LibraDialect
    }
}

/// The shared dialect implementation.
#[derive(PartialEq, Eq, Structural, Clone, Copy, Debug)]
pub struct LibraDialect;

impl LibraDialect {
    /// Parses and canonicalizes an account-address literal.  Success exactly
    /// on `0x` followed by one to 32 hex digits.
    pub fn normalize_account_address(&self, addr: &Vec<u8>) -> (r: Result<
        ProvidedAccountAddress,
        InvalidAddressError,
    >)
        ensures
            r matches Ok(p) ==> {
                &&& spec_valid_address(addr@)
                &&& p.original@ == addr@
                &&& p.normalized_original@ == spec_normalize_address(addr@)
                &&& p.normalized_extended@ == spec_normalize_address(addr@)
                &&& p.wf()
            },
            r is Err <==> !spec_valid_address(addr@),
    {
        let n = addr.len();
        if n < 3 || n > 34 {
            return Err(InvalidAddressError);
        }
        if addr[0] != 48 || addr[1] != 120 {
            return Err(InvalidAddressError);
        }
        let mut k: usize = 2;
        while k < n
            invariant
                2 <= k <= n,
                n == addr@.len(),
                forall|j: int| 2 <= j < k ==> is_hex_any(#[trigger] addr@[j]),
            decreases n - k,
        {
            let b = addr[k];
            if !((48 <= b && b <= 57) || (97 <= b && b <= 102) || (65 <= b && b <= 70)) {
                return Err(InvalidAddressError);
            }
            k = k + 1;
        }
        let mut norm: Vec<u8> = Vec::new();
        norm.push(48);
        norm.push(120);
        let pad = 34 - n;
        let mut z: usize = 0;
        while z < pad
            invariant
                z <= pad,
                pad == 34 - n,
                3 <= n <= 34,
                norm@ == seq![48u8, 120u8] + Seq::new(z as nat, |j: int| 48u8),
            decreases pad - z,
        {
            norm.push(48);
            proof {
                assert(seq![48u8, 120u8] + Seq::new((z + 1) as nat, |j: int| 48u8) =~= (seq![
                    48u8,
                    120u8,
                ] + Seq::new(z as nat, |j: int| 48u8)).push(48u8));
            }
            z = z + 1;
        }
        let mut k: usize = 2;
        while k < n
            invariant
                2 <= k <= n,
                n == addr@.len(),
                3 <= n <= 34,
                forall|j: int| 2 <= j < n ==> is_hex_any(#[trigger] addr@[j]),
                norm@ == seq![48u8, 120u8] + Seq::new((34 - n) as nat, |j: int| 48u8) + Seq::new(
                    (k - 2) as nat,
                    |j: int| lower_hex(addr@[2 + j]),
                ),
            decreases n - k,
        {
            let b = addr[k];
            let lo: u8 = if 65 <= b && b <= 70 {
                b + 32
            } else {
                b
            };
            norm.push(lo);
            proof {
                assert(seq![48u8, 120u8] + Seq::new((34 - n) as nat, |j: int| 48u8) + Seq::new(
                    (k + 1 - 2) as nat,
                    |j: int| lower_hex(addr@[2 + j]),
                ) =~= (seq![48u8, 120u8] + Seq::new((34 - n) as nat, |j: int| 48u8) + Seq::new(
                    (k - 2) as nat,
                    |j: int| lower_hex(addr@[2 + j]),
                )).push(lower_hex(addr@[k as int])));
            }
            k = k + 1;
        }
        proof {
            assert(norm@ =~= spec_normalize_address(addr@));
        }
        let norm2 = clone_bytes(&norm);
        Ok(
            ProvidedAccountAddress {
                original: clone_bytes(addr),
                normalized_original: norm,
                normalized_extended: norm2,
            },
        )
    }

    /// Dialect-specific address reformatting; this family leaves the text
    /// unchanged and records no layer.
    pub fn replace_addresses(&self, source_text: &Vec<u8>, source_map: &mut FileSourceMap) -> (out:
        Vec<u8>)
        ensures
            out@ == source_text@,
            *final(source_map) == *old(source_map),
    {
        clone_bytes(source_text)
    }
}

} // verus!
