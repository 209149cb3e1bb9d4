//! Message and block digests: a deterministic 64-bit FNV-1a hash over
//! the canonical encoding of the hashed fields.
//!
//! A broadcast instance is keyed by the digest of its payload together
//! with the originator and the application's correlation tag, so every
//! node computes the same key for the same proposal.

use vstd::prelude::*;

use crate::framing::write_frame;
use crate::wire::bytes_enc;

verus! {

/// The FNV-1a offset basis.
pub open spec fn fnv_offset() -> u64 {
    0xcbf29ce484222325
}

/// The FNV-1a prime.
pub open spec fn fnv_prime() -> u64 {
    0x100000001b3
}

/// One FNV-1a step: fold byte `b` into state `h`.
pub open spec fn fnv1a_step(h: u64, b: u8) -> u64 {
    ((((h ^ (b as u64)) as u128) * (fnv_prime() as u128)) % 0x10000000000000000) as u64
}

/// The FNV-1a state after folding all of `s` into `h`.
pub open spec fn fnv1a_from(h: u64, s: Seq<u8>) -> u64
    decreases s.len(),
{
    if s.len() == 0 {
        h
    } else {
        fnv1a_from(fnv1a_step(h, s[0]), s.skip(1))
    }
}

/// The FNV-1a hash of `s`.
pub open spec fn fnv1a(s: Seq<u8>) -> u64 {
    fnv1a_from(fnv_offset(), s)
}

/// The digest that keys a broadcast instance: the hash of the payload,
/// the originator and the correlation tag, each length-prefixed.
pub open spec fn message_digest_of(payload: Seq<u8>, originator: Seq<u8>, custom_id: Seq<u8>) -> u64 {
    fnv1a(bytes_enc(payload) + bytes_enc(originator) + bytes_enc(custom_id))
}

/// Computes the FNV-1a hash of `data`.
pub fn fnv1a_hash(data: &Vec<u8>) -> (h: u64)
    ensures
        h == fnv1a(data@),
{
    let mut h: u64 = 0xcbf29ce484222325;
    let mut i: usize = 0;
    proof {
        assert(data@.skip(0) =~= data@);
    }
    while i < data.len()
        invariant
            i <= data@.len(),
            fnv1a_from(h, data@.skip(i as int)) == fnv1a(data@),
        decreases data@.len() - i,
    {
        let ghost before = h;
        let mixed = h ^ (data[i] as u64);
        let wide: u128 = (mixed as u128) * 0x100000001b3;
        proof {
            assert((mixed as u128) * 0x100000001b3 < 0x100000000000000000000000000000000)
                by (nonlinear_arith)
                requires
                    mixed <= u64::MAX,
            ;
        }
        h = (wide % 0x10000000000000000) as u64;
        proof {
            assert(h == fnv1a_step(before, data@[i as int]));
            assert(data@.skip(i as int).skip(1) =~= data@.skip(i as int + 1));
        }
        i = i + 1;
    }
    proof {
        assert(data@.skip(data@.len() as int) =~= Seq::<u8>::empty());
    }
    h
}

/// Computes the digest that keys the broadcast instance for `payload`
/// originated by `originator` under the correlation tag `custom_id`.
pub fn message_digest(payload: &Vec<u8>, originator: &Vec<u8>, custom_id: &Vec<u8>) -> (d: u64)
    ensures
        d == message_digest_of(payload@, originator@, custom_id@),
{
    let mut buf: Vec<u8> = Vec::new();
    write_frame(&mut buf, payload);
    write_frame(&mut buf, originator);
    write_frame(&mut buf, custom_id);
    proof {
        assert(buf@ =~= bytes_enc(payload@) + bytes_enc(originator@) + bytes_enc(custom_id@));
    }
    fnv1a_hash(&buf)
}

} // verus!
