//! Certificates: the set of `(peer, signature)` pairs attesting to a
//! message digest or a block hash. A peer contributes at most one
//! signature; later duplicates are silently dropped.

use vstd::prelude::*;

use crate::framing::{
    lemma_varint_parse_len, lemma_varint_round_trip, read_varint, varint_enc, varint_parse,
    write_varint,
};
use crate::peer::PeerId;
use crate::topology::clone_bytes;
use crate::wire::{
    bytes_enc, bytes_parse, lemma_bytes_round_trip, read_bytes_field, write_bytes_field,
};

verus! {

/// A collection of peer signatures, at most one per peer.
#[derive(Debug)]
pub struct Certificate {
    pub entries: Vec<(PeerId, Vec<u8>)>,
}

/// Whether `es` holds an entry for peer `p`.
pub open spec fn has_entry_for(es: Seq<(Seq<u8>, Seq<u8>)>, p: Seq<u8>) -> bool {
    exists|i: int| 0 <= i < es.len() && es[i].0 == p
}

impl View for Certificate {
    type V = Seq<(Seq<u8>, Seq<u8>)>;

    open spec fn view(&self) -> Seq<(Seq<u8>, Seq<u8>)> {
        self.entries@.map_values(|e: (PeerId, Vec<u8>)| (e.0@, e.1@))
    }
}

impl Certificate {
    /// No peer signs twice.
    pub open spec fn wf(&self) -> bool {
        forall|i: int, j: int| 0 <= i < j < self@.len() ==> self@[i].0 != self@[j].0
    }

    /// The empty certificate.
    pub fn empty() -> (r: Certificate)
        ensures
            r@ =~= Seq::<(Seq<u8>, Seq<u8>)>::empty(),
            r.wf(),
    {
        Certificate { entries: Vec::new() }
    }

    /// How many signatures the certificate holds.
    pub fn len(&self) -> (n: usize)
        ensures
            n == self@.len(),
    {
        self.entries.len()
    }

    /// Whether no peer signs twice: what a certificate built here
    /// always satisfies, and what a certificate that arrived over the
    /// wire must be checked for.
    pub fn is_wf(&self) -> (r: bool)
        ensures
            r == self.wf(),
    {
        let mut i: usize = 0;
        while i < self.entries.len()
            invariant
                i <= self.entries.len(),
                forall|a: int, b: int| 0 <= a < b < i ==> self@[a].0 != self@[b].0,
            decreases self.entries.len() - i,
        {
            let mut j: usize = 0;
            while j < i
                invariant
                    j <= i < self.entries.len(),
                    forall|a: int, b: int| 0 <= a < b < i ==> self@[a].0 != self@[b].0,
                    forall|a: int| 0 <= a < j ==> self@[a].0 != self@[i as int].0,
                decreases i - j,
            {
                if &self.entries[j].0 == &self.entries[i].0 {
                    proof {
                        assert(self@[j as int].0 == self@[i as int].0);
                        assert(!self.wf());
                    }
                    return false;
                }
                proof {
                    assert(self@[j as int].0 != self@[i as int].0);
                }
                j = j + 1;
            }
            i = i + 1;
        }
        true
    }

    /// Whether `p` has already signed.
    pub fn contains_peer(&self, p: &PeerId) -> (r: bool)
        ensures
            r == has_entry_for(self@, p@),
    {
        let mut i: usize = 0;
        while i < self.entries.len()
            invariant
                i <= self.entries.len(),
                forall|j: int| 0 <= j < i ==> self@[j].0 != p@,
            decreases self.entries.len() - i,
        {
            if &self.entries[i].0 == p {
                proof {
                    assert(self@[i as int].0 == p@);
                }
                return true;
            }
            i = i + 1;
        }
        false
    }

    /// Adds `peer`'s signature unless `peer` has already signed: a
    /// duplicate leaves the certificate unchanged, so no peer ever
    /// counts twice.
    pub fn add_signature(&mut self, peer: &PeerId, signature: Vec<u8>) -> (added: bool)
        requires
            old(self).wf(),
        ensures
            final(self).wf(),
            added == !has_entry_for(old(self)@, peer@),
            added ==> final(self)@ =~= old(self)@.push((peer@, signature@)),
            !added ==> final(self)@ == old(self)@,
    {
        if self.contains_peer(peer) {
            return false;
        }
        let ghost prev = self@;
        self.entries.push((PeerId { bytes: clone_bytes(&peer.bytes) }, signature));
        proof {
            assert(self@ =~= prev.push((peer@, signature@)));
            assert forall|i: int, j: int| 0 <= i < j < self@.len() implies self@[i].0
                != self@[j].0 by {
                if j == self@.len() - 1 {
                    if self@[i].0 == peer@ {
                        assert(has_entry_for(prev, peer@));
                    }
                }
            }
        }
        true
    }

    /// A structurally equal copy of the certificate.
    pub fn duplicate(&self) -> (r: Certificate)
        ensures
            r@ == self@,
    {
        let mut entries: Vec<(PeerId, Vec<u8>)> = Vec::new();
        let mut i: usize = 0;
        while i < self.entries.len()
            invariant
                i <= self.entries.len(),
                entries@.map_values(|e: (PeerId, Vec<u8>)| (e.0@, e.1@)) =~= self@.take(i as int),
            decreases self.entries.len() - i,
        {
            let ghost prev = entries@.map_values(|e: (PeerId, Vec<u8>)| (e.0@, e.1@));
            entries.push(
                (
                    PeerId { bytes: clone_bytes(&self.entries[i].0.bytes) },
                    clone_bytes(&self.entries[i].1),
                ),
            );
            proof {
                assert(entries@.map_values(|e: (PeerId, Vec<u8>)| (e.0@, e.1@)) =~= prev.push(
                    (self.entries@[i as int].0@, self.entries@[i as int].1@),
                ));
                assert(self@.take(i as int + 1) =~= self@.take(i as int).push(self@[i as int]));
                assert(self@[i as int] == (self.entries@[i as int].0@, self.entries@[i as int].1@));
            }
            i = i + 1;
        }
        let r = Certificate { entries };
        proof {
            assert(r@ =~= self@);
        }
        r
    }
}

/// The canonical encoding of one certificate entry.
pub open spec fn entry_enc(e: (Seq<u8>, Seq<u8>)) -> Seq<u8> {
    bytes_enc(e.0) + bytes_enc(e.1)
}

/// What one certificate entry at the head of `s` denotes.
pub open spec fn entry_parse(s: Seq<u8>) -> Option<((Seq<u8>, Seq<u8>), int)> {
    match bytes_parse(s) {
        None => None,
        Some((p, n)) => match bytes_parse(s.skip(n)) {
            None => None,
            Some((sig, m)) => Some(((p, sig), n + m)),
        },
    }
}

/// The canonical encoding of a sequence of entries, one after another.
pub open spec fn entries_enc(es: Seq<(Seq<u8>, Seq<u8>)>) -> Seq<u8>
    decreases es.len(),
{
    if es.len() == 0 {
        Seq::<u8>::empty()
    } else {
        entry_enc(es[0]) + entries_enc(es.skip(1))
    }
}

/// What `k` entries at the head of `s` denote.
pub open spec fn entries_parse(s: Seq<u8>, k: int) -> Option<(Seq<(Seq<u8>, Seq<u8>)>, int)>
    decreases k,
{
    if k <= 0 {
        Some((Seq::<(Seq<u8>, Seq<u8>)>::empty(), 0))
    } else {
        match entry_parse(s) {
            None => None,
            Some((e, n)) => match entries_parse(s.skip(n), k - 1) {
                None => None,
                Some((es, m)) => Some((seq![e] + es, n + m)),
            },
        }
    }
}

/// The canonical encoding of a whole certificate: the number of entries,
/// then the entries.
pub open spec fn cert_enc(es: Seq<(Seq<u8>, Seq<u8>)>) -> Seq<u8> {
    varint_enc(es.len() as u64) + entries_enc(es)
}

/// What a certificate at the head of `s` denotes.
pub open spec fn cert_parse(s: Seq<u8>) -> Option<(Seq<(Seq<u8>, Seq<u8>)>, int)> {
    match varint_parse(s) {
        None => None,
        Some((k, n)) => match entries_parse(s.skip(n), k) {
            None => None,
            Some((es, m)) => Some((es, n + m)),
        },
    }
}

/// Whether every byte string of the entries fits a varint length prefix.
pub open spec fn entries_wf(es: Seq<(Seq<u8>, Seq<u8>)>) -> bool {
    forall|i: int|
        0 <= i < es.len() ==> #[trigger] es[i].0.len() <= u64::MAX && es[i].1.len() <= u64::MAX
}

/// One entry's encoding parses back to that entry.
pub proof fn lemma_entry_round_trip(e: (Seq<u8>, Seq<u8>), rest: Seq<u8>)
    requires
        e.0.len() <= u64::MAX,
        e.1.len() <= u64::MAX,
    ensures
        entry_parse(entry_enc(e) + rest) == Some((e, entry_enc(e).len() as int)),
{
    let s = entry_enc(e) + rest;
    assert(s =~= bytes_enc(e.0) + (bytes_enc(e.1) + rest));
    lemma_bytes_round_trip(e.0, bytes_enc(e.1) + rest);
    assert(s.skip(bytes_enc(e.0).len() as int) =~= bytes_enc(e.1) + rest);
    lemma_bytes_round_trip(e.1, rest);
    assert(entry_parse(s)->Some_0.0 == e);
}

/// A sequence of entry encodings parses back to those entries.
pub proof fn lemma_entries_round_trip(es: Seq<(Seq<u8>, Seq<u8>)>, rest: Seq<u8>)
    requires
        entries_wf(es),
    ensures
        entries_parse(entries_enc(es) + rest, es.len() as int) == Some(
            (es, entries_enc(es).len() as int),
        ),
    decreases es.len(),
{
    if es.len() == 0 {
        assert(es =~= Seq::<(Seq<u8>, Seq<u8>)>::empty());
    } else {
        let s = entries_enc(es) + rest;
        assert(s =~= entry_enc(es[0]) + (entries_enc(es.skip(1)) + rest));
        lemma_entry_round_trip(es[0], entries_enc(es.skip(1)) + rest);
        assert(s.skip(entry_enc(es[0]).len() as int) =~= entries_enc(es.skip(1)) + rest);
        assert(entries_wf(es.skip(1)));
        lemma_entries_round_trip(es.skip(1), rest);
        assert(seq![es[0]] + es.skip(1) =~= es);
    }
}

/// A certificate's encoding parses back to the certificate: decoding an
/// encoded certificate returns the same entries in the same order.
pub proof fn lemma_cert_round_trip(es: Seq<(Seq<u8>, Seq<u8>)>, rest: Seq<u8>)
    requires
        entries_wf(es),
        es.len() <= u64::MAX,
    ensures
        cert_parse(cert_enc(es) + rest) == Some((es, cert_enc(es).len() as int)),
{
    let s = cert_enc(es) + rest;
    assert(s =~= varint_enc(es.len() as u64) + (entries_enc(es) + rest));
    lemma_varint_round_trip(es.len() as u64, entries_enc(es) + rest);
    assert(s.skip(varint_enc(es.len() as u64).len() as int) =~= entries_enc(es) + rest);
    lemma_entries_round_trip(es, rest);
}

/// Encodes a certificate canonically.
pub fn encode_certificate(c: &Certificate) -> (out: Vec<u8>)
    ensures
        out@ == cert_enc(c@),
{
    let mut out: Vec<u8> = Vec::new();
    write_varint(&mut out, c.entries.len() as u64);
    let mut i: usize = 0;
    while i < c.entries.len()
        invariant
            i <= c.entries.len(),
            out@ == varint_enc(c.entries@.len() as u64) + entries_enc(c@.take(i as int)),
        decreases c.entries.len() - i,
    {
        let ghost before = out@;
        write_bytes_field(&mut out, &c.entries[i].0.bytes);
        write_bytes_field(&mut out, &c.entries[i].1);
        proof {
            lemma_entries_enc_push(c@.take(i as int), c@[i as int]);
            assert(c@.take(i as int).push(c@[i as int]) =~= c@.take(i as int + 1));
            assert(out@ =~= before + entry_enc(c@[i as int]));
        }
        i = i + 1;
    }
    proof {
        assert(c@.take(c@.len() as int) =~= c@);
    }
    out
}

/// Appending one entry extends the encoding by that entry's encoding.
pub proof fn lemma_entries_enc_push(es: Seq<(Seq<u8>, Seq<u8>)>, e: (Seq<u8>, Seq<u8>))
    ensures
        entries_enc(es.push(e)) == entries_enc(es) + entry_enc(e),
    decreases es.len(),
{
    if es.len() == 0 {
        assert(es.push(e)[0] == e);
        assert(es.push(e).skip(1) =~= Seq::<(Seq<u8>, Seq<u8>)>::empty());
        assert(entries_enc(es.push(e).skip(1)) == Seq::<u8>::empty());
        assert(entry_enc(e) + Seq::<u8>::empty() =~= entry_enc(e));
        assert(entries_enc(es) + entry_enc(e) =~= entry_enc(e));
    } else {
        assert(es.push(e)[0] == es[0]);
        assert(es.push(e).skip(1) =~= es.skip(1).push(e));
        lemma_entries_enc_push(es.skip(1), e);
        assert(entry_enc(es[0]) + (entries_enc(es.skip(1)) + entry_enc(e)) =~= (entry_enc(es[0])
            + entries_enc(es.skip(1))) + entry_enc(e));
        assert(entries_enc(es.push(e)) == entry_enc(es[0]) + (entries_enc(es.skip(1))
            + entry_enc(e)));
    }
}

/// Decodes the certificate starting at `pos`: exactly the certificate
/// whose canonical encoding stands there, or `None` where none does.
pub fn decode_certificate(buf: &Vec<u8>, pos: usize) -> (r: Option<(Certificate, usize)>)
    requires
        pos <= buf@.len(),
    ensures
        match cert_parse(buf@.skip(pos as int)) {
            None => r is None,
            Some((es, n)) => {
                &&& r is Some
                &&& r->Some_0.0@ == es
                &&& r->Some_0.1 == pos + n
                &&& 0 < n
                &&& pos + n <= buf@.len()
            },
        },
{
    let buf_len = buf.len();
    let ghost tail = buf@.skip(pos as int);
    proof {
        lemma_varint_parse_len(tail);
    }
    let (count, mut p) = match read_varint(buf, pos) {
        None => {
            proof {
                if varint_parse(tail) is Some {
                    let (v, n) = varint_parse(tail)->Some_0;
                    if v > u64::MAX {
                        lemma_entries_parse_len(tail.skip(n), v);
                        if entries_parse(tail.skip(n), v) is Some {
                            let (es, m) = entries_parse(tail.skip(n), v)->Some_0;
                            assert(m >= es.len() == v > u64::MAX >= buf_len >= tail.skip(n).len()
                                >= m);
                        }
                    }
                }
            }
            return None;
        },
        Some(x) => x,
    };
    let mut entries: Vec<(PeerId, Vec<u8>)> = Vec::new();
    let mut j: u64 = 0;
    let ghost n0 = p - pos;
    proof {
        assert(buf@.skip(p as int) =~= tail.skip(n0));
        assert(entries@.map_values(|e: (PeerId, Vec<u8>)| (e.0@, e.1@)) =~= Seq::<
            (Seq<u8>, Seq<u8>),
        >::empty());
        let inner = entries_parse(buf@.skip(p as int), count as int);
        if inner is Some {
            assert(Seq::<(Seq<u8>, Seq<u8>)>::empty() + inner->Some_0.0 =~= inner->Some_0.0);
        }
    }
    while j < count
        invariant
            pos + n0 <= p <= buf@.len(),
            buf@.len() <= usize::MAX,
            j <= count,
            varint_parse(tail) == Some((count as int, n0)),
            tail == buf@.skip(pos as int),
            n0 == varint_parse(tail)->Some_0.1,
            ({
                let acc = entries@.map_values(|e: (PeerId, Vec<u8>)| (e.0@, e.1@));
                match entries_parse(buf@.skip(p as int), count as int - j as int) {
                    None => entries_parse(tail.skip(n0), count as int) is None,
                    Some((es2, m2)) => entries_parse(tail.skip(n0), count as int) == Some(
                        (acc + es2, (p - pos - n0) + m2),
                    ),
                }
            }),
        decreases count - j,
    {
        let ghost acc = entries@.map_values(|e: (PeerId, Vec<u8>)| (e.0@, e.1@));
        let peer_bytes = match read_bytes_field(buf, p) {
            None => {
                return None;
            },
            Some(x) => x,
        };
        proof {
            assert(buf@.skip(peer_bytes.1 as int) =~= buf@.skip(p as int).skip(
                peer_bytes.1 - p,
            ));
        }
        let sig = match read_bytes_field(buf, peer_bytes.1) {
            None => {
                return None;
            },
            Some(x) => x,
        };
        proof {
            assert(buf@.skip(sig.1 as int) =~= buf@.skip(p as int).skip(sig.1 - p));
        }
        entries.push((PeerId { bytes: peer_bytes.0 }, sig.0));
        proof {
            let acc2 = entries@.map_values(|e: (PeerId, Vec<u8>)| (e.0@, e.1@));
            let e = (peer_bytes.0@, sig.0@);
            assert(acc2 =~= acc.push(e));
            let inner = entries_parse(buf@.skip(sig.1 as int), count as int - j as int - 1);
            if inner is Some {
                let (es3, m3) = inner->Some_0;
                assert(acc.push(e) + es3 =~= acc + (seq![e] + es3));
            }
        }
        p = sig.1;
        j = j + 1;
    }
    proof {
        let acc = entries@.map_values(|e: (PeerId, Vec<u8>)| (e.0@, e.1@));
        assert(entries_parse(buf@.skip(p as int), 0) == Some(
            (Seq::<(Seq<u8>, Seq<u8>)>::empty(), 0int),
        ));
        assert(acc + Seq::<(Seq<u8>, Seq<u8>)>::empty() =~= acc);
    }
    Some((Certificate { entries }, p))
}

/// Parsing `k` entries takes at least `k` bytes, so a count over the
/// buffer's length can never parse.
pub proof fn lemma_entries_parse_len(s: Seq<u8>, k: int)
    ensures
        entries_parse(s, k) is Some ==> {
            let (es, m) = entries_parse(s, k)->Some_0;
            &&& es.len() == if k >= 0 { k } else { 0 }
            &&& 0 <= m <= s.len()
            &&& m >= es.len()
        },
    decreases k,
{
    if k > 0 {
        if entry_parse(s) is Some {
            let (e, n) = entry_parse(s)->Some_0;
            lemma_varint_parse_len(s);
            if bytes_parse(s) is Some {
                let sk = s.skip(bytes_parse(s)->Some_0.1);
                lemma_varint_parse_len(sk);
            }
            lemma_entries_parse_len(s.skip(n), k - 1);
        }
    }
}

} // verus!
