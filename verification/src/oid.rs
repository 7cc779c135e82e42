//! Relative object identifiers: ordered sequences of unsigned 32-bit arcs
//! naming a node's position under the tree root, with their base-128 wire
//! form (universal tag 13).

use vstd::prelude::*;

use crate::error::EmberError;

verus! {

/// A node's position relative to the tree root; empty means the root
/// itself.
#[derive(Debug, Clone, PartialEq, Eq, Hash)]
pub struct RelativeOid(pub Vec<u32>);

impl View for RelativeOid {
    type V = Seq<u32>;

    closed spec fn view(&self) -> Seq<u32> {
        self.0@
    }
}

impl RelativeOid {
    /// The root: no arcs.
    pub fn root() -> (r: RelativeOid)
        ensures
            r@ == Seq::<u32>::empty(),
    {
        RelativeOid(Vec::new())
    }

    /// The prefix without the last arc; the root is its own parent.
    pub fn parent(&self) -> (r: RelativeOid)
        ensures
            self@.len() == 0 ==> r@ == self@,
            self@.len() > 0 ==> r@ == self@.drop_last(),
    {
        if self.0.len() == 0 {
            self.clone_oid()
        } else {
            let mut arcs: Vec<u32> = Vec::new();
            let mut i: usize = 0;
            while i < self.0.len() - 1
                invariant
                    i <= self@.len() - 1,
                    arcs@ == self@.subrange(0, i as int),
                decreases self@.len() - 1 - i,
            {
                arcs.push(self.0[i]);
                i += 1;
                proof {
                    assert(arcs@ =~= self@.subrange(0, i as int));
                }
            }
            proof {
                assert(arcs@ =~= self@.drop_last());
            }
            RelativeOid(arcs)
        }
    }

    /// A copy with the same arcs.
    pub fn clone_oid(&self) -> (r: RelativeOid)
        ensures
            r@ == self@,
    {
        RelativeOid(self.0.clone())
    }

    /// Whether this is the root.
    pub fn is_root(&self) -> (r: bool)
        ensures
            r == (self@.len() == 0),
    {
        self.0.len() == 0
    }

    /// Whether two identifiers name the same position.
    pub fn same_as(&self, other: &RelativeOid) -> (r: bool)
        ensures
            r == (self@ == other@),
    {
        if self.0.len() != other.0.len() {
            proof {
                assert(self@ != other@);
            }
            return false;
        }
        let mut i: usize = 0;
        while i < self.0.len()
            invariant
                i <= self@.len(),
                self@.len() == other@.len(),
                forall|j: int| 0 <= j < i ==> self@[j] == other@[j],
            decreases self@.len() - i,
        {
            if self.0[i] != other.0[i] {
                proof {
                    assert(self@ != other@);
                }
                return false;
            }
            i += 1;
        }
        proof {
            assert(self@ =~= other@);
        }
        true
    }
}

/// Appends one arc to a parent identifier.
pub fn join(parent: &RelativeOid, number: u32) -> (r: RelativeOid)
    ensures
        r@ == parent@.push(number),
{
    let mut path = parent.0.clone();
    path.push(number);
    RelativeOid(path)
}

/// The parent of a join is the original identifier, and the root is its own
/// parent.
pub proof fn lemma_parent_join(p: Seq<u32>, n: u32)
    ensures
        p.push(n).drop_last() == p,
{
    assert(p.push(n).drop_last() =~= p);
}

// ---------------------------------------------------------------------------
// Base-128 wire form
// ---------------------------------------------------------------------------
/// The 7-bit groups of an arc value that precede its last group, each with
/// the continuation bit set.
pub open spec fn cont_bytes(v: nat) -> Seq<u8>
    decreases v,
{
    if v < 128 {
        seq![(v + 128) as u8]
    } else {
        cont_bytes(v / 128) + seq![(v % 128 + 128) as u8]
    }
}

/// The wire bytes of one arc: big-endian 7-bit groups, continuation bit set
/// on all but the last.
pub open spec fn arc_bytes(v: nat) -> Seq<u8> {
    if v < 128 {
        seq![v as u8]
    } else {
        cont_bytes(v / 128) + seq![(v % 128) as u8]
    }
}

/// The wire bytes of a whole identifier: each arc in turn.
pub open spec fn oid_bytes(arcs: Seq<u32>) -> Seq<u8>
    decreases arcs.len(),
{
    if arcs.len() == 0 {
        Seq::empty()
    } else {
        oid_bytes(arcs.drop_last()) + arc_bytes(arcs.last() as nat)
    }
}

/// What a left-to-right scan of base-128 bytes accumulates: the finished
/// arcs and the partial value of a still-open arc. Accumulation truncates
/// to 32 bits, as the reader does.
pub open spec fn parse_state(bytes: Seq<u8>) -> (Seq<u32>, nat)
    decreases bytes.len(),
{
    if bytes.len() == 0 {
        (Seq::empty(), 0nat)
    } else {
        let prev = parse_state(bytes.drop_last());
        let b = bytes.last();
        if b < 128 {
            (prev.0.push(((prev.1 * 128 + b) % 0x100000000) as u32), 0nat)
        } else {
            (prev.0, ((prev.1 * 128 + (b - 128)) % 0x100000000) as nat)
        }
    }
}

/// Scanning the continuation groups of `v` after a closed arc leaves `v` as
/// the open value.
pub proof fn lemma_parse_cont(w: Seq<u8>, v: nat)
    requires
        parse_state(w).1 == 0,
        v < 0x100000000,
    ensures
        parse_state(w + cont_bytes(v)).0 == parse_state(w).0,
        parse_state(w + cont_bytes(v)).1 == v,
    decreases v,
{
    if v < 128 {
        assert((w + cont_bytes(v)).drop_last() =~= w);
        assert((w + cont_bytes(v)).last() == (v + 128) as u8);
    } else {
        lemma_parse_cont(w, v / 128);
        assert(w + cont_bytes(v) =~= (w + cont_bytes(v / 128)).push((v % 128 + 128) as u8));
        assert((w + cont_bytes(v / 128)).push((v % 128 + 128) as u8).drop_last() =~= w
            + cont_bytes(v / 128));
        vstd::arithmetic::div_mod::lemma_fundamental_div_mod(v as int, 128);
    }
}

/// Scanning one whole arc closes it with exactly its value.
pub proof fn lemma_parse_arc(w: Seq<u8>, v: nat)
    requires
        parse_state(w).1 == 0,
        v < 0x100000000,
    ensures
        parse_state(w + arc_bytes(v)).0 == parse_state(w).0.push(v as u32),
        parse_state(w + arc_bytes(v)).1 == 0,
{
    if v < 128 {
        assert((w + arc_bytes(v)).drop_last() =~= w);
        assert((w + arc_bytes(v)).last() == v as u8);
    } else {
        lemma_parse_cont(w, v / 128);
        assert(w + arc_bytes(v) =~= (w + cont_bytes(v / 128)).push((v % 128) as u8));
        assert((w + cont_bytes(v / 128)).push((v % 128) as u8).drop_last() =~= w + cont_bytes(
            v / 128,
        ));
        vstd::arithmetic::div_mod::lemma_fundamental_div_mod(v as int, 128);
    }
}

/// Reading back the wire form of an identifier yields its arcs, with no arc
/// left open: base-128 round trip.
pub proof fn lemma_oid_round_trip(arcs: Seq<u32>)
    ensures
        parse_state(oid_bytes(arcs)).0 == arcs,
        parse_state(oid_bytes(arcs)).1 == 0,
    decreases arcs.len(),
{
    if arcs.len() == 0 {
        assert(parse_state(oid_bytes(arcs)).0 =~= arcs);
    } else {
        lemma_oid_round_trip(arcs.drop_last());
        lemma_parse_arc(oid_bytes(arcs.drop_last()), arcs.last() as nat);
        assert(parse_state(oid_bytes(arcs)).0 =~= arcs);
    }
}

/// Appends the continuation groups of `v / 128` and then the closing group.
fn push_arc(out: &mut Vec<u8>, v: u32)
    ensures
        final(out)@ == old(out)@ + arc_bytes(v as nat),
{
    if v >= 128 {
        push_cont(out, v / 128);
    }
    out.push((v % 128) as u8);
    proof {
        if v < 128 {
            assert(final(out)@ =~= old(out)@ + arc_bytes(v as nat));
        } else {
            assert(final(out)@ =~= old(out)@ + arc_bytes(v as nat));
        }
    }
}

/// Appends the groups of `v`, each with the continuation bit set.
fn push_cont(out: &mut Vec<u8>, v: u32)
    ensures
        final(out)@ == old(out)@ + cont_bytes(v as nat),
    decreases v,
{
    if v >= 128 {
        push_cont(out, v / 128);
    }
    out.push((v % 128 + 128) as u8);
    proof {
        if v < 128 {
            assert(final(out)@ =~= old(out)@ + cont_bytes(v as nat));
        } else {
            assert(final(out)@ =~= old(out)@ + cont_bytes(v as nat));
        }
    }
}

impl RelativeOid {
    /// The base-128 content octets of this identifier.
    pub fn to_base128(&self) -> (r: Vec<u8>)
        ensures
            r@ == oid_bytes(self@),
    {
        let mut out: Vec<u8> = Vec::new();
        let mut i: usize = 0;
        while i < self.0.len()
            invariant
                i <= self@.len(),
                out@ == oid_bytes(self@.subrange(0, i as int)),
            decreases self@.len() - i,
        {
            push_arc(&mut out, self.0[i]);
            i += 1;
            proof {
                assert(self@.subrange(0, i as int).drop_last() =~= self@.subrange(0, i - 1));
                assert(out@ =~= oid_bytes(self@.subrange(0, i as int)));
            }
        }
        proof {
            assert(self@.subrange(0, self@.len() as int) =~= self@);
        }
        out
    }

    /// Reads an identifier back from base-128 content octets. A trailing
    /// byte with the continuation bit still set is an unterminated arc.
    pub fn from_base128(bytes: &[u8]) -> (r: Result<RelativeOid, EmberError>)
        ensures
            (bytes@.len() == 0 || bytes@.last() < 128) ==> (r matches Ok(o) && o@ == parse_state(
                bytes@,
            ).0),
            (bytes@.len() > 0 && bytes@.last() >= 128) ==> (r matches Err(e)
                && e is Deserialization),
    {
        if bytes.len() > 0 && bytes[bytes.len() - 1] >= 128 {
            return Err(EmberError::Deserialization("unterminated arc".to_string()));
        }
        let mut arcs: Vec<u32> = Vec::new();
        let mut cur: u64 = 0;
        let mut i: usize = 0;
        while i < bytes.len()
            invariant
                i <= bytes@.len(),
                arcs@ == parse_state(bytes@.subrange(0, i as int)).0,
                cur == parse_state(bytes@.subrange(0, i as int)).1,
                cur < 0x100000000,
            decreases bytes@.len() - i,
        {
            let b = bytes[i];
            proof {
                assert(bytes@.subrange(0, i + 1).drop_last() =~= bytes@.subrange(0, i as int));
            }
            if b < 128 {
                let value = ((cur * 128 + (b as u64)) % 0x100000000) as u32;
                arcs.push(value);
                cur = 0;
            } else {
                cur = (cur * 128 + ((b - 128) as u64)) % 0x100000000;
            }
            i += 1;
        }
        proof {
            assert(bytes@.subrange(0, bytes@.len() as int) =~= bytes@);
        }
        Ok(RelativeOid(arcs))
    }
}

// ---------------------------------------------------------------------------
// The framed wire form: universal tag 13, length, content
// ---------------------------------------------------------------------------
/// The big-endian bytes of a length, shortest form.
pub open spec fn be_bytes(n: int) -> Seq<u8>
    decreases n,
{
    if n < 256 {
        seq![n as u8]
    } else {
        be_bytes(n / 256) + seq![(n % 256) as u8]
    }
}

/// The length octets: one octet below 128, else a count octet with the high
/// bit set followed by the big-endian length.
pub open spec fn ber_len_octets(n: int) -> Seq<u8> {
    if n < 128 {
        seq![n as u8]
    } else {
        seq![(128 + be_bytes(n).len()) as u8] + be_bytes(n)
    }
}

/// The framed wire form of an identifier: the tag octet `0x0D`, the length
/// of the content, the base-128 content octets.
pub open spec fn ber_oid_encoding(arcs: Seq<u32>) -> Seq<u8> {
    seq![0x0Du8] + ber_len_octets(oid_bytes(arcs).len() as int) + oid_bytes(arcs)
}

/// The value of big-endian length bytes.
pub open spec fn be_value_of(s: Seq<u8>) -> int
    decreases s.len(),
{
    if s.len() == 0 {
        0
    } else {
        be_value_of(s.drop_last()) * 256 + s.last()
    }
}

/// Reading big-endian bytes back gives the length.
pub proof fn lemma_be_bytes_value(n: int)
    requires
        0 <= n,
    ensures
        be_value_of(be_bytes(n)) == n,
        be_bytes(n).len() >= 1,
    decreases n,
{
    reveal_with_fuel(be_value_of, 2);
    if n < 256 {
        assert(be_bytes(n).drop_last() =~= Seq::<u8>::empty());
    } else {
        lemma_be_bytes_value(n / 256);
        assert(be_bytes(n).drop_last() =~= be_bytes(n / 256));
        vstd::arithmetic::div_mod::lemma_fundamental_div_mod(n, 256);
    }
}

/// A length under 2^64 takes at most eight octets.
pub proof fn lemma_be_bytes_len8(n: int)
    requires
        0 <= n < 0x10000000000000000,
    ensures
        be_bytes(n).len() <= 8,
{
    reveal_with_fuel(be_bytes, 9);
    if n >= 256 {
        let n1 = n / 256;
        assert(n1 < 0x100000000000000) by (nonlinear_arith)
            requires
                256 <= n < 0x10000000000000000,
                n1 == n / 256,
        ;
        if n1 >= 256 {
            let n2 = n1 / 256;
            assert(n2 < 0x1000000000000) by (nonlinear_arith)
                requires
                    256 <= n1 < 0x100000000000000,
                    n2 == n1 / 256,
            ;
            if n2 >= 256 {
                let n3 = n2 / 256;
                assert(n3 < 0x10000000000) by (nonlinear_arith)
                    requires
                        256 <= n2 < 0x1000000000000,
                        n3 == n2 / 256,
                ;
                if n3 >= 256 {
                    let n4 = n3 / 256;
                    assert(n4 < 0x100000000) by (nonlinear_arith)
                        requires
                            256 <= n3 < 0x10000000000,
                            n4 == n3 / 256,
                    ;
                    if n4 >= 256 {
                        let n5 = n4 / 256;
                        assert(n5 < 0x1000000) by (nonlinear_arith)
                            requires
                                256 <= n4 < 0x100000000,
                                n5 == n4 / 256,
                        ;
                        if n5 >= 256 {
                            let n6 = n5 / 256;
                            assert(n6 < 0x10000) by (nonlinear_arith)
                                requires
                                    256 <= n5 < 0x1000000,
                                    n6 == n5 / 256,
                            ;
                            if n6 >= 256 {
                                let n7 = n6 / 256;
                                assert(n7 < 0x100) by (nonlinear_arith)
                                    requires
                                        256 <= n6 < 0x10000,
                                        n7 == n6 / 256,
                                ;
                            }
                        }
                    }
                }
            }
        }
    }
}

/// What the reader of a framed identifier accepts: the content octets where
/// the tag, the length octets and the total length agree, nothing
/// otherwise.
pub open spec fn ber_oid_content(data: Seq<u8>) -> Option<Seq<u8>> {
    if data.len() < 2 || data[0] != 0x0D {
        None
    } else if data[1] < 128 {
        if data.len() == 2 + data[1] {
            Some(data.subrange(2, data.len() as int))
        } else {
            None
        }
    } else {
        let k = data[1] - 128;
        if 1 <= k <= 8 && data.len() >= 2 + k && be_value_of(data.subrange(2, 2 + k as int))
            == data.len() - 2 - k {
            Some(data.subrange(2 + k as int, data.len() as int))
        } else {
            None
        }
    }
}

/// Reading back the framed wire form of an identifier yields exactly its
/// content octets, and those parse back to its arcs.
pub proof fn lemma_ber_oid_round_trip(arcs: Seq<u32>)
    requires
        oid_bytes(arcs).len() < 0x10000000000000000,
    ensures
        ber_oid_content(ber_oid_encoding(arcs)) == Some(oid_bytes(arcs)),
        parse_state(oid_bytes(arcs)).0 == arcs,
        parse_state(oid_bytes(arcs)).1 == 0,
{
    let content = oid_bytes(arcs);
    let data = ber_oid_encoding(arcs);
    lemma_oid_round_trip(arcs);
    if content.len() < 128 {
        assert(data.subrange(2, data.len() as int) =~= content);
    } else {
        lemma_be_bytes_value(content.len() as int);
        lemma_be_bytes_len8(content.len() as int);
        let k = be_bytes(content.len() as int).len() as int;
        assert(data.subrange(2, 2 + k) =~= be_bytes(content.len() as int));
        assert(data.subrange(2 + k, data.len() as int) =~= content);
    }
}

impl RelativeOid {
    /// The framed wire form: tag octet, length octets, base-128 content.
    pub fn to_ber(&self) -> (r: Vec<u8>)
        ensures
            r@ == ber_oid_encoding(self@),
    {
        let content = self.to_base128();
        let mut out: Vec<u8> = Vec::new();
        out.push(0x0D);
        if content.len() < 128 {
            out.push(content.len() as u8);
        } else {
            let mut be: Vec<u8> = Vec::new();
            push_be(&mut be, content.len());
            proof {
                lemma_be_bytes_value(content@.len() as int);
                lemma_be_bytes_len8(content@.len() as int);
            }
            out.push(128 + (be.len() as u8));
            let mut be2 = be;
            out.append(&mut be2);
        }
        let mut content2 = content;
        out.append(&mut content2);
        proof {
            assert(out@ =~= ber_oid_encoding(self@));
        }
        out
    }

    /// Reads an identifier back from its framed wire form. The buffer must
    /// hold exactly one framed identifier; a wrong tag, disagreeing
    /// lengths, or an unterminated arc are all rejected.
    pub fn from_ber(data: &[u8]) -> (r: Result<RelativeOid, EmberError>)
        ensures
            r is Ok <==> (ber_oid_content(data@) matches Some(c) && (c.len() == 0 || c.last()
                < 128)),
            r matches Ok(o) ==> (ber_oid_content(data@) matches Some(c) && o@ == parse_state(
                c,
            ).0),
    {
        if data.len() < 2 || data[0] != 0x0D {
            return Err(EmberError::Deserialization("not a relative object identifier".to_string()));
        }
        let l0 = data[1];
        let start: usize;
        let clen: u64;
        if l0 < 128 {
            start = 2;
            clen = l0 as u64;
            if data.len() != 2 + (l0 as usize) {
                return Err(EmberError::Deserialization("length mismatch".to_string()));
            }
        } else {
            let k = (l0 - 128) as usize;
            if k < 1 || k > 8 || data.len() < 2 + k {
                return Err(EmberError::Deserialization("invalid length octets".to_string()));
            }
            let mut value: u64 = 0;
            let mut i: usize = 0;
            proof {
                vstd::arithmetic::power2::lemma2_to64();
                assert(data@.subrange(2, 2) =~= Seq::<u8>::empty());
            }
            while i < k
                invariant
                    i <= k <= 8,
                    2 + k <= data@.len(),
                    value == be_value_of(data@.subrange(2, 2 + i as int)),
                    value < vstd::arithmetic::power2::pow2((8 * i) as nat),
                decreases k - i,
            {
                proof {
                    vstd::arithmetic::power2::lemma2_to64();
                    vstd::arithmetic::power2::lemma_pow2_adds((8 * i) as nat, 8);
                    if i < 7 {
                        vstd::arithmetic::power2::lemma_pow2_strictly_increases((8 * i) as nat, 56);
                    }
                    vstd::arithmetic::power2::lemma_pow2_adds(56, 8);
                    assert(data@.subrange(2, 2 + (i + 1) as int).drop_last() =~= data@.subrange(
                        2,
                        2 + i as int,
                    ));
                }
                value = value * 256 + (data[2 + i] as u64);
                i += 1;
            }
            start = 2 + k;
            clen = value;
            let avail = data.len() - start;
            if clen != avail as u64 {
                return Err(EmberError::Deserialization("length mismatch".to_string()));
            }
        }
        let content = vstd::slice::slice_subrange(data, start, data.len());
        proof {
            assert(ber_oid_content(data@) == Some(content@));
        }
        RelativeOid::from_base128(content)
    }
}

/// Appends the big-endian bytes of `n`, shortest form.
fn push_be(out: &mut Vec<u8>, n: usize)
    ensures
        final(out)@ == old(out)@ + be_bytes(n as int),
    decreases n,
{
    if n >= 256 {
        push_be(out, n / 256);
    }
    out.push((n % 256) as u8);
    proof {
        if n < 256 {
            assert(final(out)@ =~= old(out)@ + be_bytes(n as int));
        } else {
            assert(final(out)@ =~= old(out)@ + be_bytes(n as int));
        }
    }
}

} // verus!
