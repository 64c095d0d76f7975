//! The BGP OPEN message that a peer up notification carries, with its capabilities.
use vstd::prelude::*;

use crate::error::BmpMessageParsingError;
use crate::wire::{
    be_bytes, be_value, lemma_be_bytes_len, lemma_be_round_trip, lemma_be_value_bound,
    lemma_pow256_facts, push_be, read_be,
};

verus! {

/// A BGP capability: its code and value octets.
#[derive(Clone, Debug, PartialEq, Eq)]
pub struct BgpCapability {
    pub code: u8,
    pub value: Vec<u8>,
}

/// A capability seen as its code and value.
pub type CapView = (u8, Seq<u8>);

impl View for BgpCapability {
    type V = CapView;

    open spec fn view(&self) -> CapView {
        (self.code, self.value@)
    }
}

/// The views of a sequence of capabilities.
pub open spec fn caps_view(l: Seq<BgpCapability>) -> Seq<CapView> {
    l.map_values(|c: BgpCapability| c@)
}

/// A capability whose optional parameter length fits one octet.
pub open spec fn cap_wf(c: CapView) -> bool {
    c.1.len() <= 253
}

/// The octets of a capability, sent as an optional parameter of its own.
pub open spec fn encode_cap(c: CapView) -> Seq<u8> {
    seq![2u8, (c.1.len() + 2) as u8, c.0, c.1.len() as u8] + c.1
}

/// The capability parameter at the start of `s` and the octets it takes.
pub open spec fn parse_cap(s: Seq<u8>) -> Result<(CapView, nat), BmpMessageParsingError> {
    if s.len() < 4 {
        Err(BmpMessageParsingError::Truncated)
    } else if s[0] != 2 || s[1] as nat != s[3] as nat + 2 {
        Err(BmpMessageParsingError::InvalidBgpOpen)
    } else if s.len() < 4 + s[3] as nat {
        Err(BmpMessageParsingError::Truncated)
    } else {
        Ok(((s[2], s.subrange(4, 4 + s[3] as int)), 4 + s[3] as nat))
    }
}

/// The octets of a sequence of capabilities.
pub open spec fn encode_caps(l: Seq<CapView>) -> Seq<u8>
    decreases l.len(),
{
    if l.len() == 0 {
        Seq::empty()
    } else {
        encode_caps(l.drop_last()) + encode_cap(l.last())
    }
}

/// Octets taken by a sequence of capabilities.
pub open spec fn caps_len(l: Seq<CapView>) -> nat
    decreases l.len(),
{
    if l.len() == 0 {
        0
    } else {
        caps_len(l.drop_last()) + 4 + l.last().1.len()
    }
}

/// The capabilities that fill `s` exactly.
pub open spec fn parse_caps(s: Seq<u8>) -> Result<Seq<CapView>, BmpMessageParsingError>
    decreases s.len(),
{
    if s.len() == 0 {
        Ok(Seq::empty())
    } else {
        match parse_cap(s) {
            Err(e) => Err(e),
            Ok((c, n)) => if 0 < n && n <= s.len() {
                match parse_caps(s.skip(n as int)) {
                    Err(e) => Err(e),
                    Ok(l) => Ok(seq![c] + l),
                }
            } else {
                Err(BmpMessageParsingError::Truncated)
            },
        }
    }
}

pub proof fn lemma_encode_caps_len(l: Seq<CapView>)
    ensures
        encode_caps(l).len() == caps_len(l),
    decreases l.len(),
{
    if l.len() > 0 {
        lemma_encode_caps_len(l.drop_last());
    }
}

pub proof fn lemma_caps_len_prefix(l: Seq<CapView>, i: int)
    requires
        0 <= i <= l.len(),
    ensures
        caps_len(l.take(i)) <= caps_len(l),
    decreases l.len(),
{
    if i < l.len() {
        assert(l.take(i) =~= l.drop_last().take(i));
        lemma_caps_len_prefix(l.drop_last(), i);
    } else {
        assert(l.take(i) =~= l);
    }
}

pub proof fn lemma_encode_caps_cons(x: CapView, l: Seq<CapView>)
    ensures
        encode_caps(seq![x] + l) == encode_cap(x) + encode_caps(l),
    decreases l.len(),
{
    let xl = seq![x] + l;
    if l.len() == 0 {
        assert(xl.drop_last() =~= Seq::<CapView>::empty());
        assert(l =~= Seq::<CapView>::empty());
        assert(encode_caps(Seq::<CapView>::empty()) =~= Seq::<u8>::empty());
        assert(encode_caps(xl) =~= encode_cap(x) + encode_caps(l));
    } else {
        assert(xl.drop_last() =~= seq![x] + l.drop_last());
        assert(xl.last() == l.last());
        lemma_encode_caps_cons(x, l.drop_last());
        assert(encode_caps(xl) == encode_caps(seq![x] + l.drop_last()) + encode_cap(l.last()));
        assert(encode_caps(l) == encode_caps(l.drop_last()) + encode_cap(l.last()));
        assert(encode_caps(xl) =~= encode_cap(x) + encode_caps(l));
    }
}

pub proof fn lemma_cap_round_trip(c: CapView, rest: Seq<u8>)
    requires
        cap_wf(c),
    ensures
        parse_cap(encode_cap(c) + rest) == Ok::<_, BmpMessageParsingError>(
            (c, 4 + c.1.len()),
        ),
{
    let s = encode_cap(c) + rest;
    assert(s.subrange(4, 4 + c.1.len() as int) =~= c.1);
}

/// Decoding the octets of well-formed capabilities gives them back.
pub proof fn lemma_caps_round_trip(l: Seq<CapView>)
    requires
        forall|k: int| 0 <= k < l.len() ==> cap_wf(#[trigger] l[k]),
    ensures
        parse_caps(encode_caps(l)) == Ok::<_, BmpMessageParsingError>(l),
    decreases l.len(),
{
    if l.len() == 0 {
        assert(encode_caps(l) =~= Seq::<u8>::empty());
        assert(l =~= Seq::<CapView>::empty());
    } else {
        let t = l.skip(1);
        assert(l =~= seq![l[0]] + t);
        lemma_encode_caps_cons(l[0], t);
        lemma_cap_round_trip(l[0], encode_caps(t));
        let s = encode_caps(l);
        assert(s == encode_cap(l[0]) + encode_caps(t));
        assert(s.skip(4 + l[0].1.len() as int) =~= encode_caps(t));
        assert forall|k: int| 0 <= k < t.len() implies cap_wf(#[trigger] t[k]) by {
            assert(t[k] == l[k + 1]);
        }
        lemma_caps_round_trip(t);
        assert(s.len() > 0);
        assert(parse_caps(s) == Ok::<_, BmpMessageParsingError>(seq![l[0]] + t));
        assert(seq![l[0]] + t =~= l);
    }
}

/// A BGP OPEN message: AS number, hold time, identifier and capabilities.
#[derive(Clone, Debug, PartialEq, Eq)]
pub struct BgpOpenMessage {
    pub my_as: u16,
    pub hold_time: u16,
    pub bgp_id: u32,
    pub capabilities: Vec<BgpCapability>,
}

/// An OPEN message seen as plain values.
pub struct BgpOpenView {
    pub my_as: u16,
    pub hold_time: u16,
    pub bgp_id: u32,
    pub caps: Seq<CapView>,
}

impl View for BgpOpenMessage {
    type V = BgpOpenView;

    open spec fn view(&self) -> BgpOpenView {
        BgpOpenView {
            my_as: self.my_as,
            hold_time: self.hold_time,
            bgp_id: self.bgp_id,
            caps: caps_view(self.capabilities@),
        }
    }
}

/// Octets of the fixed part of an OPEN message, BGP header included.
pub const BGP_OPEN_MIN_LEN: usize = 29;

/// The sixteen marker octets of a BGP header.
pub open spec fn bgp_marker() -> Seq<u8> {
    Seq::new(16, |i: int| 0xffu8)
}

/// An OPEN message whose parameters fit their one-octet lengths.
pub open spec fn open_wf(o: BgpOpenView) -> bool {
    (forall|k: int| 0 <= k < o.caps.len() ==> cap_wf(#[trigger] o.caps[k])) && caps_len(o.caps)
        <= 255
}

/// Octets that an OPEN message takes.
pub open spec fn open_len(o: BgpOpenView) -> nat {
    29 + caps_len(o.caps)
}

/// The octets of an OPEN message, BGP header included.
pub open spec fn encode_open(o: BgpOpenView) -> Seq<u8> {
    bgp_marker() + be_bytes(open_len(o), 2) + seq![1u8, 4u8] + be_bytes(o.my_as as nat, 2)
        + be_bytes(o.hold_time as nat, 2) + be_bytes(o.bgp_id as nat, 4) + seq![
        caps_len(o.caps) as u8,
    ] + encode_caps(o.caps)
}

/// The OPEN message at the start of `s` and the octets it takes.
pub open spec fn parse_open(s: Seq<u8>) -> Result<(BgpOpenView, nat), BmpMessageParsingError> {
    if s.len() < 29 {
        Err(BmpMessageParsingError::Truncated)
    } else {
        let len = be_value(s.subrange(16, 18));
        if s.subrange(0, 16) != bgp_marker() || len < 29 || s[18] != 1 || s[19] != 4 || s[28] as nat
            + 29 != len {
            Err(BmpMessageParsingError::InvalidBgpOpen)
        } else if s.len() < len {
            Err(BmpMessageParsingError::Truncated)
        } else {
            match parse_caps(s.subrange(29, len as int)) {
                Err(e) => Err(e),
                Ok(caps) => Ok(
                    (
                        BgpOpenView {
                            my_as: be_value(s.subrange(20, 22)) as u16,
                            hold_time: be_value(s.subrange(22, 24)) as u16,
                            bgp_id: be_value(s.subrange(24, 28)) as u32,
                            caps,
                        },
                        len,
                    ),
                ),
            }
        }
    }
}

pub proof fn lemma_encode_open_len(o: BgpOpenView)
    ensures
        encode_open(o).len() == open_len(o),
{
    lemma_be_bytes_len(open_len(o), 2);
    lemma_be_bytes_len(o.my_as as nat, 2);
    lemma_be_bytes_len(o.hold_time as nat, 2);
    lemma_be_bytes_len(o.bgp_id as nat, 4);
    lemma_encode_caps_len(o.caps);
}

/// Decoding the octets of a well-formed OPEN message, followed by anything, gives it back.
pub proof fn lemma_open_round_trip(o: BgpOpenView, rest: Seq<u8>)
    requires
        open_wf(o),
    ensures
        parse_open(encode_open(o) + rest) == Ok::<_, BmpMessageParsingError>((o, open_len(o))),
{
    let s = encode_open(o) + rest;
    lemma_encode_open_len(o);
    lemma_be_bytes_len(open_len(o), 2);
    lemma_be_bytes_len(o.my_as as nat, 2);
    lemma_be_bytes_len(o.hold_time as nat, 2);
    lemma_be_bytes_len(o.bgp_id as nat, 4);
    lemma_encode_caps_len(o.caps);
    lemma_pow256_facts();
    lemma_be_round_trip(open_len(o), 2);
    lemma_be_round_trip(o.my_as as nat, 2);
    lemma_be_round_trip(o.hold_time as nat, 2);
    lemma_be_round_trip(o.bgp_id as nat, 4);
    assert(s.subrange(0, 16) =~= bgp_marker());
    assert(s.subrange(16, 18) =~= be_bytes(open_len(o), 2));
    assert(s.subrange(20, 22) =~= be_bytes(o.my_as as nat, 2));
    assert(s.subrange(22, 24) =~= be_bytes(o.hold_time as nat, 2));
    assert(s.subrange(24, 28) =~= be_bytes(o.bgp_id as nat, 4));
    assert(s[28] == caps_len(o.caps) as u8);
    assert(s.subrange(29, open_len(o) as int) =~= encode_caps(o.caps));
    lemma_caps_round_trip(o.caps);
}

impl BgpOpenMessage {
    /// Whether every parameter fits its one-octet length.
    pub fn is_valid(&self) -> (r: bool)
        ensures
            r == open_wf(self@),
    {
        let ghost v = caps_view(self.capabilities@);
        let mut total: usize = 0;
        let mut i: usize = 0;
        while i < self.capabilities.len()
            invariant
                i <= self.capabilities@.len(),
                v == caps_view(self.capabilities@),
                forall|k: int| 0 <= k < i ==> cap_wf(#[trigger] v[k]),
                total == caps_len(v.take(i as int)),
                total <= 255,
            decreases self.capabilities@.len() - i,
        {
            let n = self.capabilities[i].value.len();
            proof {
                assert(v.take(i + 1).drop_last() =~= v.take(i as int));
                assert(v.take(i + 1).last() == self.capabilities@[i as int]@);
                assert(v[i as int] == self.capabilities@[i as int]@);
            }
            if n > 253 {
                return false;
            }
            if n + 4 > 255 - total {
                proof {
                    lemma_caps_len_prefix(v, i + 1);
                }
                return false;
            }
            total = total + 4 + n;
            i += 1;
        }
        assert(v.take(i as int) =~= v);
        true
    }

    /// Number of octets that the message takes on the wire.
    pub fn len(&self) -> (r: usize)
        requires
            open_wf(self@),
        ensures
            r == open_len(self@),
    {
        let ghost v = caps_view(self.capabilities@);
        let mut total: usize = 0;
        let mut i: usize = 0;
        while i < self.capabilities.len()
            invariant
                i <= self.capabilities@.len(),
                v == caps_view(self.capabilities@),
                open_wf(self@),
                total == caps_len(v.take(i as int)),
            decreases self.capabilities@.len() - i,
        {
            proof {
                assert(v.take(i + 1).drop_last() =~= v.take(i as int));
                assert(v.take(i + 1).last() == self.capabilities@[i as int]@);
                lemma_caps_len_prefix(v, i + 1);
            }
            total = total + 4 + self.capabilities[i].value.len();
            i += 1;
        }
        assert(v.take(i as int) =~= v);
        BGP_OPEN_MIN_LEN + total
    }

    /// Appends the message, BGP header included, to `out`.
    pub fn write(&self, out: &mut Vec<u8>)
        requires
            open_wf(self@),
        ensures
            final(out)@ == old(out)@ + encode_open(self@),
    {
        let len = self.len();
        let ghost start = out@;
        let mut i: usize = 0;
        while i < 16
            invariant
                i <= 16,
                out@ == start + Seq::new(i as nat, |k: int| 0xffu8),
            decreases 16 - i,
        {
            out.push(0xff);
            i += 1;
            assert(out@ =~= start + Seq::new(i as nat, |k: int| 0xffu8));
        }
        push_be(out, len as u128, 2);
        out.push(1);
        out.push(4);
        push_be(out, self.my_as as u128, 2);
        push_be(out, self.hold_time as u128, 2);
        push_be(out, self.bgp_id as u128, 4);
        out.push((len - BGP_OPEN_MIN_LEN) as u8);
        let ghost v = caps_view(self.capabilities@);
        let ghost mid = out@;
        let mut i: usize = 0;
        while i < self.capabilities.len()
            invariant
                i <= self.capabilities@.len(),
                v == caps_view(self.capabilities@),
                open_wf(self@),
                out@ == mid + encode_caps(v.take(i as int)),
            decreases self.capabilities@.len() - i,
        {
            let cap = &self.capabilities[i];
            proof {
                assert(v.take(i + 1).drop_last() =~= v.take(i as int));
                assert(v.take(i + 1).last() == cap@);
                assert(v[i as int] == cap@);
                assert(cap_wf(v[i as int]));
            }
            out.push(2);
            out.push((cap.value.len() + 2) as u8);
            out.push(cap.code);
            out.push(cap.value.len() as u8);
            let ghost before = out@;
            let mut j: usize = 0;
            while j < cap.value.len()
                invariant
                    j <= cap.value@.len(),
                    out@ == before + cap.value@.take(j as int),
                decreases cap.value@.len() - j,
            {
                out.push(cap.value[j]);
                j += 1;
                assert(out@ =~= before + cap.value@.take(j as int));
            }
            assert(cap.value@.take(j as int) =~= cap.value@);
            i += 1;
            assert(out@ =~= mid + encode_caps(v.take(i as int)));
        }
        assert(v.take(i as int) =~= v);
        assert(final(out)@ =~= old(out)@ + encode_open(self@));
    }

    /// Decodes the OPEN message that starts at `pos` and ends by `end`.
    pub fn from_wire(b: &[u8], pos: usize, end: usize) -> (r: Result<
        (BgpOpenMessage, usize),
        BmpMessageParsingError,
    >)
        requires
            pos <= end <= b@.len(),
        ensures
            parse_open(b@.subrange(pos as int, end as int)) == (match r {
                Ok((o, n)) => Ok((o@, n as nat)),
                Err(e) => Err(e),
            }),
    {
        let ghost s = b@.subrange(pos as int, end as int);
        if end - pos < BGP_OPEN_MIN_LEN {
            return Err(BmpMessageParsingError::Truncated);
        }
        let len = read_be(b, pos + 16, 2);
        proof {
            lemma_pow256_facts();
            lemma_be_value_bound(b@.subrange(pos + 16, pos + 18));
            assert(s.subrange(16, 18) =~= b@.subrange(pos + 16, pos + 18));
        }
        let len = len as usize;
        let mut marker_ok = true;
        let mut i: usize = 0;
        assert(s.subrange(0, 0) =~= Seq::new(0, |k: int| 0xffu8));
        while i < 16
            invariant
                i <= 16,
                pos + 29 <= end <= b@.len(),
                s == b@.subrange(pos as int, end as int),
                marker_ok == (s.subrange(0, i as int) == Seq::new(i as nat, |k: int| 0xffu8)),
            decreases 16 - i,
        {
            proof {
                if marker_ok {
                    assert(s.subrange(0, i + 1) =~= s.subrange(0, i as int).push(s[i as int]));
                    assert(Seq::new((i + 1) as nat, |k: int| 0xffu8) =~= Seq::new(
                        i as nat,
                        |k: int| 0xffu8,
                    ).push(0xffu8));
                } else {
                    if s.subrange(0, i + 1) == Seq::new((i + 1) as nat, |k: int| 0xffu8) {
                        assert(s.subrange(0, i as int) =~= s.subrange(0, i + 1).take(i as int));
                        assert(s.subrange(0, i as int) =~= Seq::new(i as nat, |k: int| 0xffu8));
                    }
                }
            }
            let ok = b[pos + i] == 0xff;
            proof {
                if !ok && marker_ok {
                    assert(s.subrange(0, i + 1)[i as int] != 0xffu8);
                }
            }
            marker_ok = marker_ok && ok;
            i += 1;
        }
        if !marker_ok || len < BGP_OPEN_MIN_LEN || b[pos + 18] != 1 || b[pos + 19] != 4 || b[pos
            + 28] as usize + BGP_OPEN_MIN_LEN != len {
            return Err(BmpMessageParsingError::InvalidBgpOpen);
        }
        if end - pos < len {
            return Err(BmpMessageParsingError::Truncated);
        }
        let caps = match parse_caps_exec(b, pos + BGP_OPEN_MIN_LEN, pos + len) {
            Err(e) => {
                proof {
                    assert(s.subrange(29, len as int) =~= b@.subrange(pos + 29, pos + len));
                }
                return Err(e);
            },
            Ok(caps) => caps,
        };
        let my_as = read_be(b, pos + 20, 2);
        let hold_time = read_be(b, pos + 22, 2);
        let bgp_id = read_be(b, pos + 24, 4);
        proof {
            assert(s.subrange(29, len as int) =~= b@.subrange(pos + 29, pos + len));
            lemma_be_value_bound(b@.subrange(pos + 20, pos + 22));
            lemma_be_value_bound(b@.subrange(pos + 22, pos + 24));
            lemma_be_value_bound(b@.subrange(pos + 24, pos + 28));
            assert(s.subrange(20, 22) =~= b@.subrange(pos + 20, pos + 22));
            assert(s.subrange(22, 24) =~= b@.subrange(pos + 22, pos + 24));
            assert(s.subrange(24, 28) =~= b@.subrange(pos + 24, pos + 28));
        }
        let open = BgpOpenMessage {
            my_as: my_as as u16,
            hold_time: hold_time as u16,
            bgp_id: bgp_id as u32,
            capabilities: caps,
        };
        Ok((open, len))
    }
}

/// Decodes capability parameters from `pos` until they fill the octets up to `end`.
pub fn parse_caps_exec(b: &[u8], pos: usize, end: usize) -> (r: Result<
    Vec<BgpCapability>,
    BmpMessageParsingError,
>)
    requires
        pos <= end <= b@.len(),
    ensures
        parse_caps(b@.subrange(pos as int, end as int)) == (match r {
            Ok(l) => Ok(caps_view(l@)),
            Err(e) => Err(e),
        }),
{
    let mut out: Vec<BgpCapability> = Vec::new();
    let mut p = pos;
    while p < end
        invariant
            pos <= p <= end <= b@.len(),
            parse_caps(b@.subrange(pos as int, end as int)) == (match parse_caps(
                b@.subrange(p as int, end as int),
            ) {
                Ok(l) => Ok(caps_view(out@) + l),
                Err(e) => Err(e),
            }),
        decreases end - p,
    {
        let ghost s = b@.subrange(p as int, end as int);
        if end - p < 4 {
            return Err(BmpMessageParsingError::Truncated);
        }
        let clen = b[p + 3] as usize;
        if b[p] != 2 || b[p + 1] as usize != clen + 2 {
            return Err(BmpMessageParsingError::InvalidBgpOpen);
        }
        if end - p - 4 < clen {
            return Err(BmpMessageParsingError::Truncated);
        }
        let mut value: Vec<u8> = Vec::new();
        let start = p + 4;
        let mut i: usize = 0;
        while i < clen
            invariant
                start + clen <= end <= b@.len(),
                i <= clen,
                value@ == b@.subrange(start as int, start + i),
            decreases clen - i,
        {
            value.push(b[start + i]);
            i += 1;
            assert(value@ =~= b@.subrange(start as int, start + i));
        }
        let cap = BgpCapability { code: b[p + 2], value };
        let n = 4 + clen;
        proof {
            assert(s.subrange(4, 4 + clen as int) =~= cap.value@);
            assert(parse_cap(s) == Ok::<_, BmpMessageParsingError>((cap@, n as nat)));
            assert(s.skip(n as int) =~= b@.subrange(p + n, end as int));
            assert(caps_view(out@.push(cap)) =~= caps_view(out@) + seq![cap@]);
            match parse_caps(b@.subrange(p + n, end as int)) {
                Ok(l) => {
                    assert(caps_view(out@) + (seq![cap@] + l) =~= caps_view(out@.push(cap)) + l);
                },
                Err(_) => {},
            }
        }
        out.push(cap);
        p = p + n;
    }
    proof {
        assert(b@.subrange(p as int, end as int) =~= Seq::<u8>::empty());
        assert(caps_view(out@) + Seq::<CapView>::empty() =~= caps_view(out@));
    }
    Ok(out)
}

} // verus!
