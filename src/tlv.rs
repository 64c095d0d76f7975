//! Information TLVs: a 16-bit type, a 16-bit length and that many octets.
use vstd::prelude::*;

use crate::error::{BmpMessageParsingError, InitiationInformationWritingError};
use crate::wire::{
    be_bytes, be_value, lemma_be_bytes_len, lemma_be_round_trip, lemma_be_value_bound,
    lemma_pow256_facts, push_be, read_be,
};

verus! {

/// One information TLV of an initiation, termination or peer up message.
///
/// Text values are held as their UTF-8 octets.
#[derive(Clone, Debug, PartialEq, Eq)]
pub enum InitiationInformation {
    String(Vec<u8>),
    SystemDescription(Vec<u8>),
    SystemName(Vec<u8>),
    VrfTableName(Vec<u8>),
    AdminLabel(Vec<u8>),
    Experimental65531(Vec<u8>),
    Experimental65532(Vec<u8>),
    Experimental65533(Vec<u8>),
    Experimental65534(Vec<u8>),
}

/// A TLV seen as its type code and value octets.
pub type InfoView = (u16, Seq<u8>);

/// Whether `code` names an information TLV.
pub open spec fn info_code_known(code: nat) -> bool {
    code <= 4 || (65531 <= code && code <= 65534)
}

/// A TLV that can be encoded: a known type and a value whose length fits 16 bits.
pub open spec fn info_wf(i: InfoView) -> bool {
    info_code_known(i.0 as nat) && i.1.len() <= 0xffff
}

/// The octets of a TLV.
pub open spec fn encode_info(i: InfoView) -> Seq<u8> {
    be_bytes(i.0 as nat, 2) + be_bytes(i.1.len(), 2) + i.1
}

/// The TLV at the start of `s` and the octets it takes.
pub open spec fn parse_info(s: Seq<u8>) -> Result<(InfoView, nat), BmpMessageParsingError> {
    if s.len() < 4 {
        Err(BmpMessageParsingError::Truncated)
    } else {
        let code = be_value(s.subrange(0, 2));
        let len = be_value(s.subrange(2, 4));
        if !info_code_known(code) {
            Err(BmpMessageParsingError::UndefinedInformationType(code as u16))
        } else if s.len() < 4 + len {
            Err(BmpMessageParsingError::Truncated)
        } else {
            Ok(((code as u16, s.subrange(4, 4 + len as int)), 4 + len))
        }
    }
}

/// The octets of a sequence of TLVs, one after the other.
pub open spec fn encode_infos(l: Seq<InfoView>) -> Seq<u8>
    decreases l.len(),
{
    if l.len() == 0 {
        Seq::empty()
    } else {
        encode_infos(l.drop_last()) + encode_info(l.last())
    }
}

/// Octets taken by a sequence of TLVs.
pub open spec fn infos_len(l: Seq<InfoView>) -> nat
    decreases l.len(),
{
    if l.len() == 0 {
        0
    } else {
        infos_len(l.drop_last()) + 4 + l.last().1.len()
    }
}

/// The TLVs that fill `s` exactly.
pub open spec fn parse_infos(s: Seq<u8>) -> Result<Seq<InfoView>, BmpMessageParsingError>
    decreases s.len(),
{
    if s.len() == 0 {
        Ok(Seq::empty())
    } else {
        match parse_info(s) {
            Err(e) => Err(e),
            Ok((i, n)) => if 0 < n && n <= s.len() {
                match parse_infos(s.skip(n as int)) {
                    Err(e) => Err(e),
                    Ok(l) => Ok(seq![i] + l),
                }
            } else {
                Err(BmpMessageParsingError::Truncated)
            },
        }
    }
}

pub proof fn lemma_encode_info_len(i: InfoView)
    ensures
        encode_info(i).len() == 4 + i.1.len(),
{
    lemma_be_bytes_len(i.0 as nat, 2);
    lemma_be_bytes_len(i.1.len(), 2);
}

pub proof fn lemma_encode_infos_len(l: Seq<InfoView>)
    ensures
        encode_infos(l).len() == infos_len(l),
    decreases l.len(),
{
    if l.len() > 0 {
        lemma_encode_infos_len(l.drop_last());
        lemma_encode_info_len(l.last());
    }
}

pub proof fn lemma_encode_infos_cons(x: InfoView, l: Seq<InfoView>)
    ensures
        encode_infos(seq![x] + l) == encode_info(x) + encode_infos(l),
    decreases l.len(),
{
    let xl = seq![x] + l;
    if l.len() == 0 {
        assert(xl.drop_last() =~= Seq::<InfoView>::empty());
        assert(l =~= Seq::<InfoView>::empty());
        assert(encode_infos(Seq::<InfoView>::empty()) =~= Seq::<u8>::empty());
        assert(encode_infos(xl) =~= encode_info(x) + encode_infos(l));
    } else {
        assert(xl.drop_last() =~= seq![x] + l.drop_last());
        assert(xl.last() == l.last());
        lemma_encode_infos_cons(x, l.drop_last());
        assert(encode_infos(xl) == encode_infos(seq![x] + l.drop_last()) + encode_info(l.last()));
        assert(encode_infos(l) == encode_infos(l.drop_last()) + encode_info(l.last()));
        assert(encode_infos(xl) =~= encode_info(x) + encode_infos(l));
    }
}

/// Decoding the octets of a well-formed TLV, followed by anything, gives the TLV back.
pub proof fn lemma_info_round_trip(i: InfoView, rest: Seq<u8>)
    requires
        info_wf(i),
    ensures
        parse_info(encode_info(i) + rest) == Ok::<_, BmpMessageParsingError>(
            (i, 4 + i.1.len()),
        ),
{
    let s = encode_info(i) + rest;
    lemma_encode_info_len(i);
    lemma_be_bytes_len(i.0 as nat, 2);
    lemma_be_bytes_len(i.1.len(), 2);
    lemma_pow256_facts();
    lemma_be_round_trip(i.0 as nat, 2);
    lemma_be_round_trip(i.1.len(), 2);
    assert(s.subrange(0, 2) =~= be_bytes(i.0 as nat, 2));
    assert(s.subrange(2, 4) =~= be_bytes(i.1.len(), 2));
    assert(s.subrange(4, 4 + i.1.len() as int) =~= i.1);
}

/// Decoding the octets of a sequence of well-formed TLVs gives the sequence back.
pub proof fn lemma_infos_round_trip(l: Seq<InfoView>)
    requires
        forall|k: int| 0 <= k < l.len() ==> info_wf(#[trigger] l[k]),
    ensures
        parse_infos(encode_infos(l)) == Ok::<_, BmpMessageParsingError>(l),
    decreases l.len(),
{
    if l.len() == 0 {
        assert(encode_infos(l) =~= Seq::<u8>::empty());
        assert(l =~= Seq::<InfoView>::empty());
    } else {
        let t = l.skip(1);
        assert(l =~= seq![l[0]] + t);
        lemma_encode_infos_cons(l[0], t);
        lemma_info_round_trip(l[0], encode_infos(t));
        lemma_encode_info_len(l[0]);
        let s = encode_infos(l);
        assert(s == encode_info(l[0]) + encode_infos(t));
        assert(s.skip(4 + l[0].1.len() as int) =~= encode_infos(t));
        assert forall|k: int| 0 <= k < t.len() implies info_wf(#[trigger] t[k]) by {
            assert(t[k] == l[k + 1]);
        }
        lemma_infos_round_trip(t);
        assert(s.len() > 0);
        assert(parse_infos(s) == Ok::<_, BmpMessageParsingError>(seq![l[0]] + t));
        assert(seq![l[0]] + t =~= l);
    }
}

impl View for InitiationInformation {
    type V = InfoView;

    open spec fn view(&self) -> InfoView {
        match self {
            InitiationInformation::String(v) => (0, v@),
            InitiationInformation::SystemDescription(v) => (1, v@),
            InitiationInformation::SystemName(v) => (2, v@),
            InitiationInformation::VrfTableName(v) => (3, v@),
            InitiationInformation::AdminLabel(v) => (4, v@),
            InitiationInformation::Experimental65531(v) => (65531, v@),
            InitiationInformation::Experimental65532(v) => (65532, v@),
            InitiationInformation::Experimental65533(v) => (65533, v@),
            InitiationInformation::Experimental65534(v) => (65534, v@),
        }
    }
}

/// The views of a sequence of TLVs.
pub open spec fn infos_view(l: Seq<InitiationInformation>) -> Seq<InfoView> {
    l.map_values(|i: InitiationInformation| i@)
}

impl InitiationInformation {
    /// The TLV type code.
    pub fn get_type(&self) -> (r: u16)
        ensures
            r == self@.0,
    {
        match self {
            InitiationInformation::String(_) => 0,
            InitiationInformation::SystemDescription(_) => 1,
            InitiationInformation::SystemName(_) => 2,
            InitiationInformation::VrfTableName(_) => 3,
            InitiationInformation::AdminLabel(_) => 4,
            InitiationInformation::Experimental65531(_) => 65531,
            InitiationInformation::Experimental65532(_) => 65532,
            InitiationInformation::Experimental65533(_) => 65533,
            InitiationInformation::Experimental65534(_) => 65534,
        }
    }

    /// The value octets.
    pub fn value(&self) -> (r: &Vec<u8>)
        ensures
            r@ == self@.1,
    {
        match self {
            InitiationInformation::String(v) => v,
            InitiationInformation::SystemDescription(v) => v,
            InitiationInformation::SystemName(v) => v,
            InitiationInformation::VrfTableName(v) => v,
            InitiationInformation::AdminLabel(v) => v,
            InitiationInformation::Experimental65531(v) => v,
            InitiationInformation::Experimental65532(v) => v,
            InitiationInformation::Experimental65533(v) => v,
            InitiationInformation::Experimental65534(v) => v,
        }
    }

    /// The TLV of type `code` with the value `value`, if `code` names one.
    pub fn from_parts(code: u16, value: Vec<u8>) -> (r: Option<InitiationInformation>)
        ensures
            info_code_known(code as nat) <==> r.is_some(),
            r matches Some(i) ==> i@ == (code, value@),
    {
        match code {
            0 => Some(InitiationInformation::String(value)),
            1 => Some(InitiationInformation::SystemDescription(value)),
            2 => Some(InitiationInformation::SystemName(value)),
            3 => Some(InitiationInformation::VrfTableName(value)),
            4 => Some(InitiationInformation::AdminLabel(value)),
            65531 => Some(InitiationInformation::Experimental65531(value)),
            65532 => Some(InitiationInformation::Experimental65532(value)),
            65533 => Some(InitiationInformation::Experimental65533(value)),
            65534 => Some(InitiationInformation::Experimental65534(value)),
            _ => None,
        }
    }

    /// Number of octets that the TLV takes on the wire.
    pub fn len(&self) -> (r: usize)
        requires
            info_wf(self@),
        ensures
            r == 4 + self@.1.len(),
    {
        4 + self.value().len()
    }

    /// Whether the value fits its 16-bit length field.
    pub fn is_valid(&self) -> (r: bool)
        ensures
            r == info_wf(self@),
    {
        self.value().len() <= 0xffff
    }

    /// Appends the TLV to `out`; fails, writing nothing, when the value is too long.
    pub fn write(&self, out: &mut Vec<u8>) -> (r: Result<(), InitiationInformationWritingError>)
        ensures
            r.is_ok() == info_wf(self@),
            r.is_ok() ==> final(out)@ == old(out)@ + encode_info(self@),
            r matches Err(e) ==> e == InitiationInformationWritingError::ValueTooLong(
                self@.1.len() as usize,
            ) && final(out)@ == old(out)@,
    {
        let value = self.value();
        if value.len() > 0xffff {
            return Err(InitiationInformationWritingError::ValueTooLong(value.len()));
        }
        push_be(out, self.get_type() as u128, 2);
        push_be(out, value.len() as u128, 2);
        let ghost before = out@;
        let mut i: usize = 0;
        while i < value.len()
            invariant
                i <= value@.len(),
                out@ == before + value@.take(i as int),
            decreases value@.len() - i,
        {
            out.push(value[i]);
            i += 1;
            assert(out@ =~= before + value@.take(i as int));
        }
        assert(value@.take(i as int) =~= value@);
        assert(final(out)@ =~= old(out)@ + encode_info(self@));
        Ok(())
    }

    /// Decodes the TLV that starts at `pos` and ends by `end`.
    pub fn from_wire(b: &[u8], pos: usize, end: usize) -> (r: Result<
        (InitiationInformation, usize),
        BmpMessageParsingError,
    >)
        requires
            pos <= end <= b@.len(),
        ensures
            parse_info(b@.subrange(pos as int, end as int)) == (match r {
                Ok((i, n)) => Ok((i@, n as nat)),
                Err(e) => Err(e),
            }),
    {
        let ghost s = b@.subrange(pos as int, end as int);
        if end - pos < 4 {
            return Err(BmpMessageParsingError::Truncated);
        }
        let code = read_be(b, pos, 2);
        let len = read_be(b, pos + 2, 2);
        proof {
            lemma_pow256_facts();
            lemma_be_value_bound(b@.subrange(pos as int, pos + 2));
            lemma_be_value_bound(b@.subrange(pos + 2, pos + 4));
            assert(s.subrange(0, 2) =~= b@.subrange(pos as int, pos + 2));
            assert(s.subrange(2, 4) =~= b@.subrange(pos + 2, pos + 4));
        }
        let code = code as u16;
        let len = len as usize;
        if !(code <= 4 || (65531 <= code && code <= 65534)) {
            return Err(BmpMessageParsingError::UndefinedInformationType(code));
        }
        if end - pos - 4 < len {
            return Err(BmpMessageParsingError::Truncated);
        }
        let mut value: Vec<u8> = Vec::new();
        let start = pos + 4;
        let mut i: usize = 0;
        while i < len
            invariant
                start + len <= end <= b@.len(),
                i <= len,
                value@ == b@.subrange(start as int, start + i),
            decreases len - i,
        {
            value.push(b[start + i]);
            i += 1;
            assert(value@ =~= b@.subrange(start as int, start + i));
        }
        assert(s.subrange(4, 4 + len as int) =~= value@);
        match InitiationInformation::from_parts(code, value) {
            Some(info) => Ok((info, 4 + len)),
            None => Err(BmpMessageParsingError::UndefinedInformationType(code)),
        }
    }
}

pub proof fn lemma_infos_len_prefix(l: Seq<InfoView>, i: int)
    requires
        0 <= i <= l.len(),
    ensures
        infos_len(l.take(i)) <= infos_len(l),
    decreases l.len(),
{
    if i < l.len() {
        assert(l.take(i) =~= l.drop_last().take(i));
        lemma_infos_len_prefix(l.drop_last(), i);
    } else {
        assert(l.take(i) =~= l);
    }
}

/// Checks that every TLV of `l` can be encoded; the error names the first that cannot.
pub fn validate_infos(l: &Vec<InitiationInformation>) -> (r: Result<
    (),
    InitiationInformationWritingError,
>)
    ensures
        r.is_ok() == (forall|k: int| 0 <= k < l@.len() ==> info_wf(#[trigger] infos_view(l@)[k])),
        r matches Err(InitiationInformationWritingError::ValueTooLong(n)) ==> exists|k: int|
            0 <= k < l@.len() && !info_wf(#[trigger] infos_view(l@)[k]) && n == infos_view(
                l@,
            )[k].1.len() && forall|j: int| 0 <= j < k ==> info_wf(#[trigger] infos_view(l@)[j]),
{
    let mut i: usize = 0;
    while i < l.len()
        invariant
            i <= l@.len(),
            forall|k: int| 0 <= k < i ==> info_wf(#[trigger] infos_view(l@)[k]),
        decreases l@.len() - i,
    {
        if !l[i].is_valid() {
            assert(infos_view(l@)[i as int] == l@[i as int]@);
            assert(!info_wf(infos_view(l@)[i as int]));
            return Err(InitiationInformationWritingError::ValueTooLong(l[i].value().len()));
        }
        i += 1;
    }
    Ok(())
}

/// The octets that the TLVs of `l` take, when they fit 32 bits.
pub fn infos_len_checked(l: &Vec<InitiationInformation>) -> (r: Option<u64>)
    ensures
        r matches Some(n) ==> n == infos_len(infos_view(l@)),
        r.is_some() == (infos_len(infos_view(l@)) <= 0xffff_ffff),
{
    let ghost v = infos_view(l@);
    let mut total: u64 = 0;
    let mut i: usize = 0;
    while i < l.len()
        invariant
            i <= l@.len(),
            v == infos_view(l@),
            total == infos_len(v.take(i as int)),
            total <= 0xffff_ffff,
        decreases l@.len() - i,
    {
        let n = l[i].value().len();
        proof {
            assert(v.take(i + 1).drop_last() =~= v.take(i as int));
            assert(v.take(i + 1).last() == l@[i as int]@);
        }
        if n as u64 > 0xffff_ffff - total || 0xffff_ffff - total - (n as u64) < 4 {
            proof {
                lemma_infos_len_prefix(v, i + 1);
            }
            return None;
        }
        total = total + 4 + n as u64;
        i += 1;
    }
    assert(v.take(i as int) =~= v);
    Some(total)
}

/// Appends the TLVs of `l` in order; fails, writing nothing, when one is too long.
pub fn write_infos(l: &Vec<InitiationInformation>, out: &mut Vec<u8>) -> (r: Result<
    (),
    InitiationInformationWritingError,
>)
    ensures
        r.is_ok() == (forall|k: int| 0 <= k < l@.len() ==> info_wf(#[trigger] infos_view(l@)[k])),
        r.is_ok() ==> final(out)@ == old(out)@ + encode_infos(infos_view(l@)),
        r.is_err() ==> final(out)@ == old(out)@,
{
    if let Err(e) = validate_infos(l) {
        return Err(e);
    }
    let ghost v = infos_view(l@);
    let mut i: usize = 0;
    while i < l.len()
        invariant
            i <= l@.len(),
            v == infos_view(l@),
            forall|k: int| 0 <= k < l@.len() ==> info_wf(#[trigger] infos_view(l@)[k]),
            out@ == old(out)@ + encode_infos(v.take(i as int)),
        decreases l@.len() - i,
    {
        let r = l[i].write(out);
        proof {
            assert(info_wf(v[i as int]));
            assert(v.take(i + 1).drop_last() =~= v.take(i as int));
            assert(v.take(i + 1).last() == l@[i as int]@);
            assert(out@ =~= old(out)@ + encode_infos(v.take(i + 1)));
        }
        i += 1;
    }
    assert(v.take(i as int) =~= v);
    Ok(())
}

/// Decodes TLVs from `pos` until they fill the octets up to `end` exactly.
pub fn parse_infos_exec(b: &[u8], pos: usize, end: usize) -> (r: Result<
    Vec<InitiationInformation>,
    BmpMessageParsingError,
>)
    requires
        pos <= end <= b@.len(),
    ensures
        parse_infos(b@.subrange(pos as int, end as int)) == (match r {
            Ok(l) => Ok(infos_view(l@)),
            Err(e) => Err(e),
        }),
{
    let mut out: Vec<InitiationInformation> = Vec::new();
    let mut p = pos;
    while p < end
        invariant
            pos <= p <= end <= b@.len(),
            parse_infos(b@.subrange(pos as int, end as int)) == (match parse_infos(
                b@.subrange(p as int, end as int),
            ) {
                Ok(l) => Ok(infos_view(out@) + l),
                Err(e) => Err(e),
            }),
        decreases end - p,
    {
        let ghost s = b@.subrange(p as int, end as int);
        match InitiationInformation::from_wire(b, p, end) {
            Err(e) => {
                return Err(e);
            },
            Ok((info, n)) => {
                proof {
                    assert(s.skip(n as int) =~= b@.subrange(p + n, end as int));
                    assert(infos_view(out@.push(info)) =~= infos_view(out@) + seq![info@]);
                    match parse_infos(b@.subrange(p + n, end as int)) {
                        Ok(l) => {
                            assert(infos_view(out@) + (seq![info@] + l) =~= infos_view(
                                out@.push(info),
                            ) + l);
                        },
                        Err(_) => {},
                    }
                }
                out.push(info);
                p = p + n;
            },
        }
    }
    proof {
        assert(b@.subrange(p as int, end as int) =~= Seq::<u8>::empty());
        assert(infos_view(out@) + Seq::<InfoView>::empty() =~= infos_view(out@));
    }
    Ok(out)
}

} // verus!
