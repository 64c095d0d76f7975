//! Flow export messages: field specifiers, templates, and data sets that are
//! read through previously announced templates.
use vstd::prelude::*;

use crate::context::{lemma_map_of_prefix, lemma_map_of_update_last, map_of};
use crate::wire::{be_value, copy_range, lemma_be_value_bound, lemma_pow256_facts, read_be};

verus! {

/// The only flow export version decoded.
pub const IPFIX_VERSION: u16 = 10;

/// Octets of the message header: version, length, export time, sequence number
/// and observation domain.
pub const IPFIX_HEADER_LENGTH: u16 = 16;

/// Why a message header could not be decoded.
#[derive(Clone, Copy, Debug, PartialEq, Eq, Structural)]
pub enum IpfixHeaderParsingError {
    Truncated,
    UnsupportedVersion(u16),
    InvalidLength(u16),
}

/// Why a field specifier could not be decoded.
#[derive(Clone, Copy, Debug, PartialEq, Eq, Structural)]
pub enum FieldParsingError {
    Truncated,
    /// The standard information element is not one that the registry knows.
    UndefinedInformationElement(u16),
    /// The declared length is outside the range that the element allows.
    InvalidLength(u16),
}

/// Why a data record could not be decoded.
#[derive(Clone, Copy, Debug, PartialEq, Eq, Structural)]
pub enum FlowParsingError {
    /// The record ends before its template's fields do.
    Truncated,
}

/// Why a template record could not be decoded.
#[derive(Clone, Copy, Debug, PartialEq, Eq, Structural)]
pub enum TemplateRecordParsingError {
    Truncated,
    /// Template ids below 256 are reserved for sets.
    InvalidTemplateId(u16),
    FieldError(FieldParsingError),
}

/// Why a flow export message could not be decoded.
#[derive(Clone, Copy, Debug, PartialEq, Eq, Structural)]
pub enum IpfixMessageParsingError {
    HeaderError(IpfixHeaderParsingError),
    /// The buffer ends before the length that the header declares.
    Truncated,
    SetError(SetParsingError),
}

/// Why a set could not be decoded.
#[derive(Clone, Copy, Debug, PartialEq, Eq, Structural)]
pub enum SetParsingError {
    Truncated,
    InvalidLength(u16),
    InvalidSetId(u16),
    /// A data set names a template that has not been announced.
    FieldSpecifierIsNotDefined,
    TemplateRecordError(TemplateRecordParsingError),
}

/// The lengths that a standard information element allows, lowest and highest.
pub open spec fn ie_length_range(code: u16) -> Option<(u16, u16)> {
    if code == 1 || code == 2 {
        Some((1, 8))
    } else if code == 4 || code == 5 {
        Some((1, 1))
    } else if code == 6 || code == 7 || code == 11 {
        Some((1, 2))
    } else if code == 8 || code == 12 || code == 150 || code == 151 {
        Some((4, 4))
    } else if code == 10 || code == 14 {
        Some((1, 4))
    } else if code == 27 || code == 28 {
        Some((16, 16))
    } else if code == 152 || code == 153 {
        Some((8, 8))
    } else {
        None
    }
}

/// The lengths that the standard information element `code` allows.
pub fn length_range(code: u16) -> (r: Option<(u16, u16)>)
    ensures
        r == ie_length_range(code),
{
    match code {
        1 | 2 => Some((1, 8)),
        4 | 5 => Some((1, 1)),
        6 | 7 | 11 => Some((1, 2)),
        8 | 12 | 150 | 151 => Some((4, 4)),
        10 | 14 => Some((1, 4)),
        27 | 28 => Some((16, 16)),
        152 | 153 => Some((8, 8)),
        _ => None,
    }
}

/// A field of a template: whether its type code had the enterprise bit set,
/// its enterprise number (zero for standard elements), element code and the
/// length of its value in a record.
#[derive(Clone, Copy, Debug, PartialEq, Eq, Structural)]
pub struct FieldSpecifier {
    pub enterprise: bool,
    pub pen: u32,
    pub code: u16,
    pub length: u16,
}

/// The field specifier at the start of `s` and the octets it takes.
pub open spec fn parse_field(s: Seq<u8>) -> Result<(FieldSpecifier, nat), FieldParsingError> {
    if s.len() < 4 {
        Err(FieldParsingError::Truncated)
    } else {
        let raw = be_value(s.subrange(0, 2));
        let code = (raw % 0x8000) as u16;
        let length = be_value(s.subrange(2, 4)) as u16;
        let enterprise = raw >= 0x8000;
        if enterprise && s.len() < 8 {
            Err(FieldParsingError::Truncated)
        } else {
            let pen: u32 = if enterprise {
                be_value(s.subrange(4, 8)) as u32
            } else {
                0
            };
            let n: nat = if enterprise {
                8
            } else {
                4
            };
            if enterprise {
                Ok((FieldSpecifier { enterprise, pen, code, length }, n))
            } else {
                match ie_length_range(code) {
                    None => Err(FieldParsingError::UndefinedInformationElement(code)),
                    Some((lo, hi)) => if lo <= length && length <= hi {
                        Ok((FieldSpecifier { enterprise, pen, code, length }, n))
                    } else {
                        Err(FieldParsingError::InvalidLength(length))
                    },
                }
            }
        }
    }
}

impl FieldSpecifier {
    /// Decodes the field specifier that starts at `pos` and ends by `end`.
    pub fn from_wire(b: &[u8], pos: usize, end: usize) -> (r: Result<
        (FieldSpecifier, usize),
        FieldParsingError,
    >)
        requires
            pos <= end <= b@.len(),
        ensures
            parse_field(b@.subrange(pos as int, end as int)) == (match r {
                Ok((f, n)) => Ok((f, n as nat)),
                Err(e) => Err(e),
            }),
    {
        let ghost s = b@.subrange(pos as int, end as int);
        if end - pos < 4 {
            return Err(FieldParsingError::Truncated);
        }
        let raw = read_be(b, pos, 2);
        let length = read_be(b, pos + 2, 2);
        proof {
            lemma_pow256_facts();
            lemma_be_value_bound(b@.subrange(pos as int, pos + 2));
            lemma_be_value_bound(b@.subrange(pos + 2, pos + 4));
            assert(s.subrange(0, 2) =~= b@.subrange(pos as int, pos + 2));
            assert(s.subrange(2, 4) =~= b@.subrange(pos + 2, pos + 4));
        }
        let code = (raw % 0x8000) as u16;
        let length = length as u16;
        let enterprise = raw >= 0x8000;
        if enterprise && end - pos < 8 {
            return Err(FieldParsingError::Truncated);
        }
        let pen: u32 = if enterprise {
            let p = read_be(b, pos + 4, 4);
            proof {
                lemma_be_value_bound(b@.subrange(pos + 4, pos + 8));
                assert(s.subrange(4, 8) =~= b@.subrange(pos + 4, pos + 8));
            }
            p as u32
        } else {
            0
        };
        let n: usize = if enterprise {
            8
        } else {
            4
        };
        if !enterprise {
            match length_range(code) {
                None => {
                    return Err(FieldParsingError::UndefinedInformationElement(code));
                },
                Some((lo, hi)) => {
                    if !(lo <= length && length <= hi) {
                        return Err(FieldParsingError::InvalidLength(length));
                    }
                },
            }
        }
        Ok((FieldSpecifier { enterprise, pen, code, length }, n))
    }
}

/// The first `count` field specifiers of `s` and the octets they take.
pub open spec fn parse_fields(s: Seq<u8>, count: nat) -> Result<
    (Seq<FieldSpecifier>, nat),
    FieldParsingError,
>
    decreases count,
{
    if count == 0 {
        Ok((Seq::empty(), 0))
    } else {
        match parse_fields(s, (count - 1) as nat) {
            Err(e) => Err(e),
            Ok((fs, n)) => if n <= s.len() {
                match parse_field(s.skip(n as int)) {
                    Err(e) => Err(e),
                    Ok((f, m)) => Ok((fs.push(f), n + m)),
                }
            } else {
                Err(FieldParsingError::Truncated)
            },
        }
    }
}

/// A template: its id and its fields in order.
#[derive(Clone, Debug, PartialEq, Eq)]
pub struct TemplateRecord {
    pub id: u16,
    pub fields: Vec<FieldSpecifier>,
}

/// A template seen as its id and fields.
pub type TemplateView = (u16, Seq<FieldSpecifier>);

impl View for TemplateRecord {
    type V = TemplateView;

    open spec fn view(&self) -> TemplateView {
        (self.id, self.fields@)
    }
}

/// The template record at the start of `s` and the octets it takes.
pub open spec fn parse_template(s: Seq<u8>) -> Result<(TemplateView, nat), TemplateRecordParsingError> {
    if s.len() < 2 {
        Err(TemplateRecordParsingError::Truncated)
    } else if (be_value(s.subrange(0, 2)) as u16) < 256 {
        Err(TemplateRecordParsingError::InvalidTemplateId(be_value(s.subrange(0, 2)) as u16))
    } else if s.len() < 4 {
        Err(TemplateRecordParsingError::Truncated)
    } else {
        let id = be_value(s.subrange(0, 2)) as u16;
        let count = be_value(s.subrange(2, 4));
        match parse_fields(s.skip(4), count) {
            Err(e) => Err(TemplateRecordParsingError::FieldError(e)),
            Ok((fields, n)) => Ok(((id, fields), 4 + n)),
        }
    }
}

impl TemplateRecord {
    /// Decodes the template record that starts at `pos` and ends by `end`.
    pub fn from_wire(b: &[u8], pos: usize, end: usize) -> (r: Result<
        (TemplateRecord, usize),
        TemplateRecordParsingError,
    >)
        requires
            pos <= end <= b@.len(),
        ensures
            parse_template(b@.subrange(pos as int, end as int)) == (match r {
                Ok((t, n)) => Ok((t@, n as nat)),
                Err(e) => Err(e),
            }),
            r matches Ok((_, n)) ==> pos + n <= end,
    {
        let ghost s = b@.subrange(pos as int, end as int);
        if end - pos < 2 {
            return Err(TemplateRecordParsingError::Truncated);
        }
        let id = read_be(b, pos, 2);
        proof {
            lemma_pow256_facts();
            lemma_be_value_bound(b@.subrange(pos as int, pos + 2));
            assert(s.subrange(0, 2) =~= b@.subrange(pos as int, pos + 2));
        }
        let id = id as u16;
        if id < 256 {
            return Err(TemplateRecordParsingError::InvalidTemplateId(id));
        }
        if end - pos < 4 {
            return Err(TemplateRecordParsingError::Truncated);
        }
        let count = read_be(b, pos + 2, 2);
        proof {
            lemma_be_value_bound(b@.subrange(pos + 2, pos + 4));
            assert(s.subrange(2, 4) =~= b@.subrange(pos + 2, pos + 4));
        }
        let count = count as usize;
        let ghost t = s.skip(4);
        let start = pos + 4;
        assert(t =~= b@.subrange(start as int, end as int));
        let mut fields: Vec<FieldSpecifier> = Vec::new();
        let mut p = start;
        let mut i: usize = 0;
        while i < count
            invariant
                start <= p <= end <= b@.len(),
                t == b@.subrange(start as int, end as int),
                start == pos + 4,
                id >= 256,
                be_value(s.subrange(0, 2)) as u16 == id,
                s == b@.subrange(pos as int, end as int),
                t == s.skip(4),
                count as nat == be_value(s.subrange(2, 4)),
                i <= count,
                parse_fields(t, i as nat) == Ok::<_, FieldParsingError>(
                    (fields@, (p - start) as nat),
                ),
            decreases count - i,
        {
            proof {
                assert(t.skip(p - start) =~= b@.subrange(p as int, end as int));
            }
            match FieldSpecifier::from_wire(b, p, end) {
                Err(e) => {
                    proof {
                        assert(parse_fields(t, (i + 1) as nat) == Err::<
                            (Seq<FieldSpecifier>, nat),
                            _,
                        >(e));
                        lemma_parse_fields_err(t, (i + 1) as nat, count as nat);
                        assert(count as nat == be_value(s.subrange(2, 4)));
                        assert(parse_fields(s.skip(4), count as nat) == Err::<
                            (Seq<FieldSpecifier>, nat),
                            _,
                        >(e));
                        assert(be_value(s.subrange(0, 2)) as u16 == id);
                        assert(parse_template(s) == Err::<(TemplateView, nat), _>(
                            TemplateRecordParsingError::FieldError(e),
                        ));
                    }
                    return Err(TemplateRecordParsingError::FieldError(e));
                },
                Ok((f, n)) => {
                    fields.push(f);
                    p = p + n;
                },
            }
            i += 1;
        }
        Ok((TemplateRecord { id, fields }, p - pos))
    }
}

/// Once decoding the first fields fails, decoding more fails the same way.
pub proof fn lemma_parse_fields_err(s: Seq<u8>, i: nat, count: nat)
    requires
        i <= count,
        parse_fields(s, i) is Err,
    ensures
        parse_fields(s, count) == parse_fields(s, i),
    decreases count - i,
{
    if i < count {
        lemma_parse_fields_err(s, i, (count - 1) as nat);
    }
}

/// The template records that fill `s` exactly.
pub open spec fn parse_templates(s: Seq<u8>) -> Result<Seq<TemplateView>, TemplateRecordParsingError>
    decreases s.len(),
{
    if s.len() == 0 {
        Ok(Seq::empty())
    } else {
        match parse_template(s) {
            Err(e) => Err(e),
            Ok((t, n)) => if 0 < n && n <= s.len() {
                match parse_templates(s.skip(n as int)) {
                    Err(e) => Err(e),
                    Ok(l) => Ok(seq![t] + l),
                }
            } else {
                Err(TemplateRecordParsingError::Truncated)
            },
        }
    }
}

/// Octets that one data record of the template `fields` takes.
pub open spec fn record_size(fields: Seq<FieldSpecifier>) -> nat
    decreases fields.len(),
{
    if fields.len() == 0 {
        0
    } else {
        record_size(fields.drop_last()) + fields.last().length as nat
    }
}

/// Where the value of field `i` starts in a record.
pub open spec fn field_offset(fields: Seq<FieldSpecifier>, i: int) -> nat {
    record_size(fields.take(i))
}

/// The values of a record `r`: one per field, in template order.
pub open spec fn flow_of(fields: Seq<FieldSpecifier>, r: Seq<u8>) -> Seq<Seq<u8>> {
    Seq::new(
        fields.len(),
        |i: int| r.subrange(field_offset(fields, i) as int, field_offset(fields, i) + fields[i].length),
    )
}

/// The records of a data set body: as many whole records as fit; the octets
/// left after them are padding.
pub open spec fn flows_of(fields: Seq<FieldSpecifier>, s: Seq<u8>) -> Seq<Seq<Seq<u8>>> {
    let rs = record_size(fields);
    if rs == 0 {
        Seq::empty()
    } else {
        Seq::new(
            s.len() / rs,
            |k: int| flow_of(fields, s.subrange(k * rs, k * rs + rs)),
        )
    }
}

/// What a set carries.
pub enum SetPayloadView {
    Template(Seq<TemplateView>),
    Data(Seq<Seq<Seq<u8>>>),
}

/// The set at the start of `s` and the octets it takes, given the fields of the
/// template that its id names, if one was announced.
pub open spec fn parse_set(s: Seq<u8>, fields: Option<Seq<FieldSpecifier>>) -> Result<
    ((u16, SetPayloadView), nat),
    SetParsingError,
> {
    if s.len() < 4 {
        Err(SetParsingError::Truncated)
    } else {
        let id = be_value(s.subrange(0, 2)) as u16;
        let length = be_value(s.subrange(2, 4));
        if length < 4 {
            Err(SetParsingError::InvalidLength(length as u16))
        } else if s.len() < length {
            Err(SetParsingError::Truncated)
        } else {
            let body = s.subrange(4, length as int);
            if id == 2 {
                match parse_templates(body) {
                    Err(e) => Err(SetParsingError::TemplateRecordError(e)),
                    Ok(ts) => Ok(((id, SetPayloadView::Template(ts)), length)),
                }
            } else if id < 256 {
                Err(SetParsingError::InvalidSetId(id))
            } else {
                match fields {
                    None => Err(SetParsingError::FieldSpecifierIsNotDefined),
                    Some(fs) => Ok(((id, SetPayloadView::Data(flows_of(fs, body))), length)),
                }
            }
        }
    }
}

pub proof fn lemma_record_size_prefix(fields: Seq<FieldSpecifier>, i: int)
    requires
        0 <= i <= fields.len(),
    ensures
        record_size(fields.take(i)) <= record_size(fields),
    decreases fields.len(),
{
    if i < fields.len() {
        assert(fields.take(i) =~= fields.drop_last().take(i));
        lemma_record_size_prefix(fields.drop_last(), i);
    } else {
        assert(fields.take(i) =~= fields);
    }
}

/// A data record: one value per field of its template, in template order.
#[derive(Clone, Debug, PartialEq, Eq)]
pub struct Flow {
    pub values: Vec<Vec<u8>>,
}

/// The views of a sequence of byte vectors.
pub open spec fn values_view(v: Seq<Vec<u8>>) -> Seq<Seq<u8>> {
    v.map_values(|x: Vec<u8>| x@)
}

impl View for Flow {
    type V = Seq<Seq<u8>>;

    open spec fn view(&self) -> Seq<Seq<u8>> {
        values_view(self.values@)
    }
}

impl Flow {
    /// Decodes the record that starts at `pos`, one value per field of `fields`.
    pub fn from_wire(b: &[u8], pos: usize, end: usize, fields: &Vec<FieldSpecifier>) -> (r: Result<
        (Flow, usize),
        FlowParsingError,
    >)
        requires
            pos <= end <= b@.len(),
        ensures
            r is Err == (end - pos < record_size(fields@)),
            r matches Ok((f, n)) ==> n == record_size(fields@) && f@ == flow_of(
                fields@,
                b@.subrange(pos as int, pos + n),
            ),
    {
        let mut values: Vec<Vec<u8>> = Vec::new();
        let mut p = pos;
        let mut i: usize = 0;
        while i < fields.len()
            invariant
                pos <= p <= end <= b@.len(),
                i <= fields@.len(),
                p - pos == record_size(fields@.take(i as int)),
                values@.len() == i,
                forall|j: int|
                    0 <= j < i ==> #[trigger] values@[j]@ == b@.subrange(
                        pos + field_offset(fields@, j),
                        pos + field_offset(fields@, j) + fields@[j].length,
                    ),
            decreases fields@.len() - i,
        {
            let len = fields[i].length as usize;
            proof {
                assert(fields@.take(i + 1).drop_last() =~= fields@.take(i as int));
            }
            if len > end - p {
                proof {
                    lemma_record_size_prefix(fields@, i + 1);
                }
                return Err(FlowParsingError::Truncated);
            }
            let v = copy_range(b, p, p + len);
            proof {
                assert(field_offset(fields@, i as int) == p - pos);
            }
            values.push(v);
            p = p + len;
            i += 1;
        }
        assert(fields@.take(i as int) =~= fields@);
        let flow = Flow { values };
        let ghost r = b@.subrange(pos as int, p as int);
        assert forall|j: int| 0 <= j < fields@.len() implies #[trigger] flow@[j] == flow_of(
            fields@,
            r,
        )[j] by {
            lemma_record_size_prefix(fields@.take(j + 1), j);
            assert(fields@.take(j + 1).take(j) =~= fields@.take(j));
            assert(fields@.take(j + 1).drop_last() =~= fields@.take(j));
            lemma_record_size_prefix(fields@, j + 1);
            assert(flow@[j] == values@[j]@);
            assert(r.subrange(
                field_offset(fields@, j) as int,
                field_offset(fields@, j) + fields@[j].length,
            ) =~= b@.subrange(
                pos + field_offset(fields@, j),
                pos + field_offset(fields@, j) + fields@[j].length,
            ));
        }
        assert(flow@ =~= flow_of(fields@, r));
        Ok((flow, p - pos))
    }
}

/// Decodes template records from `pos` until they fill the octets up to `end`.
pub fn parse_templates_exec(b: &[u8], pos: usize, end: usize) -> (r: Result<
    Vec<TemplateRecord>,
    TemplateRecordParsingError,
>)
    requires
        pos <= end <= b@.len(),
    ensures
        parse_templates(b@.subrange(pos as int, end as int)) == (match r {
            Ok(l) => Ok(templates_view(l@)),
            Err(e) => Err(e),
        }),
{
    let mut out: Vec<TemplateRecord> = Vec::new();
    let mut p = pos;
    while p < end
        invariant
            pos <= p <= end <= b@.len(),
            parse_templates(b@.subrange(pos as int, end as int)) == (match parse_templates(
                b@.subrange(p as int, end as int),
            ) {
                Ok(l) => Ok(templates_view(out@) + l),
                Err(e) => Err(e),
            }),
        decreases end - p,
    {
        let ghost s = b@.subrange(p as int, end as int);
        match TemplateRecord::from_wire(b, p, end) {
            Err(e) => {
                return Err(e);
            },
            Ok((t, n)) => {
                if n == 0 {
                    return Err(TemplateRecordParsingError::Truncated);
                }
                proof {
                    assert(s.skip(n as int) =~= b@.subrange(p + n, end as int));
                    assert(templates_view(out@.push(t)) =~= templates_view(out@) + seq![t@]);
                    match parse_templates(b@.subrange(p + n, end as int)) {
                        Ok(l) => {
                            assert(templates_view(out@) + (seq![t@] + l) =~= templates_view(
                                out@.push(t),
                            ) + l);
                        },
                        Err(_) => {},
                    }
                }
                out.push(t);
                p = p + n;
            },
        }
    }
    proof {
        assert(b@.subrange(p as int, end as int) =~= Seq::<u8>::empty());
        assert(templates_view(out@) + Seq::<TemplateView>::empty() =~= templates_view(out@));
    }
    Ok(out)
}

/// The views of a sequence of templates.
pub open spec fn templates_view(l: Seq<TemplateRecord>) -> Seq<TemplateView> {
    l.map_values(|t: TemplateRecord| t@)
}

/// The views of a sequence of data records.
pub open spec fn flows_view(l: Seq<Flow>) -> Seq<Seq<Seq<u8>>> {
    l.map_values(|f: Flow| f@)
}

/// The size of a record of `fields`, when it is at most `limit`.
pub fn record_size_checked(fields: &Vec<FieldSpecifier>, limit: usize) -> (r: Option<usize>)
    ensures
        r is None == (record_size(fields@) > limit),
        r matches Some(n) ==> n == record_size(fields@),
{
    let mut total: usize = 0;
    let mut i: usize = 0;
    while i < fields.len()
        invariant
            i <= fields@.len(),
            total == record_size(fields@.take(i as int)),
            total <= limit,
        decreases fields@.len() - i,
    {
        proof {
            assert(fields@.take(i + 1).drop_last() =~= fields@.take(i as int));
        }
        let len = fields[i].length as usize;
        if len > limit - total {
            proof {
                lemma_record_size_prefix(fields@, i + 1);
            }
            return None;
        }
        total = total + len;
        i += 1;
    }
    assert(fields@.take(i as int) =~= fields@);
    Some(total)
}

/// What a set carries: template records, or data records read through a template.
#[derive(Clone, Debug, PartialEq, Eq)]
pub enum SetPayload {
    Template(Vec<TemplateRecord>),
    Data(Vec<Flow>),
}

/// A set of a flow export message: its id and what it carries.
#[derive(Clone, Debug, PartialEq, Eq)]
pub struct IpfixSet {
    pub id: u16,
    pub payload: SetPayload,
}

impl View for IpfixSet {
    type V = (u16, SetPayloadView);

    open spec fn view(&self) -> (u16, SetPayloadView) {
        (
            self.id,
            match self.payload {
                SetPayload::Template(ts) => SetPayloadView::Template(templates_view(ts@)),
                SetPayload::Data(fs) => SetPayloadView::Data(flows_view(fs@)),
            },
        )
    }
}

impl IpfixSet {
    /// Decodes the set that starts at `pos` and ends by `end`; a data set is read
    /// through `fields`, the template that its id names, if one was announced.
    pub fn from_wire(b: &[u8], pos: usize, end: usize, fields: Option<&Vec<FieldSpecifier>>) -> (r:
        Result<(IpfixSet, usize), SetParsingError>)
        requires
            pos <= end <= b@.len(),
        ensures
            parse_set(
                b@.subrange(pos as int, end as int),
                match fields {
                    Some(f) => Some(f@),
                    None => None,
                },
            ) == (match r {
                Ok((x, n)) => Ok((x@, n as nat)),
                Err(e) => Err(e),
            }),
    {
        let ghost s = b@.subrange(pos as int, end as int);
        if end - pos < 4 {
            return Err(SetParsingError::Truncated);
        }
        let id = read_be(b, pos, 2);
        let length = read_be(b, pos + 2, 2);
        proof {
            lemma_pow256_facts();
            lemma_be_value_bound(b@.subrange(pos as int, pos + 2));
            lemma_be_value_bound(b@.subrange(pos + 2, pos + 4));
            assert(s.subrange(0, 2) =~= b@.subrange(pos as int, pos + 2));
            assert(s.subrange(2, 4) =~= b@.subrange(pos + 2, pos + 4));
        }
        let id = id as u16;
        let length = length as usize;
        if length < 4 {
            return Err(SetParsingError::InvalidLength(length as u16));
        }
        if end - pos < length {
            return Err(SetParsingError::Truncated);
        }
        let start = pos + 4;
        let stop = pos + length;
        proof {
            assert(s.subrange(4, length as int) =~= b@.subrange(start as int, stop as int));
        }
        if id == 2 {
            return match parse_templates_exec(b, start, stop) {
                Err(e) => Err(SetParsingError::TemplateRecordError(e)),
                Ok(ts) => Ok((IpfixSet { id, payload: SetPayload::Template(ts) }, length)),
            };
        }
        if id < 256 {
            return Err(SetParsingError::InvalidSetId(id));
        }
        let fields = match fields {
            None => return Err(SetParsingError::FieldSpecifierIsNotDefined),
            Some(f) => f,
        };
        let ghost body = b@.subrange(start as int, stop as int);
        let mut flows: Vec<Flow> = Vec::new();
        match record_size_checked(fields, stop - start) {
            None => {
                proof {
                    let rs = record_size(fields@);
                    if rs > 0 {
                        assert(body.len() / rs == 0) by (nonlinear_arith)
                            requires
                                rs > body.len(),
                        ;
                    }
                    assert(flows_of(fields@, body) =~= Seq::<Seq<Seq<u8>>>::empty());
                    assert(flows_view(flows@) =~= Seq::<Seq<Seq<u8>>>::empty());
                }
            },
            Some(rs) => {
                if rs > 0 {
                    let count = (stop - start) / rs;
                    let mut k: usize = 0;
                    while k < count
                        invariant
                            rs == record_size(fields@),
                            rs > 0,
                            start <= stop <= b@.len(),
                            body == b@.subrange(start as int, stop as int),
                            count == (stop - start) / rs as int,
                            k <= count,
                            flows@.len() == k,
                            forall|j: int|
                                0 <= j < k ==> #[trigger] flows@[j]@ == flow_of(
                                    fields@,
                                    body.subrange(j * rs, j * rs + rs),
                                ),
                        decreases count - k,
                    {
                        proof {
                            assert(k * rs + rs <= count * rs) by (nonlinear_arith)
                                requires
                                    k < count,
                            ;
                            assert(count * rs <= stop - start) by (nonlinear_arith)
                                requires
                                    count == (stop - start) / rs as int,
                                    rs > 0,
                                    stop >= start,
                            ;
                        }
                        let p = start + k * rs;
                        match Flow::from_wire(b, p, stop, fields) {
                            Err(_) => {
                                proof {
                                    assert(false);
                                }
                                return Err(SetParsingError::Truncated);
                            },
                            Ok((f, _n)) => {
                                proof {
                                    assert(body.subrange(k * rs, k * rs + rs) =~= b@.subrange(
                                        p as int,
                                        p + rs,
                                    ));
                                }
                                flows.push(f);
                            },
                        }
                        k += 1;
                    }
                    proof {
                        assert(k == count);
                        assert(body.len() == stop - start);
                        assert forall|j: int| 0 <= j < count implies #[trigger] flows_view(
                            flows@,
                        )[j] == flows_of(fields@, body)[j] by {
                            assert(flows_view(flows@)[j] == flows@[j]@);
                        }
                        assert(flows_view(flows@) =~= flows_of(fields@, body));
                    }
                } else {
                    proof {
                        assert(flows_view(flows@) =~= flows_of(fields@, body));
                    }
                }
            },
        }
        Ok((IpfixSet { id, payload: SetPayload::Data(flows) }, length))
    }
}

/// The entries of a template store seen as keys and field sequences.
pub open spec fn entries_view(e: Seq<((u32, u16), Vec<FieldSpecifier>)>) -> Seq<
    ((u32, u16), Seq<FieldSpecifier>),
> {
    e.map_values(|x: ((u32, u16), Vec<FieldSpecifier>)| (x.0, x.1@))
}

/// The templates after the template records `ts` of observation domain `domain`
/// were announced, in order; a later record with the same id replaces an earlier one.
pub open spec fn store_after(
    m: Map<(u32, u16), Seq<FieldSpecifier>>,
    domain: u32,
    ts: Seq<TemplateView>,
) -> Map<(u32, u16), Seq<FieldSpecifier>>
    decreases ts.len(),
{
    if ts.len() == 0 {
        m
    } else {
        store_after(m, domain, ts.drop_last()).insert((domain, ts.last().0), ts.last().1)
    }
}

/// The fields of the template that the set at the start of `s` names, if announced.
pub open spec fn lookup_template(
    m: Map<(u32, u16), Seq<FieldSpecifier>>,
    domain: u32,
    s: Seq<u8>,
) -> Option<Seq<FieldSpecifier>> {
    if s.len() >= 2 && m.contains_key((domain, be_value(s.subrange(0, 2)) as u16)) {
        Some(m[(domain, be_value(s.subrange(0, 2)) as u16)])
    } else {
        None
    }
}

/// How decoding a set changes the templates: a template set announces its records.
pub open spec fn templates_after_set(
    m: Map<(u32, u16), Seq<FieldSpecifier>>,
    domain: u32,
    r: Result<((u16, SetPayloadView), nat), SetParsingError>,
) -> Map<(u32, u16), Seq<FieldSpecifier>> {
    match r {
        Ok(((_, SetPayloadView::Template(ts)), _)) => store_after(m, domain, ts),
        _ => m,
    }
}

/// A copy of a sequence of field specifiers.
fn copy_fields(f: &Vec<FieldSpecifier>) -> (r: Vec<FieldSpecifier>)
    ensures
        r@ == f@,
{
    let mut r: Vec<FieldSpecifier> = Vec::new();
    let mut i: usize = 0;
    while i < f.len()
        invariant
            i <= f@.len(),
            r@ == f@.take(i as int),
        decreases f@.len() - i,
    {
        r.push(f[i]);
        i += 1;
        assert(r@ =~= f@.take(i as int));
    }
    assert(f@.take(i as int) =~= f@);
    r
}

/// The templates announced so far, keyed by observation domain and template id.
#[derive(Debug)]
pub struct TemplateStore {
    entries: Vec<((u32, u16), Vec<FieldSpecifier>)>,
}

impl TemplateStore {
    /// The fields of each announced template.
    pub closed spec fn templates(&self) -> Map<(u32, u16), Seq<FieldSpecifier>> {
        map_of(entries_view(self.entries@))
    }

    /// A store with no templates.
    pub fn new() -> (r: TemplateStore)
        ensures
            r.templates() == Map::<(u32, u16), Seq<FieldSpecifier>>::empty(),
    {
        TemplateStore { entries: Vec::new() }
    }

    /// Index of the last entry with the key `k`, if any.
    fn find_last(&self, k: (u32, u16)) -> (r: Option<usize>)
        ensures
            r matches Some(i) ==> i < self.entries@.len() && self.entries@[i as int].0 == k
                && forall|j: int| i < j < self.entries@.len() ==> self.entries@[j].0 != k,
            r is None ==> forall|j: int| 0 <= j < self.entries@.len() ==> self.entries@[j].0 != k,
    {
        let mut i = self.entries.len();
        while i > 0
            invariant
                i <= self.entries@.len(),
                forall|j: int| i <= j < self.entries@.len() ==> self.entries@[j].0 != k,
            decreases i,
        {
            let key = self.entries[i - 1].0;
            if key.0 == k.0 && key.1 == k.1 {
                return Some(i - 1);
            }
            i -= 1;
        }
        None
    }

    /// The fields of template `id` of observation domain `domain`, if announced.
    pub fn get(&self, domain: u32, id: u16) -> (r: Option<&Vec<FieldSpecifier>>)
        ensures
            r is None == !self.templates().contains_key((domain, id)),
            r matches Some(f) ==> f@ == self.templates()[(domain, id)],
    {
        let ghost ev = entries_view(self.entries@);
        match self.find_last((domain, id)) {
            None => {
                proof {
                    assert forall|j: int| 0 <= j < ev.len() implies ev[j].0 != (domain, id) by {
                        assert(ev[j].0 == self.entries@[j].0);
                    }
                    lemma_map_of_prefix(ev, 0, (domain, id));
                    assert(ev.take(0) =~= Seq::<((u32, u16), Seq<FieldSpecifier>)>::empty());
                }
                None
            },
            Some(i) => {
                proof {
                    assert forall|j: int| i + 1 <= j < ev.len() implies ev[j].0 != (domain, id) by {
                        assert(ev[j].0 == self.entries@[j].0);
                    }
                    lemma_map_of_prefix(ev, i + 1, (domain, id));
                    assert(ev.take(i + 1).drop_last() =~= ev.take(i as int));
                }
                Some(&self.entries[i].1)
            },
        }
    }

    /// Announces template `id` of observation domain `domain`, replacing any earlier one.
    pub fn insert(&mut self, domain: u32, id: u16, fields: Vec<FieldSpecifier>)
        ensures
            final(self).templates() == old(self).templates().insert((domain, id), fields@),
    {
        let ghost ev = entries_view(self.entries@);
        let ghost fv = fields@;
        match self.find_last((domain, id)) {
            Some(i) => {
                proof {
                    assert forall|j: int| i < j < ev.len() implies ev[j].0 != ev[i as int].0 by {
                        assert(ev[j].0 == self.entries@[j].0);
                    }
                    lemma_map_of_update_last(ev, i as int, fv);
                }
                self.entries.set(i, ((domain, id), fields));
                proof {
                    assert(entries_view(self.entries@) =~= ev.update(i as int, ((domain, id), fv)));
                }
            },
            None => {
                self.entries.push(((domain, id), fields));
                proof {
                    assert(entries_view(self.entries@).drop_last() =~= ev);
                }
            },
        }
    }

    /// Decodes the set that starts at `pos` and ends by `end`, in observation
    /// domain `domain`: a data set is read through its announced template, and
    /// the records of a template set are announced for later sets.
    pub fn decode_set(&mut self, domain: u32, b: &[u8], pos: usize, end: usize) -> (r: Result<
        (IpfixSet, usize),
        SetParsingError,
    >)
        requires
            pos <= end <= b@.len(),
        ensures
            ({
                let s = b@.subrange(pos as int, end as int);
                let expected = parse_set(s, lookup_template(old(self).templates(), domain, s));
                &&& expected == (match r {
                    Ok((x, n)) => Ok((x@, n as nat)),
                    Err(e) => Err(e),
                })
                &&& final(self).templates() == templates_after_set(
                    old(self).templates(),
                    domain,
                    expected,
                )
            }),
    {
        let ghost s = b@.subrange(pos as int, end as int);
        let fields = if end - pos >= 2 {
            let id = read_be(b, pos, 2);
            proof {
                lemma_pow256_facts();
                lemma_be_value_bound(b@.subrange(pos as int, pos + 2));
                assert(s.subrange(0, 2) =~= b@.subrange(pos as int, pos + 2));
            }
            self.get(domain, id as u16)
        } else {
            None
        };
        let r = IpfixSet::from_wire(b, pos, end, fields);
        if let Ok((set, _)) = &r {
            if let SetPayload::Template(ts) = &set.payload {
                let ghost m0 = self.templates();
                let ghost tv = templates_view(ts@);
                let mut i: usize = 0;
                while i < ts.len()
                    invariant
                        i <= ts@.len(),
                        tv == templates_view(ts@),
                        self.templates() == store_after(m0, domain, tv.take(i as int)),
                    decreases ts@.len() - i,
                {
                    proof {
                        assert(tv.take(i + 1).drop_last() =~= tv.take(i as int));
                        assert(tv.take(i + 1).last() == ts@[i as int]@);
                    }
                    self.insert(domain, ts[i].id, copy_fields(&ts[i].fields));
                    i += 1;
                }
                assert(tv.take(i as int) =~= tv);
            }
        }
        r
    }
}

/// A data set that names a template never announced fails with
/// `FieldSpecifierIsNotDefined`; once a template record with that id is
/// announced in the same observation domain, the same set decodes into records
/// of one value per template field, in template order.
pub proof fn lemma_template_resolution(
    m: Map<(u32, u16), Seq<FieldSpecifier>>,
    domain: u32,
    s: Seq<u8>,
    t: TemplateView,
)
    requires
        s.len() >= 4,
        be_value(s.subrange(0, 2)) >= 256,
        be_value(s.subrange(0, 2)) < 0x1_0000,
        4 <= be_value(s.subrange(2, 4)) <= s.len(),
        t.0 == be_value(s.subrange(0, 2)) as u16,
    ensures
        !m.contains_key((domain, t.0)) ==> parse_set(s, lookup_template(m, domain, s)) == Err::<
            ((u16, SetPayloadView), nat),
            _,
        >(SetParsingError::FieldSpecifierIsNotDefined),
        ({
            let m2 = store_after(m, domain, seq![t]);
            let body = s.subrange(4, be_value(s.subrange(2, 4)) as int);
            &&& parse_set(s, lookup_template(m2, domain, s)) == Ok::<_, SetParsingError>(
                ((t.0, SetPayloadView::Data(flows_of(t.1, body))), be_value(s.subrange(2, 4))),
            )
            &&& forall|k: int|
                0 <= k < flows_of(t.1, body).len() ==> (#[trigger] flows_of(t.1, body)[k]).len()
                    == t.1.len()
        }),
{
    let m2 = store_after(m, domain, seq![t]);
    assert(seq![t].drop_last() =~= Seq::<TemplateView>::empty());
    assert(store_after(m, domain, Seq::<TemplateView>::empty()) == m);
    assert(m2 == m.insert((domain, t.0), t.1));
}

/// A message header: export time in seconds, sequence number and observation domain.
#[derive(Clone, Copy, Debug, PartialEq, Eq, Structural)]
pub struct IpfixHeader {
    pub export_time: u32,
    pub sequence_number: u32,
    pub observation_domain_id: u32,
}

/// The header at the start of `s` and the message length it declares.
pub open spec fn parse_header(s: Seq<u8>) -> Result<(IpfixHeader, u16), IpfixHeaderParsingError> {
    if s.len() < 2 {
        Err(IpfixHeaderParsingError::Truncated)
    } else if be_value(s.subrange(0, 2)) != IPFIX_VERSION as nat {
        Err(IpfixHeaderParsingError::UnsupportedVersion(be_value(s.subrange(0, 2)) as u16))
    } else if s.len() < 4 {
        Err(IpfixHeaderParsingError::Truncated)
    } else if be_value(s.subrange(2, 4)) < IPFIX_HEADER_LENGTH as nat {
        Err(IpfixHeaderParsingError::InvalidLength(be_value(s.subrange(2, 4)) as u16))
    } else if s.len() < 16 {
        Err(IpfixHeaderParsingError::Truncated)
    } else {
        Ok(
            (
                IpfixHeader {
                    export_time: be_value(s.subrange(4, 8)) as u32,
                    sequence_number: be_value(s.subrange(8, 12)) as u32,
                    observation_domain_id: be_value(s.subrange(12, 16)) as u32,
                },
                be_value(s.subrange(2, 4)) as u16,
            ),
        )
    }
}

impl IpfixHeader {
    /// Decodes the header at the start of `b`, with the message length it declares.
    pub fn from_wire(b: &[u8]) -> (r: Result<(IpfixHeader, u16), IpfixHeaderParsingError>)
        ensures
            r == parse_header(b@),
    {
        let n = b.len();
        if n < 2 {
            return Err(IpfixHeaderParsingError::Truncated);
        }
        let version = read_be(b, 0, 2);
        proof {
            lemma_pow256_facts();
            lemma_be_value_bound(b@.subrange(0, 2));
        }
        if version != IPFIX_VERSION as u128 {
            return Err(IpfixHeaderParsingError::UnsupportedVersion(version as u16));
        }
        if n < 4 {
            return Err(IpfixHeaderParsingError::Truncated);
        }
        let length = read_be(b, 2, 2);
        proof {
            lemma_be_value_bound(b@.subrange(2, 4));
        }
        if length < IPFIX_HEADER_LENGTH as u128 {
            return Err(IpfixHeaderParsingError::InvalidLength(length as u16));
        }
        if n < 16 {
            return Err(IpfixHeaderParsingError::Truncated);
        }
        let export_time = read_be(b, 4, 4);
        let sequence_number = read_be(b, 8, 4);
        let observation_domain_id = read_be(b, 12, 4);
        proof {
            lemma_be_value_bound(b@.subrange(4, 8));
            lemma_be_value_bound(b@.subrange(8, 12));
            lemma_be_value_bound(b@.subrange(12, 16));
        }
        Ok(
            (
                IpfixHeader {
                    export_time: export_time as u32,
                    sequence_number: sequence_number as u32,
                    observation_domain_id: observation_domain_id as u32,
                },
                length as u16,
            ),
        )
    }
}

/// A set seen as its id and payload.
pub type SetView = (u16, SetPayloadView);

/// The sets that fill `s`, read in observation domain `domain` from the
/// templates `m` on, and the templates after them; on an error, the templates
/// that the sets before it announced.
pub open spec fn decode_sets(m: Map<(u32, u16), Seq<FieldSpecifier>>, domain: u32, s: Seq<u8>) -> (
    Result<Seq<SetView>, SetParsingError>,
    Map<(u32, u16), Seq<FieldSpecifier>>,
)
    decreases s.len(),
{
    if s.len() == 0 {
        (Ok(Seq::empty()), m)
    } else {
        let r = parse_set(s, lookup_template(m, domain, s));
        match r {
            Err(e) => (Err(e), m),
            Ok((x, n)) => if 0 < n && n <= s.len() {
                let (rest, m2) = decode_sets(templates_after_set(m, domain, r), domain, s.skip(n as int));
                (
                    match rest {
                        Ok(l) => Ok(seq![x] + l),
                        Err(e) => Err(e),
                    },
                    m2,
                )
            } else {
                (Err(SetParsingError::Truncated), m)
            },
        }
    }
}

/// A whole message: its header and its sets, read from the templates `m` on,
/// and the templates after it.
pub open spec fn decode_message(m: Map<(u32, u16), Seq<FieldSpecifier>>, s: Seq<u8>) -> (
    Result<(IpfixHeader, Seq<SetView>), IpfixMessageParsingError>,
    Map<(u32, u16), Seq<FieldSpecifier>>,
) {
    match parse_header(s) {
        Err(e) => (Err(IpfixMessageParsingError::HeaderError(e)), m),
        Ok((h, length)) => if s.len() < length {
            (Err(IpfixMessageParsingError::Truncated), m)
        } else {
            let (r, m2) = decode_sets(m, h.observation_domain_id, s.subrange(16, length as int));
            (
                match r {
                    Ok(l) => Ok((h, l)),
                    Err(e) => Err(IpfixMessageParsingError::SetError(e)),
                },
                m2,
            )
        },
    }
}

/// The views of a sequence of sets.
pub open spec fn sets_view(l: Seq<IpfixSet>) -> Seq<SetView> {
    l.map_values(|x: IpfixSet| x@)
}

impl TemplateStore {
    /// Decodes a whole flow export message: its header, then its sets in order,
    /// each data set read through the templates that the message's observation
    /// domain announced before it.
    pub fn decode_message(&mut self, b: &[u8]) -> (r: Result<
        (IpfixHeader, Vec<IpfixSet>),
        IpfixMessageParsingError,
    >)
        ensures
            ({
                let (expected, m2) = decode_message(old(self).templates(), b@);
                &&& expected == (match r {
                    Ok((h, l)) => Ok((h, sets_view(l@))),
                    Err(e) => Err(e),
                })
                &&& final(self).templates() == m2
            }),
    {
        let (header, length) = match IpfixHeader::from_wire(b) {
            Err(e) => return Err(IpfixMessageParsingError::HeaderError(e)),
            Ok(x) => x,
        };
        let end = length as usize;
        proof {
            lemma_pow256_facts();
            lemma_be_value_bound(b@.subrange(2, 4));
        }
        if b.len() < end {
            return Err(IpfixMessageParsingError::Truncated);
        }
        let domain = header.observation_domain_id;
        let ghost m0 = self.templates();
        let ghost full = b@.subrange(16, end as int);
        let mut sets: Vec<IpfixSet> = Vec::new();
        let mut p: usize = 16;
        while p < end
            invariant
                16 <= p <= end <= b@.len(),
                full == b@.subrange(16, end as int),
                parse_header(b@) == Ok::<_, IpfixHeaderParsingError>((header, length)),
                end == length as nat,
                domain == header.observation_domain_id,
                m0 == old(self).templates(),
                decode_sets(m0, domain, full) == ({
                    let (r, m2) = decode_sets(self.templates(), domain, b@.subrange(p as int, end as int));
                    (
                        match r {
                            Ok(l) => Ok(sets_view(sets@) + l),
                            Err(e) => Err(e),
                        },
                        m2,
                    )
                }),
            decreases end - p,
        {
            let ghost s = b@.subrange(p as int, end as int);
            let ghost before = self.templates();
            match self.decode_set(domain, b, p, end) {
                Err(e) => {
                    proof {
                        assert(s.len() > 0);
                        assert(decode_sets(before, domain, s) == (
                            Err::<Seq<SetView>, _>(e),
                            before,
                        ));
                        assert(self.templates() == before);
                        assert(decode_sets(m0, domain, full).0 == Err::<Seq<SetView>, _>(e));
                        assert(decode_sets(m0, domain, full).1 == before);
                        assert(parse_header(b@) == Ok::<_, IpfixHeaderParsingError>((header, length)));
                        assert(full == b@.subrange(16, length as int));
                        assert(decode_message(m0, b@).0 == Err::<(IpfixHeader, Seq<SetView>), _>(
                            IpfixMessageParsingError::SetError(e),
                        ));
                    }
                    return Err(IpfixMessageParsingError::SetError(e));
                },
                Ok((set, n)) => {
                    if n == 0 {
                        proof {
                            assert(false);
                        }
                        return Err(IpfixMessageParsingError::SetError(SetParsingError::Truncated));
                    }
                    proof {
                        assert(s.skip(n as int) =~= b@.subrange(p + n, end as int));
                        assert(sets_view(sets@.push(set)) =~= sets_view(sets@) + seq![set@]);
                        let (rr, mm) = decode_sets(self.templates(), domain, b@.subrange(p + n, end as int));
                        match rr {
                            Ok(l) => {
                                assert(sets_view(sets@) + (seq![set@] + l) =~= sets_view(
                                    sets@.push(set),
                                ) + l);
                            },
                            Err(_) => {},
                        }
                    }
                    sets.push(set);
                    p = p + n;
                },
            }
        }
        proof {
            assert(b@.subrange(p as int, end as int) =~= Seq::<u8>::empty());
            assert(sets_view(sets@) + Seq::<SetView>::empty() =~= sets_view(sets@));
        }
        Ok((header, sets))
    }
}

} // verus!
