use vstd::prelude::*;
use vstd::string::StringSliceAdditionalSpecFns;
use vstd::utf8::encode_utf8;

use crate::class::Class;
use crate::ip::{groups_bytes, v4_of, v6_groups, V4Address, V6Address};
use crate::name::labels_view;
use crate::resource::{Resource, ResourceData, ResourceDataView, ResourceView};
use crate::rrtype::RRType;

verus! {

/// One record as the record store holds it: type, address text, ttl and
/// class, by name.
pub struct DNSRecord {
    pub ty: String,
    pub data: String,
    pub ttl: u32,
    pub class: String,
}

/// One row of a record-store view: the document id, the key it was found
/// under (the labels of a name) and the record.
pub struct CouchRow {
    pub id: String,
    pub key: Vec<String>,
    pub value: DNSRecord,
}

/// The answer of a record-store view lookup.
pub struct CouchResult {
    pub total_rows: u64,
    pub offset: u64,
    pub rows: Vec<CouchRow>,
}

/// What a row holds, as characters.
pub struct RowView {
    pub key: Seq<Seq<char>>,
    pub ty: Seq<char>,
    pub data: Seq<char>,
    pub ttl: u32,
    pub class: Seq<char>,
}

impl View for CouchRow {
    type V = RowView;

    open spec fn view(&self) -> RowView {
        RowView {
            key: labels_view(self.key@),
            ty: self.value.ty@,
            data: self.value.data@,
            ttl: self.value.ttl,
            class: self.value.class@,
        }
    }
}

/// Why record-store rows could not be turned into answers.
#[derive(Clone, Copy, Debug, PartialEq, Eq, Structural)]
pub enum LookupError {
    /// A row's type is neither `A` nor `AAAA`.
    InvalidType,
    /// A row's class is none of `IN`, `CS`, `CH`, `HS`.
    InvalidClass,
    /// A row's data is not an address of its type.
    InvalidAddress,
}

/// The record type a row names.
pub open spec fn type_named(ty: Seq<char>) -> Option<RRType> {
    let b = encode_utf8(ty);
    if b == seq![65u8] {
        Some(RRType::A)
    } else if b == seq![65u8, 65u8, 65u8, 65u8] {
        Some(RRType::AAAA)
    } else {
        None
    }
}

/// The class a row names; `CS` has no named class and stays a bare code.
pub open spec fn class_named(c: Seq<char>) -> Option<Class> {
    let b = encode_utf8(c);
    if b == seq![73u8, 78u8] {
        Some(Class::IN)
    } else if b == seq![67u8, 83u8] {
        Some(Class::Unassigned(2))
    } else if b == seq![67u8, 72u8] {
        Some(Class::CH)
    } else if b == seq![72u8, 83u8] {
        Some(Class::HS)
    } else {
        None
    }
}

/// The record data for an address of the given type written as text.
pub open spec fn address_data(t: RRType, text: Seq<char>) -> Option<ResourceDataView> {
    if t == RRType::A {
        match v4_of(encode_utf8(text)) {
            Some(b) => Some(ResourceDataView::A(b[0], b[1], b[2], b[3])),
            None => None,
        }
    } else {
        match v6_groups(encode_utf8(text)) {
            Some(g) => Some(ResourceDataView::Raw(groups_bytes(g))),
            None => None,
        }
    }
}

/// The answer a row gives to a question of type `qtype`: none when its type
/// does not match (the wildcard matches every type). A row with an unknown
/// type fails whether it matches or not.
pub open spec fn row_answer(qtype: RRType, row: RowView) -> Result<Option<ResourceView>, LookupError> {
    match type_named(row.ty) {
        None => Err(LookupError::InvalidType),
        Some(t) => if t != qtype && qtype != RRType::Wildcard {
            Ok(None)
        } else {
            match class_named(row.class) {
                None => Err(LookupError::InvalidClass),
                Some(c) => match address_data(t, row.data) {
                    None => Err(LookupError::InvalidAddress),
                    Some(d) => Ok(
                        Some(
                            ResourceView {
                                name: row.key,
                                rrtype: t,
                                class: c,
                                ttl: row.ttl,
                                rlength: if t == RRType::A {
                                    4
                                } else {
                                    16
                                },
                                rdata: d,
                            },
                        ),
                    ),
                },
            }
        },
    }
}

/// The answers the rows give, in row order; the first failing row decides
/// the error.
pub open spec fn rows_answers(qtype: RRType, rows: Seq<RowView>) -> Result<
    Seq<ResourceView>,
    LookupError,
>
    decreases rows.len(),
{
    if rows.len() == 0 {
        Ok(seq![])
    } else {
        match rows_answers(qtype, rows.drop_last()) {
            Err(e) => Err(e),
            Ok(s) => match row_answer(qtype, rows.last()) {
                Err(e) => Err(e),
                Ok(None) => Ok(s),
                Ok(Some(r)) => Ok(s.push(r)),
            },
        }
    }
}

fn parse_type(ty: &String) -> (r: Option<RRType>)
    ensures
        r == type_named(ty@),
{
    let b = ty.as_str().as_bytes();
    if b.len() == 1 && b[0] == 65 {
        assert(b@ =~= seq![65u8]);
        Some(RRType::A)
    } else if b.len() == 4 && b[0] == 65 && b[1] == 65 && b[2] == 65 && b[3] == 65 {
        assert(b@ =~= seq![65u8, 65u8, 65u8, 65u8]);
        Some(RRType::AAAA)
    } else {
        None
    }
}

fn parse_class(c: &String) -> (r: Option<Class>)
    ensures
        r == class_named(c@),
{
    let b = c.as_str().as_bytes();
    if b.len() != 2 {
        return None;
    }
    if b[0] == 73 && b[1] == 78 {
        assert(b@ =~= seq![73u8, 78u8]);
        Some(Class::IN)
    } else if b[0] == 67 && b[1] == 83 {
        assert(b@ =~= seq![67u8, 83u8]);
        Some(Class::Unassigned(2))
    } else if b[0] == 67 && b[1] == 72 {
        assert(b@ =~= seq![67u8, 72u8]);
        Some(Class::CH)
    } else if b[0] == 72 && b[1] == 83 {
        assert(b@ =~= seq![72u8, 83u8]);
        Some(Class::HS)
    } else {
        None
    }
}

/// A copy of a name, label by label.
pub fn copy_name(name: &Vec<String>) -> (r: Vec<String>)
    ensures
        labels_view(r@) == labels_view(name@),
{
    let mut r: Vec<String> = Vec::new();
    let mut i: usize = 0;
    while i < name.len()
        invariant
            i <= name.len(),
            labels_view(r@) == labels_view(name@.subrange(0, i as int)),
        decreases name.len() - i,
    {
        let ghost before = r@;
        let label = name[i].clone();
        r.push(label);
        assert(name@.subrange(0, i + 1) =~= name@.subrange(0, i as int).push(name@[i as int]));
        assert(labels_view(r@) =~= labels_view(before).push(label@));
        assert(labels_view(r@) =~= labels_view(name@.subrange(0, i + 1)));
        i = i + 1;
    }
    assert(name@.subrange(0, name@.len() as int) =~= name@);
    r
}

/// The answer one row gives to a question of type `qtype`.
pub fn answer_for_row(qtype: RRType, row: &CouchRow) -> (r: Result<Option<Resource>, LookupError>)
    ensures
        match row_answer(qtype, row@) {
            Ok(Some(v)) => r matches Ok(Some(x)) && x@ == v,
            Ok(None) => r matches Ok(None),
            Err(e) => r == Err::<Option<Resource>, LookupError>(e),
        },
{
    let t = match parse_type(&row.value.ty) {
        Some(t) => t,
        None => {
            return Err(LookupError::InvalidType);
        },
    };
    if t != qtype && qtype != RRType::Wildcard {
        return Ok(None);
    }
    let class = match parse_class(&row.value.class) {
        Some(c) => c,
        None => {
            return Err(LookupError::InvalidClass);
        },
    };
    let (rdata, rlength) = if t == RRType::A {
        match V4Address::from_str(row.value.data.as_str()) {
            Some(a) => {
                let v = a.to_vec();
                (ResourceData::A(v[0], v[1], v[2], v[3]), 4u16)
            },
            None => {
                return Err(LookupError::InvalidAddress);
            },
        }
    } else {
        match V6Address::from_str(row.value.data.as_str()) {
            Some(a) => (ResourceData::Raw(a.to_vec()), 16u16),
            None => {
                return Err(LookupError::InvalidAddress);
            },
        }
    };
    let name = copy_name(&row.key);
    Ok(Some(Resource { name, rrtype: t, class, ttl: row.value.ttl, rlength, rdata }))
}

/// The answers the rows give to a question of type `qtype`, in row order.
pub fn answers_for(qtype: RRType, rows: &Vec<CouchRow>) -> (r: Result<Vec<Resource>, LookupError>)
    ensures
        match rows_answers(qtype, rows@.map_values(|x: CouchRow| x@)) {
            Ok(s) => r matches Ok(v) && v@.map_values(|x: Resource| x@) == s,
            Err(e) => r == Err::<Vec<Resource>, LookupError>(e),
        },
{
    let ghost rv = rows@.map_values(|x: CouchRow| x@);
    let mut out: Vec<Resource> = Vec::new();
    let mut i: usize = 0;
    assert(rv.subrange(0, 0) =~= seq![]);
    assert(out@.map_values(|x: Resource| x@) =~= seq![]);
    while i < rows.len()
        invariant
            rv == rows@.map_values(|x: CouchRow| x@),
            i <= rows.len(),
            rows_answers(qtype, rv.subrange(0, i as int)) == Ok::<_, LookupError>(
                out@.map_values(|x: Resource| x@),
            ),
        decreases rows.len() - i,
    {
        assert(rv.subrange(0, i + 1).drop_last() =~= rv.subrange(0, i as int));
        assert(rv.subrange(0, i + 1).last() == rows@[i as int]@);
        let ghost before = out@.map_values(|x: Resource| x@);
        match answer_for_row(qtype, &rows[i]) {
            Ok(Some(x)) => {
                out.push(x);
                assert(out@.map_values(|x: Resource| x@) =~= before.push(x@));
            },
            Ok(None) => {},
            Err(e) => {
                proof {
                    lemma_rows_answers_err(qtype, rv, i + 1);
                }
                return Err(e);
            },
        }
        i = i + 1;
    }
    assert(rv.subrange(0, rv.len() as int) =~= rv);
    Ok(out)
}

proof fn lemma_rows_answers_err(qtype: RRType, rows: Seq<RowView>, k: int)
    requires
        0 <= k <= rows.len(),
        rows_answers(qtype, rows.subrange(0, k)) is Err,
    ensures
        rows_answers(qtype, rows) == rows_answers(qtype, rows.subrange(0, k)),
    decreases rows.len() - k,
{
    if k < rows.len() {
        assert(rows.subrange(0, k + 1).drop_last() =~= rows.subrange(0, k));
        lemma_rows_answers_err(qtype, rows, k + 1);
    } else {
        assert(rows.subrange(0, k) =~= rows);
    }
}

/// An upper-case hexadecimal digit, as a byte.
pub open spec fn hex_upper(v: u8) -> u8 {
    if v < 10 {
        (v + 48) as u8
    } else {
        (v + 55) as u8
    }
}

/// A byte escaped for a JSON string: quote and backslash behind a backslash,
/// control bytes as `\u00XX`, every other byte as it is.
pub open spec fn json_escaped_byte(b: u8) -> Seq<u8> {
    if b == 34 {
        seq![92u8, 34u8]
    } else if b == 92 {
        seq![92u8, 92u8]
    } else if b < 32 {
        seq![92u8, 117u8, 48u8, 48u8, hex_upper(b / 16), hex_upper(b % 16)]
    } else {
        seq![b]
    }
}

/// Bytes escaped for a JSON string.
pub open spec fn json_escaped(b: Seq<u8>) -> Seq<u8>
    decreases b.len(),
{
    if b.len() == 0 {
        seq![]
    } else {
        json_escaped(b.drop_last()) + json_escaped_byte(b.last())
    }
}

/// A label as a JSON string.
pub open spec fn json_string(label: Seq<char>) -> Seq<u8> {
    seq![34u8] + json_escaped(encode_utf8(label)) + seq![34u8]
}

/// The labels as JSON strings separated by commas.
pub open spec fn json_items(name: Seq<Seq<char>>) -> Seq<u8>
    decreases name.len(),
{
    if name.len() == 0 {
        seq![]
    } else if name.len() == 1 {
        json_string(name[0])
    } else {
        json_items(name.drop_last()) + seq![44u8] + json_string(name.last())
    }
}

/// The record-store key of a name: the JSON array of its labels.
pub open spec fn key_json(name: Seq<Seq<char>>) -> Seq<u8> {
    seq![91u8] + json_items(name) + seq![93u8]
}

/// Whether form encoding keeps a byte as it is.
pub open spec fn form_unchanged(b: u8) -> bool {
    b == 42 || b == 45 || b == 46 || (48 <= b <= 57) || (65 <= b <= 90) || b == 95 || (97 <= b
        <= 122)
}

/// One byte in `application/x-www-form-urlencoded` form.
pub open spec fn form_byte(b: u8) -> Seq<char> {
    if form_unchanged(b) {
        seq![b as char]
    } else if b == 32 {
        seq!['+']
    } else {
        seq!['%', hex_upper(b / 16) as char, hex_upper(b % 16) as char]
    }
}

/// Bytes in `application/x-www-form-urlencoded` form.
pub open spec fn form_encoded(b: Seq<u8>) -> Seq<char>
    decreases b.len(),
{
    if b.len() == 0 {
        seq![]
    } else {
        form_encoded(b.drop_last()) + form_byte(b.last())
    }
}

/// Relies on `url::form_urlencoded::byte_serialize`: it keeps `*`, `-`, `.`,
/// `_`, digits and ASCII letters, writes a space as `+` and every other byte
/// as `%` and two upper-case hexadecimal digits, byte by byte.
#[verifier::external_body]
fn form_encode(b: &[u8]) -> (r: String)
    ensures
        r@ == form_encoded(b@),
{
    url::form_urlencoded::byte_serialize(b).collect()
}

fn push_json_escaped(w: &mut Vec<u8>, b: &[u8])
    ensures
        final(w)@ == old(w)@ + json_escaped(b@),
{
    let ghost start = w@;
    let mut i: usize = 0;
    assert(b@.subrange(0, 0) =~= seq![]);
    assert(start + seq![] =~= start);
    while i < b.len()
        invariant
            start == old(w)@,
            i <= b.len(),
            w@ == start + json_escaped(b@.subrange(0, i as int)),
        decreases b.len() - i,
    {
        assert(b@.subrange(0, i + 1).drop_last() =~= b@.subrange(0, i as int));
        let ghost before = w@;
        let c = b[i];
        if c == 34 {
            w.push(92u8);
            w.push(34u8);
        } else if c == 92 {
            w.push(92u8);
            w.push(92u8);
        } else if c < 32 {
            w.push(92u8);
            w.push(117u8);
            w.push(48u8);
            w.push(48u8);
            w.push(if c / 16 < 10 { c / 16 + 48 } else { c / 16 + 55 });
            w.push(if c % 16 < 10 { c % 16 + 48 } else { c % 16 + 55 });
        } else {
            w.push(c);
        }
        assert(w@ =~= before + json_escaped_byte(c));
        assert(w@ =~= start + json_escaped(b@.subrange(0, i + 1)));
        i = i + 1;
    }
    assert(b@.subrange(0, b@.len() as int) =~= b@);
}

/// The key under which the record store files a name, ready for a query
/// string: the JSON array of the labels, form-encoded.
pub fn lookup_key(name: &Vec<String>) -> (r: String)
    ensures
        r@ == form_encoded(key_json(labels_view(name@))),
{
    let ghost v = labels_view(name@);
    let mut w: Vec<u8> = Vec::new();
    w.push(91u8);
    let mut i: usize = 0;
    assert(v.subrange(0, 0) =~= seq![]);
    assert(w@ =~= seq![91u8] + json_items(v.subrange(0, 0)));
    while i < name.len()
        invariant
            v == labels_view(name@),
            i <= name.len(),
            w@ == seq![91u8] + json_items(v.subrange(0, i as int)),
        decreases name.len() - i,
    {
        let ghost before = w@;
        let ghost sub = v.subrange(0, i + 1);
        assert(sub.drop_last() =~= v.subrange(0, i as int));
        assert(sub.last() == name@[i as int]@);
        if i > 0 {
            w.push(44u8);
        }
        w.push(34u8);
        push_json_escaped(&mut w, name[i].as_str().as_bytes());
        w.push(34u8);
        proof {
            if i == 0 {
                assert(w@ =~= seq![91u8] + json_items(sub));
            } else {
                assert(w@ =~= seq![91u8] + json_items(sub));
            }
        }
        i = i + 1;
    }
    w.push(93u8);
    assert(v.subrange(0, v.len() as int) =~= v);
    assert(w@ =~= key_json(v));
    form_encode(w.as_slice())
}

} // verus!
