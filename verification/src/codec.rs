//! The record codec: a deterministic, self-delimiting binary layout for one
//! service record, with an enforced maximum encoded size.
//!
//! Layout, all integers little-endian: the 8-byte id, the 8-byte creation
//! timestamp, a one-byte tag for the update timestamp (0 = absent, 1 =
//! present, followed by its 8 bytes), then the four text fields in order,
//! each as a 2-byte byte-length prefix followed by its UTF-8 bytes.

use crate::bytes::{
    lemma_u16_le_round, lemma_u16_of_le_round, lemma_u64_le_round, lemma_u64_of_le_round,
    push_u64_le, read_u64_le, u16_le, u16_of_le, u64_le, u64_of_le,
};
use crate::MAX_RECORD_BYTES;
use vstd::prelude::*;
use vstd::slice::{slice_subrange, slice_to_vec};
use vstd::utf8::{
    decode_utf8, decode_utf8_encode_utf8, encode_utf8, encode_utf8_decode_utf8,
    encode_utf8_valid_utf8, valid_utf8,
};

verus! {

/// A persisted service record.
#[derive(Debug, Clone, PartialEq, Eq)]
pub struct Service {
    pub id: u64,
    pub customer_name: String,
    pub device_model: String,
    pub issue_description: String,
    pub status: String,
    pub created_at: u64,
    pub updated_at: Option<u64>,
}

/// Caller-supplied input carrying only the mutable fields of a record.
#[derive(Debug, Clone, PartialEq, Eq)]
pub struct ServicePayload {
    pub customer_name: String,
    pub device_model: String,
    pub issue_description: String,
    pub status: String,
}

/// The mathematical value of a `Service`.
pub ghost struct ServiceData {
    pub id: u64,
    pub customer_name: Seq<char>,
    pub device_model: Seq<char>,
    pub issue_description: Seq<char>,
    pub status: Seq<char>,
    pub created_at: u64,
    pub updated_at: Option<u64>,
}

/// The mathematical value of a `ServicePayload`.
pub ghost struct PayloadData {
    pub customer_name: Seq<char>,
    pub device_model: Seq<char>,
    pub issue_description: Seq<char>,
    pub status: Seq<char>,
}

impl View for Service {
    type V = ServiceData;

    open spec fn view(&self) -> ServiceData {
        ServiceData {
            id: self.id,
            customer_name: self.customer_name@,
            device_model: self.device_model@,
            issue_description: self.issue_description@,
            status: self.status@,
            created_at: self.created_at,
            updated_at: self.updated_at,
        }
    }
}

impl View for ServicePayload {
    type V = PayloadData;

    open spec fn view(&self) -> PayloadData {
        PayloadData {
            customer_name: self.customer_name@,
            device_model: self.device_model@,
            issue_description: self.issue_description@,
            status: self.status@,
        }
    }
}

/// Rejects a record whose encoded form would exceed the size bound.
#[derive(Debug, Clone, PartialEq, Eq)]
pub struct SizeViolation {}

/// One text field: a 2-byte length prefix, then the field's UTF-8 bytes.
pub open spec fn str_block(s: Seq<char>) -> Seq<u8> {
    u16_le(encode_utf8(s).len() as u16) + encode_utf8(s)
}

/// The update-timestamp tag: 0 when absent, 1 and the 8 bytes when present.
pub open spec fn stamp_block(u: Option<u64>) -> Seq<u8> {
    match u {
        None => seq![0u8],
        Some(t) => seq![1u8] + u64_le(t),
    }
}

/// The four text-field blocks of one record, in their fixed order.
pub open spec fn field_blocks(d: ServiceData) -> Seq<u8> {
    str_block(d.customer_name) + (str_block(d.device_model) + (str_block(d.issue_description)
        + str_block(d.status)))
}

/// The full encoded form of one record.
pub open spec fn encoded(d: ServiceData) -> Seq<u8> {
    u64_le(d.id) + (u64_le(d.created_at) + (stamp_block(d.updated_at) + field_blocks(d)))
}

/// Whether a record's encoded form stays within the size bound.
pub open spec fn fits(d: ServiceData) -> bool {
    encoded(d).len() <= MAX_RECORD_BYTES
}

/// The bytes the four text fields of a payload contribute to a record's
/// encoded form: four 2-byte prefixes plus the fields' UTF-8 bytes.
pub open spec fn payload_block_len(p: PayloadData) -> nat {
    8 + encode_utf8(p.customer_name).len() + encode_utf8(p.device_model).len() + encode_utf8(
        p.issue_description,
    ).len() + encode_utf8(p.status).len()
}

/// The record minted for `p` at creation: fresh id, creation time stamped in,
/// no update yet.
pub open spec fn created_record(p: PayloadData, id: u64, now: u64) -> ServiceData {
    ServiceData {
        id,
        customer_name: p.customer_name,
        device_model: p.device_model,
        issue_description: p.issue_description,
        status: p.status,
        created_at: now,
        updated_at: None,
    }
}

/// The record `prior` becomes when updated from `p` at time `now`: identity
/// and creation time kept, the four text fields replaced, update time set.
pub open spec fn updated_record(prior: ServiceData, p: PayloadData, now: u64) -> ServiceData {
    ServiceData {
        id: prior.id,
        customer_name: p.customer_name,
        device_model: p.device_model,
        issue_description: p.issue_description,
        status: p.status,
        created_at: prior.created_at,
        updated_at: Some(now),
    }
}

/// A freshly created record fits exactly when its payload's fields leave room
/// for the 17 fixed header bytes.
pub proof fn lemma_created_record_len(p: PayloadData, id: u64, now: u64)
    ensures
        encoded(created_record(p, id, now)).len() == 17 + payload_block_len(p),
{
}

/// An updated record fits exactly when its payload's fields leave room for
/// the 25 fixed header bytes (the update timestamp is always present).
pub proof fn lemma_updated_record_len(prior: ServiceData, p: PayloadData, now: u64)
    ensures
        encoded(updated_record(prior, p, now)).len() == 25 + payload_block_len(p),
{
}

/// The bytes the payload's text fields would occupy, or nothing when they
/// already overrun the record size bound on their own.
fn payload_block_bytes(p: &ServicePayload) -> (r: Option<u64>)
    ensures
        r matches Some(n) ==> n == payload_block_len(p@),
        r is None ==> payload_block_len(p@) > MAX_RECORD_BYTES,
{
    let a = p.customer_name.as_str().as_bytes_vec().len();
    let b = p.device_model.as_str().as_bytes_vec().len();
    let c = p.issue_description.as_str().as_bytes_vec().len();
    let d = p.status.as_str().as_bytes_vec().len();
    let bound = MAX_RECORD_BYTES as usize;
    if a > bound || b > bound || c > bound || d > bound {
        return None;
    }
    Some(8 + (a as u64) + (b as u64) + (c as u64) + (d as u64))
}

/// Whether a record created from this payload stays within the size bound:
/// its text fields must leave room for the 17 fixed header bytes.
pub fn payload_fits_create(p: &ServicePayload) -> (b: bool)
    ensures
        b == (17 + payload_block_len(p@) <= MAX_RECORD_BYTES),
{
    match payload_block_bytes(p) {
        None => false,
        Some(n) => n <= MAX_RECORD_BYTES - 17,
    }
}

/// Whether a record updated from this payload stays within the size bound:
/// its text fields must leave room for the 25 fixed header bytes, the update
/// timestamp included.
pub fn payload_fits_update(p: &ServicePayload) -> (b: bool)
    ensures
        b == (25 + payload_block_len(p@) <= MAX_RECORD_BYTES),
{
    match payload_block_bytes(p) {
        None => false,
        Some(n) => n <= MAX_RECORD_BYTES - 25,
    }
}

/// Relies on `String::from_utf8`: returns the string holding exactly the
/// given bytes when they are valid UTF-8, and refuses them otherwise.
#[verifier::external_body]
fn bytes_to_string(v: Vec<u8>) -> (r: Option<String>)
    ensures
        r is Some <==> valid_utf8(v@),
        r matches Some(s) ==> encode_utf8(s@) == v@ && s@ == decode_utf8(v@),
{
    match String::from_utf8(v) {
        Ok(s) => Some(s),
        Err(_) => None,
    }
}

/// Appends one text field's block: length prefix, then the bytes.
fn push_block(out: &mut Vec<u8>, field: &Vec<u8>)
    requires
        field@.len() <= 0xffff,
    ensures
        final(out)@ == old(out)@ + u16_le(field@.len() as u16) + field@,
{
    let n = field.len() as u16;
    out.push(#[verifier::truncate] (n as u8));
    out.push(#[verifier::truncate] ((n >> 8) as u8));
    let mut i: usize = 0;
    while i < field.len()
        invariant
            i <= field@.len(),
            field@.len() <= 0xffff,
            out@ == old(out)@ + u16_le(field@.len() as u16) + field@.subrange(0, i as int),
        decreases field@.len() - i,
    {
        out.push(field[i]);
        i = i + 1;
        assert(out@ =~= old(out)@ + u16_le(field@.len() as u16) + field@.subrange(0, i as int));
    }
    assert(final(out)@ =~= old(out)@ + u16_le(field@.len() as u16) + field@);
}

/// Encodes a record, or rejects it when its encoded form would exceed the
/// size bound; nothing over the bound is ever produced.
#[verifier::rlimit(100)]
pub fn encode(s: &Service) -> (r: Result<Vec<u8>, SizeViolation>)
    ensures
        r is Ok <==> fits(s@),
        r matches Ok(v) ==> v@ == encoded(s@),
{
    let cn = s.customer_name.as_str().as_bytes_vec();
    let dm = s.device_model.as_str().as_bytes_vec();
    let de = s.issue_description.as_str().as_bytes_vec();
    let st = s.status.as_str().as_bytes_vec();
    let bound = MAX_RECORD_BYTES as usize;
    if cn.len() > bound || dm.len() > bound || de.len() > bound || st.len() > bound {
        return Err(SizeViolation {});
    }
    let fixed: usize = match s.updated_at {
        None => 25,
        Some(_) => 33,
    };
    let total = fixed + cn.len() + dm.len() + de.len() + st.len();
    if total > bound {
        return Err(SizeViolation {});
    }
    let mut out: Vec<u8> = Vec::new();
    push_u64_le(&mut out, s.id);
    push_u64_le(&mut out, s.created_at);
    match s.updated_at {
        None => out.push(0),
        Some(t) => {
            out.push(1);
            push_u64_le(&mut out, t);
        },
    }
    push_block(&mut out, &cn);
    push_block(&mut out, &dm);
    push_block(&mut out, &de);
    push_block(&mut out, &st);
    assert(out@ =~= encoded(s@));
    Ok(out)
}

/// Reads one text field off the front of `b`: the length prefix, then that
/// many bytes, which must be valid UTF-8. Returns the field and the rest.
pub open spec fn parse_str(b: Seq<u8>) -> Option<(Seq<char>, Seq<u8>)> {
    if b.len() < 2 {
        None
    } else {
        let n = u16_of_le(b[0], b[1]) as int;
        if b.len() < 2 + n {
            None
        } else {
            let field = b.subrange(2, 2 + n);
            if valid_utf8(field) {
                Some((decode_utf8(field), b.skip(2 + n)))
            } else {
                None
            }
        }
    }
}

/// Reads the four text fields off `rest` and requires nothing to follow them.
pub open spec fn parse_tail(rest: Seq<u8>, id: u64, created: u64, updated: Option<u64>) -> Option<
    ServiceData,
> {
    match parse_str(rest) {
        None => None,
        Some((customer_name, r1)) => match parse_str(r1) {
            None => None,
            Some((device_model, r2)) => match parse_str(r2) {
                None => None,
                Some((issue_description, r3)) => match parse_str(r3) {
                    None => None,
                    Some((status, r4)) => if r4.len() == 0 {
                        Some(
                            ServiceData {
                                id,
                                customer_name,
                                device_model,
                                issue_description,
                                status,
                                created_at: created,
                                updated_at: updated,
                            },
                        )
                    } else {
                        None
                    },
                },
            },
        },
    }
}

/// The record a byte sequence holds, when it parses as one.
pub open spec fn decoded(b: Seq<u8>) -> Option<ServiceData> {
    if b.len() < 17 {
        None
    } else {
        let id = u64_of_le(b.subrange(0, 8));
        let created = u64_of_le(b.subrange(8, 16));
        if b[16] == 0u8 {
            parse_tail(b.skip(17), id, created, None)
        } else if b[16] == 1u8 {
            if b.len() < 25 {
                None
            } else {
                parse_tail(b.skip(25), id, created, Some(u64_of_le(b.subrange(17, 25))))
            }
        } else {
            None
        }
    }
}

/// A field block followed by anything parses back to the field and that rest.
pub proof fn lemma_parse_str_round(s: Seq<char>, rest: Seq<u8>)
    requires
        encode_utf8(s).len() <= 0xffff,
    ensures
        parse_str(str_block(s) + rest) == Some((s, rest)),
{
    let bytes = encode_utf8(s);
    let n = bytes.len() as u16;
    let b = str_block(s) + rest;
    lemma_u16_le_round(n);
    assert(b[0] == u16_le(n)[0] && b[1] == u16_le(n)[1]);
    assert(u16_of_le(b[0], b[1]) == n);
    assert(b.subrange(2, 2 + n as int) =~= bytes);
    encode_utf8_valid_utf8(s);
    encode_utf8_decode_utf8(s);
    assert(b.skip(2 + n as int) =~= rest);
}

/// Whatever parses as a field block is one: re-encoding the field and
/// prepending its length prefix restores the input exactly.
pub proof fn lemma_parse_str_exact(b: Seq<u8>)
    requires
        parse_str(b) is Some,
    ensures
        encode_utf8(parse_str(b).unwrap().0).len() <= 0xffff,
        str_block(parse_str(b).unwrap().0) + parse_str(b).unwrap().1 == b,
{
    let n = u16_of_le(b[0], b[1]) as int;
    let field = b.subrange(2, 2 + n);
    decode_utf8_encode_utf8(field);
    lemma_u16_of_le_round(b[0], b[1]);
    assert(str_block(parse_str(b).unwrap().0) + parse_str(b).unwrap().1 =~= b);
}

/// Within the size bound each text field is far shorter than its length
/// prefix can count.
pub proof fn lemma_fits_fields_short(d: ServiceData)
    requires
        fits(d),
    ensures
        encode_utf8(d.customer_name).len() <= 0xffff,
        encode_utf8(d.device_model).len() <= 0xffff,
        encode_utf8(d.issue_description).len() <= 0xffff,
        encode_utf8(d.status).len() <= 0xffff,
{
}

/// Decoding inverts encoding: every record within the size bound comes back
/// from its own bytes unchanged.
#[verifier::rlimit(100)]
pub proof fn lemma_encoded_round(d: ServiceData)
    requires
        fits(d),
    ensures
        decoded(encoded(d)) == Some(d),
{
    let b = encoded(d);
    let start: int = match d.updated_at {
        None => 17,
        Some(_) => 25,
    };
    lemma_u64_le_round(d.id);
    lemma_u64_le_round(d.created_at);
    assert(b.subrange(0, 8) =~= u64_le(d.id));
    assert(b.subrange(8, 16) =~= u64_le(d.created_at));
    lemma_fits_fields_short(d);
    match d.updated_at {
        None => {
            assert(b[16] == 0u8);
        },
        Some(t) => {
            assert(b[16] == 1u8);
            assert(b.subrange(17, 25) =~= u64_le(t));
            lemma_u64_le_round(t);
        },
    }
    assert(b.skip(start) =~= field_blocks(d));
    let after_cn = str_block(d.device_model) + (str_block(d.issue_description) + str_block(
        d.status,
    ));
    let after_dm = str_block(d.issue_description) + str_block(d.status);
    lemma_parse_str_round(d.customer_name, after_cn);
    lemma_parse_str_round(d.device_model, after_dm);
    lemma_parse_str_round(d.issue_description, str_block(d.status));
    lemma_parse_str_round(d.status, Seq::<u8>::empty());
    assert(str_block(d.status) + Seq::<u8>::empty() =~= str_block(d.status));
}

/// Encoding inverts decoding: any bytes that parse as a record are exactly
/// that record's encoding, so the stored form is canonical.
#[verifier::rlimit(100)]
pub proof fn lemma_decoded_canonical(b: Seq<u8>)
    requires
        decoded(b) is Some,
    ensures
        encoded(decoded(b).unwrap()) == b,
{
    let d = decoded(b).unwrap();
    let start: int = if b[16] == 0u8 {
        17
    } else {
        25
    };
    let tail = b.skip(start);
    lemma_u64_of_le_round(b.subrange(0, 8));
    lemma_u64_of_le_round(b.subrange(8, 16));
    assert(u64_le(d.id) == b.subrange(0, 8));
    assert(u64_le(d.created_at) == b.subrange(8, 16));
    if b[16] == 0u8 {
        assert(stamp_block(d.updated_at) =~= b.subrange(16, 17));
    } else {
        lemma_u64_of_le_round(b.subrange(17, 25));
        assert(stamp_block(d.updated_at) =~= b.subrange(16, 25));
    }
    lemma_parse_str_exact(tail);
    let (cn, r1) = parse_str(tail).unwrap();
    lemma_parse_str_exact(r1);
    let (dm, r2) = parse_str(r1).unwrap();
    lemma_parse_str_exact(r2);
    let (de, r3) = parse_str(r2).unwrap();
    lemma_parse_str_exact(r3);
    let (st, r4) = parse_str(r3).unwrap();
    assert(r4 =~= Seq::<u8>::empty());
    assert(str_block(st) + r4 =~= str_block(st));
    assert(field_blocks(d) == tail);
    assert(b =~= b.subrange(0, 8) + (b.subrange(8, 16) + (b.subrange(16, start) + b.skip(start))));
}

/// Reads one text field at `pos`, returning it and the position after it.
fn read_block(b: &Vec<u8>, pos: usize) -> (r: Option<(String, usize)>)
    requires
        pos <= b@.len(),
    ensures
        r is Some <==> parse_str(b@.skip(pos as int)) is Some,
        r matches Some((s, p2)) ==> pos < p2 <= b@.len() && parse_str(b@.skip(pos as int))
            == Some((s@, b@.skip(p2 as int))),
{
    let len = b.len();
    let ghost tail = b@.skip(pos as int);
    if len - pos < 2 {
        return None;
    }
    assert(tail[0] == b@[pos as int] && tail[1] == b@[pos + 1]);
    let n = (b[pos] as usize) | ((b[pos + 1] as usize) << 8);
    proof {
        let c0 = b@[pos as int];
        let c1 = b@[pos + 1];
        assert((c0 as usize) | ((c1 as usize) << 8) == (((c0 as u16) | ((c1 as u16) << 8))
            as usize)) by (bit_vector);
        assert(n == u16_of_le(c0, c1) as int);
    }
    if len - pos - 2 < n {
        return None;
    }
    let field = slice_to_vec(slice_subrange(b.as_slice(), pos + 2, pos + 2 + n));
    assert(field@ =~= tail.subrange(2, 2 + n as int));
    match bytes_to_string(field) {
        None => None,
        Some(s) => {
            assert(b@.skip(pos + 2 + n) =~= tail.skip(2 + n as int));
            Some((s, pos + 2 + n))
        },
    }
}

/// Decodes a record from its bytes; refuses anything that is not exactly the
/// encoding of one record.
pub fn decode(b: &Vec<u8>) -> (r: Option<Service>)
    ensures
        r is Some <==> decoded(b@) is Some,
        r matches Some(s) ==> decoded(b@) == Some(s@),
{
    let len = b.len();
    if len < 17 {
        return None;
    }
    let id = read_u64_le(b, 0);
    let created = read_u64_le(b, 8);
    let tag = b[16];
    let (updated, start): (Option<u64>, usize) = if tag == 0 {
        (None, 17)
    } else if tag == 1 {
        if len < 25 {
            return None;
        }
        (Some(read_u64_le(b, 17)), 25)
    } else {
        return None;
    };
    let ghost tail = b@.skip(start as int);
    let (customer_name, p1) = match read_block(b, start) {
        None => {
            return None;
        },
        Some(x) => x,
    };
    let (device_model, p2) = match read_block(b, p1) {
        None => {
            return None;
        },
        Some(x) => x,
    };
    let (issue_description, p3) = match read_block(b, p2) {
        None => {
            return None;
        },
        Some(x) => x,
    };
    let (status, p4) = match read_block(b, p3) {
        None => {
            return None;
        },
        Some(x) => x,
    };
    if p4 != len {
        return None;
    }
    assert(b@.skip(p4 as int).len() == 0);
    let s = Service { id, customer_name, device_model, issue_description, status, created_at: created, updated_at: updated };
    Some(s)
}

} // verus!
