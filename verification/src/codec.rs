use vstd::prelude::*;
use vstd::bytes::{spec_u64_from_le_bytes, spec_u64_to_le_bytes, u64_from_le_bytes, u64_to_le_bytes,
    lemma_auto_spec_u64_to_from_le_bytes};
use vstd::utf8::{decode_utf8, encode_utf8, valid_utf8};
use crate::VaultError;
use crate::records::{Attachment, AttachmentV, Project, ProjectV, Secret, SecretV};
use crate::store::{RecordStore, StoreV, view_attachments, view_projects, view_secrets};

verus! {

// ---------------------------------------------------------------------
// The byte layout of a portable record set. Every number is eight bytes,
// little endian; a byte string is its length followed by its bytes; a
// character string is the byte string of its UTF-8 encoding; an optional
// value is a tag byte, zero for absent and one for present, followed by
// the value where present. A record is its fields in order; a list is its
// length followed by its records.
// ---------------------------------------------------------------------

/// The encoding of one number.
pub open spec fn enc_u64(x: u64) -> Seq<u8> {
    spec_u64_to_le_bytes(x)
}

/// The encoding of one signed number: its two's-complement bits.
pub open spec fn enc_i64(x: i64) -> Seq<u8> {
    enc_u64(x as u64)
}

/// The encoding of a byte string.
pub open spec fn enc_bytes(b: Seq<u8>) -> Seq<u8> {
    enc_u64(b.len() as u64) + b
}

/// The encoding of a character string.
pub open spec fn enc_string(s: Seq<char>) -> Seq<u8> {
    enc_bytes(encode_utf8(s))
}

/// The encoding of an optional number.
pub open spec fn enc_opt_u64(o: Option<u64>) -> Seq<u8> {
    match o {
        None => seq![0u8],
        Some(v) => seq![1u8] + enc_u64(v),
    }
}

/// The encoding of an optional signed number.
pub open spec fn enc_opt_i64(o: Option<i64>) -> Seq<u8> {
    match o {
        None => seq![0u8],
        Some(v) => seq![1u8] + enc_i64(v),
    }
}

/// The encoding of one secret record: every field, in order.
pub open spec fn enc_secret(s: SecretV) -> Seq<u8> {
    enc_i64(s.id) + (enc_opt_i64(s.project_id) + (enc_string(s.title) + (enc_string(s.username) + (
    enc_string(s.password) + (enc_u64(s.created_at) + enc_opt_u64(s.deleted_at))))))
}

/// The encoding of a list of secret records, without its length.
pub open spec fn enc_secret_list(ss: Seq<SecretV>) -> Seq<u8>
    decreases ss.len(),
{
    if ss.len() == 0 {
        Seq::empty()
    } else {
        enc_secret(ss.first()) + enc_secret_list(ss.drop_first())
    }
}

/// The encoding of a whole record set: its length, then its records.
pub open spec fn enc_secrets(ss: Seq<SecretV>) -> Seq<u8> {
    enc_u64(ss.len() as u64) + enc_secret_list(ss)
}

/// A string short enough for its length prefix.
pub open spec fn str_encodable(s: Seq<char>) -> bool {
    encode_utf8(s).len() <= u64::MAX
}

/// A record whose fields are short enough for their length prefixes.
pub open spec fn secret_encodable(s: SecretV) -> bool {
    str_encodable(s.title) && str_encodable(s.username) && str_encodable(s.password)
}

/// A record set short enough for its length prefixes.
pub open spec fn secrets_encodable(ss: Seq<SecretV>) -> bool {
    &&& ss.len() <= u64::MAX
    &&& forall|i: int| 0 <= i < ss.len() ==> secret_encodable(#[trigger] ss[i])
}

// ---------------------------------------------------------------------
// The parser: each step consumes a prefix of the bytes and hands back the
// value and the rest, or nothing where the bytes do not carry one.
// ---------------------------------------------------------------------

/// Parse one number.
pub open spec fn dec_u64(b: Seq<u8>) -> Option<(u64, Seq<u8>)> {
    if b.len() >= 8 {
        Some((spec_u64_from_le_bytes(b.take(8)), b.skip(8)))
    } else {
        None
    }
}

/// Parse one signed number.
pub open spec fn dec_i64(b: Seq<u8>) -> Option<(i64, Seq<u8>)> {
    match dec_u64(b) {
        Some((v, r)) => Some((v as i64, r)),
        None => None,
    }
}

/// Parse one byte string.
pub open spec fn dec_bytes(b: Seq<u8>) -> Option<(Seq<u8>, Seq<u8>)> {
    match dec_u64(b) {
        Some((n, r)) => if r.len() >= n {
            Some((r.take(n as int), r.skip(n as int)))
        } else {
            None
        },
        None => None,
    }
}

/// Parse one character string.
pub open spec fn dec_string(b: Seq<u8>) -> Option<(Seq<char>, Seq<u8>)> {
    match dec_bytes(b) {
        Some((bs, r)) => if valid_utf8(bs) {
            Some((decode_utf8(bs), r))
        } else {
            None
        },
        None => None,
    }
}

/// Parse one optional number.
pub open spec fn dec_opt_u64(b: Seq<u8>) -> Option<(Option<u64>, Seq<u8>)> {
    if b.len() < 1 {
        None
    } else if b.first() == 0u8 {
        Some((None, b.skip(1)))
    } else if b.first() == 1u8 {
        match dec_u64(b.skip(1)) {
            Some((v, r)) => Some((Some(v), r)),
            None => None,
        }
    } else {
        None
    }
}

/// Parse one optional signed number.
pub open spec fn dec_opt_i64(b: Seq<u8>) -> Option<(Option<i64>, Seq<u8>)> {
    match dec_opt_u64(b) {
        Some((Some(v), r)) => Some((Some(v as i64), r)),
        Some((None, r)) => Some((None, r)),
        None => None,
    }
}

/// Parse one secret record.
pub open spec fn dec_secret(b: Seq<u8>) -> Option<(SecretV, Seq<u8>)> {
    match dec_i64(b) {
        Some((id, b1)) => match dec_opt_i64(b1) {
            Some((project_id, b2)) => match dec_string(b2) {
                Some((title, b3)) => match dec_string(b3) {
                    Some((username, b4)) => match dec_string(b4) {
                        Some((password, b5)) => match dec_u64(b5) {
                            Some((created_at, b6)) => match dec_opt_u64(b6) {
                                Some((deleted_at, b7)) => Some(
                                    (
                                        SecretV {
                                            id: id,
                                            project_id: project_id,
                                            title: title,
                                            username: username,
                                            password: password,
                                            created_at: created_at,
                                            deleted_at: deleted_at,
                                        },
                                        b7,
                                    ),
                                ),
                                None => None,
                            },
                            None => None,
                        },
                        None => None,
                    },
                    None => None,
                },
                None => None,
            },
            None => None,
        },
        None => None,
    }
}

/// Parse a list of `n` secret records.
pub open spec fn dec_secret_list(b: Seq<u8>, n: int) -> Option<(Seq<SecretV>, Seq<u8>)>
    decreases n,
{
    if n <= 0 {
        Some((Seq::empty(), b))
    } else {
        match dec_secret(b) {
            Some((v, r)) => match dec_secret_list(r, n - 1) {
                Some((l, r2)) => Some((seq![v] + l, r2)),
                None => None,
            },
            None => None,
        }
    }
}

/// Parse a whole record set; the bytes must carry nothing else.
pub open spec fn dec_secrets(b: Seq<u8>) -> Option<Seq<SecretV>> {
    match dec_u64(b) {
        Some((n, r)) => match dec_secret_list(r, n as int) {
            Some((l, r2)) => if r2.len() == 0 {
                Some(l)
            } else {
                None
            },
            None => None,
        },
        None => None,
    }
}

// ---------------------------------------------------------------------
// Round trip: parsing an encoding yields the encoded values.
// ---------------------------------------------------------------------

/// A signed number survives the trip through its bits.
pub proof fn lemma_i64_cast_round_trip(x: i64)
    ensures
        (x as u64) as i64 == x,
{
    assert((x as u64) as i64 == x) by (bit_vector);
}

/// Parsing an encoded number consumes exactly it.
pub proof fn lemma_dec_enc_u64(x: u64, rest: Seq<u8>)
    ensures
        dec_u64(enc_u64(x) + rest) == Some((x, rest)),
{
    lemma_auto_spec_u64_to_from_le_bytes();
    assert((enc_u64(x) + rest).take(8) =~= enc_u64(x));
    assert((enc_u64(x) + rest).skip(8) =~= rest);
}

/// Parsing an encoded signed number consumes exactly it.
pub proof fn lemma_dec_enc_i64(x: i64, rest: Seq<u8>)
    ensures
        dec_i64(enc_i64(x) + rest) == Some((x, rest)),
{
    lemma_dec_enc_u64(x as u64, rest);
    lemma_i64_cast_round_trip(x);
}

/// Parsing an encoded byte string consumes exactly it.
pub proof fn lemma_dec_enc_bytes(bs: Seq<u8>, rest: Seq<u8>)
    requires
        bs.len() <= u64::MAX,
    ensures
        dec_bytes(enc_bytes(bs) + rest) == Some((bs, rest)),
{
    let n = bs.len() as u64;
    assert(enc_bytes(bs) + rest =~= enc_u64(n) + (bs + rest));
    lemma_dec_enc_u64(n, bs + rest);
    assert((bs + rest).take(n as int) =~= bs);
    assert((bs + rest).skip(n as int) =~= rest);
}

/// Parsing an encoded character string consumes exactly it.
pub proof fn lemma_dec_enc_string(s: Seq<char>, rest: Seq<u8>)
    requires
        str_encodable(s),
    ensures
        dec_string(enc_string(s) + rest) == Some((s, rest)),
{
    lemma_dec_enc_bytes(encode_utf8(s), rest);
    vstd::utf8::encode_utf8_valid_utf8(s);
    vstd::utf8::encode_utf8_decode_utf8(s);
}

/// Parsing an encoded optional number consumes exactly it.
pub proof fn lemma_dec_enc_opt_u64(o: Option<u64>, rest: Seq<u8>)
    ensures
        dec_opt_u64(enc_opt_u64(o) + rest) == Some((o, rest)),
{
    match o {
        None => {
            assert((enc_opt_u64(o) + rest).skip(1) =~= rest);
        },
        Some(v) => {
            assert((enc_opt_u64(o) + rest).skip(1) =~= enc_u64(v) + rest);
            lemma_dec_enc_u64(v, rest);
        },
    }
}

/// Parsing an encoded optional signed number consumes exactly it.
pub proof fn lemma_dec_enc_opt_i64(o: Option<i64>, rest: Seq<u8>)
    ensures
        dec_opt_i64(enc_opt_i64(o) + rest) == Some((o, rest)),
{
    match o {
        None => {
            assert(enc_opt_i64(o) =~= enc_opt_u64(None::<u64>));
            lemma_dec_enc_opt_u64(None, rest);
        },
        Some(v) => {
            assert(enc_opt_i64(o) =~= enc_opt_u64(Some(v as u64)));
            lemma_dec_enc_opt_u64(Some(v as u64), rest);
            lemma_i64_cast_round_trip(v);
        },
    }
}

/// Parsing an encoded record consumes exactly it.
pub proof fn lemma_dec_enc_secret(s: SecretV, rest: Seq<u8>)
    requires
        secret_encodable(s),
    ensures
        dec_secret(enc_secret(s) + rest) == Some((s, rest)),
{
    let t6 = enc_opt_u64(s.deleted_at);
    let t5 = enc_u64(s.created_at) + t6;
    let t4 = enc_string(s.password) + t5;
    let t3 = enc_string(s.username) + t4;
    let t2 = enc_string(s.title) + t3;
    let t1 = enc_opt_i64(s.project_id) + t2;
    vstd::seq_lib::lemma_concat_associative(enc_i64(s.id), t1, rest);
    lemma_dec_enc_i64(s.id, t1 + rest);
    vstd::seq_lib::lemma_concat_associative(enc_opt_i64(s.project_id), t2, rest);
    lemma_dec_enc_opt_i64(s.project_id, t2 + rest);
    vstd::seq_lib::lemma_concat_associative(enc_string(s.title), t3, rest);
    lemma_dec_enc_string(s.title, t3 + rest);
    vstd::seq_lib::lemma_concat_associative(enc_string(s.username), t4, rest);
    lemma_dec_enc_string(s.username, t4 + rest);
    vstd::seq_lib::lemma_concat_associative(enc_string(s.password), t5, rest);
    lemma_dec_enc_string(s.password, t5 + rest);
    vstd::seq_lib::lemma_concat_associative(enc_u64(s.created_at), t6, rest);
    lemma_dec_enc_u64(s.created_at, t6 + rest);
    lemma_dec_enc_opt_u64(s.deleted_at, rest);
}

/// Parsing an encoded list of records consumes exactly it.
pub proof fn lemma_dec_enc_secret_list(ss: Seq<SecretV>, rest: Seq<u8>)
    requires
        forall|i: int| 0 <= i < ss.len() ==> secret_encodable(#[trigger] ss[i]),
    ensures
        dec_secret_list(enc_secret_list(ss) + rest, ss.len() as int) == Some((ss, rest)),
    decreases ss.len(),
{
    if ss.len() == 0 {
        assert(enc_secret_list(ss) + rest =~= rest);
        assert(dec_secret_list(rest, 0) == Some((Seq::<SecretV>::empty(), rest)));
        assert(Seq::<SecretV>::empty() =~= ss);
    } else {
        let tail = ss.drop_first();
        assert(enc_secret_list(ss) + rest =~= enc_secret(ss.first()) + (enc_secret_list(tail)
            + rest));
        lemma_dec_enc_secret(ss.first(), enc_secret_list(tail) + rest);
        assert(forall|i: int| 0 <= i < tail.len() ==> tail[i] == ss[i + 1]);
        lemma_dec_enc_secret_list(tail, rest);
        assert(seq![ss.first()] + tail =~= ss);
    }
}

/// Round trip: parsing an encoded record set yields exactly the records
/// that were encoded.
pub proof fn lemma_secrets_round_trip(ss: Seq<SecretV>)
    requires
        secrets_encodable(ss),
    ensures
        dec_secrets(enc_secrets(ss)) == Some(ss),
{
    lemma_dec_enc_u64(ss.len() as u64, enc_secret_list(ss));
    assert(enc_secrets(ss) == enc_u64(ss.len() as u64) + enc_secret_list(ss));
    assert(enc_secret_list(ss) + Seq::<u8>::empty() =~= enc_secret_list(ss));
    lemma_dec_enc_secret_list(ss, Seq::empty());
}

// ---------------------------------------------------------------------
// The executable encoder.
// ---------------------------------------------------------------------

/// Append one number.
fn write_u64(out: &mut Vec<u8>, x: u64)
    ensures
        final(out)@ == old(out)@ + enc_u64(x),
{
    let mut b = u64_to_le_bytes(x);
    out.append(&mut b);
}

/// Append one signed number.
fn write_i64(out: &mut Vec<u8>, x: i64)
    ensures
        final(out)@ == old(out)@ + enc_i64(x),
{
    write_u64(out, x as u64);
}

/// Append one byte string.
fn write_bytes(out: &mut Vec<u8>, b: &[u8])
    ensures
        final(out)@ == old(out)@ + enc_bytes(b@),
        b@.len() <= u64::MAX,
{
    write_u64(out, b.len() as u64);
    out.extend_from_slice(b);
    proof {
        assert(out@ =~= old(out)@ + enc_bytes(b@));
    }
}

/// Append one character string.
fn write_string(out: &mut Vec<u8>, s: &String)
    ensures
        final(out)@ == old(out)@ + enc_string(s@),
        str_encodable(s@),
{
    write_bytes(out, s.as_str().as_bytes());
}

/// Append one optional number.
fn write_opt_u64(out: &mut Vec<u8>, o: &Option<u64>)
    ensures
        final(out)@ == old(out)@ + enc_opt_u64(*o),
{
    match o {
        None => {
            out.push(0u8);
            proof {
                assert(out@ =~= old(out)@ + enc_opt_u64(None::<u64>));
            }
        },
        Some(v) => {
            out.push(1u8);
            write_u64(out, *v);
            proof {
                assert(out@ =~= old(out)@ + enc_opt_u64(Some(*v)));
            }
        },
    }
}

/// Append one optional signed number.
fn write_opt_i64(out: &mut Vec<u8>, o: &Option<i64>)
    ensures
        final(out)@ == old(out)@ + enc_opt_i64(*o),
{
    match o {
        None => {
            out.push(0u8);
            proof {
                assert(out@ =~= old(out)@ + enc_opt_i64(None::<i64>));
            }
        },
        Some(v) => {
            out.push(1u8);
            write_u64(out, *v as u64);
            proof {
                assert(out@ =~= old(out)@ + enc_opt_i64(Some(*v)));
            }
        },
    }
}

/// Append one record.
fn write_secret(out: &mut Vec<u8>, s: &Secret)
    ensures
        final(out)@ == old(out)@ + enc_secret(s@),
        secret_encodable(s@),
{
    write_i64(out, s.id);
    write_opt_i64(out, &s.project_id);
    write_string(out, &s.title);
    write_string(out, &s.username);
    write_string(out, &s.password);
    write_u64(out, s.created_at);
    write_opt_u64(out, &s.deleted_at);
    proof {
        assert(out@ =~= old(out)@ + enc_secret(s@));
    }
}

/// Encode a record set as portable bytes. Every record set a store can
/// hold encodes: the result always parses back to the same records.
pub fn encode_secrets(records: &Vec<Secret>) -> (r: Vec<u8>)
    ensures
        r@ == enc_secrets(view_secrets(records@)),
        secrets_encodable(view_secrets(records@)),
        dec_secrets(r@) == Some(view_secrets(records@)),
{
    let ghost rvs = view_secrets(records@);
    let mut out: Vec<u8> = Vec::new();
    write_u64(&mut out, records.len() as u64);
    let ghost head = out@;
    let mut i: usize = 0;
    proof {
        assert(out@ =~= head + enc_secret_list(rvs.take(0)));
    }
    while i < records.len()
        invariant
            i <= records.len(),
            rvs == view_secrets(records@),
            rvs.len() == records.len(),
            head == enc_u64(rvs.len() as u64),
            out@ == head + enc_secret_list(rvs.take(i as int)),
            forall|k: int| 0 <= k < i ==> secret_encodable(#[trigger] rvs[k]),
        decreases records.len() - i,
    {
        let s = &records[i];
        proof {
            assert(s@ == rvs[i as int]);
        }
        write_secret(&mut out, s);
        proof {
            lemma_enc_secret_list_snoc(rvs.take(i as int + 1));
            assert(rvs.take(i as int + 1).drop_last() =~= rvs.take(i as int));
            assert(out@ =~= head + (enc_secret_list(rvs.take(i as int)) + enc_secret(
                rvs[i as int],
            )));
        }
        i = i + 1;
    }
    proof {
        assert(rvs.take(rvs.len() as int) =~= rvs);
        assert(out@ =~= enc_secrets(rvs));
        lemma_secrets_round_trip(rvs);
    }
    out
}

/// A list encoding also grows one record at a time, from the back.
proof fn lemma_enc_secret_list_snoc(ss: Seq<SecretV>)
    requires
        ss.len() > 0,
    ensures
        enc_secret_list(ss) == enc_secret_list(ss.drop_last()) + enc_secret(ss.last()),
    decreases ss.len(),
{
    if ss.len() == 1 {
        assert(ss.drop_first() =~= Seq::<SecretV>::empty());
        assert(ss.drop_last() =~= Seq::<SecretV>::empty());
        assert(enc_secret_list(ss) == enc_secret(ss.first()) + enc_secret_list(ss.drop_first()));
        assert(enc_secret_list(ss) =~= enc_secret_list(ss.drop_last()) + enc_secret(ss.last()));
    } else {
        let tail = ss.drop_first();
        lemma_enc_secret_list_snoc(tail);
        assert(tail.drop_last() =~= ss.drop_last().drop_first());
        assert(tail.last() == ss.last());
        assert(ss.drop_last().first() == ss.first());
        assert(enc_secret_list(ss.drop_last()) == enc_secret(ss.first()) + enc_secret_list(
            ss.drop_last().drop_first(),
        ));
        assert(enc_secret_list(ss) =~= enc_secret_list(ss.drop_last()) + enc_secret(ss.last()));
    }
}

// ---------------------------------------------------------------------
// The executable parser.
// ---------------------------------------------------------------------

/// Relies on String::from_utf8: it accepts exactly the byte strings that
/// are valid UTF-8, and decodes such a string to its characters.
#[verifier::external_body]
fn string_from_utf8(v: Vec<u8>) -> (r: Option<String>)
    ensures
        match r {
            Some(s) => valid_utf8(v@) && s@ == decode_utf8(v@),
            None => !valid_utf8(v@),
        },
{
    match String::from_utf8(v) {
        Ok(s) => Some(s),
        Err(_) => None,
    }
}

/// Read one number at `pos`.
fn read_u64(buf: &[u8], pos: usize) -> (r: Option<(u64, usize)>)
    requires
        pos <= buf@.len(),
    ensures
        r is Some <==> dec_u64(buf@.skip(pos as int)) is Some,
        r matches Some(p) ==> {
            &&& pos < p.1 <= buf@.len()
            &&& dec_u64(buf@.skip(pos as int)) == Some((p.0, buf@.skip(p.1 as int)))
        },
{
    if buf.len() - pos < 8 {
        return None;
    }
    let window = vstd::slice::slice_subrange(buf, pos, pos + 8);
    let v = u64_from_le_bytes(window);
    proof {
        assert(buf@.subrange(pos as int, pos as int + 8) =~= buf@.skip(pos as int).take(8));
        assert(buf@.skip(pos as int).skip(8) =~= buf@.skip(pos as int + 8));
    }
    Some((v, pos + 8))
}

/// Read one signed number at `pos`.
fn read_i64(buf: &[u8], pos: usize) -> (r: Option<(i64, usize)>)
    requires
        pos <= buf@.len(),
    ensures
        r is Some <==> dec_i64(buf@.skip(pos as int)) is Some,
        r matches Some(p) ==> {
            &&& pos < p.1 <= buf@.len()
            &&& dec_i64(buf@.skip(pos as int)) == Some((p.0, buf@.skip(p.1 as int)))
        },
{
    match read_u64(buf, pos) {
        Some((v, p2)) => Some((v as i64, p2)),
        None => None,
    }
}

/// Read one byte string at `pos`.
fn read_bytes(buf: &[u8], pos: usize) -> (r: Option<(Vec<u8>, usize)>)
    requires
        pos <= buf@.len(),
    ensures
        r is Some <==> dec_bytes(buf@.skip(pos as int)) is Some,
        r matches Some(p) ==> {
            &&& pos < p.1 <= buf@.len()
            &&& dec_bytes(buf@.skip(pos as int)) == Some((p.0@, buf@.skip(p.1 as int)))
        },
{
    let (n, p1) = match read_u64(buf, pos) {
        Some(x) => x,
        None => {
            return None;
        },
    };
    if n > (buf.len() - p1) as u64 {
        proof {
            assert(buf@.skip(p1 as int).len() < n);
        }
        return None;
    }
    let end = p1 + (n as usize);
    let window = vstd::slice::slice_subrange(buf, p1, end);
    let content = vstd::slice::slice_to_vec(window);
    proof {
        assert(buf@.subrange(p1 as int, end as int) =~= buf@.skip(p1 as int).take(n as int));
        assert(buf@.skip(p1 as int).skip(n as int) =~= buf@.skip(end as int));
    }
    Some((content, end))
}

/// Read one character string at `pos`.
fn read_string(buf: &[u8], pos: usize) -> (r: Option<(String, usize)>)
    requires
        pos <= buf@.len(),
    ensures
        r is Some <==> dec_string(buf@.skip(pos as int)) is Some,
        r matches Some(p) ==> {
            &&& pos < p.1 <= buf@.len()
            &&& dec_string(buf@.skip(pos as int)) == Some((p.0@, buf@.skip(p.1 as int)))
        },
{
    let (bs, p1) = match read_bytes(buf, pos) {
        Some(x) => x,
        None => {
            return None;
        },
    };
    match string_from_utf8(bs) {
        Some(s) => Some((s, p1)),
        None => None,
    }
}

/// Read one optional number at `pos`.
fn read_opt_u64(buf: &[u8], pos: usize) -> (r: Option<(Option<u64>, usize)>)
    requires
        pos <= buf@.len(),
    ensures
        r is Some <==> dec_opt_u64(buf@.skip(pos as int)) is Some,
        r matches Some(p) ==> {
            &&& pos < p.1 <= buf@.len()
            &&& dec_opt_u64(buf@.skip(pos as int)) == Some((p.0, buf@.skip(p.1 as int)))
        },
{
    if pos >= buf.len() {
        return None;
    }
    let tag = buf[pos];
    proof {
        assert(buf@.skip(pos as int).first() == buf@[pos as int]);
        assert(buf@.skip(pos as int).skip(1) =~= buf@.skip(pos as int + 1));
    }
    if tag == 0 {
        Some((None, pos + 1))
    } else if tag == 1 {
        match read_u64(buf, pos + 1) {
            Some((v, p2)) => Some((Some(v), p2)),
            None => None,
        }
    } else {
        None
    }
}

/// Read one optional signed number at `pos`.
fn read_opt_i64(buf: &[u8], pos: usize) -> (r: Option<(Option<i64>, usize)>)
    requires
        pos <= buf@.len(),
    ensures
        r is Some <==> dec_opt_i64(buf@.skip(pos as int)) is Some,
        r matches Some(p) ==> {
            &&& pos < p.1 <= buf@.len()
            &&& dec_opt_i64(buf@.skip(pos as int)) == Some((p.0, buf@.skip(p.1 as int)))
        },
{
    match read_opt_u64(buf, pos) {
        Some((Some(v), p2)) => Some((Some(v as i64), p2)),
        Some((None, p2)) => Some((None, p2)),
        None => None,
    }
}

/// Read one record at `pos`.
fn read_secret(buf: &[u8], pos: usize) -> (r: Option<(Secret, usize)>)
    requires
        pos <= buf@.len(),
    ensures
        r is Some <==> dec_secret(buf@.skip(pos as int)) is Some,
        r matches Some(p) ==> {
            &&& pos < p.1 <= buf@.len()
            &&& dec_secret(buf@.skip(pos as int)) == Some((p.0@, buf@.skip(p.1 as int)))
        },
{
    let (id, p1) = match read_i64(buf, pos) {
        Some(x) => x,
        None => {
            return None;
        },
    };
    let (project_id, p2) = match read_opt_i64(buf, p1) {
        Some(x) => x,
        None => {
            return None;
        },
    };
    let (title, p3) = match read_string(buf, p2) {
        Some(x) => x,
        None => {
            return None;
        },
    };
    let (username, p4) = match read_string(buf, p3) {
        Some(x) => x,
        None => {
            return None;
        },
    };
    let (password, p5) = match read_string(buf, p4) {
        Some(x) => x,
        None => {
            return None;
        },
    };
    let (created_at, p6) = match read_u64(buf, p5) {
        Some(x) => x,
        None => {
            return None;
        },
    };
    let (deleted_at, p7) = match read_opt_u64(buf, p6) {
        Some(x) => x,
        None => {
            return None;
        },
    };
    let s = Secret { id, project_id, title, username, password, created_at, deleted_at };
    Some((s, p7))
}

/// Parse a portable record set, exactly as `dec_secrets` states it; bytes
/// that do not carry one are malformed.
#[verifier::spinoff_prover]
#[verifier::rlimit(100)]
pub fn decode_secrets(buf: &[u8]) -> (r: Result<Vec<Secret>, VaultError>)
    ensures
        r matches Ok(v) ==> dec_secrets(buf@) == Some(view_secrets(v@)),
        r is Err ==> dec_secrets(buf@) is None && r == Err::<Vec<Secret>, VaultError>(
            VaultError::InvalidFormat,
        ),
{
    proof {
        assert(buf@.skip(0) =~= buf@);
    }
    let (n, mut pos) = match read_u64(buf, 0) {
        Some(x) => x,
        None => {
            return Err(VaultError::InvalidFormat);
        },
    };
    let ghost start_rest = buf@.skip(pos as int);
    let mut out: Vec<Secret> = Vec::new();
    let mut i: u64 = 0;
    proof {
        assert(view_secrets(out@) =~= Seq::<SecretV>::empty());
    }
    while i < n
        invariant
            i <= n,
            pos <= buf@.len(),
            dec_u64(buf@) == Some((n, start_rest)),
            dec_secret_list(start_rest, n as int) is Some <==> dec_secret_list(
                buf@.skip(pos as int),
                n - i,
            ) is Some,
            dec_secret_list(buf@.skip(pos as int), n - i) matches Some(t)
                ==> dec_secret_list(start_rest, n as int) == Some(
                ((view_secrets(out@) + t.0), t.1),
            ),
        decreases n - i,
    {
        let (s, p2) = match read_secret(buf, pos) {
            Some(x) => x,
            None => {
                proof {
                    assert(dec_secret_list(buf@.skip(pos as int), n - i) is None);
                }
                return Err(VaultError::InvalidFormat);
            },
        };
        out.push(s);
        proof {
            let ghost prev = view_secrets(out@).drop_last();
            assert(view_secrets(out@).last() == s@);
            assert(view_secrets(out@).drop_last() =~= view_secrets(out@.drop_last()));
            match dec_secret_list(buf@.skip(p2 as int), n - i - 1) {
                Some(t) => {
                    assert(dec_secret_list(buf@.skip(pos as int), n - i) == Some(
                        ((seq![s@] + t.0), t.1),
                    ));
                    assert(view_secrets(out@.drop_last()) + (seq![s@] + t.0) =~= view_secrets(out@)
                        + t.0);
                },
                None => {},
            }
        }
        pos = p2;
        i = i + 1;
    }
    proof {
        assert(dec_secret_list(buf@.skip(pos as int), 0) == Some(
            (Seq::<SecretV>::empty(), buf@.skip(pos as int)),
        ));
        assert(view_secrets(out@) + Seq::<SecretV>::empty() =~= view_secrets(out@));
    }
    if pos != buf.len() {
        proof {
            assert(buf@.skip(pos as int).len() != 0);
        }
        return Err(VaultError::InvalidFormat);
    }
    proof {
        assert(buf@.skip(pos as int).len() == 0);
    }
    Ok(out)
}


// ---------------------------------------------------------------------
// The store image: the whole record set of a vault at rest — the version
// counter, the three identifier counters, and the three tables.
// ---------------------------------------------------------------------

/// The encoding of an optional character string.
pub open spec fn enc_opt_string(o: Option<Seq<char>>) -> Seq<u8> {
    match o {
        None => seq![0u8],
        Some(s) => seq![1u8] + enc_string(s),
    }
}

/// Parse one optional character string.
pub open spec fn dec_opt_string(b: Seq<u8>) -> Option<(Option<Seq<char>>, Seq<u8>)> {
    if b.len() < 1 {
        None
    } else if b.first() == 0u8 {
        Some((None, b.skip(1)))
    } else if b.first() == 1u8 {
        match dec_string(b.skip(1)) {
            Some((v, r)) => Some((Some(v), r)),
            None => None,
        }
    } else {
        None
    }
}

/// Parsing an encoded optional string consumes exactly it.
pub proof fn lemma_dec_enc_opt_string(o: Option<Seq<char>>, rest: Seq<u8>)
    requires
        o matches Some(s) ==> str_encodable(s),
    ensures
        dec_opt_string(enc_opt_string(o) + rest) == Some((o, rest)),
{
    match o {
        None => {
            assert((enc_opt_string(o) + rest).skip(1) =~= rest);
        },
        Some(v) => {
            assert((enc_opt_string(o) + rest).skip(1) =~= enc_string(v) + rest);
            lemma_dec_enc_string(v, rest);
        },
    }
}

/// The encoding of one project record: every field, in order.
pub open spec fn enc_project(p: ProjectV) -> Seq<u8> {
    enc_i64(p.id) + (enc_string(p.name) + (enc_opt_string(p.description) + (enc_u64(p.created_at)
        + enc_opt_u64(p.deleted_at))))
}

/// Parse one project record.
pub open spec fn dec_project(b: Seq<u8>) -> Option<(ProjectV, Seq<u8>)> {
    match dec_i64(b) {
        Some((id, b1)) => match dec_string(b1) {
            Some((name, b2)) => match dec_opt_string(b2) {
                Some((description, b3)) => match dec_u64(b3) {
                    Some((created_at, b4)) => match dec_opt_u64(b4) {
                        Some((deleted_at, b5)) => Some(
                            (
                                ProjectV {
                                    id: id,
                                    name: name,
                                    description: description,
                                    created_at: created_at,
                                    deleted_at: deleted_at,
                                },
                                b5,
                            ),
                        ),
                        None => None,
                    },
                    None => None,
                },
                None => None,
            },
            None => None,
        },
        None => None,
    }
}

/// A project whose fields are short enough for their length prefixes.
pub open spec fn project_encodable(p: ProjectV) -> bool {
    str_encodable(p.name) && (p.description matches Some(d) ==> str_encodable(d))
}

/// Parsing an encoded project consumes exactly it.
pub proof fn lemma_dec_enc_project(p: ProjectV, rest: Seq<u8>)
    requires
        project_encodable(p),
    ensures
        dec_project(enc_project(p) + rest) == Some((p, rest)),
{
    let t4 = enc_opt_u64(p.deleted_at);
    let t3 = enc_u64(p.created_at) + t4;
    let t2 = enc_opt_string(p.description) + t3;
    let t1 = enc_string(p.name) + t2;
    vstd::seq_lib::lemma_concat_associative(enc_i64(p.id), t1, rest);
    lemma_dec_enc_i64(p.id, t1 + rest);
    vstd::seq_lib::lemma_concat_associative(enc_string(p.name), t2, rest);
    lemma_dec_enc_string(p.name, t2 + rest);
    vstd::seq_lib::lemma_concat_associative(enc_opt_string(p.description), t3, rest);
    lemma_dec_enc_opt_string(p.description, t3 + rest);
    vstd::seq_lib::lemma_concat_associative(enc_u64(p.created_at), t4, rest);
    lemma_dec_enc_u64(p.created_at, t4 + rest);
    lemma_dec_enc_opt_u64(p.deleted_at, rest);
}

/// The encoding of one attachment: every field, in order, with the
/// content last; the recorded size is not encoded — it is the content's
/// length.
pub open spec fn enc_attachment(a: AttachmentV) -> Seq<u8> {
    enc_i64(a.id) + (enc_i64(a.secret_id) + (enc_string(a.filename) + (enc_string(a.mime_type) + (
    enc_u64(a.created_at) + enc_bytes(a.content)))))
}

/// Parse one attachment; its recorded size is its content's length.
pub open spec fn dec_attachment(b: Seq<u8>) -> Option<(AttachmentV, Seq<u8>)> {
    match dec_i64(b) {
        Some((id, b1)) => match dec_i64(b1) {
            Some((secret_id, b2)) => match dec_string(b2) {
                Some((filename, b3)) => match dec_string(b3) {
                    Some((mime_type, b4)) => match dec_u64(b4) {
                        Some((created_at, b5)) => match dec_bytes(b5) {
                            Some((content, b6)) => Some(
                                (
                                    AttachmentV {
                                        id: id,
                                        secret_id: secret_id,
                                        filename: filename,
                                        mime_type: mime_type,
                                        file_size: content.len() as u64,
                                        created_at: created_at,
                                        content: content,
                                    },
                                    b6,
                                ),
                            ),
                            None => None,
                        },
                        None => None,
                    },
                    None => None,
                },
                None => None,
            },
            None => None,
        },
        None => None,
    }
}

/// An attachment whose fields are short enough for their length prefixes
/// and whose recorded size is its content's length.
pub open spec fn attachment_encodable(a: AttachmentV) -> bool {
    &&& str_encodable(a.filename)
    &&& str_encodable(a.mime_type)
    &&& a.content.len() <= u64::MAX
    &&& a.file_size == a.content.len()
}

/// Parsing an encoded attachment consumes exactly it.
pub proof fn lemma_dec_enc_attachment(a: AttachmentV, rest: Seq<u8>)
    requires
        attachment_encodable(a),
    ensures
        dec_attachment(enc_attachment(a) + rest) == Some((a, rest)),
{
    let t5 = enc_bytes(a.content);
    let t4 = enc_u64(a.created_at) + t5;
    let t3 = enc_string(a.mime_type) + t4;
    let t2 = enc_string(a.filename) + t3;
    let t1 = enc_i64(a.secret_id) + t2;
    vstd::seq_lib::lemma_concat_associative(enc_i64(a.id), t1, rest);
    lemma_dec_enc_i64(a.id, t1 + rest);
    vstd::seq_lib::lemma_concat_associative(enc_i64(a.secret_id), t2, rest);
    lemma_dec_enc_i64(a.secret_id, t2 + rest);
    vstd::seq_lib::lemma_concat_associative(enc_string(a.filename), t3, rest);
    lemma_dec_enc_string(a.filename, t3 + rest);
    vstd::seq_lib::lemma_concat_associative(enc_string(a.mime_type), t4, rest);
    lemma_dec_enc_string(a.mime_type, t4 + rest);
    vstd::seq_lib::lemma_concat_associative(enc_u64(a.created_at), t5, rest);
    lemma_dec_enc_u64(a.created_at, t5 + rest);
    lemma_dec_enc_bytes(a.content, rest);
}

/// The encoding of a list of projects, without its length.
pub open spec fn enc_project_list(ps: Seq<ProjectV>) -> Seq<u8>
    decreases ps.len(),
{
    if ps.len() == 0 {
        Seq::empty()
    } else {
        enc_project(ps.first()) + enc_project_list(ps.drop_first())
    }
}

/// The encoding of a list of attachments, without its length.
pub open spec fn enc_attachment_list(aa: Seq<AttachmentV>) -> Seq<u8>
    decreases aa.len(),
{
    if aa.len() == 0 {
        Seq::empty()
    } else {
        enc_attachment(aa.first()) + enc_attachment_list(aa.drop_first())
    }
}

/// Parse a list of `n` project records.
pub open spec fn dec_project_list(b: Seq<u8>, n: int) -> Option<(Seq<ProjectV>, Seq<u8>)>
    decreases n,
{
    if n <= 0 {
        Some((Seq::empty(), b))
    } else {
        match dec_project(b) {
            Some((v, r)) => match dec_project_list(r, n - 1) {
                Some((l, r2)) => Some((seq![v] + l, r2)),
                None => None,
            },
            None => None,
        }
    }
}

/// Parse a list of `n` attachments.
pub open spec fn dec_attachment_list(b: Seq<u8>, n: int) -> Option<(Seq<AttachmentV>, Seq<u8>)>
    decreases n,
{
    if n <= 0 {
        Some((Seq::empty(), b))
    } else {
        match dec_attachment(b) {
            Some((v, r)) => match dec_attachment_list(r, n - 1) {
                Some((l, r2)) => Some((seq![v] + l, r2)),
                None => None,
            },
            None => None,
        }
    }
}

/// Parsing an encoded list of projects consumes exactly it.
pub proof fn lemma_dec_enc_project_list(ps: Seq<ProjectV>, rest: Seq<u8>)
    requires
        forall|i: int| 0 <= i < ps.len() ==> project_encodable(#[trigger] ps[i]),
    ensures
        dec_project_list(enc_project_list(ps) + rest, ps.len() as int) == Some((ps, rest)),
    decreases ps.len(),
{
    if ps.len() == 0 {
        assert(enc_project_list(ps) + rest =~= rest);
        assert(Seq::<ProjectV>::empty() =~= ps);
    } else {
        let tail = ps.drop_first();
        assert(enc_project_list(ps) + rest =~= enc_project(ps.first()) + (enc_project_list(tail)
            + rest));
        lemma_dec_enc_project(ps.first(), enc_project_list(tail) + rest);
        assert(forall|i: int| 0 <= i < tail.len() ==> tail[i] == ps[i + 1]);
        lemma_dec_enc_project_list(tail, rest);
        assert(seq![ps.first()] + tail =~= ps);
    }
}

/// Parsing an encoded list of attachments consumes exactly it.
pub proof fn lemma_dec_enc_attachment_list(aa: Seq<AttachmentV>, rest: Seq<u8>)
    requires
        forall|i: int| 0 <= i < aa.len() ==> attachment_encodable(#[trigger] aa[i]),
    ensures
        dec_attachment_list(enc_attachment_list(aa) + rest, aa.len() as int) == Some((aa, rest)),
    decreases aa.len(),
{
    if aa.len() == 0 {
        assert(enc_attachment_list(aa) + rest =~= rest);
        assert(Seq::<AttachmentV>::empty() =~= aa);
    } else {
        let tail = aa.drop_first();
        assert(enc_attachment_list(aa) + rest =~= enc_attachment(aa.first()) + (
        enc_attachment_list(tail) + rest));
        lemma_dec_enc_attachment(aa.first(), enc_attachment_list(tail) + rest);
        assert(forall|i: int| 0 <= i < tail.len() ==> tail[i] == aa[i + 1]);
        lemma_dec_enc_attachment_list(tail, rest);
        assert(seq![aa.first()] + tail =~= aa);
    }
}

/// A list encoding also grows one record at a time, from the back.
proof fn lemma_enc_project_list_snoc(ps: Seq<ProjectV>)
    requires
        ps.len() > 0,
    ensures
        enc_project_list(ps) == enc_project_list(ps.drop_last()) + enc_project(ps.last()),
    decreases ps.len(),
{
    if ps.len() == 1 {
        assert(ps.drop_first() =~= Seq::<ProjectV>::empty());
        assert(ps.drop_last() =~= Seq::<ProjectV>::empty());
        assert(enc_project_list(ps) =~= enc_project_list(ps.drop_last()) + enc_project(ps.last()));
    } else {
        let tail = ps.drop_first();
        lemma_enc_project_list_snoc(tail);
        assert(tail.drop_last() =~= ps.drop_last().drop_first());
        assert(tail.last() == ps.last());
        assert(ps.drop_last().first() == ps.first());
        assert(enc_project_list(ps.drop_last()) == enc_project(ps.first()) + enc_project_list(
            ps.drop_last().drop_first(),
        ));
        assert(enc_project_list(ps) =~= enc_project_list(ps.drop_last()) + enc_project(ps.last()));
    }
}

/// A list encoding also grows one record at a time, from the back.
proof fn lemma_enc_attachment_list_snoc(aa: Seq<AttachmentV>)
    requires
        aa.len() > 0,
    ensures
        enc_attachment_list(aa) == enc_attachment_list(aa.drop_last()) + enc_attachment(aa.last()),
    decreases aa.len(),
{
    if aa.len() == 1 {
        assert(aa.drop_first() =~= Seq::<AttachmentV>::empty());
        assert(aa.drop_last() =~= Seq::<AttachmentV>::empty());
        assert(enc_attachment_list(aa) =~= enc_attachment_list(aa.drop_last()) + enc_attachment(
            aa.last(),
        ));
    } else {
        let tail = aa.drop_first();
        lemma_enc_attachment_list_snoc(tail);
        assert(tail.drop_last() =~= aa.drop_last().drop_first());
        assert(tail.last() == aa.last());
        assert(aa.drop_last().first() == aa.first());
        assert(enc_attachment_list(aa.drop_last()) == enc_attachment(aa.first())
            + enc_attachment_list(aa.drop_last().drop_first()));
        assert(enc_attachment_list(aa) =~= enc_attachment_list(aa.drop_last()) + enc_attachment(
            aa.last(),
        ));
    }
}

/// The encoding of a whole store image: the version counter, the three
/// identifier counters, and the three tables, each with its length.
pub open spec fn enc_store(v: StoreV) -> Seq<u8> {
    enc_u64(v.version as u64) + (enc_i64(v.next_secret_id) + (enc_i64(v.next_project_id) + (
    enc_i64(v.next_attachment_id) + (enc_u64(v.secrets.len() as u64) + (enc_secret_list(v.secrets)
        + (enc_u64(v.projects.len() as u64) + (enc_project_list(v.projects) + (enc_u64(
        v.attachments.len() as u64,
    ) + enc_attachment_list(v.attachments)))))))))
}

/// A store image short enough for all its length prefixes, with every
/// attachment's recorded size its content's length.
pub open spec fn store_encodable(v: StoreV) -> bool {
    &&& secrets_encodable(v.secrets)
    &&& v.projects.len() <= u64::MAX
    &&& forall|i: int| 0 <= i < v.projects.len() ==> project_encodable(#[trigger] v.projects[i])
    &&& v.attachments.len() <= u64::MAX
    &&& forall|i: int| 0 <= i < v.attachments.len() ==> attachment_encodable(
        #[trigger] v.attachments[i],
    )
}

/// Parse a whole store image; the bytes must carry nothing else.
pub open spec fn dec_store(b: Seq<u8>) -> Option<StoreV> {
    match dec_u64(b) {
        Some((ver, b1)) => if ver <= u32::MAX {
            match dec_i64(b1) {
                Some((nsid, b2)) => match dec_i64(b2) {
                    Some((npid, b3)) => match dec_i64(b3) {
                        Some((naid, b4)) => match dec_u64(b4) {
                            Some((ns, b5)) => match dec_secret_list(b5, ns as int) {
                                Some((secrets, b6)) => match dec_u64(b6) {
                                    Some((np, b7)) => match dec_project_list(b7, np as int) {
                                        Some((projects, b8)) => match dec_u64(b8) {
                                            Some((na, b9)) => match dec_attachment_list(
                                                b9,
                                                na as int,
                                            ) {
                                                Some((attachments, b10)) => if b10.len() == 0 {
                                                    Some(
                                                        StoreV {
                                                            version: ver as u32,
                                                            secrets: secrets,
                                                            projects: projects,
                                                            attachments: attachments,
                                                            next_secret_id: nsid,
                                                            next_project_id: npid,
                                                            next_attachment_id: naid,
                                                        },
                                                    )
                                                } else {
                                                    None
                                                },
                                                None => None,
                                            },
                                            None => None,
                                        },
                                        None => None,
                                    },
                                    None => None,
                                },
                                None => None,
                            },
                            None => None,
                        },
                        None => None,
                    },
                    None => None,
                },
                None => None,
            }
        } else {
            None
        },
        None => None,
    }
}

/// Round trip: parsing an encoded store image yields exactly the store
/// that was encoded.
pub proof fn lemma_store_round_trip(v: StoreV)
    requires
        store_encodable(v),
    ensures
        dec_store(enc_store(v)) == Some(v),
{
    let rest: Seq<u8> = Seq::empty();
    let t9 = enc_attachment_list(v.attachments);
    let t8 = enc_u64(v.attachments.len() as u64) + t9;
    let t7 = enc_project_list(v.projects) + t8;
    let t6 = enc_u64(v.projects.len() as u64) + t7;
    let t5 = enc_secret_list(v.secrets) + t6;
    let t4 = enc_u64(v.secrets.len() as u64) + t5;
    let t3 = enc_i64(v.next_attachment_id) + t4;
    let t2 = enc_i64(v.next_project_id) + t3;
    let t1 = enc_i64(v.next_secret_id) + t2;
    assert(enc_store(v) + rest =~= enc_u64(v.version as u64) + t1);
    lemma_dec_enc_u64(v.version as u64, t1);
    assert((v.version as u64) as u32 == v.version);
    vstd::seq_lib::lemma_concat_associative(enc_i64(v.next_secret_id), t2, rest);
    assert(t1 + rest =~= t1);
    lemma_dec_enc_i64(v.next_secret_id, t2);
    lemma_dec_enc_i64(v.next_project_id, t3);
    lemma_dec_enc_i64(v.next_attachment_id, t4);
    lemma_dec_enc_u64(v.secrets.len() as u64, t5);
    lemma_dec_enc_secret_list(v.secrets, t6);
    lemma_dec_enc_u64(v.projects.len() as u64, t7);
    lemma_dec_enc_project_list(v.projects, t8);
    lemma_dec_enc_u64(v.attachments.len() as u64, t9);
    lemma_dec_enc_attachment_list(v.attachments, rest);
    assert(enc_attachment_list(v.attachments) + rest =~= t9);
}

/// Append one optional character string.
fn write_opt_string(out: &mut Vec<u8>, o: &Option<String>)
    ensures
        final(out)@ == old(out)@ + enc_opt_string(crate::records::view_opt_string(*o)),
        crate::records::view_opt_string(*o) matches Some(s) ==> str_encodable(s),
{
    match o {
        None => {
            out.push(0u8);
            proof {
                assert(out@ =~= old(out)@ + enc_opt_string(None::<Seq<char>>));
            }
        },
        Some(v) => {
            out.push(1u8);
            write_string(out, v);
            proof {
                assert(out@ =~= old(out)@ + enc_opt_string(Some(v@)));
            }
        },
    }
}

/// Append one project record.
fn write_project(out: &mut Vec<u8>, p: &Project)
    ensures
        final(out)@ == old(out)@ + enc_project(p@),
        project_encodable(p@),
{
    write_i64(out, p.id);
    write_string(out, &p.name);
    write_opt_string(out, &p.description);
    write_u64(out, p.created_at);
    write_opt_u64(out, &p.deleted_at);
    proof {
        assert(out@ =~= old(out)@ + enc_project(p@));
    }
}

/// Append one attachment.
fn write_attachment(out: &mut Vec<u8>, a: &Attachment)
    requires
        a@.file_size == a@.content.len(),
    ensures
        final(out)@ == old(out)@ + enc_attachment(a@),
        attachment_encodable(a@),
{
    write_i64(out, a.id);
    write_i64(out, a.secret_id);
    write_string(out, &a.filename);
    write_string(out, &a.mime_type);
    write_u64(out, a.created_at);
    write_bytes(out, a.content.as_slice());
    proof {
        assert(out@ =~= old(out)@ + enc_attachment(a@));
    }
}

impl RecordStore {
    /// Encode this store as its portable image. Every well-formed store
    /// encodes, and its image parses back to exactly this store.
    #[verifier::rlimit(100)]
    pub fn encode_store(&self) -> (r: Vec<u8>)
        requires
            self.wf(),
        ensures
            r@ == enc_store(self@),
            store_encodable(self@),
            dec_store(r@) == Some(self@),
    {
        let ghost svs = self@.secrets;
        let ghost pvs = self@.projects;
        let ghost avs = self@.attachments;
        let mut out: Vec<u8> = Vec::new();
        write_u64(&mut out, self.version as u64);
        write_i64(&mut out, self.next_secret_id);
        write_i64(&mut out, self.next_project_id);
        write_i64(&mut out, self.next_attachment_id);
        write_u64(&mut out, self.secrets.len() as u64);
        let ghost head1 = out@;
        let mut i: usize = 0;
        proof {
            assert(out@ =~= head1 + enc_secret_list(svs.take(0)));
        }
        while i < self.secrets.len()
            invariant
                i <= self.secrets.len(),
                svs == self@.secrets,
                svs.len() == self.secrets.len(),
                out@ == head1 + enc_secret_list(svs.take(i as int)),
                forall|k: int| 0 <= k < i ==> secret_encodable(#[trigger] svs[k]),
            decreases self.secrets.len() - i,
        {
            let s = &self.secrets[i];
            proof {
                assert(s@ == svs[i as int]);
            }
            write_secret(&mut out, s);
            proof {
                lemma_enc_secret_list_snoc(svs.take(i as int + 1));
                assert(svs.take(i as int + 1).drop_last() =~= svs.take(i as int));
                assert(out@ =~= head1 + (enc_secret_list(svs.take(i as int)) + enc_secret(
                    svs[i as int],
                )));
            }
            i = i + 1;
        }
        proof {
            assert(svs.take(svs.len() as int) =~= svs);
        }
        write_u64(&mut out, self.projects.len() as u64);
        let ghost head2 = out@;
        let mut j: usize = 0;
        proof {
            assert(out@ =~= head2 + enc_project_list(pvs.take(0)));
        }
        while j < self.projects.len()
            invariant
                j <= self.projects.len(),
                pvs == self@.projects,
                pvs.len() == self.projects.len(),
                out@ == head2 + enc_project_list(pvs.take(j as int)),
                forall|k: int| 0 <= k < j ==> project_encodable(#[trigger] pvs[k]),
            decreases self.projects.len() - j,
        {
            let pr = &self.projects[j];
            proof {
                assert(pr@ == pvs[j as int]);
            }
            write_project(&mut out, pr);
            proof {
                lemma_enc_project_list_snoc(pvs.take(j as int + 1));
                assert(pvs.take(j as int + 1).drop_last() =~= pvs.take(j as int));
                assert(out@ =~= head2 + (enc_project_list(pvs.take(j as int)) + enc_project(
                    pvs[j as int],
                )));
            }
            j = j + 1;
        }
        proof {
            assert(pvs.take(pvs.len() as int) =~= pvs);
        }
        write_u64(&mut out, self.attachments.len() as u64);
        let ghost head3 = out@;
        let mut m: usize = 0;
        proof {
            assert(out@ =~= head3 + enc_attachment_list(avs.take(0)));
        }
        while m < self.attachments.len()
            invariant
                m <= self.attachments.len(),
                self.wf(),
                avs == self@.attachments,
                avs.len() == self.attachments.len(),
                out@ == head3 + enc_attachment_list(avs.take(m as int)),
                forall|k: int| 0 <= k < m ==> attachment_encodable(#[trigger] avs[k]),
            decreases self.attachments.len() - m,
        {
            let a = &self.attachments[m];
            proof {
                assert(a@ == avs[m as int]);
                assert(crate::store::attachment_size_ok(avs[m as int]));
            }
            write_attachment(&mut out, a);
            proof {
                lemma_enc_attachment_list_snoc(avs.take(m as int + 1));
                assert(avs.take(m as int + 1).drop_last() =~= avs.take(m as int));
                assert(out@ =~= head3 + (enc_attachment_list(avs.take(m as int)) + enc_attachment(
                    avs[m as int],
                )));
            }
            m = m + 1;
        }
        proof {
            assert(avs.take(avs.len() as int) =~= avs);
            assert(out@ =~= enc_store(self@));
            lemma_store_round_trip(self@);
        }
        out
    }
}

/// Read a list of `n` project records, advancing the cursor.
fn read_project(buf: &[u8], pos: usize) -> (r: Option<(Project, usize)>)
    requires
        pos <= buf@.len(),
    ensures
        r is Some <==> dec_project(buf@.skip(pos as int)) is Some,
        r matches Some(p) ==> {
            &&& pos < p.1 <= buf@.len()
            &&& dec_project(buf@.skip(pos as int)) == Some((p.0@, buf@.skip(p.1 as int)))
        },
{
    let (id, p1) = match read_i64(buf, pos) {
        Some(x) => x,
        None => {
            return None;
        },
    };
    let (name, p2) = match read_string(buf, p1) {
        Some(x) => x,
        None => {
            return None;
        },
    };
    let (description, p3) = match read_opt_string(buf, p2) {
        Some(x) => x,
        None => {
            return None;
        },
    };
    let (created_at, p4) = match read_u64(buf, p3) {
        Some(x) => x,
        None => {
            return None;
        },
    };
    let (deleted_at, p5) = match read_opt_u64(buf, p4) {
        Some(x) => x,
        None => {
            return None;
        },
    };
    let p = Project { id, name, description, created_at, deleted_at };
    Some((p, p5))
}

/// Read one optional character string at `pos`.
fn read_opt_string(buf: &[u8], pos: usize) -> (r: Option<(Option<String>, usize)>)
    requires
        pos <= buf@.len(),
    ensures
        r is Some <==> dec_opt_string(buf@.skip(pos as int)) is Some,
        r matches Some(p) ==> {
            &&& pos < p.1 <= buf@.len()
            &&& dec_opt_string(buf@.skip(pos as int)) == Some(
                (crate::records::view_opt_string(p.0), buf@.skip(p.1 as int)),
            )
        },
{
    if pos >= buf.len() {
        return None;
    }
    let tag = buf[pos];
    proof {
        assert(buf@.skip(pos as int).first() == buf@[pos as int]);
        assert(buf@.skip(pos as int).skip(1) =~= buf@.skip(pos as int + 1));
    }
    if tag == 0 {
        Some((None, pos + 1))
    } else if tag == 1 {
        match read_string(buf, pos + 1) {
            Some((v, p2)) => Some((Some(v), p2)),
            None => None,
        }
    } else {
        None
    }
}

/// Read one attachment at `pos`.
fn read_attachment(buf: &[u8], pos: usize) -> (r: Option<(Attachment, usize)>)
    requires
        pos <= buf@.len(),
    ensures
        r is Some <==> dec_attachment(buf@.skip(pos as int)) is Some,
        r matches Some(p) ==> {
            &&& pos < p.1 <= buf@.len()
            &&& dec_attachment(buf@.skip(pos as int)) == Some((p.0@, buf@.skip(p.1 as int)))
        },
{
    let (id, p1) = match read_i64(buf, pos) {
        Some(x) => x,
        None => {
            return None;
        },
    };
    let (secret_id, p2) = match read_i64(buf, p1) {
        Some(x) => x,
        None => {
            return None;
        },
    };
    let (filename, p3) = match read_string(buf, p2) {
        Some(x) => x,
        None => {
            return None;
        },
    };
    let (mime_type, p4) = match read_string(buf, p3) {
        Some(x) => x,
        None => {
            return None;
        },
    };
    let (created_at, p5) = match read_u64(buf, p4) {
        Some(x) => x,
        None => {
            return None;
        },
    };
    let (content, p6) = match read_bytes(buf, p5) {
        Some(x) => x,
        None => {
            return None;
        },
    };
    let file_size = content.len() as u64;
    let a = Attachment { id, secret_id, filename, mime_type, file_size, created_at, content };
    Some((a, p6))
}

/// Parse a store image, exactly as `dec_store` states it, and hold it to
/// the store's invariant: bytes that do not carry a well-formed store are
/// malformed.
#[verifier::spinoff_prover]
#[verifier::rlimit(100)]
pub fn decode_store(buf: &[u8]) -> (r: Result<RecordStore, VaultError>)
    ensures
        r matches Ok(st) ==> dec_store(buf@) == Some(st@) && st.wf(),
        r is Err ==> r == Err::<RecordStore, VaultError>(VaultError::InvalidFormat) && match
            dec_store(buf@) {
            Some(v) => !v.wf(),
            None => true,
        },
{
    proof {
        assert(buf@.skip(0) =~= buf@);
    }
    let (ver, pos0) = match read_u64(buf, 0) {
        Some(x) => x,
        None => {
            return Err(VaultError::InvalidFormat);
        },
    };
    if ver > 0xFFFFFFFFu64 {
        return Err(VaultError::InvalidFormat);
    }
    let (nsid, pos1) = match read_i64(buf, pos0) {
        Some(x) => x,
        None => {
            return Err(VaultError::InvalidFormat);
        },
    };
    let (npid, pos2) = match read_i64(buf, pos1) {
        Some(x) => x,
        None => {
            return Err(VaultError::InvalidFormat);
        },
    };
    let (naid, pos3) = match read_i64(buf, pos2) {
        Some(x) => x,
        None => {
            return Err(VaultError::InvalidFormat);
        },
    };
    let (ns, pos4) = match read_u64(buf, pos3) {
        Some(x) => x,
        None => {
            return Err(VaultError::InvalidFormat);
        },
    };
    let ghost srest = buf@.skip(pos4 as int);
    let mut secrets: Vec<Secret> = Vec::new();
    let mut pos: usize = pos4;
    let mut i: u64 = 0;
    proof {
        assert(view_secrets(secrets@) =~= Seq::<SecretV>::empty());
    }
    while i < ns
        invariant
            i <= ns,
            pos <= buf@.len(),
            dec_u64(buf@) == Some((ver, buf@.skip(pos0 as int))),
            ver <= 0xFFFFFFFFu64,
            dec_i64(buf@.skip(pos0 as int)) == Some((nsid, buf@.skip(pos1 as int))),
            dec_i64(buf@.skip(pos1 as int)) == Some((npid, buf@.skip(pos2 as int))),
            dec_i64(buf@.skip(pos2 as int)) == Some((naid, buf@.skip(pos3 as int))),
            dec_u64(buf@.skip(pos3 as int)) == Some((ns, srest)),
            srest == buf@.skip(pos4 as int),
            dec_secret_list(srest, ns as int) is Some <==> dec_secret_list(
                buf@.skip(pos as int),
                ns - i,
            ) is Some,
            dec_secret_list(buf@.skip(pos as int), ns - i) matches Some(t) ==> dec_secret_list(
                srest,
                ns as int,
            ) == Some(((view_secrets(secrets@) + t.0), t.1)),
        decreases ns - i,
    {
        let (s, p2) = match read_secret(buf, pos) {
            Some(x) => x,
            None => {
                return Err(VaultError::InvalidFormat);
            },
        };
        secrets.push(s);
        proof {
            assert(view_secrets(secrets@).last() == s@);
            assert(view_secrets(secrets@).drop_last() =~= view_secrets(secrets@.drop_last()));
            match dec_secret_list(buf@.skip(p2 as int), ns - i - 1) {
                Some(t) => {
                    assert(dec_secret_list(buf@.skip(pos as int), ns - i) == Some(
                        ((seq![s@] + t.0), t.1),
                    ));
                    assert(view_secrets(secrets@.drop_last()) + (seq![s@] + t.0) =~= view_secrets(
                        secrets@,
                    ) + t.0);
                },
                None => {},
            }
        }
        pos = p2;
        i = i + 1;
    }
    proof {
        assert(dec_secret_list(buf@.skip(pos as int), 0) == Some(
            (Seq::<SecretV>::empty(), buf@.skip(pos as int)),
        ));
        assert(view_secrets(secrets@) + Seq::<SecretV>::empty() =~= view_secrets(secrets@));
        assert(dec_secret_list(srest, ns as int) == Some(
            (view_secrets(secrets@), buf@.skip(pos as int)),
        ));
    }
    let (np, pos5) = match read_u64(buf, pos) {
        Some(x) => x,
        None => {
            return Err(VaultError::InvalidFormat);
        },
    };
    let ghost prest = buf@.skip(pos5 as int);
    let mut projects: Vec<Project> = Vec::new();
    let mut pos_p: usize = pos5;
    let mut jp: u64 = 0;
    proof {
        assert(view_projects(projects@) =~= Seq::<ProjectV>::empty());
    }
    while jp < np
        invariant
            jp <= np,
            pos_p <= buf@.len(),
            dec_u64(buf@) == Some((ver, buf@.skip(pos0 as int))),
            ver <= 0xFFFFFFFFu64,
            dec_i64(buf@.skip(pos0 as int)) == Some((nsid, buf@.skip(pos1 as int))),
            dec_i64(buf@.skip(pos1 as int)) == Some((npid, buf@.skip(pos2 as int))),
            dec_i64(buf@.skip(pos2 as int)) == Some((naid, buf@.skip(pos3 as int))),
            dec_u64(buf@.skip(pos3 as int)) == Some((ns, srest)),
            srest == buf@.skip(pos4 as int),
            dec_secret_list(srest, ns as int) == Some(
                (view_secrets(secrets@), buf@.skip(pos as int)),
            ),
            dec_u64(buf@.skip(pos as int)) == Some((np, prest)),
            prest == buf@.skip(pos5 as int),
            dec_project_list(prest, np as int) is Some <==> dec_project_list(
                buf@.skip(pos_p as int),
                np - jp,
            ) is Some,
            dec_project_list(buf@.skip(pos_p as int), np - jp) matches Some(t)
                ==> dec_project_list(prest, np as int) == Some(
                ((view_projects(projects@) + t.0), t.1),
            ),
        decreases np - jp,
    {
        let (p, p2) = match read_project(buf, pos_p) {
            Some(x) => x,
            None => {
                return Err(VaultError::InvalidFormat);
            },
        };
        projects.push(p);
        proof {
            assert(view_projects(projects@).last() == p@);
            assert(view_projects(projects@).drop_last() =~= view_projects(projects@.drop_last()));
            match dec_project_list(buf@.skip(p2 as int), np - jp - 1) {
                Some(t) => {
                    assert(dec_project_list(buf@.skip(pos_p as int), np - jp) == Some(
                        ((seq![p@] + t.0), t.1),
                    ));
                    assert(view_projects(projects@.drop_last()) + (seq![p@] + t.0) =~= view_projects(
                        projects@,
                    ) + t.0);
                },
                None => {},
            }
        }
        pos_p = p2;
        jp = jp + 1;
    }
    proof {
        assert(dec_project_list(buf@.skip(pos_p as int), 0) == Some(
            (Seq::<ProjectV>::empty(), buf@.skip(pos_p as int)),
        ));
        assert(view_projects(projects@) + Seq::<ProjectV>::empty() =~= view_projects(projects@));
        assert(dec_project_list(prest, np as int) == Some(
            (view_projects(projects@), buf@.skip(pos_p as int)),
        ));
    }
    let (na, pos6) = match read_u64(buf, pos_p) {
        Some(x) => x,
        None => {
            return Err(VaultError::InvalidFormat);
        },
    };
    let ghost arest = buf@.skip(pos6 as int);
    let mut attachments: Vec<Attachment> = Vec::new();
    let mut pos_a: usize = pos6;
    let mut ja: u64 = 0;
    proof {
        assert(view_attachments(attachments@) =~= Seq::<AttachmentV>::empty());
    }
    while ja < na
        invariant
            ja <= na,
            pos_a <= buf@.len(),
            dec_u64(buf@) == Some((ver, buf@.skip(pos0 as int))),
            ver <= 0xFFFFFFFFu64,
            dec_i64(buf@.skip(pos0 as int)) == Some((nsid, buf@.skip(pos1 as int))),
            dec_i64(buf@.skip(pos1 as int)) == Some((npid, buf@.skip(pos2 as int))),
            dec_i64(buf@.skip(pos2 as int)) == Some((naid, buf@.skip(pos3 as int))),
            dec_u64(buf@.skip(pos3 as int)) == Some((ns, srest)),
            srest == buf@.skip(pos4 as int),
            dec_secret_list(srest, ns as int) == Some(
                (view_secrets(secrets@), buf@.skip(pos as int)),
            ),
            dec_u64(buf@.skip(pos as int)) == Some((np, prest)),
            prest == buf@.skip(pos5 as int),
            dec_project_list(prest, np as int) == Some(
                (view_projects(projects@), buf@.skip(pos_p as int)),
            ),
            dec_u64(buf@.skip(pos_p as int)) == Some((na, arest)),
            arest == buf@.skip(pos6 as int),
            dec_attachment_list(arest, na as int) is Some <==> dec_attachment_list(
                buf@.skip(pos_a as int),
                na - ja,
            ) is Some,
            dec_attachment_list(buf@.skip(pos_a as int), na - ja) matches Some(t)
                ==> dec_attachment_list(arest, na as int) == Some(
                ((view_attachments(attachments@) + t.0), t.1),
            ),
        decreases na - ja,
    {
        let (a, p2) = match read_attachment(buf, pos_a) {
            Some(x) => x,
            None => {
                return Err(VaultError::InvalidFormat);
            },
        };
        attachments.push(a);
        proof {
            assert(view_attachments(attachments@).last() == a@);
            assert(view_attachments(attachments@).drop_last() =~= view_attachments(
                attachments@.drop_last(),
            ));
            match dec_attachment_list(buf@.skip(p2 as int), na - ja - 1) {
                Some(t) => {
                    assert(dec_attachment_list(buf@.skip(pos_a as int), na - ja) == Some(
                        ((seq![a@] + t.0), t.1),
                    ));
                    assert(view_attachments(attachments@.drop_last()) + (seq![a@] + t.0)
                        =~= view_attachments(attachments@) + t.0);
                },
                None => {},
            }
        }
        pos_a = p2;
        ja = ja + 1;
    }
    proof {
        assert(dec_attachment_list(buf@.skip(pos_a as int), 0) == Some(
            (Seq::<AttachmentV>::empty(), buf@.skip(pos_a as int)),
        ));
        assert(view_attachments(attachments@) + Seq::<AttachmentV>::empty() =~= view_attachments(
            attachments@,
        ));
        assert(dec_attachment_list(arest, na as int) == Some(
            (view_attachments(attachments@), buf@.skip(pos_a as int)),
        ));
    }
    if pos_a != buf.len() {
        proof {
            assert(buf@.skip(pos_a as int).len() != 0);
        }
        return Err(VaultError::InvalidFormat);
    }
    proof {
        assert(buf@.skip(pos_a as int).len() == 0);
    }
    let st = RecordStore {
        version: ver as u32,
        secrets,
        projects,
        attachments,
        next_secret_id: nsid,
        next_project_id: npid,
        next_attachment_id: naid,
    };
    proof {
        assert(dec_store(buf@) == Some(st@));
    }
    if !st.validate() {
        return Err(VaultError::InvalidFormat);
    }
    Ok(st)
}

} // verus!
