//! Host-side preparation of the raw message.
use vstd::prelude::*;
use vstd::utf8::encode_utf8;
use crate::extract::{lossy_text, utf8_lossy};

verus! {

/// The header fields of a message in order, each as its name and raw value;
/// `None` when the header block does not parse.
pub uninterp spec fn header_fields(raw: Seq<u8>) -> Option<Seq<(Seq<char>, Seq<u8>)>>;

pub open spec fn fields_view(f: Seq<(String, Vec<u8>)>) -> Seq<(Seq<char>, Seq<u8>)> {
    f.map_values(|p: (String, Vec<u8>)| (p.0@, p.1@))
}

/// Relies on `mailparse::parse_headers`, reading each field's name and raw
/// value; the fields depend on the bytes alone.
#[verifier::external_body]
fn parse_header_fields(raw: &[u8]) -> (r: Option<Vec<(String, Vec<u8>)>>)
    ensures
        match r {
            Some(f) => header_fields(raw@) == Some(fields_view(f@)),
            None => header_fields(raw@) is None,
        },
{
    let (headers, _) = mailparse::parse_headers(raw).ok()?;
    Some(headers.iter().map(|h| (h.get_key(), h.get_value_raw().to_vec())).collect())
}

pub open spec fn ascii_lower(b: u8) -> u8 {
    if 65 <= b <= 90 {
        (b + 32) as u8
    } else {
        b
    }
}

/// `dkim-signature` in lowercase ASCII.
pub open spec fn signature_field_name() -> Seq<u8> {
    seq![100u8, 107, 105, 109, 45, 115, 105, 103, 110, 97, 116, 117, 114, 101]
}

/// Whether a field name is `DKIM-Signature`, ignoring ASCII case.
pub open spec fn is_signature_field(name: Seq<char>) -> bool {
    let b = encode_utf8(name);
    b.len() == 14 && forall|i: int| 0 <= i < 14 ==> ascii_lower(#[trigger] b[i]) == signature_field_name()[i]
}

/// Values of the signature fields, in order, read as text.
pub open spec fn signature_values(fields: Seq<(Seq<char>, Seq<u8>)>) -> Seq<Seq<char>>
    decreases fields.len(),
{
    if fields.len() == 0 {
        Seq::empty()
    } else {
        let rest = signature_values(fields.drop_last());
        if is_signature_field(fields.last().0) {
            rest.push(lossy_text(fields.last().1))
        } else {
            rest
        }
    }
}

fn is_signature_name(name: &String) -> (r: bool)
    ensures
        r == is_signature_field(name@),
{
    let b = name.as_str().as_bytes();
    let want: [u8; 14] = [100u8, 107, 105, 109, 45, 115, 105, 103, 110, 97, 116, 117, 114, 101];
    assert(want@ =~= signature_field_name());
    if b.len() != 14 {
        return false;
    }
    let mut i: usize = 0;
    while i < 14
        invariant
            i <= 14,
            b@.len() == 14,
            b@ == encode_utf8(name@),
            want@ == signature_field_name(),
            forall|k: int| 0 <= k < i ==> ascii_lower(#[trigger] b@[k]) == signature_field_name()[k],
        decreases 14 - i,
    {
        let c = b[i];
        let lower = if 65 <= c && c <= 90 { c + 32 } else { c };
        if lower != want[i] {
            return false;
        }
        i = i + 1;
    }
    true
}

/// Errors reading the message on the host.
#[derive(Debug, Clone, Copy, PartialEq, Eq, Structural)]
pub enum MessageError {
    /// The header block does not parse.
    MalformedHeaders,
}

/// The values of the message's DKIM-Signature header fields, in order.
pub fn signature_header_values(raw: &[u8]) -> (r: Result<Vec<String>, MessageError>)
    ensures
        match r {
            Ok(v) => header_fields(raw@) matches Some(f) && v@.map_values(|s: String| s@) == signature_values(f),
            Err(_) => header_fields(raw@) is None,
        },
{
    let fields = match parse_header_fields(raw) {
        Some(f) => f,
        None => return Err(MessageError::MalformedHeaders),
    };
    let ghost fv = fields_view(fields@);
    let mut out: Vec<String> = Vec::new();
    let mut i: usize = 0;
    while i < fields.len()
        invariant
            i <= fields@.len(),
            fv == fields_view(fields@),
            out@.map_values(|s: String| s@) == signature_values(fv.subrange(0, i as int)),
        decreases fields@.len() - i,
    {
        assert(fv.subrange(0, i + 1).drop_last() =~= fv.subrange(0, i as int));
        if is_signature_name(&fields[i].0) {
            let text = utf8_lossy(fields[i].1.as_slice());
            out.push(text);
            assert(out@.map_values(|s: String| s@) =~= signature_values(fv.subrange(0, i as int)).push(text@));
        }
        i = i + 1;
    }
    assert(fv.subrange(0, fv.len() as int) =~= fv);
    Ok(out)
}

/// `s` with every line feed written as carriage return and line feed.
pub open spec fn crlf_lines(s: Seq<u8>) -> Seq<u8>
    decreases s.len(),
{
    if s.len() == 0 {
        Seq::empty()
    } else if s.last() == 10u8 {
        crlf_lines(s.drop_last()) + seq![13u8, 10u8]
    } else {
        crlf_lines(s.drop_last()).push(s.last())
    }
}

/// Writes every line feed of the message as carriage return and line feed,
/// the line ending that signatures and digests are computed over.
pub fn normalize_line_endings(s: &[u8]) -> (r: Vec<u8>)
    ensures
        r@ == crlf_lines(s@),
{
    let mut out: Vec<u8> = Vec::new();
    let mut i: usize = 0;
    while i < s.len()
        invariant
            i <= s@.len(),
            out@ == crlf_lines(s@.subrange(0, i as int)),
        decreases s@.len() - i,
    {
        assert(s@.subrange(0, i + 1).drop_last() =~= s@.subrange(0, i as int));
        if s[i] == 10u8 {
            out.push(13u8);
            out.push(10u8);
            assert(out@ =~= crlf_lines(s@.subrange(0, i as int)) + seq![13u8, 10u8]);
        } else {
            out.push(s[i]);
        }
        i = i + 1;
    }
    assert(s@.subrange(0, s@.len() as int) =~= s@);
    out
}

} // verus!
