//! The public claim committed by a run, and its contract-ABI byte layout.
use vstd::prelude::*;
use vstd::utf8::*;

verus! {

/// Big-endian bytes of a 64-bit value.
pub open spec fn u64_be(x: u64) -> Seq<u8> {
    seq![
        (x >> 56u64) as u8,
        (x >> 48u64) as u8,
        (x >> 40u64) as u8,
        (x >> 32u64) as u8,
        (x >> 24u64) as u8,
        (x >> 16u64) as u8,
        (x >> 8u64) as u8,
        x as u8,
    ]
}

/// A 32-byte ABI word holding `n` as an unsigned big-endian integer.
pub open spec fn abi_word(n: nat) -> Seq<u8> {
    Seq::new(24, |i: int| 0u8) + u64_be(n as u64)
}

proof fn lemma_u64_be_inverse(x: u64)
    ensures
        ((u64_be(x)[0] as u64) << 56u64) | ((u64_be(x)[1] as u64) << 48u64) | ((u64_be(x)[2] as u64) << 40u64)
            | ((u64_be(x)[3] as u64) << 32u64) | ((u64_be(x)[4] as u64) << 24u64) | ((u64_be(x)[5] as u64) << 16u64)
            | ((u64_be(x)[6] as u64) << 8u64) | (u64_be(x)[7] as u64) == x,
{
    assert(((((x >> 56u64) as u8) as u64) << 56u64) | ((((x >> 48u64) as u8) as u64) << 48u64) | ((((x >> 40u64) as u8) as u64) << 40u64)
        | ((((x >> 32u64) as u8) as u64) << 32u64) | ((((x >> 24u64) as u8) as u64) << 24u64) | ((((x >> 16u64) as u8) as u64) << 16u64)
        | ((((x >> 8u64) as u8) as u64) << 8u64) | ((x as u8) as u64) == x) by (bit_vector);
}


proof fn lemma_u64_be_of_bytes(b0: u8, b1: u8, b2: u8, b3: u8, b4: u8, b5: u8, b6: u8, b7: u8)
    ensures
        u64_be(((b0 as u64) << 56u64) | ((b1 as u64) << 48u64) | ((b2 as u64) << 40u64) | ((b3 as u64) << 32u64)
            | ((b4 as u64) << 24u64) | ((b5 as u64) << 16u64) | ((b6 as u64) << 8u64) | (b7 as u64))
            == seq![b0, b1, b2, b3, b4, b5, b6, b7],
{
    let x = ((b0 as u64) << 56u64) | ((b1 as u64) << 48u64) | ((b2 as u64) << 40u64) | ((b3 as u64) << 32u64)
        | ((b4 as u64) << 24u64) | ((b5 as u64) << 16u64) | ((b6 as u64) << 8u64) | (b7 as u64);
    assert(((x >> 56u64) as u8) == b0 && ((x >> 48u64) as u8) == b1 && ((x >> 40u64) as u8) == b2
        && ((x >> 32u64) as u8) == b3 && ((x >> 24u64) as u8) == b4 && ((x >> 16u64) as u8) == b5
        && ((x >> 8u64) as u8) == b6 && (x as u8) == b7) by (bit_vector)
        requires
            x == ((b0 as u64) << 56u64) | ((b1 as u64) << 48u64) | ((b2 as u64) << 40u64) | ((b3 as u64) << 32u64)
                | ((b4 as u64) << 24u64) | ((b5 as u64) << 16u64) | ((b6 as u64) << 8u64) | (b7 as u64),
    ;
    assert(u64_be(x) =~= seq![b0, b1, b2, b3, b4, b5, b6, b7]);
}

/// Appends the ABI word of `n`.
fn push_word(out: &mut Vec<u8>, n: u64)
    ensures
        final(out)@ == old(out)@ + abi_word(n as nat),
{
    let mut i: usize = 0;
    while i < 24
        invariant
            i <= 24,
            out@ == old(out)@ + Seq::new(i as nat, |k: int| 0u8),
        decreases 24 - i,
    {
        out.push(0u8);
        i = i + 1;
        assert(out@ =~= old(out)@ + Seq::new(i as nat, |k: int| 0u8));
    }
    out.push((n >> 56u64) as u8);
    out.push((n >> 48u64) as u8);
    out.push((n >> 40u64) as u8);
    out.push((n >> 32u64) as u8);
    out.push((n >> 24u64) as u8);
    out.push((n >> 16u64) as u8);
    out.push((n >> 8u64) as u8);
    out.push(n as u8);
    assert(out@ =~= old(out)@ + abi_word(n as nat));
}

/// Reads the ABI word at `at` when it holds a value that fits in 64 bits.
fn read_word(b: &[u8], at: usize) -> (r: Option<u64>)
    requires
        at + 32 <= b@.len(),
    ensures
        match r {
            Some(x) => b@.subrange(at as int, at + 32) == abi_word(x as nat),
            None => forall|n: u64| b@.subrange(at as int, at + 32) != #[trigger] abi_word(n as nat),
        },
{
    let len = b.len();
    let mut i: usize = 0;
    while i < 24
        invariant
            i <= 24,
            len == b@.len(),
            at + 32 <= b@.len(),
            forall|k: int| at <= k < at + i ==> b@[k] == 0u8,
        decreases 24 - i,
    {
        if b[at + i] != 0u8 {
            proof {
                assert forall|n: u64| b@.subrange(at as int, at + 32) != #[trigger] abi_word(n as nat) by {
                    if b@.subrange(at as int, at + 32) == abi_word(n as nat) {
                        assert(b@.subrange(at as int, at + 32)[i as int] == abi_word(n as nat)[i as int]);
                    }
                }
            }
            return None;
        }
        i = i + 1;
    }
    let x: u64 = ((b[at + 24] as u64) << 56u64) | ((b[at + 25] as u64) << 48u64) | ((b[at + 26] as u64) << 40u64)
        | ((b[at + 27] as u64) << 32u64) | ((b[at + 28] as u64) << 24u64) | ((b[at + 29] as u64) << 16u64)
        | ((b[at + 30] as u64) << 8u64) | (b[at + 31] as u64);
    proof {
        lemma_u64_be_of_bytes(b@[at + 24], b@[at + 25], b@[at + 26], b@[at + 27], b@[at + 28], b@[at + 29], b@[at + 30], b@[at + 31]);
        assert(b@.subrange(at as int, at + 32) =~= abi_word(x as nat));
    }
    Some(x)
}


/// The record committed as a run's public output.
#[derive(Debug, Clone)]
pub struct PublicClaim {
    /// SHA-256 of the UTF-8 bytes of the claimed sending domain.
    pub from_domain_hash: [u8; 32],
    /// SHA-256 of the raw public-key bytes.
    pub public_key_hash: [u8; 32],
    /// Whether the message authenticated against the key.
    pub result: bool,
    pub receiver: String,
    pub amount: String,
    pub sender: String,
}

/// Mathematical model of a [`PublicClaim`].
pub struct ClaimView {
    pub from_domain_hash: Seq<u8>,
    pub public_key_hash: Seq<u8>,
    pub result: bool,
    pub receiver: Seq<char>,
    pub amount: Seq<char>,
    pub sender: Seq<char>,
}

impl View for PublicClaim {
    type V = ClaimView;

    open spec fn view(&self) -> ClaimView {
        ClaimView {
            from_domain_hash: self.from_domain_hash@,
            public_key_hash: self.public_key_hash@,
            result: self.result,
            receiver: self.receiver@,
            amount: self.amount@,
            sender: self.sender@,
        }
    }
}

/// `n` rounded up to a whole number of 32-byte words.
pub open spec fn padded(n: nat) -> nat {
    if n % 32 == 0 {
        n
    } else {
        n + (32 - n % 32) as nat
    }
}

pub open spec fn zeros(n: nat) -> Seq<u8> {
    Seq::new(n, |i: int| 0u8)
}

/// A dynamic `string` field in the tail: its length word, then its bytes
/// zero-padded to a word boundary.
pub open spec fn string_tail(bytes: Seq<u8>) -> Seq<u8> {
    abi_word(bytes.len()) + bytes + zeros((padded(bytes.len()) - bytes.len()) as nat)
}

pub open spec fn tail_len(bytes: Seq<u8>) -> nat {
    32 + padded(bytes.len())
}

/// Offset, from the start of the record, of the tail of `amount`.
pub open spec fn amount_offset(v: ClaimView) -> nat {
    192 + tail_len(encode_utf8(v.receiver))
}

/// Offset, from the start of the record, of the tail of `sender`.
pub open spec fn sender_offset(v: ClaimView) -> nat {
    amount_offset(v) + tail_len(encode_utf8(v.amount))
}

/// Length of the encoding of `v`.
pub open spec fn claim_len(v: ClaimView) -> nat {
    32 + sender_offset(v) + tail_len(encode_utf8(v.sender))
}

/// A claim whose encoding can be held in memory.
pub open spec fn encodable(v: ClaimView) -> bool {
    &&& v.from_domain_hash.len() == 32
    &&& v.public_key_hash.len() == 32
    &&& claim_len(v) <= usize::MAX
}

/// The ABI encoding of the claim as one dynamic struct value: the offset of
/// the struct (one word), then the head (two `bytes32`, a `bool`, three
/// offsets relative to the head), then the three string tails in order.
pub open spec fn claim_bytes(v: ClaimView) -> Seq<u8> {
    abi_word(32) + v.from_domain_hash + v.public_key_hash + abi_word(if v.result { 1 } else { 0 })
        + abi_word(192) + abi_word(amount_offset(v)) + abi_word(sender_offset(v))
        + string_tail(encode_utf8(v.receiver)) + string_tail(encode_utf8(v.amount))
        + string_tail(encode_utf8(v.sender))
}

fn push_bytes(out: &mut Vec<u8>, b: &[u8])
    ensures
        final(out)@ == old(out)@ + b@,
{
    let mut i: usize = 0;
    while i < b.len()
        invariant
            i <= b@.len(),
            out@ == old(out)@ + b@.subrange(0, i as int),
        decreases b@.len() - i,
    {
        out.push(b[i]);
        i = i + 1;
        assert(out@ =~= old(out)@ + b@.subrange(0, i as int));
    }
    assert(b@.subrange(0, b@.len() as int) =~= b@);
}

/// Number of zero bytes that pad `n` bytes to a word boundary.
fn pad_of(n: usize) -> (r: usize)
    ensures
        r == padded(n as nat) - n,
        r < 32,
{
    let rem = n % 32;
    if rem == 0 {
        0
    } else {
        32 - rem
    }
}

fn push_string_tail(out: &mut Vec<u8>, b: &[u8])
    ensures
        final(out)@ == old(out)@ + string_tail(b@),
{
    push_word(out, b.len() as u64);
    push_bytes(out, b);
    let pad = pad_of(b.len());
    let mut i: usize = 0;
    let ghost mid = out@;
    while i < pad
        invariant
            i <= pad,
            out@ == mid + zeros(i as nat),
        decreases pad - i,
    {
        out.push(0u8);
        i = i + 1;
        assert(out@ =~= mid + zeros(i as nat));
    }
    assert(out@ =~= old(out)@ + string_tail(b@));
}

/// Bytes of one 32-byte word of the head for a `bytes32`.
fn push_hash(out: &mut Vec<u8>, h: &[u8; 32])
    ensures
        final(out)@ == old(out)@ + h@,
{
    push_bytes(out, h.as_slice());
}

impl PublicClaim {
    /// Encodes the claim in its ABI layout.
    pub fn encode(&self) -> (r: Vec<u8>)
        requires
            claim_len(self@) <= usize::MAX,
        ensures
            r@ == claim_bytes(self@),
    {
        let rb = self.receiver.as_str().as_bytes();
        let ab = self.amount.as_str().as_bytes();
        let sb = self.sender.as_str().as_bytes();
        let off_amount = 192 + 32 + rb.len() + pad_of(rb.len());
        let off_sender = off_amount + 32 + ab.len() + pad_of(ab.len());
        let mut out: Vec<u8> = Vec::new();
        push_word(&mut out, 32);
        push_hash(&mut out, &self.from_domain_hash);
        push_hash(&mut out, &self.public_key_hash);
        push_word(&mut out, if self.result { 1 } else { 0 });
        push_word(&mut out, 192);
        push_word(&mut out, off_amount as u64);
        push_word(&mut out, off_sender as u64);
        push_string_tail(&mut out, rb);
        push_string_tail(&mut out, ab);
        push_string_tail(&mut out, sb);
        out
    }
}


proof fn lemma_abi_word_injective(x: u64, n: nat)
    requires
        n <= u64::MAX,
        abi_word(x as nat) == abi_word(n),
    ensures
        x as nat == n,
{
    assert(abi_word(x as nat).subrange(24, 32) =~= u64_be(x));
    assert(abi_word(n).subrange(24, 32) =~= u64_be(n as u64));
    lemma_u64_be_inverse(x);
    lemma_u64_be_inverse(n as u64);
}

proof fn lemma_tail_parts(t: Seq<u8>)
    ensures
        string_tail(t).len() == tail_len(t),
        string_tail(t).subrange(0, 32) == abi_word(t.len()),
        string_tail(t).subrange(32, 32 + t.len() as int) == t,
{
    assert(string_tail(t).subrange(0, 32) =~= abi_word(t.len()));
    assert(string_tail(t).subrange(32, 32 + t.len() as int) =~= t);
}

/// Where each field of a claim lies in its encoding.
proof fn lemma_layout(v: ClaimView, b: Seq<u8>)
    ensures
        encodable(v) && claim_bytes(v) == b ==> {
            let r = encode_utf8(v.receiver);
            let a = encode_utf8(v.amount);
            let s = encode_utf8(v.sender);
            let ao = amount_offset(v) as int;
            let so = sender_offset(v) as int;
            &&& b.len() == claim_len(v)
            &&& b.subrange(0, 32) == abi_word(32)
            &&& b.subrange(32, 64) == v.from_domain_hash
            &&& b.subrange(64, 96) == v.public_key_hash
            &&& b.subrange(96, 128) == abi_word(if v.result { 1 } else { 0 })
            &&& b.subrange(128, 160) == abi_word(192)
            &&& b.subrange(160, 192) == abi_word(amount_offset(v))
            &&& b.subrange(192, 224) == abi_word(sender_offset(v))
            &&& b.subrange(224, 256) == abi_word(r.len())
            &&& b.subrange(256, 256 + r.len() as int) == r
            &&& b.subrange(32 + ao, 64 + ao) == abi_word(a.len())
            &&& b.subrange(64 + ao, 64 + ao + a.len() as int) == a
            &&& b.subrange(32 + so, 64 + so) == abi_word(s.len())
            &&& b.subrange(64 + so, 64 + so + s.len() as int) == s
        },
{
    if encodable(v) && claim_bytes(v) == b {
        let r = encode_utf8(v.receiver);
        let a = encode_utf8(v.amount);
        let s = encode_utf8(v.sender);
        let ao = amount_offset(v) as int;
        let so = sender_offset(v) as int;
        let head = abi_word(32) + v.from_domain_hash + v.public_key_hash + abi_word(if v.result { 1 } else { 0 })
            + abi_word(192) + abi_word(amount_offset(v)) + abi_word(sender_offset(v));
        let tr = string_tail(r);
        let ta = string_tail(a);
        let ts = string_tail(s);
        lemma_tail_parts(r);
        lemma_tail_parts(a);
        lemma_tail_parts(s);
        assert(head.len() == 224);
        assert(b == head + tr + ta + ts);
        assert(b.len() == claim_len(v));
        assert(b.subrange(0, 224) =~= head);
        assert(head.subrange(0, 32) =~= abi_word(32));
        assert(head.subrange(32, 64) =~= v.from_domain_hash);
        assert(head.subrange(64, 96) =~= v.public_key_hash);
        assert(head.subrange(96, 128) =~= abi_word(if v.result { 1 } else { 0 }));
        assert(head.subrange(128, 160) =~= abi_word(192));
        assert(head.subrange(160, 192) =~= abi_word(amount_offset(v)));
        assert(head.subrange(192, 224) =~= abi_word(sender_offset(v)));
        assert(b.subrange(0, 32) =~= head.subrange(0, 32));
        assert(b.subrange(32, 64) =~= head.subrange(32, 64));
        assert(b.subrange(64, 96) =~= head.subrange(64, 96));
        assert(b.subrange(96, 128) =~= head.subrange(96, 128));
        assert(b.subrange(128, 160) =~= head.subrange(128, 160));
        assert(b.subrange(160, 192) =~= head.subrange(160, 192));
        assert(b.subrange(192, 224) =~= head.subrange(192, 224));
        assert(b.subrange(224, 32 + ao) =~= tr);
        assert(b.subrange(32 + ao, 32 + so) =~= ta);
        assert(b.subrange(32 + so, b.len() as int) =~= ts);
        assert(b.subrange(224, 256) =~= tr.subrange(0, 32));
        assert(b.subrange(256, 256 + r.len() as int) =~= tr.subrange(32, 32 + r.len() as int));
        assert(b.subrange(32 + ao, 64 + ao) =~= ta.subrange(0, 32));
        assert(b.subrange(64 + ao, 64 + ao + a.len() as int) =~= ta.subrange(32, 32 + a.len() as int));
        assert(b.subrange(32 + so, 64 + so) =~= ts.subrange(0, 32));
        assert(b.subrange(64 + so, 64 + so + s.len() as int) =~= ts.subrange(32, 32 + s.len() as int));
    }
}


/// Relies on `String::from_utf8`: it succeeds exactly on well-formed UTF-8
/// and then holds the characters those bytes encode.
#[verifier::external_body]
fn utf8_string(bytes: Vec<u8>) -> (r: Option<String>)
    ensures
        r is Some <==> valid_utf8(bytes@),
        r matches Some(s) ==> s@ == decode_utf8(bytes@),
{
    String::from_utf8(bytes).ok()
}

fn copy_range(b: &[u8], from: usize, to: usize) -> (r: Vec<u8>)
    requires
        from <= to <= b@.len(),
    ensures
        r@ == b@.subrange(from as int, to as int),
{
    let mut out: Vec<u8> = Vec::new();
    let mut i: usize = from;
    while i < to
        invariant
            from <= i <= to <= b@.len(),
            out@ == b@.subrange(from as int, i as int),
        decreases to - i,
    {
        out.push(b[i]);
        i = i + 1;
        assert(out@ =~= b@.subrange(from as int, i as int));
    }
    out
}

fn read_hash(b: &[u8], at: usize) -> (r: [u8; 32])
    requires
        at + 32 <= b@.len(),
    ensures
        r@ == b@.subrange(at as int, at + 32),
{
    let len = b.len();
    let mut h: [u8; 32] = [0u8; 32];
    let mut i: usize = 0;
    while i < 32
        invariant
            i <= 32,
            len == b@.len(),
            at + 32 <= b@.len(),
            forall|k: int| 0 <= k < i ==> h@[k] == b@[at + k],
        decreases 32 - i,
    {
        h[i] = b[at + i];
        i = i + 1;
    }
    assert(h@ =~= b@.subrange(at as int, at + 32));
    h
}

/// Reads the string whose tail starts at `start` bytes past the first word.
fn read_string(b: &[u8], start: u64) -> (r: Option<String>)
    ensures
        r matches Some(s) ==> encode_utf8(s@).len() <= b@.len(),
        forall|t: Seq<char>|
            64 + start + encode_utf8(t).len() <= b@.len()
            && b@.subrange(32 + start, 64 + start) == abi_word(encode_utf8(t).len())
            && #[trigger] b@.subrange(64 + start, 64 + start + encode_utf8(t).len()) == encode_utf8(t)
            ==> (r matches Some(s) && s@ == t),
{
    let len = b.len();
    if start as u128 + 64 > len as u128 {
        return None;
    }
    let at = 32 + start as usize;
    let n = match read_word(b, at) {
        Some(n) => n,
        None => {
            proof {
                assert forall|t: Seq<char>| 64 + start + encode_utf8(t).len() <= b@.len()
                    implies !(b@.subrange(32 + start, 64 + start) == abi_word(encode_utf8(t).len())) by {
                    let q = encode_utf8(t).len() as u64;
                    assert(b@.subrange(at as int, at + 32) != abi_word(q as nat));
                }
            }
            return None;
        },
    };
    if n as u128 + start as u128 + 64 > len as u128 {
        proof {
            assert forall|t: Seq<char>| 64 + start + encode_utf8(t).len() <= b@.len()
                && b@.subrange(32 + start, 64 + start) == abi_word(encode_utf8(t).len()) implies false by {
                lemma_abi_word_injective(n, encode_utf8(t).len());
            }
        }
        return None;
    }
    let bytes = copy_range(b, at + 32, at + 32 + n as usize);
    let r = utf8_string(bytes);
    proof {
        assert forall|t: Seq<char>|
            64 + start + encode_utf8(t).len() <= b@.len()
            && b@.subrange(32 + start, 64 + start) == abi_word(encode_utf8(t).len())
            && #[trigger] b@.subrange(64 + start, 64 + start + encode_utf8(t).len()) == encode_utf8(t)
            implies (r matches Some(s) && s@ == t) by {
            lemma_abi_word_injective(n, encode_utf8(t).len());
            encode_utf8_valid_utf8(t);
            encode_utf8_decode_utf8(t);
        }
        if r is Some {
            decode_utf8_encode_utf8(bytes@);
        }
    }
    r
}


fn bytes_equal(a: &Vec<u8>, b: &[u8]) -> (r: bool)
    ensures
        r == (a@ == b@),
{
    if a.len() != b.len() {
        return false;
    }
    let mut i: usize = 0;
    while i < a.len()
        invariant
            i <= a@.len(),
            a@.len() == b@.len(),
            forall|k: int| 0 <= k < i ==> a@[k] == b@[k],
        decreases a@.len() - i,
    {
        if a[i] != b[i] {
            return false;
        }
        i = i + 1;
    }
    assert(a@ =~= b@);
    true
}


/// Reads the fields of a claim laid out as [`claim_bytes`] describes.
#[verifier::rlimit(50)]
fn parse_claim(b: &[u8]) -> (r: Option<PublicClaim>)
    ensures
        forall|v: ClaimView| encodable(v) && #[trigger] claim_bytes(v) == b@ ==> (r matches Some(c) && c@ == v),
{
    let len = b.len();
    if len < 224 {
        proof {
            assert forall|v: ClaimView| encodable(v) && #[trigger] claim_bytes(v) == b@ implies false by {
                lemma_layout(v, b@);
            }
        }
        return None;
    }
    let from_domain_hash = read_hash(b, 32);
    let public_key_hash = read_hash(b, 64);
    let result = b[127] == 1u8;
    let amount_at = match read_word(b, 160) {
        Some(o) => o,
        None => {
            proof {
                assert forall|v: ClaimView| encodable(v) && #[trigger] claim_bytes(v) == b@ implies false by {
                    lemma_layout(v, b@);
                    assert(b@.subrange(160, 192) != abi_word(amount_offset(v) as u64 as nat));
                }
            }
            return None;
        },
    };
    let sender_at = match read_word(b, 192) {
        Some(o) => o,
        None => {
            proof {
                assert forall|v: ClaimView| encodable(v) && #[trigger] claim_bytes(v) == b@ implies false by {
                    lemma_layout(v, b@);
                    assert(b@.subrange(192, 224) != abi_word(sender_offset(v) as u64 as nat));
                }
            }
            return None;
        },
    };
    let receiver = match read_string(b, 192) {
        Some(s) => s,
        None => {
            proof {
                assert forall|v: ClaimView| encodable(v) && #[trigger] claim_bytes(v) == b@ implies false by {
                    lemma_layout(v, b@);
                    let t = encode_utf8(v.receiver);
                    assert(b@.subrange(64 + 192int, 64 + 192int + t.len()) == t);
                }
            }
            return None;
        },
    };
    let amount = match read_string(b, amount_at) {
        Some(s) => s,
        None => {
            proof {
                assert forall|v: ClaimView| encodable(v) && #[trigger] claim_bytes(v) == b@ implies false by {
                    lemma_layout(v, b@);
                    lemma_abi_word_injective(amount_at, amount_offset(v));
                    let t = encode_utf8(v.amount);
                    assert(b@.subrange(64 + amount_at, 64 + amount_at + t.len()) == t);
                }
            }
            return None;
        },
    };
    let sender = match read_string(b, sender_at) {
        Some(s) => s,
        None => {
            proof {
                assert forall|v: ClaimView| encodable(v) && #[trigger] claim_bytes(v) == b@ implies false by {
                    lemma_layout(v, b@);
                    lemma_abi_word_injective(sender_at, sender_offset(v));
                    let t = encode_utf8(v.sender);
                    assert(b@.subrange(64 + sender_at, 64 + sender_at + t.len()) == t);
                }
            }
            return None;
        },
    };
    let c = PublicClaim { from_domain_hash, public_key_hash, result, receiver, amount, sender };
    proof {
        assert forall|v: ClaimView| encodable(v) && #[trigger] claim_bytes(v) == b@ implies c@ == v by {
            lemma_layout(v, b@);
            lemma_abi_word_injective(amount_at, amount_offset(v));
            lemma_abi_word_injective(sender_at, sender_offset(v));
            let tr = encode_utf8(v.receiver);
            let ta = encode_utf8(v.amount);
            let ts = encode_utf8(v.sender);
            assert(b@.subrange(64 + 192int, 64 + 192int + tr.len()) == tr);
            assert(b@.subrange(64 + amount_at, 64 + amount_at + ta.len()) == ta);
            assert(b@.subrange(64 + sender_at, 64 + sender_at + ts.len()) == ts);
            assert(b@.subrange(96, 128)[31] == b@[127]);
            assert(c.from_domain_hash@ =~= v.from_domain_hash);
            assert(c.public_key_hash@ =~= v.public_key_hash);
        }
    }
    Some(c)
}

impl PublicClaim {
    /// Decodes bytes produced by [`PublicClaim::encode`]; any other bytes
    /// are rejected.
    pub fn decode(b: &[u8]) -> (r: Option<PublicClaim>)
        ensures
            match r {
                Some(c) => encodable(c@) && claim_bytes(c@) == b@,
                None => forall|v: ClaimView| encodable(v) ==> claim_bytes(v) != b@,
            },
    {
        let c = match parse_claim(b) {
            Some(c) => c,
            None => return None,
        };
        let rl = c.receiver.as_str().as_bytes().len();
        let al = c.amount.as_str().as_bytes().len();
        let sl = c.sender.as_str().as_bytes().len();
        let total: u128 = 320 + rl as u128 + pad_of(rl) as u128 + al as u128 + pad_of(al) as u128 + sl as u128
            + pad_of(sl) as u128;
        if total > usize::MAX as u128 {
            return None;
        }
        let e = c.encode();
        if bytes_equal(&e, b) {
            Some(c)
        } else {
            None
        }
    }
}


proof fn lemma_word_values_agree(m: nat, n: nat)
    requires
        m <= u64::MAX,
        n <= u64::MAX,
        abi_word(m) == abi_word(n),
    ensures
        m == n,
{
    lemma_abi_word_injective(m as u64, n);
}

/// Round trip of the claim encoding: two encodable claims with the same
/// encoding are the same claim, so [`PublicClaim::decode`] applied to the
/// output of [`PublicClaim::encode`] gives back the encoded claim, whatever
/// its strings hold (empty ones included) and however long they are.
pub proof fn lemma_claim_round_trip(v: ClaimView, w: ClaimView)
    requires
        encodable(v),
        encodable(w),
        claim_bytes(v) == claim_bytes(w),
    ensures
        v == w,
{
    let b = claim_bytes(v);
    lemma_layout(v, b);
    lemma_layout(w, b);
    let rv = encode_utf8(v.receiver);
    let rw = encode_utf8(w.receiver);
    let av = encode_utf8(v.amount);
    let aw = encode_utf8(w.amount);
    let sv = encode_utf8(v.sender);
    let sw = encode_utf8(w.sender);
    lemma_word_values_agree(rv.len(), rw.len());
    lemma_word_values_agree(amount_offset(v), amount_offset(w));
    lemma_word_values_agree(av.len(), aw.len());
    lemma_word_values_agree(sender_offset(v), sender_offset(w));
    lemma_word_values_agree(sv.len(), sw.len());
    encode_utf8_decode_utf8(v.receiver);
    encode_utf8_decode_utf8(w.receiver);
    encode_utf8_decode_utf8(v.amount);
    encode_utf8_decode_utf8(w.amount);
    encode_utf8_decode_utf8(v.sender);
    encode_utf8_decode_utf8(w.sender);
    assert(abi_word(if v.result { 1 } else { 0 })[31] == abi_word(if w.result { 1 } else { 0 })[31]);
    assert(v.result == w.result) by {
        assert(((1u64) as u8) == 1u8 && ((0u64) as u8) == 0u8) by (bit_vector);
    }
    assert(v =~= w);
}

} // verus!
