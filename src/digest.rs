//! Content digests: SHA-256 over bytes, written as `sha256:<lowercase hex>`.
use crypto::digest::Digest as _;
use crypto::sha2::Sha256;
use crate::text::{ascii_chars, ascii_string};
use vstd::prelude::*;

verus! {

#[verifier::external_type_specification]
#[verifier::external_body]
pub struct ExSha256(Sha256);

/// The bytes that a rust-crypto SHA-256 state has taken in since it was
/// created.
pub uninterp spec fn sha256_taken(h: Sha256) -> Seq<u8>;

/// The SHA-256 digest of a byte sequence, as rust-crypto computes it.
pub uninterp spec fn sha256_of(data: Seq<u8>) -> Seq<u8>;

/// Inputs past this many bytes overflow the hasher's bit counter, which
/// rust-crypto answers with a panic.
pub const SHA256_MAX_INPUT: u64 = 0x1fff_ffff_ffff_ffff;

/// Relies on `crypto::sha2::Sha256::new`: a fresh state has taken nothing in.
#[verifier::external_body]
pub(crate) fn sha256_new() -> (h: Sha256)
    ensures
        sha256_taken(h) == Seq::<u8>::empty(),
{
    Sha256::new()
}

/// Relies on `crypto::digest::Digest::input` for `Sha256`: the state takes in
/// `data` after what it held. It panics only when the total bit count
/// overflows, or after `result`, which `sha256_result` never leaves behind.
#[verifier::external_body]
pub(crate) fn sha256_input(h: &mut Sha256, data: &[u8])
    requires
        sha256_taken(*old(h)).len() + data@.len() <= SHA256_MAX_INPUT,
    ensures
        sha256_taken(*final(h)) == sha256_taken(*old(h)) + data@,
{
    h.input(data)
}

/// Relies on `crypto::digest::Digest::result` for `Sha256`: it writes the 32
/// digest bytes of what the state has taken in. It works on a copy, so the
/// caller's state stays open for input.
#[verifier::external_body]
pub(crate) fn sha256_result(h: Sha256) -> (r: Vec<u8>)
    ensures
        r@ == sha256_of(sha256_taken(h)),
        r@.len() == 32,
{
    let mut h = h;
    let mut out = vec![0u8; 32];
    h.result(&mut out);
    out
}

/// The text form of a digest: the algorithm tag, a colon, lowercase hex.
pub open spec fn digest_text(d: Seq<u8>) -> Seq<char> {
    seq!['s', 'h', 'a', '2', '5', '6', ':'] + hex_of(d)
}

/// The ASCII code of a hexadecimal digit value below sixteen, in lower case.
pub open spec fn hex_digit(v: u8) -> u8 {
    if v < 10 {
        (v + 48) as u8
    } else {
        (v + 87) as u8
    }
}

/// Two lowercase hex digits per byte, high nibble first, as ASCII codes.
pub open spec fn hex_ascii(b: Seq<u8>) -> Seq<u8>
    decreases b.len(),
{
    if b.len() == 0 {
        Seq::empty()
    } else {
        hex_ascii(b.drop_last()) + seq![hex_digit(b.last() / 16), hex_digit(b.last() % 16)]
    }
}

/// Lowercase hexadecimal text of `b`.
pub open spec fn hex_of(b: Seq<u8>) -> Seq<char> {
    ascii_chars(hex_ascii(b))
}

fn hex_digit_byte(v: u8) -> (r: u8)
    requires
        v < 16,
    ensures
        r == hex_digit(v),
{
    if v < 10 {
        v + 48
    } else {
        v + 87
    }
}

proof fn lemma_hex_ascii_shape(b: Seq<u8>)
    ensures
        hex_ascii(b).len() == 2 * b.len(),
        forall|i: int|
            0 <= i < hex_ascii(b).len() ==> {
                let c = #[trigger] hex_ascii(b)[i];
                (48 <= c <= 57) || (97 <= c <= 102)
            },
    decreases b.len(),
{
    if b.len() > 0 {
        lemma_hex_ascii_shape(b.drop_last());
        let h = hex_ascii(b);
        let p = hex_ascii(b.drop_last());
        assert forall|i: int| 0 <= i < h.len() implies {
            let c = #[trigger] h[i];
            (48 <= c <= 57) || (97 <= c <= 102)
        } by {
            if i < p.len() {
                assert(h[i] == p[i]);
            }
        }
    }
}

/// Lowercase hexadecimal digits of `b`, as ASCII codes.
pub fn hex_bytes(b: &[u8]) -> (r: Vec<u8>)
    ensures
        r@ == hex_ascii(b@),
        forall|i: int| 0 <= i < r@.len() ==> r@[i] < 0x80,
{
    let mut out: Vec<u8> = Vec::new();
    let mut i: usize = 0;
    while i < b.len()
        invariant
            0 <= i <= b@.len(),
            out@ == hex_ascii(b@.subrange(0, i as int)),
        decreases b@.len() - i,
    {
        let x = b[i];
        let hi = hex_digit_byte(x / 16);
        let lo = hex_digit_byte(x % 16);
        out.push(hi);
        out.push(lo);
        proof {
            let s = b@.subrange(0, i as int + 1);
            assert(s.drop_last() == b@.subrange(0, i as int));
            assert(s.last() == x);
        }
        i = i + 1;
        assert(out@ =~= hex_ascii(b@.subrange(0, i as int)));
    }
    assert(b@.subrange(0, b@.len() as int) == b@);
    proof {
        lemma_hex_ascii_shape(b@);
    }
    out
}

/// Lowercase hexadecimal text of `b`.
pub fn hex_lower(b: &[u8]) -> (r: String)
    ensures
        r@ == hex_of(b@),
{
    let h = hex_bytes(b);
    ascii_string(h)
}

/// A lowercase hexadecimal digit.
pub open spec fn is_lower_hex(c: char) -> bool {
    ('0' <= c && c <= '9') || ('a' <= c && c <= 'f')
}

/// Text that names a SHA-256 blob: `sha256:` and sixty-four lowercase hex
/// digits.
pub open spec fn is_digest_text(s: Seq<char>) -> bool {
    &&& s.len() == 71
    &&& s.subrange(0, 7) == seq!['s', 'h', 'a', '2', '5', '6', ':']
    &&& forall|i: int| 7 <= i < 71 ==> is_lower_hex(#[trigger] s[i])
}

/// The hex text of `d` has two lowercase hex digits per byte.
pub proof fn lemma_hex_of_lower(d: Seq<u8>)
    ensures
        hex_of(d).len() == 2 * d.len(),
        forall|i: int| 0 <= i < hex_of(d).len() ==> is_lower_hex(#[trigger] hex_of(d)[i]),
{
    lemma_hex_ascii_shape(d);
    assert forall|i: int| 0 <= i < hex_of(d).len() implies is_lower_hex(#[trigger] hex_of(d)[i]) by {
        assert(hex_of(d)[i] == hex_ascii(d)[i] as char);
    }
}

/// Every digest of 32 bytes has the text form that the blob endpoint accepts.
pub proof fn lemma_digest_text_is_valid(d: Seq<u8>)
    requires
        d.len() == 32,
    ensures
        is_digest_text(digest_text(d)),
{
    lemma_hex_ascii_shape(d);
    let t = digest_text(d);
    assert(t.subrange(0, 7) =~= seq!['s', 'h', 'a', '2', '5', '6', ':']);
    assert forall|i: int| 7 <= i < 71 implies is_lower_hex(#[trigger] t[i]) by {
        assert(t[i] == hex_of(d)[i - 7]);
        assert(hex_of(d)[i - 7] == hex_ascii(d)[i - 7] as char);
    }
}

/// `sha256:` followed by the lowercase hex of `d`.
pub fn digest_string(d: &[u8]) -> (r: String)
    ensures
        r@ == digest_text(d@),
{
    let hex = hex_lower(d);
    let mut s = String::from_str("sha256:");
    proof {
        reveal_strlit("sha256:");
    }
    s.append(hex.as_str());
    s
}

/// Whether `s` names a blob: only such text is looked up in the store, so a
/// request can never reach a path outside it.
pub fn is_digest(s: &str) -> (r: bool)
    ensures
        r == is_digest_text(s@),
{
    let n = s.unicode_len();
    if n != 71 {
        return false;
    }
    let prefix = "sha256:";
    proof {
        reveal_strlit("sha256:");
    }
    let mut i: usize = 0;
    while i < 7
        invariant
            n == s@.len(),
            n == 71,
            prefix@ == seq!['s', 'h', 'a', '2', '5', '6', ':'],
            0 <= i <= 7,
            forall|j: int| 0 <= j < i ==> s@[j] == prefix@[j],
        decreases 7 - i,
    {
        if s.get_char(i) != prefix.get_char(i) {
            assert(s@.subrange(0, 7)[i as int] != prefix@[i as int]);
            return false;
        }
        i = i + 1;
    }
    assert(s@.subrange(0, 7) =~= prefix@);
    while i < 71
        invariant
            n == s@.len(),
            n == 71,
            7 <= i <= 71,
            forall|j: int| 7 <= j < i ==> is_lower_hex(#[trigger] s@[j]),
        decreases 71 - i,
    {
        let c = s.get_char(i);
        if !(('0' <= c && c <= '9') || ('a' <= c && c <= 'f')) {
            return false;
        }
        i = i + 1;
    }
    true
}

} // verus!
