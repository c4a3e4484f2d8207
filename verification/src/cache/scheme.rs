//! Per-image palette cache. A scheme is stored as
//! `~/.cache/rwal/schemes/<key>.json`, where the key is a SHA-1 digest of
//! everything that affects the palette: the backend, the mode, light or dark,
//! the image's size in bytes and the first bytes of its content. Renaming or
//! moving an image keeps its key; changing it in any of those ways does not.
//! The backend and the mode enter the digest each behind its length, so that
//! no two different inputs give the same hashed message.
use vstd::prelude::*;
use sha1::Digest;
use vstd::string::StringSliceAdditionalSpecFns;
use crate::colors::types::{hex_byte, push_hex_byte};
use crate::text::push_char;

verus! {

/// How many bytes from the front of the image enter the key.
pub const HEAD_LEN: usize = 65536;

/// The SHA-1 digest of a byte string.
pub uninterp spec fn sha1_of(data: Seq<u8>) -> Seq<u8>;

/// Calls `sha1::Sha1::digest` (the `Digest` trait) on `data`; the result is
/// named `sha1_of(data)`, and a SHA-1 digest is twenty bytes long.
#[verifier::external_body]
fn sha1_digest(data: &[u8]) -> (d: Vec<u8>)
    ensures
        d@ == sha1_of(data@),
        d@.len() == 20,
{
    sha1::Sha1::digest(data).to_vec()
}

/// The low `k` bytes of `n`, least significant first.
pub open spec fn le_digits(n: nat, k: nat) -> Seq<u8>
    decreases k,
{
    if k == 0 {
        Seq::empty()
    } else {
        seq![(n % 256) as u8] + le_digits(n / 256, (k - 1) as nat)
    }
}

/// `n.to_le_bytes()`.
pub open spec fn le_bytes(n: u64) -> Seq<u8> {
    le_digits(n as nat, 8)
}

/// A byte string behind its length, as eight little-endian bytes.
pub open spec fn framed(s: Seq<u8>) -> Seq<u8> {
    le_digits(s.len(), 8) + s
}

/// The bytes of `light` or `dark`.
pub open spec fn tone_tag(light_mode: bool) -> Seq<u8> {
    (if light_mode { "light"@ } else { "dark"@ }).map_values(|c: char| c as u8)
}

/// The bytes that are hashed: the backend name and the mode name, each
/// framed by its length, then `light` or `dark`, the file size as eight
/// little-endian bytes, and the head of the file.
pub open spec fn key_message(backend: &str, mode: &str, light_mode: bool, file_size: u64, head: Seq<u8>) -> Seq<u8> {
    framed(backend.spec_bytes()) + framed(mode.spec_bytes()) + tone_tag(light_mode) + le_bytes(file_size) + head
}

/// 256 to the power `k`.
pub open spec fn pow256(k: nat) -> nat
    decreases k,
{
    if k == 0 { 1 } else { 256 * pow256((k - 1) as nat) }
}

proof fn lemma_le_digits_len(n: nat, k: nat)
    ensures
        le_digits(n, k).len() == k,
    decreases k,
{
    if k > 0 {
        lemma_le_digits_len(n / 256, (k - 1) as nat);
    }
}

proof fn lemma_le_digits_injective(a: nat, b: nat, k: nat)
    requires
        a < pow256(k),
        b < pow256(k),
        le_digits(a, k) == le_digits(b, k),
    ensures
        a == b,
    decreases k,
{
    if k > 0 {
        let p = pow256((k - 1) as nat);
        assert(le_digits(a, k)[0] == le_digits(b, k)[0]);
        assert(le_digits(a, k).drop_first() =~= le_digits(a / 256, (k - 1) as nat));
        assert(le_digits(b, k).drop_first() =~= le_digits(b / 256, (k - 1) as nat));
        assert(a / 256 < p) by (nonlinear_arith) requires a < 256 * p;
        assert(b / 256 < p) by (nonlinear_arith) requires b < 256 * p;
        lemma_le_digits_injective(a / 256, b / 256, (k - 1) as nat);
        assert(le_digits(a, k)[0] == (a % 256) as u8);
        assert(le_digits(b, k)[0] == (b % 256) as u8);
        assert(a % 256 == b % 256);
        assert(a == 256 * (a / 256) + a % 256);
        assert(b == 256 * (b / 256) + b % 256);
    }
}

proof fn lemma_split_at(x1: Seq<u8>, y1: Seq<u8>, x2: Seq<u8>, y2: Seq<u8>)
    requires
        x1 + y1 == x2 + y2,
        x1.len() == x2.len(),
    ensures
        x1 == x2,
        y1 == y2,
{
    assert(x1 =~= (x1 + y1).take(x1.len() as int));
    assert(x2 =~= (x2 + y2).take(x2.len() as int));
    assert(y1 =~= (x1 + y1).skip(x1.len() as int));
    assert(y2 =~= (x2 + y2).skip(x2.len() as int));
}

proof fn lemma_framed_split(s1: Seq<u8>, r1: Seq<u8>, s2: Seq<u8>, r2: Seq<u8>)
    requires
        s1.len() < pow256(8),
        s2.len() < pow256(8),
        framed(s1) + r1 == framed(s2) + r2,
    ensures
        s1 == s2,
        r1 == r2,
{
    lemma_le_digits_len(s1.len(), 8);
    lemma_le_digits_len(s2.len(), 8);
    assert(framed(s1) + r1 =~= le_digits(s1.len(), 8) + (s1 + r1));
    assert(framed(s2) + r2 =~= le_digits(s2.len(), 8) + (s2 + r2));
    lemma_split_at(le_digits(s1.len(), 8), s1 + r1, le_digits(s2.len(), 8), s2 + r2);
    lemma_le_digits_injective(s1.len(), s2.len(), 8);
    lemma_split_at(s1, r1, s2, r2);
}

/// The hashed message tells its inputs apart: two calls whose backend bytes,
/// mode bytes, tone, file size or head differ hash different messages, so
/// their keys differ unless SHA-1 collides. Backend and mode names are
/// shorter than 2^64 bytes, as every string in memory is.
pub proof fn lemma_key_message_injective(
    backend1: &str, mode1: &str, light1: bool, size1: u64, head1: Seq<u8>,
    backend2: &str, mode2: &str, light2: bool, size2: u64, head2: Seq<u8>,
)
    requires
        backend1.spec_bytes().len() <= u64::MAX,
        mode1.spec_bytes().len() <= u64::MAX,
        backend2.spec_bytes().len() <= u64::MAX,
        mode2.spec_bytes().len() <= u64::MAX,
    ensures
        key_message(backend1, mode1, light1, size1, head1) == key_message(backend2, mode2, light2, size2, head2)
            ==> backend1.spec_bytes() == backend2.spec_bytes() && mode1.spec_bytes() == mode2.spec_bytes()
                && light1 == light2 && size1 == size2 && head1 == head2,
{
    if key_message(backend1, mode1, light1, size1, head1) == key_message(backend2, mode2, light2, size2, head2) {
        reveal_with_fuel(pow256, 9);
        assert(pow256(8) == u64::MAX + 1);
        let b1 = backend1.spec_bytes();
        let b2 = backend2.spec_bytes();
        let m1 = mode1.spec_bytes();
        let m2 = mode2.spec_bytes();
        let t1 = tone_tag(light1) + le_bytes(size1) + head1;
        let t2 = tone_tag(light2) + le_bytes(size2) + head2;
        assert(key_message(backend1, mode1, light1, size1, head1) =~= framed(b1) + (framed(m1) + t1));
        assert(key_message(backend2, mode2, light2, size2, head2) =~= framed(b2) + (framed(m2) + t2));
        lemma_framed_split(b1, framed(m1) + t1, b2, framed(m2) + t2);
        lemma_framed_split(m1, t1, m2, t2);
        reveal_strlit("light");
        reveal_strlit("dark");
        if light1 != light2 {
            assert(t1[0] != t2[0]);
        }
        assert(t1 =~= tone_tag(light1) + (le_bytes(size1) + head1));
        assert(t2 =~= tone_tag(light2) + (le_bytes(size2) + head2));
        lemma_split_at(tone_tag(light1), le_bytes(size1) + head1, tone_tag(light2), le_bytes(size2) + head2);
        lemma_le_digits_len(size1 as nat, 8);
        lemma_le_digits_len(size2 as nat, 8);
        lemma_split_at(le_bytes(size1), head1, le_bytes(size2), head2);
        lemma_le_digits_injective(size1 as nat, size2 as nat, 8);
    }
}

/// Lowercase hex of a byte string, two digits per byte.
pub open spec fn hex_digits(d: Seq<u8>) -> Seq<char>
    decreases d.len(),
{
    if d.len() == 0 {
        Seq::empty()
    } else {
        hex_byte(d[0]) + hex_digits(d.drop_first())
    }
}

fn append_bytes(out: &mut Vec<u8>, b: &[u8])
    ensures
        final(out)@ == old(out)@ + b@,
{
    let mut i: usize = 0;
    while i < b.len()
        invariant
            i <= b@.len(),
            out@ == old(out)@ + b@.take(i as int),
        decreases b@.len() - i,
    {
        out.push(b[i]);
        assert(b@.take(i + 1) =~= b@.take(i as int).push(b@[i as int]));
        i = i + 1;
    }
    assert(b@.take(b@.len() as int) =~= b@);
}

fn append_le_bytes(out: &mut Vec<u8>, n: u64)
    ensures
        final(out)@ == old(out)@ + le_bytes(n),
{
    let mut m: u64 = n;
    let mut i: usize = 0;
    while i < 8
        invariant
            i <= 8,
            out@ + le_digits(m as nat, (8 - i) as nat) == old(out)@ + le_bytes(n),
        decreases 8 - i,
    {
        let ghost before = out@;
        out.push((m % 256) as u8);
        assert(le_digits(m as nat, (8 - i) as nat) == seq![(m % 256) as u8] + le_digits((m / 256) as nat, (8 - i - 1) as nat));
        assert(out@ + le_digits((m / 256) as nat, (8 - i - 1) as nat) =~= before + le_digits(m as nat, (8 - i) as nat));
        m = m / 256;
        i = i + 1;
    }
    assert(le_digits(m as nat, 0) =~= Seq::<u8>::empty());
    assert(out@ =~= old(out)@ + le_bytes(n));
}

/// Build a cache key from all inputs that affect the output palette:
/// the lowercase hex SHA-1 of `key_message`. `head` is what one read of up
/// to `HEAD_LEN` bytes from the image gave (nothing when it could not be
/// opened).
pub fn cache_key(head: &[u8], backend: &str, mode: &str, light_mode: bool, file_size: u64) -> (key: String)
    ensures
        key@ == hex_digits(sha1_of(key_message(backend, mode, light_mode, file_size, head@))),
        key@.len() == 40,
{
    let mut msg: Vec<u8> = Vec::new();
    let backend_bytes = backend.as_bytes();
    let mode_bytes = mode.as_bytes();
    append_le_bytes(&mut msg, backend_bytes.len() as u64);
    append_bytes(&mut msg, backend_bytes);
    append_le_bytes(&mut msg, mode_bytes.len() as u64);
    append_bytes(&mut msg, mode_bytes);
    let tag: &str = if light_mode { "light" } else { "dark" };
    proof {
        reveal_strlit("light");
        reveal_strlit("dark");
    }
    append_bytes(&mut msg, tag.as_bytes());
    proof {
        vstd::string::is_ascii_spec_bytes(tag);
        assert(tag.spec_bytes() =~= (if light_mode { "light"@ } else { "dark"@ }).map_values(|c: char| c as u8));
    }
    append_le_bytes(&mut msg, file_size);
    append_bytes(&mut msg, head);
    assert(msg@ =~= key_message(backend, mode, light_mode, file_size, head@));
    let digest = sha1_digest(msg.as_slice());
    let mut key = String::new();
    let mut i: usize = 0;
    assert(digest@.skip(0) =~= digest@);
    assert(key@ =~= Seq::<char>::empty());
    while i < digest.len()
        invariant
            i <= digest@.len(),
            digest@.len() == 20,
            key@ + hex_digits(digest@.skip(i as int)) == hex_digits(digest@),
            key@.len() == 2 * i,
        decreases digest@.len() - i,
    {
        let ghost before = key@;
        push_hex_byte(&mut key, digest[i]);
        assert(digest@.skip(i as int).drop_first() =~= digest@.skip(i + 1));
        assert(before + hex_digits(digest@.skip(i as int)) == key@ + hex_digits(digest@.skip(i + 1)));
        i = i + 1;
    }
    assert(digest@.skip(20) =~= Seq::<u8>::empty());
    key
}

} // verus!
