use vstd::prelude::*;
use crate::error::CodecError;
use crypto::aessafe::{AesSafe256Decryptor, AesSafe256Encryptor};
use crypto::symmetriccipher::{BlockDecryptor, BlockEncryptor};

verus! {

/// Bytes in one cipher block.
pub const BLOCK_SIZE: usize = 16;

/// Bytes in an AES-256 key.
pub const KEY_SIZE: usize = 32;

/// AES-256 encryption of one 16-byte block under a 32-byte key.
pub uninterp spec fn aes256_encrypt_block(key: Seq<u8>, block: Seq<u8>) -> [u8; 16];

/// AES-256 decryption of one 16-byte block under a 32-byte key.
pub uninterp spec fn aes256_decrypt_block(key: Seq<u8>, block: Seq<u8>) -> [u8; 16];

/// Relies on crypto::aessafe::AesSafe256Encryptor (`new`, then `encrypt_block`): AES-256 of
/// one block. The key schedule panics on a key that is not 32 bytes long.
#[verifier::external_body]
fn encrypt_block(key: &[u8], block: &[u8]) -> (r: [u8; 16])
    requires
        key@.len() == 32,
        block@.len() == 16,
    ensures
        r == aes256_encrypt_block(key@, block@),
{
    let engine = AesSafe256Encryptor::new(key);
    let mut out = [0u8; 16];
    engine.encrypt_block(block, &mut out);
    out
}

/// Relies on crypto::aessafe::AesSafe256Decryptor (`new`, then `decrypt_block`): AES-256
/// decryption of one block. Under a fixed key AES is a permutation of blocks and decryption is
/// its inverse, so the result encrypts back to the input, and it is the only block that does.
#[verifier::external_body]
fn decrypt_block(key: &[u8], block: &[u8]) -> (r: [u8; 16])
    requires
        key@.len() == 32,
        block@.len() == 16,
    ensures
        r == aes256_decrypt_block(key@, block@),
        aes256_encrypt_block(key@, r@)@ == block@,
        forall|p: Seq<u8>|
            p.len() == 16 && #[trigger] aes256_encrypt_block(key@, p)@ == block@ ==> p == r@,
{
    let engine = AesSafe256Decryptor::new(key);
    let mut out = [0u8; 16];
    engine.decrypt_block(block, &mut out);
    out
}

/// Each 16-byte block of `d` encrypted on its own, in order.
pub open spec fn ecb_encrypt_blocks(key: Seq<u8>, d: Seq<u8>) -> Seq<u8>
    decreases d.len(),
{
    if d.len() < 16 {
        Seq::empty()
    } else {
        ecb_encrypt_blocks(key, d.subrange(0, d.len() - 16))
            + aes256_encrypt_block(key, d.subrange(d.len() - 16, d.len() as int))@
    }
}

/// Each 16-byte block of `d` decrypted on its own, in order.
pub open spec fn ecb_decrypt_blocks(key: Seq<u8>, d: Seq<u8>) -> Seq<u8>
    decreases d.len(),
{
    if d.len() < 16 {
        Seq::empty()
    } else {
        ecb_decrypt_blocks(key, d.subrange(0, d.len() - 16))
            + aes256_decrypt_block(key, d.subrange(d.len() - 16, d.len() as int))@
    }
}

/// How many padding bytes follow `n` bytes of plaintext: from 1 to 16.
pub open spec fn pad_len(n: nat) -> nat {
    (16 - n % 16) as nat
}

/// PKCS padding: `pad_len` bytes, each holding that length.
pub open spec fn pkcs_pad(p: Seq<u8>) -> Seq<u8> {
    p + Seq::new(pad_len(p.len()), |i: int| pad_len(p.len()) as u8)
}

/// The last byte is a padding length from 1 to 16, and the last that many bytes all hold it.
/// A last byte of 0, or of more than one block, is refused.
pub open spec fn has_valid_padding(d: Seq<u8>) -> bool {
    &&& d.len() >= 1
    &&& 1 <= d.last() <= 16
    &&& d.last() <= d.len()
    &&& forall|i: int| d.len() - d.last() <= i < d.len() ==> #[trigger] d[i] == d.last()
}

/// `d` without the padding that its last byte announces.
pub open spec fn strip_padding(d: Seq<u8>) -> Seq<u8> {
    d.subrange(0, d.len() - d.last())
}

/// The ciphertext of `p` under `key`: padded, then encrypted block by block.
pub open spec fn ecb_encrypt(key: Seq<u8>, p: Seq<u8>) -> Seq<u8> {
    ecb_encrypt_blocks(key, pkcs_pad(p))
}

/// A ciphertext that can be decrypted at all: a positive whole number of blocks.
pub open spec fn valid_ciphertext_len(n: nat) -> bool {
    n > 0 && n % 16 == 0
}

/// Block-wise encryption and decryption keep the length of a whole number of blocks.
pub proof fn lemma_ecb_len(key: Seq<u8>, d: Seq<u8>)
    requires
        d.len() % 16 == 0,
    ensures
        ecb_encrypt_blocks(key, d).len() == d.len(),
        ecb_decrypt_blocks(key, d).len() == d.len(),
    decreases d.len(),
{
    if d.len() >= 16 {
        lemma_ecb_len(key, d.subrange(0, d.len() - 16));
    }
}

/// Padding always brings the plaintext to a positive whole number of blocks, and is
/// recognised and removed again.
pub proof fn lemma_pad(p: Seq<u8>)
    ensures
        pkcs_pad(p).len() == p.len() + pad_len(p.len()),
        pkcs_pad(p).len() % 16 == 0,
        pkcs_pad(p).len() >= 16,
        has_valid_padding(pkcs_pad(p)),
        strip_padding(pkcs_pad(p)) == p,
{
    let d = pkcs_pad(p);
    let n = pad_len(p.len());
    assert(d.last() == n as u8);
    assert(d.subrange(0, d.len() - n) =~= p);
}

/// Every ciphertext is a positive whole number of blocks: the plaintext's length rounded up
/// past the next multiple of 16.
pub proof fn lemma_ciphertext_length(key: Seq<u8>, p: Seq<u8>)
    ensures
        ecb_encrypt(key, p).len() == p.len() + pad_len(p.len()),
        ecb_encrypt(key, p).len() % 16 == 0,
        ecb_encrypt(key, p).len() >= 16,
{
    lemma_pad(p);
    lemma_ecb_len(key, pkcs_pad(p));
}

/// A validly padded whole number of blocks is the padding of what remains once the padding
/// is stripped.
pub proof fn lemma_strip_then_pad(d: Seq<u8>)
    requires
        d.len() % 16 == 0,
        has_valid_padding(d),
    ensures
        pkcs_pad(strip_padding(d)) == d,
{
    let q = strip_padding(d);
    let k = d.last() as int;
    assert(q.len() == d.len() - k);
    assert(pad_len(q.len()) == k) by {
        assert((d.len() - k) % 16 == (16 - k) % 16) by (nonlinear_arith)
            requires d.len() % 16 == 0, 1 <= k <= 16, k <= d.len();
    }
    assert(pkcs_pad(q) =~= d);
}

/// Appends the bytes of one block to `out`.
fn append_block(out: &mut Vec<u8>, blk: &[u8; 16])
    ensures
        final(out)@ == old(out)@ + blk@,
{
    let mut i: usize = 0;
    while i < BLOCK_SIZE
        invariant
            i <= 16,
            out@ == old(out)@ + blk@.subrange(0, i as int),
        decreases 16 - i,
    {
        out.push(blk[i]);
        i = i + 1;
        assert(out@ =~= old(out)@ + blk@.subrange(0, i as int));
    }
    assert(blk@.subrange(0, 16) =~= blk@);
}

/// `p` followed by its PKCS padding.
fn pad(p: &[u8]) -> (r: Vec<u8>)
    requires
        p@.len() + 16 <= usize::MAX,
    ensures
        r@ == pkcs_pad(p@),
{
    let n: usize = BLOCK_SIZE - p.len() % BLOCK_SIZE;
    let mut v = vstd::slice::slice_to_vec(p);
    let mut j: usize = 0;
    while j < n
        invariant
            n == pad_len(p@.len()),
            j <= n,
            v@ == p@ + Seq::new(j as nat, |i: int| n as u8),
        decreases n - j,
    {
        v.push(n as u8);
        j = j + 1;
        assert(v@ =~= p@ + Seq::new(j as nat, |i: int| n as u8));
    }
    v
}

/// Encrypts each block of `d` on its own.
fn encrypt_blocks(key: &[u8], d: &[u8]) -> (r: Vec<u8>)
    requires
        key@.len() == 32,
        d@.len() % 16 == 0,
    ensures
        r@ == ecb_encrypt_blocks(key@, d@),
{
    let mut out: Vec<u8> = Vec::new();
    let mut pos: usize = 0;
    while pos < d.len()
        invariant
            key@.len() == 32,
            d@.len() % 16 == 0,
            pos % 16 == 0,
            pos <= d@.len(),
            out@ == ecb_encrypt_blocks(key@, d@.subrange(0, pos as int)),
        decreases d@.len() - pos,
    {
        let blk = vstd::slice::slice_subrange(d, pos, pos + BLOCK_SIZE);
        let e = encrypt_block(key, blk);
        proof {
            let s = d@.subrange(0, pos + 16);
            assert(s.subrange(0, s.len() - 16) =~= d@.subrange(0, pos as int));
            assert(s.subrange(s.len() - 16, s.len() as int) =~= blk@);
        }
        append_block(&mut out, &e);
        pos = pos + BLOCK_SIZE;
    }
    assert(d@.subrange(0, d@.len() as int) =~= d@);
    out
}

/// Decrypts each block of `d` on its own. What comes out encrypts back to `d`, and nothing
/// else of its length does.
fn decrypt_blocks(key: &[u8], d: &[u8]) -> (r: Vec<u8>)
    requires
        key@.len() == 32,
        d@.len() % 16 == 0,
    ensures
        r@ == ecb_decrypt_blocks(key@, d@),
        ecb_encrypt_blocks(key@, r@) == d@,
        forall|q: Seq<u8>|
            q.len() == d@.len() && #[trigger] ecb_encrypt_blocks(key@, q) == d@ ==> q == r@,
{
    let mut out: Vec<u8> = Vec::new();
    let mut pos: usize = 0;
    while pos < d.len()
        invariant
            key@.len() == 32,
            d@.len() % 16 == 0,
            pos % 16 == 0,
            pos <= d@.len(),
            out@ == ecb_decrypt_blocks(key@, d@.subrange(0, pos as int)),
            ecb_encrypt_blocks(key@, out@) == d@.subrange(0, pos as int),
            forall|q: Seq<u8>|
                q.len() == pos && #[trigger] ecb_encrypt_blocks(key@, q) == d@.subrange(
                    0,
                    pos as int,
                ) ==> q == out@,
        decreases d@.len() - pos,
    {
        let blk = vstd::slice::slice_subrange(d, pos, pos + BLOCK_SIZE);
        let e = decrypt_block(key, blk);
        let ghost before = out@;
        let ghost s = d@.subrange(0, pos + 16);
        proof {
            assert(s.subrange(0, s.len() - 16) =~= d@.subrange(0, pos as int));
            assert(s.subrange(s.len() - 16, s.len() as int) =~= blk@);
        }
        append_block(&mut out, &e);
        pos = pos + BLOCK_SIZE;
        proof {
            let o = out@;
            assert(o.subrange(0, o.len() - 16) =~= before);
            assert(o.subrange(o.len() - 16, o.len() as int) =~= e@);
            lemma_ecb_len(key@, s.subrange(0, s.len() - 16));
            assert(o.len() == pos);
            assert forall|q: Seq<u8>|
                q.len() == pos && #[trigger] ecb_encrypt_blocks(key@, q) == s implies q
                == o by {
                let head = q.subrange(0, q.len() - 16);
                let tail = q.subrange(q.len() - 16, q.len() as int);
                lemma_ecb_len(key@, head);
                let eq = ecb_encrypt_blocks(key@, q);
                assert(eq == ecb_encrypt_blocks(key@, head) + aes256_encrypt_block(key@, tail)@);
                assert(eq.subrange(0, pos - 16) =~= ecb_encrypt_blocks(key@, head));
                assert(s.subrange(0, pos - 16) =~= d@.subrange(0, pos - 16));
                assert(head == before);
                assert(eq.subrange(pos - 16, pos as int) =~= aes256_encrypt_block(key@, tail)@);
                assert(s.subrange(pos - 16, pos as int) =~= blk@);
                assert(tail == e@);
                assert(q =~= head + tail);
                assert(q =~= o);
            }
        }
    }
    assert(d@.subrange(0, d@.len() as int) =~= d@);
    out
}

/// Encryption with the key 32 bytes long; any other length is refused.
pub fn encrypt(key: &[u8], plaintext: &[u8]) -> (r: Result<Vec<u8>, CodecError>)
    requires
        plaintext@.len() + 16 <= usize::MAX,
    ensures
        key@.len() != 32 <==> r == Err::<Vec<u8>, CodecError>(CodecError::InvalidKeyLength),
        key@.len() == 32 ==> r is Ok && r->Ok_0@ == ecb_encrypt(key@, plaintext@),
        r is Ok ==> r->Ok_0@.len() % 16 == 0 && r->Ok_0@.len() >= 16,
        r is Ok ==> r->Ok_0@.len() == plaintext@.len() + pad_len(plaintext@.len()),
{
    if key.len() != KEY_SIZE {
        return Err(CodecError::InvalidKeyLength);
    }
    let padded = pad(plaintext);
    proof {
        lemma_pad(plaintext@);
        lemma_ecb_len(key@, padded@);
    }
    Ok(encrypt_blocks(key, padded.as_slice()))
}

/// Decryption with the key 32 bytes long: block by block, then the padding is checked and
/// removed. A plaintext comes out only of its own ciphertext, and always does.
pub fn decrypt(key: &[u8], ciphertext: &[u8]) -> (r: Result<Vec<u8>, CodecError>)
    ensures
        r == Err::<Vec<u8>, CodecError>(CodecError::InvalidKeyLength) <==> key@.len() != 32,
        r == Err::<Vec<u8>, CodecError>(CodecError::InvalidCiphertextLength) <==> key@.len()
            == 32 && !valid_ciphertext_len(ciphertext@.len()),
        r == Err::<Vec<u8>, CodecError>(CodecError::PaddingError) <==> key@.len() == 32
            && valid_ciphertext_len(ciphertext@.len()) && !has_valid_padding(
            ecb_decrypt_blocks(key@, ciphertext@),
        ),
        r is Ok <==> key@.len() == 32 && valid_ciphertext_len(ciphertext@.len())
            && has_valid_padding(ecb_decrypt_blocks(key@, ciphertext@)),
        r is Ok ==> r->Ok_0@ == strip_padding(ecb_decrypt_blocks(key@, ciphertext@)),
        r is Ok ==> ecb_encrypt(key@, r->Ok_0@) == ciphertext@,
        key@.len() == 32 ==> forall|p: Seq<u8>| #[trigger]
            ecb_encrypt(key@, p) == ciphertext@ ==> r is Ok && r->Ok_0@ == p,
{
    if key.len() != KEY_SIZE {
        return Err(CodecError::InvalidKeyLength);
    }
    let n = ciphertext.len();
    if n == 0 || n % BLOCK_SIZE != 0 {
        proof {
            assert forall|p: Seq<u8>| #[trigger] ecb_encrypt(key@, p) != ciphertext@ by {
                lemma_pad(p);
                lemma_ecb_len(key@, pkcs_pad(p));
            }
        }
        return Err(CodecError::InvalidCiphertextLength);
    }
    let mut d = decrypt_blocks(key, ciphertext);
    proof {
        lemma_ecb_len(key@, ciphertext@);
        assert forall|p: Seq<u8>| #[trigger]
            ecb_encrypt(key@, p) == ciphertext@ implies pkcs_pad(p) == d@ by {
            lemma_pad(p);
            lemma_ecb_len(key@, pkcs_pad(p));
        }
    }
    let last: u8 = d[n - 1];
    if last < 1 || last > 16 {
        proof {
            assert forall|p: Seq<u8>| #[trigger] ecb_encrypt(key@, p) != ciphertext@ by {
                lemma_pad(p);
            }
        }
        return Err(CodecError::PaddingError);
    }
    let k = last as usize;
    let mut i: usize = n - k;
    while i < n
        invariant
            d@.len() == n,
            n >= 16,
            1 <= k <= 16,
            k == d@.last(),
            n - k <= i <= n,
            forall|j: int| n - k <= j < i ==> #[trigger] d@[j] == d@.last(),
            key@.len() == 32,
            last == d@.last(),
            n == ciphertext@.len(),
            n % 16 == 0,
            d@ == ecb_decrypt_blocks(key@, ciphertext@),
            forall|p: Seq<u8>| #[trigger]
                ecb_encrypt(key@, p) == ciphertext@ ==> pkcs_pad(p) == d@,
        decreases n - i,
    {
        if d[i] != last {
            proof {
                assert(d@[i as int] != d@.last());
                assert(!has_valid_padding(d@));
                assert forall|p: Seq<u8>| #[trigger] ecb_encrypt(key@, p) != ciphertext@ by {
                    lemma_pad(p);
                }
            }
            return Err(CodecError::PaddingError);
        }
        i = i + 1;
    }
    let ghost full = d@;
    d.truncate(n - k);
    proof {
        assert(has_valid_padding(full));
        lemma_strip_then_pad(full);
        assert(d@ == strip_padding(full));
        assert forall|p: Seq<u8>| #[trigger] ecb_encrypt(key@, p) == ciphertext@ implies d@
            == p by {
            lemma_pad(p);
        }
    }
    Ok(d)
}

} // verus!
