//! HMAC with SHA-1 as its hash.

use vstd::prelude::*;

verus! {

/// Length of a SHA-1 digest in bytes.
pub const SHA1_DIGEST_BYTES: usize = 20;

/// Length of a SHA-1 block, and so of the padded key, in bytes.
pub const SHA1_KEY_BYTES: usize = 64;

/// The SHA-1 digest of `data`, as the `sha1` crate computes it.
pub uninterp spec fn sha1_of(data: Seq<u8>) -> Seq<u8>;

/// `Sha1::new`, `update` and `digest` of the `sha1` crate, and `bytes` of its
/// digest: the 20 bytes of the SHA-1 digest of `data`.
#[verifier::external_body]
fn sha1_digest(data: &[u8]) -> (digest: [u8; 20])
    ensures
        digest@ == sha1_of(data@),
{
    let mut hasher = sha1::Sha1::new();
    hasher.update(data);
    hasher.digest().bytes()
}

/// The key as HMAC uses it: a key longer than a block is replaced by its
/// digest, and the key is filled up with zeros to the length of a block.
pub open spec fn block_key(key: Seq<u8>) -> Seq<u8> {
    Seq::new(
        64,
        |i: int|
            if key.len() > 64 {
                if i < 20 {
                    sha1_of(key)[i]
                } else {
                    0u8
                }
            } else if i < key.len() {
                key[i]
            } else {
                0u8
            },
    )
}

/// Each byte of the block key combined with `pad` by exclusive or.
pub open spec fn padded(key: Seq<u8>, pad: u8) -> Seq<u8> {
    Seq::new(64, |i: int| block_key(key)[i] ^ pad)
}

/// The HMAC of `message` under `key`: the digest of the outer padding
/// followed by the digest of the inner padding followed by the message.
pub open spec fn hmac_sha1_of(key: Seq<u8>, message: Seq<u8>) -> Seq<u8> {
    sha1_of(padded(key, 0x5c) + sha1_of(padded(key, 0x36) + message))
}

/// Computes the HMAC-SHA1 of `message` under `key`.
pub fn hmac_sha1(key: &[u8], message: &[u8]) -> (mac: [u8; 20])
    ensures
        mac@ == hmac_sha1_of(key@, message@),
{
    let mut auth_key: Vec<u8> = Vec::new();
    if key.len() > SHA1_KEY_BYTES {
        let digest = sha1_digest(key);
        let mut i: usize = 0;
        while i < SHA1_KEY_BYTES
            invariant
                0 <= i <= 64,
                key@.len() > 64,
                digest@ == sha1_of(key@),
                auth_key@ == block_key(key@).take(i as int),
            decreases 64 - i,
        {
            if i < SHA1_DIGEST_BYTES {
                auth_key.push(digest[i]);
            } else {
                auth_key.push(0);
            }
            proof {
                assert(auth_key@ =~= block_key(key@).take(i + 1));
            }
            i += 1;
        }
    } else {
        let mut i: usize = 0;
        while i < SHA1_KEY_BYTES
            invariant
                0 <= i <= 64,
                key@.len() <= 64,
                auth_key@ == block_key(key@).take(i as int),
            decreases 64 - i,
        {
            if i < key.len() {
                auth_key.push(key[i]);
            } else {
                auth_key.push(0);
            }
            proof {
                assert(auth_key@ =~= block_key(key@).take(i + 1));
            }
            i += 1;
        }
    }
    proof {
        assert(auth_key@ =~= block_key(key@));
    }
    let mut inner: Vec<u8> = Vec::new();
    let mut outer: Vec<u8> = Vec::new();
    let mut offset: usize = 0;
    while offset < SHA1_KEY_BYTES
        invariant
            0 <= offset <= 64,
            auth_key@ == block_key(key@),
            inner@ == padded(key@, 0x36).take(offset as int),
            outer@ == padded(key@, 0x5c).take(offset as int),
        decreases 64 - offset,
    {
        inner.push(auth_key[offset] ^ 0x36);
        outer.push(auth_key[offset] ^ 0x5c);
        proof {
            assert(inner@ =~= padded(key@, 0x36).take(offset + 1));
            assert(outer@ =~= padded(key@, 0x5c).take(offset + 1));
        }
        offset += 1;
    }
    let mut i: usize = 0;
    while i < message.len()
        invariant
            0 <= i <= message@.len(),
            inner@ == padded(key@, 0x36).take(64) + message@.take(i as int),
        decreases message@.len() - i,
    {
        inner.push(message[i]);
        proof {
            assert(inner@ =~= padded(key@, 0x36).take(64) + message@.take(i + 1));
        }
        i += 1;
    }
    proof {
        assert(inner@ =~= padded(key@, 0x36) + message@);
    }
    let inner_hash = sha1_digest(inner.as_slice());
    let mut j: usize = 0;
    while j < SHA1_DIGEST_BYTES
        invariant
            0 <= j <= 20,
            inner_hash@.len() == 20,
            outer@ == padded(key@, 0x5c).take(64) + inner_hash@.take(j as int),
        decreases 20 - j,
    {
        outer.push(inner_hash[j]);
        proof {
            assert(outer@ =~= padded(key@, 0x5c).take(64) + inner_hash@.take(j + 1));
        }
        j += 1;
    }
    proof {
        assert(outer@ =~= padded(key@, 0x5c) + inner_hash@);
    }
    sha1_digest(outer.as_slice())
}

} // verus!
