//! Text helpers: decimal numbers and percent-encoding.

use crypto::buffer::{BufferResult, ReadBuffer, RefReadBuffer, RefWriteBuffer, WriteBuffer};
use crypto::symmetriccipher::SymmetricCipherError;
use crypto::{aes, blockmodes};
use vstd::prelude::*;
use vstd::string::StringSliceAdditionalSpecFns;

verus! {

/// `String::push` of the standard library: the character is appended.
#[verifier::external_body]
pub(crate) fn push_char(s: &mut String, c: char)
    ensures
        final(s)@ == old(s)@.push(c),
{
    s.push(c)
}

/// The character of the decimal digit `d`.
pub open spec fn digit_char(d: int) -> char {
    ((48 + d) as u8) as char
}

/// The decimal digits of `n`, without leading zeros.
pub open spec fn digits_of(n: nat) -> Seq<char>
    decreases n,
{
    if n < 10 {
        seq![digit_char(n as int)]
    } else {
        digits_of(n / 10).push(digit_char((n % 10) as int))
    }
}

/// The decimal text of `n`, with a minus sign before the digits of a negative number.
pub open spec fn decimal_of(n: int) -> Seq<char> {
    if n < 0 {
        seq!['-'] + digits_of((-n) as nat)
    } else {
        digits_of(n as nat)
    }
}

/// Appends the decimal digits of `n` to `s`.
pub fn push_digits(s: &mut String, n: u128)
    ensures
        final(s)@ == old(s)@ + digits_of(n as nat),
    decreases n,
{
    if n >= 10 {
        push_digits(s, n / 10);
    }
    let d: u8 = (n % 10) as u8;
    push_char(s, (48 + d) as char);
    proof {
        assert(s@ =~= old(s)@ + digits_of(n as nat));
    }
}

/// Writes `n` as decimal text.
pub fn decimal(n: i128) -> (text: String)
    ensures
        text@ == decimal_of(n as int),
{
    let mut text = String::new();
    if n < 0 {
        push_char(&mut text, '-');
        let magnitude: u128 = (-(n + 1)) as u128 + 1;
        push_digits(&mut text, magnitude);
    } else {
        push_digits(&mut text, n as u128);
    }
    proof {
        assert(text@ =~= decimal_of(n as int));
    }
    text
}

/// A byte that stands for itself in any part of a URL: a letter, a digit, or one of `-._~`.
pub open spec fn is_unreserved(b: u8) -> bool {
    (0x41 <= b <= 0x5a) || (0x61 <= b <= 0x7a) || (0x30 <= b <= 0x39) || b == 0x2d || b == 0x2e
        || b == 0x5f || b == 0x7e
}

/// A byte that delimits the parts of a URL: one of `:/?#[]@` or of `!$&"()*+,;=`.
pub open spec fn is_delimiter(b: u8) -> bool {
    b == 0x3a || b == 0x2f || b == 0x3f || b == 0x23 || b == 0x5b || b == 0x5d || b == 0x40 || b
        == 0x21 || b == 0x24 || b == 0x26 || b == 0x22 || b == 0x28 || b == 0x29 || b == 0x2a || b
        == 0x2b || b == 0x2c || b == 0x3b || b == 0x3d
}

/// The character of the hexadecimal digit `v`, in upper case.
pub open spec fn hex_char(v: int) -> char {
    if v < 10 {
        ((48 + v) as u8) as char
    } else {
        ((55 + v) as u8) as char
    }
}

/// What one byte becomes: itself where it needs no escape, else `%` and its
/// two hexadecimal digits. Delimiters stay only in a full URL.
pub open spec fn encoded_byte(b: u8, full_url: bool) -> Seq<char> {
    if is_unreserved(b) || (full_url && is_delimiter(b)) {
        seq![b as char]
    } else {
        seq!['%', hex_char(b as int / 16), hex_char(b as int % 16)]
    }
}

/// The percent-encoding of a sequence of bytes.
pub open spec fn encoded(bytes: Seq<u8>, full_url: bool) -> Seq<char>
    decreases bytes.len(),
{
    if bytes.len() == 0 {
        Seq::empty()
    } else {
        encoded(bytes.drop_last(), full_url) + encoded_byte(bytes.last(), full_url)
    }
}

fn hex_digit(v: u8) -> (c: char)
    requires
        v < 16,
    ensures
        c == hex_char(v as int),
{
    if v < 10 {
        (48 + v) as char
    } else {
        (55 + v) as char
    }
}

fn unreserved(b: u8) -> (r: bool)
    ensures
        r == is_unreserved(b),
{
    (0x41 <= b && b <= 0x5a) || (0x61 <= b && b <= 0x7a) || (0x30 <= b && b <= 0x39) || b == 0x2d
        || b == 0x2e || b == 0x5f || b == 0x7e
}

fn delimiter(b: u8) -> (r: bool)
    ensures
        r == is_delimiter(b),
{
    b == 0x3a || b == 0x2f || b == 0x3f || b == 0x23 || b == 0x5b || b == 0x5d || b == 0x40 || b
        == 0x21 || b == 0x24 || b == 0x26 || b == 0x22 || b == 0x28 || b == 0x29 || b == 0x2a || b
        == 0x2b || b == 0x2c || b == 0x3b || b == 0x3d
}

/// Percent-encodes the bytes of `str` for use as a query component.
pub fn query_quote(str: &str) -> (out: String)
    ensures
        out@ == encoded(str.spec_bytes(), false),
{
    rfc3986_encode(str, false)
}

/// Percent-encodes the bytes of `str`. With `full_url` the delimiters of a
/// URL stay as they are; without it only unreserved bytes do.
pub fn rfc3986_encode(str: &str, full_url: bool) -> (out: String)
    ensures
        out@ == encoded(str.spec_bytes(), full_url),
{
    let bytes = str.as_bytes();
    let mut out = String::new();
    let mut i: usize = 0;
    while i < bytes.len()
        invariant
            0 <= i <= bytes@.len(),
            out@ == encoded(bytes@.take(i as int), full_url),
        decreases bytes@.len() - i,
    {
        let b: u8 = bytes[i];
        proof {
            assert(bytes@.take(i + 1).drop_last() == bytes@.take(i as int));
        }
        if unreserved(b) || (full_url && delimiter(b)) {
            push_char(&mut out, b as char);
            proof {
                assert(out@ =~= encoded(bytes@.take(i + 1), full_url));
            }
        } else {
            push_char(&mut out, '%');
            push_char(&mut out, hex_digit(b / 16));
            push_char(&mut out, hex_digit(b % 16));
            proof {
                assert(out@ =~= encoded(bytes@.take(i + 1), full_url));
            }
        }
        i += 1;
    }
    proof {
        assert(bytes@.take(i as int) == bytes@);
    }
    out
}

/// The error of a cipher of the `rust-crypto` crate.
#[verifier::external_type_specification]
#[verifier::external_body]
pub struct ExSymmetricCipherError(SymmetricCipherError);

/// What AES-256 in CBC mode with an all-zero initialization vector and PKCS
/// padding makes of `data` under `key`, as the `rust-crypto` crate computes
/// it; `None` where the cipher reports an error.
pub uninterp spec fn aes_encrypted(data: Seq<u8>, key: Seq<u8>) -> Option<Seq<u8>>;

/// What AES-256 in CBC mode with an all-zero initialization vector makes
/// of `data` under `key` when it decrypts block by block and leaves the
/// padding where it is, as the `rust-crypto` crate computes it; `None` where
/// the cipher reports an error.
pub uninterp spec fn aes_blocks_decrypted(data: Seq<u8>, key: Seq<u8>) -> Option<Seq<u8>>;

/// The last `count` bytes of `bytes` all have the value `count`.
pub open spec fn ends_in_padding(bytes: Seq<u8>, count: int) -> bool {
    forall|i: int| bytes.len() - count <= i < bytes.len() ==> #[trigger] bytes[i] == count
}

/// The bytes without their PKCS padding: the last byte tells how many bytes
/// of padding there are, from 1 to 16, and each of them holds that number.
/// `None` where the bytes do not end in such a padding.
pub open spec fn unpadded(bytes: Seq<u8>) -> Option<Seq<u8>> {
    if bytes.len() == 0 {
        None
    } else if 1 <= bytes.last() <= 16 && bytes.last() <= bytes.len() && ends_in_padding(
        bytes,
        bytes.last() as int,
    ) {
        Some(bytes.take(bytes.len() - bytes.last()))
    } else {
        None
    }
}

/// What decrypting `data` under `key` gives: the decrypted blocks without
/// their padding; `None` where the cipher reports an error or the blocks do
/// not end in a padding.
pub open spec fn aes_decrypted(data: Seq<u8>, key: Seq<u8>) -> Option<Seq<u8>> {
    match aes_blocks_decrypted(data, key) {
        Some(blocks) => unpadded(blocks),
        None => None,
    }
}

/// `aes::cbc_encryptor` of the `rust-crypto` crate, run over `data` until
/// the input is used up. The key has to be 32 bytes long.
#[verifier::external_body]
pub fn encrypt(data: &[u8], key: &[u8]) -> (r: Result<Vec<u8>, SymmetricCipherError>)
    requires
        key@.len() == 32,
    ensures
        match r {
            Ok(out) => aes_encrypted(data@, key@) == Some(out@),
            Err(_) => aes_encrypted(data@, key@) is None,
        },
{
    let mut encryptor =
        aes::cbc_encryptor(aes::KeySize::KeySize256, key, &[0; 16], blockmodes::PkcsPadding);
    let mut out = Vec::<u8>::new();
    let mut buffer = [0; 4096];
    let mut reader = RefReadBuffer::new(data);
    let mut writer = RefWriteBuffer::new(&mut buffer);
    loop {
        let result = encryptor.encrypt(&mut reader, &mut writer, true)?;
        out.extend(writer.take_read_buffer().take_remaining());
        if let BufferResult::BufferUnderflow = result {
            break ;
        }
    }
    Ok(out)
}

/// `aes::cbc_decryptor` of the `rust-crypto` crate with its `NoPadding`
/// processor, run over `data` until the input is used up: the decrypted
/// blocks with whatever padding they end in. The key has to be 32 bytes long.
#[verifier::external_body]
fn decrypt_blocks(data: &[u8], key: &[u8]) -> (r: Result<Vec<u8>, SymmetricCipherError>)
    requires
        key@.len() == 32,
    ensures
        match r {
            Ok(out) => aes_blocks_decrypted(data@, key@) == Some(out@),
            Err(_) => aes_blocks_decrypted(data@, key@) is None,
        },
{
    let mut decryptor =
        aes::cbc_decryptor(aes::KeySize::KeySize256, key, &[0; 16], blockmodes::NoPadding);
    let mut out = Vec::<u8>::new();
    let mut buffer = [0; 4096];
    let mut reader = RefReadBuffer::new(data);
    let mut writer = RefWriteBuffer::new(&mut buffer);
    loop {
        let result = decryptor.decrypt(&mut reader, &mut writer, true)?;
        out.extend(writer.take_read_buffer().take_remaining());
        if let BufferResult::BufferUnderflow = result {
            break ;
        }
    }
    Ok(out)
}

/// Takes the PKCS padding off the end of `bytes`.
pub fn strip_padding(bytes: Vec<u8>) -> (r: Option<Vec<u8>>)
    ensures
        match r {
            Some(data) => unpadded(bytes@) == Some(data@),
            None => unpadded(bytes@) is None,
        },
{
    let n: usize = bytes.len();
    if n == 0 {
        return None;
    }
    let count: u8 = bytes[n - 1];
    if count < 1 || count > 16 || count as usize > n {
        return None;
    }
    let start: usize = n - count as usize;
    let mut i: usize = start;
    while i < n
        invariant
            start <= i <= n == bytes@.len(),
            n > 0,
            count == bytes@.last(),
            1 <= count <= 16,
            start == n - count,
            forall|j: int| start <= j < i ==> #[trigger] bytes@[j] == count,
        decreases n - i,
    {
        if bytes[i] != count {
            assert(!ends_in_padding(bytes@, count as int)) by {
                assert(bytes@[i as int] != count);
            }
            return None;
        }
        i += 1;
    }
    let mut data = bytes;
    data.truncate(start);
    proof {
        assert(data@ =~= bytes@.take(bytes@.len() - bytes@.last()));
    }
    Some(data)
}

/// Decrypts `encrypted_data` under `key`, which has to be 32 bytes long, and
/// takes the padding off. `None` where the data is no whole number of blocks
/// or does not decrypt to bytes that end in a padding.
pub fn decrypt(encrypted_data: &[u8], key: &[u8]) -> (r: Option<Vec<u8>>)
    requires
        key@.len() == 32,
    ensures
        match r {
            Some(out) => aes_decrypted(encrypted_data@, key@) == Some(out@),
            None => aes_decrypted(encrypted_data@, key@) is None,
        },
{
    match decrypt_blocks(encrypted_data, key) {
        Ok(blocks) => strip_padding(blocks),
        Err(_) => None,
    }
}

} // verus!
