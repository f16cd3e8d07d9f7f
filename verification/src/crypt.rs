//! Transparent per-offset ChaCha20 encryption over a byte store.
//!
//! The cipher state is derived from the absolute stream offset alone, so
//! positioned reads stay random-access and compose: offset `O` lies in the
//! keystream window `O / REKEY_PERIOD`, whose 12-byte nonce is the 4-byte
//! image nonce prefix followed by the big-endian window index, and the
//! keystream is applied from the intra-window position `O % REKEY_PERIOD`.
//! Crossing a window boundary switches to a fresh nonce, so no (key, nonce)
//! pair is ever reused while the 32-bit block counter stays in range.

use vstd::prelude::*;
use vstd::slice::{slice_subrange, slice_to_vec};
use vstd::arithmetic::div_mod::lemma_fundamental_div_mod_converse;
use chacha20::cipher::{KeyIvInit, StreamCipher, StreamCipherSeek};
use crate::error::Error;
use crate::store::ReadAt;

verus! {

/// Span in bytes of one ChaCha20 keystream window under a single nonce.
pub const CHACHA20_REKEY_PERIOD: u64 = 0x1_0000_0000;

/// Length of the key material handed to the cipher layer: a 32-byte key
/// followed by a 4-byte nonce prefix.
pub const KEY_MATERIAL_LEN: usize = 36;

/// The keystream byte that ChaCha20 produces at byte position `pos` of the
/// stream keyed by `key` and `nonce`. The result depends on the three
/// arguments alone; nothing more is assumed about it.
pub uninterp spec fn chacha20_keystream_byte(key: Seq<u8>, nonce: Seq<u8>, pos: int) -> u8;

/// Relies on `chacha20::ChaCha20` through `cipher::KeyIvInit` (`new`),
/// `cipher::StreamCipherSeek` (`seek`) and `cipher::StreamCipher`
/// (`apply_keystream`): after seeking the cipher to byte position `pos`,
/// applying it XORs byte `i` of the data with the keystream byte at
/// `pos + i`, which is a function of key, nonce and position alone. The
/// bound on `pos + len` keeps the 32-bit block counter in range, where the
/// crate's source shows neither call can fail.
#[verifier::external_body]
fn chacha20_apply(key: &[u8; 32], nonce: &Vec<u8>, pos: u64, data: &Vec<u8>) -> (r: Vec<u8>)
    requires
        nonce@.len() == 12,
        pos + data@.len() <= 0x1_0000_0000u64,
    ensures
        r@.len() == data@.len(),
        forall|i: int|
            0 <= i < data@.len() ==> r@[i] == (data@[i] ^ chacha20_keystream_byte(
                key@,
                nonce@,
                pos + i,
            )),
{
    let mut cipher = chacha20::ChaCha20::new(
        chacha20::Key::from_slice(key.as_slice()),
        chacha20::Nonce::from_slice(nonce.as_slice()),
    );
    cipher.seek(pos);
    let mut out = data.clone();
    cipher.apply_keystream(out.as_mut_slice());
    out
}

/// The 8 big-endian bytes of `x`.
pub open spec fn spec_u64_be(x: u64) -> Seq<u8> {
    seq![
        ((x >> 56) & 0xff) as u8,
        ((x >> 48) & 0xff) as u8,
        ((x >> 40) & 0xff) as u8,
        ((x >> 32) & 0xff) as u8,
        ((x >> 24) & 0xff) as u8,
        ((x >> 16) & 0xff) as u8,
        ((x >> 8) & 0xff) as u8,
        (x & 0xff) as u8,
    ]
}

/// The 12-byte nonce of keystream window `block`: the image's 4-byte nonce
/// prefix followed by the big-endian window index.
pub open spec fn spec_block_nonce(prefix: Seq<u8>, block: u64) -> Seq<u8> {
    prefix + spec_u64_be(block)
}

/// Build the nonce of keystream window `block`.
fn block_nonce(prefix: &[u8; 4], block: u64) -> (r: Vec<u8>)
    ensures
        r@ == spec_block_nonce(prefix@, block),
        r@.len() == 12,
{
    let x = block;
    proof {
        assert((x >> 56) & 0xff < 256 && (x >> 48) & 0xff < 256 && (x >> 40) & 0xff < 256 && (x
            >> 32) & 0xff < 256 && (x >> 24) & 0xff < 256 && (x >> 16) & 0xff < 256 && (x >> 8)
            & 0xff < 256 && x & 0xff < 256) by (bit_vector);
    }
    let mut out: Vec<u8> = Vec::new();
    out.push(prefix[0]);
    out.push(prefix[1]);
    out.push(prefix[2]);
    out.push(prefix[3]);
    out.push(((x >> 56) & 0xff) as u8);
    out.push(((x >> 48) & 0xff) as u8);
    out.push(((x >> 40) & 0xff) as u8);
    out.push(((x >> 32) & 0xff) as u8);
    out.push(((x >> 24) & 0xff) as u8);
    out.push(((x >> 16) & 0xff) as u8);
    out.push(((x >> 8) & 0xff) as u8);
    out.push((x & 0xff) as u8);
    proof {
        assert(out@ =~= spec_block_nonce(prefix@, block));
    }
    out
}

/// The keystream byte applied at absolute stream offset `abs` under the
/// given key and nonce prefix.
pub open spec fn spec_key_byte(key: Seq<u8>, prefix: Seq<u8>, abs: int) -> u8 {
    chacha20_keystream_byte(
        key,
        spec_block_nonce(prefix, (abs / (CHACHA20_REKEY_PERIOD as int)) as u64),
        abs % (CHACHA20_REKEY_PERIOD as int),
    )
}

/// `data` as transformed by the cipher when it occupies absolute stream
/// offsets `start ..`; encryption and decryption are the same XOR.
pub open spec fn spec_crypt(key: Seq<u8>, prefix: Seq<u8>, start: int, data: Seq<u8>) -> Seq<u8> {
    Seq::new(data.len(), |i: int| data[i] ^ spec_key_byte(key, prefix, start + i))
}

/// Cipher round trip: transforming the same bytes twice at the same offset
/// gives the original bytes back, whatever the key material. Decryption
/// therefore inverts encryption at every offset.
pub proof fn lemma_crypt_round_trip(key: Seq<u8>, prefix: Seq<u8>, start: int, data: Seq<u8>)
    ensures
        spec_crypt(key, prefix, start, spec_crypt(key, prefix, start, data)) == data,
{
    assert(forall|a: u8, k: u8| #[trigger] ((a ^ k) ^ k) == a) by (bit_vector);
    assert(spec_crypt(key, prefix, start, spec_crypt(key, prefix, start, data)) =~= data);
}

/// Positional independence: the cipher's effect on a byte depends only on
/// its absolute stream offset, never on where the read or write that
/// carried it began. Two transformed ranges agree wherever they overlap.
pub proof fn lemma_crypt_positional_independence(
    key: Seq<u8>,
    prefix: Seq<u8>,
    raw: Seq<u8>,
    o1: int,
    n1: int,
    o2: int,
    n2: int,
    abs: int,
)
    requires
        0 <= o1,
        0 <= o2,
        o1 + n1 <= raw.len(),
        o2 + n2 <= raw.len(),
        o1 <= abs < o1 + n1,
        o2 <= abs < o2 + n2,
    ensures
        spec_crypt(key, prefix, o1, raw.subrange(o1, o1 + n1))[abs - o1] == spec_crypt(
            key,
            prefix,
            o2,
            raw.subrange(o2, o2 + n2),
        )[abs - o2],
{
}

/// Transform `data` as it stands at absolute stream offsets `start ..`,
/// window by window.
pub(crate) fn crypt_range(key: &[u8; 32], prefix: &[u8; 4], start: u64, data: &Vec<u8>) -> (r: Vec<u8>)
    requires
        start + data@.len() <= u64::MAX,
    ensures
        r@ == spec_crypt(key@, prefix@, start as int, data@),
{
    let len = data.len();
    let mut out: Vec<u8> = Vec::new();
    let mut pos: usize = 0;
    while pos < len
        invariant
            pos <= len,
            len == data@.len(),
            start + len <= u64::MAX,
            out@.len() == pos,
            forall|j: int|
                0 <= j < pos ==> out@[j] == (data@[j] ^ spec_key_byte(
                    key@,
                    prefix@,
                    start + j,
                )),
        decreases len - pos,
    {
        let off: u64 = start + (pos as u64);
        let block: u64 = off / CHACHA20_REKEY_PERIOD;
        let p: u64 = off % CHACHA20_REKEY_PERIOD;
        let rem_window: u64 = CHACHA20_REKEY_PERIOD - p;
        let rem: usize = len - pos;
        let l: usize = if (rem as u64) <= rem_window {
            rem
        } else {
            rem_window as usize
        };
        let chunk: Vec<u8> = slice_to_vec(slice_subrange(data.as_slice(), pos, pos + l));
        let nonce = block_nonce(prefix, block);
        let mut enc = chacha20_apply(key, &nonce, p, &chunk);
        proof {
            assert forall|j: int| 0 <= j < l implies enc@[j] == (data@[pos + j] ^ spec_key_byte(
                key@,
                prefix@,
                start + pos + j,
            )) by {
                assert(chunk@[j] == data@[pos + j]);
                lemma_fundamental_div_mod_converse(
                    off + j,
                    CHACHA20_REKEY_PERIOD as int,
                    block as int,
                    p + j,
                );
            }
        }
        out.append(&mut enc);
        pos = pos + l;
    }
    proof {
        assert(out@ =~= spec_crypt(key@, prefix@, start as int, data@));
    }
    out
}

/// A byte store wrapped in transparent ChaCha20: reads decrypt in place,
/// so upper layers are cipher-oblivious.
pub struct EncryptChaCha20<F> {
    pub f: F,
    pub key: [u8; 32],
    pub nonce_prefix: [u8; 4],
}

impl<F> EncryptChaCha20<F> {
    /// The wrapped store.
    pub open spec fn spec_inner(&self) -> F {
        self.f
    }

    /// The key material split into key and nonce prefix.
    pub open spec fn spec_key(&self) -> Seq<u8> {
        self.key@
    }

    /// The nonce prefix.
    pub open spec fn spec_nonce_prefix(&self) -> Seq<u8> {
        self.nonce_prefix@
    }

    /// Build the cipher layer from key material of exactly
    /// `KEY_MATERIAL_LEN` bytes: a 32-byte ChaCha20 key followed by a
    /// 4-byte nonce prefix. A missing key or any other length is a
    /// `Crypto` error.
    pub fn new(f: F, k: Option<&Vec<u8>>) -> (r: Result<EncryptChaCha20<F>, Error>)
        ensures
            match r {
                Ok(c) => {
                    &&& k matches Some(key) && key@.len() == KEY_MATERIAL_LEN
                    &&& c.spec_key() == k.unwrap()@.subrange(0, 32)
                    &&& c.spec_nonce_prefix() == k.unwrap()@.subrange(32, 36)
                    &&& c.spec_inner() == f
                },
                Err(e) => {
                    &&& (k is None || k.unwrap()@.len() != KEY_MATERIAL_LEN)
                    &&& e is Crypto
                },
            },
    {
        let key = match k {
            None => {
                return Err(Error::Crypto("No key provided"));
            },
            Some(key) => key,
        };
        if key.len() != KEY_MATERIAL_LEN {
            return Err(Error::Crypto("Invalid key length"));
        }
        let mut cipher_key: [u8; 32] = [0u8; 32];
        let mut i: usize = 0;
        while i < 32
            invariant
                i <= 32,
                key@.len() == 36,
                forall|j: int| 0 <= j < i ==> cipher_key@[j] == key@[j],
            decreases 32 - i,
        {
            let b = key[i];
            cipher_key.set(i, b);
            i = i + 1;
        }
        let mut prefix: [u8; 4] = [0u8; 4];
        let mut i: usize = 0;
        while i < 4
            invariant
                i <= 4,
                key@.len() == 36,
                forall|j: int| 0 <= j < i ==> prefix@[j] == key@[32 + j],
            decreases 4 - i,
        {
            let b = key[32 + i];
            prefix.set(i, b);
            i = i + 1;
        }
        proof {
            assert(cipher_key@ =~= key@.subrange(0, 32));
            assert(prefix@ =~= key@.subrange(32, 36));
        }
        Ok(EncryptChaCha20 { f, key: cipher_key, nonce_prefix: prefix })
    }
}

impl<F: ReadAt> ReadAt for EncryptChaCha20<F> {
    /// The wrapped store exposes the decryption of the raw bytes beneath
    /// it, each byte XORed with the keystream byte of its absolute offset.
    open spec fn contents(&self) -> Seq<u8> {
        spec_crypt(self.key@, self.nonce_prefix@, 0, self.f.contents())
    }

    proof fn contents_bounded(&self) {
        self.f.contents_bounded();
    }

    /// Read raw bytes from the inner store, then XOR the keystream over
    /// the range actually returned.
    fn read_at(&self, buf: &mut Vec<u8>, offset: u64) -> (r: Result<usize, Error>) {
        proof {
            self.f.contents_bounded();
        }
        let n = match self.f.read_at(buf, offset) {
            Ok(n) => n,
            Err(e) => {
                return Err(e);
            },
        };
        if n == 0 {
            return Ok(0);
        }
        let chunk: Vec<u8> = slice_to_vec(slice_subrange(buf.as_slice(), 0, n));
        let dec = crypt_range(&self.key, &self.nonce_prefix, offset, &chunk);
        let ghost mid = buf@;
        let mut k: usize = 0;
        while k < n
            invariant
                k <= n,
                n <= buf@.len(),
                buf@.len() == old(buf)@.len(),
                dec@.len() == n,
                forall|j: int| 0 <= j < k ==> buf@[j] == dec@[j],
                forall|j: int| k <= j < buf@.len() ==> buf@[j] == mid[j],
                forall|j: int| n <= j < buf@.len() ==> mid[j] == old(buf)@[j],
            decreases n - k,
        {
            let b = dec[k];
            buf.set(k, b);
            k = k + 1;
        }
        proof {
            assert forall|j: int| 0 <= j < n implies buf@[j] == self.contents()[offset + j] by {
                assert(chunk@[j] == self.f.contents()[offset + j]);
                assert(dec@[j] == (chunk@[j] ^ spec_key_byte(self.key@, self.nonce_prefix@, offset + j)));
            }
        }
        Ok(n)
    }
}

} // verus!
