//! AES-128 ECB framing of the alarm receiver protocol.
//!
//! A received frame is two AES blocks (32 bytes). Decrypted, it starts with
//! `'B'`, its second byte is six more than the payload length, and the payload
//! starts at offset 6; the library hands it on with a leading `'@'`.
//! An outgoing message `'@' + payload` is packed into one block with the same
//! layout, a timer taken from the clock, and encrypted.

use aes::cipher::generic_array::GenericArray;
use aes::cipher::{BlockDecrypt, BlockEncrypt, KeyInit};
use aes::Aes128;
use crate::clock::clock_timestamp;
use vstd::prelude::*;

verus! {

/// AES block size in bytes.
pub const BLOCK_LEN: usize = 16;

/// Length of a received, encrypted frame.
pub const RX_FRAME_LEN: usize = 32;

/// First byte of a decrypted frame and of an outgoing block (`'B'`).
pub const FRAME_MARK: u8 = 66;

/// First byte of a message as the rest of the system sees it (`'@'`).
pub const MESSAGE_MARK: u8 = 64;

/// Padding byte of an outgoing block (a space).
pub const PAD_BYTE: u8 = 32;

/// Most payload bytes an outgoing block carries.
pub const TX_PAYLOAD_MAX: usize = 10;

/// AES-128 encryption of one 16-byte block under a 16-byte key.
pub uninterp spec fn aes128_encrypt_block(key: Seq<u8>, block: Seq<u8>) -> Seq<u8>;

/// AES-128 decryption of one 16-byte block under a 16-byte key.
pub uninterp spec fn aes128_decrypt_block(key: Seq<u8>, block: Seq<u8>) -> Seq<u8>;

/// Encrypts one block with `aes::Aes128` (`KeyInit::new`, then
/// `BlockEncrypt::encrypt_block`). Trusted: the result is the AES encryption
/// of `block` under `key`, 16 bytes long, and decrypting it under the same key
/// gives `block` back, as the `aes` crate's documentation example shows.
#[verifier::external_body]
fn aes128_encrypt(key: &[u8], block: &[u8]) -> (out: Vec<u8>)
    requires
        key@.len() == 16,
        block@.len() == 16,
    ensures
        out@ == aes128_encrypt_block(key@, block@),
        out@.len() == 16,
        aes128_decrypt_block(key@, out@) == block@,
{
    let cipher = Aes128::new(GenericArray::from_slice(key));
    let mut buf = GenericArray::clone_from_slice(block);
    cipher.encrypt_block(&mut buf);
    buf.to_vec()
}

/// Decrypts one block with `aes::Aes128` (`KeyInit::new`, then
/// `BlockDecrypt::decrypt_block`). Trusted: the result is the AES decryption
/// of `block` under `key` and is 16 bytes long.
#[verifier::external_body]
fn aes128_decrypt(key: &[u8], block: &[u8]) -> (out: Vec<u8>)
    requires
        key@.len() == 16,
        block@.len() == 16,
    ensures
        out@ == aes128_decrypt_block(key@, block@),
        out@.len() == 16,
{
    let cipher = Aes128::new(GenericArray::from_slice(key));
    let mut buf = GenericArray::clone_from_slice(block);
    cipher.decrypt_block(&mut buf);
    buf.to_vec()
}

/// The first `n` blocks of `data`, each decrypted on its own (ECB mode).
pub open spec fn ecb_decrypt_blocks(key: Seq<u8>, data: Seq<u8>, n: nat) -> Seq<u8>
    decreases n,
{
    if n == 0 {
        Seq::empty()
    } else {
        ecb_decrypt_blocks(key, data, (n - 1) as nat) + aes128_decrypt_block(
            key,
            data.subrange(16 * (n - 1), 16 * (n as int)),
        )
    }
}

/// What `decrypt_aes_ecb` returns: data whose length is not a multiple of
/// the block size comes back unchanged; otherwise every block is decrypted.
pub open spec fn decrypt_aes_ecb_spec(data: Seq<u8>, key: Seq<u8>) -> Seq<u8> {
    if data.len() % 16 != 0 {
        data
    } else {
        ecb_decrypt_blocks(key, data, data.len() / 16)
    }
}

/// What `encrypt_aes_ecb` returns: only a single block is encrypted; data of
/// any other length comes back unchanged.
pub open spec fn encrypt_aes_ecb_spec(data: Seq<u8>, key: Seq<u8>) -> Seq<u8> {
    if data.len() != 16 {
        data
    } else {
        aes128_encrypt_block(key, data)
    }
}

/// Decrypts `data` block by block under an AES-128 key (ECB mode).
/// Data whose length is not a multiple of 16 is returned as it is.
pub fn decrypt_aes_ecb(data: &[u8], key: &[u8]) -> (out: Vec<u8>)
    requires
        data@.len() % 16 != 0 || key@.len() == 16,
    ensures
        out@ == decrypt_aes_ecb_spec(data@, key@),
        out@.len() == data@.len(),
        data@.len() % 16 == 0 ==> forall|b: int|
            0 <= b < data@.len() / 16 ==> #[trigger] out@.subrange(16 * b, 16 * b + 16)
                == aes128_decrypt_block(key@, data@.subrange(16 * b, 16 * b + 16)),
{
    if data.len() % BLOCK_LEN != 0 {
        return vstd::slice::slice_to_vec(data);
    }
    let n: usize = data.len() / BLOCK_LEN;
    let mut out: Vec<u8> = Vec::new();
    let mut i: usize = 0;
    while i < n
        invariant
            key@.len() == 16,
            data@.len() == 16 * n,
            data.len() == 16 * n,
            i <= n,
            out@ == ecb_decrypt_blocks(key@, data@, i as nat),
            out@.len() == 16 * i,
            forall|b: int|
                0 <= b < i ==> #[trigger] out@.subrange(16 * b, 16 * b + 16) == aes128_decrypt_block(
                    key@,
                    data@.subrange(16 * b, 16 * b + 16),
                ),
        decreases n - i,
    {
        let start: usize = 16 * i;
        let block = &data[start..start + 16];
        let mut plain = aes128_decrypt(key, block);
        let ghost before = out@;
        out.append(&mut plain);
        proof {
            assert forall|b: int| 0 <= b <= i implies #[trigger] out@.subrange(16 * b, 16 * b + 16)
                == aes128_decrypt_block(key@, data@.subrange(16 * b, 16 * b + 16)) by {
                if b < i {
                    assert(out@.subrange(16 * b, 16 * b + 16) =~= before.subrange(16 * b, 16 * b + 16));
                } else {
                    assert(out@.subrange(16 * b, 16 * b + 16) =~= aes128_decrypt_block(key@, block@));
                }
            }
        }
        i = i + 1;
    }
    out
}

/// Encrypts a single 16-byte block under an AES-128 key. Data of any other
/// length is returned as it is. Decrypting the block that comes out, with the
/// same key, gives the input back.
pub fn encrypt_aes_ecb(data: &[u8], key: &[u8]) -> (out: Vec<u8>)
    requires
        data@.len() != 16 || key@.len() == 16,
    ensures
        out@ == encrypt_aes_ecb_spec(data@, key@),
        out@.len() == data@.len(),
        data@.len() == 16 ==> decrypt_aes_ecb_spec(out@, key@) == data@,
        data@.len() == 16 ==> aes128_decrypt_block(key@, out@) == data@,
{
    if data.len() != BLOCK_LEN {
        return vstd::slice::slice_to_vec(data);
    }
    let out = aes128_encrypt(key, data);
    proof {
        reveal_with_fuel(ecb_decrypt_blocks, 2);
        assert(out@.subrange(0, 16) =~= out@);
        assert(ecb_decrypt_blocks(key@, out@, 1) =~= aes128_decrypt_block(key@, out@));
    }
    out
}

/// A decrypted frame whose payload length cannot be read: it starts with
/// `'B'` but its length byte is missing or below six, so that no payload
/// length (the length byte less six) exists.
pub open spec fn rx_frame_fails(dec: Seq<u8>) -> bool {
    dec.len() > 0 && dec[0] == FRAME_MARK && (dec.len() < 2 || dec[1] < 6)
}

/// The message carried by a decrypted frame: `'@'` followed by the
/// `dec[1] - 6` payload bytes that start at offset 6, when the frame starts
/// with `'B'` and is long enough; `None` otherwise.
pub open spec fn rx_payload(dec: Seq<u8>) -> Option<Seq<u8>> {
    if dec.len() > 0 && dec[0] == FRAME_MARK {
        let cant = dec[1] - 6;
        if cant + 7 <= dec.len() {
            Some(seq![MESSAGE_MARK] + dec.subrange(6, 6 + cant))
        } else {
            None
        }
    } else {
        None
    }
}

/// What `procesa_rx` returns: the message and `true` for an accepted frame,
/// the input unchanged and `false` otherwise.
pub open spec fn procesa_rx_spec(strg: Seq<u8>, key: Seq<u8>) -> (Seq<u8>, bool) {
    if strg.len() != 32 {
        (strg, false)
    } else {
        match rx_payload(decrypt_aes_ecb_spec(strg, key)) {
            Some(p) => (p, true),
            None => (strg, false),
        }
    }
}

/// A 32-byte frame that decrypts to a frame whose payload length cannot be
/// read (see `rx_frame_fails`); `procesa_rx` takes no such frame.
pub open spec fn procesa_rx_fails(strg: Seq<u8>, key: Seq<u8>) -> bool {
    strg.len() == 32 && rx_frame_fails(decrypt_aes_ecb_spec(strg, key))
}

/// Extracts the message from a decrypted frame (see `rx_payload`).
pub fn parse_rx_frame(dec: &[u8]) -> (res: Option<Vec<u8>>)
    requires
        !rx_frame_fails(dec@),
    ensures
        match res {
            Some(v) => rx_payload(dec@) == Some(v@),
            None => rx_payload(dec@) is None,
        },
{
    if dec.len() > 0 && dec[0] == FRAME_MARK {
        let cant: usize = (dec[1] - 6) as usize;
        if cant + 7 <= dec.len() {
            let mut result: Vec<u8> = vec![MESSAGE_MARK];
            let mut body = vstd::slice::slice_to_vec(&dec[6..6 + cant]);
            result.append(&mut body);
            assert(result@ =~= seq![MESSAGE_MARK] + dec@.subrange(6, 6 + cant));
            return Some(result);
        }
    }
    None
}

/// Handles a received frame: a 32-byte frame is decrypted and, when it
/// carries a message, the message is returned with `true`; anything else
/// is returned unchanged with `false`.
pub fn procesa_rx(strg: Vec<u8>, key: &[u8]) -> (res: (Vec<u8>, bool))
    requires
        strg@.len() != 32 || key@.len() == 16,
        !procesa_rx_fails(strg@, key@),
    ensures
        (res.0@, res.1) == procesa_rx_spec(strg@, key@),
{
    if strg.len() != RX_FRAME_LEN {
        return (strg, false);
    }
    let decrypted = decrypt_aes_ecb(strg.as_slice(), key);
    match parse_rx_frame(decrypted.as_slice()) {
        Some(msg) => (msg, true),
        None => (strg, false),
    }
}

/// `procesa_rx` for any input: `None` for a 32-byte frame with a key that
/// is not 16 bytes long, or one that decrypts to a frame that starts with
/// `'B'` and has a length byte below six; else what `procesa_rx` returns.
pub fn procesa_rx_checked(strg: Vec<u8>, key: &[u8]) -> (res: Option<(Vec<u8>, bool)>)
    ensures
        match res {
            Some(r) => !procesa_rx_fails(strg@, key@) && (strg@.len() != 32 || key@.len() == 16)
                && (r.0@, r.1) == procesa_rx_spec(strg@, key@),
            None => strg@.len() == 32 && (key@.len() != 16 || procesa_rx_fails(strg@, key@)),
        },
{
    if strg.len() == RX_FRAME_LEN {
        if key.len() != BLOCK_LEN {
            return None;
        }
        let decrypted = decrypt_aes_ecb(strg.as_slice(), key);
        if decrypted.len() > 0 && decrypted[0] == FRAME_MARK && (decrypted.len() < 2 || decrypted[1] < 6) {
            return None;
        }
    }
    Some(procesa_rx(strg, key))
}

/// The 16-bit timer that an outgoing block carries: the timestamp in whole
/// minutes (rounded toward zero), reduced modulo 65536.
pub open spec fn tx_timer(ts: int) -> int {
    if ts >= 0 {
        (ts / 60) % 65536
    } else {
        (65536 - ((-ts) / 60) % 65536) % 65536
    }
}

/// How many payload bytes an outgoing block carries for a message of
/// `len` bytes (the leading `'@'` is not sent).
pub open spec fn tx_copy_len(len: int) -> int {
    if len - 1 < 10 {
        len - 1
    } else {
        10
    }
}

/// The plaintext block sent for message `strg` at time `ts`: `'B'`, the
/// length byte `len + 5` (mod 256), the timer in two bytes (high first),
/// two zero bytes, up to ten payload bytes (the message without its first
/// byte), padded with spaces.
pub open spec fn tx_block(strg: Seq<u8>, ts: int) -> Seq<u8> {
    let c = tx_copy_len(strg.len() as int);
    let tmr = tx_timer(ts);
    Seq::new(
        16,
        |i: int|
            if i == 0 {
                FRAME_MARK
            } else if i == 1 {
                ((strg.len() + 5) % 256) as u8
            } else if i == 2 {
                (tmr / 256) as u8
            } else if i == 3 {
                (tmr % 256) as u8
            } else if i < 6 {
                0u8
            } else if i < 6 + c {
                strg[i - 5]
            } else {
                PAD_BYTE
            },
    )
}

/// What `procesa_tx_at` returns.
pub open spec fn procesa_tx_spec(strg: Seq<u8>, key: Seq<u8>, encrypted: bool, ts: int) -> Seq<u8> {
    if !encrypted || strg.len() == 0 {
        strg
    } else {
        aes128_encrypt_block(key, tx_block(strg, ts))
    }
}

fn tx_timer_of(ts: i64) -> (t: u32)
    ensures
        t == tx_timer(ts as int),
        t < 65536,
{
    if ts >= 0 {
        let q: u64 = (ts as u64) / 60;
        (q % 65536) as u32
    } else {
        let m: u64 = ((-(ts + 1)) as u64) + 1;
        let q: u64 = m / 60;
        ((65536 - q % 65536) % 65536) as u32
    }
}

/// Builds the plaintext block of `tx_block`.
pub fn build_tx_block(strg: &[u8], ts: i64) -> (block: Vec<u8>)
    requires
        strg@.len() > 0,
    ensures
        block@ == tx_block(strg@, ts as int),
{
    let mut block: Vec<u8> = vec![PAD_BYTE; 16];
    let len: usize = strg.len();
    let tmr: u32 = tx_timer_of(ts);
    block.set(0, FRAME_MARK);
    block.set(1, ((len % 256 + 5) % 256) as u8);
    block.set(2, (tmr / 256) as u8);
    block.set(3, (tmr % 256) as u8);
    block.set(4, 0);
    block.set(5, 0);
    let copy_len: usize = if len - 1 < TX_PAYLOAD_MAX { len - 1 } else { TX_PAYLOAD_MAX };
    let mut j: usize = 0;
    while j < copy_len
        invariant
            copy_len == tx_copy_len(len as int),
            len == strg@.len(),
            j <= copy_len,
            block@.len() == 16,
            forall|i: int| 0 <= i < 6 + j ==> block@[i] == tx_block(strg@, ts as int)[i],
            forall|i: int| 6 + j <= i < 16 ==> block@[i] == PAD_BYTE,
        decreases copy_len - j,
    {
        block.set(6 + j, strg[1 + j]);
        j = j + 1;
    }
    assert(block@ =~= tx_block(strg@, ts as int));
    block
}

/// Packs and encrypts an outgoing message with the timer taken from
/// `timestamp`. A plain (not encrypted) or empty message is returned as it
/// is. Decrypting the result with the same key gives the packed block back.
pub fn procesa_tx_at(strg: Vec<u8>, key: &[u8], encrypted: bool, timestamp: i64) -> (res: Vec<u8>)
    requires
        !encrypted || strg@.len() == 0 || key@.len() == 16,
    ensures
        res@ == procesa_tx_spec(strg@, key@, encrypted, timestamp as int),
        encrypted && strg@.len() > 0 ==> res@.len() == 16,
        encrypted && strg@.len() > 0 ==> aes128_decrypt_block(key@, res@) == tx_block(strg@, timestamp as int),
        encrypted && strg@.len() > 0 ==> decrypt_aes_ecb_spec(res@, key@) == tx_block(strg@, timestamp as int),
{
    if !encrypted || strg.len() == 0 {
        return strg;
    }
    let block = build_tx_block(strg.as_slice(), timestamp);
    encrypt_aes_ecb(block.as_slice(), key)
}

/// Packs and encrypts an outgoing message, with the timer taken from the
/// clock. A plain (not encrypted) or empty message is returned as it
/// is; otherwise the result is `procesa_tx_at` at some timestamp, and
/// decrypting it gives that packed block back.
pub fn procesa_tx(strg: Vec<u8>, key: &[u8], encrypted: bool) -> (res: Vec<u8>)
    requires
        !encrypted || strg@.len() == 0 || key@.len() == 16,
    ensures
        !encrypted || strg@.len() == 0 ==> res@ == strg@,
        encrypted && strg@.len() > 0 ==> exists|ts: i64|
            #![trigger tx_block(strg@, ts as int)]
            res@ == aes128_encrypt_block(key@, tx_block(strg@, ts as int)) && res@.len() == 16
                && aes128_decrypt_block(key@, res@) == tx_block(strg@, ts as int)
                && decrypt_aes_ecb_spec(res@, key@) == tx_block(strg@, ts as int),
{
    if !encrypted || strg.len() == 0 {
        return strg;
    }
    let ts = clock_timestamp();
    let ghost s = strg@;
    let res = procesa_tx_at(strg, key, encrypted, ts);
    assert(res@ == aes128_encrypt_block(key@, tx_block(s, ts as int)));
    res
}

/// The timer counts whole minutes: it is the timestamp's minutes
/// (rounded toward zero, as integer division of the timestamp by 60 does)
/// modulo 65536, so one minute later it steps by one; the block carries it
/// in bytes 2 and 3, high byte first.
pub proof fn lemma_tx_timer_counts_minutes(strg: Seq<u8>, ts: int)
    ensures
        0 <= tx_timer(ts) < 65536,
        ts >= 0 ==> tx_timer(ts) == (ts / 60) % 65536,
        ts < 0 ==> (tx_timer(ts) + (-ts) / 60) % 65536 == 0,
        ts >= 0 ==> tx_timer(ts + 60) == (tx_timer(ts) + 1) % 65536,
        ts >= 0 ==> tx_block(strg, ts)[2] * 256 + tx_block(strg, ts)[3] == (ts / 60) % 65536,
{
    if ts >= 0 {
        assert((ts + 60) / 60 == ts / 60 + 1);
        let m = ts / 60;
        assert((m + 1) % 65536 == (m % 65536 + 1) % 65536) by {
            vstd::arithmetic::div_mod::lemma_add_mod_noop(m, 1, 65536);
        }
        let t = tx_timer(ts);
        assert(tx_block(strg, ts)[2] == (t / 256) as u8);
        assert(tx_block(strg, ts)[3] == (t % 256) as u8);
        assert((t / 256) * 256 + t % 256 == t);
    } else {
        let q = (-ts) / 60;
        let r = q % 65536;
        assert(0 <= r < 65536);
        if r == 0 {
            assert((65536 - r) % 65536 == 0);
            assert((0 + q) % 65536 == 0);
        } else {
            assert((65536 - r) % 65536 == 65536 - r);
            vstd::arithmetic::div_mod::lemma_add_mod_noop(65536 - r, q, 65536);
            assert((65536 - r) % 65536 + q % 65536 == 65536);
        }
    }
}

/// Layout agreement of the two directions: a 32-byte frame that decrypts to
/// the block the sender packs for a message of one to eleven bytes,
/// followed by any second block, is accepted by the receiver, which hands
/// back `'@'` and the message without its first byte.
pub proof fn lemma_rx_accepts_tx_layout(frame: Seq<u8>, key: Seq<u8>, strg: Seq<u8>, ts: int, tail: Seq<u8>)
    requires
        frame.len() == 32,
        tail.len() == 16,
        1 <= strg.len() <= 11,
        decrypt_aes_ecb_spec(frame, key) == tx_block(strg, ts) + tail,
    ensures
        !procesa_rx_fails(frame, key),
        procesa_rx_spec(frame, key) == (seq![MESSAGE_MARK] + strg.skip(1), true),
{
    let dec = decrypt_aes_ecb_spec(frame, key);
    let blk = tx_block(strg, ts);
    assert(dec[0] == blk[0]);
    assert(dec[1] == blk[1]);
    let cant = dec[1] - 6;
    assert(cant == strg.len() - 1);
    assert forall|i: int| 0 <= i < cant implies #[trigger] dec.subrange(6, 6 + cant)[i] == strg[i + 1] by {
        assert(dec[6 + i] == blk[6 + i]);
    }
    assert(seq![MESSAGE_MARK] + dec.subrange(6, 6 + cant) =~= seq![MESSAGE_MARK] + strg.skip(1));
}

/// What the sender emits is what the receiver takes: a 32-byte frame whose
/// first block is the output of `procesa_tx` for a message of one to eleven
/// bytes (it decrypts to the packed block, as `procesa_tx` states), and whose
/// second block is any block (whose decryption, as every decryption of a
/// block, is 16 bytes long), is accepted by `procesa_rx`, which hands back
/// `'@'` and the message without its first byte.
pub proof fn lemma_rx_accepts_tx(frame: Seq<u8>, key: Seq<u8>, strg: Seq<u8>, ts: int)
    requires
        frame.len() == 32,
        1 <= strg.len() <= 11,
        aes128_decrypt_block(key, frame.take(16)) == tx_block(strg, ts),
        aes128_decrypt_block(key, frame.skip(16)).len() == 16,
    ensures
        !procesa_rx_fails(frame, key),
        procesa_rx_spec(frame, key) == (seq![MESSAGE_MARK] + strg.skip(1), true),
{
    reveal_with_fuel(ecb_decrypt_blocks, 3);
    assert(frame.subrange(0, 16) =~= frame.take(16));
    assert(frame.subrange(16, 32) =~= frame.skip(16));
    let tail = aes128_decrypt_block(key, frame.skip(16));
    assert(decrypt_aes_ecb_spec(frame, key) =~= tx_block(strg, ts) + tail);
    lemma_rx_accepts_tx_layout(frame, key, strg, ts, tail);
}

/// The sender reads only the length of a message and its bytes one to ten:
/// two messages that agree in these, sent with the same key at times with
/// the same timer (in particular within the same minute), are packed and
/// encrypted alike.
pub proof fn lemma_tx_reads_only_payload(s1: Seq<u8>, s2: Seq<u8>, key: Seq<u8>, ts1: int, ts2: int)
    requires
        s1.len() == s2.len(),
        s1.len() >= 1,
        forall|i: int| 1 <= i < s1.len() && i < 11 ==> s1[i] == s2[i],
        tx_timer(ts1) == tx_timer(ts2),
    ensures
        tx_block(s1, ts1) == tx_block(s2, ts2),
        procesa_tx_spec(s1, key, true, ts1) == procesa_tx_spec(s2, key, true, ts2),
{
    assert forall|i: int| 0 <= i < 16 implies #[trigger] tx_block(s1, ts1)[i] == tx_block(s2, ts2)[i] by {
        if 6 <= i < 6 + tx_copy_len(s1.len() as int) {
            assert(s1[i - 5] == s2[i - 5]);
        }
    }
    assert(tx_block(s1, ts1) =~= tx_block(s2, ts2));
}

} // verus!
