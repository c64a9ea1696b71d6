//! Binary packet format: `[command: i8][length][data: bytes]`, the XOR stream
//! cipher that protects it, and the big-endian reader and writer for payloads.

use vstd::prelude::*;
use bytes::BytesMut;
use crate::buffer::{buffer_contents, buf_with_capacity, buf_len, buf_put_u8, buf_put_i8, buf_put_i16, buf_put_i32, buf_put_i64, buf_extend, buf_to_vec};
use crate::text::utf8_lossy;
use crate::text::utf8_lossy_string;

pub mod cmd;

verus! {

/// One byte of the XOR stream: the key byte combined with the data byte.
pub open spec fn xor_byte(k: i8, b: i8) -> i8 {
    k ^ b
}

/// The key actually used by both peers: each raw byte is XOR-ed with the
/// already chained byte before it.
pub open spec fn key_chain(raw: Seq<i8>) -> Seq<i8>
    decreases raw.len(),
{
    if raw.len() <= 1 {
        raw
    } else {
        let prefix = key_chain(raw.drop_last());
        prefix.push(xor_byte(prefix.last(), raw.last()))
    }
}

/// Chaining keeps the key's length, and its first byte: so a non-empty raw
/// key leaves the cipher ready after `set_key_from_raw`.
pub proof fn lemma_key_chain_len(raw: Seq<i8>)
    ensures
        key_chain(raw).len() == raw.len(),
        raw.len() > 0 ==> key_chain(raw)[0] == raw[0],
    decreases raw.len(),
{
    if raw.len() > 1 {
        lemma_key_chain_len(raw.drop_last());
    }
}

/// Each byte of the chained key is the chained byte before it XOR-ed with
/// the raw byte at its place, as the client chains the key it receives: so
/// byte `i` is the XOR of the raw bytes `0..=i`.
pub proof fn lemma_key_chain_links(raw: Seq<i8>, i: int)
    requires
        0 <= i < raw.len() - 1,
    ensures
        key_chain(raw)[i + 1] == key_chain(raw)[i] ^ raw[i + 1],
    decreases raw.len(),
{
    let prefix = key_chain(raw.drop_last());
    lemma_key_chain_len(raw.drop_last());
    if i + 1 < raw.len() - 1 {
        lemma_key_chain_links(raw.drop_last(), i);
    }
}

/// The key byte that is used for the `i`-th byte after position `pos`.
pub open spec fn key_at(key: Seq<i8>, pos: int, i: int) -> i8 {
    key[(pos + i) % (key.len() as int)]
}

/// Bytes XOR-ed with the key stream that starts at `pos`; with an empty key
/// the bytes pass unchanged.
pub open spec fn xor_stream(key: Seq<i8>, pos: int, data: Seq<u8>) -> Seq<u8> {
    if key.len() == 0 {
        data
    } else {
        Seq::new(data.len(), |i: int| ((key_at(key, pos, i) as u8) ^ data[i]) as u8)
    }
}

/// The position that the key stream reaches after `n` bytes.
pub open spec fn advance(key: Seq<i8>, pos: int, n: int) -> int {
    if key.len() == 0 {
        pos
    } else {
        (pos + n) % (key.len() as int)
    }
}

/// `v` as two big-endian bytes.
pub open spec fn be_bytes_i16(v: i16) -> Seq<u8> {
    seq![(v >> 8u16) as u8, v as u8]
}

/// `v` as four big-endian bytes.
pub open spec fn be_bytes_i32(v: i32) -> Seq<u8> {
    seq![(v >> 24u32) as u8, (v >> 16u32) as u8, (v >> 8u32) as u8, v as u8]
}

/// `v` as eight big-endian bytes.
pub open spec fn be_bytes_i64(v: i64) -> Seq<u8> {
    seq![
        (v >> 56u64) as u8,
        (v >> 48u64) as u8,
        (v >> 40u64) as u8,
        (v >> 32u64) as u8,
        (v >> 24u64) as u8,
        (v >> 16u64) as u8,
        (v >> 8u64) as u8,
        v as u8,
    ]
}

/// The signed 16-bit value of two big-endian bytes.
pub open spec fn be_i16(b1: u8, b2: u8) -> i16 {
    (((b1 as u16) << 8u16) | (b2 as u16)) as i16
}

/// The signed 32-bit value of four big-endian bytes.
pub open spec fn be_i32(b1: u8, b2: u8, b3: u8, b4: u8) -> i32 {
    (((b1 as u32) << 24u32) | ((b2 as u32) << 16u32) | ((b3 as u32) << 8u32) | (b4 as u32)) as i32
}

/// Byte `i` of `data`, or 0 past its end (the reader's answer there).
pub open spec fn byte_or_zero(data: Seq<u8>, i: int) -> u8 {
    if 0 <= i < data.len() {
        data[i]
    } else {
        0
    }
}

/// Where the reader stands after reading `n` bytes from `pos`: it stops at the end.
pub open spec fn skip_pos(data: Seq<u8>, pos: int, n: int) -> int {
    if pos + n <= data.len() {
        pos + n
    } else {
        data.len() as int
    }
}

/// The 16-bit value that the reader reads at `pos`.
pub open spec fn short_at(data: Seq<u8>, pos: int) -> i16 {
    be_i16(byte_or_zero(data, pos), byte_or_zero(data, pos + 1))
}

/// The 32-bit value that the reader reads at `pos`.
pub open spec fn int_at(data: Seq<u8>, pos: int) -> i32 {
    be_i32(
        byte_or_zero(data, pos),
        byte_or_zero(data, pos + 1),
        byte_or_zero(data, pos + 2),
        byte_or_zero(data, pos + 3),
    )
}

/// Text decoded from bytes as the reader decodes it: UTF-8 as it is, anything
/// else as `String::from_utf8_lossy` makes it.
pub open spec fn decode_text(bytes: Seq<u8>) -> Seq<char> {
    if vstd::utf8::valid_utf8(bytes) {
        vstd::utf8::decode_utf8(bytes)
    } else {
        utf8_lossy(bytes)
    }
}

/// A length-prefixed string can be read at `pos` without the reader failing:
/// a negative length is only accepted while it points before the buffer start.
pub open spec fn utf_readable(data: Seq<u8>, pos: int) -> bool {
    let n = short_at(data, pos) as int;
    n >= 0 || skip_pos(data, pos, 2) < -n
}

/// The string read at `pos` and the position after it: a 16-bit length, then
/// that many bytes; an empty string when the length does not fit.
pub open spec fn utf_at(data: Seq<u8>, pos: int) -> (Seq<char>, int) {
    let n = short_at(data, pos) as int;
    let p2 = skip_pos(data, pos, 2);
    if n < 0 || p2 + n > data.len() {
        (Seq::empty(), p2)
    } else {
        (decode_text(data.subrange(p2, p2 + n)), p2 + n)
    }
}

/// The pseudo-random generator step behind key generation.
pub open spec fn lcg_next(s: u64) -> u64 {
    s.wrapping_mul(1103515245).wrapping_add(12345)
}

/// The generator state after `n` steps from `seed`.
pub open spec fn lcg_state(seed: u64, n: nat) -> u64
    decreases n,
{
    if n == 0 {
        seed
    } else {
        lcg_next(lcg_state(seed, (n - 1) as nat))
    }
}

/// A raw key of `n` bytes drawn from the generator seeded with `seed`.
pub open spec fn lcg_key(seed: u64, n: nat) -> Seq<i8> {
    Seq::new(n, |i: int| (lcg_state(seed, (i + 1) as nat) >> 16u64) as i8)
}

/// XOR stream cipher shared with the client. The key is fixed by the key
/// exchange; reading and writing each keep their own position in it.
pub struct Cipher {
    key: Vec<i8>,
    read_pos: usize,
    write_pos: usize,
}

impl Cipher {
    #[verifier::type_invariant]
    spec fn positions_in_key(self) -> bool {
        if self.key@.len() == 0 {
            self.read_pos == 0 && self.write_pos == 0
        } else {
            self.read_pos < self.key@.len() && self.write_pos < self.key@.len()
        }
    }

    /// The chained key in use (empty before the key exchange).
    pub closed spec fn key(&self) -> Seq<i8> {
        self.key@
    }

    /// Position of the next key byte used to decrypt.
    pub closed spec fn read_pos(&self) -> int {
        self.read_pos as int
    }

    /// Position of the next key byte used to encrypt.
    pub closed spec fn write_pos(&self) -> int {
        self.write_pos as int
    }

    pub fn new() -> (c: Self)
        ensures
            c.key() == Seq::<i8>::empty(),
            c.read_pos() == 0,
            c.write_pos() == 0,
    {
        Cipher { key: Vec::new(), read_pos: 0, write_pos: 0 }
    }

    /// The raw key of `length` bytes that the generator gives from `seed`.
    pub fn key_from_seed(seed: u64, length: u8) -> (raw_key: Vec<i8>)
        ensures
            raw_key@ == lcg_key(seed, length as nat),
    {
        let mut rng = seed;
        let mut raw_key: Vec<i8> = Vec::with_capacity(length as usize);
        let mut i: u8 = 0;
        while i < length
            invariant
                i <= length,
                rng == lcg_state(seed, i as nat),
                raw_key@ == lcg_key(seed, i as nat),
            decreases length - i,
        {
            rng = rng.wrapping_mul(1103515245).wrapping_add(12345);
            raw_key.push((rng >> 16) as i8);
            i = i + 1;
            proof {
                assert(raw_key@ =~= lcg_key(seed, i as nat));
            }
        }
        raw_key
    }

    /// Generates a raw key without installing it, seeded from the clock.
    /// Whatever the clock reads, the key is the generator's output for some seed.
    pub fn generate_key_only(length: u8) -> (raw_key: Vec<i8>)
        ensures
            raw_key@.len() == length,
            exists|seed: u64| raw_key@ == lcg_key(seed, length as nat),
    {
        let seed = crate::clock::clock_nanos();
        let raw_key = Self::key_from_seed(seed, length);
        proof {
            assert(raw_key@ == lcg_key(seed, length as nat));
        }
        raw_key
    }

    /// Generates a raw key, installs its chain, and returns the raw key to send.
    pub fn generate_key(&mut self, length: u8) -> (raw_key: Vec<i8>)
        requires
            length > 0,
        ensures
            raw_key@.len() == length,
            exists|seed: u64| raw_key@ == lcg_key(seed, length as nat),
            final(self).key() == key_chain(raw_key@),
            final(self).read_pos() == 0,
            final(self).write_pos() == 0,
    {
        let raw_key = Self::generate_key_only(length);
        self.set_key_from_raw(raw_key.as_slice());
        raw_key
    }

    /// Chains the raw key as the client does, and starts both positions over.
    pub fn set_key_from_raw(&mut self, raw_key: &[i8])
        requires
            raw_key@.len() > 0,
        ensures
            final(self).key() == key_chain(raw_key@),
            final(self).key().len() == raw_key@.len(),
            final(self).key()[0] == raw_key@[0],
            forall|i: int|
                0 <= i < raw_key@.len() - 1 ==> #[trigger] final(self).key()[i + 1] == final(self).key()[i] ^ raw_key@[i + 1],
            final(self).read_pos() == 0,
            final(self).write_pos() == 0,
    {
        proof {
            lemma_key_chain_len(raw_key@);
            assert forall|i: int| 0 <= i < raw_key@.len() - 1 implies #[trigger] key_chain(raw_key@)[i + 1] == key_chain(
                raw_key@,
            )[i] ^ raw_key@[i + 1] by {
                lemma_key_chain_links(raw_key@, i);
            }
        }
        let processed = chain_key(raw_key);
        *self = Cipher { key: processed, read_pos: 0, write_pos: 0 };
    }

    /// Same as `set_key_from_raw`, taking the raw key by value.
    pub fn set_key(&mut self, key: Vec<i8>)
        requires
            key@.len() > 0,
        ensures
            final(self).key() == key_chain(key@),
            final(self).key().len() == key@.len(),
            final(self).key()[0] == key@[0],
            forall|i: int|
                0 <= i < key@.len() - 1 ==> #[trigger] final(self).key()[i + 1] == final(self).key()[i] ^ key@[i + 1],
            final(self).read_pos() == 0,
            final(self).write_pos() == 0,
    {
        proof {
            lemma_key_chain_len(key@);
            assert forall|i: int| 0 <= i < key@.len() - 1 implies #[trigger] key_chain(key@)[i + 1] == key_chain(
                key@,
            )[i] ^ key@[i + 1] by {
                lemma_key_chain_links(key@, i);
            }
        }
        let processed = chain_key(key.as_slice());
        *self = Cipher { key: processed, read_pos: 0, write_pos: 0 };
    }

    /// Whether a key is installed. Both positions lie inside the key then,
    /// and are 0 before.
    pub fn is_ready(&self) -> (r: bool)
        ensures
            r == (self.key().len() > 0),
            r ==> 0 <= self.read_pos() < self.key().len() && 0 <= self.write_pos() < self.key().len(),
            !r ==> self.read_pos() == 0 && self.write_pos() == 0,
    {
        proof {
            use_type_invariant(self);
        }
        self.key.len() != 0
    }

    pub fn encrypt_byte(&mut self, b: i8) -> (r: i8)
        ensures
            final(self).key() == old(self).key(),
            final(self).read_pos() == old(self).read_pos(),
            final(self).write_pos() == advance(old(self).key(), old(self).write_pos(), 1),
            old(self).key().len() == 0 ==> r == b,
            old(self).key().len() > 0 ==> r == xor_byte(
                key_at(old(self).key(), old(self).write_pos(), 0),
                b,
            ),
    {
        proof {
            use_type_invariant(&*self);
        }
        if self.key.len() == 0 {
            return b;
        }
        let k = self.key[self.write_pos];
        let result = (k as u8 ^ b as u8) as i8;
        proof {
            vstd::arithmetic::div_mod::lemma_small_mod(self.write_pos as nat, self.key@.len());
            assert(result == k ^ b) by (bit_vector)
                requires
                    result == (k as u8 ^ b as u8) as i8,
            ;
        }
        self.write_pos = (self.write_pos + 1) % self.key.len();
        result
    }

    pub fn decrypt_byte(&mut self, b: i8) -> (r: i8)
        ensures
            final(self).key() == old(self).key(),
            final(self).write_pos() == old(self).write_pos(),
            final(self).read_pos() == advance(old(self).key(), old(self).read_pos(), 1),
            old(self).key().len() == 0 ==> r == b,
            old(self).key().len() > 0 ==> r == xor_byte(
                key_at(old(self).key(), old(self).read_pos(), 0),
                b,
            ),
    {
        proof {
            use_type_invariant(&*self);
        }
        if self.key.len() == 0 {
            return b;
        }
        let k = self.key[self.read_pos];
        let result = (k as u8 ^ b as u8) as i8;
        proof {
            vstd::arithmetic::div_mod::lemma_small_mod(self.read_pos as nat, self.key@.len());
            assert(result == k ^ b) by (bit_vector)
                requires
                    result == (k as u8 ^ b as u8) as i8,
            ;
        }
        self.read_pos = (self.read_pos + 1) % self.key.len();
        result
    }

    /// Encrypts `data` with the key stream from the write position on.
    pub fn encrypt_bytes(&mut self, data: &[u8]) -> (r: Vec<u8>)
        ensures
            final(self).key() == old(self).key(),
            final(self).read_pos() == old(self).read_pos(),
            final(self).write_pos() == advance(old(self).key(), old(self).write_pos(), data@.len() as int),
            r@ == xor_stream(old(self).key(), old(self).write_pos(), data@),
    {
        proof {
            use_type_invariant(&*self);
        }
        let ghost k0 = self.key();
        let ghost p0 = self.write_pos();
        proof {
            if k0.len() > 0 {
                vstd::arithmetic::div_mod::lemma_small_mod(p0 as nat, k0.len());
            }
        }
        let mut out: Vec<u8> = Vec::new();
        let mut i: usize = 0;
        while i < data.len()
            invariant
                0 <= i <= data@.len(),
                p0 >= 0,
                self.key() == k0,
                self.read_pos() == old(self).read_pos(),
                self.write_pos() == advance(k0, p0, i as int),
                out@ == xor_stream(k0, p0, data@.take(i as int)),
            decreases data@.len() - i,
        {
            let d = data[i];
            proof {
                lemma_advance_step(k0, p0, i as int);
            }
            let e = self.encrypt_byte(d as i8);
            let ghost before = out@;
            out.push(e as u8);
            proof {
                if k0.len() > 0 {
                    lemma_xor_byte_as_u8(key_at(k0, p0, i as int), d);
                } else {
                    assert((d as i8) as u8 == d) by (bit_vector);
                }
                assert(out@ =~= xor_stream(k0, p0, data@.take(i + 1)));
            }
            i = i + 1;
        }
        proof {
            assert(data@.take(data@.len() as int) =~= data@);
        }
        out
    }

    /// Decrypts `data` with the key stream from the read position on.
    pub fn decrypt_bytes(&mut self, data: &[u8]) -> (r: Vec<u8>)
        ensures
            final(self).key() == old(self).key(),
            final(self).write_pos() == old(self).write_pos(),
            final(self).read_pos() == advance(old(self).key(), old(self).read_pos(), data@.len() as int),
            r@ == xor_stream(old(self).key(), old(self).read_pos(), data@),
    {
        proof {
            use_type_invariant(&*self);
        }
        let ghost k0 = self.key();
        let ghost p0 = self.read_pos();
        proof {
            if k0.len() > 0 {
                vstd::arithmetic::div_mod::lemma_small_mod(p0 as nat, k0.len());
            }
        }
        let mut out: Vec<u8> = Vec::new();
        let mut i: usize = 0;
        while i < data.len()
            invariant
                0 <= i <= data@.len(),
                p0 >= 0,
                self.key() == k0,
                self.write_pos() == old(self).write_pos(),
                self.read_pos() == advance(k0, p0, i as int),
                out@ == xor_stream(k0, p0, data@.take(i as int)),
            decreases data@.len() - i,
        {
            let d = data[i];
            proof {
                lemma_advance_step(k0, p0, i as int);
            }
            let e = self.decrypt_byte(d as i8);
            out.push(e as u8);
            proof {
                if k0.len() > 0 {
                    lemma_xor_byte_as_u8(key_at(k0, p0, i as int), d);
                } else {
                    assert((d as i8) as u8 == d) by (bit_vector);
                }
                assert(out@ =~= xor_stream(k0, p0, data@.take(i + 1)));
            }
            i = i + 1;
        }
        proof {
            assert(data@.take(data@.len() as int) =~= data@);
        }
        out
    }

    pub fn reset_positions(&mut self)
        ensures
            final(self).key() == old(self).key(),
            final(self).read_pos() == 0,
            final(self).write_pos() == 0,
    {
        proof {
            use_type_invariant(&*self);
        }
        self.read_pos = 0;
        self.write_pos = 0;
    }
}

/// One step of the key stream: position `i` after `pos`, advanced by one,
/// is position `i + 1`, and its key byte is the `i`-th of the stream.
proof fn lemma_advance_step(key: Seq<i8>, pos: int, i: int)
    requires
        pos >= 0,
        i >= 0,
    ensures
        advance(key, advance(key, pos, i), 1) == advance(key, pos, i + 1),
        key.len() > 0 ==> key_at(key, advance(key, pos, i), 0) == key_at(key, pos, i),
{
    if key.len() > 0 {
        let m = key.len() as int;
        vstd::arithmetic::div_mod::lemma_add_mod_noop(pos + i, 1, m);
        vstd::arithmetic::div_mod::lemma_mod_twice(pos + i, m);
        vstd::arithmetic::div_mod::lemma_add_mod_noop((pos + i) % m, 1, m);
        vstd::arithmetic::div_mod::lemma_mod_bound(pos + i, m);
        assert((pos + i) % m + 0 == (pos + i) % m);
    }
}

/// The byte that `encrypt_byte` / `decrypt_byte` give for `d`, read back as
/// `u8`, is the key byte XOR-ed with `d`.
proof fn lemma_xor_byte_as_u8(k: i8, d: u8)
    ensures
        xor_byte(k, d as i8) as u8 == ((k as u8) ^ d) as u8,
{
    assert((k ^ (d as i8)) as u8 == ((k as u8) ^ d) as u8) by (bit_vector);
}

/// Chains a non-empty raw key: byte `i + 1` is XOR-ed with the chained byte `i`.
fn chain_key(raw_key: &[i8]) -> (processed: Vec<i8>)
    requires
        raw_key@.len() > 0,
    ensures
        processed@ == key_chain(raw_key@),
{
    let mut processed = vstd::slice::slice_to_vec(raw_key);
    let n = processed.len();
    let mut i: usize = 0;
    while i < n - 1
        invariant
            n == raw_key@.len(),
            n > 0,
            i < n,
            processed@.len() == n,
            processed@.take(i + 1) == key_chain(raw_key@.take(i + 1)),
            processed@.skip(i + 1) == raw_key@.skip(i + 1),
        decreases n - i,
    {
        let prev = processed[i];
        let cur = processed[i + 1];
        proof {
            assert(cur == raw_key@[i + 1]) by {
                assert(processed@.skip(i + 1)[0] == processed@[i + 1]);
            }
            assert(prev == key_chain(raw_key@.take(i + 1)).last()) by {
                assert(processed@.take(i + 1)[i as int] == processed@[i as int]);
            }
        }
        let ghost before = processed@;
        processed.set(i + 1, cur ^ prev);
        proof {
            let t = raw_key@.take(i + 2);
            assert(t.drop_last() =~= raw_key@.take(i + 1));
            assert(t.last() == raw_key@[i + 1]);
            assert(prev ^ cur == cur ^ prev) by (bit_vector);
            assert(processed@.take(i + 2) =~= before.take(i + 1).push(cur ^ prev));
            assert(processed@.skip(i + 2) =~= before.skip(i + 1).skip(1));
            assert(raw_key@.skip(i + 2) =~= raw_key@.skip(i + 1).skip(1));
        }
        i = i + 1;
    }
    proof {
        assert(processed@.take(n as int) == processed@);
        assert(raw_key@.take(n as int) == raw_key@);
    }
    processed
}

} // verus!

verus! {

/// Incoming message from the client.
pub struct Message {
    pub command: i8,
    pub data: Vec<u8>,
}

impl Message {
    pub fn new(command: i8, data: Vec<u8>) -> (m: Self)
        ensures
            m.command == command,
            m.data@ == data@,
    {
        Message { command, data }
    }

    pub fn empty(command: i8) -> (m: Self)
        ensures
            m.command == command,
            m.data@ == Seq::<u8>::empty(),
    {
        Message { command, data: Vec::new() }
    }
}

/// Big-endian reader over a payload. Reading past the end yields zeros and
/// leaves the position at the end.
pub struct MessageReader<'a> {
    data: &'a [u8],
    pos: usize,
}

impl<'a> MessageReader<'a> {
    #[verifier::type_invariant]
    spec fn pos_in_data(self) -> bool {
        self.pos <= self.data@.len()
    }

    /// The payload being read.
    pub closed spec fn data(&self) -> Seq<u8> {
        self.data@
    }

    /// The position of the next byte to read.
    pub closed spec fn pos(&self) -> int {
        self.pos as int
    }

    pub fn new(data: &'a [u8]) -> (r: Self)
        ensures
            r.data() == data@,
            r.pos() == 0,
            0 <= r.pos() <= r.data().len(),
    {
        MessageReader { data, pos: 0 }
    }

    pub fn read_byte(&mut self) -> (b: i8)
        ensures
            final(self).data() == old(self).data(),
            b == byte_or_zero(old(self).data(), old(self).pos()) as i8,
            final(self).pos() == skip_pos(old(self).data(), old(self).pos(), 1),
            0 <= final(self).pos() <= final(self).data().len(),
    {
        proof {
            use_type_invariant(&*self);
        }
        if self.pos >= self.data.len() {
            return 0;
        }
        let b = self.data[self.pos] as i8;
        self.pos = self.pos + 1;
        b
    }

    pub fn read_ubyte(&mut self) -> (b: u8)
        ensures
            final(self).data() == old(self).data(),
            b == byte_or_zero(old(self).data(), old(self).pos()),
            final(self).pos() == skip_pos(old(self).data(), old(self).pos(), 1),
            0 <= final(self).pos() <= final(self).data().len(),
    {
        proof {
            use_type_invariant(&*self);
        }
        if self.pos >= self.data.len() {
            return 0;
        }
        let b = self.data[self.pos];
        self.pos = self.pos + 1;
        b
    }

    pub fn read_short(&mut self) -> (s: i16)
        ensures
            final(self).data() == old(self).data(),
            s == short_at(old(self).data(), old(self).pos()),
            final(self).pos() == skip_pos(old(self).data(), old(self).pos(), 2),
            0 <= final(self).pos() <= final(self).data().len(),
    {
        proof {
            use_type_invariant(&*self);
        }
        let b1 = self.read_ubyte();
        let b2 = self.read_ubyte();
        (((b1 as u16) << 8) | (b2 as u16)) as i16
    }

    pub fn read_int(&mut self) -> (v: i32)
        ensures
            final(self).data() == old(self).data(),
            v == int_at(old(self).data(), old(self).pos()),
            final(self).pos() == skip_pos(old(self).data(), old(self).pos(), 4),
            0 <= final(self).pos() <= final(self).data().len(),
    {
        proof {
            use_type_invariant(&*self);
        }
        let b1 = self.read_ubyte();
        let b2 = self.read_ubyte();
        let b3 = self.read_ubyte();
        let b4 = self.read_ubyte();
        (((b1 as u32) << 24) | ((b2 as u32) << 16) | ((b3 as u32) << 8) | (b4 as u32)) as i32
    }

    /// Reads a 16-bit length and that many bytes as text. A length that runs
    /// past the end gives an empty string. A negative length makes the
    /// position arithmetic fail unless it reaches before the start of the
    /// buffer, where it gives an empty string too; `requires` excludes the first.
    pub fn read_utf(&mut self) -> (s: String)
        requires
            utf_readable(old(self).data(), old(self).pos()),
        ensures
            final(self).data() == old(self).data(),
            s@ == utf_at(old(self).data(), old(self).pos()).0,
            final(self).pos() == utf_at(old(self).data(), old(self).pos()).1,
            0 <= final(self).pos() <= final(self).data().len(),
    {
        proof {
            use_type_invariant(&*self);
        }
        let n = self.read_short();
        proof {
            use_type_invariant(&*self);
        }
        if n < 0 {
            return String::new();
        }
        let len = n as usize;
        if len > self.data.len() - self.pos {
            return String::new();
        }
        let bytes = vstd::slice::slice_subrange(self.data, self.pos, self.pos + len);
        let s = utf8_lossy_string(bytes);
        self.pos = self.pos + len;
        s
    }

    /// The bytes left to read. The position never passes the end of the
    /// payload, so this is at most the payload's length.
    pub fn available(&self) -> (n: usize)
        ensures
            0 <= self.pos() <= self.data().len(),
            n == self.data().len() - self.pos(),
            n <= self.data().len(),
    {
        proof {
            use_type_invariant(self);
        }
        self.data.len() - self.pos
    }
}

} // verus!

verus! {

/// Big-endian writer for payloads.
pub struct MessageWriter {
    data: BytesMut,
}

impl View for MessageWriter {
    type V = Seq<u8>;

    /// The bytes written so far.
    closed spec fn view(&self) -> Seq<u8> {
        buffer_contents(self.data)
    }
}

impl MessageWriter {
    pub fn new() -> (w: Self)
        ensures
            w@ == Seq::<u8>::empty(),
    {
        MessageWriter { data: buf_with_capacity(256) }
    }

    pub fn with_capacity(cap: usize) -> (w: Self)
        requires
            cap <= isize::MAX,
        ensures
            w@ == Seq::<u8>::empty(),
    {
        MessageWriter { data: buf_with_capacity(cap) }
    }

    pub fn write_byte(&mut self, b: i8)
        requires
            old(self)@.len() + 1 <= isize::MAX,
        ensures
            final(self)@ == old(self)@.push(b as u8),
    {
        buf_put_i8(&mut self.data, b);
    }

    pub fn write_ubyte(&mut self, b: u8)
        requires
            old(self)@.len() + 1 <= isize::MAX,
        ensures
            final(self)@ == old(self)@.push(b),
    {
        buf_put_u8(&mut self.data, b);
    }

    pub fn write_short(&mut self, s: i16)
        requires
            old(self)@.len() + 2 <= isize::MAX,
        ensures
            final(self)@ == old(self)@ + be_bytes_i16(s),
    {
        buf_put_i16(&mut self.data, s);
    }

    pub fn write_int(&mut self, i: i32)
        requires
            old(self)@.len() + 4 <= isize::MAX,
        ensures
            final(self)@ == old(self)@ + be_bytes_i32(i),
    {
        buf_put_i32(&mut self.data, i);
    }

    pub fn write_long(&mut self, l: i64)
        requires
            old(self)@.len() + 8 <= isize::MAX,
        ensures
            final(self)@ == old(self)@ + be_bytes_i64(l),
    {
        buf_put_i64(&mut self.data, l);
    }

    /// Writes the UTF-8 byte length (cut to 16 bits) and then the bytes.
    pub fn write_utf(&mut self, s: &str)
        requires
            old(self)@.len() + 2 + vstd::utf8::encode_utf8(s@).len() <= isize::MAX,
        ensures
            final(self)@ == old(self)@ + be_bytes_i16(vstd::utf8::encode_utf8(s@).len() as i16) + vstd::utf8::encode_utf8(s@),
    {
        let bytes = s.as_bytes();
        self.write_short(bytes.len() as i16);
        buf_extend(&mut self.data, bytes);
    }

    pub fn write_bytes(&mut self, bytes: &[u8])
        requires
            old(self)@.len() + bytes@.len() <= isize::MAX,
        ensures
            final(self)@ == old(self)@ + bytes@,
    {
        buf_extend(&mut self.data, bytes);
    }

    /// Writes signed bytes, each as its two's complement.
    pub fn write_sbytes(&mut self, bytes: &[i8])
        requires
            old(self)@.len() + bytes@.len() <= isize::MAX,
        ensures
            final(self)@ == old(self)@ + bytes@.map_values(|b: i8| b as u8),
    {
        let ghost start = self@;
        let mut i: usize = 0;
        while i < bytes.len()
            invariant
                0 <= i <= bytes@.len(),
                start.len() + bytes@.len() <= isize::MAX,
                self@ == start + bytes@.take(i as int).map_values(|b: i8| b as u8),
            decreases bytes@.len() - i,
        {
            buf_put_i8(&mut self.data, bytes[i]);
            proof {
                assert(bytes@.take(i + 1).map_values(|b: i8| b as u8) =~= bytes@.take(
                    i as int,
                ).map_values(|b: i8| b as u8).push(bytes@[i as int] as u8));
            }
            i = i + 1;
        }
        proof {
            assert(bytes@.take(bytes@.len() as int) =~= bytes@);
        }
    }

    pub fn into_bytes(self) -> (v: Vec<u8>)
        ensures
            v@ == self@,
    {
        buf_to_vec(&self.data)
    }

    /// Length of the payload written so far (no header).
    pub fn len(&self) -> (n: usize)
        ensures
            n == self@.len(),
    {
        buf_len(&self.data)
    }
}

} // verus!

verus! {

/// A length byte as the client expects it in a 3-byte length: the client
/// adds 128 to what it decrypts, so `b - 128` (mod 256) is sent.
pub open spec fn biased_byte(b: nat) -> u8 {
    ((b + 128) % 256) as u8
}

/// The plaintext header of a response: the command, then the payload length.
/// Encrypted responses to big-data commands carry three biased length bytes,
/// low byte first; all others two, high byte first.
pub open spec fn response_header(command: i8, len: nat, encrypted: bool) -> Seq<u8> {
    if encrypted && cmd::spec_big_data_cmds().contains(command) {
        seq![command as u8, biased_byte(len % 256), biased_byte((len / 256) % 256), biased_byte((len / 65536) % 256)]
    } else {
        seq![command as u8, ((len / 256) % 256) as u8, (len % 256) as u8]
    }
}

/// The response packet: header and payload, passed through the key stream
/// at `pos` (which leaves them as they are when the key is empty).
pub open spec fn response_packet(key: Seq<i8>, pos: int, command: i8, data: Seq<u8>) -> Seq<u8> {
    xor_stream(key, pos, response_header(command, data.len(), key.len() > 0) + data)
}

/// The key stream splits over concatenation: encrypting `a` and then `b`
/// from where `a` left off equals encrypting `a + b` at once.
pub proof fn lemma_xor_stream_concat(key: Seq<i8>, pos: int, a: Seq<u8>, b: Seq<u8>)
    requires
        pos >= 0,
    ensures
        xor_stream(key, pos, a) + xor_stream(key, advance(key, pos, a.len() as int), b)
            == xor_stream(key, pos, a + b),
        advance(key, advance(key, pos, a.len() as int), b.len() as int)
            == advance(key, pos, (a.len() + b.len()) as int),
{
    if key.len() > 0 {
        let m = key.len() as int;
        let q = advance(key, pos, a.len() as int);
        assert forall|j: int| 0 <= j < b.len() implies key_at(key, q, j) == key_at(
            key,
            pos,
            a.len() + j,
        ) by {
            vstd::arithmetic::div_mod::lemma_add_mod_noop_right(j, pos + a.len(), m);
        }
        vstd::arithmetic::div_mod::lemma_add_mod_noop_right(b.len() as int, pos + a.len(), m);
        assert(xor_stream(key, pos, a) + xor_stream(key, q, b) =~= xor_stream(key, pos, a + b));
    } else {
        assert(a + b =~= a + b);
    }
}

/// Appends `bytes` to `buf` through the cipher's write stream.
fn put_encrypted(cipher: &mut Cipher, buf: &mut BytesMut, bytes: &[u8])
    requires
        buffer_contents(*old(buf)).len() + bytes@.len() <= isize::MAX,
        old(cipher).write_pos() >= 0,
        old(cipher).key().len() > 0 ==> old(cipher).write_pos() < old(cipher).key().len(),
    ensures
        final(cipher).key() == old(cipher).key(),
        final(cipher).read_pos() == old(cipher).read_pos(),
        final(cipher).write_pos() == advance(old(cipher).key(), old(cipher).write_pos(), bytes@.len() as int),
        buffer_contents(*final(buf)) == buffer_contents(*old(buf)) + xor_stream(
            old(cipher).key(),
            old(cipher).write_pos(),
            bytes@,
        ),
{
    let ghost k0 = cipher.key();
    let ghost p0 = cipher.write_pos();
    let ghost c0 = buffer_contents(*buf);
    proof {
        lemma_advance_zero(k0, p0, cipher.write_pos());
    }
    let mut i: usize = 0;
    while i < bytes.len()
        invariant
            0 <= i <= bytes@.len(),
            p0 >= 0,
            c0.len() + bytes@.len() <= isize::MAX,
            cipher.key() == k0,
            cipher.read_pos() == old(cipher).read_pos(),
            cipher.write_pos() == advance(k0, p0, i as int),
            buffer_contents(*buf) == c0 + xor_stream(k0, p0, bytes@.take(i as int)),
        decreases bytes@.len() - i,
    {
        let d = bytes[i];
        proof {
            lemma_advance_step(k0, p0, i as int);
        }
        let e = cipher.encrypt_byte(d as i8);
        buf_put_i8(buf, e);
        proof {
            if k0.len() > 0 {
                lemma_xor_byte_as_u8(key_at(k0, p0, i as int), d);
            } else {
                assert((d as i8) as u8 == d) by (bit_vector);
            }
            assert(xor_stream(k0, p0, bytes@.take(i + 1)) =~= xor_stream(
                k0,
                p0,
                bytes@.take(i as int),
            ).push(e as u8));
        }
        i = i + 1;
    }
    proof {
        assert(bytes@.take(bytes@.len() as int) =~= bytes@);
    }
}

/// The key stream position `pos` (within the key) is where it stands after no bytes.
proof fn lemma_advance_zero(key: Seq<i8>, pos: int, actual: int)
    requires
        pos == actual,
        key.len() > 0 ==> 0 <= pos < key.len(),
    ensures
        advance(key, pos, 0) == actual,
{
    if key.len() > 0 {
        vstd::arithmetic::div_mod::lemma_small_mod(pos as nat, key.len());
    }
}

/// Builds a response packet, encrypted when the cipher holds a key (the key
/// exchange response itself goes out in the clear).
pub fn build_response(cipher: &mut Cipher, command: i8, data: &[u8]) -> (packet: Vec<u8>)
    requires
        data@.len() + 4 <= isize::MAX,
    ensures
        packet@ == response_packet(old(cipher).key(), old(cipher).write_pos(), command, data@),
        final(cipher).key() == old(cipher).key(),
        final(cipher).read_pos() == old(cipher).read_pos(),
        final(cipher).write_pos() == advance(
            old(cipher).key(),
            old(cipher).write_pos(),
            (response_header(command, data@.len(), old(cipher).key().len() > 0).len() + data@.len()) as int,
        ),
{
    let mut response = buf_with_capacity(3 + data.len());
    let is_big_data = cmd::is_big_data_cmd(command);
    let len = data.len();
    let ghost k0 = cipher.key();
    let ghost p0 = cipher.write_pos();
    if cipher.is_ready() {
        let mut header: Vec<u8> = Vec::new();
        header.push(command as u8);
        if is_big_data {
            // The client adds 128 to each decrypted length byte.
            let l1 = ((len & 0xFF) as u8).wrapping_sub(128) as i8;
            let l2 = (((len >> 8) & 0xFF) as u8).wrapping_sub(128) as i8;
            let l3 = (((len >> 16) & 0xFF) as u8).wrapping_sub(128) as i8;
            proof {
                lemma_biased_length_bytes(len, l1, l2, l3);
            }
            header.push(l1 as u8);
            header.push(l2 as u8);
            header.push(l3 as u8);
        } else {
            let h = ((len >> 8) & 0xFF) as i8;
            let l = (len & 0xFF) as i8;
            proof {
                lemma_length_bytes(len, h, l);
            }
            header.push(h as u8);
            header.push(l as u8);
        }
        proof {
            assert(header@ =~= response_header(command, len as nat, true));
        }
        put_encrypted(cipher, &mut response, header.as_slice());
        proof {
            vstd::arithmetic::div_mod::lemma_mod_bound(p0 + header@.len(), k0.len() as int);
        }
        put_encrypted(cipher, &mut response, data);
        proof {
            lemma_xor_stream_concat(k0, p0, header@, data@);
        }
    } else {
        buf_put_u8(&mut response, command as u8);
        buf_put_u8(&mut response, (len >> 8) as u8);
        buf_put_u8(&mut response, (len & 0xFF) as u8);
        buf_extend(&mut response, data);
        proof {
            lemma_length_bytes_plain(len);
            assert(buffer_contents(response) =~= response_header(command, len as nat, false) + data@);
        }
    }
    buf_to_vec(&response)
}

proof fn lemma_biased_length_bytes(len: usize, l1: i8, l2: i8, l3: i8)
    requires
        l1 == ((len & 0xFF) as u8).wrapping_sub(128) as i8,
        l2 == (((len >> 8) & 0xFF) as u8).wrapping_sub(128) as i8,
        l3 == (((len >> 16) & 0xFF) as u8).wrapping_sub(128) as i8,
    ensures
        l1 as u8 == biased_byte(len as nat % 256),
        l2 as u8 == biased_byte((len as nat / 256) % 256),
        l3 as u8 == biased_byte((len as nat / 65536) % 256),
{
    assert(l1 as u8 == ((len % 256) + 128) % 256) by (bit_vector)
        requires
            l1 == ((len & 0xFF) as u8).wrapping_sub(128) as i8,
    ;
    assert(l2 as u8 == (((len / 256) % 256) + 128) % 256) by (bit_vector)
        requires
            l2 == (((len >> 8) & 0xFF) as u8).wrapping_sub(128) as i8,
    ;
    assert(l3 as u8 == (((len / 65536) % 256) + 128) % 256) by (bit_vector)
        requires
            l3 == (((len >> 16) & 0xFF) as u8).wrapping_sub(128) as i8,
    ;
}

proof fn lemma_length_bytes(len: usize, h: i8, l: i8)
    requires
        h == ((len >> 8) & 0xFF) as i8,
        l == (len & 0xFF) as i8,
    ensures
        h as u8 == ((len as nat / 256) % 256) as u8,
        l as u8 == (len as nat % 256) as u8,
{
    assert(h as u8 == ((len / 256) % 256) as u8) by (bit_vector)
        requires
            h == ((len >> 8) & 0xFF) as i8,
    ;
    assert(l as u8 == (len % 256) as u8) by (bit_vector)
        requires
            l == (len & 0xFF) as i8,
    ;
}

proof fn lemma_length_bytes_plain(len: usize)
    ensures
        (len >> 8) as u8 == ((len as nat / 256) % 256) as u8,
        (len & 0xFF) as u8 == (len as nat % 256) as u8,
{
    assert((len >> 8) as u8 == ((len / 256) % 256) as u8) by (bit_vector);
    assert((len & 0xFF) as u8 == (len % 256) as u8) by (bit_vector);
}

} // verus!

verus! {

/// An I/O failure, carried through `ProtocolError`.
#[verifier::external_type_specification]
#[verifier::external_body]
pub struct ExIoError(std::io::Error);

/// Errors of a protocol session.
pub enum ProtocolError {
    Io(std::io::Error),
    InvalidPacket,
    ConnectionClosed,
    EncryptionNotReady,
}

/// The key stream undoes itself: XOR-ing bytes twice with the stream from
/// the same position gives them back. So what the server encrypts, a client
/// holding the same key decrypts, and the other way round.
pub proof fn lemma_xor_stream_involutive(key: Seq<i8>, pos: int, data: Seq<u8>)
    ensures
        xor_stream(key, pos, xor_stream(key, pos, data)) == data,
{
    if key.len() > 0 {
        assert forall|i: int| 0 <= i < data.len() implies #[trigger] xor_stream(
            key,
            pos,
            xor_stream(key, pos, data),
        )[i] == data[i] by {
            let k = key_at(key, pos, i) as u8;
            let d = data[i];
            assert(((k ^ ((k ^ d) as u8)) as u8) == d) by (bit_vector);
        }
        assert(xor_stream(key, pos, xor_stream(key, pos, data)) =~= data);
    }
}

/// A client holding the same key, at the position the server wrote from,
/// decrypts a response packet to its plaintext header and payload.
pub proof fn lemma_response_decrypts(key: Seq<i8>, pos: int, command: i8, data: Seq<u8>)
    ensures
        xor_stream(key, pos, response_packet(key, pos, command, data)) == response_header(
            command,
            data.len(),
            key.len() > 0,
        ) + data,
{
    lemma_xor_stream_involutive(key, pos, response_header(command, data.len(), key.len() > 0) + data);
}

/// A length byte as the client reads it back: the decrypted byte taken as
/// `i8`, plus 128.
pub open spec fn unbiased(b: u8) -> int {
    (b as i8) as int + 128
}

/// Reading back a biased length byte gives the length byte.
proof fn lemma_unbias(x: u8)
    ensures
        unbiased(biased_byte(x as nat)) == x as int,
{
    assert((((x + 128) % 256) as u8) as i8 + 128 == x) by (bit_vector);
}

/// A length below 2^24 is its three bytes, low byte first.
proof fn lemma_three_bytes(len: nat)
    requires
        len < 0x100_0000,
    ensures
        len % 256 + ((len / 256) % 256) * 256 + ((len / 65536) % 256) * 65536 == len,
{
    assert(len % 256 + ((len / 256) % 256) * 256 + ((len / 65536) % 256) * 65536 == len) by (nonlinear_arith)
        requires
            len < 0x100_0000,
    ;
}

/// A client holding the same key decodes a big-data response: after
/// decrypting, the first byte is the command, the next three bytes, each read
/// back with `unbiased`, give the payload length low byte first, and the
/// payload follows (for payloads shorter than 2^24 bytes).
pub proof fn lemma_big_data_response_decodes(key: Seq<i8>, pos: int, command: i8, data: Seq<u8>)
    requires
        key.len() > 0,
        cmd::spec_big_data_cmds().contains(command),
        data.len() < 0x100_0000,
    ensures
        ({
            let h = xor_stream(key, pos, response_packet(key, pos, command, data));
            &&& h.len() == 4 + data.len()
            &&& h[0] as i8 == command
            &&& unbiased(h[1]) + unbiased(h[2]) * 256 + unbiased(h[3]) * 65536 == data.len()
            &&& h.subrange(4, h.len() as int) == data
        }),
{
    let len = data.len();
    lemma_response_decrypts(key, pos, command, data);
    let header = response_header(command, len, true);
    let h = header + data;
    assert(h[0] == command as u8);
    assert(((command as u8) as i8) == command) by (bit_vector);
    assert(h[1] == biased_byte(len % 256));
    assert(h[2] == biased_byte((len / 256) % 256));
    assert(h[3] == biased_byte((len / 65536) % 256));
    lemma_unbias((len % 256) as u8);
    lemma_unbias(((len / 256) % 256) as u8);
    lemma_unbias(((len / 65536) % 256) as u8);
    lemma_three_bytes(len);
    assert(h.subrange(4, h.len() as int) =~= data);
}

/// Before the key exchange a packet goes out in the clear: the command, the
/// payload length high byte first, then the payload.
pub proof fn lemma_plain_packet(command: i8, data: Seq<u8>)
    ensures
        response_packet(Seq::empty(), 0, command, data) == seq![
            command as u8,
            ((data.len() / 256) % 256) as u8,
            (data.len() % 256) as u8,
        ] + data,
{
}

/// A byte written by `write_byte` is read back by `read_byte`.
pub proof fn lemma_read_back_byte(before: Seq<u8>, b: i8, after: Seq<u8>)
    ensures
        byte_or_zero(before.push(b as u8) + after, before.len() as int) as i8 == b,
{
    let data = before.push(b as u8) + after;
    assert(data[before.len() as int] == b as u8);
    assert(((b as u8) as i8) == b) by (bit_vector);
}

/// A value written by `write_short` is read back by `read_short`.
pub proof fn lemma_read_back_short(before: Seq<u8>, v: i16, after: Seq<u8>)
    ensures
        short_at(before + be_bytes_i16(v) + after, before.len() as int) == v,
{
    let data = before + be_bytes_i16(v) + after;
    let n = before.len() as int;
    assert(data[n] == be_bytes_i16(v)[0]);
    assert(data[n + 1] == be_bytes_i16(v)[1]);
    assert(be_i16((v >> 8u16) as u8, v as u8) == v) by (bit_vector);
}

/// A value written by `write_int` is read back by `read_int`.
pub proof fn lemma_read_back_int(before: Seq<u8>, v: i32, after: Seq<u8>)
    ensures
        int_at(before + be_bytes_i32(v) + after, before.len() as int) == v,
{
    let data = before + be_bytes_i32(v) + after;
    let n = before.len() as int;
    assert(data[n] == be_bytes_i32(v)[0]);
    assert(data[n + 1] == be_bytes_i32(v)[1]);
    assert(data[n + 2] == be_bytes_i32(v)[2]);
    assert(data[n + 3] == be_bytes_i32(v)[3]);
    assert(be_i32((v >> 24u32) as u8, (v >> 16u32) as u8, (v >> 8u32) as u8, v as u8) == v)
        by (bit_vector);
}

/// A string written by `write_utf` is read back by `read_utf` (when its
/// UTF-8 form fits the 16-bit length), and the reader ends right after it.
pub proof fn lemma_read_back_utf(before: Seq<u8>, s: Seq<char>, after: Seq<u8>)
    requires
        vstd::utf8::encode_utf8(s).len() <= 32767,
    ensures
        utf_readable(
            before + be_bytes_i16(vstd::utf8::encode_utf8(s).len() as i16) + vstd::utf8::encode_utf8(s) + after,
            before.len() as int,
        ),
        utf_at(
            before + be_bytes_i16(vstd::utf8::encode_utf8(s).len() as i16) + vstd::utf8::encode_utf8(s) + after,
            before.len() as int,
        ) == (s, (before.len() + 2 + vstd::utf8::encode_utf8(s).len()) as int),
{
    let bytes = vstd::utf8::encode_utf8(s);
    let len16 = bytes.len() as i16;
    let data = before + be_bytes_i16(len16) + bytes + after;
    let n = before.len() as int;
    lemma_read_back_short(before, len16, bytes + after);
    assert(before + be_bytes_i16(len16) + (bytes + after) =~= data);
    assert(short_at(data, n) as int == bytes.len());
    assert(data.subrange(n + 2, n + 2 + bytes.len()) =~= bytes);
    vstd::utf8::encode_utf8_valid_utf8(s);
    vstd::utf8::encode_utf8_decode_utf8(s);
}

} // verus!

verus! {

/// The payload of a server notice: the text's UTF-8 length (16 bits) and bytes.
pub open spec fn notice_payload(text: Seq<char>) -> Seq<u8> {
    be_bytes_i16(vstd::utf8::encode_utf8(text).len() as i16) + vstd::utf8::encode_utf8(text)
}

/// The packet sent, in the clear, to a client turned away because the
/// server is full: a server notice carrying `text`.
pub fn overload_packet(text: &str) -> (packet: Vec<u8>)
    requires
        vstd::utf8::encode_utf8(text@).len() + 6 <= isize::MAX,
    ensures
        packet@ == response_header(cmd::SERVER_NOTICE, notice_payload(text@).len(), false) + notice_payload(
            text@,
        ),
{
    let mut writer = MessageWriter::new();
    writer.write_utf(text);
    let payload = writer.into_bytes();
    proof {
        assert(payload@ =~= notice_payload(text@));
    }
    let mut plain = Cipher::new();
    build_response(&mut plain, cmd::SERVER_NOTICE, payload.as_slice())
}

} // verus!
