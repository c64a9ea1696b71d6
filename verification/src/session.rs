//! Per-connection protocol state: decoding client frames, the key exchange,
//! the zoom handshake, rate limiting, and encoding responses. The socket
//! loop that feeds it bytes is the application's part.

use vstd::prelude::*;
use crate::clock::Clock;
use crate::protocol::{
    advance, build_response, cmd, key_chain, lcg_key, response_packet, xor_byte, xor_stream,
    key_at, be_bytes_i32, byte_or_zero, Cipher, MessageReader, MessageWriter,
};

verus! {

/// The nanoseconds in a second.
pub const NANOS_PER_SEC: u64 = 1_000_000_000;

/// Timestamps strictly after `cutoff`.
pub open spec fn after(ts: Seq<u64>, cutoff: int) -> Seq<u64> {
    ts.filter(|t: u64| t > cutoff)
}

/// Start of the sliding window `(now - window, now]`: it may lie before the
/// clock's start, and then every remembered request is inside.
pub open spec fn window_start(now: u64, window_secs: u64) -> int {
    now - window_secs * NANOS_PER_SEC
}

/// One decision of the limiter at time `now`, given the times it remembers:
/// what it remembers afterwards, and whether it accepts.
pub open spec fn limiter_step(max_requests: u32, window_secs: u64, mem: Seq<u64>, now: u64) -> (Seq<u64>, bool) {
    let kept = after(mem, window_start(now, window_secs));
    if kept.len() < max_requests {
        (kept.push(now), true)
    } else {
        (kept, false)
    }
}

/// What a fresh limiter remembers after deciding the requests at `times`, in order.
pub open spec fn limiter_memory(max_requests: u32, window_secs: u64, times: Seq<u64>) -> Seq<u64>
    decreases times.len(),
{
    if times.len() == 0 {
        Seq::empty()
    } else {
        limiter_step(
            max_requests,
            window_secs,
            limiter_memory(max_requests, window_secs, times.drop_last()),
            times.last(),
        ).0
    }
}

/// Whether a fresh limiter accepts the request at `times[i]`, after those before it.
pub open spec fn limiter_accepts(max_requests: u32, window_secs: u64, times: Seq<u64>, i: int) -> bool {
    limiter_step(max_requests, window_secs, limiter_memory(max_requests, window_secs, times.take(i)), times[i]).1
}

/// How many of the first `n` requests at `times` were accepted at a time
/// after `cutoff`.
pub open spec fn accepted_after(max_requests: u32, window_secs: u64, times: Seq<u64>, n: int, cutoff: int) -> nat
    decreases n,
{
    if n <= 0 {
        0
    } else {
        accepted_after(max_requests, window_secs, times, n - 1, cutoff) + if limiter_accepts(
            max_requests,
            window_secs,
            times,
            n - 1,
        ) && times[n - 1] > cutoff {
            1nat
        } else {
            0nat
        }
    }
}

/// Sliding-window rate limiter: at most `max_requests` accepted requests
/// within any `window_secs` seconds. Times are readings of the server clock (nanoseconds).
pub struct RateLimiter {
    max_requests: u32,
    window_secs: u64,
    timestamps: Vec<u64>,
}

impl RateLimiter {
    #[verifier::type_invariant]
    spec fn within_limit(self) -> bool {
        self.timestamps@.len() <= self.max_requests
    }

    pub closed spec fn max_requests(&self) -> u32 {
        self.max_requests
    }

    pub closed spec fn window_secs(&self) -> u64 {
        self.window_secs
    }

    /// Times of the accepted requests still remembered, oldest first.
    pub closed spec fn timestamps(&self) -> Seq<u64> {
        self.timestamps@
    }

    pub fn new(max_requests: u32, window_secs: u64) -> (r: Self)
        ensures
            r.max_requests() == max_requests,
            r.window_secs() == window_secs,
            r.timestamps() == Seq::<u64>::empty(),
    {
        RateLimiter {
            max_requests,
            window_secs,
            timestamps: Vec::with_capacity(max_requests as usize),
        }
    }

    /// Decides on a request at time `now`: forgets the requests that fell out
    /// of the window, and accepts (remembering `now`) when fewer than
    /// `max_requests` remain.
    pub fn check_at(&mut self, now: u64) -> (accepted: bool)
        ensures
            final(self).max_requests() == old(self).max_requests(),
            final(self).window_secs() == old(self).window_secs(),
            accepted == (after(old(self).timestamps(), window_start(now, old(self).window_secs())).len()
                < old(self).max_requests()),
            accepted ==> final(self).timestamps() == after(
                old(self).timestamps(),
                window_start(now, old(self).window_secs()),
            ).push(now),
            !accepted ==> final(self).timestamps() == after(
                old(self).timestamps(),
                window_start(now, old(self).window_secs()),
            ),
            final(self).timestamps().len() <= final(self).max_requests(),
            (final(self).timestamps(), accepted) == limiter_step(
                old(self).max_requests(),
                old(self).window_secs(),
                old(self).timestamps(),
                now,
            ),
    {
        proof {
            use_type_invariant(&*self);
        }
        // The window reaches before the clock's start when it is longer than
        // the time elapsed: then every remembered request is inside it.
        let (keep_all, cutoff) = match self.window_secs.checked_mul(NANOS_PER_SEC) {
            Some(w) => if now >= w {
                (false, now - w)
            } else {
                (true, 0)
            },
            None => (true, 0),
        };
        let ghost c = window_start(now, self.window_secs);
        let ghost pred = |t: u64| t > c;
        proof {
            if !keep_all {
                assert(c == cutoff as int);
            } else {
                assert(c < 0) by (nonlinear_arith)
                    requires
                        c == now - self.window_secs * NANOS_PER_SEC,
                        self.window_secs * NANOS_PER_SEC > u64::MAX || now < self.window_secs * NANOS_PER_SEC,
                        now <= u64::MAX,
                ;
            }
        }
        let mut kept: Vec<u64> = Vec::new();
        let mut i: usize = 0;
        while i < self.timestamps.len()
            invariant
                0 <= i <= self.timestamps@.len(),
                kept@ == self.timestamps@.take(i as int).filter(pred),
                pred == (|t: u64| t > c),
                keep_all ==> c < 0,
                !keep_all ==> c == cutoff as int,
            decreases self.timestamps@.len() - i,
        {
            let t = self.timestamps[i];
            proof {
                reveal_with_fuel(Seq::filter, 1);
                assert(self.timestamps@.take(i + 1).drop_last() =~= self.timestamps@.take(i as int));
            }
            if keep_all || t > cutoff {
                kept.push(t);
            }
            i = i + 1;
        }
        proof {
            assert(self.timestamps@.take(self.timestamps@.len() as int) =~= self.timestamps@);
            self.timestamps@.lemma_filter_len(pred);
        }
        let accepted = kept.len() < self.max_requests as usize;
        if accepted {
            kept.push(now);
        }
        self.timestamps = kept;
        accepted
    }

    /// Decides on a request arriving now, as `clock` reads.
    pub fn check(&mut self, clock: &Clock) -> (accepted: bool)
        ensures
            final(self).max_requests() == old(self).max_requests(),
            final(self).window_secs() == old(self).window_secs(),
            final(self).timestamps().len() <= final(self).max_requests(),
            exists|now: u64|
                (final(self).timestamps(), accepted) == limiter_step(
                    old(self).max_requests(),
                    old(self).window_secs(),
                    old(self).timestamps(),
                    now,
                ),
    {
        let now = clock.now_nanos();
        self.check_at(now)
    }
}

} // verus!

verus! {

/// No address has two limiters.
spec fn distinct_addrs(entries: Seq<(String, RateLimiter)>) -> bool {
    forall|i: int, j: int| 0 <= i < j < entries.len() ==> #[trigger] entries[i].0@ != #[trigger] entries[j].0@
}

/// Whether `addr` has a limiter among `entries`.
spec fn has_addr(entries: Seq<(String, RateLimiter)>, addr: Seq<char>) -> bool {
    exists|i: int| 0 <= i < entries.len() && (#[trigger] entries[i]).0@ == addr
}

/// The times remembered for `addr` among `entries` (none without a limiter).
spec fn memory_in(entries: Seq<(String, RateLimiter)>, addr: Seq<char>) -> Seq<u64> {
    if has_addr(entries, addr) {
        entries[choose|i: int| 0 <= i < entries.len() && (#[trigger] entries[i]).0@ == addr].1.timestamps()
    } else {
        Seq::empty()
    }
}

/// With one limiter per address, the memory of the address at `i` is its limiter's.
proof fn lemma_memory_at(entries: Seq<(String, RateLimiter)>, i: int)
    requires
        distinct_addrs(entries),
        0 <= i < entries.len(),
    ensures
        memory_in(entries, entries[i].0@) == entries[i].1.timestamps(),
{
    let addr = entries[i].0@;
    assert(has_addr(entries, addr));
    let c = choose|j: int| 0 <= j < entries.len() && (#[trigger] entries[j]).0@ == addr;
    if c != i {
        if c < i {
            assert(entries[c].0@ != entries[i].0@);
        } else {
            assert(entries[i].0@ != entries[c].0@);
        }
    }
}

/// One rate limiter per client address: every address gets the same limit,
/// and requests from one address never count against another.
pub struct RateLimits {
    max_requests: u32,
    window_secs: u64,
    entries: Vec<(String, RateLimiter)>,
}

impl RateLimits {
    #[verifier::type_invariant]
    spec fn one_limiter_per_address(self) -> bool {
        &&& distinct_addrs(self.entries@)
        &&& forall|i: int|
            0 <= i < self.entries@.len() ==> (#[trigger] self.entries@[i]).1.max_requests() == self.max_requests
                && self.entries@[i].1.window_secs() == self.window_secs
    }

    pub closed spec fn max_requests(&self) -> u32 {
        self.max_requests
    }

    pub closed spec fn window_secs(&self) -> u64 {
        self.window_secs
    }

    /// The times of accepted requests remembered for `addr`, oldest first
    /// (none for an address never seen: it starts as a fresh limiter).
    pub closed spec fn memory(&self, addr: Seq<char>) -> Seq<u64> {
        memory_in(self.entries@, addr)
    }

    /// No address seen yet; each gets `max_requests` per `window_secs` seconds.
    pub fn new(max_requests: u32, window_secs: u64) -> (r: Self)
        ensures
            r.max_requests() == max_requests,
            r.window_secs() == window_secs,
            forall|addr: Seq<char>| #[trigger] r.memory(addr) == Seq::<u64>::empty(),
    {
        RateLimits { max_requests, window_secs, entries: Vec::new() }
    }

    /// Decides on a request from `addr` at time `now`, with `addr`'s limiter
    /// alone; the limiters of other addresses stay as they were.
    pub fn check_at(&mut self, addr: &str, now: u64) -> (accepted: bool)
        ensures
            final(self).max_requests() == old(self).max_requests(),
            final(self).window_secs() == old(self).window_secs(),
            (final(self).memory(addr@), accepted) == limiter_step(
                old(self).max_requests(),
                old(self).window_secs(),
                old(self).memory(addr@),
                now,
            ),
            forall|other: Seq<char>| other != addr@ ==> #[trigger] final(self).memory(other) == old(self).memory(other),
    {
        proof {
            use_type_invariant(&*self);
        }
        let key = String::from_str(addr);
        let mut entries: Vec<(String, RateLimiter)> = Vec::new();
        std::mem::swap(&mut entries, &mut self.entries);
        let ghost e0 = entries@;
        let mut found: Option<usize> = None;
        let mut i: usize = 0;
        while i < entries.len()
            invariant_except_break
                found is None,
            invariant
                i <= entries@.len(),
                entries@ == e0,
                key@ == addr@,
                forall|j: int| 0 <= j < i ==> (#[trigger] e0[j]).0@ != addr@,
            ensures
                entries@ == e0,
                found matches Some(k) ==> k < e0.len() && e0[k as int].0@ == addr@,
                found is None ==> forall|j: int| 0 <= j < e0.len() ==> (#[trigger] e0[j]).0@ != addr@,
            decreases entries@.len() - i,
        {
            if entries[i].0 == key {
                found = Some(i);
                break;
            }
            i = i + 1;
        }
        let (name, mut limiter) = match found {
            Some(k) => entries.remove(k),
            None => (key, RateLimiter::new(self.max_requests, self.window_secs)),
        };
        let ghost rest = entries@;
        proof {
            match found {
                Some(k) => {
                    lemma_memory_at(e0, k as int);
                },
                None => {
                    assert(!has_addr(e0, addr@));
                },
            }
        }
        let accepted = limiter.check_at(now);
        entries.push((name, limiter));
        proof {
            let e1 = entries@;
            let n = e1.len() - 1;
            assert(e1[n].0@ == addr@);
            assert forall|a: int, b: int| 0 <= a < b < e1.len() implies #[trigger] e1[a].0@ != #[trigger] e1[b].0@ by {
                match found {
                    Some(k) => {
                        let oa = if a < k { a } else { a + 1 };
                        assert(e1[a] == e0[oa]);
                        if b == n {
                            assert(e0[oa].0@ != e0[k as int].0@);
                        } else {
                            let ob = if b < k { b } else { b + 1 };
                            assert(e1[b] == e0[ob]);
                        }
                    },
                    None => {
                        assert(e1[a] == e0[a]);
                        if b < n {
                            assert(e1[b] == e0[b]);
                        }
                    },
                }
            }
            lemma_memory_at(e1, n);
            assert forall|other: Seq<char>| other != addr@ implies #[trigger] memory_in(e1, other) == memory_in(e0, other) by {
                if has_addr(e0, other) {
                    let j = choose|j: int| 0 <= j < e0.len() && (#[trigger] e0[j]).0@ == other;
                    lemma_memory_at(e0, j);
                    let j1 = match found {
                        Some(k) => if j < k { j } else { j - 1 },
                        None => j,
                    };
                    match found {
                        Some(k) => {
                            assert(j != k);
                        },
                        None => {},
                    }
                    assert(e1[j1] == e0[j]);
                    lemma_memory_at(e1, j1);
                } else {
                    assert(!has_addr(e1, other)) by {
                        if has_addr(e1, other) {
                            let j = choose|j: int| 0 <= j < e1.len() && (#[trigger] e1[j]).0@ == other;
                            if j < n {
                                let oj = match found {
                                    Some(k) => if j < k { j } else { j + 1 },
                                    None => j,
                                };
                                assert(e1[j] == e0[oj]);
                            }
                        }
                    }
                }
            }
        }
        self.entries = entries;
        accepted
    }
}

} // verus!

verus! {

/// The payload of the key exchange response: the key length, the raw key,
/// an empty second address, port 0, and "no second connection".
pub open spec fn key_exchange_payload(raw: Seq<i8>) -> Seq<u8> {
    seq![(raw.len() as i8) as u8] + raw.map_values(|b: i8| b as u8) + crate::protocol::be_bytes_i16(0)
        + be_bytes_i32(0) + seq![0u8]
}

/// The zoom level that a `FREIGHT_INIT` payload asks for, or the default
/// when it asks for 0.
pub open spec fn requested_zoom(data: Seq<u8>, default_zoom: u8) -> u8 {
    let z = byte_or_zero(data, 0);
    if z > 0 {
        z
    } else {
        default_zoom
    }
}

/// The zoom handshake takes any zoom level the client asks for: a non-zero
/// first byte is the zoom, and only 0 (or an empty payload) keeps the default.
pub proof fn lemma_requested_zoom_is_taken(data: Seq<u8>, default_zoom: u8)
    ensures
        data.len() > 0 && data[0] != 0 ==> requested_zoom(data, default_zoom) == data[0],
        data.len() == 0 || data[0] == 0 ==> requested_zoom(data, default_zoom) == default_zoom,
{
}

/// The protocol state of one client connection.
pub struct SessionState {
    pub cipher: Cipher,
    /// Set once the key exchange response has gone out.
    pub key_exchanged: bool,
    pub zoom_level: u8,
    pub default_zoom: u8,
}

impl SessionState {
    /// How incoming bytes are decoded at the current read position: through
    /// the key stream once the key is exchanged, as they are before.
    pub open spec fn decode_view(&self, bytes: Seq<u8>) -> Seq<u8> {
        if self.key_exchanged {
            xor_stream(self.cipher.key(), self.cipher.read_pos(), bytes)
        } else {
            bytes
        }
    }

    /// The read position after decoding `n` bytes.
    pub open spec fn read_pos_after(&self, n: int) -> int {
        if self.key_exchanged {
            advance(self.cipher.key(), self.cipher.read_pos(), n)
        } else {
            self.cipher.read_pos()
        }
    }

    /// `self` and `other` differ at most in the cipher's read position.
    pub open spec fn same_but_read_pos(&self, other: &Self) -> bool {
        &&& self.cipher.key() == other.cipher.key()
        &&& self.cipher.write_pos() == other.cipher.write_pos()
        &&& self.key_exchanged == other.key_exchanged
        &&& self.zoom_level == other.zoom_level
        &&& self.default_zoom == other.default_zoom
    }

    /// A fresh connection: no key and the configured zoom.
    pub fn new(default_zoom: u8) -> (s: Self)
        ensures
            s.cipher.key() == Seq::<i8>::empty(),
            s.cipher.read_pos() == 0,
            s.cipher.write_pos() == 0,
            !s.key_exchanged,
            s.zoom_level == default_zoom,
            s.default_zoom == default_zoom,
    {
        SessionState {
            cipher: Cipher::new(),
            key_exchanged: false,
            zoom_level: default_zoom,
            default_zoom,
        }
    }

    /// Decodes the command byte of a client frame.
    pub fn decode_command(&mut self, raw: i8) -> (command: i8)
        ensures
            command as u8 == old(self).decode_view(seq![raw as u8])[0],
            final(self).cipher.read_pos() == old(self).read_pos_after(1),
            final(self).same_but_read_pos(old(self)),
    {
        if self.key_exchanged {
            let ghost k = self.cipher.key();
            let ghost p = self.cipher.read_pos();
            let ready = self.cipher.is_ready();
            let c = self.cipher.decrypt_byte(raw);
            proof {
                if ready {
                    lemma_xor_byte_as_u8_of(key_at(k, p, 0), raw);
                } else {
                    assert((raw as u8) as i8 == raw) by (bit_vector);
                }
            }
            c
        } else {
            proof {
                assert((raw as u8) as i8 == raw) by (bit_vector);
            }
            raw
        }
    }

    /// Decodes the two length bytes of a client frame: big-endian once the
    /// key is exchanged, little-endian (as the client's `BinaryWriter` writes
    /// a `ushort`) before.
    pub fn decode_length(&mut self, b1: u8, b2: u8) -> (len: usize)
        ensures
            old(self).key_exchanged ==> len == old(self).decode_view(seq![b1, b2])[0] as int * 256
                + old(self).decode_view(seq![b1, b2])[1] as int,
            !old(self).key_exchanged ==> len == b2 as int * 256 + b1 as int,
            final(self).cipher.read_pos() == old(self).read_pos_after(2),
            final(self).same_but_read_pos(old(self)),
    {
        if self.key_exchanged {
            let ghost k = self.cipher.key();
            let ghost p = self.cipher.read_pos();
            let ready = self.cipher.is_ready();
            let pair = [b1, b2];
            let d = self.cipher.decrypt_bytes(&pair);
            proof {
                assert(pair@ =~= seq![b1, b2]);
            }
            let h = d[0];
            let l = d[1];
            proof {
                lemma_two_bytes(h, l);
            }
            ((h as usize) << 8) | (l as usize)
        } else {
            proof {
                lemma_two_bytes(b2, b1);
            }
            ((b2 as usize) << 8) | (b1 as usize)
        }
    }

    /// Decodes the payload bytes of a client frame.
    pub fn decode_payload(&mut self, data: &[u8]) -> (plain: Vec<u8>)
        ensures
            plain@ == old(self).decode_view(data@),
            final(self).cipher.read_pos() == old(self).read_pos_after(data@.len() as int),
            final(self).same_but_read_pos(old(self)),
    {
        if self.key_exchanged {
            self.cipher.decrypt_bytes(data)
        } else {
            vstd::slice::slice_to_vec(data)
        }
    }
}

/// Two bytes combined high byte first.
proof fn lemma_two_bytes(h: u8, l: u8)
    ensures
        ((h as usize) << 8) | (l as usize) == h as int * 256 + l as int,
{
    assert(((h as usize) << 8) | (l as usize) == (h as usize) * 256 + (l as usize)) by (bit_vector);
}

/// The byte `decrypt_byte` gives for a raw `i8`, read back as `u8`.
proof fn lemma_xor_byte_as_u8_of(k: i8, raw: i8)
    ensures
        xor_byte(k, raw) as u8 == ((k as u8) ^ (raw as u8)) as u8,
{
    assert((k ^ raw) as u8 == ((k as u8) ^ (raw as u8)) as u8) by (bit_vector);
}

} // verus!

verus! {

impl SessionState {
    /// Answers the key exchange with `raw_key`: the response is built with the
    /// cipher as it was (in the clear on a new connection), and only then is
    /// the chained key installed.
    pub fn key_exchange_with(&mut self, raw_key: &[i8]) -> (packet: Vec<u8>)
        requires
            raw_key@.len() > 0,
            raw_key@.len() + 12 <= isize::MAX,
        ensures
            packet@ == response_packet(
                old(self).cipher.key(),
                old(self).cipher.write_pos(),
                cmd::GET_SESSION_ID,
                key_exchange_payload(raw_key@),
            ),
            final(self).cipher.key() == key_chain(raw_key@),
            final(self).cipher.read_pos() == 0,
            final(self).cipher.write_pos() == 0,
            final(self).key_exchanged,
            final(self).zoom_level == old(self).zoom_level,
            final(self).default_zoom == old(self).default_zoom,
    {
        proof {
            reveal_strlit("");
            assert(""@ =~= Seq::<char>::empty());
            assert(vstd::utf8::encode_utf8(""@) =~= Seq::<u8>::empty());
        }
        let mut writer = MessageWriter::new();
        writer.write_byte(raw_key.len() as i8);
        writer.write_sbytes(raw_key);
        // Second address and port: not used by this server.
        writer.write_utf("");
        writer.write_int(0);
        writer.write_byte(0);
        let response_data = writer.into_bytes();
        proof {
            assert(response_data@ =~= key_exchange_payload(raw_key@));
        }
        let packet = build_response(&mut self.cipher, cmd::GET_SESSION_ID, response_data.as_slice());
        self.cipher.set_key_from_raw(raw_key);
        self.key_exchanged = true;
        packet
    }

    /// Answers the key exchange with a fresh 32-byte key drawn from the
    /// clock-seeded generator.
    pub fn key_exchange(&mut self) -> (packet: Vec<u8>)
        ensures
            exists|seed: u64|
                #![trigger lcg_key(seed, 32)]
                {
                    &&& packet@ == response_packet(
                        old(self).cipher.key(),
                        old(self).cipher.write_pos(),
                        cmd::GET_SESSION_ID,
                        key_exchange_payload(lcg_key(seed, 32)),
                    )
                    &&& final(self).cipher.key() == key_chain(lcg_key(seed, 32))
                },
            final(self).cipher.read_pos() == 0,
            final(self).cipher.write_pos() == 0,
            final(self).key_exchanged,
            final(self).zoom_level == old(self).zoom_level,
            final(self).default_zoom == old(self).default_zoom,
    {
        let raw_key = Cipher::generate_key_only(32);
        let packet = self.key_exchange_with(raw_key.as_slice());
        packet
    }

    /// Handles `FREIGHT_INIT`: takes the zoom level the client asks for (0
    /// keeps the default) and returns the acknowledgement payload together
    /// with the screen width and height that follow in the message.
    pub fn freight_init(&mut self, data: &[u8]) -> (r: (Vec<u8>, i32, i32))
        ensures
            final(self).zoom_level == requested_zoom(data@, old(self).default_zoom),
            data@.len() > 0 && data@[0] != 0 ==> final(self).zoom_level == data@[0],
            data@.len() == 0 || data@[0] == 0 ==> final(self).zoom_level == old(self).default_zoom,
            r.0@ == seq![final(self).zoom_level],
            r.1 == crate::protocol::int_at(data@, crate::protocol::skip_pos(data@, 0, 1)),
            r.2 == crate::protocol::int_at(
                data@,
                crate::protocol::skip_pos(data@, crate::protocol::skip_pos(data@, 0, 1), 4),
            ),
            final(self).cipher == old(self).cipher,
            final(self).key_exchanged == old(self).key_exchanged,
            final(self).default_zoom == old(self).default_zoom,
    {
        let mut reader = MessageReader::new(data);
        let zoom = reader.read_byte() as u8;
        let screen_w = reader.read_int();
        let screen_h = reader.read_int();
        proof {
            let z = byte_or_zero(data@, 0);
            assert((z as i8) as u8 == z) by (bit_vector);
        }
        self.zoom_level = if zoom > 0 {
            zoom
        } else {
            self.default_zoom
        };
        let mut writer = MessageWriter::new();
        writer.write_byte(self.zoom_level as i8);
        proof {
            let z = self.zoom_level;
            assert((z as i8) as u8 == z) by (bit_vector);
        }
        (writer.into_bytes(), screen_w, screen_h)
    }

    /// Encodes a response for the client (encrypted once a key is set).
    pub fn encode_response(&mut self, command: i8, data: &[u8]) -> (packet: Vec<u8>)
        requires
            data@.len() + 4 <= isize::MAX,
        ensures
            packet@ == response_packet(old(self).cipher.key(), old(self).cipher.write_pos(), command, data@),
            final(self).cipher.key() == old(self).cipher.key(),
            final(self).cipher.read_pos() == old(self).cipher.read_pos(),
            final(self).key_exchanged == old(self).key_exchanged,
            final(self).zoom_level == old(self).zoom_level,
            final(self).default_zoom == old(self).default_zoom,
    {
        build_response(&mut self.cipher, command, data)
    }
}

} // verus!

verus! {

/// Once the key is exchanged, a frame the client encrypted with the key
/// stream at the session's read position decodes to the client's bytes.
pub proof fn lemma_client_frame_decodes(s: SessionState, sent: Seq<u8>)
    requires
        s.key_exchanged,
    ensures
        s.decode_view(xor_stream(s.cipher.key(), s.cipher.read_pos(), sent)) == sent,
{
    crate::protocol::lemma_xor_stream_involutive(s.cipher.key(), s.cipher.read_pos(), sent);
}

/// On a fresh connection the key exchange response goes out in the clear,
/// and carries the key length and the raw key right after its 3-byte header,
/// so the client can chain the same key.
pub proof fn lemma_key_exchange_carries_key(raw: Seq<i8>)
    ensures
        ({
            let packet = response_packet(Seq::empty(), 0, cmd::GET_SESSION_ID, key_exchange_payload(raw));
            &&& packet[3] == (raw.len() as i8) as u8
            &&& packet.subrange(4, 4 + raw.len() as int) == raw.map_values(|b: i8| b as u8)
        }),
{
    let payload = key_exchange_payload(raw);
    let packet = response_packet(Seq::empty(), 0, cmd::GET_SESSION_ID, payload);
    crate::protocol::lemma_plain_packet(cmd::GET_SESSION_ID, payload);
    assert(packet.subrange(4, 4 + raw.len() as int) =~= raw.map_values(|b: i8| b as u8));
}

} // verus!

verus! {

/// The start of the window moves forward with the clock.
proof fn lemma_window_start_monotone(a: u64, b: u64, window_secs: u64)
    requires
        a <= b,
    ensures
        window_start(a, window_secs) <= window_start(b, window_secs),
{
}

/// Forgetting up to an earlier cutoff, then up to a later one, is forgetting
/// up to the later one.
proof fn lemma_after_after(ts: Seq<u64>, c1: int, c2: int)
    requires
        c1 <= c2,
    ensures
        after(after(ts, c1), c2) == after(ts, c2),
    decreases ts.len(),
{
    if ts.len() == 0 {
        reveal_with_fuel(Seq::filter, 1);
        assert(after(ts, c1) =~= ts);
        assert(after(after(ts, c1), c2) =~= after(ts, c2));
    } else {
        let init = ts.drop_last();
        let x = ts.last();
        assert(init.push(x) =~= ts);
        lemma_after_after(init, c1, c2);
        init.lemma_filter_push(x, |t: u64| t > c1);
        init.lemma_filter_push(x, |t: u64| t > c2);
        if x > c1 {
            after(init, c1).lemma_filter_push(x, |t: u64| t > c2);
        }
    }
}

/// A fresh limiter never remembers more than `max_requests` times.
proof fn lemma_memory_within_limit(max_requests: u32, window_secs: u64, times: Seq<u64>)
    ensures
        limiter_memory(max_requests, window_secs, times).len() <= max_requests,
    decreases times.len(),
{
    if times.len() > 0 {
        let m0 = limiter_memory(max_requests, window_secs, times.drop_last());
        lemma_memory_within_limit(max_requests, window_secs, times.drop_last());
        m0.lemma_filter_len(|t: u64| t > window_start(times.last(), window_secs));
    }
}

/// Among the first `n` requests, those accepted after `cutoff` are exactly
/// the remembered times after `cutoff`, when the cutoff is no earlier than
/// the window of request `n - 1`.
proof fn lemma_accepted_are_remembered(
    max_requests: u32,
    window_secs: u64,
    times: Seq<u64>,
    n: int,
    cutoff: int,
)
    requires
        forall|i: int, j: int| 0 <= i <= j < times.len() ==> times[i] <= times[j],
        0 <= n <= times.len(),
        n > 0 ==> cutoff >= window_start(times[n - 1], window_secs),
    ensures
        accepted_after(max_requests, window_secs, times, n, cutoff) == after(
            limiter_memory(max_requests, window_secs, times.take(n)),
            cutoff,
        ).len(),
    decreases n,
{
    if n == 0 {
        let e = limiter_memory(max_requests, window_secs, times.take(0));
        assert(e.len() == 0);
        reveal_with_fuel(Seq::filter, 1);
    } else {
        let t = times[n - 1];
        let c1 = window_start(t, window_secs);
        let m0 = limiter_memory(max_requests, window_secs, times.take(n - 1));
        let kept = after(m0, c1);
        assert(times.take(n).drop_last() =~= times.take(n - 1));
        assert(times.take(n).last() == t);
        if n > 1 {
            lemma_window_start_monotone(times[n - 2], t, window_secs);
        }
        lemma_accepted_are_remembered(max_requests, window_secs, times, n - 1, cutoff);
        lemma_after_after(m0, c1, cutoff);
        if kept.len() < max_requests {
            kept.lemma_filter_push(t, |x: u64| x > cutoff);
        }
    }
}

/// The limit holds over any run of a fresh limiter: when requests come at
/// non-decreasing times, the window that ends at any request holds at most
/// `max_requests` accepted requests (that one included).
pub proof fn lemma_rate_limit_holds(max_requests: u32, window_secs: u64, times: Seq<u64>, k: int)
    requires
        forall|i: int, j: int| 0 <= i <= j < times.len() ==> times[i] <= times[j],
        0 <= k < times.len(),
    ensures
        accepted_after(max_requests, window_secs, times, k + 1, window_start(times[k], window_secs))
            <= max_requests,
{
    let c = window_start(times[k], window_secs);
    let mk = limiter_memory(max_requests, window_secs, times.take(k));
    if k > 0 {
        lemma_window_start_monotone(times[k - 1], times[k], window_secs);
    }
    lemma_accepted_are_remembered(max_requests, window_secs, times, k, c);
    lemma_memory_within_limit(max_requests, window_secs, times.take(k));
    mk.lemma_filter_len(|t: u64| t > c);
}

/// A fresh limiter, fed requests at non-decreasing times, accepts the request
/// at `times[k]` exactly when fewer than `max_requests` of the earlier requests
/// were accepted inside its window `(times[k] - window, times[k]]`.
pub proof fn lemma_accepts_iff_window_has_room(max_requests: u32, window_secs: u64, times: Seq<u64>, k: int)
    requires
        forall|i: int, j: int| 0 <= i <= j < times.len() ==> times[i] <= times[j],
        0 <= k < times.len(),
    ensures
        limiter_accepts(max_requests, window_secs, times, k) <==> accepted_after(
            max_requests,
            window_secs,
            times,
            k,
            window_start(times[k], window_secs),
        ) < max_requests,
{
    let c = window_start(times[k], window_secs);
    if k > 0 {
        lemma_window_start_monotone(times[k - 1], times[k], window_secs);
    }
    lemma_accepted_are_remembered(max_requests, window_secs, times, k, c);
}

} // verus!
