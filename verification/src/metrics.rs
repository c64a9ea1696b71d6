//! Server-wide counters: traffic, connections, requests, cache.

use vstd::prelude::*;
use crate::clock::Clock;
use crate::protocol::cmd;
use crate::text::{decimal, push_decimal, push_str, string_from_chars};

verus! {

/// Counters of the whole server. Counters wrap around on overflow, as the
/// atomic counters they stand for do.
pub struct Metrics {
    pub bytes_sent: u64,
    pub bytes_recv: u64,
    pub total_connections: u64,
    /// Connections open now.
    pub active_connections: i64,
    /// Most connections open at once.
    pub peak_connections: i64,
    /// Requests handled.
    pub total_requests: u64,
    /// Requests answered with data.
    pub requests_ok: u64,
    /// Requests whose file was not found.
    pub requests_not_found: u64,
    pub cmd_icon: u64,
    pub cmd_effdata: u64,
    pub cmd_map: u64,
    pub cmd_npc: u64,
    pub cmd_image_source: u64,
    pub cmd_background: u64,
    pub cmd_tileset: u64,
    pub cache_hits: u64,
    pub cache_misses: u64,
    /// Bytes held by the cache.
    pub cache_bytes: i64,
    /// Entries held by the cache.
    pub cache_entries: i64,
    /// Requests dropped by rate limiting.
    pub rate_limited: u64,
    /// Start of the server, a reading of the server's clock (nanoseconds).
    pub start_time: u64,
}

/// Whole seconds from `start` to `now` (nanoseconds), 0 if `now` is earlier.
pub open spec fn elapsed_secs(start: u64, now: u64) -> u64 {
    if now >= start {
        ((now - start) / 1_000_000_000) as u64
    } else {
        0
    }
}

/// Uptime as the stats log shows it: days, hours, minutes and seconds,
/// leaving out the leading units that are zero.
pub open spec fn uptime_text(secs: nat) -> Seq<char> {
    let days = secs / 86400;
    let hours = (secs % 86400) / 3600;
    let mins = (secs % 3600) / 60;
    let s = secs % 60;
    if days > 0 {
        decimal(days) + "d "@ + decimal(hours) + "h "@ + decimal(mins) + "m "@ + decimal(s) + "s"@
    } else if hours > 0 {
        decimal(hours) + "h "@ + decimal(mins) + "m "@ + decimal(s) + "s"@
    } else if mins > 0 {
        decimal(mins) + "m "@ + decimal(s) + "s"@
    } else {
        decimal(s) + "s"@
    }
}

/// The counters after a connection opens: one more in total and open, and
/// the peak raised to the number open if that is higher.
pub open spec fn connected(m: Metrics) -> Metrics {
    let active = m.active_connections.wrapping_add(1);
    Metrics {
        total_connections: m.total_connections.wrapping_add(1),
        active_connections: active,
        peak_connections: if active > m.peak_connections {
            active
        } else {
            m.peak_connections
        },
        ..m
    }
}

/// The counters after a connection closes: one less open.
pub open spec fn disconnected(m: Metrics) -> Metrics {
    Metrics { active_connections: m.active_connections.wrapping_sub(1), ..m }
}

/// The counters after a run of connections opening (`true`) and closing (`false`).
pub open spec fn after_connection_events(m: Metrics, events: Seq<bool>) -> Metrics
    decreases events.len(),
{
    if events.len() == 0 {
        m
    } else {
        let p = after_connection_events(m, events.drop_last());
        if events.last() {
            connected(p)
        } else {
            disconnected(p)
        }
    }
}

/// Connections open after a run of events: those opened less those closed.
pub open spec fn net_open(events: Seq<bool>) -> int
    decreases events.len(),
{
    if events.len() == 0 {
        0
    } else {
        net_open(events.drop_last()) + if events.last() {
            1int
        } else {
            -1int
        }
    }
}

/// The highest number of connections open at any point of a run (0 at its start).
pub open spec fn highest_open(events: Seq<bool>) -> int
    decreases events.len(),
{
    if events.len() == 0 {
        0
    } else {
        let h = highest_open(events.drop_last());
        let n = net_open(events);
        if n > h {
            n
        } else {
            h
        }
    }
}

/// From counters with nothing open and no peak, the active count follows the
/// connections opened and closed, and the peak is the highest number of
/// connections ever open at once, never below the active count.
pub proof fn lemma_peak_is_highest_open(m: Metrics, events: Seq<bool>)
    requires
        m.active_connections == 0,
        m.peak_connections == 0,
        events.len() < i64::MAX,
    ensures
        after_connection_events(m, events).active_connections == net_open(events),
        after_connection_events(m, events).peak_connections == highest_open(events),
        after_connection_events(m, events).peak_connections >= after_connection_events(
            m,
            events,
        ).active_connections,
        -events.len() <= net_open(events) <= events.len(),
    decreases events.len(),
{
    if events.len() > 0 {
        lemma_peak_is_highest_open(m, events.drop_last());
    }
}

/// The counters after a request of `command` is counted by its command:
/// image source 1 and 2 share a counter; other commands count nowhere.
pub open spec fn cmd_counted(m: Metrics, command: i8) -> Metrics {
    if command == cmd::REQUEST_ICON {
        Metrics { cmd_icon: m.cmd_icon.wrapping_add(1), ..m }
    } else if command == cmd::GET_EFFDATA {
        Metrics { cmd_effdata: m.cmd_effdata.wrapping_add(1), ..m }
    } else if command == cmd::REQUEST_MAPTEMPLATE {
        Metrics { cmd_map: m.cmd_map.wrapping_add(1), ..m }
    } else if command == cmd::REQUEST_NPCTEMPLATE {
        Metrics { cmd_npc: m.cmd_npc.wrapping_add(1), ..m }
    } else if command == cmd::GET_IMAGE_SOURCE || command == cmd::GET_IMAGE_SOURCE2 {
        Metrics { cmd_image_source: m.cmd_image_source.wrapping_add(1), ..m }
    } else if command == cmd::BACKGROUND_TEMPLATE {
        Metrics { cmd_background: m.cmd_background.wrapping_add(1), ..m }
    } else if command == cmd::TILE_SET {
        Metrics { cmd_tileset: m.cmd_tileset.wrapping_add(1), ..m }
    } else {
        m
    }
}

impl Metrics {
    /// Counters at zero, started now by `clock`.
    pub fn new(clock: &Clock) -> (m: Self)
        ensures
            m.counters_zero(),
    {
        Self::new_at(clock.now_nanos())
    }

    /// Counters at zero, started at `now`.
    pub fn new_at(now: u64) -> (m: Self)
        ensures
            m.counters_zero(),
            m.start_time == now,
    {
        Metrics {
            bytes_sent: 0,
            bytes_recv: 0,
            total_connections: 0,
            active_connections: 0,
            peak_connections: 0,
            total_requests: 0,
            requests_ok: 0,
            requests_not_found: 0,
            cmd_icon: 0,
            cmd_effdata: 0,
            cmd_map: 0,
            cmd_npc: 0,
            cmd_image_source: 0,
            cmd_background: 0,
            cmd_tileset: 0,
            cache_hits: 0,
            cache_misses: 0,
            cache_bytes: 0,
            cache_entries: 0,
            rate_limited: 0,
            start_time: now,
        }
    }

    /// Every counter is zero.
    pub open spec fn counters_zero(&self) -> bool {
        &&& self.bytes_sent == 0
        &&& self.bytes_recv == 0
        &&& self.total_connections == 0
        &&& self.active_connections == 0
        &&& self.peak_connections == 0
        &&& self.total_requests == 0
        &&& self.requests_ok == 0
        &&& self.requests_not_found == 0
        &&& self.cmd_icon == 0
        &&& self.cmd_effdata == 0
        &&& self.cmd_map == 0
        &&& self.cmd_npc == 0
        &&& self.cmd_image_source == 0
        &&& self.cmd_background == 0
        &&& self.cmd_tileset == 0
        &&& self.cache_hits == 0
        &&& self.cache_misses == 0
        &&& self.cache_bytes == 0
        &&& self.cache_entries == 0
        &&& self.rate_limited == 0
    }

    /// `self` and `other` agree on every field but the per-command counters.
    pub open spec fn same_but_commands(&self, other: &Self) -> bool {
        &&& self.bytes_sent == other.bytes_sent
        &&& self.bytes_recv == other.bytes_recv
        &&& self.total_connections == other.total_connections
        &&& self.active_connections == other.active_connections
        &&& self.peak_connections == other.peak_connections
        &&& self.total_requests == other.total_requests
        &&& self.requests_ok == other.requests_ok
        &&& self.requests_not_found == other.requests_not_found
        &&& self.cache_hits == other.cache_hits
        &&& self.cache_misses == other.cache_misses
        &&& self.cache_bytes == other.cache_bytes
        &&& self.cache_entries == other.cache_entries
        &&& self.rate_limited == other.rate_limited
        &&& self.start_time == other.start_time
    }

    pub fn add_bytes_sent(&mut self, n: u64)
        ensures
            *final(self) == (Metrics { bytes_sent: old(self).bytes_sent.wrapping_add(n), ..*old(self) }),
    {
        self.bytes_sent = self.bytes_sent.wrapping_add(n);
    }

    pub fn add_bytes_recv(&mut self, n: u64)
        ensures
            *final(self) == (Metrics { bytes_recv: old(self).bytes_recv.wrapping_add(n), ..*old(self) }),
    {
        self.bytes_recv = self.bytes_recv.wrapping_add(n);
    }

    /// A connection opened: counts it, and raises the peak to the number
    /// now open if that is higher.
    pub fn on_connect(&mut self)
        ensures
            final(self).total_connections == old(self).total_connections.wrapping_add(1),
            final(self).active_connections == old(self).active_connections.wrapping_add(1),
            final(self).peak_connections == if final(self).active_connections > old(self).peak_connections {
                final(self).active_connections
            } else {
                old(self).peak_connections
            },
            final(self).peak_connections >= final(self).active_connections,
            final(self).peak_connections >= old(self).peak_connections,
            *final(self) == connected(*old(self)),
    {
        self.total_connections = self.total_connections.wrapping_add(1);
        let current = self.active_connections.wrapping_add(1);
        self.active_connections = current;
        if current > self.peak_connections {
            self.peak_connections = current;
        }
    }

    pub fn on_disconnect(&mut self)
        ensures
            *final(self) == disconnected(*old(self)),
    {
        self.active_connections = self.active_connections.wrapping_sub(1);
    }

    pub fn on_request(&mut self)
        ensures
            *final(self) == (Metrics { total_requests: old(self).total_requests.wrapping_add(1), ..*old(self) }),
    {
        self.total_requests = self.total_requests.wrapping_add(1);
    }

    pub fn on_request_ok(&mut self)
        ensures
            *final(self) == (Metrics { requests_ok: old(self).requests_ok.wrapping_add(1), ..*old(self) }),
    {
        self.requests_ok = self.requests_ok.wrapping_add(1);
    }

    pub fn on_request_not_found(&mut self)
        ensures
            *final(self) == (Metrics {
                requests_not_found: old(self).requests_not_found.wrapping_add(1),
                ..*old(self)
            }),
    {
        self.requests_not_found = self.requests_not_found.wrapping_add(1);
    }

    pub fn on_cache_hit(&mut self)
        ensures
            *final(self) == (Metrics { cache_hits: old(self).cache_hits.wrapping_add(1), ..*old(self) }),
    {
        self.cache_hits = self.cache_hits.wrapping_add(1);
    }

    pub fn on_cache_miss(&mut self)
        ensures
            *final(self) == (Metrics { cache_misses: old(self).cache_misses.wrapping_add(1), ..*old(self) }),
    {
        self.cache_misses = self.cache_misses.wrapping_add(1);
    }

    pub fn on_rate_limited(&mut self)
        ensures
            *final(self) == (Metrics { rate_limited: old(self).rate_limited.wrapping_add(1), ..*old(self) }),
    {
        self.rate_limited = self.rate_limited.wrapping_add(1);
    }

    /// Counts a request by its command; image source 1 and 2 share a
    /// counter, and other commands are not counted.
    pub fn increment_cmd(&mut self, command: i8)
        ensures
            *final(self) == cmd_counted(*old(self), command),
            final(self).same_but_commands(old(self)),
            final(self).cmd_icon == if command == cmd::REQUEST_ICON {
                old(self).cmd_icon.wrapping_add(1)
            } else {
                old(self).cmd_icon
            },
            final(self).cmd_effdata == if command == cmd::GET_EFFDATA {
                old(self).cmd_effdata.wrapping_add(1)
            } else {
                old(self).cmd_effdata
            },
            final(self).cmd_map == if command == cmd::REQUEST_MAPTEMPLATE {
                old(self).cmd_map.wrapping_add(1)
            } else {
                old(self).cmd_map
            },
            final(self).cmd_npc == if command == cmd::REQUEST_NPCTEMPLATE {
                old(self).cmd_npc.wrapping_add(1)
            } else {
                old(self).cmd_npc
            },
            final(self).cmd_image_source == if command == cmd::GET_IMAGE_SOURCE || command
                == cmd::GET_IMAGE_SOURCE2 {
                old(self).cmd_image_source.wrapping_add(1)
            } else {
                old(self).cmd_image_source
            },
            final(self).cmd_background == if command == cmd::BACKGROUND_TEMPLATE {
                old(self).cmd_background.wrapping_add(1)
            } else {
                old(self).cmd_background
            },
            final(self).cmd_tileset == if command == cmd::TILE_SET {
                old(self).cmd_tileset.wrapping_add(1)
            } else {
                old(self).cmd_tileset
            },
    {
        match command {
            cmd::REQUEST_ICON => {
                self.cmd_icon = self.cmd_icon.wrapping_add(1);
            },
            cmd::GET_EFFDATA => {
                self.cmd_effdata = self.cmd_effdata.wrapping_add(1);
            },
            cmd::REQUEST_MAPTEMPLATE => {
                self.cmd_map = self.cmd_map.wrapping_add(1);
            },
            cmd::REQUEST_NPCTEMPLATE => {
                self.cmd_npc = self.cmd_npc.wrapping_add(1);
            },
            cmd::GET_IMAGE_SOURCE | cmd::GET_IMAGE_SOURCE2 => {
                self.cmd_image_source = self.cmd_image_source.wrapping_add(1);
            },
            cmd::BACKGROUND_TEMPLATE => {
                self.cmd_background = self.cmd_background.wrapping_add(1);
            },
            cmd::TILE_SET => {
                self.cmd_tileset = self.cmd_tileset.wrapping_add(1);
            },
            _ => {},
        }
    }

    /// Whole seconds since the start, as of `now` (a reading of the server clock).
    pub fn uptime_secs_at(&self, now: u64) -> (secs: u64)
        ensures
            secs == elapsed_secs(self.start_time, now),
    {
        if now >= self.start_time {
            (now - self.start_time) / 1_000_000_000
        } else {
            0
        }
    }

    /// Uptime in seconds, read from `clock`.
    pub fn uptime_secs(&self, clock: &Clock) -> (secs: u64)
        ensures
            exists|now: u64| secs == elapsed_secs(self.start_time, now),
    {
        let now = clock.now_nanos();
        self.uptime_secs_at(now)
    }

    /// Uptime as text, e.g. `1d 2h 3m 4s`.
    pub fn fmt_uptime(secs: u64) -> (s: String)
        ensures
            s@ == uptime_text(secs as nat),
    {
        let days = secs / 86400;
        let hours = (secs % 86400) / 3600;
        let mins = (secs % 3600) / 60;
        let sec = secs % 60;
        let mut out: Vec<char> = Vec::new();
        if days > 0 {
            push_decimal(&mut out, days);
            push_str(&mut out, "d ");
            push_decimal(&mut out, hours);
            push_str(&mut out, "h ");
            push_decimal(&mut out, mins);
            push_str(&mut out, "m ");
            push_decimal(&mut out, sec);
            push_str(&mut out, "s");
        } else if hours > 0 {
            push_decimal(&mut out, hours);
            push_str(&mut out, "h ");
            push_decimal(&mut out, mins);
            push_str(&mut out, "m ");
            push_decimal(&mut out, sec);
            push_str(&mut out, "s");
        } else if mins > 0 {
            push_decimal(&mut out, mins);
            push_str(&mut out, "m ");
            push_decimal(&mut out, sec);
            push_str(&mut out, "s");
        } else {
            push_decimal(&mut out, sec);
            push_str(&mut out, "s");
        }
        proof {
            assert(out@ =~= uptime_text(secs as nat));
        }
        string_from_chars(out.as_slice())
    }

    /// Average of a total over the uptime, per second (0 for no uptime).
    pub fn per_second(total: u64, uptime_secs: u64) -> (avg: u64)
        ensures
            avg == if uptime_secs > 0 {
                total / uptime_secs
            } else {
                0
            },
    {
        if uptime_secs > 0 {
            total / uptime_secs
        } else {
            0
        }
    }
}

} // verus!
