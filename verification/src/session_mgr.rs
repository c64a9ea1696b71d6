//! Session bookkeeping: every open session with its traffic counters, the
//! ids handed out, the bandwidth ranking and idle kicking.

use vstd::prelude::*;
use dashmap::DashMap;
use crate::clock::Clock;
use crate::handler::Outcome;
use crate::metrics::{cmd_counted, elapsed_secs, Metrics};
use crate::protocol::{int_at, skip_pos};
use crate::protocol::cmd;
use crate::session::{limiter_step, requested_zoom, RateLimits, SessionState};

verus! {

/// Tracking data of one session. Times are readings of the server clock (nanoseconds);
/// counters wrap around on overflow, as the atomic counters they stand for do.
pub struct SessionInfo {
    pub id: u64,
    /// Peer address, as text.
    pub addr: String,
    pub zoom_level: u8,
    pub connected_at: u64,
    pub last_activity: u64,
    pub bytes_sent: u64,
    pub bytes_recv: u64,
    pub request_count: u64,
    pub requests_ok: u64,
    pub requests_not_found: u64,
}

/// A session as listed by a scan of the table.
pub struct SessionSummary {
    pub id: u64,
    pub addr: String,
    pub bytes_sent: u64,
    pub bytes_recv: u64,
    pub request_count: u64,
    pub last_activity: u64,
}

/// What the session table holds: the sessions by id.
pub uninterp spec fn session_table(m: DashMap<u64, SessionInfo>) -> Map<u64, SessionInfo>;

/// A summary agrees with the session of its id in the table.
pub open spec fn summary_matches(t: Map<u64, SessionInfo>, s: SessionSummary) -> bool {
    &&& t.contains_key(s.id)
    &&& t[s.id].addr@ == s.addr@
    &&& t[s.id].bytes_sent == s.bytes_sent
    &&& t[s.id].bytes_recv == s.bytes_recv
    &&& t[s.id].request_count == s.request_count
    &&& t[s.id].last_activity == s.last_activity
}

/// The ids listed in a scan.
pub open spec fn summary_ids(items: Seq<SessionSummary>) -> Set<u64> {
    items.map_values(|s: SessionSummary| s.id).to_set()
}

/// No id is listed twice.
pub open spec fn distinct_ids(items: Seq<SessionSummary>) -> bool {
    forall|i: int, j: int| 0 <= i < j < items.len() ==> #[trigger] items[i].id != #[trigger] items[j].id
}

/// `DashMap::new` for the session table: an empty map.
#[verifier::external_body]
fn session_table_new() -> (m: DashMap<u64, SessionInfo>)
    ensures
        session_table(m).dom() == Set::<u64>::empty(),
{
    DashMap::new()
}

/// `DashMap::len` for the session table.
#[verifier::external_body]
fn session_table_len(m: &DashMap<u64, SessionInfo>) -> (n: usize)
    ensures
        n == session_table(*m).len(),
{
    m.len()
}

/// `DashMap::insert` for the session table: the id now maps to `info`.
#[verifier::external_body]
fn session_table_insert(m: &mut DashMap<u64, SessionInfo>, id: u64, info: SessionInfo)
    ensures
        session_table(*final(m)) == session_table(*old(m)).insert(id, info),
{
    m.insert(id, info);
}

/// `DashMap::remove` for the session table: takes the id's session out, if any.
#[verifier::external_body]
fn session_table_remove(m: &mut DashMap<u64, SessionInfo>, id: u64) -> (r: Option<(u64, SessionInfo)>)
    ensures
        session_table(*final(m)) == session_table(*old(m)).remove(id),
        r is Some <==> session_table(*old(m)).contains_key(id),
        r matches Some((k, info)) ==> k == id && info == session_table(*old(m))[id],
{
    m.remove(&id)
}

/// `DashMap::iter` over the session table, each session summarized. Every
/// session comes once; the order is the map's own.
#[verifier::external_body]
fn session_table_scan(m: &DashMap<u64, SessionInfo>) -> (r: Vec<SessionSummary>)
    ensures
        r@.len() == session_table(*m).len(),
        summary_ids(r@) == session_table(*m).dom(),
        forall|i: int| 0 <= i < r@.len() ==> summary_matches(session_table(*m), #[trigger] r@[i]),
        distinct_ids(r@),
{
    m.iter().map(
        |e| SessionSummary {
            id: *e.key(),
            addr: e.value().addr.clone(),
            bytes_sent: e.value().bytes_sent,
            bytes_recv: e.value().bytes_recv,
            request_count: e.value().request_count,
            last_activity: e.value().last_activity,
        },
    ).collect()
}

impl SessionInfo {
    /// A session that connected at `now` and has done nothing yet.
    pub fn new(id: u64, addr: String, now: u64) -> (s: Self)
        ensures
            s.id == id,
            s.addr@ == addr@,
            s.zoom_level == 0,
            s.connected_at == now,
            s.last_activity == now,
            s.bytes_sent == 0,
            s.bytes_recv == 0,
            s.request_count == 0,
            s.requests_ok == 0,
            s.requests_not_found == 0,
    {
        SessionInfo {
            id,
            addr,
            zoom_level: 0,
            connected_at: now,
            last_activity: now,
            bytes_sent: 0,
            bytes_recv: 0,
            request_count: 0,
            requests_ok: 0,
            requests_not_found: 0,
        }
    }

    /// Whole seconds connected, as of `now`.
    pub fn duration_secs_at(&self, now: u64) -> (secs: u64)
        ensures
            secs == elapsed_secs(self.connected_at, now),
    {
        if now >= self.connected_at {
            (now - self.connected_at) / 1_000_000_000
        } else {
            0
        }
    }

    /// Whole seconds since the last activity, as of `now`.
    pub fn idle_secs_at(&self, now: u64) -> (secs: u64)
        ensures
            secs == elapsed_secs(self.last_activity, now),
    {
        if now >= self.last_activity {
            (now - self.last_activity) / 1_000_000_000
        } else {
            0
        }
    }

    /// Whole seconds connected, read from `clock`.
    pub fn duration_secs(&self, clock: &Clock) -> (secs: u64)
        ensures
            exists|now: u64| secs == elapsed_secs(self.connected_at, now),
    {
        let now = clock.now_nanos();
        self.duration_secs_at(now)
    }

    /// Whole seconds since the last activity, read from `clock`.
    pub fn idle_secs(&self, clock: &Clock) -> (secs: u64)
        ensures
            exists|now: u64| secs == elapsed_secs(self.last_activity, now),
    {
        let now = clock.now_nanos();
        self.idle_secs_at(now)
    }
}

/// All open sessions, by id, and the next id to hand out.
pub struct SessionManager {
    sessions: DashMap<u64, SessionInfo>,
    next_session_id: u64,
    rate_limits: RateLimits,
}

/// Requests that one client address may have accepted within a window.
pub const RATE_LIMIT_REQUESTS: u32 = 200;

/// The length of the rate-limit window, in seconds.
pub const RATE_LIMIT_WINDOW_SECS: u64 = 10;

impl SessionManager {
    /// The open sessions by id.
    pub closed spec fn sessions(&self) -> Map<u64, SessionInfo> {
        session_table(self.sessions)
    }

    /// The id the next session gets.
    pub closed spec fn next_session_id(&self) -> u64 {
        self.next_session_id
    }

    /// The rate limiters of the client addresses.
    pub closed spec fn rate_limits(&self) -> RateLimits {
        self.rate_limits
    }

    /// No sessions; ids start at 1; no client address has made a request,
    /// and each may have 200 accepted within 10 seconds.
    pub fn new() -> (m: Self)
        ensures
            m.sessions().dom() == Set::<u64>::empty(),
            m.next_session_id() == 1,
            m.rate_limits().max_requests() == RATE_LIMIT_REQUESTS,
            m.rate_limits().window_secs() == RATE_LIMIT_WINDOW_SECS,
            forall|addr: Seq<char>| #[trigger] m.rate_limits().memory(addr) == Seq::<u64>::empty(),
    {
        SessionManager {
            sessions: session_table_new(),
            next_session_id: 1,
            rate_limits: RateLimits::new(RATE_LIMIT_REQUESTS, RATE_LIMIT_WINDOW_SECS),
        }
    }

    /// Hands out the next session id (ids count up, wrapping around).
    pub fn next_id(&mut self) -> (id: u64)
        ensures
            id == old(self).next_session_id(),
            final(self).next_session_id() == old(self).next_session_id().wrapping_add(1),
            final(self).sessions() == old(self).sessions(),
            final(self).rate_limits() == old(self).rate_limits(),
    {
        let id = self.next_session_id;
        self.next_session_id = self.next_session_id.wrapping_add(1);
        id
    }

    /// Registers a session from `addr` that connected at `now`, counts the
    /// connection, and returns its id.
    pub fn register(&mut self, addr: String, now: u64, metrics: &mut Metrics) -> (id: u64)
        ensures
            id == old(self).next_session_id(),
            final(self).next_session_id() == old(self).next_session_id().wrapping_add(1),
            final(self).rate_limits() == old(self).rate_limits(),
            final(self).sessions().dom() == old(self).sessions().dom().insert(id),
            forall|k: u64| k != id && #[trigger] old(self).sessions().contains_key(k) ==> final(self).sessions()[k]
                == old(self).sessions()[k],
            final(self).sessions()[id].id == id,
            final(self).sessions()[id].addr@ == addr@,
            final(self).sessions()[id].zoom_level == 0,
            final(self).sessions()[id].connected_at == now,
            final(self).sessions()[id].last_activity == now,
            final(self).sessions()[id].bytes_sent == 0,
            final(self).sessions()[id].bytes_recv == 0,
            final(self).sessions()[id].request_count == 0,
            final(self).sessions()[id].requests_ok == 0,
            final(self).sessions()[id].requests_not_found == 0,
            *final(metrics) == (Metrics {
                total_connections: old(metrics).total_connections.wrapping_add(1),
                active_connections: old(metrics).active_connections.wrapping_add(1),
                peak_connections: if old(metrics).active_connections.wrapping_add(1)
                    > old(metrics).peak_connections {
                    old(metrics).active_connections.wrapping_add(1)
                } else {
                    old(metrics).peak_connections
                },
                ..*old(metrics)
            }),
    {
        let id = self.next_id();
        let info = SessionInfo::new(id, addr, now);
        session_table_insert(&mut self.sessions, id, info);
        metrics.on_connect();
        id
    }

    /// Removes a session that disconnected and uncounts its connection;
    /// returns its data, or nothing for an unknown id.
    pub fn unregister(&mut self, session_id: u64, metrics: &mut Metrics) -> (r: Option<SessionInfo>)
        ensures
            final(self).sessions() == old(self).sessions().remove(session_id),
            final(self).next_session_id() == old(self).next_session_id(),
            final(self).rate_limits() == old(self).rate_limits(),
            r is Some <==> old(self).sessions().contains_key(session_id),
            r matches Some(info) ==> info == old(self).sessions()[session_id],
            old(self).sessions().contains_key(session_id) ==> *final(metrics) == (Metrics {
                active_connections: old(metrics).active_connections.wrapping_sub(1),
                ..*old(metrics)
            }),
            !old(self).sessions().contains_key(session_id) ==> *final(metrics) == *old(metrics),
    {
        match session_table_remove(&mut self.sessions, session_id) {
            Some((_, info)) => {
                metrics.on_disconnect();
                Some(info)
            },
            None => None,
        }
    }

    /// Number of open sessions.
    pub fn active_count(&self) -> (n: usize)
        ensures
            n == self.sessions().len(),
    {
        session_table_len(&self.sessions)
    }
}

} // verus!

verus! {

/// `t` with the session `id` replaced by `info`, when there is one.
pub open spec fn replace_session(t: Map<u64, SessionInfo>, id: u64, info: SessionInfo) -> Map<u64, SessionInfo> {
    if t.contains_key(id) {
        t.insert(id, info)
    } else {
        t
    }
}

/// The ids of the sessions idle for more than `timeout` seconds at `now`.
pub open spec fn idle_ids(t: Map<u64, SessionInfo>, timeout: u64, now: u64) -> Set<u64> {
    t.dom().filter(|k: u64| elapsed_secs(t[k].last_activity, now) > timeout)
}

/// The counters after `k` disconnections.
pub open spec fn after_disconnects(m: Metrics, k: nat) -> Metrics
    decreases k,
{
    if k == 0 {
        m
    } else {
        let p = after_disconnects(m, (k - 1) as nat);
        Metrics { active_connections: p.active_connections.wrapping_sub(1), ..p }
    }
}

/// A ranking entry (id, address, bytes sent, bytes received, requests)
/// agrees with the table.
pub open spec fn ranking_matches(t: Map<u64, SessionInfo>, e: (u64, String, u64, u64, u64)) -> bool {
    &&& t.contains_key(e.0)
    &&& t[e.0].addr@ == e.1@
    &&& t[e.0].bytes_sent == e.2
    &&& t[e.0].bytes_recv == e.3
    &&& t[e.0].request_count == e.4
}

/// Position of the first summary with the most bytes sent.
fn index_of_busiest(items: &Vec<SessionSummary>) -> (m: usize)
    requires
        items@.len() > 0,
    ensures
        m < items@.len(),
        forall|j: int| 0 <= j < items@.len() ==> items@[m as int].bytes_sent >= #[trigger] items@[j].bytes_sent,
        forall|j: int| 0 <= j < m ==> items@[m as int].bytes_sent > #[trigger] items@[j].bytes_sent,
{
    let mut m: usize = 0;
    let mut i: usize = 1;
    while i < items.len()
        invariant
            0 < i <= items@.len(),
            m < i,
            forall|j: int| 0 <= j < i ==> items@[m as int].bytes_sent >= #[trigger] items@[j].bytes_sent,
            forall|j: int| 0 <= j < m ==> items@[m as int].bytes_sent > #[trigger] items@[j].bytes_sent,
        decreases items@.len() - i,
    {
        if items[i].bytes_sent > items[m].bytes_sent {
            m = i;
        }
        i = i + 1;
    }
    m
}

impl SessionManager {
    /// Records the zoom level a session asked for.
    pub fn set_zoom(&mut self, session_id: u64, zoom: u8)
        ensures
            final(self).sessions() == replace_session(
                old(self).sessions(),
                session_id,
                SessionInfo { zoom_level: zoom, ..old(self).sessions()[session_id] },
            ),
            final(self).next_session_id() == old(self).next_session_id(),
            final(self).rate_limits() == old(self).rate_limits(),
    {
        if let Some((k, mut info)) = session_table_remove(&mut self.sessions, session_id) {
            info.zoom_level = zoom;
            session_table_insert(&mut self.sessions, k, info);
            proof {
                assert(self.sessions() =~= old(self).sessions().insert(
                    session_id,
                    SessionInfo { zoom_level: zoom, ..old(self).sessions()[session_id] },
                ));
            }
        } else {
            proof {
                assert(self.sessions() =~= old(self).sessions());
            }
        }
    }

    /// Marks a session active at `now`.
    pub fn touch(&mut self, session_id: u64, now: u64)
        ensures
            final(self).sessions() == replace_session(
                old(self).sessions(),
                session_id,
                SessionInfo { last_activity: now, ..old(self).sessions()[session_id] },
            ),
            final(self).next_session_id() == old(self).next_session_id(),
            final(self).rate_limits() == old(self).rate_limits(),
    {
        if let Some((k, mut info)) = session_table_remove(&mut self.sessions, session_id) {
            info.last_activity = now;
            session_table_insert(&mut self.sessions, k, info);
            proof {
                assert(self.sessions() =~= old(self).sessions().insert(
                    session_id,
                    SessionInfo { last_activity: now, ..old(self).sessions()[session_id] },
                ));
            }
        } else {
            proof {
                assert(self.sessions() =~= old(self).sessions());
            }
        }
    }

    /// Counts bytes sent to a session, and server-wide.
    pub fn add_bytes_sent(&mut self, session_id: u64, n: u64, metrics: &mut Metrics)
        ensures
            final(self).sessions() == replace_session(
                old(self).sessions(),
                session_id,
                SessionInfo {
                    bytes_sent: old(self).sessions()[session_id].bytes_sent.wrapping_add(n),
                    ..old(self).sessions()[session_id]
                },
            ),
            final(self).next_session_id() == old(self).next_session_id(),
            final(self).rate_limits() == old(self).rate_limits(),
            *final(metrics) == (Metrics { bytes_sent: old(metrics).bytes_sent.wrapping_add(n), ..*old(metrics) }),
    {
        if let Some((k, mut info)) = session_table_remove(&mut self.sessions, session_id) {
            info.bytes_sent = info.bytes_sent.wrapping_add(n);
            session_table_insert(&mut self.sessions, k, info);
            proof {
                assert(self.sessions() =~= old(self).sessions().insert(
                    session_id,
                    SessionInfo {
                        bytes_sent: old(self).sessions()[session_id].bytes_sent.wrapping_add(n),
                        ..old(self).sessions()[session_id]
                    },
                ));
            }
        } else {
            proof {
                assert(self.sessions() =~= old(self).sessions());
            }
        }
        metrics.add_bytes_sent(n);
    }

    /// Counts bytes received from a session, and server-wide.
    pub fn add_bytes_recv(&mut self, session_id: u64, n: u64, metrics: &mut Metrics)
        ensures
            final(self).sessions() == replace_session(
                old(self).sessions(),
                session_id,
                SessionInfo {
                    bytes_recv: old(self).sessions()[session_id].bytes_recv.wrapping_add(n),
                    ..old(self).sessions()[session_id]
                },
            ),
            final(self).next_session_id() == old(self).next_session_id(),
            final(self).rate_limits() == old(self).rate_limits(),
            *final(metrics) == (Metrics { bytes_recv: old(metrics).bytes_recv.wrapping_add(n), ..*old(metrics) }),
    {
        if let Some((k, mut info)) = session_table_remove(&mut self.sessions, session_id) {
            info.bytes_recv = info.bytes_recv.wrapping_add(n);
            session_table_insert(&mut self.sessions, k, info);
            proof {
                assert(self.sessions() =~= old(self).sessions().insert(
                    session_id,
                    SessionInfo {
                        bytes_recv: old(self).sessions()[session_id].bytes_recv.wrapping_add(n),
                        ..old(self).sessions()[session_id]
                    },
                ));
            }
        } else {
            proof {
                assert(self.sessions() =~= old(self).sessions());
            }
        }
        metrics.add_bytes_recv(n);
    }

    /// Counts a request of a session, and server-wide.
    pub fn on_request(&mut self, session_id: u64, metrics: &mut Metrics)
        ensures
            final(self).sessions() == replace_session(
                old(self).sessions(),
                session_id,
                SessionInfo {
                    request_count: old(self).sessions()[session_id].request_count.wrapping_add(1),
                    ..old(self).sessions()[session_id]
                },
            ),
            final(self).next_session_id() == old(self).next_session_id(),
            final(self).rate_limits() == old(self).rate_limits(),
            *final(metrics) == (Metrics { total_requests: old(metrics).total_requests.wrapping_add(1), ..*old(metrics) }),
    {
        if let Some((k, mut info)) = session_table_remove(&mut self.sessions, session_id) {
            info.request_count = info.request_count.wrapping_add(1);
            session_table_insert(&mut self.sessions, k, info);
            proof {
                assert(self.sessions() =~= old(self).sessions().insert(
                    session_id,
                    SessionInfo {
                        request_count: old(self).sessions()[session_id].request_count.wrapping_add(1),
                        ..old(self).sessions()[session_id]
                    },
                ));
            }
        } else {
            proof {
                assert(self.sessions() =~= old(self).sessions());
            }
        }
        metrics.on_request();
    }

    /// Counts a request answered with data, for the session and server-wide.
    pub fn on_request_ok(&mut self, session_id: u64, metrics: &mut Metrics)
        ensures
            final(self).sessions() == replace_session(
                old(self).sessions(),
                session_id,
                SessionInfo {
                    requests_ok: old(self).sessions()[session_id].requests_ok.wrapping_add(1),
                    ..old(self).sessions()[session_id]
                },
            ),
            final(self).next_session_id() == old(self).next_session_id(),
            final(self).rate_limits() == old(self).rate_limits(),
            *final(metrics) == (Metrics { requests_ok: old(metrics).requests_ok.wrapping_add(1), ..*old(metrics) }),
    {
        if let Some((k, mut info)) = session_table_remove(&mut self.sessions, session_id) {
            info.requests_ok = info.requests_ok.wrapping_add(1);
            session_table_insert(&mut self.sessions, k, info);
            proof {
                assert(self.sessions() =~= old(self).sessions().insert(
                    session_id,
                    SessionInfo {
                        requests_ok: old(self).sessions()[session_id].requests_ok.wrapping_add(1),
                        ..old(self).sessions()[session_id]
                    },
                ));
            }
        } else {
            proof {
                assert(self.sessions() =~= old(self).sessions());
            }
        }
        metrics.on_request_ok();
    }

    /// Whether a request from client address `addr` (its IP) is let through
    /// at time `now`. The key exchange and the zoom handshake always are;
    /// other commands go through the address's rate limiter, which all
    /// connections from that address share. A refused request is counted.
    pub fn admit_at(&mut self, addr: &str, command: i8, now: u64, metrics: &mut Metrics) -> (admitted: bool)
        ensures
            command == cmd::GET_SESSION_ID || command == cmd::FREIGHT_INIT ==> admitted
                && final(self).rate_limits() == old(self).rate_limits(),
            command != cmd::GET_SESSION_ID && command != cmd::FREIGHT_INIT ==> (
            final(self).rate_limits().memory(addr@),
            admitted,
            ) == limiter_step(
                old(self).rate_limits().max_requests(),
                old(self).rate_limits().window_secs(),
                old(self).rate_limits().memory(addr@),
                now,
            ),
            forall|other: Seq<char>|
                other != addr@ ==> #[trigger] final(self).rate_limits().memory(other) == old(
                    self,
                ).rate_limits().memory(other),
            final(self).rate_limits().max_requests() == old(self).rate_limits().max_requests(),
            final(self).rate_limits().window_secs() == old(self).rate_limits().window_secs(),
            admitted ==> *final(metrics) == *old(metrics),
            !admitted ==> *final(metrics) == (Metrics {
                rate_limited: old(metrics).rate_limited.wrapping_add(1),
                ..*old(metrics)
            }),
            final(self).sessions() == old(self).sessions(),
            final(self).next_session_id() == old(self).next_session_id(),
    {
        if command == cmd::GET_SESSION_ID || command == cmd::FREIGHT_INIT {
            return true;
        }
        let admitted = self.rate_limits.check_at(addr, now);
        if !admitted {
            metrics.on_rate_limited();
        }
        admitted
    }

    /// Whether a request from client address `addr` arriving now, as `clock`
    /// reads, is let through.
    pub fn admit_now(&mut self, addr: &str, command: i8, clock: &Clock, metrics: &mut Metrics) -> (admitted: bool)
        ensures
            command == cmd::GET_SESSION_ID || command == cmd::FREIGHT_INIT ==> admitted
                && final(self).rate_limits() == old(self).rate_limits(),
            command != cmd::GET_SESSION_ID && command != cmd::FREIGHT_INIT ==> exists|now: u64|
                (final(self).rate_limits().memory(addr@), admitted) == limiter_step(
                    old(self).rate_limits().max_requests(),
                    old(self).rate_limits().window_secs(),
                    old(self).rate_limits().memory(addr@),
                    now,
                ),
            forall|other: Seq<char>|
                other != addr@ ==> #[trigger] final(self).rate_limits().memory(other) == old(
                    self,
                ).rate_limits().memory(other),
            final(self).rate_limits().max_requests() == old(self).rate_limits().max_requests(),
            final(self).rate_limits().window_secs() == old(self).rate_limits().window_secs(),
            admitted ==> *final(metrics) == *old(metrics),
            !admitted ==> *final(metrics) == (Metrics {
                rate_limited: old(metrics).rate_limited.wrapping_add(1),
                ..*old(metrics)
            }),
            final(self).sessions() == old(self).sessions(),
            final(self).next_session_id() == old(self).next_session_id(),
    {
        let now = clock.now_nanos();
        self.admit_at(addr, command, now, metrics)
    }

    /// Counts how a data request went: answered with data, or its file not
    /// found; a request of an unknown command counts as neither.
    pub fn record_outcome(&mut self, session_id: u64, outcome: &Outcome, metrics: &mut Metrics)
        ensures
            *outcome is Found ==> final(self).sessions() == replace_session(
                old(self).sessions(),
                session_id,
                SessionInfo {
                    requests_ok: old(self).sessions()[session_id].requests_ok.wrapping_add(1),
                    ..old(self).sessions()[session_id]
                },
            ) && *final(metrics) == (Metrics { requests_ok: old(metrics).requests_ok.wrapping_add(1), ..*old(metrics) }),
            *outcome is NotFound ==> final(self).sessions() == replace_session(
                old(self).sessions(),
                session_id,
                SessionInfo {
                    requests_not_found: old(self).sessions()[session_id].requests_not_found.wrapping_add(1),
                    ..old(self).sessions()[session_id]
                },
            ) && *final(metrics) == (Metrics {
                requests_not_found: old(metrics).requests_not_found.wrapping_add(1),
                ..*old(metrics)
            }),
            *outcome is Unanswered ==> final(self).sessions() == old(self).sessions() && *final(metrics)
                == *old(metrics),
            final(self).next_session_id() == old(self).next_session_id(),
            final(self).rate_limits() == old(self).rate_limits(),
    {
        match outcome {
            Outcome::Found => self.on_request_ok(session_id, metrics),
            Outcome::NotFound => self.on_request_not_found(session_id, metrics),
            Outcome::Unanswered => {},
        }
    }

    /// Counts a request whose file was not found, for the session and server-wide.
    pub fn on_request_not_found(&mut self, session_id: u64, metrics: &mut Metrics)
        ensures
            final(self).sessions() == replace_session(
                old(self).sessions(),
                session_id,
                SessionInfo {
                    requests_not_found: old(self).sessions()[session_id].requests_not_found.wrapping_add(1),
                    ..old(self).sessions()[session_id]
                },
            ),
            final(self).next_session_id() == old(self).next_session_id(),
            final(self).rate_limits() == old(self).rate_limits(),
            *final(metrics) == (Metrics {
                requests_not_found: old(metrics).requests_not_found.wrapping_add(1),
                ..*old(metrics)
            }),
    {
        if let Some((k, mut info)) = session_table_remove(&mut self.sessions, session_id) {
            info.requests_not_found = info.requests_not_found.wrapping_add(1);
            session_table_insert(&mut self.sessions, k, info);
            proof {
                assert(self.sessions() =~= old(self).sessions().insert(
                    session_id,
                    SessionInfo {
                        requests_not_found: old(self).sessions()[session_id].requests_not_found.wrapping_add(1),
                        ..old(self).sessions()[session_id]
                    },
                ));
            }
        } else {
            proof {
                assert(self.sessions() =~= old(self).sessions());
            }
        }
        metrics.on_request_not_found();
    }
}

} // verus!

verus! {

impl SessionManager {
    /// The `n` sessions that were sent the most bytes, most first, as
    /// (id, address, bytes sent, bytes received, requests). Sessions that
    /// sent equal amounts keep the order of the table scan.
    pub fn top_by_bandwidth(&self, n: usize) -> (top: Vec<(u64, String, u64, u64, u64)>)
        ensures
            top@.len() == if n < self.sessions().len() {
                n as int
            } else {
                self.sessions().len() as int
            },
            forall|i: int| 0 <= i < top@.len() ==> ranking_matches(self.sessions(), #[trigger] top@[i]),
            forall|i: int, j: int| 0 <= i < j < top@.len() ==> #[trigger] top@[i].0 != #[trigger] top@[j].0,
            forall|i: int, j: int| 0 <= i < j < top@.len() ==> #[trigger] top@[i].2 >= #[trigger] top@[j].2,
            forall|i: int, k: u64|
                0 <= i < top@.len() && #[trigger] self.sessions().contains_key(k) && (forall|j: int|
                    0 <= j < top@.len() ==> #[trigger] top@[j].0 != k) ==> #[trigger] top@[i].2
                    >= self.sessions()[k].bytes_sent,
    {
        let t = Ghost(self.sessions());
        let mut working = session_table_scan(&self.sessions);
        proof {
            assert forall|k: u64| t@.contains_key(k) implies exists|i: int|
                0 <= i < working@.len() && (#[trigger] working@[i]).id == k by {
                assert(summary_ids(working@).contains(k));
                let mv = working@.map_values(|s: SessionSummary| s.id);
                let i = choose|i: int| 0 <= i < mv.len() && mv[i] == k;
                assert(working@[i].id == k);
            }
        }
        let mut top: Vec<(u64, String, u64, u64, u64)> = Vec::new();
        while top.len() < n && working.len() > 0
            invariant
                t@ == self.sessions(),
                distinct_ids(working@),
                forall|i: int| 0 <= i < working@.len() ==> summary_matches(t@, #[trigger] working@[i]),
                forall|k: u64| t@.contains_key(k) ==> (exists|i: int|
                    0 <= i < working@.len() && (#[trigger] working@[i]).id == k) || (exists|j: int|
                    0 <= j < top@.len() && (#[trigger] top@[j]).0 == k),
                forall|i: int, j: int| 0 <= i < working@.len() && 0 <= j < top@.len() ==> #[trigger] working@[i].id
                    != #[trigger] top@[j].0,
                top@.len() + working@.len() == t@.len(),
                top@.len() <= n,
                forall|i: int| 0 <= i < top@.len() ==> ranking_matches(t@, #[trigger] top@[i]),
                forall|i: int, j: int| 0 <= i < j < top@.len() ==> #[trigger] top@[i].0 != #[trigger] top@[j].0,
                forall|i: int, j: int| 0 <= i < j < top@.len() ==> #[trigger] top@[i].2 >= #[trigger] top@[j].2,
                forall|i: int, j: int|
                    0 <= i < top@.len() && 0 <= j < working@.len() ==> #[trigger] top@[i].2
                        >= #[trigger] working@[j].bytes_sent,
            decreases working@.len(),
        {
            let m = index_of_busiest(&working);
            let ghost w0 = working@;
            let ghost p0 = top@;
            let s = working.remove(m);
            top.push((s.id, s.addr, s.bytes_sent, s.bytes_recv, s.request_count));
            proof {
                assert(top@ == p0.push((w0[m as int].id, w0[m as int].addr, w0[m as int].bytes_sent, w0[m as int].bytes_recv, w0[m as int].request_count)));
                assert forall|i: int| 0 <= i < working@.len() implies summary_matches(t@, #[trigger] working@[i]) by {
                    let oi = if i < m { i } else { i + 1 };
                    assert(working@[i] == w0[oi]);
                }
                assert forall|i: int, j: int| 0 <= i < j < working@.len() implies #[trigger] working@[i].id
                    != #[trigger] working@[j].id by {
                    let oi = if i < m { i } else { i + 1 };
                    let oj = if j < m { j } else { j + 1 };
                    assert(working@[i] == w0[oi]);
                    assert(working@[j] == w0[oj]);
                }
                assert forall|i: int, j: int| 0 <= i < working@.len() && 0 <= j < top@.len() implies #[trigger] working@[i].id
                    != #[trigger] top@[j].0 by {
                    let oi = if i < m { i } else { i + 1 };
                    assert(working@[i] == w0[oi]);
                    if j == p0.len() {
                        assert(w0[oi].id != w0[m as int].id);
                    }
                }
                assert forall|k: u64| t@.contains_key(k) implies (exists|i: int|
                    0 <= i < working@.len() && (#[trigger] working@[i]).id == k) || (exists|j: int|
                    0 <= j < top@.len() && (#[trigger] top@[j]).0 == k) by {
                    if exists|j: int| 0 <= j < p0.len() && (#[trigger] p0[j]).0 == k {
                        let j = choose|j: int| 0 <= j < p0.len() && (#[trigger] p0[j]).0 == k;
                        assert(top@[j] == p0[j]);
                    } else {
                        let oi = choose|oi: int| 0 <= oi < w0.len() && (#[trigger] w0[oi]).id == k;
                        if oi == m {
                            assert(top@[p0.len() as int].0 == k);
                        } else {
                            let i = if oi < m { oi } else { oi - 1 };
                            assert(working@[i] == w0[oi]);
                        }
                    }
                }
                assert forall|i: int, j: int| 0 <= i < j < top@.len() implies #[trigger] top@[i].0
                    != #[trigger] top@[j].0 by {
                    if j == p0.len() {
                        assert(p0[i].0 != w0[m as int].id);
                    }
                }
                assert forall|i: int, j: int| 0 <= i < j < top@.len() implies #[trigger] top@[i].2
                    >= #[trigger] top@[j].2 by {
                    if j == p0.len() {
                        assert(p0[i].2 >= w0[m as int].bytes_sent);
                    }
                }
                assert forall|i: int, j: int|
                    0 <= i < top@.len() && 0 <= j < working@.len() implies #[trigger] top@[i].2
                        >= #[trigger] working@[j].bytes_sent by {
                    let oj = if j < m { j } else { j + 1 };
                    assert(working@[j] == w0[oj]);
                    if i < p0.len() {
                        assert(p0[i].2 >= w0[oj].bytes_sent);
                    }
                }
            }
        }
        proof {
            assert forall|i: int, k: u64|
                0 <= i < top@.len() && #[trigger] t@.contains_key(k) && (forall|j: int|
                    0 <= j < top@.len() ==> #[trigger] top@[j].0 != k) implies #[trigger] top@[i].2
                    >= t@[k].bytes_sent by {
                let w = choose|w: int| 0 <= w < working@.len() && (#[trigger] working@[w]).id == k;
                assert(top@[i].2 >= working@[w].bytes_sent);
            }
        }
        top
    }

    /// Removes every session idle for more than `idle_timeout_secs` at `now`,
    /// uncounting each connection; returns the ids kicked.
    pub fn kick_idle(&mut self, idle_timeout_secs: u64, now: u64, metrics: &mut Metrics) -> (kicked: Vec<u64>)
        ensures
            kicked@.no_duplicates(),
            kicked@.to_set() == idle_ids(old(self).sessions(), idle_timeout_secs, now),
            final(self).sessions() == old(self).sessions().remove_keys(
                idle_ids(old(self).sessions(), idle_timeout_secs, now),
            ),
            final(self).next_session_id() == old(self).next_session_id(),
            final(self).rate_limits() == old(self).rate_limits(),
            *final(metrics) == after_disconnects(*old(metrics), kicked@.len()),
    {
        let ghost t = self.sessions();
        let scan = session_table_scan(&self.sessions);
        let mut kicked: Vec<u64> = Vec::new();
        let mut i: usize = 0;
        proof {
            assert(t.remove_keys(Set::<u64>::empty()) =~= t);
            assert(kicked@.to_set() =~= Set::<u64>::empty());
        }
        while i < scan.len()
            invariant
                0 <= i <= scan@.len(),
                distinct_ids(scan@),
                forall|j: int| 0 <= j < scan@.len() ==> summary_matches(t, #[trigger] scan@[j]),
                summary_ids(scan@) == t.dom(),
                kicked@.no_duplicates(),
                forall|k: u64| kicked@.contains(k) <==> exists|j: int|
                    0 <= j < i && (#[trigger] scan@[j]).id == k && elapsed_secs(scan@[j].last_activity, now)
                        > idle_timeout_secs,
                self.sessions() == t.remove_keys(kicked@.to_set()),
                self.next_session_id() == old(self).next_session_id(),
                self.rate_limits() == old(self).rate_limits(),
                *metrics == after_disconnects(*old(metrics), kicked@.len()),
            decreases scan@.len() - i,
        {
            let s = &scan[i];
            let ghost k0 = kicked@;
            if idle_secs_since(s.last_activity, now) > idle_timeout_secs {
                proof {
                    assert(!k0.contains(s.id)) by {
                        if k0.contains(s.id) {
                            let j = choose|j: int|
                                0 <= j < i && (#[trigger] scan@[j]).id == s.id && elapsed_secs(
                                    scan@[j].last_activity,
                                    now,
                                ) > idle_timeout_secs;
                        }
                    }
                    assert(self.sessions().contains_key(s.id));
                }
                let removed = self.unregister(s.id, metrics);
                kicked.push(s.id);
                proof {
                    assert(kicked@ == k0.push(s.id));
                    k0.lemma_push_to_set_commute(s.id);
                    assert(self.sessions() =~= t.remove_keys(kicked@.to_set()));
                    assert forall|k: u64| kicked@.contains(k) <==> exists|j: int|
                        0 <= j < i + 1 && (#[trigger] scan@[j]).id == k && elapsed_secs(
                            scan@[j].last_activity,
                            now,
                        ) > idle_timeout_secs by {
                        if kicked@.contains(k) && k != s.id {
                            assert(k0.contains(k));
                        }
                        if k == s.id {
                            assert(kicked@[kicked@.len() - 1] == k);
                        }
                        if exists|j: int|
                            0 <= j < i + 1 && (#[trigger] scan@[j]).id == k && elapsed_secs(
                                scan@[j].last_activity,
                                now,
                            ) > idle_timeout_secs {
                            let j = choose|j: int|
                                0 <= j < i + 1 && (#[trigger] scan@[j]).id == k && elapsed_secs(
                                    scan@[j].last_activity,
                                    now,
                                ) > idle_timeout_secs;
                            if j < i {
                                assert(k0.contains(k));
                                let p = choose|p: int| 0 <= p < k0.len() && k0[p] == k;
                                assert(kicked@[p] == k);
                            } else {
                                assert(kicked@[kicked@.len() - 1] == k);
                            }
                        }
                    }
                }
            } else {
                proof {
                    assert forall|k: u64| kicked@.contains(k) <==> exists|j: int|
                        0 <= j < i + 1 && (#[trigger] scan@[j]).id == k && elapsed_secs(
                            scan@[j].last_activity,
                            now,
                        ) > idle_timeout_secs by {
                        if exists|j: int|
                            0 <= j < i + 1 && (#[trigger] scan@[j]).id == k && elapsed_secs(
                                scan@[j].last_activity,
                                now,
                            ) > idle_timeout_secs {
                            let j = choose|j: int|
                                0 <= j < i + 1 && (#[trigger] scan@[j]).id == k && elapsed_secs(
                                    scan@[j].last_activity,
                                    now,
                                ) > idle_timeout_secs;
                            assert(j < i);
                        }
                    }
                }
            }
            i = i + 1;
        }
        proof {
            assert(kicked@.to_set() =~= idle_ids(t, idle_timeout_secs, now)) by {
                assert forall|k: u64| kicked@.to_set().contains(k) <==> idle_ids(
                    t,
                    idle_timeout_secs,
                    now,
                ).contains(k) by {
                    if kicked@.contains(k) {
                        let j = choose|j: int|
                            0 <= j < i && (#[trigger] scan@[j]).id == k && elapsed_secs(
                                scan@[j].last_activity,
                                now,
                            ) > idle_timeout_secs;
                        assert(summary_matches(t, scan@[j]));
                    }
                    if idle_ids(t, idle_timeout_secs, now).contains(k) {
                        assert(summary_ids(scan@).contains(k));
                        let mv = scan@.map_values(|s: SessionSummary| s.id);
                        let j = choose|j: int| 0 <= j < mv.len() && mv[j] == k;
                        assert(scan@[j].id == k);
                        assert(summary_matches(t, scan@[j]));
                    }
                }
            }
        }
        kicked
    }
}

/// Whole seconds from `last` to `now` (nanoseconds).
fn idle_secs_since(last: u64, now: u64) -> (secs: u64)
    ensures
        secs == elapsed_secs(last, now),
{
    if now >= last {
        (now - last) / 1_000_000_000
    } else {
        0
    }
}

} // verus!

verus! {

/// Unregistering a session just registered under an unused id gives the
/// table back as it was.
pub proof fn lemma_unregister_undoes_register(t: Map<u64, SessionInfo>, id: u64, info: SessionInfo)
    requires
        !t.contains_key(id),
    ensures
        t.insert(id, info).remove(id) == t,
{
    assert(t.insert(id, info).remove(id) =~= t);
}

/// Kicking idle sessions leaves only sessions active within the timeout.
pub proof fn lemma_kick_idle_leaves_active(t: Map<u64, SessionInfo>, timeout: u64, now: u64, k: u64)
    requires
        t.remove_keys(idle_ids(t, timeout, now)).contains_key(k),
    ensures
        elapsed_secs(t[k].last_activity, now) <= timeout,
{
}

} // verus!

verus! {

/// Registering a session under an unused id counts one more active
/// connection: the counter keeps matching the number of open sessions.
pub proof fn lemma_register_keeps_active_count(active: i64, t: Map<u64, SessionInfo>, id: u64, info: SessionInfo)
    requires
        t.dom().finite(),
        active as int == t.len(),
        !t.contains_key(id),
        t.len() + 1 <= i64::MAX,
    ensures
        active.wrapping_add(1) as int == t.insert(id, info).len(),
{
    assert(t.insert(id, info).dom() =~= t.dom().insert(id));
}

/// Unregistering an open session counts one active connection less: the
/// counter keeps matching the number of open sessions.
pub proof fn lemma_unregister_keeps_active_count(active: i64, t: Map<u64, SessionInfo>, id: u64)
    requires
        t.dom().finite(),
        active as int == t.len(),
        t.contains_key(id),
    ensures
        active.wrapping_sub(1) as int == t.remove(id).len(),
{
    assert(t.remove(id).dom() =~= t.dom().remove(id));
}

} // verus!

verus! {

/// The id that call `i` (counting from 0) of `next_id` hands out, on a
/// manager whose next id was `start`: each call adds one, wrapping around.
pub open spec fn nth_id(start: u64, i: nat) -> u64
    decreases i,
{
    if i == 0 {
        start
    } else {
        nth_id(start, (i - 1) as nat).wrapping_add(1)
    }
}

/// A new manager hands out the ids 1, 2, 3, ...: call `i` gives `i + 1`, so
/// until the counter wraps around, the ids handed out are distinct and
/// increasing in the order of the calls.
pub proof fn lemma_ids_count_up(i: nat, j: nat)
    requires
        i < j,
        j < u64::MAX,
    ensures
        nth_id(1, i) == i + 1,
        nth_id(1, j) == j + 1,
        nth_id(1, i) < nth_id(1, j),
{
    lemma_nth_id_from_one(i);
    lemma_nth_id_from_one(j);
}

/// Call `i` of a new manager hands out `i + 1`.
proof fn lemma_nth_id_from_one(i: nat)
    requires
        i < u64::MAX,
    ensures
        nth_id(1, i) == i + 1,
    decreases i,
{
    if i > 0 {
        lemma_nth_id_from_one((i - 1) as nat);
    }
}

} // verus!

verus! {

/// Where a message of a session goes once it has been let in.
pub enum Route {
    /// Answer the key exchange (`SessionState::key_exchange`), sent as it is.
    KeyExchange,
    /// Answer the zoom handshake (`SessionManager::init_session`).
    Init,
    /// A data request: hand it to the handler.
    Data,
    /// Refused by the rate limit: nothing is sent, the connection stays.
    Refused,
}

/// Whether a command is a data request, as opposed to the key exchange or
/// the zoom handshake.
pub open spec fn is_data_command(command: i8) -> bool {
    command != cmd::GET_SESSION_ID && command != cmd::FREIGHT_INIT
}

/// The session after a message of `command` was let in at `now`: active at
/// `now`, and one request more when it is a data request.
pub open spec fn session_after_message(info: SessionInfo, command: i8, now: u64) -> SessionInfo {
    SessionInfo {
        last_activity: now,
        request_count: if is_data_command(command) {
            info.request_count.wrapping_add(1)
        } else {
            info.request_count
        },
        ..info
    }
}

impl SessionManager {
    /// Takes in a message of session `session_id`, from client address `addr`
    /// (its IP), at time `now`: decides whether the rate limit lets it in
    /// (counting a refusal), and if so marks the session active, counts a data
    /// request for the session, server-wide and by its command, and says
    /// where the message goes.
    pub fn accept(
        &mut self,
        session_id: u64,
        addr: &str,
        command: i8,
        now: u64,
        metrics: &mut Metrics,
    ) -> (route: Route)
        ensures
            !is_data_command(command) ==> final(self).rate_limits() == old(self).rate_limits(),
            is_data_command(command) ==> (
            final(self).rate_limits().memory(addr@),
            !(route is Refused),
            ) == limiter_step(
                old(self).rate_limits().max_requests(),
                old(self).rate_limits().window_secs(),
                old(self).rate_limits().memory(addr@),
                now,
            ),
            forall|other: Seq<char>|
                other != addr@ ==> #[trigger] final(self).rate_limits().memory(other) == old(
                    self,
                ).rate_limits().memory(other),
            final(self).rate_limits().max_requests() == old(self).rate_limits().max_requests(),
            final(self).rate_limits().window_secs() == old(self).rate_limits().window_secs(),
            final(self).next_session_id() == old(self).next_session_id(),
            route is Refused ==> final(self).sessions() == old(self).sessions() && *final(metrics) == (Metrics {
                rate_limited: old(metrics).rate_limited.wrapping_add(1),
                ..*old(metrics)
            }),
            !(route is Refused) ==> final(self).sessions() == replace_session(
                old(self).sessions(),
                session_id,
                session_after_message(old(self).sessions()[session_id], command, now),
            ),
            route is KeyExchange <==> command == cmd::GET_SESSION_ID,
            route is Init <==> command == cmd::FREIGHT_INIT,
            route is Data ==> *final(metrics) == cmd_counted(
                Metrics { total_requests: old(metrics).total_requests.wrapping_add(1), ..*old(metrics) },
                command,
            ),
            (route is KeyExchange || route is Init) ==> *final(metrics) == *old(metrics),
    {
        if !self.admit_at(addr, command, now, metrics) {
            return Route::Refused;
        }
        let ghost t0 = old(self).sessions();
        self.touch(session_id, now);
        if command == cmd::GET_SESSION_ID {
            Route::KeyExchange
        } else if command == cmd::FREIGHT_INIT {
            Route::Init
        } else {
            self.on_request(session_id, metrics);
            metrics.increment_cmd(command);
            proof {
                assert(self.sessions() =~= replace_session(
                    t0,
                    session_id,
                    session_after_message(t0[session_id], command, now),
                ));
            }
            Route::Data
        }
    }

    /// Answers the zoom handshake of session `session_id`: takes the zoom
    /// level the client asks for (0 keeps the default), records it for the
    /// session, and gives the reply (`FREIGHT_INIT` with the accepted zoom)
    /// and the screen width and height that the message carries.
    pub fn init_session(
        &mut self,
        state: &mut SessionState,
        session_id: u64,
        data: &[u8],
    ) -> (r: ((i8, Vec<u8>), i32, i32))
        ensures
            final(state).zoom_level == requested_zoom(data@, old(state).default_zoom),
            data@.len() > 0 && data@[0] != 0 ==> final(state).zoom_level == data@[0],
            data@.len() == 0 || data@[0] == 0 ==> final(state).zoom_level == old(state).default_zoom,
            r.0.0 == cmd::FREIGHT_INIT,
            r.0.1@ == seq![final(state).zoom_level],
            r.1 == int_at(data@, skip_pos(data@, 0, 1)),
            r.2 == int_at(data@, skip_pos(data@, skip_pos(data@, 0, 1), 4)),
            final(state).cipher == old(state).cipher,
            final(state).key_exchanged == old(state).key_exchanged,
            final(state).default_zoom == old(state).default_zoom,
            final(self).sessions() == replace_session(
                old(self).sessions(),
                session_id,
                SessionInfo { zoom_level: final(state).zoom_level, ..old(self).sessions()[session_id] },
            ),
            final(self).next_session_id() == old(self).next_session_id(),
            final(self).rate_limits() == old(self).rate_limits(),
    {
        let (ack, screen_w, screen_h) = state.freight_init(data);
        self.set_zoom(session_id, state.zoom_level);
        ((cmd::FREIGHT_INIT, ack), screen_w, screen_h)
    }

    /// Counts a client frame of session `session_id` received whole: the
    /// command byte, the two length bytes and `length` payload bytes.
    pub fn record_frame(&mut self, session_id: u64, length: usize, metrics: &mut Metrics)
        requires
            length + 3 <= u64::MAX,
        ensures
            final(self).sessions() == replace_session(
                old(self).sessions(),
                session_id,
                SessionInfo {
                    bytes_recv: old(self).sessions()[session_id].bytes_recv.wrapping_add((length + 3) as u64),
                    ..old(self).sessions()[session_id]
                },
            ),
            *final(metrics) == (Metrics {
                bytes_recv: old(metrics).bytes_recv.wrapping_add((length + 3) as u64),
                ..*old(metrics)
            }),
            final(self).next_session_id() == old(self).next_session_id(),
            final(self).rate_limits() == old(self).rate_limits(),
    {
        self.add_bytes_recv(session_id, 3 + length as u64, metrics);
    }
}

} // verus!
