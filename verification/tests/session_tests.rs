use freight::handler::{Handler, Outcome, Request};
use freight::config::FreightConfig;
use freight::protocol::cmd;
use freight::protocol::{Cipher, Message};
use freight::session::{RateLimiter, SessionState};
use freight::session_mgr::{Route, SessionInfo, SessionManager};
use freight::clock::Clock;
use freight::metrics::Metrics;

const SEC: u64 = 1_000_000_000;

#[test]
fn key_exchange_goes_out_in_the_clear_then_encrypts() {
    let mut s = SessionState::new(1);
    let packet = s.key_exchange_with(&[1, 2, 3]);
    assert_eq!(packet, vec![229, 0, 11, 3, 1, 2, 3, 0, 0, 0, 0, 0, 0, 0]);
    assert!(s.key_exchanged);
    // chained key [1, 3, 0]
    let p = s.encode_response(cmd::REQUEST_MAPTEMPLATE, &[7]);
    assert_eq!(p, vec![11, 3, 1, 6]);
    let mut client = Cipher::new();
    client.set_key_from_raw(&[1, 2, 3]);
    assert_eq!(client.decrypt_bytes(&p), vec![10, 0, 1, 7]);
}

#[test]
fn fresh_key_exchange_sends_a_32_byte_key() {
    let mut s = SessionState::new(1);
    let packet = s.key_exchange();
    assert_eq!(&packet[..4], &[229, 0, 40, 32]);
    assert_eq!(packet.len(), 43);
    assert!(s.cipher.is_ready());
}

#[test]
fn client_frames_decode_after_the_key_exchange() {
    let mut s = SessionState::new(1);
    s.key_exchange_with(&[1, 2, 3]);
    let mut client = Cipher::new();
    client.set_key_from_raw(&[1, 2, 3]);
    let frame = client.encrypt_bytes(&[10, 0, 1, 9]);
    assert_eq!(s.decode_command(frame[0] as i8), 10);
    assert_eq!(s.decode_length(frame[1], frame[2]), 1);
    assert_eq!(s.decode_payload(&frame[3..]), vec![9]);
}

#[test]
fn frames_before_the_key_exchange_are_plain_with_little_endian_length() {
    let mut s = SessionState::new(1);
    assert_eq!(s.decode_command(-27), -27);
    assert_eq!(s.decode_length(5, 1), 261);
    assert_eq!(s.decode_payload(&[4, 5]), vec![4, 5]);
}

#[test]
fn freight_init_sets_the_zoom_or_keeps_the_default() {
    let mut s = SessionState::new(1);
    let (ack, w, h) = s.freight_init(&[2, 0, 0, 3, 32, 0, 0, 2, 88]);
    assert_eq!(ack, vec![2]);
    assert_eq!((w, h), (800, 600));
    assert_eq!(s.zoom_level, 2);
    let (ack, w, h) = s.freight_init(&[0]);
    assert_eq!(ack, vec![1]);
    assert_eq!((w, h), (0, 0));
    assert_eq!(s.zoom_level, 1);
}

#[test]
fn rate_limit_allows_200_requests_per_10_seconds() {
    let mut mgr = SessionManager::new();
    let mut m = Metrics::new_at(0);
    let t = 100 * SEC;
    for i in 0..200u64 {
        assert!(mgr.admit_at("10.0.0.1", cmd::REQUEST_ICON, t + i, &mut m));
    }
    assert!(!mgr.admit_at("10.0.0.1", cmd::REQUEST_ICON, t + 500, &mut m));
    assert_eq!(m.rate_limited, 1);
    // the handshake commands are never limited
    assert!(mgr.admit_at("10.0.0.1", cmd::FREIGHT_INIT, t + 600, &mut m));
    assert!(mgr.admit_at("10.0.0.1", cmd::GET_SESSION_ID, t + 700, &mut m));
    // once the window has passed, requests go through again
    assert!(mgr.admit_at("10.0.0.1", cmd::REQUEST_ICON, t + 10 * SEC + 200, &mut m));
    assert!(mgr.admit_now("10.0.0.1", cmd::FREIGHT_INIT, &Clock::start(), &mut m));
    assert_eq!(m.rate_limited, 1);
}

#[test]
fn the_rate_limit_is_per_client_address() {
    let mut mgr = SessionManager::new();
    let mut m = Metrics::new_at(0);
    let a = mgr.register("10.0.0.1:4000".to_string(), 0, &mut m);
    let b = mgr.register("10.0.0.1:4001".to_string(), 0, &mut m);
    assert_ne!(a, b);
    // two connections from one address share its limit
    for i in 0..200u64 {
        assert!(mgr.admit_at("10.0.0.1", cmd::GET_EFFDATA, SEC + i, &mut m));
    }
    assert!(!mgr.admit_at("10.0.0.1", cmd::GET_EFFDATA, SEC + 300, &mut m));
    // another address has a limit of its own
    assert!(mgr.admit_at("10.0.0.2", cmd::GET_EFFDATA, SEC + 400, &mut m));
    assert_eq!(m.rate_limited, 1);
}

#[test]
fn rate_limiter_forgets_old_requests() {
    let mut r = RateLimiter::new(2, 1);
    assert!(r.check_at(10 * SEC));
    assert!(r.check_at(10 * SEC + 1));
    assert!(!r.check_at(10 * SEC + 2));
    // at 11 s + 1 ns the window starts at 10 s + 1 ns: both are forgotten
    assert!(r.check_at(11 * SEC + 1));
    assert!(r.check_at(11 * SEC + 1));
    assert!(!r.check_at(11 * SEC + 1));
    let clock = Clock::start();
    let mut fresh = RateLimiter::new(2, 1);
    assert!(fresh.check(&clock));
    assert!(fresh.check(&clock));
}

#[test]
fn handler_answers_found_and_missing_files() {
    let h = Handler::new(FreightConfig::default());
    let msg = Message::new(cmd::REQUEST_ICON, vec![0, 0, 0, 7]);
    let (req, path) = h.begin(&msg, 2);
    assert!(matches!(req, Request::Icon(7)));
    assert_eq!(path.as_deref(), Some("./data/x2/icon/7.png"));
    let (out, outcome) = Handler::finish(&req, Some(vec![1, 2, 3]));
    assert_eq!(out, vec![(cmd::REQUEST_ICON, vec![1, 2, 3])]);
    assert!(matches!(outcome, Outcome::Found));
    let (out, outcome) = Handler::finish(&req, None);
    assert_eq!(out, vec![(cmd::REQUEST_ICON, vec![0, 0, 0, 7, 0])]);
    assert!(matches!(outcome, Outcome::NotFound));
}

#[test]
fn handler_fallbacks_per_command() {
    let (out, _) = Handler::finish(&Request::EffData(-2), None);
    assert_eq!(out, vec![(cmd::GET_EFFDATA, vec![0xFF, 0xFE, 0])]);
    let (out, _) = Handler::finish(&Request::MapTemplate(5), None);
    assert_eq!(out, vec![(cmd::REQUEST_MAPTEMPLATE, vec![5, 0])]);
    let (out, _) = Handler::finish(&Request::NpcTemplate(-1), None);
    assert_eq!(out, vec![(cmd::REQUEST_NPCTEMPLATE, vec![255, 0])]);
    let (out, outcome) = Handler::finish(&Request::ImageSource, None);
    assert_eq!(out, vec![(cmd::GET_IMAGE_SOURCE, vec![])]);
    assert!(matches!(outcome, Outcome::NotFound));
    let (out, _) = Handler::finish(&Request::TileSet(3), None);
    assert_eq!(out, vec![(cmd::TILE_SET, vec![])]);
}

#[test]
fn handler_version_requests_always_answer() {
    let (out, outcome) = Handler::finish(&Request::SmallImageVersion, Some(vec![0, 0, 0, 9]));
    assert_eq!(out, vec![(cmd::SMALLIMAGE_VERSION, vec![0, 0, 0, 9])]);
    assert!(matches!(outcome, Outcome::Found));
    let (out, outcome) = Handler::finish(&Request::BgItemVersion, None);
    assert_eq!(out, vec![(cmd::BGITEM_VERSION, vec![0, 0, 0, 0])]);
    assert!(matches!(outcome, Outcome::Found));
}

#[test]
fn handler_ignores_unknown_commands() {
    let h = Handler::new(FreightConfig::default());
    let msg = Message::empty(55);
    let (req, path) = h.begin(&msg, 1);
    assert!(matches!(req, Request::Unknown(55)));
    assert!(path.is_none());
    let (out, outcome) = Handler::finish(&req, None);
    assert!(out.is_empty());
    assert!(matches!(outcome, Outcome::Unanswered));
}

#[test]
fn handler_decodes_ids_and_paths() {
    let h = Handler::new(FreightConfig::default());
    let (req, path) = h.begin(&Message::new(cmd::GET_EFFDATA, vec![0x01, 0x00]), 1);
    assert!(matches!(req, Request::EffData(256)));
    assert_eq!(path.as_deref(), Some("./data/x1/effectdata/256.dat"));
    let (req, path) = h.begin(&Message::new(cmd::BACKGROUND_TEMPLATE, vec![0xFE]), 3);
    assert!(matches!(req, Request::Background(-2)));
    assert_eq!(path.as_deref(), Some("./data/x3/bg/-2.png"));
    let (_, path) = h.begin(&Message::empty(cmd::BGITEM_VERSION), 2);
    assert_eq!(path.as_deref(), Some("./data/x2/bgitem_version.dat"));
}

#[test]
fn sessions_register_count_and_unregister() {
    let mut mgr = SessionManager::new();
    let mut m = Metrics::new_at(0);
    let a = mgr.register("1.2.3.4:5".to_string(), 100, &mut m);
    let b = mgr.register("5.6.7.8:9".to_string(), 100, &mut m);
    assert_eq!((a, b), (1, 2));
    assert_eq!(mgr.active_count(), 2);
    assert_eq!(m.active_connections, 2);
    mgr.set_zoom(a, 4);
    mgr.on_request(a, &mut m);
    mgr.on_request_ok(a, &mut m);
    mgr.on_request_not_found(a, &mut m);
    mgr.add_bytes_recv(a, 7, &mut m);
    let info: SessionInfo = mgr.unregister(a, &mut m).unwrap();
    assert_eq!(info.addr, "1.2.3.4:5");
    assert_eq!(info.zoom_level, 4);
    assert_eq!((info.request_count, info.requests_ok, info.requests_not_found), (1, 1, 1));
    assert_eq!(info.bytes_recv, 7);
    assert_eq!(m.bytes_recv, 7);
    assert_eq!(m.active_connections, 1);
    assert!(mgr.unregister(a, &mut m).is_none());
    assert_eq!(m.active_connections, 1);
    assert_eq!(mgr.next_id(), 3);
}

#[test]
fn top_sessions_by_bytes_sent() {
    let mut mgr = SessionManager::new();
    let mut m = Metrics::new_at(0);
    let a = mgr.register("a".to_string(), 0, &mut m);
    let b = mgr.register("b".to_string(), 0, &mut m);
    let c = mgr.register("c".to_string(), 0, &mut m);
    mgr.add_bytes_sent(a, 500, &mut m);
    mgr.add_bytes_sent(b, 900, &mut m);
    mgr.add_bytes_sent(c, 100, &mut m);
    assert_eq!(m.bytes_sent, 1500);
    let top = mgr.top_by_bandwidth(2);
    assert_eq!(top, vec![(b, "b".to_string(), 900, 0, 0), (a, "a".to_string(), 500, 0, 0)]);
    assert_eq!(mgr.top_by_bandwidth(10).len(), 3);
    assert!(mgr.top_by_bandwidth(0).is_empty());
}

#[test]
fn idle_sessions_are_kicked() {
    let mut mgr = SessionManager::new();
    let mut m = Metrics::new_at(0);
    let a = mgr.register("a".to_string(), 0, &mut m);
    let b = mgr.register("b".to_string(), 0, &mut m);
    mgr.touch(a, 5 * SEC);
    let kicked = mgr.kick_idle(10, 11 * SEC, &mut m);
    assert_eq!(kicked, vec![b]);
    assert_eq!(mgr.active_count(), 1);
    assert_eq!(m.active_connections, 1);
    assert!(mgr.kick_idle(10, 12 * SEC, &mut m).is_empty());
}

#[test]
fn session_info_times() {
    let info = SessionInfo::new(9, "x".to_string(), 2 * SEC);
    assert_eq!(info.duration_secs_at(5 * SEC), 3);
    assert_eq!(info.idle_secs_at(SEC), 0);
}

#[test]
fn outcomes_are_counted_per_session_and_server_wide() {
    let mut mgr = SessionManager::new();
    let mut m = Metrics::new_at(0);
    let a = mgr.register("a".to_string(), 0, &mut m);
    mgr.record_outcome(a, &Outcome::Found, &mut m);
    mgr.record_outcome(a, &Outcome::Found, &mut m);
    mgr.record_outcome(a, &Outcome::NotFound, &mut m);
    mgr.record_outcome(a, &Outcome::Unanswered, &mut m);
    assert_eq!((m.requests_ok, m.requests_not_found), (2, 1));
    let info = mgr.unregister(a, &mut m).unwrap();
    assert_eq!((info.requests_ok, info.requests_not_found), (2, 1));
    assert_eq!(m.peak_connections, 1);
}

#[test]
fn no_window_ever_holds_more_than_the_limit() {
    let mut r = RateLimiter::new(3, 2);
    let mut accepted: Vec<u64> = Vec::new();
    // a burst, a pause, and a steady stream, at non-decreasing times
    let mut times: Vec<u64> = vec![SEC, SEC, SEC + 5, SEC + 9, 2 * SEC, 3 * SEC + 1];
    for i in 0..20u64 {
        times.push(4 * SEC + i * (SEC / 4));
    }
    for &t in &times {
        if r.check_at(t) {
            accepted.push(t);
        }
    }
    for &end in &times {
        let start = end as i128 - 2 * SEC as i128;
        let in_window = accepted.iter().filter(|&&a| a as i128 > start && a <= end).count();
        assert!(in_window <= 3);
    }
    assert_eq!(&accepted[..3], &[SEC, SEC, SEC + 5]);
    assert!(accepted.len() > 3);
}

#[test]
fn a_window_reaching_before_the_clock_start_keeps_every_request() {
    let mut r = RateLimiter::new(2, 10);
    assert!(r.check_at(0));
    assert!(r.check_at(0));
    assert!(!r.check_at(0));
    assert!(!r.check_at(3 * SEC));
    assert!(r.check_at(10 * SEC));
}

#[test]
fn ids_count_up_from_one() {
    let mut mgr = SessionManager::new();
    assert_eq!((mgr.next_id(), mgr.next_id(), mgr.next_id()), (1, 2, 3));
}

#[test]
fn the_clock_never_goes_back() {
    let clock = Clock::start();
    let a = clock.now_nanos();
    let b = clock.now_nanos();
    assert!(a <= b);
}

#[test]
fn accepted_messages_are_routed_and_counted() {
    let mut mgr = SessionManager::new();
    let mut m = Metrics::new_at(0);
    let id = mgr.register("10.1.1.1:7".to_string(), 0, &mut m);
    assert!(matches!(mgr.accept(id, "10.1.1.1", cmd::GET_SESSION_ID, 5, &mut m), Route::KeyExchange));
    assert!(matches!(mgr.accept(id, "10.1.1.1", cmd::FREIGHT_INIT, 6, &mut m), Route::Init));
    assert_eq!(m.total_requests, 0);
    assert!(matches!(mgr.accept(id, "10.1.1.1", cmd::REQUEST_ICON, 7, &mut m), Route::Data));
    assert!(matches!(mgr.accept(id, "10.1.1.1", cmd::GET_IMAGE_SOURCE2, 8, &mut m), Route::Data));
    assert_eq!((m.total_requests, m.cmd_icon, m.cmd_image_source), (2, 1, 1));
    mgr.record_frame(id, 4, &mut m);
    assert_eq!(m.bytes_recv, 7);
    let info = mgr.unregister(id, &mut m).unwrap();
    assert_eq!((info.last_activity, info.request_count, info.bytes_recv), (8, 2, 7));
}

#[test]
fn refused_messages_are_counted_and_leave_the_session_alone() {
    let mut mgr = SessionManager::new();
    let mut m = Metrics::new_at(0);
    let id = mgr.register("10.1.1.2:7".to_string(), 0, &mut m);
    for i in 0..200u64 {
        assert!(matches!(mgr.accept(id, "10.1.1.2", cmd::TILE_SET, SEC + i, &mut m), Route::Data));
    }
    assert!(matches!(mgr.accept(id, "10.1.1.2", cmd::TILE_SET, 2 * SEC, &mut m), Route::Refused));
    assert_eq!((m.rate_limited, m.total_requests, m.cmd_tileset), (1, 200, 200));
    let info = mgr.unregister(id, &mut m).unwrap();
    assert_eq!(info.last_activity, SEC + 199);
}

#[test]
fn the_zoom_handshake_is_recorded_for_the_session() {
    let mut mgr = SessionManager::new();
    let mut m = Metrics::new_at(0);
    let id = mgr.register("10.1.1.3:7".to_string(), 0, &mut m);
    let mut s = SessionState::new(1);
    let (reply, w, h) = mgr.init_session(&mut s, id, &[3, 0, 0, 1, 0, 0, 0, 0, 200]);
    assert_eq!(reply, (cmd::FREIGHT_INIT, vec![3]));
    assert_eq!((w, h), (256, 200));
    assert_eq!(mgr.unregister(id, &mut m).unwrap().zoom_level, 3);
}
