use freight::clock::Clock;
use freight::metrics::Metrics;
use freight::protocol::cmd;

#[test]
fn uptime_text_leaves_out_leading_zero_units() {
    assert_eq!(Metrics::fmt_uptime(0), "0s");
    assert_eq!(Metrics::fmt_uptime(59), "59s");
    assert_eq!(Metrics::fmt_uptime(61), "1m 1s");
    assert_eq!(Metrics::fmt_uptime(3600), "1h 0m 0s");
    assert_eq!(Metrics::fmt_uptime(3661), "1h 1m 1s");
    assert_eq!(Metrics::fmt_uptime(90061), "1d 1h 1m 1s");
}

#[test]
fn connections_track_the_peak() {
    let mut m = Metrics::new_at(0);
    m.on_connect();
    m.on_connect();
    m.on_disconnect();
    m.on_connect();
    m.on_connect();
    assert_eq!(m.total_connections, 4);
    assert_eq!(m.active_connections, 3);
    assert_eq!(m.peak_connections, 3);
    m.on_disconnect();
    assert_eq!(m.peak_connections, 3);
    assert_eq!(m.active_connections, 2);
}

#[test]
fn counters_add_up() {
    let mut m = Metrics::new_at(0);
    m.add_bytes_sent(10);
    m.add_bytes_sent(5);
    m.add_bytes_recv(3);
    m.on_request();
    m.on_request_ok();
    m.on_request_not_found();
    m.on_cache_hit();
    m.on_cache_miss();
    m.on_cache_miss();
    m.on_rate_limited();
    assert_eq!(m.bytes_sent, 15);
    assert_eq!(m.bytes_recv, 3);
    assert_eq!(m.total_requests, 1);
    assert_eq!(m.requests_ok, 1);
    assert_eq!(m.requests_not_found, 1);
    assert_eq!(m.cache_hits, 1);
    assert_eq!(m.cache_misses, 2);
    assert_eq!(m.rate_limited, 1);
}

#[test]
fn counters_wrap_around() {
    let mut m = Metrics::new_at(0);
    m.bytes_sent = u64::MAX;
    m.add_bytes_sent(2);
    assert_eq!(m.bytes_sent, 1);
}

#[test]
fn per_command_counters() {
    let mut m = Metrics::new_at(0);
    m.increment_cmd(cmd::REQUEST_ICON);
    m.increment_cmd(cmd::GET_IMAGE_SOURCE);
    m.increment_cmd(cmd::GET_IMAGE_SOURCE2);
    m.increment_cmd(cmd::TILE_SET);
    m.increment_cmd(cmd::SMALLIMAGE_VERSION);
    assert_eq!(m.cmd_icon, 1);
    assert_eq!(m.cmd_image_source, 2);
    assert_eq!(m.cmd_tileset, 1);
    assert_eq!(m.cmd_effdata + m.cmd_map + m.cmd_npc + m.cmd_background, 0);
}

#[test]
fn uptime_from_start_time() {
    let mut m = Metrics::new_at(0);
    m.start_time = 1_000_000_000;
    assert_eq!(m.uptime_secs_at(3_500_000_000), 2);
    assert_eq!(m.uptime_secs_at(0), 0);
    assert!(Metrics::new(&Clock::start()).uptime_secs(&Clock::start()) < 5);
    assert_eq!(Metrics::per_second(100, 0), 0);
    assert_eq!(Metrics::per_second(100, 30), 3);
}

#[test]
fn counters_start_at_the_given_time() {
    let m = Metrics::new_at(7 * 1_000_000_000);
    assert_eq!(m.start_time, 7_000_000_000);
    assert_eq!(m.uptime_secs_at(9_500_000_000), 2);
    assert_eq!(m.total_requests, 0);
}
