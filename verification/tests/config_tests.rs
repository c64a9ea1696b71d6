use freight::config::{default_host, default_zoom, FreightConfig, PathsConfig};

fn defaults() -> FreightConfig {
    FreightConfig::default()
}

#[test]
fn default_config_values() {
    let c = defaults();
    assert_eq!(c.server.host, "0.0.0.0");
    assert_eq!(c.server.port, 14450);
    assert_eq!(c.server.max_connections, 10000);
    assert_eq!(c.server.default_zoom, 1);
    assert_eq!(c.server.idle_timeout_secs, Some(300));
    assert_eq!(c.server.max_cache_mb, Some(512));
    assert_eq!(c.server.stats_interval_secs, Some(60));
    assert_eq!(c.paths.base_dir, "./data");
    assert_eq!(c.paths.icon, "{base}/x{zoom}/icon/{id}.png");
    assert_eq!(c.paths.bgitem_version, "{base}/x{zoom}/bgitem_version.dat");
    assert_eq!(default_host(), "0.0.0.0");
    assert_eq!(default_zoom(), 1);
}

#[test]
fn bind_address_is_host_colon_port() {
    let mut c = defaults();
    assert_eq!(c.bind_addr(), "0.0.0.0:14450");
    c.server.host = "127.0.0.1".to_string();
    c.server.port = 80;
    assert_eq!(c.bind_addr(), "127.0.0.1:80");
}

#[test]
fn asset_paths_fill_in_the_templates() {
    let p: PathsConfig = defaults().paths;
    assert_eq!(p.icon_path(2, 5), "./data/x2/icon/5.png");
    assert_eq!(p.effect_path(1, -3), "./data/x1/effectdata/-3.dat");
    assert_eq!(p.map_path(4, 12), "./data/x4/map/12.dat");
    assert_eq!(p.npc_path(3, 0), "./data/x3/npc/0.dat");
    assert_eq!(p.background_path(1, 7), "./data/x1/bg/7.png");
    assert_eq!(p.tileset_path(2, 9), "./data/x2/tileset/9.dat");
    assert_eq!(p.image_source_path(4), "./data/x4/imagesource.dat");
    assert_eq!(p.image_source2_path(4), "./data/x4/imagesource2.dat");
    assert_eq!(p.smallimage_version_path(2), "./data/x2/smallimage_version.dat");
    assert_eq!(p.bgitem_version_path(1), "./data/x1/bgitem_version.dat");
}

#[test]
fn resolve_replaces_every_occurrence_and_leaves_id_without_one() {
    let p = defaults().paths;
    assert_eq!(p.resolve("{base}/{base}", 1, None), "./data/./data");
    assert_eq!(p.resolve("{zoom}{zoom}/{id}", 255, None), "255255/{id}");
    assert_eq!(p.resolve("{id}-{id}", 1, Some(i32::MIN)), "-2147483648--2147483648");
    assert_eq!(p.resolve("plain", 1, Some(3)), "plain");
}
