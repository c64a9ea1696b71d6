//! Server configuration and the path templates of the asset files.
//! Reading `config.yml` is the application's part; it hands the parsed
//! values to these types.

use vstd::prelude::*;
use vstd::string::StringExecFns;
use crate::text::{decimal, decimal_int, replace, replace_all, i64_to_string, u64_to_string};

verus! {

#[derive(Clone)]
pub struct FreightConfig {
    pub server: ServerConfig,
    pub paths: PathsConfig,
}

#[derive(Clone)]
pub struct ServerConfig {
    /// Bind address.
    pub host: String,
    /// Listen port.
    pub port: u16,
    /// Max concurrent connections.
    pub max_connections: usize,
    /// Zoom level used until the client sends its own.
    pub default_zoom: u8,
    /// Idle timeout (seconds): sessions without activity are kicked.
    pub idle_timeout_secs: Option<u64>,
    /// Max cache size in MB (0 = unlimited).
    pub max_cache_mb: Option<u64>,
    /// Interval for periodic stats logging (seconds).
    pub stats_interval_secs: Option<u64>,
}

/// Path templates; `{base}`, `{zoom}` and `{id}` are filled in at run time.
#[derive(Clone)]
pub struct PathsConfig {
    /// Root directory of the asset data.
    pub base_dir: String,
    pub icon: String,
    pub effect: String,
    pub map: String,
    pub npc: String,
    pub background: String,
    pub tileset: String,
    /// Image source (no `{id}`).
    pub image_source: String,
    pub image_source2: String,
    pub smallimage_version: String,
    pub bgitem_version: String,
}

pub fn default_host() -> (s: String)
    ensures
        s@ == "0.0.0.0"@,
{
    String::from_str("0.0.0.0")
}

pub fn default_port() -> (p: u16)
    ensures
        p == 14450,
{
    14450
}

pub fn default_max_connections() -> (n: usize)
    ensures
        n == 10000,
{
    10000
}

pub fn default_zoom() -> (z: u8)
    ensures
        z == 1,
{
    1
}

pub fn default_base_dir() -> (s: String)
    ensures
        s@ == "./data"@,
{
    String::from_str("./data")
}

pub fn default_icon_path() -> (s: String)
    ensures
        s@ == "{base}/x{zoom}/icon/{id}.png"@,
{
    String::from_str("{base}/x{zoom}/icon/{id}.png")
}

pub fn default_effect_path() -> (s: String)
    ensures
        s@ == "{base}/x{zoom}/effectdata/{id}.dat"@,
{
    String::from_str("{base}/x{zoom}/effectdata/{id}.dat")
}

pub fn default_map_path() -> (s: String)
    ensures
        s@ == "{base}/x{zoom}/map/{id}.dat"@,
{
    String::from_str("{base}/x{zoom}/map/{id}.dat")
}

pub fn default_npc_path() -> (s: String)
    ensures
        s@ == "{base}/x{zoom}/npc/{id}.dat"@,
{
    String::from_str("{base}/x{zoom}/npc/{id}.dat")
}

pub fn default_background_path() -> (s: String)
    ensures
        s@ == "{base}/x{zoom}/bg/{id}.png"@,
{
    String::from_str("{base}/x{zoom}/bg/{id}.png")
}

pub fn default_tileset_path() -> (s: String)
    ensures
        s@ == "{base}/x{zoom}/tileset/{id}.dat"@,
{
    String::from_str("{base}/x{zoom}/tileset/{id}.dat")
}

pub fn default_image_source_path() -> (s: String)
    ensures
        s@ == "{base}/x{zoom}/imagesource.dat"@,
{
    String::from_str("{base}/x{zoom}/imagesource.dat")
}

pub fn default_image_source2_path() -> (s: String)
    ensures
        s@ == "{base}/x{zoom}/imagesource2.dat"@,
{
    String::from_str("{base}/x{zoom}/imagesource2.dat")
}

pub fn default_smallimage_path() -> (s: String)
    ensures
        s@ == "{base}/x{zoom}/smallimage_version.dat"@,
{
    String::from_str("{base}/x{zoom}/smallimage_version.dat")
}

pub fn default_bgitem_path() -> (s: String)
    ensures
        s@ == "{base}/x{zoom}/bgitem_version.dat"@,
{
    String::from_str("{base}/x{zoom}/bgitem_version.dat")
}

impl FreightConfig {
    /// Bind address as `host:port`.
    pub fn bind_addr(&self) -> (s: String)
        ensures
            s@ == self.server.host@ + ":"@ + decimal(self.server.port as nat),
    {
        let port = u64_to_string(self.server.port as u64);
        let mut s = self.server.host.clone();
        s.append(":");
        s.append(port.as_str());
        s
    }
}

impl Default for FreightConfig {
    fn default() -> (c: Self)
        ensures
            c.server.host@ == "0.0.0.0"@,
            c.server.port == 14450,
            c.server.max_connections == 10000,
            c.server.default_zoom == 1,
            c.server.idle_timeout_secs == Some(300u64),
            c.server.max_cache_mb == Some(512u64),
            c.server.stats_interval_secs == Some(60u64),
            c.paths.base_dir@ == "./data"@,
            c.paths.icon@ == "{base}/x{zoom}/icon/{id}.png"@,
            c.paths.effect@ == "{base}/x{zoom}/effectdata/{id}.dat"@,
            c.paths.map@ == "{base}/x{zoom}/map/{id}.dat"@,
            c.paths.npc@ == "{base}/x{zoom}/npc/{id}.dat"@,
            c.paths.background@ == "{base}/x{zoom}/bg/{id}.png"@,
            c.paths.tileset@ == "{base}/x{zoom}/tileset/{id}.dat"@,
            c.paths.image_source@ == "{base}/x{zoom}/imagesource.dat"@,
            c.paths.image_source2@ == "{base}/x{zoom}/imagesource2.dat"@,
            c.paths.smallimage_version@ == "{base}/x{zoom}/smallimage_version.dat"@,
            c.paths.bgitem_version@ == "{base}/x{zoom}/bgitem_version.dat"@,
    {
        FreightConfig {
            server: ServerConfig {
                host: default_host(),
                port: default_port(),
                max_connections: default_max_connections(),
                default_zoom: default_zoom(),
                idle_timeout_secs: Some(300),
                max_cache_mb: Some(512),
                stats_interval_secs: Some(60),
            },
            paths: PathsConfig {
                base_dir: default_base_dir(),
                icon: default_icon_path(),
                effect: default_effect_path(),
                map: default_map_path(),
                npc: default_npc_path(),
                background: default_background_path(),
                tileset: default_tileset_path(),
                image_source: default_image_source_path(),
                image_source2: default_image_source2_path(),
                smallimage_version: default_smallimage_path(),
                bgitem_version: default_bgitem_path(),
            },
        }
    }
}

/// A path template filled in: `{base}` by the base directory, then `{zoom}`
/// by the zoom level, then (when an id is given) `{id}` by the id, each in decimal.
pub open spec fn resolve_pattern(pattern: Seq<char>, base: Seq<char>, zoom: u8, id: Option<i32>) -> Seq<char> {
    let p = replace_all(replace_all(pattern, "{base}"@, base), "{zoom}"@, decimal(zoom as nat));
    match id {
        Some(i) => replace_all(p, "{id}"@, decimal_int(i as int)),
        None => p,
    }
}

impl PathsConfig {
    pub fn resolve(&self, pattern: &str, zoom: u8, id: Option<i32>) -> (path: String)
        ensures
            path@ == resolve_pattern(pattern@, self.base_dir@, zoom, id),
    {
        proof {
            reveal_strlit("{base}");
            reveal_strlit("{zoom}");
            reveal_strlit("{id}");
        }
        let zoom_text = u64_to_string(zoom as u64);
        let with_base = replace(pattern, "{base}", self.base_dir.as_str());
        let mut path = replace(with_base.as_str(), "{zoom}", zoom_text.as_str());
        if let Some(id_val) = id {
            let id_text = i64_to_string(id_val as i64);
            path = replace(path.as_str(), "{id}", id_text.as_str());
        }
        path
    }

    pub fn icon_path(&self, zoom: u8, id: i32) -> (path: String)
        ensures
            path@ == resolve_pattern(self.icon@, self.base_dir@, zoom, Some(id)),
    {
        self.resolve(self.icon.as_str(), zoom, Some(id))
    }

    pub fn effect_path(&self, zoom: u8, id: i32) -> (path: String)
        ensures
            path@ == resolve_pattern(self.effect@, self.base_dir@, zoom, Some(id)),
    {
        self.resolve(self.effect.as_str(), zoom, Some(id))
    }

    pub fn map_path(&self, zoom: u8, id: i32) -> (path: String)
        ensures
            path@ == resolve_pattern(self.map@, self.base_dir@, zoom, Some(id)),
    {
        self.resolve(self.map.as_str(), zoom, Some(id))
    }

    pub fn npc_path(&self, zoom: u8, id: i32) -> (path: String)
        ensures
            path@ == resolve_pattern(self.npc@, self.base_dir@, zoom, Some(id)),
    {
        self.resolve(self.npc.as_str(), zoom, Some(id))
    }

    pub fn background_path(&self, zoom: u8, id: i32) -> (path: String)
        ensures
            path@ == resolve_pattern(self.background@, self.base_dir@, zoom, Some(id)),
    {
        self.resolve(self.background.as_str(), zoom, Some(id))
    }

    pub fn tileset_path(&self, zoom: u8, id: i32) -> (path: String)
        ensures
            path@ == resolve_pattern(self.tileset@, self.base_dir@, zoom, Some(id)),
    {
        self.resolve(self.tileset.as_str(), zoom, Some(id))
    }

    pub fn image_source_path(&self, zoom: u8) -> (path: String)
        ensures
            path@ == resolve_pattern(self.image_source@, self.base_dir@, zoom, None),
    {
        self.resolve(self.image_source.as_str(), zoom, None)
    }

    pub fn image_source2_path(&self, zoom: u8) -> (path: String)
        ensures
            path@ == resolve_pattern(self.image_source2@, self.base_dir@, zoom, None),
    {
        self.resolve(self.image_source2.as_str(), zoom, None)
    }

    pub fn smallimage_version_path(&self, zoom: u8) -> (path: String)
        ensures
            path@ == resolve_pattern(self.smallimage_version@, self.base_dir@, zoom, None),
    {
        self.resolve(self.smallimage_version.as_str(), zoom, None)
    }

    pub fn bgitem_version_path(&self, zoom: u8) -> (path: String)
        ensures
            path@ == resolve_pattern(self.bgitem_version@, self.base_dir@, zoom, None),
    {
        self.resolve(self.bgitem_version.as_str(), zoom, None)
    }
}

} // verus!
