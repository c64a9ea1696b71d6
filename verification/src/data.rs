//! The data store: a byte cache of asset files with least-recently-used
//! eviction, the index of images by name, and the decoding of version files.
//! Reading files and directories is the application's part.

use vstd::prelude::*;
use dashmap::DashMap;
use vstd::string::StringExecFns;
use crate::metrics::Metrics;
use crate::protocol::be_i32;
use crate::text::{
    chars_of, decimal, parse_in_range, parse_integer, push_decimal, string_from_chars, trim,
    trim_chars, utf8_str,
};

verus! {

/// The number stored in a version file: the first four bytes big-endian when
/// there are four, else the text as a decimal integer (surrounding white
/// space allowed); 0 when there is no file or no such number.
pub open spec fn version_value(file: Option<Seq<u8>>) -> i32 {
    match file {
        None => 0,
        Some(d) => if d.len() >= 4 {
            be_i32(d[0], d[1], d[2], d[3])
        } else if vstd::utf8::valid_utf8(d) {
            match parse_in_range(trim(vstd::utf8::decode_utf8(d)), i32::MIN as int, i32::MAX as int) {
                Some(v) => v as i32,
                None => 0,
            }
        } else {
            0
        },
    }
}

/// Decodes the contents of a version file (`None`: the file was not found).
pub fn version_from_file(file: Option<&[u8]>) -> (v: i32)
    ensures
        v == version_value(
            match file {
                Some(d) => Some(d@),
                None => None,
            },
        ),
{
    match file {
        None => 0,
        Some(data) => {
            if data.len() >= 4 {
                return (((data[0] as u32) << 24) | ((data[1] as u32) << 16) | ((data[2] as u32)
                    << 8) | (data[3] as u32)) as i32;
            }
            match utf8_str(data) {
                Some(s) => {
                    let cs = chars_of(s);
                    let t = trim_chars(cs.as_slice());
                    match parse_integer(t.as_slice(), i32::MIN as i64, i32::MAX as i64) {
                        Some(v) => v as i32,
                        None => 0,
                    }
                },
                None => 0,
            }
        },
    }
}

/// The index of the last `c` in `s`, or -1.
pub open spec fn last_index_of(s: Seq<char>, c: char) -> int
    decreases s.len(),
{
    if s.len() == 0 {
        -1
    } else if s.last() == c {
        s.len() - 1
    } else {
        last_index_of(s.drop_last(), c)
    }
}

/// Name and frame of an image file `{name}_{frame}.png`: the frame is what
/// follows the last `_` and must parse as an `i8`.
pub open spec fn img_by_name_parts(file: Seq<char>) -> Option<(Seq<char>, i8)> {
    if file.len() >= 4 && file.skip(file.len() - 4) == ".png"@ {
        let stem = file.take(file.len() - 4);
        let us = last_index_of(stem, '_');
        if us < 0 {
            None
        } else {
            match parse_in_range(stem.skip(us + 1), -128, 127) {
                Some(v) => Some((stem.take(us), v as i8)),
                None => None,
            }
        }
    } else {
        None
    }
}

/// The index key of an image: `{zoom}:{name}`.
pub open spec fn img_key(zoom: u8, name: Seq<char>) -> Seq<char> {
    decimal(zoom as nat) + ":"@ + name
}

/// Position of the last `c` in `s`, if any.
fn find_last(s: &Vec<char>, c: char) -> (r: Option<usize>)
    ensures
        r matches Some(i) ==> i == last_index_of(s@, c) && i < s@.len(),
        r is None ==> last_index_of(s@, c) == -1,
{
    let mut i: usize = s.len();
    proof {
        assert(s@.take(i as int) =~= s@);
    }
    while i > 0
        invariant
            i <= s@.len(),
            last_index_of(s@, c) == last_index_of(s@.take(i as int), c),
        decreases i,
    {
        proof {
            assert(s@.take(i as int).drop_last() =~= s@.take(i - 1));
        }
        if s[i - 1] == c {
            return Some(i - 1);
        }
        i = i - 1;
    }
    None
}

/// Splits an image file name `{name}_{frame}.png` into name and frame.
pub fn parse_img_by_name(file_name: &str) -> (r: Option<(String, i8)>)
    ensures
        r matches Some((name, frame)) ==> img_by_name_parts(file_name@) == Some((name@, frame)),
        r is None ==> img_by_name_parts(file_name@) is None,
{
    proof {
        reveal_strlit(".png");
    }
    let cs = chars_of(file_name);
    let n = cs.len();
    if n < 4 || cs[n - 4] != '.' || cs[n - 3] != 'p' || cs[n - 2] != 'n' || cs[n - 1] != 'g' {
        proof {
            if n >= 4 {
                let tail = cs@.skip(n - 4);
                if tail == ".png"@ {
                    assert(tail[0] == '.' && tail[1] == 'p' && tail[2] == 'n' && tail[3] == 'g');
                }
            }
        }
        return None;
    }
    proof {
        assert(cs@.skip(n - 4) =~= ".png"@);
    }
    let mut stem: Vec<char> = Vec::new();
    let mut i: usize = 0;
    while i < n - 4
        invariant
            n == cs@.len(),
            n >= 4,
            i <= n - 4,
            stem@ == cs@.take(i as int),
        decreases n - 4 - i,
    {
        stem.push(cs[i]);
        proof {
            assert(stem@ =~= cs@.take(i + 1));
        }
        i = i + 1;
    }
    let us = match find_last(&stem, '_') {
        Some(u) => u,
        None => {
            return None;
        },
    };
    let mut name: Vec<char> = Vec::new();
    let mut frame: Vec<char> = Vec::new();
    let mut j: usize = 0;
    while j < stem.len()
        invariant
            us < stem@.len(),
            j <= stem@.len(),
            j <= us ==> name@ == stem@.take(j as int) && frame@.len() == 0,
            j > us ==> name@ == stem@.take(us as int) && frame@ == stem@.subrange(us + 1, j as int),
        decreases stem@.len() - j,
    {
        if j < us {
            name.push(stem[j]);
            proof {
                assert(name@ =~= stem@.take(j + 1));
            }
        } else if j > us {
            frame.push(stem[j]);
            proof {
                assert(frame@ =~= stem@.subrange(us + 1, j + 1));
            }
        } else {
            proof {
                assert(frame@ =~= stem@.subrange(us + 1, j + 1));
            }
        }
        j = j + 1;
    }
    proof {
        assert(frame@ =~= stem@.skip(us + 1));
    }
    match parse_integer(frame.as_slice(), -128, 127) {
        Some(v) => Some((string_from_chars(name.as_slice()), v as i8)),
        None => None,
    }
}

/// The index key `{zoom}:{name}`.
pub fn img_key_string(zoom: u8, name: &str) -> (k: String)
    ensures
        k@ == img_key(zoom, name@),
{
    let mut out: Vec<char> = Vec::new();
    push_decimal(&mut out, zoom as u64);
    out.push(':');
    let cs = chars_of(name);
    let mut i: usize = 0;
    let ghost start = out@;
    while i < cs.len()
        invariant
            i <= cs@.len(),
            out@ == start + cs@.take(i as int),
        decreases cs@.len() - i,
    {
        out.push(cs[i]);
        proof {
            assert(cs@.take(i + 1) =~= cs@.take(i as int).push(cs@[i as int]));
        }
        i = i + 1;
    }
    proof {
        reveal_strlit(":");
        assert(cs@.take(cs@.len() as int) =~= cs@);
        assert(out@ =~= img_key(zoom, name@));
    }
    string_from_chars(out.as_slice())
}

} // verus!

verus! {

/// A cached file and the time it was last used (a reading of the server clock).
pub struct CacheEntry {
    pub data: Vec<u8>,
    pub last_access: u64,
}

/// An image found by name: its frame number and file path.
pub struct ImageByNameEntry {
    pub frame: i8,
    pub path: String,
}

/// What the cache map holds: for each path, the file's bytes and last use.
pub uninterp spec fn cache_table(m: DashMap<String, CacheEntry>) -> Map<Seq<char>, (Seq<u8>, u64)>;

/// What the image index holds: for each `{zoom}:{name}` key, frame and path.
pub uninterp spec fn index_table(m: DashMap<String, ImageByNameEntry>) -> Map<Seq<char>, (i8, Seq<char>)>;

/// A scanned item (path, last use) agrees with the cache contents.
pub open spec fn scan_matches(t: Map<Seq<char>, (Seq<u8>, u64)>, item: (String, u64)) -> bool {
    &&& t.contains_key(item.0@)
    &&& t[item.0@].1 == item.1
}

/// A listed entry (path, last use, size) agrees with the cache contents.
pub open spec fn entry_matches(t: Map<Seq<char>, (Seq<u8>, u64)>, item: (String, u64, u64)) -> bool {
    &&& t.contains_key(item.0@)
    &&& t[item.0@].1 == item.1
    &&& t[item.0@].0.len() == item.2
}

/// The paths of a scan.
pub open spec fn scanned_paths(items: Seq<(String, u64)>) -> Set<Seq<char>> {
    items.map_values(|item: (String, u64)| item.0@).to_set()
}

/// The paths of listed entries.
pub open spec fn listed_paths(items: Seq<(String, u64, u64)>) -> Set<Seq<char>> {
    items.map_values(|item: (String, u64, u64)| item.0@).to_set()
}

/// `DashMap::new` for the cache: an empty map.
#[verifier::external_body]
fn cache_table_new() -> (m: DashMap<String, CacheEntry>)
    ensures
        cache_table(m).dom() == Set::<Seq<char>>::empty(),
{
    DashMap::new()
}

/// `DashMap::len` for the cache: the number of entries.
#[verifier::external_body]
fn cache_table_len(m: &DashMap<String, CacheEntry>) -> (n: usize)
    ensures
        n == cache_table(*m).len(),
{
    m.len()
}

/// `DashMap::insert` for the cache: the path now maps to the entry (any
/// earlier entry for it is dropped).
#[verifier::external_body]
fn cache_table_insert(m: &mut DashMap<String, CacheEntry>, key: String, entry: CacheEntry)
    ensures
        cache_table(*final(m)) == cache_table(*old(m)).insert(key@, (entry.data@, entry.last_access)),
{
    m.insert(key, entry);
}

/// `DashMap::remove` for the cache: takes the path's entry out, if any.
#[verifier::external_body]
fn cache_table_remove(m: &mut DashMap<String, CacheEntry>, key: &str) -> (r: Option<(String, CacheEntry)>)
    ensures
        cache_table(*final(m)) == cache_table(*old(m)).remove(key@),
        r is Some <==> cache_table(*old(m)).contains_key(key@),
        r matches Some((k, e)) ==> k@ == key@ && cache_table(*old(m))[key@] == (e.data@, e.last_access),
{
    m.remove(key)
}

/// `DashMap::clear` for the cache: no entries left.
#[verifier::external_body]
fn cache_table_clear(m: &mut DashMap<String, CacheEntry>)
    ensures
        cache_table(*final(m)).dom() == Set::<Seq<char>>::empty(),
{
    m.clear();
}

/// `DashMap::iter` over the cache, each entry taken as (path, last use).
/// Every entry comes once; the order is the map's own.
#[verifier::external_body]
fn cache_table_scan(m: &DashMap<String, CacheEntry>) -> (r: Vec<(String, u64)>)
    ensures
        r@.len() == cache_table(*m).len(),
        scanned_paths(r@) == cache_table(*m).dom(),
        forall|i: int| 0 <= i < r@.len() ==> scan_matches(cache_table(*m), #[trigger] r@[i]),
        forall|i: int| forall|j: int| 0 <= i < j < r@.len() ==> #[trigger] r@[i].0@ != #[trigger] r@[j].0@,
{
    m.iter().map(|e| (e.key().clone(), e.value().last_access)).collect()
}

/// `DashMap::new` for the image index: an empty map.
#[verifier::external_body]
fn index_table_new() -> (m: DashMap<String, ImageByNameEntry>)
    ensures
        index_table(m).dom() == Set::<Seq<char>>::empty(),
{
    DashMap::new()
}

/// `DashMap::insert` for the image index.
#[verifier::external_body]
fn index_table_insert(m: &mut DashMap<String, ImageByNameEntry>, key: String, entry: ImageByNameEntry)
    ensures
        index_table(*final(m)) == index_table(*old(m)).insert(key@, (entry.frame, entry.path@)),
{
    m.insert(key, entry);
}

/// `DashMap::get` for the image index, taking out frame and path.
#[verifier::external_body]
fn index_table_get(m: &DashMap<String, ImageByNameEntry>, key: &str) -> (r: Option<(i8, String)>)
    ensures
        r is Some <==> index_table(*m).contains_key(key@),
        r matches Some((f, p)) ==> index_table(*m)[key@] == (f, p@),
{
    m.get(key).map(|e| (e.value().frame, e.value().path.clone()))
}

} // verus!

verus! {

/// Total size of the listed entries.
pub open spec fn sizes_sum(items: Seq<(String, u64, u64)>) -> int
    decreases items.len(),
{
    if items.len() == 0 {
        0
    } else {
        sizes_sum(items.drop_last()) + items.last().2
    }
}

/// No path is listed twice.
pub open spec fn distinct_paths(items: Seq<(String, u64, u64)>) -> bool {
    forall|i: int, j: int| 0 <= i < j < items.len() ==> #[trigger] items[i].0@ != #[trigger] items[j].0@
}

/// Least-recently-used eviction of at least `target` bytes from `before`,
/// leaving `after`: `evicted` lists entries of `before`, oldest first, none
/// newer than any entry kept; it stops as soon as `target` bytes are freed,
/// and frees less only when nothing is left.
pub open spec fn lru_evicted(
    before: Map<Seq<char>, (Seq<u8>, u64)>,
    target: int,
    evicted: Seq<(String, u64, u64)>,
    after: Map<Seq<char>, (Seq<u8>, u64)>,
) -> bool {
    &&& distinct_paths(evicted)
    &&& forall|i: int| 0 <= i < evicted.len() ==> entry_matches(before, #[trigger] evicted[i])
    &&& after == before.remove_keys(listed_paths(evicted))
    &&& forall|i: int, j: int| 0 <= i < j < evicted.len() ==> #[trigger] evicted[i].1 <= #[trigger] evicted[j].1
    &&& forall|i: int, k: Seq<char>|
        0 <= i < evicted.len() && #[trigger] after.contains_key(k) ==> #[trigger] evicted[i].1 <= after[k].1
    &&& sizes_sum(evicted) >= target || after.dom().is_empty()
    &&& evicted.len() > 0 ==> sizes_sum(evicted.drop_last()) < target
}

/// The bytes freed, as a `u64` counter that stops at its maximum.
pub open spec fn freed_bytes(evicted: Seq<(String, u64, u64)>) -> u64 {
    if sizes_sum(evicted) > u64::MAX {
        u64::MAX
    } else {
        sizes_sum(evicted) as u64
    }
}

/// The cache counters after an eviction: bytes and entries go down by what
/// was evicted (wrapping, as the atomic counters do).
pub open spec fn metrics_after_eviction(m: Metrics, evicted: Seq<(String, u64, u64)>) -> Metrics {
    if evicted.len() > 0 {
        Metrics {
            cache_bytes: m.cache_bytes.wrapping_sub(freed_bytes(evicted) as i64),
            cache_entries: m.cache_entries.wrapping_sub(evicted.len() as i64),
            ..m
        }
    } else {
        m
    }
}

/// Whether caching `incoming` more bytes goes over the limit: the current
/// size (as the counter reads, taken as `u64`) plus the new bytes.
pub open spec fn over_limit(m: Metrics, incoming: u64, max_cache_bytes: u64) -> bool {
    (m.cache_bytes as u64) + incoming > max_cache_bytes
}

/// Position of the first entry with the oldest last use.
fn index_of_oldest(items: &Vec<(String, u64)>) -> (m: usize)
    requires
        items@.len() > 0,
    ensures
        m < items@.len(),
        forall|j: int| 0 <= j < items@.len() ==> items@[m as int].1 <= #[trigger] items@[j].1,
        forall|j: int| 0 <= j < m ==> items@[m as int].1 < #[trigger] items@[j].1,
{
    let mut m: usize = 0;
    let mut i: usize = 1;
    while i < items.len()
        invariant
            0 < i <= items@.len(),
            m < i,
            forall|j: int| 0 <= j < i ==> items@[m as int].1 <= #[trigger] items@[j].1,
            forall|j: int| 0 <= j < m ==> items@[m as int].1 < #[trigger] items@[j].1,
        decreases items@.len() - i,
    {
        if items[i].1 < items[m].1 {
            m = i;
        }
        i = i + 1;
    }
    m
}

/// The data store: a cache of file contents by path, with a size limit, and
/// the index of images by name.
pub struct DataStore {
    cache: DashMap<String, CacheEntry>,
    img_by_name_index: DashMap<String, ImageByNameEntry>,
    /// Max cache size in bytes (0 = unlimited).
    max_cache_bytes: u64,
}

impl DataStore {
    /// The cached files: bytes and last use by path.
    pub closed spec fn cache(&self) -> Map<Seq<char>, (Seq<u8>, u64)> {
        cache_table(self.cache)
    }

    /// The image index: frame and path by `{zoom}:{name}`.
    pub closed spec fn index(&self) -> Map<Seq<char>, (i8, Seq<char>)> {
        index_table(self.img_by_name_index)
    }

    pub closed spec fn max_cache_bytes(&self) -> u64 {
        self.max_cache_bytes
    }

    pub fn new(max_cache_bytes: u64) -> (s: Self)
        ensures
            s.cache().dom() == Set::<Seq<char>>::empty(),
            s.index().dom() == Set::<Seq<char>>::empty(),
            s.max_cache_bytes() == max_cache_bytes,
    {
        DataStore {
            cache: cache_table_new(),
            img_by_name_index: index_table_new(),
            max_cache_bytes,
        }
    }

    /// Evicts least-recently-used entries until `incoming` more bytes fit
    /// under the limit; returns the evicted entries (path, last use, size).
    pub fn evict_if_needed(&mut self, incoming: u64, metrics: &mut Metrics) -> (evicted: Vec<(String, u64, u64)>)
        requires
            (old(metrics).cache_bytes as u64) + incoming <= u64::MAX,
        ensures
            !over_limit(*old(metrics), incoming, old(self).max_cache_bytes()) ==> evicted@.len() == 0
                && final(self).cache() == old(self).cache(),
            over_limit(*old(metrics), incoming, old(self).max_cache_bytes()) ==> lru_evicted(
                old(self).cache(),
                (old(metrics).cache_bytes as u64) + incoming - old(self).max_cache_bytes(),
                evicted@,
                final(self).cache(),
            ),
            *final(metrics) == metrics_after_eviction(*old(metrics), evicted@),
            final(self).index() == old(self).index(),
            final(self).max_cache_bytes() == old(self).max_cache_bytes(),
    {
        let current = metrics.cache_bytes as u64;
        if current + incoming <= self.max_cache_bytes {
            return Vec::new();
        }
        let target = current + incoming - self.max_cache_bytes;
        let ghost before = self.cache();
        // Oldest first: each round takes the first least recently used entry
        // left, which is the order of a stable sort by last use.
        let mut working = cache_table_scan(&self.cache);
        proof {
            assert forall|k: Seq<char>| before.contains_key(k) implies exists|i: int|
                0 <= i < working@.len() && (#[trigger] working@[i]).0@ == k by {
                assert(scanned_paths(working@).contains(k));
                let mv = working@.map_values(|item: (String, u64)| item.0@);
                let i = choose|i: int| 0 <= i < mv.len() && mv[i] == k;
                assert(working@[i].0@ == k);
            }
            assert(before.remove_keys(listed_paths(Seq::<(String, u64, u64)>::empty())) =~= before);
        }
        let mut freed: u64 = 0;
        let mut evicted: Vec<(String, u64, u64)> = Vec::new();
        while freed < target && working.len() > 0
            invariant
                before == old(self).cache(),
                target > 0,
                self.index() == old(self).index(),
                self.max_cache_bytes() == old(self).max_cache_bytes(),
                forall|i: int, j: int| 0 <= i < j < working@.len() ==> #[trigger] working@[i].0@
                    != #[trigger] working@[j].0@,
                forall|i: int| 0 <= i < working@.len() ==> scan_matches(self.cache(), #[trigger] working@[i]),
                forall|k: Seq<char>| self.cache().contains_key(k) ==> exists|i: int|
                    0 <= i < working@.len() && (#[trigger] working@[i]).0@ == k,
                distinct_paths(evicted@),
                forall|i: int| 0 <= i < evicted@.len() ==> entry_matches(before, #[trigger] evicted@[i]),
                self.cache() == before.remove_keys(listed_paths(evicted@)),
                forall|i: int, j: int| 0 <= i < j < evicted@.len() ==> #[trigger] evicted@[i].1 <= #[trigger] evicted@[j].1,
                forall|i: int, j: int|
                    0 <= i < evicted@.len() && 0 <= j < working@.len() ==> #[trigger] evicted@[i].1 <= #[trigger] working@[j].1,
                freed == freed_bytes(evicted@),
                evicted@.len() > 0 ==> sizes_sum(evicted@.drop_last()) < target,
                sizes_sum(evicted@) >= 0,
            decreases working@.len(),
        {
            let m = index_of_oldest(&working);
            let ghost w0 = working@;
            let ghost e0 = evicted@;
            let ghost c0 = self.cache();
            let item = working.remove(m);
            let ghost key = item.0@;
            proof {
                assert(scan_matches(c0, w0[m as int]));
            }
            let removed = cache_table_remove(&mut self.cache, item.0.as_str());
            match removed {
                Some((_, entry)) => {
                    let size = entry.data.len() as u64;
                    freed = freed.saturating_add(size);
                    evicted.push((item.0, item.1, size));
                },
                None => {},
            }
            proof {
                let last = evicted@[evicted@.len() - 1];
                assert(evicted@ == e0.push(last));
                assert(last.0@ == key);
                assert(evicted@.drop_last() =~= e0);
                assert(!listed_paths(e0).contains(key)) by {
                    if listed_paths(e0).contains(key) {
                        assert(!c0.contains_key(key));
                    }
                }
                assert(distinct_paths(evicted@)) by {
                    assert forall|i: int, j: int| 0 <= i < j < evicted@.len() implies #[trigger] evicted@[i].0@
                        != #[trigger] evicted@[j].0@ by {
                        if j == evicted@.len() - 1 {
                            assert(listed_paths(e0).contains(e0[i].0@)) by {
                                let mv = e0.map_values(|x: (String, u64, u64)| x.0@);
                                assert(mv[i] == e0[i].0@);
                            }
                        }
                    }
                }
                assert forall|i: int| 0 <= i < working@.len() implies scan_matches(
                    self.cache(),
                    #[trigger] working@[i],
                ) by {
                    let oi = if i < m { i } else { i + 1 };
                    assert(working@[i] == w0[oi]);
                    assert(w0[oi].0@ != w0[m as int].0@);
                }
                assert forall|k: Seq<char>| self.cache().contains_key(k) implies exists|i: int|
                    0 <= i < working@.len() && (#[trigger] working@[i]).0@ == k by {
                    assert(c0.contains_key(k));
                    let oi = choose|oi: int| 0 <= oi < w0.len() && (#[trigger] w0[oi]).0@ == k;
                    assert(oi != m);
                    let i = if oi < m { oi } else { oi - 1 };
                    assert(working@[i] == w0[oi]);
                }
                assert(listed_paths(evicted@) =~= listed_paths(e0).insert(key)) by {
                    let mv = evicted@.map_values(|x: (String, u64, u64)| x.0@);
                    let mv0 = e0.map_values(|x: (String, u64, u64)| x.0@);
                    assert(mv =~= mv0.push(key));
                    mv0.lemma_push_to_set_commute(key);
                }
                assert(self.cache() =~= before.remove_keys(listed_paths(evicted@)));
                assert forall|i: int, j: int|
                    0 <= i < evicted@.len() && 0 <= j < working@.len() implies #[trigger] evicted@[i].1
                    <= #[trigger] working@[j].1 by {
                    let oj = if j < m { j } else { j + 1 };
                    assert(working@[j] == w0[oj]);
                    if i < e0.len() {
                        assert(e0[i].1 <= w0[oj].1);
                    } else {
                        assert(w0[m as int].1 <= w0[oj].1);
                    }
                }
                assert forall|i: int, j: int| 0 <= i < j < evicted@.len() implies #[trigger] evicted@[i].1
                    <= #[trigger] evicted@[j].1 by {
                    if j == evicted@.len() - 1 {
                        assert(e0[i].1 <= w0[m as int].1);
                    }
                }
            }
        }
        proof {
            if sizes_sum(evicted@) < target {
                assert(working@.len() == 0);
                assert(self.cache().dom() =~= Set::<Seq<char>>::empty()) by {
                    assert forall|k: Seq<char>| !self.cache().contains_key(k) by {
                        if self.cache().contains_key(k) {
                            let i = choose|i: int| 0 <= i < working@.len() && (#[trigger] working@[i]).0@ == k;
                        }
                    }
                }
            }
            assert forall|i: int, k: Seq<char>|
                0 <= i < evicted@.len() && #[trigger] self.cache().contains_key(k) implies #[trigger] evicted@[i].1
                <= self.cache()[k].1 by {
                let j = choose|j: int| 0 <= j < working@.len() && (#[trigger] working@[j]).0@ == k;
                assert(evicted@[i].1 <= working@[j].1);
            }
        }
        if evicted.len() > 0 {
            metrics.cache_bytes = metrics.cache_bytes.wrapping_sub(freed as i64);
            metrics.cache_entries = metrics.cache_entries.wrapping_sub(evicted.len() as i64);
        }
        evicted
    }
}

} // verus!

verus! {

impl DataStore {
    /// Looks `path` up in the cache at time `now`. A hit marks the entry as
    /// used now and returns its bytes; both outcomes are counted.
    pub fn lookup(&mut self, path: &str, now: u64, metrics: &mut Metrics) -> (r: Option<Vec<u8>>)
        ensures
            old(self).cache().contains_key(path@) ==> r is Some && r->0@ == old(self).cache()[path@].0
                && final(self).cache() == old(self).cache().insert(path@, (old(self).cache()[path@].0, now))
                && *final(metrics) == (Metrics { cache_hits: old(metrics).cache_hits.wrapping_add(1), ..*old(metrics) }),
            !old(self).cache().contains_key(path@) ==> r is None && final(self).cache() == old(self).cache()
                && *final(metrics) == (Metrics { cache_misses: old(metrics).cache_misses.wrapping_add(1), ..*old(metrics) }),
            final(self).index() == old(self).index(),
            final(self).max_cache_bytes() == old(self).max_cache_bytes(),
    {
        match cache_table_remove(&mut self.cache, path) {
            Some((key, entry)) => {
                let data = vstd::slice::slice_to_vec(entry.data.as_slice());
                cache_table_insert(&mut self.cache, key, CacheEntry { data: entry.data, last_access: now });
                metrics.on_cache_hit();
                proof {
                    assert(self.cache() =~= old(self).cache().insert(path@, (old(self).cache()[path@].0, now)));
                }
                Some(data)
            },
            None => {
                metrics.on_cache_miss();
                proof {
                    assert(self.cache() =~= old(self).cache());
                }
                None
            },
        }
    }

    /// Caches a file just read from disk at time `now`: with a size limit,
    /// first evicts what is needed to fit it; then counts its bytes and entry.
    /// Returns the evicted entries.
    pub fn store_loaded(&mut self, path: &str, data: &[u8], now: u64, metrics: &mut Metrics) -> (evicted: Vec<(String, u64, u64)>)
        requires
            old(self).max_cache_bytes() > 0 ==> (old(metrics).cache_bytes as u64) + data@.len() <= u64::MAX,
        ensures
            old(self).max_cache_bytes() == 0 ==> evicted@.len() == 0,
            exists|kept: Map<Seq<char>, (Seq<u8>, u64)>| {
                &&& (old(self).max_cache_bytes() == 0 || !over_limit(*old(metrics), data@.len() as u64, old(self).max_cache_bytes())) ==> kept == old(self).cache()
                &&& (old(self).max_cache_bytes() > 0 && over_limit(*old(metrics), data@.len() as u64, old(self).max_cache_bytes())) ==> lru_evicted(
                    old(self).cache(),
                    (old(metrics).cache_bytes as u64) + data@.len() - old(self).max_cache_bytes(),
                    evicted@,
                    kept,
                )
                &&& final(self).cache() == kept.insert(path@, (data@, now))
            },
            *final(metrics) == (Metrics {
                cache_bytes: metrics_after_eviction(*old(metrics), evicted@).cache_bytes.wrapping_add(data@.len() as i64),
                cache_entries: metrics_after_eviction(*old(metrics), evicted@).cache_entries.wrapping_add(1),
                ..metrics_after_eviction(*old(metrics), evicted@)
            }),
            final(self).index() == old(self).index(),
            final(self).max_cache_bytes() == old(self).max_cache_bytes(),
    {
        let evicted = if self.max_cache_bytes > 0 {
            self.evict_if_needed(data.len() as u64, metrics)
        } else {
            Vec::new()
        };
        let owned = vstd::slice::slice_to_vec(data);
        let key = String::from_str(path);
        cache_table_insert(&mut self.cache, key, CacheEntry { data: owned, last_access: now });
        metrics.cache_bytes = metrics.cache_bytes.wrapping_add(data.len() as i64);
        metrics.cache_entries = metrics.cache_entries.wrapping_add(1);
        evicted
    }

    /// Drops the cached entry of `path`, if any, and uncounts it.
    pub fn invalidate(&mut self, path: &str, metrics: &mut Metrics)
        ensures
            final(self).cache() == old(self).cache().remove(path@),
            old(self).cache().contains_key(path@) ==> *final(metrics) == (Metrics {
                cache_bytes: old(metrics).cache_bytes.wrapping_sub(old(self).cache()[path@].0.len() as i64),
                cache_entries: old(metrics).cache_entries.wrapping_sub(1),
                ..*old(metrics)
            }),
            !old(self).cache().contains_key(path@) ==> *final(metrics) == *old(metrics),
            final(self).index() == old(self).index(),
            final(self).max_cache_bytes() == old(self).max_cache_bytes(),
    {
        if let Some((_, entry)) = cache_table_remove(&mut self.cache, path) {
            metrics.cache_bytes = metrics.cache_bytes.wrapping_sub(entry.data.len() as i64);
            metrics.cache_entries = metrics.cache_entries.wrapping_sub(1);
        }
    }

    /// Empties the cache and zeroes its counters.
    pub fn clear_cache(&mut self, metrics: &mut Metrics)
        ensures
            final(self).cache().dom() == Set::<Seq<char>>::empty(),
            *final(metrics) == (Metrics { cache_bytes: 0, cache_entries: 0, ..*old(metrics) }),
            final(self).index() == old(self).index(),
            final(self).max_cache_bytes() == old(self).max_cache_bytes(),
    {
        cache_table_clear(&mut self.cache);
        metrics.cache_bytes = 0;
        metrics.cache_entries = 0;
    }

    /// Number of cached files.
    pub fn cache_size(&self) -> (n: usize)
        ensures
            n == self.cache().len(),
    {
        cache_table_len(&self.cache)
    }

    /// Indexes the image file `file_name` (found in the folder of `zoom`, at
    /// `full_path`) under `{zoom}:{name}` when the name has the form
    /// `{name}_{frame}.png`. Returns whether it was indexed.
    pub fn index_img_by_name(&mut self, zoom: u8, file_name: &str, full_path: String) -> (indexed: bool)
        ensures
            indexed == img_by_name_parts(file_name@) is Some,
            img_by_name_parts(file_name@) matches Some((name, frame)) ==> final(self).index()
                == old(self).index().insert(img_key(zoom, name), (frame, full_path@)),
            img_by_name_parts(file_name@) is None ==> final(self).index() == old(self).index(),
            final(self).cache() == old(self).cache(),
            final(self).max_cache_bytes() == old(self).max_cache_bytes(),
    {
        match parse_img_by_name(file_name) {
            Some((name, frame)) => {
                let key = img_key_string(zoom, name.as_str());
                index_table_insert(&mut self.img_by_name_index, key, ImageByNameEntry { frame, path: full_path });
                true
            },
            None => false,
        }
    }

    /// The image indexed as `name` for `zoom`.
    pub fn lookup_img_by_name(&self, zoom: u8, name: &str) -> (r: Option<ImageByNameEntry>)
        ensures
            r is Some <==> self.index().contains_key(img_key(zoom, name@)),
            r matches Some(e) ==> self.index()[img_key(zoom, name@)] == (e.frame, e.path@),
    {
        let key = img_key_string(zoom, name);
        match index_table_get(&self.img_by_name_index, key.as_str()) {
            Some((frame, path)) => Some(ImageByNameEntry { frame, path }),
            None => None,
        }
    }
}

} // verus!

verus! {

/// A file stored in the cache is found there by the next lookup, with the
/// same bytes.
pub proof fn lemma_lookup_after_store(
    kept: Map<Seq<char>, (Seq<u8>, u64)>,
    path: Seq<char>,
    data: Seq<u8>,
    now: u64,
)
    ensures
        kept.insert(path, (data, now)).contains_key(path),
        kept.insert(path, (data, now))[path].0 == data,
{
}

/// Eviction makes room: unless the cache was emptied, the bytes counted
/// before, less those freed, plus the incoming ones, fit under the limit.
pub proof fn lemma_eviction_makes_room(
    before: Map<Seq<char>, (Seq<u8>, u64)>,
    current: u64,
    incoming: u64,
    max_cache_bytes: u64,
    evicted: Seq<(String, u64, u64)>,
    after: Map<Seq<char>, (Seq<u8>, u64)>,
)
    requires
        current + incoming > max_cache_bytes,
        lru_evicted(before, current + incoming - max_cache_bytes, evicted, after),
        !after.dom().is_empty(),
    ensures
        current - sizes_sum(evicted) + incoming <= max_cache_bytes,
{
}

/// Eviction takes the oldest entries: every entry it keeps was used no
/// earlier than any entry it evicted.
pub proof fn lemma_eviction_keeps_newest(
    before: Map<Seq<char>, (Seq<u8>, u64)>,
    target: int,
    evicted: Seq<(String, u64, u64)>,
    after: Map<Seq<char>, (Seq<u8>, u64)>,
    i: int,
    k: Seq<char>,
)
    requires
        lru_evicted(before, target, evicted, after),
        0 <= i < evicted.len(),
        after.contains_key(k),
    ensures
        evicted[i].1 <= after[k].1,
        before.contains_key(k) && before[k] == after[k],
{
}

} // verus!

verus! {

/// Total bytes held by the cache.
pub open spec fn cache_total(c: Map<Seq<char>, (Seq<u8>, u64)>) -> int
    decreases c.dom().len(),
{
    if c.dom().finite() && c.dom().len() > 0 {
        let k = c.dom().choose();
        c[k].0.len() + cache_total(c.remove(k))
    } else {
        0
    }
}

/// The cache counters agree with the cache: its total bytes and its number
/// of entries.
pub open spec fn cache_counted(m: Metrics, c: Map<Seq<char>, (Seq<u8>, u64)>) -> bool {
    &&& c.dom().finite()
    &&& m.cache_bytes as int == cache_total(c)
    &&& m.cache_entries as int == c.len()
}

/// Taking one entry out takes its bytes off the total.
proof fn lemma_total_remove(c: Map<Seq<char>, (Seq<u8>, u64)>, k: Seq<char>)
    requires
        c.dom().finite(),
        c.contains_key(k),
    ensures
        cache_total(c) == c[k].0.len() + cache_total(c.remove(k)),
    decreases c.dom().len(),
{
    let j = c.dom().choose();
    assert(c.dom().len() > 0) by {
        assert(c.dom().contains(k));
    }
    if j != k {
        let cj = c.remove(j);
        let ck = c.remove(k);
        assert(cj.dom() =~= c.dom().remove(j));
        assert(ck.dom() =~= c.dom().remove(k));
        lemma_total_remove(cj, k);
        lemma_total_remove(ck, j);
        assert(cj.remove(k) =~= ck.remove(j));
    }
}

/// Replacing an entry by one of the same size keeps the total; adding a new
/// entry adds its bytes.
proof fn lemma_total_insert(c: Map<Seq<char>, (Seq<u8>, u64)>, k: Seq<char>, v: (Seq<u8>, u64))
    requires
        c.dom().finite(),
    ensures
        c.contains_key(k) ==> cache_total(c.insert(k, v)) == cache_total(c) - c[k].0.len() + v.0.len(),
        !c.contains_key(k) ==> cache_total(c.insert(k, v)) == cache_total(c) + v.0.len(),
{
    let ci = c.insert(k, v);
    assert(ci.dom() =~= c.dom().insert(k));
    lemma_total_remove(ci, k);
    if c.contains_key(k) {
        lemma_total_remove(c, k);
        assert(ci.remove(k) =~= c.remove(k));
    } else {
        assert(ci.remove(k) =~= c);
    }
}

/// Removing distinct listed entries takes their total size off.
proof fn lemma_total_remove_listed(c: Map<Seq<char>, (Seq<u8>, u64)>, items: Seq<(String, u64, u64)>)
    requires
        c.dom().finite(),
        distinct_paths(items),
        forall|i: int| 0 <= i < items.len() ==> entry_matches(c, #[trigger] items[i]),
    ensures
        cache_total(c.remove_keys(listed_paths(items))) == cache_total(c) - sizes_sum(items),
        c.remove_keys(listed_paths(items)).len() == c.len() - items.len(),
        c.remove_keys(listed_paths(items)).dom().finite(),
    decreases items.len(),
{
    if items.len() == 0 {
        assert(listed_paths(items) =~= Set::<Seq<char>>::empty());
        assert(c.remove_keys(listed_paths(items)) =~= c);
    } else {
        let init = items.drop_last();
        let last = items.last();
        assert forall|i: int| 0 <= i < init.len() implies entry_matches(c, #[trigger] init[i]) by {
            assert(init[i] == items[i]);
        }
        lemma_total_remove_listed(c, init);
        let r0 = c.remove_keys(listed_paths(init));
        assert(listed_paths(items) =~= listed_paths(init).insert(last.0@)) by {
            let mv = items.map_values(|x: (String, u64, u64)| x.0@);
            let mv0 = init.map_values(|x: (String, u64, u64)| x.0@);
            assert(mv =~= mv0.push(last.0@));
            mv0.lemma_push_to_set_commute(last.0@);
        }
        assert(!listed_paths(init).contains(last.0@)) by {
            if listed_paths(init).contains(last.0@) {
                let mv0 = init.map_values(|x: (String, u64, u64)| x.0@);
                let i = choose|i: int| 0 <= i < mv0.len() && mv0[i] == last.0@;
                assert(items[i].0@ != items[items.len() - 1].0@);
            }
        }
        assert(entry_matches(c, items[items.len() - 1]));
        assert(r0.contains_key(last.0@));
        assert(c.remove_keys(listed_paths(items)) =~= r0.remove(last.0@));
        lemma_total_remove(r0, last.0@);
        assert(r0.remove(last.0@).dom() =~= r0.dom().remove(last.0@));
    }
}

/// Eviction keeps the cache counters in agreement with the cache (while the
/// total stays within the counter's range).
pub proof fn lemma_eviction_keeps_count(
    m: Metrics,
    before: Map<Seq<char>, (Seq<u8>, u64)>,
    target: int,
    evicted: Seq<(String, u64, u64)>,
    after: Map<Seq<char>, (Seq<u8>, u64)>,
)
    requires
        cache_counted(m, before),
        lru_evicted(before, target, evicted, after),
    ensures
        cache_counted(metrics_after_eviction(m, evicted), after),
{
    lemma_total_remove_listed(before, evicted);
    lemma_total_nonneg(after);
    if evicted.len() > 0 {
        let freed = freed_bytes(evicted);
        lemma_sizes_sum_nonneg(evicted);
        assert(sizes_sum(evicted) <= cache_total(before));
        assert(freed as int == sizes_sum(evicted));
        assert(m.cache_bytes.wrapping_sub(freed as i64) as int == m.cache_bytes - freed);
        assert(m.cache_entries.wrapping_sub(evicted.len() as i64) as int == m.cache_entries
            - evicted.len());
    } else {
        assert(after =~= before);
    }
}

/// A total of sizes is never negative.
proof fn lemma_sizes_sum_nonneg(items: Seq<(String, u64, u64)>)
    ensures
        sizes_sum(items) >= 0,
    decreases items.len(),
{
    if items.len() > 0 {
        lemma_sizes_sum_nonneg(items.drop_last());
    }
}

/// The total is never negative.
proof fn lemma_total_nonneg(c: Map<Seq<char>, (Seq<u8>, u64)>)
    ensures
        cache_total(c) >= 0,
    decreases c.dom().len(),
{
    if c.dom().finite() && c.dom().len() > 0 {
        let k = c.dom().choose();
        assert(c.remove(k).dom() =~= c.dom().remove(k));
        lemma_total_nonneg(c.remove(k));
    }
}

/// Caching a file that was not cached counts its bytes and entry, keeping
/// the counters in agreement with the cache (while they stay in range).
pub proof fn lemma_store_keeps_count(
    m: Metrics,
    c: Map<Seq<char>, (Seq<u8>, u64)>,
    path: Seq<char>,
    data: Seq<u8>,
    now: u64,
)
    requires
        cache_counted(m, c),
        !c.contains_key(path),
        cache_total(c) + data.len() <= i64::MAX,
        c.len() + 1 <= i64::MAX,
    ensures
        cache_counted(
            Metrics {
                cache_bytes: m.cache_bytes.wrapping_add(data.len() as i64),
                cache_entries: m.cache_entries.wrapping_add(1),
                ..m
            },
            c.insert(path, (data, now)),
        ),
{
    lemma_total_insert(c, path, (data, now));
    lemma_total_nonneg(c);
    assert(c.insert(path, (data, now)).dom() =~= c.dom().insert(path));
}

/// A cache hit only renews the entry's time: the counters still agree.
pub proof fn lemma_lookup_keeps_count(m: Metrics, c: Map<Seq<char>, (Seq<u8>, u64)>, path: Seq<char>, now: u64)
    requires
        cache_counted(m, c),
        c.contains_key(path),
    ensures
        cache_counted(m, c.insert(path, (c[path].0, now))),
{
    lemma_total_insert(c, path, (c[path].0, now));
    assert(c.insert(path, (c[path].0, now)).dom() =~= c.dom());
}

/// Dropping a cached entry uncounts exactly its bytes and entry.
pub proof fn lemma_invalidate_keeps_count(m: Metrics, c: Map<Seq<char>, (Seq<u8>, u64)>, path: Seq<char>)
    requires
        cache_counted(m, c),
        c.contains_key(path),
    ensures
        cache_counted(
            Metrics {
                cache_bytes: m.cache_bytes.wrapping_sub(c[path].0.len() as i64),
                cache_entries: m.cache_entries.wrapping_sub(1),
                ..m
            },
            c.remove(path),
        ),
{
    lemma_total_remove(c, path);
    lemma_total_nonneg(c.remove(path));
    assert(c.remove(path).dom() =~= c.dom().remove(path));
}

} // verus!

verus! {

/// An empty cache with zeroed counters (a new store, or one just cleared)
/// is counted correctly.
pub proof fn lemma_empty_cache_counted(m: Metrics, c: Map<Seq<char>, (Seq<u8>, u64)>)
    requires
        c.dom() == Set::<Seq<char>>::empty(),
        m.cache_bytes == 0,
        m.cache_entries == 0,
    ensures
        cache_counted(m, c),
{
    assert(c.dom().len() == 0);
}

} // verus!
