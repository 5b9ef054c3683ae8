//! Segment bookkeeping: which segment files there are, which one is being
//! written, and when to move on to a new one.
//!
//! Segment files are called `<prefix><id>.<extension>`. The caller lists the
//! directory, creates and deletes the files; the manager decides on names,
//! ids and sizes.
use crate::decimal::{decimal, decimal_string, parse_u64, parse_u64_spec};
use crate::paths::{ends_with, join, join_spec, starts_with};
use vstd::prelude::*;
use vstd::string::{StrSliceExecFns, StringExecFns};

verus! {

/// The default largest size of a segment: 1 GiB.
pub const DEFAULT_MAX_SEGMENT_SIZE: u64 = 1073741824u64;

/// Where segment files live, how they are named and how large they grow.
#[derive(Debug, Clone)]
pub struct SegmentConfig {
    /// Largest size of a segment, in bytes.
    pub max_segment_size: u64,
    /// Directory of the segment files.
    pub dir: String,
    /// Start of every segment file name.
    pub prefix: String,
    /// Extension of every segment file name.
    pub extension: String,
}

impl SegmentConfig {
    /// The default configuration for `dir`: 1 GiB segments named
    /// `segment<id>.wal`.
    pub fn new(dir: &str) -> (r: Self)
        ensures
            r.max_segment_size == DEFAULT_MAX_SEGMENT_SIZE,
            r.dir@ == dir@,
            r.prefix@ == "segment"@,
            r.extension@ == "wal"@,
    {
        SegmentConfig {
            max_segment_size: DEFAULT_MAX_SEGMENT_SIZE,
            dir: String::from_str(dir),
            prefix: String::from_str("segment"),
            extension: String::from_str("wal"),
        }
    }

    /// This configuration with segments of at most `size` bytes.
    pub fn with_max_size(self, size: u64) -> (r: Self)
        ensures
            r.max_segment_size == size,
            r.dir == self.dir,
            r.prefix == self.prefix,
            r.extension == self.extension,
    {
        let mut c = self;
        c.max_segment_size = size;
        c
    }

    /// This configuration with file names starting with `prefix`.
    pub fn with_prefix(self, prefix: &str) -> (r: Self)
        ensures
            r.max_segment_size == self.max_segment_size,
            r.dir == self.dir,
            r.prefix@ == prefix@,
            r.extension == self.extension,
    {
        let mut c = self;
        c.prefix = String::from_str(prefix);
        c
    }

    /// This configuration with file names ending with `.<ext>`.
    pub fn with_extension(self, ext: &str) -> (r: Self)
        ensures
            r.max_segment_size == self.max_segment_size,
            r.dir == self.dir,
            r.prefix == self.prefix,
            r.extension@ == ext@,
    {
        let mut c = self;
        c.extension = String::from_str(ext);
        c
    }
}

impl Default for SegmentConfig {
    /// The default configuration for the current directory.
    fn default() -> (r: Self)
        ensures
            r.max_segment_size == DEFAULT_MAX_SEGMENT_SIZE,
            r.dir@ == "."@,
            r.prefix@ == "segment"@,
            r.extension@ == "wal"@,
    {
        SegmentConfig::new(".")
    }
}

/// What is known of one segment file.
#[derive(Debug, Clone)]
pub struct SegmentMeta {
    /// The segment's id.
    pub id: u64,
    /// The path of its file.
    pub path: String,
    /// Its size in bytes.
    pub size: u64,
    /// Whether it is the segment being written.
    pub is_active: bool,
}

/// A `SegmentMeta` with its path as a sequence of characters.
pub struct SegmentMetaView {
    pub id: u64,
    pub path: Seq<char>,
    pub size: u64,
    pub is_active: bool,
}

impl View for SegmentMeta {
    type V = SegmentMetaView;

    open spec fn view(&self) -> SegmentMetaView {
        SegmentMetaView { id: self.id, path: self.path@, size: self.size, is_active: self.is_active }
    }
}

/// The end of every segment file name: a dot and the extension.
pub open spec fn segment_suffix(ext: Seq<char>) -> Seq<char> {
    seq!['.'] + ext
}

/// The id of the segment file called `name`, or `None` when the name does
/// not start with `prefix` and end with `.<ext>`. What lies between is read
/// as a decimal number; what does not read as one gives id 0.
pub open spec fn segment_name_id(prefix: Seq<char>, ext: Seq<char>, name: Seq<char>) -> Option<u64> {
    let suffix = segment_suffix(ext);
    if prefix.is_prefix_of(name) && suffix.is_suffix_of(name) {
        let rest = name.skip(prefix.len() as int);
        let stem = if rest.len() >= suffix.len() {
            rest.take(rest.len() - suffix.len())
        } else {
            Seq::empty()
        };
        Some(
            match parse_u64_spec(stem) {
                Some(v) => v,
                None => 0,
            },
        )
    } else {
        None
    }
}

/// The file name of segment `id`.
pub open spec fn segment_file_name(c: SegmentConfig, id: u64) -> Seq<char> {
    c.prefix@ + decimal(id as nat) + segment_suffix(c.extension@)
}

/// The path of segment `id`.
pub open spec fn segment_path_spec(c: SegmentConfig, id: u64) -> Seq<char> {
    join_spec(c.dir@, segment_file_name(c, id))
}

/// The segment files among `found`, the names and sizes of the regular
/// files of the directory, in the order they were found.
pub open spec fn scanned(c: SegmentConfig, found: Seq<(String, u64)>) -> Seq<SegmentMetaView>
    decreases found.len(),
{
    if found.len() == 0 {
        Seq::empty()
    } else {
        let prev = scanned(c, found.drop_last());
        let name = found.last().0@;
        match segment_name_id(c.prefix@, c.extension@, name) {
            Some(id) => prev.push(
                SegmentMetaView {
                    id,
                    path: join_spec(c.dir@, name),
                    size: found.last().1,
                    is_active: false,
                },
            ),
            None => prev,
        }
    }
}

/// Where a segment with id `id` goes in `s`: after every leading segment
/// whose id is not larger.
pub open spec fn insert_index(s: Seq<SegmentMetaView>, id: u64) -> int
    decreases s.len(),
{
    if s.len() == 0 {
        0
    } else if s[0].id <= id {
        1 + insert_index(s.drop_first(), id)
    } else {
        0
    }
}

/// `s` sorted by id, segments with equal ids keeping their order.
pub open spec fn sort_by_id(s: Seq<SegmentMetaView>) -> Seq<SegmentMetaView>
    decreases s.len(),
{
    if s.len() == 0 {
        Seq::empty()
    } else {
        let p = sort_by_id(s.drop_last());
        p.insert(insert_index(p, s.last().id), s.last())
    }
}

/// The largest id in `s`, 0 for none.
pub open spec fn max_id(s: Seq<SegmentMetaView>) -> u64
    decreases s.len(),
{
    if s.len() == 0 {
        0
    } else if s.last().id > max_id(s.drop_last()) {
        s.last().id
    } else {
        max_id(s.drop_last())
    }
}

/// The index of the first segment of `s` with id `id`, -1 for none.
pub open spec fn first_index(s: Seq<SegmentMetaView>, id: u64) -> int
    decreases s.len(),
{
    if s.len() == 0 {
        -1
    } else if s[0].id == id {
        0
    } else if first_index(s.drop_first(), id) < 0 {
        -1
    } else {
        1 + first_index(s.drop_first(), id)
    }
}

/// Whether the ids of `s` never decrease.
pub open spec fn ids_ascending(s: Seq<SegmentMetaView>) -> bool {
    forall|i: int, j: int| 0 <= i <= j < s.len() ==> #[trigger] s[i].id <= #[trigger] s[j].id
}

/// The views of `v`.
pub open spec fn metas_view(v: Seq<SegmentMeta>) -> Seq<SegmentMetaView> {
    v.map_values(|m: SegmentMeta| m@)
}

proof fn lemma_first_index(s: Seq<SegmentMetaView>, id: u64, i: int)
    requires
        0 <= i <= s.len(),
        forall|k: int| 0 <= k < i ==> (#[trigger] s[k]).id != id,
        i < s.len() ==> s[i].id == id,
    ensures
        first_index(s, id) == (if i < s.len() { i } else { -1 }),
    decreases s.len(),
{
    if s.len() > 0 && i > 0 {
        assert forall|k: int| 0 <= k < i - 1 implies (#[trigger] s.drop_first()[k]).id != id by {
            assert(s.drop_first()[k] == s[k + 1]);
        }
        lemma_first_index(s.drop_first(), id, i - 1);
    }
}

proof fn lemma_insert_index(s: Seq<SegmentMetaView>, id: u64, p: int)
    requires
        0 <= p <= s.len(),
        forall|k: int| 0 <= k < p ==> (#[trigger] s[k]).id <= id,
        p < s.len() ==> s[p].id > id,
    ensures
        insert_index(s, id) == p,
    decreases s.len(),
{
    if s.len() > 0 && p > 0 {
        assert forall|k: int| 0 <= k < p - 1 implies (#[trigger] s.drop_first()[k]).id <= id by {
            assert(s.drop_first()[k] == s[k + 1]);
        }
        lemma_insert_index(s.drop_first(), id, p - 1);
    }
}

proof fn lemma_insert_index_bounds(s: Seq<SegmentMetaView>, id: u64)
    ensures
        0 <= insert_index(s, id) <= s.len(),
    decreases s.len(),
{
    if s.len() > 0 {
        lemma_insert_index_bounds(s.drop_first(), id);
    }
}

/// Sorting keeps every segment and orders them by id.
pub proof fn lemma_sort_by_id(s: Seq<SegmentMetaView>)
    ensures
        sort_by_id(s).len() == s.len(),
        ids_ascending(sort_by_id(s)),
        forall|i: int|
            0 <= i < sort_by_id(s).len() ==> exists|j: int|
                0 <= j < s.len() && s[j] == #[trigger] sort_by_id(s)[i],
    decreases s.len(),
{
    if s.len() > 0 {
        let p = sort_by_id(s.drop_last());
        let m = s.last();
        lemma_sort_by_id(s.drop_last());
        lemma_insert_index_bounds(p, m.id);
        let k = insert_index(p, m.id);
        lemma_insert_index_before(p, m.id);
        let r = p.insert(k, m);
        assert forall|i: int, j: int| 0 <= i <= j < r.len() implies #[trigger] r[i].id <= #[trigger] r[j].id by {
            if j < k {
                assert(r[i] == p[i] && r[j] == p[j]);
            } else if j == k {
                if i < k {
                    assert(r[i] == p[i]);
                }
            } else if i < k {
                assert(r[i] == p[i] && r[j] == p[j - 1]);
            } else if i == k {
                assert(r[j] == p[j - 1]);
                assert(p[k].id > m.id);
                assert(p[k].id <= p[j - 1].id);
            } else {
                assert(r[i] == p[i - 1] && r[j] == p[j - 1]);
            }
        }
        assert forall|i: int| 0 <= i < r.len() implies exists|j: int|
            0 <= j < s.len() && s[j] == #[trigger] r[i] by {
            if i == k {
                assert(s[s.len() - 1] == r[i]);
            } else {
                let pi = if i < k { i } else { i - 1 };
                assert(r[i] == p[pi]);
                let j = choose|j: int| 0 <= j < s.drop_last().len() && s.drop_last()[j] == p[pi];
                assert(s[j] == r[i]);
            }
        }
    }
}

proof fn lemma_insert_index_before(s: Seq<SegmentMetaView>, id: u64)
    ensures
        forall|k: int| 0 <= k < insert_index(s, id) ==> (#[trigger] s[k]).id <= id,
        insert_index(s, id) < s.len() ==> s[insert_index(s, id)].id > id,
    decreases s.len(),
{
    if s.len() > 0 && s[0].id <= id {
        lemma_insert_index_before(s.drop_first(), id);
        lemma_insert_index_bounds(s.drop_first(), id);
        assert forall|k: int| 0 <= k < insert_index(s, id) implies (#[trigger] s[k]).id <= id by {
            if k > 0 {
                assert(s[k] == s.drop_first()[k - 1]);
            }
        }
    }
}

/// The segments of a directory and the one being written.
pub struct SegmentManager {
    config: SegmentConfig,
    segments: Vec<SegmentMeta>,
    active_id: u64,
    active_size: u64,
}

impl SegmentManager {
    /// The configuration.
    pub closed spec fn spec_config(&self) -> SegmentConfig {
        self.config
    }

    /// The segments, in the order kept.
    pub closed spec fn spec_segments(&self) -> Seq<SegmentMetaView> {
        metas_view(self.segments@)
    }

    /// The id of the segment being written.
    pub closed spec fn spec_active_id(&self) -> u64 {
        self.active_id
    }

    /// The size of the segment being written.
    pub closed spec fn spec_active_size(&self) -> u64 {
        self.active_size
    }

    /// The segments are ordered by id, none has an id above the active one,
    /// and only the first segment with the active id may be marked active.
    pub open spec fn wf(&self) -> bool {
        &&& ids_ascending(self.spec_segments())
        &&& forall|i: int|
            0 <= i < self.spec_segments().len() ==> (#[trigger] self.spec_segments()[i]).id
                <= self.spec_active_id()
        &&& active_marks_ok(self.spec_segments(), self.spec_active_id())
    }

    /// The manager of the segment files among `found`, the names and sizes
    /// of the regular files of `config.dir`. The segment with the largest id
    /// is the one written next (id 0 when there is none).
    pub fn new(config: SegmentConfig, found: &[(String, u64)]) -> (r: Self)
        ensures
            r.wf(),
            r.spec_config() == config,
            r.spec_segments() == activated(sort_by_id(scanned(config, found@)), max_id(scanned(config, found@))),
            r.spec_active_id() == max_id(scanned(config, found@)),
            r.spec_active_size() == (if first_index(r.spec_segments(), r.spec_active_id()) >= 0 {
                r.spec_segments()[first_index(r.spec_segments(), r.spec_active_id())].size
            } else {
                0
            }),
    {
        let segments = Self::scan_segments(&config, found);
        let ghost sc = scanned(config, found@);
        let mut active_id: u64 = 0;
        let mut i: usize = 0;
        while i < segments.len()
            invariant
                i <= segments@.len(),
                metas_view(segments@) == sort_by_id(sc),
                active_id == max_id(metas_view(segments@).take(i as int)),
            decreases segments@.len() - i,
        {
            let ghost t = metas_view(segments@).take(i + 1);
            assert(t.drop_last() =~= metas_view(segments@).take(i as int));
            if segments[i].id > active_id {
                active_id = segments[i].id;
            }
            i = i + 1;
        }
        proof {
            assert(metas_view(segments@).take(i as int) =~= metas_view(segments@));
            lemma_sort_by_id(sc);
            lemma_max_id_sorted(sort_by_id(sc), sc);
        }
        let ghost sorted = metas_view(segments@);
        proof {
            lemma_scanned_inactive(config, found@);
            assert forall|i: int| 0 <= i < sorted.len() implies !(#[trigger] sorted[i]).is_active by {
                let j = choose|j: int| 0 <= j < sc.len() && sc[j] == sorted[i];
            }
            lemma_max_id_bound(sorted);
            lemma_first_index_facts(sorted, active_id);
        }
        let mut mgr = SegmentManager { config, segments, active_id, active_size: 0 };
        match mgr.find_index(active_id) {
            Some(k) => {
                mgr.active_size = mgr.segments[k].size;
                let m = SegmentMeta {
                    id: mgr.segments[k].id,
                    path: mgr.segments[k].path.clone(),
                    size: mgr.segments[k].size,
                    is_active: true,
                };
                mgr.segments.set(k, m);
                proof {
                    assert(metas_view(mgr.segments@) =~= activated(sorted, active_id));
                }
            },
            None => {
                assert(metas_view(mgr.segments@) =~= activated(sorted, active_id));
            },
        }
        proof {
            let t = metas_view(mgr.segments@);
            lemma_first_index_same_ids(t, sorted, active_id);
            assert(ids_ascending(t)) by {
                assert forall|i: int, j: int| 0 <= i <= j < t.len() implies #[trigger] t[i].id <= #[trigger] t[j].id by {
                    assert(t[i].id == sorted[i].id && t[j].id == sorted[j].id);
                }
            }
            assert forall|i: int| 0 <= i < t.len() implies (#[trigger] t[i]).id <= active_id by {
                assert(t[i].id == sorted[i].id);
            }
        }
        mgr
    }

    /// The segment files among `found`, ordered by id.
    fn scan_segments(config: &SegmentConfig, found: &[(String, u64)]) -> (r: Vec<SegmentMeta>)
        ensures
            metas_view(r@) == sort_by_id(scanned(*config, found@)),
    {
        let mut suffix = String::from_str(".");
        suffix.append(config.extension.as_str());
        proof {
            reveal_strlit(".");
            assert(suffix@ =~= segment_suffix(config.extension@));
        }
        let mut segments: Vec<SegmentMeta> = Vec::new();
        let mut i: usize = 0;
        while i < found.len()
            invariant
                i <= found@.len(),
                suffix@ == segment_suffix(config.extension@),
                metas_view(segments@) == sort_by_id(scanned(*config, found@.take(i as int))),
            decreases found@.len() - i,
        {
            let ghost pre = found@.take(i as int);
            assert(found@.take(i + 1).drop_last() =~= pre);
            let name = found[i].0.as_str();
            let size = found[i].1;
            let ghost t = found@.take(i + 1);
            assert(t.last() == found@[i as int]);
            match Self::name_id(config, suffix.as_str(), name) {
                Some(id) => {
                    let path = join(config.dir.as_str(), name);
                    let m = SegmentMeta { id, path, size, is_active: false };
                    let ghost x = scanned(*config, pre);
                    let ghost mv = m@;
                    assert(scanned(*config, t) == x.push(mv));
                    assert(x.push(mv).drop_last() =~= x);
                    insert_by_id(&mut segments, m);
                },
                None => {
                    assert(scanned(*config, t) == scanned(*config, pre));
                },
            }
            i = i + 1;
        }
        assert(found@.take(i as int) =~= found@);
        segments
    }

    /// The id of the segment file called `name`, if it is one.
    fn name_id(config: &SegmentConfig, suffix: &str, name: &str) -> (r: Option<u64>)
        requires
            suffix@ == segment_suffix(config.extension@),
        ensures
            r == segment_name_id(config.prefix@, config.extension@, name@),
    {
        if !starts_with(name, config.prefix.as_str()) || !ends_with(name, suffix) {
            return None;
        }
        let n = name.unicode_len();
        let plen = config.prefix.as_str().unicode_len();
        let slen = suffix.unicode_len();
        let rest = name.substring_char(plen, n);
        let rlen = n - plen;
        assert(rest@ =~= name@.skip(plen as int));
        let stem = if rlen >= slen {
            let s = rest.substring_char(0, rlen - slen);
            assert(s@ =~= rest@.take(rlen - slen));
            s
        } else {
            ""
        };
        proof {
            reveal_strlit("");
            if rlen < slen {
                assert(stem@ =~= Seq::<char>::empty());
            }
        }
        match parse_u64(stem) {
            Some(v) => Some(v),
            None => Some(0),
        }
    }

    /// The index of the first segment with id `id`.
    fn find_index(&self, id: u64) -> (r: Option<usize>)
        ensures
            r matches Some(k) ==> k == first_index(self.spec_segments(), id) && k
                < self.segments@.len(),
            r is None ==> first_index(self.spec_segments(), id) == -1,
    {
        let mut k: usize = 0;
        while k < self.segments.len()
            invariant
                k <= self.segments@.len(),
                forall|j: int| 0 <= j < k ==> (#[trigger] self.spec_segments()[j]).id != id,
            decreases self.segments@.len() - k,
        {
            if self.segments[k].id == id {
                proof {
                    lemma_first_index(self.spec_segments(), id, k as int);
                }
                return Some(k);
            }
            k = k + 1;
        }
        proof {
            lemma_first_index(self.spec_segments(), id, k as int);
        }
        None
    }

    /// The path of the segment being written.
    pub fn active_path(&self) -> (r: String)
        ensures
            r@ == segment_path_spec(self.spec_config(), self.spec_active_id()),
    {
        self.make_path(self.active_id)
    }

    /// The id of the segment being written.
    pub fn active_id(&self) -> (r: u64)
        ensures
            r == self.spec_active_id(),
    {
        self.active_id
    }

    /// The size of the segment being written.
    pub fn active_size(&self) -> (r: u64)
        ensures
            r == self.spec_active_size(),
    {
        self.active_size
    }

    /// Whether the segment being written has reached its largest size.
    pub fn should_rotate(&self) -> (r: bool)
        ensures
            r == (self.spec_active_size() >= self.spec_config().max_segment_size),
    {
        self.active_size >= self.config.max_segment_size
    }

    /// The path of segment `id`.
    pub fn make_path(&self, id: u64) -> (r: String)
        ensures
            r@ == segment_path_spec(self.spec_config(), id),
    {
        let d = decimal_string(id);
        let mut name = self.config.prefix.clone();
        name.append(d.as_str());
        name.append(".");
        name.append(self.config.extension.as_str());
        proof {
            reveal_strlit(".");
            assert(name@ =~= segment_file_name(self.config, id));
        }
        join(self.config.dir.as_str(), name.as_str())
    }

    /// Records that the file of the next segment has been created and makes
    /// it the one written; returns its id and path.
    pub fn create_segment(&mut self) -> (r: (u64, String))
        requires
            old(self).wf(),
            old(self).spec_active_id() < u64::MAX,
        ensures
            final(self).wf(),
            r.0 == old(self).spec_active_id() + 1,
            r.1@ == segment_path_spec(old(self).spec_config(), r.0),
            final(self).spec_config() == old(self).spec_config(),
            final(self).spec_active_id() == r.0,
            final(self).spec_active_size() == 0,
            final(self).spec_segments() == deactivated(old(self).spec_segments(), old(self).spec_active_id()).push(
                SegmentMetaView { id: r.0, path: r.1@, size: 0, is_active: true },
            ),
    {
        let new_id = self.active_id + 1;
        let new_path = self.make_path(new_id);
        let ghost old_segs = self.spec_segments();
        match self.find_index(self.active_id) {
            Some(k) => {
                let m = SegmentMeta {
                    id: self.segments[k].id,
                    path: self.segments[k].path.clone(),
                    size: self.segments[k].size,
                    is_active: false,
                };
                self.segments.set(k, m);
                proof {
                    assert(metas_view(self.segments@) =~= deactivated(old_segs, old(self).active_id));
                }
            },
            None => {
                proof {
                    assert(metas_view(self.segments@) =~= deactivated(old_segs, old(self).active_id));
                }
            },
        }
        let ghost mid = self.spec_segments();
        self.segments.push(SegmentMeta { id: new_id, path: new_path.clone(), size: 0, is_active: true });
        self.active_id = new_id;
        self.active_size = 0;
        proof {
            assert(metas_view(self.segments@) =~= mid.push(
                SegmentMetaView { id: new_id, path: new_path@, size: 0, is_active: true },
            ));
            assert forall|i: int| 0 <= i < mid.len() implies #[trigger] mid[i].id == old_segs[i].id by {}
            lemma_marks_after_create(
                old_segs,
                old(self).active_id,
                SegmentMetaView { id: new_id, path: new_path@, size: 0, is_active: true },
            );
        }
        (new_id, new_path)
    }

    /// Adds `written` bytes to the size of the segment being written and
    /// tells whether it has reached its largest size; its entry, if any,
    /// takes the new size and, when it is full, stops being marked active.
    pub fn update_active_size(&mut self, written: u64) -> (r: bool)
        requires
            old(self).spec_active_size() + written <= u64::MAX,
        ensures
            final(self).spec_active_size() == old(self).spec_active_size() + written,
            r == (final(self).spec_active_size() >= old(self).spec_config().max_segment_size),
            final(self).spec_config() == old(self).spec_config(),
            final(self).spec_active_id() == old(self).spec_active_id(),
            final(self).spec_segments() == resized(
                old(self).spec_segments(),
                old(self).spec_active_id(),
                final(self).spec_active_size(),
                r,
            ),
            old(self).wf() ==> final(self).wf(),
    {
        self.active_size = self.active_size + written;
        let full = self.should_rotate();
        let ghost old_segs = self.spec_segments();
        match self.find_index(self.active_id) {
            Some(k) => {
                let m = SegmentMeta {
                    id: self.segments[k].id,
                    path: self.segments[k].path.clone(),
                    size: self.active_size,
                    is_active: if full { false } else { self.segments[k].is_active },
                };
                self.segments.set(k, m);
            },
            None => {},
        }
        proof {
            assert(metas_view(self.segments@) =~= resized(old_segs, self.active_id, self.active_size, full));
            if old(self).wf() {
                lemma_marks_after_resize(old_segs, self.active_id, self.active_size, full);
            }
        }
        full
    }

    /// Moves on to a new segment: the same as `create_segment`.
    pub fn rotate(&mut self) -> (r: (u64, String))
        requires
            old(self).wf(),
            old(self).spec_active_id() < u64::MAX,
        ensures
            final(self).wf(),
            r.0 == old(self).spec_active_id() + 1,
            r.1@ == segment_path_spec(old(self).spec_config(), r.0),
            final(self).spec_config() == old(self).spec_config(),
            final(self).spec_active_id() == r.0,
            final(self).spec_active_size() == 0,
            final(self).spec_segments() == deactivated(old(self).spec_segments(), old(self).spec_active_id()).push(
                SegmentMetaView { id: r.0, path: r.1@, size: 0, is_active: true },
            ),
    {
        self.create_segment()
    }

    /// All segments.
    pub fn segments(&self) -> (r: &[SegmentMeta])
        ensures
            metas_view(r@) == self.spec_segments(),
    {
        self.segments.as_slice()
    }

    /// The number of segments.
    pub fn segment_count(&self) -> (r: usize)
        ensures
            r == self.spec_segments().len(),
    {
        self.segments.len()
    }

    /// The configuration.
    pub fn config(&self) -> (r: &SegmentConfig)
        ensures
            *r == self.spec_config(),
    {
        &self.config
    }

    /// Forgets the first segment with id `id` and returns the path of its
    /// file, which the caller deletes; `None` when there is no such segment.
    pub fn remove_segment(&mut self, id: u64) -> (r: Option<String>)
        ensures
            final(self).spec_config() == old(self).spec_config(),
            final(self).spec_active_id() == old(self).spec_active_id(),
            final(self).spec_active_size() == old(self).spec_active_size(),
            first_index(old(self).spec_segments(), id) < 0 ==> r is None && final(self).spec_segments()
                == old(self).spec_segments(),
            first_index(old(self).spec_segments(), id) >= 0 ==> (r matches Some(p) && p@ == old(
                self,
            ).spec_segments()[first_index(old(self).spec_segments(), id)].path)
                && final(self).spec_segments() == old(self).spec_segments().remove(
                first_index(old(self).spec_segments(), id),
            ),
            old(self).wf() ==> final(self).wf(),
    {
        match self.find_index(id) {
            Some(k) => {
                let ghost old_segs = self.spec_segments();
                let removed = self.segments.remove(k);
                proof {
                    assert(metas_view(self.segments@) =~= old_segs.remove(k as int));
                    if old(self).wf() {
                        lemma_marks_after_remove(old_segs, self.active_id, k as int);
                    }
                }
                Some(removed.path)
            },
            None => None,
        }
    }

    /// The first segment with id `id`, if any.
    pub fn get_segment(&self, id: u64) -> (r: Option<&SegmentMeta>)
        ensures
            first_index(self.spec_segments(), id) < 0 ==> r is None,
            first_index(self.spec_segments(), id) >= 0 ==> (r matches Some(m) && m@
                == self.spec_segments()[first_index(self.spec_segments(), id)]),
    {
        match self.find_index(id) {
            Some(k) => Some(&self.segments[k]),
            None => None,
        }
    }
}

/// `s` with the first segment of id `id`, if any, marked active.
pub open spec fn activated(s: Seq<SegmentMetaView>, id: u64) -> Seq<SegmentMetaView> {
    let k = first_index(s, id);
    if k >= 0 {
        s.update(k, SegmentMetaView { is_active: true, ..s[k] })
    } else {
        s
    }
}

/// Whether a segment of `s` marked active is the first one with id
/// `active_id`: at most one segment is marked active, and it is the
/// segment being written.
pub open spec fn active_marks_ok(s: Seq<SegmentMetaView>, active_id: u64) -> bool {
    forall|i: int|
        0 <= i < s.len() && (#[trigger] s[i]).is_active ==> s[i].id == active_id && first_index(s, active_id) == i
}

/// `first_index` finds the first segment with the id, or tells there is
/// none.
proof fn lemma_first_index_facts(s: Seq<SegmentMetaView>, id: u64)
    ensures
        -1 <= first_index(s, id) < s.len(),
        first_index(s, id) >= 0 ==> s[first_index(s, id)].id == id,
        forall|k: int| 0 <= k < s.len() && (k < first_index(s, id) || first_index(s, id) < 0) ==> (#[trigger] s[k]).id != id,
    decreases s.len(),
{
    if s.len() > 0 {
        lemma_first_index_facts(s.drop_first(), id);
        assert forall|k: int| 0 <= k < s.len() && (k < first_index(s, id) || first_index(s, id) < 0) implies (#[trigger] s[k]).id != id by {
            if k > 0 {
                assert(s[k] == s.drop_first()[k - 1]);
            }
        }
    }
}

/// `first_index` only looks at the ids.
proof fn lemma_first_index_same_ids(s: Seq<SegmentMetaView>, t: Seq<SegmentMetaView>, id: u64)
    requires
        s.len() == t.len(),
        forall|i: int| 0 <= i < s.len() ==> (#[trigger] s[i]).id == t[i].id,
    ensures
        first_index(s, id) == first_index(t, id),
    decreases s.len(),
{
    if s.len() > 0 {
        assert forall|i: int| 0 <= i < s.drop_first().len() implies (#[trigger] s.drop_first()[i]).id == t.drop_first()[i].id by {
            assert(s.drop_first()[i] == s[i + 1] && t.drop_first()[i] == t[i + 1]);
        }
        lemma_first_index_same_ids(s.drop_first(), t.drop_first(), id);
        assert(s[0].id == t[0].id);
    }
}

/// No scanned segment is marked active.
proof fn lemma_scanned_inactive(c: SegmentConfig, found: Seq<(String, u64)>)
    ensures
        forall|i: int| 0 <= i < scanned(c, found).len() ==> !(#[trigger] scanned(c, found)[i]).is_active,
    decreases found.len(),
{
    if found.len() > 0 {
        lemma_scanned_inactive(c, found.drop_last());
        let prev = scanned(c, found.drop_last());
        assert forall|i: int| 0 <= i < scanned(c, found).len() implies !(#[trigger] scanned(c, found)[i]).is_active by {
            if i < prev.len() {
                assert(scanned(c, found)[i] == prev[i]);
            }
        }
    }
}

/// Deactivating the segment written and adding a new active one with a
/// larger id leaves the new one the only one marked active.
proof fn lemma_marks_after_create(s: Seq<SegmentMetaView>, a: u64, m: SegmentMetaView)
    requires
        active_marks_ok(s, a),
        forall|i: int| 0 <= i < s.len() ==> (#[trigger] s[i]).id <= a,
        a < m.id,
    ensures
        active_marks_ok(deactivated(s, a).push(m), m.id),
{
    let d = deactivated(s, a);
    let t = d.push(m);
    lemma_first_index_facts(s, a);
    assert forall|i: int| 0 <= i < d.len() implies (#[trigger] t[i]).id != m.id by {
        assert(t[i] == d[i]);
        assert(d[i].id == s[i].id);
    }
    lemma_first_index(t, m.id, d.len() as int);
    assert forall|i: int| 0 <= i < t.len() && (#[trigger] t[i]).is_active implies t[i].id == m.id && first_index(
        t,
        m.id,
    ) == i by {
        if i < d.len() {
            assert(t[i] == d[i]);
            if first_index(s, a) >= 0 && i == first_index(s, a) {
                assert(!d[i].is_active);
            } else {
                assert(d[i] == s[i]);
            }
        }
    }
}

/// Changing the size of the first segment with the active id, and maybe
/// unmarking it, keeps the marks right.
proof fn lemma_marks_after_resize(s: Seq<SegmentMetaView>, a: u64, size: u64, full: bool)
    requires
        active_marks_ok(s, a),
    ensures
        active_marks_ok(resized(s, a, size, full), a),
{
    let t = resized(s, a, size, full);
    lemma_first_index_facts(s, a);
    assert forall|i: int| 0 <= i < s.len() implies (#[trigger] s[i]).id == t[i].id by {}
    lemma_first_index_same_ids(s, t, a);
    assert forall|i: int| 0 <= i < t.len() && (#[trigger] t[i]).is_active implies t[i].id == a && first_index(t, a)
        == i by {
        assert(s[i].is_active);
    }
}

/// Removing a segment keeps the marks right.
proof fn lemma_marks_after_remove(s: Seq<SegmentMetaView>, a: u64, k: int)
    requires
        active_marks_ok(s, a),
        0 <= k < s.len(),
    ensures
        active_marks_ok(s.remove(k), a),
{
    let t = s.remove(k);
    lemma_first_index_facts(s, a);
    assert forall|i: int| 0 <= i < t.len() && (#[trigger] t[i]).is_active implies t[i].id == a && first_index(t, a)
        == i by {
        let j = if i < k { i } else { i + 1 };
        assert(t[i] == s[j]);
        assert(first_index(s, a) == j);
        assert forall|q: int| 0 <= q < i implies (#[trigger] t[q]).id != a by {
            let qq = if q < k { q } else { q + 1 };
            assert(t[q] == s[qq]);
            assert(qq < j);
        }
        lemma_first_index(t, a, i);
    }
}

/// `s` with the first segment of id `id`, if any, no longer marked active.
pub open spec fn deactivated(s: Seq<SegmentMetaView>, id: u64) -> Seq<SegmentMetaView> {
    let k = first_index(s, id);
    if k >= 0 {
        s.update(k, SegmentMetaView { is_active: false, ..s[k] })
    } else {
        s
    }
}

/// `s` with the first segment of id `id`, if any, of size `size`, and no
/// longer marked active when `full`.
pub open spec fn resized(s: Seq<SegmentMetaView>, id: u64, size: u64, full: bool) -> Seq<SegmentMetaView> {
    let k = first_index(s, id);
    if k >= 0 {
        s.update(
            k,
            SegmentMetaView { size, is_active: if full { false } else { s[k].is_active }, ..s[k] },
        )
    } else {
        s
    }
}

/// Inserts `m` into `v` after every leading segment whose id is not larger.
fn insert_by_id(v: &mut Vec<SegmentMeta>, m: SegmentMeta)
    ensures
        metas_view(final(v)@) == metas_view(old(v)@).insert(insert_index(metas_view(old(v)@), m.id), m@),
{
    let ghost s = metas_view(v@);
    let mut p: usize = 0;
    while p < v.len() && v[p].id <= m.id
        invariant
            p <= v@.len(),
            s == metas_view(v@),
            forall|k: int| 0 <= k < p ==> (#[trigger] s[k]).id <= m.id,
        decreases v@.len() - p,
    {
        p = p + 1;
    }
    proof {
        lemma_insert_index(s, m.id, p as int);
    }
    let ghost mv = m@;
    v.insert(p, m);
    assert(metas_view(v@) =~= s.insert(p as int, mv));
}

proof fn lemma_max_id_sorted(sorted: Seq<SegmentMetaView>, s: Seq<SegmentMetaView>)
    requires
        sorted == sort_by_id(s),
    ensures
        max_id(sorted) == max_id(s),
{
    lemma_max_id_is_max(s);
    lemma_max_id_is_max(sorted);
    lemma_sort_by_id(s);
    lemma_sort_elements(s);
    if s.len() > 0 {
        let i = choose|i: int| 0 <= i < sorted.len() && sorted[i].id == max_id(sorted);
        let j = choose|j: int| 0 <= j < s.len() && s[j] == #[trigger] sorted[i];
        assert(s[j].id <= max_id(s));
        let i2 = choose|i: int| 0 <= i < s.len() && s[i].id == max_id(s);
        assert(sorted.contains(s[i2]));
        let q = choose|q: int| 0 <= q < sorted.len() && sorted[q] == s[i2];
        assert(sorted[q].id <= max_id(sorted));
    }
}

proof fn lemma_sort_elements(s: Seq<SegmentMetaView>)
    ensures
        forall|j: int| 0 <= j < s.len() ==> sort_by_id(s).contains(#[trigger] s[j]),
    decreases s.len(),
{
    if s.len() > 0 {
        let p = sort_by_id(s.drop_last());
        lemma_sort_elements(s.drop_last());
        lemma_insert_index_bounds(p, s.last().id);
        let k = insert_index(p, s.last().id);
        let r = p.insert(k, s.last());
        assert forall|j: int| 0 <= j < s.len() implies r.contains(#[trigger] s[j]) by {
            if j == s.len() - 1 {
                assert(r[k] == s[j]);
            } else {
                assert(s.drop_last()[j] == s[j]);
                assert(p.contains(s[j]));
                let q = choose|q: int| 0 <= q < p.len() && p[q] == s[j];
                if q < k {
                    assert(r[q] == s[j]);
                } else {
                    assert(r[q + 1] == s[j]);
                }
            }
        }
    }
}

/// `max_id(s)` is an id of `s` that no id of `s` exceeds (0 for none).
proof fn lemma_max_id_is_max(s: Seq<SegmentMetaView>)
    ensures
        forall|i: int| 0 <= i < s.len() ==> (#[trigger] s[i]).id <= max_id(s),
        s.len() > 0 ==> exists|i: int| 0 <= i < s.len() && s[i].id == max_id(s),
        s.len() == 0 ==> max_id(s) == 0,
    decreases s.len(),
{
    if s.len() > 0 {
        lemma_max_id_is_max(s.drop_last());
        assert forall|i: int| 0 <= i < s.len() implies (#[trigger] s[i]).id <= max_id(s) by {
            if i < s.len() - 1 {
                assert(s[i] == s.drop_last()[i]);
            }
        }
        if s.last().id > max_id(s.drop_last()) {
            assert(s[s.len() - 1].id == max_id(s));
        } else if s.len() > 1 {
            let i = choose|i: int| 0 <= i < s.drop_last().len() && s.drop_last()[i].id == max_id(s.drop_last());
            assert(s[i].id == max_id(s));
        } else {
            assert(s[0].id >= 0);
        }
    }
}

proof fn lemma_max_id_bound(s: Seq<SegmentMetaView>)
    ensures
        forall|i: int| 0 <= i < s.len() ==> (#[trigger] s[i]).id <= max_id(s),
{
    lemma_max_id_is_max(s);
}

/// The file a manager names for segment `id` is found again as segment
/// `id` when the directory is scanned.
pub proof fn lemma_segment_name_roundtrip(c: SegmentConfig, id: u64)
    ensures
        segment_name_id(c.prefix@, c.extension@, segment_file_name(c, id)) == Some(id),
{
    let p = c.prefix@;
    let d = decimal(id as nat);
    let s = segment_suffix(c.extension@);
    let name = segment_file_name(c, id);
    assert(name == p + d + s);
    assert(name.subrange(0, p.len() as int) =~= p);
    assert(name.subrange(name.len() - s.len(), name.len() as int) =~= s);
    let rest = name.skip(p.len() as int);
    assert(rest =~= d + s);
    assert(rest.take(rest.len() - s.len()) =~= d);
    crate::decimal::lemma_parse_decimal(id);
}

/// Whatever operations brought a manager where it is: its segments are
/// ordered by id, none has an id above the active one, at most one is
/// marked active, and the one marked active has the active id.
pub proof fn lemma_segment_order_and_marks(m: SegmentManager)
    requires
        m.wf(),
    ensures
        ids_ascending(m.spec_segments()),
        forall|i: int| 0 <= i < m.spec_segments().len() ==> (#[trigger] m.spec_segments()[i]).id <= m.spec_active_id(),
        forall|i: int, j: int|
            0 <= i < m.spec_segments().len() && 0 <= j < m.spec_segments().len() && (#[trigger] m.spec_segments()[i]).is_active
                && (#[trigger] m.spec_segments()[j]).is_active ==> i == j,
        forall|i: int|
            0 <= i < m.spec_segments().len() && (#[trigger] m.spec_segments()[i]).is_active ==> m.spec_segments()[i].id
                == m.spec_active_id(),
{
}

/// A segment created next gets an id above the id of every segment held.
pub proof fn lemma_created_id_fresh(m: SegmentManager)
    requires
        m.wf(),
    ensures
        forall|i: int|
            0 <= i < m.spec_segments().len() ==> (#[trigger] m.spec_segments()[i]).id < m.spec_active_id() + 1,
{
}

} // verus!
