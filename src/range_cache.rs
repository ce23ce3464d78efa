use vstd::prelude::*;

verus! {

/// A half-open byte range `[start, end)` of an object.
#[derive(Debug, Clone, Copy, PartialEq, Eq, Structural)]
pub struct ByteRange {
    pub start: usize,
    pub end: usize,
}

/// What the cache is keyed by: an object path and an exact byte range.
pub type CacheKey = (Seq<char>, ByteRange);

/// One cached read.
pub struct CacheEntry {
    pub path: String,
    pub range: ByteRange,
    pub bytes: Vec<u8>,
}

impl CacheEntry {
    pub open spec fn key(&self) -> CacheKey {
        (self.path@, self.range)
    }
}

/// The map that a sequence of entries stands for; a later entry wins.
pub open spec fn entries_map(s: Seq<CacheEntry>) -> Map<CacheKey, Seq<u8>>
    decreases s.len(),
{
    if s.len() == 0 {
        Map::empty()
    } else {
        entries_map(s.drop_last()).insert(s.last().key(), s.last().bytes@)
    }
}

/// No two entries share a key.
pub open spec fn keys_unique(s: Seq<CacheEntry>) -> bool {
    forall|i: int, j: int| 0 <= i < s.len() && 0 <= j < s.len() && i != j ==> s[i].key() != s[j].key()
}

proof fn lemma_entries_map_domain(s: Seq<CacheEntry>, k: CacheKey)
    ensures
        entries_map(s).contains_key(k) <==> exists|i: int| 0 <= i < s.len() && s[i].key() == k,
    decreases s.len(),
{
    if s.len() > 0 {
        let p = s.drop_last();
        lemma_entries_map_domain(p, k);
        if entries_map(s).contains_key(k) && k != s.last().key() {
            let i = choose|i: int| 0 <= i < p.len() && p[i].key() == k;
            assert(s[i] == p[i]);
        }
        if exists|i: int| 0 <= i < s.len() && s[i].key() == k {
            let i = choose|i: int| 0 <= i < s.len() && s[i].key() == k;
            if i < s.len() - 1 {
                assert(p[i] == s[i]);
            }
        }
    }
}

proof fn lemma_entries_map_value(s: Seq<CacheEntry>, i: int)
    requires
        keys_unique(s),
        0 <= i < s.len(),
    ensures
        entries_map(s).contains_key(s[i].key()),
        entries_map(s)[s[i].key()] == s[i].bytes@,
    decreases s.len(),
{
    let p = s.drop_last();
    if i < s.len() - 1 {
        assert(keys_unique(p)) by {
            assert forall|a: int, b: int| 0 <= a < p.len() && 0 <= b < p.len() && a != b implies p[a].key()
                != p[b].key() by {
                assert(p[a] == s[a] && p[b] == s[b]);
            }
        }
        assert(p[i] == s[i]);
        lemma_entries_map_value(p, i);
        assert(s.last().key() != s[i].key());
    }
}

/// Caches the bytes of ranged reads, keyed by the exact (path, range).
///
/// Entries never change and are never evicted: the objects behind the cache
/// are assumed immutable for the lifetime of the cache.
pub struct RangeCache {
    entries: Vec<CacheEntry>,
}

impl View for RangeCache {
    type V = Map<CacheKey, Seq<u8>>;

    closed spec fn view(&self) -> Map<CacheKey, Seq<u8>> {
        entries_map(self.entries@)
    }
}

impl RangeCache {
    /// The cache's internal invariant.
    pub closed spec fn wf(&self) -> bool {
        keys_unique(self.entries@)
    }

    /// An empty cache.
    pub fn new() -> (r: RangeCache)
        ensures
            r.wf(),
            r@ == Map::<CacheKey, Seq<u8>>::empty(),
    {
        RangeCache { entries: Vec::new() }
    }

    /// Number of cached reads.
    pub fn len(&self) -> (r: usize)
        requires
            self.wf(),
        ensures
            r == self@.dom().len(),
    {
        proof {
            self.lemma_len();
        }
        self.entries.len()
    }

    proof fn lemma_len(&self)
        requires
            self.wf(),
        ensures
            self@.dom().finite(),
            self@.dom().len() == self.entries@.len(),
    {
        lemma_dom_len(self.entries@);
    }

    /// Index of the entry with the given key, if any.
    fn find(&self, path: &String, range: ByteRange) -> (r: Option<usize>)
        requires
            self.wf(),
        ensures
            match r {
                Some(i) => i < self.entries@.len() && self.entries@[i as int].key() == (path@, range),
                None => !self@.contains_key((path@, range)),
            },
    {
        let mut i: usize = 0;
        while i < self.entries.len()
            invariant
                i <= self.entries@.len(),
                forall|j: int| 0 <= j < i ==> self.entries@[j].key() != (path@, range),
            decreases self.entries@.len() - i,
        {
            let e = &self.entries[i];
            if e.range == range && e.path == *path {
                return Some(i);
            }
            i = i + 1;
        }
        proof {
            lemma_entries_map_domain(self.entries@, (path@, range));
        }
        None
    }

    /// The cached bytes for `(path, range)`, if that exact read was cached.
    pub fn lookup(&self, path: &String, range: ByteRange) -> (r: Option<Vec<u8>>)
        requires
            self.wf(),
        ensures
            match r {
                Some(b) => self@.contains_key((path@, range)) && b@ == self@[(path@, range)],
                None => !self@.contains_key((path@, range)),
            },
    {
        match self.find(path, range) {
            Some(i) => {
                proof {
                    lemma_entries_map_value(self.entries@, i as int);
                }
                let b = self.entries[i].bytes.clone();
                assert(b@ =~= self.entries@[i as int].bytes@);
                Some(b)
            },
            None => None,
        }
    }

    /// Records the bytes read for `(path, range)`.
    pub fn insert(&mut self, path: &String, range: ByteRange, bytes: Vec<u8>)
        requires
            old(self).wf(),
        ensures
            final(self).wf(),
            final(self)@ == old(self)@.insert((path@, range), bytes@),
    {
        let ghost key = (path@, range);
        match self.find(path, range) {
            Some(i) => {
                let ghost before = self.entries@;
                self.entries[i] = CacheEntry { path: path.clone(), range, bytes };
                proof {
                    let after = self.entries@;
                    assert(after[i as int].key() == key);
                    assert forall|a: int, b: int|
                        0 <= a < after.len() && 0 <= b < after.len() && a != b implies after[a].key()
                        != after[b].key() by {
                        if a != i && b != i {
                            assert(after[a] == before[a] && after[b] == before[b]);
                        } else if a == i {
                            assert(after[b] == before[b]);
                        } else {
                            assert(after[a] == before[a]);
                        }
                    }
                    assert forall|k: CacheKey| #[trigger]
                        entries_map(after).contains_key(k) == old(self)@.insert(key, bytes@).contains_key(k) by {
                        lemma_entries_map_domain(after, k);
                        lemma_entries_map_domain(before, k);
                        if exists|j: int| 0 <= j < before.len() && before[j].key() == k {
                            let j = choose|j: int| 0 <= j < before.len() && before[j].key() == k;
                            if j != i {
                                assert(after[j] == before[j]);
                            }
                        }
                        if exists|j: int| 0 <= j < after.len() && after[j].key() == k {
                            let j = choose|j: int| 0 <= j < after.len() && after[j].key() == k;
                            if j != i {
                                assert(after[j] == before[j]);
                            }
                        }
                    }
                    assert forall|k: CacheKey| #[trigger] entries_map(after).contains_key(k) implies
                        entries_map(after)[k] == old(self)@.insert(key, bytes@)[k] by {
                        lemma_entries_map_domain(after, k);
                        let j = choose|j: int| 0 <= j < after.len() && after[j].key() == k;
                        lemma_entries_map_value(after, j);
                        if j != i {
                            assert(after[j] == before[j]);
                            lemma_entries_map_value(before, j);
                        }
                    }
                    assert(entries_map(after) =~= old(self)@.insert(key, bytes@));
                }
            },
            None => {
                let ghost before = self.entries@;
                self.entries.push(CacheEntry { path: path.clone(), range, bytes });
                proof {
                    let after = self.entries@;
                    assert(after.drop_last() =~= before);
                    assert forall|a: int, b: int|
                        0 <= a < after.len() && 0 <= b < after.len() && a != b implies after[a].key()
                        != after[b].key() by {
                        if a < before.len() && b < before.len() {
                            assert(after[a] == before[a] && after[b] == before[b]);
                        } else if a < before.len() {
                            assert(after[a] == before[a]);
                            lemma_entries_map_domain(before, key);
                        } else {
                            assert(after[b] == before[b]);
                            lemma_entries_map_domain(before, key);
                        }
                    }
                }
            },
        }
    }

    /// Ends a read that missed the cache: bytes that the inner store returned
    /// are recorded under `(path, range)` and handed back unchanged; an error
    /// of the inner store is handed back unchanged and records nothing.
    pub fn complete_fetch<E>(&mut self, path: &String, range: ByteRange, fetched: Result<Vec<u8>, E>) -> (r:
        Result<Vec<u8>, E>)
        requires
            old(self).wf(),
        ensures
            final(self).wf(),
            match fetched {
                Ok(b) => r matches Ok(rb) && rb@ == b@ && final(self)@ == old(self)@.insert((path@, range), b@),
                Err(_) => r == fetched && final(self)@ == old(self)@,
            },
    {
        match fetched {
            Ok(b) => {
                let out = b.clone();
                assert(out@ =~= b@);
                self.insert(path, range, b);
                Ok(out)
            },
            Err(e) => Err(e),
        }
    }

    /// Indices of the ranges of one batched read that the inner store must
    /// serve: each range not cached, at its first occurrence, in input order.
    pub fn missing_ranges(&self, path: &String, ranges: &Vec<ByteRange>) -> (r: Vec<usize>)
        requires
            self.wf(),
        ensures
            r@.len() == fetch_count(self@.dom(), path@, ranges@),
            forall|j: int| 0 <= j < r@.len() ==> r@[j] < ranges@.len(),
            forall|j: int, k: int| 0 <= j < k < r@.len() ==> r@[j] < r@[k],
            forall|j: int|
                0 <= j < ranges@.len() ==> (r@.contains(j as usize) <==> is_fetched(self@.dom(), path@, ranges@, j)),
    {
        let mut out: Vec<usize> = Vec::new();
        let mut i: usize = 0;
        while i < ranges.len()
            invariant
                self.wf(),
                i <= ranges@.len(),
                out@.len() == fetch_count(self@.dom(), path@, ranges@.take(i as int)),
                forall|j: int| 0 <= j < out@.len() ==> out@[j] < i,
                forall|j: int, k: int| 0 <= j < k < out@.len() ==> out@[j] < out@[k],
                forall|j: int| 0 <= j < i ==> (out@.contains(j as usize) <==> is_fetched(self@.dom(), path@, ranges@, j)),
            decreases ranges@.len() - i,
        {
            let range = ranges[i];
            let mut seen_before = false;
            let mut k: usize = 0;
            while k < i
                invariant
                    i < ranges@.len(),
                    k <= i,
                    range == ranges@[i as int],
                    seen_before <==> exists|m: int| 0 <= m < k && ranges@[m] == range,
                decreases i - k,
            {
                if ranges[k] == range {
                    seen_before = true;
                }
                k = k + 1;
            }
            let found = self.find(path, range);
            let cached = found.is_some();
            proof {
                lemma_entries_map_domain(self.entries@, (path@, range));
                if let Some(idx) = found {
                    assert(self.entries@[idx as int].key() == (path@, range));
                }
                assert(cached == self@.dom().contains((path@, range)));
                lemma_fetch_count_step(self@.dom(), path@, ranges@, i as int);
            }
            let ghost prev = out@;
            if !cached && !seen_before {
                out.push(i);
            }
            proof {
                assert forall|j: int| 0 <= j < i + 1 implies (out@.contains(j as usize) <==> is_fetched(
                    self@.dom(),
                    path@,
                    ranges@,
                    j,
                )) by {
                    if j < i {
                        if out@.contains(j as usize) {
                            let t = choose|t: int| 0 <= t < out@.len() && out@[t] == j as usize;
                            if t < prev.len() {
                                assert(prev[t] == out@[t]);
                            }
                        }
                        if prev.contains(j as usize) {
                            let t = choose|t: int| 0 <= t < prev.len() && prev[t] == j as usize;
                            assert(out@[t] == prev[t]);
                        }
                    } else {
                        if out@.contains(j as usize) {
                            let t = choose|t: int| 0 <= t < out@.len() && out@[t] == j as usize;
                        }
                        if !cached && !seen_before {
                            assert(out@[out@.len() - 1] == j as usize);
                        }
                    }
                }
            }
            i = i + 1;
        }
        assert(ranges@.take(ranges@.len() as int) =~= ranges@);
        out
    }
}

proof fn lemma_dom_len(s: Seq<CacheEntry>)
    requires
        keys_unique(s),
    ensures
        entries_map(s).dom().finite(),
        entries_map(s).dom().len() == s.len(),
    decreases s.len(),
{
    if s.len() > 0 {
        let p = s.drop_last();
        assert(keys_unique(p)) by {
            assert forall|a: int, b: int| 0 <= a < p.len() && 0 <= b < p.len() && a != b implies p[a].key()
                != p[b].key() by {
                assert(p[a] == s[a] && p[b] == s[b]);
            }
        }
        lemma_dom_len(p);
        lemma_entries_map_domain(p, s.last().key());
        if entries_map(p).contains_key(s.last().key()) {
            let i = choose|i: int| 0 <= i < p.len() && p[i].key() == s.last().key();
            assert(s[i] == p[i]);
            assert(false);
        }
    }
}

/// Whether the read of `ranges[j]` in a batched read goes to the inner store:
/// its range is not cached and did not occur earlier in the batch.
pub open spec fn is_fetched(cached: Set<CacheKey>, path: Seq<char>, ranges: Seq<ByteRange>, j: int) -> bool {
    &&& !cached.contains((path, ranges[j]))
    &&& forall|m: int| 0 <= m < j ==> ranges[m] != ranges[j]
}

/// How many reads of the inner store a batched read of `ranges` makes, when
/// its ranges are read one after another through the cache.
pub open spec fn fetch_count(cached: Set<CacheKey>, path: Seq<char>, ranges: Seq<ByteRange>) -> nat
    decreases ranges.len(),
{
    if ranges.len() == 0 {
        0
    } else {
        let rest = ranges.drop_last();
        let last = ranges.last();
        fetch_count(cached, path, rest) + if cached.contains((path, last)) || rest.contains(last) {
            0nat
        } else {
            1nat
        }
    }
}

proof fn lemma_fetch_count_step(cached: Set<CacheKey>, path: Seq<char>, ranges: Seq<ByteRange>, i: int)
    requires
        0 <= i < ranges.len(),
    ensures
        fetch_count(cached, path, ranges.take(i + 1)) == fetch_count(cached, path, ranges.take(i)) + if is_fetched(
            cached,
            path,
            ranges,
            i,
        ) {
            1nat
        } else {
            0nat
        },
{
    let t = ranges.take(i + 1);
    assert(t.drop_last() =~= ranges.take(i));
    assert(t.last() == ranges[i]);
    if ranges.take(i).contains(ranges[i]) {
        let m = choose|m: int| 0 <= m < i && ranges.take(i)[m] == ranges[i];
        assert(ranges[m] == ranges[i]);
    }
    if exists|m: int| 0 <= m < i && ranges[m] == ranges[i] {
        let m = choose|m: int| 0 <= m < i && ranges[m] == ranges[i];
        assert(ranges.take(i)[m] == ranges[i]);
    }
}

/// One ranged read through the cache, when the inner store would answer the
/// read with `fetched`: the cache afterwards, the bytes handed back, and the
/// number of reads of the inner store (0 on a hit, 1 on a miss).
pub open spec fn read_through(cache: Map<CacheKey, Seq<u8>>, key: CacheKey, fetched: Seq<u8>) -> (Map<
    CacheKey,
    Seq<u8>,
>, Seq<u8>, nat) {
    if cache.contains_key(key) {
        (cache, cache[key], 0)
    } else {
        (cache.insert(key, fetched), fetched, 1)
    }
}

/// A batched read of `ranges` of one object, each range read through the
/// cache in turn; `object` gives what the inner store answers for a range.
/// A reader that fetches the ranges reported by `missing_ranges` and then
/// serves every range from the cache reads the inner store as often.
pub open spec fn read_batch(
    cache: Map<CacheKey, Seq<u8>>,
    path: Seq<char>,
    ranges: Seq<ByteRange>,
    object: spec_fn(ByteRange) -> Seq<u8>,
) -> (Map<CacheKey, Seq<u8>>, Seq<Seq<u8>>, nat)
    decreases ranges.len(),
{
    if ranges.len() == 0 {
        (cache, Seq::empty(), 0)
    } else {
        let (c1, out, n) = read_batch(cache, path, ranges.drop_last(), object);
        let (c2, b, m) = read_through(c1, (path, ranges.last()), object(ranges.last()));
        (c2, out.push(b), n + m)
    }
}

/// Reading the same range twice hands back the same bytes both times, and the
/// second read is served by the cache without reading the inner store.
pub proof fn lemma_repeated_read_is_cached(
    cache: Map<CacheKey, Seq<u8>>,
    key: CacheKey,
    first: Seq<u8>,
    second: Seq<u8>,
)
    ensures
        ({
            let (c1, b1, _n1) = read_through(cache, key, first);
            let (c2, b2, n2) = read_through(c1, key, second);
            b2 == b1 && n2 == 0 && c2 == c1
        }),
{
}

/// Facts about the cache after a batched read.
pub open spec fn batch_outcome(
    cache: Map<CacheKey, Seq<u8>>,
    path: Seq<char>,
    ranges: Seq<ByteRange>,
    c1: Map<CacheKey, Seq<u8>>,
    out: Seq<Seq<u8>>,
) -> bool {
    &&& out.len() == ranges.len()
    &&& forall|j: int|
        0 <= j < ranges.len() ==> c1.contains_key((path, #[trigger] ranges[j])) && c1[(path, ranges[j])]
            == out[j]
    &&& forall|k: CacheKey| #[trigger] cache.contains_key(k) ==> c1.contains_key(k) && c1[k] == cache[k]
    &&& forall|k: CacheKey| #[trigger]
        c1.contains_key(k) ==> cache.contains_key(k) || (k.0 == path && ranges.contains(k.1))
}

proof fn lemma_read_batch_facts(
    cache: Map<CacheKey, Seq<u8>>,
    path: Seq<char>,
    ranges: Seq<ByteRange>,
    object: spec_fn(ByteRange) -> Seq<u8>,
)
    ensures
        read_batch(cache, path, ranges, object).2 == fetch_count(cache.dom(), path, ranges),
        batch_outcome(
            cache,
            path,
            ranges,
            read_batch(cache, path, ranges, object).0,
            read_batch(cache, path, ranges, object).1,
        ),
    decreases ranges.len(),
{
    if ranges.len() > 0 {
        let rest = ranges.drop_last();
        let last = ranges.last();
        lemma_read_batch_facts(cache, path, rest, object);
        let r1 = read_batch(cache, path, rest, object);
        let c1 = r1.0;
        let out = r1.1;
        let r2 = read_batch(cache, path, ranges, object);
        let c2 = r2.0;
        let out2 = r2.1;
        assert(c1.contains_key((path, last)) <==> cache.contains_key((path, last)) || rest.contains(last)) by {
            if rest.contains(last) {
                let j = choose|j: int| 0 <= j < rest.len() && rest[j] == last;
                assert(c1.contains_key((path, rest[j])));
            }
        }
        assert forall|j: int| 0 <= j < ranges.len() implies c2.contains_key((path, #[trigger] ranges[j]))
            && c2[(path, ranges[j])] == out2[j] by {
            if j < rest.len() {
                assert(ranges[j] == rest[j]);
                assert(out2[j] == out[j]);
                assert(c1.contains_key((path, rest[j])));
            }
        }
        assert forall|k: CacheKey| #[trigger]
            c2.contains_key(k) implies cache.contains_key(k) || (k.0 == path && ranges.contains(k.1)) by {
            if c1.contains_key(k) && !cache.contains_key(k) {
                let j = choose|j: int| 0 <= j < rest.len() && rest[j] == k.1;
                assert(ranges[j] == rest[j]);
            }
            if !c1.contains_key(k) {
                assert(ranges[ranges.len() - 1] == last);
            }
        }
    }
}

proof fn lemma_read_batch_all_cached(
    cache: Map<CacheKey, Seq<u8>>,
    path: Seq<char>,
    ranges: Seq<ByteRange>,
    object: spec_fn(ByteRange) -> Seq<u8>,
)
    requires
        forall|j: int| 0 <= j < ranges.len() ==> cache.contains_key((path, ranges[j])),
    ensures
        ({
            let (c1, out, n) = read_batch(cache, path, ranges, object);
            &&& c1 == cache
            &&& n == 0
            &&& out.len() == ranges.len()
            &&& forall|j: int| 0 <= j < ranges.len() ==> out[j] == cache[(path, ranges[j])]
        }),
    decreases ranges.len(),
{
    if ranges.len() > 0 {
        let rest = ranges.drop_last();
        assert forall|j: int| 0 <= j < rest.len() implies cache.contains_key((path, rest[j])) by {
            assert(rest[j] == ranges[j]);
        }
        lemma_read_batch_all_cached(cache, path, rest, object);
        let (c1, out, n) = read_batch(cache, path, rest, object);
        let (c2, out2, n2) = read_batch(cache, path, ranges, object);
        assert(cache.contains_key((path, ranges[ranges.len() - 1])));
        assert forall|j: int| 0 <= j < ranges.len() implies out2[j] == cache[(path, ranges[j])] by {
            if j < rest.len() {
                assert(rest[j] == ranges[j]);
            }
        }
    }
}

/// The number of reads of the inner store that a batched read makes is the
/// number of ranges that `missing_ranges` reports.
pub proof fn lemma_batch_fetches_match_missing_ranges(
    cache: Map<CacheKey, Seq<u8>>,
    path: Seq<char>,
    ranges: Seq<ByteRange>,
    object: spec_fn(ByteRange) -> Seq<u8>,
)
    ensures
        read_batch(cache, path, ranges, object).2 == fetch_count(cache.dom(), path, ranges),
{
    lemma_read_batch_facts(cache, path, ranges, object);
}

/// A batched read of pairwise distinct ranges, none of them cached, reads
/// the inner store once per range.
pub proof fn lemma_cold_batch_fetches_each_range(
    cache: Map<CacheKey, Seq<u8>>,
    path: Seq<char>,
    ranges: Seq<ByteRange>,
    object: spec_fn(ByteRange) -> Seq<u8>,
)
    requires
        forall|i: int, j: int| 0 <= i < j < ranges.len() ==> ranges[i] != ranges[j],
        forall|j: int| 0 <= j < ranges.len() ==> !cache.contains_key((path, ranges[j])),
    ensures
        read_batch(cache, path, ranges, object).2 == ranges.len(),
{
    lemma_read_batch_facts(cache, path, ranges, object);
    lemma_cold_fetch_count(cache.dom(), path, ranges);
}

proof fn lemma_cold_fetch_count(cached: Set<CacheKey>, path: Seq<char>, ranges: Seq<ByteRange>)
    requires
        forall|i: int, j: int| 0 <= i < j < ranges.len() ==> ranges[i] != ranges[j],
        forall|j: int| 0 <= j < ranges.len() ==> !cached.contains((path, ranges[j])),
    ensures
        fetch_count(cached, path, ranges) == ranges.len(),
    decreases ranges.len(),
{
    if ranges.len() > 0 {
        let rest = ranges.drop_last();
        assert forall|i: int, j: int| 0 <= i < j < rest.len() implies rest[i] != rest[j] by {
            assert(rest[i] == ranges[i] && rest[j] == ranges[j]);
        }
        assert forall|j: int| 0 <= j < rest.len() implies !cached.contains((path, rest[j])) by {
            assert(rest[j] == ranges[j]);
        }
        lemma_cold_fetch_count(cached, path, rest);
        assert(!cached.contains((path, ranges[ranges.len() - 1])));
        if rest.contains(ranges.last()) {
            let j = choose|j: int| 0 <= j < rest.len() && rest[j] == ranges.last();
            assert(ranges[j] == ranges[ranges.len() - 1]);
        }
    }
}

/// Repeating a batched read hands back the same bytes, range by range, and
/// makes no read of the inner store, whatever the store would answer.
pub proof fn lemma_warm_batch_fetches_nothing(
    cache: Map<CacheKey, Seq<u8>>,
    path: Seq<char>,
    ranges: Seq<ByteRange>,
    object: spec_fn(ByteRange) -> Seq<u8>,
    later: spec_fn(ByteRange) -> Seq<u8>,
)
    ensures
        ({
            let (c1, out1, _n1) = read_batch(cache, path, ranges, object);
            let (c2, out2, n2) = read_batch(c1, path, ranges, later);
            n2 == 0 && out2 == out1 && c2 == c1
        }),
{
    lemma_read_batch_facts(cache, path, ranges, object);
    let (c1, out1, _n1) = read_batch(cache, path, ranges, object);
    assert forall|j: int| 0 <= j < ranges.len() implies c1.contains_key((path, ranges[j])) by {
        assert(c1.contains_key((path, ranges[j])));
    }
    lemma_read_batch_all_cached(c1, path, ranges, later);
    let (c2, out2, n2) = read_batch(c1, path, ranges, later);
    assert(out2 =~= out1);
}

/// The outcome of a batched read from the outcomes of its ranges: the first
/// error if any range failed, otherwise the bytes of every range in order.
pub open spec fn batch_result<E>(results: Seq<Result<Vec<u8>, E>>) -> Result<Seq<Seq<u8>>, E>
    decreases results.len(),
{
    if results.len() == 0 {
        Ok(Seq::empty())
    } else {
        match results[0] {
            Err(e) => Err(e),
            Ok(b) => match batch_result(results.drop_first()) {
                Err(e) => Err(e),
                Ok(rest) => Ok(seq![b@] + rest),
            },
        }
    }
}

/// Joins the outcomes of the ranges of a batched read, kept in request
/// order: any failed range fails the whole read with its error.
pub fn join_ranges<E>(results: Vec<Result<Vec<u8>, E>>) -> (r: Result<Vec<Vec<u8>>, E>)
    ensures
        match batch_result(results@) {
            Ok(bs) => r matches Ok(v) && v@.len() == bs.len() && forall|i: int|
                0 <= i < bs.len() ==> #[trigger] v@[i]@ == bs[i],
            Err(e) => r == Err::<Vec<Vec<u8>>, E>(e),
        },
{
    let ghost all = results@;
    let mut out: Vec<Vec<u8>> = Vec::new();
    let mut rest = results;
    let ghost mut done: Seq<Result<Vec<u8>, E>> = Seq::empty();
    while rest.len() > 0
        invariant
            all == results@,
            all == done + rest@,
            out@.len() == done.len(),
            batch_result(done) matches Ok(bs) && bs.len() == out@.len() && forall|i: int|
                0 <= i < bs.len() ==> #[trigger] out@[i]@ == bs[i],
        decreases rest@.len(),
    {
        let ghost before = rest@;
        let item = rest.remove(0);
        proof {
            assert(before =~= seq![item] + rest@);
            assert(done + before =~= done.push(item) + rest@);
            lemma_batch_result_push(done, item);
            done = done.push(item);
        }
        match item {
            Ok(b) => out.push(b),
            Err(e) => {
                proof {
                    lemma_batch_result_prefix_err(done, rest@);
                }
                return Err(e);
            },
        }
    }
    assert(done =~= all);
    Ok(out)
}

proof fn lemma_batch_result_push<E>(s: Seq<Result<Vec<u8>, E>>, x: Result<Vec<u8>, E>)
    ensures
        batch_result(s.push(x)) == match batch_result(s) {
            Err(e) => Err(e),
            Ok(bs) => match x {
                Err(e) => Err(e),
                Ok(b) => Ok(bs.push(b@)),
            },
        },
    decreases s.len(),
{
    if s.len() == 0 {
        assert(s.push(x).drop_first() =~= Seq::<Result<Vec<u8>, E>>::empty());
        assert(s.push(x)[0] == x);
        assert(batch_result(Seq::<Result<Vec<u8>, E>>::empty()) == Ok::<Seq<Seq<u8>>, E>(Seq::empty()));
        if let Ok(b) = x {
            assert(seq![b@] + Seq::<Seq<u8>>::empty() =~= Seq::<Seq<u8>>::empty().push(b@));
        }
    } else {
        assert(s.push(x).drop_first() =~= s.drop_first().push(x));
        assert(s.push(x)[0] == s[0]);
        lemma_batch_result_push(s.drop_first(), x);
        if let Ok(b0) = s[0] {
            if let Ok(rest) = batch_result(s.drop_first()) {
                if let Ok(b) = x {
                    assert(seq![b0@] + rest.push(b@) =~= (seq![b0@] + rest).push(b@));
                }
            }
        }
    }
}

proof fn lemma_batch_result_prefix_err<E>(s: Seq<Result<Vec<u8>, E>>, t: Seq<Result<Vec<u8>, E>>)
    requires
        batch_result(s) is Err,
    ensures
        batch_result(s + t) == batch_result(s),
    decreases s.len(),
{
    if s.len() > 0 {
        assert((s + t).drop_first() =~= s.drop_first() + t);
        assert((s + t)[0] == s[0]);
        if s[0] is Ok {
            lemma_batch_result_prefix_err(s.drop_first(), t);
        }
    }
}

/// The cache after the reads of a batch that went to the inner store are
/// recorded: `fetched[k]` is the outcome of reading `ranges[missing[k]]`,
/// and each successful read is inserted in turn.
pub open spec fn apply_fetches<E>(
    cache: Map<CacheKey, Seq<u8>>,
    path: Seq<char>,
    ranges: Seq<ByteRange>,
    missing: Seq<usize>,
    fetched: Seq<Result<Vec<u8>, E>>,
) -> Map<CacheKey, Seq<u8>>
    decreases fetched.len(),
{
    if fetched.len() == 0 {
        cache
    } else {
        let before = apply_fetches(cache, path, ranges, missing, fetched.drop_last());
        match fetched.last() {
            Ok(b) => before.insert((path, ranges[missing[fetched.len() - 1] as int]), b@),
            Err(_) => before,
        }
    }
}

/// Every range of the batch is cached already or is among the reads made.
pub open spec fn batch_covered(
    cache: Map<CacheKey, Seq<u8>>,
    path: Seq<char>,
    ranges: Seq<ByteRange>,
    missing: Seq<usize>,
) -> bool {
    forall|j: int|
        0 <= j < ranges.len() ==> cache.contains_key((path, #[trigger] ranges[j])) || exists|k: int|
            0 <= k < missing.len() && ranges[missing[k] as int] == ranges[j]
}

proof fn lemma_apply_fetches_keys<E>(
    cache: Map<CacheKey, Seq<u8>>,
    path: Seq<char>,
    ranges: Seq<ByteRange>,
    missing: Seq<usize>,
    fetched: Seq<Result<Vec<u8>, E>>,
)
    requires
        fetched.len() <= missing.len(),
        forall|k: int| 0 <= k < missing.len() ==> missing[k] < ranges.len(),
    ensures
        forall|key: CacheKey| cache.contains_key(key) ==> #[trigger] apply_fetches(cache, path, ranges, missing, fetched).contains_key(key),
        batch_result(fetched) is Ok ==> forall|k: int|
            0 <= k < fetched.len() ==> apply_fetches(cache, path, ranges, missing, fetched).contains_key(
                (path, #[trigger] ranges[missing[k] as int]),
            ),
    decreases fetched.len(),
{
    if fetched.len() > 0 {
        let p = fetched.drop_last();
        lemma_apply_fetches_keys(cache, path, ranges, missing, p);
        lemma_batch_result_push(p, fetched.last());
        assert(p.push(fetched.last()) =~= fetched);
        assert forall|key: CacheKey| cache.contains_key(key) implies #[trigger] apply_fetches(
            cache,
            path,
            ranges,
            missing,
            fetched,
        ).contains_key(key) by {
            assert(apply_fetches(cache, path, ranges, missing, p).contains_key(key));
        }
        if batch_result(fetched) is Ok {
            assert forall|k: int| 0 <= k < fetched.len() implies apply_fetches(cache, path, ranges, missing, fetched).contains_key(
                (path, #[trigger] ranges[missing[k] as int]),
            ) by {
                if k < p.len() {
                    assert(p[k] == fetched[k]);
                }
            }
        }
    }
}

impl RangeCache {
    /// Whether every range of the batch is cached or among `missing`.
    pub fn covers(&self, path: &String, ranges: &Vec<ByteRange>, missing: &Vec<usize>) -> (r: bool)
        requires
            self.wf(),
            forall|k: int| 0 <= k < missing@.len() ==> missing@[k] < ranges@.len(),
        ensures
            r == batch_covered(self@, path@, ranges@, missing@),
    {
        let mut j: usize = 0;
        while j < ranges.len()
            invariant
                self.wf(),
                j <= ranges@.len(),
                forall|k: int| 0 <= k < missing@.len() ==> missing@[k] < ranges@.len(),
                forall|i: int|
                    0 <= i < j ==> self@.contains_key((path@, #[trigger] ranges@[i])) || exists|k: int|
                        0 <= k < missing@.len() && ranges@[missing@[k] as int] == ranges@[i],
            decreases ranges@.len() - j,
        {
            let key = ranges[j];
            let cached = self.lookup(path, key).is_some();
            let mut listed = false;
            let mut k: usize = 0;
            while k < missing.len()
                invariant
                    j < ranges@.len(),
                    key == ranges@[j as int],
                    k <= missing@.len(),
                    forall|t: int| 0 <= t < missing@.len() ==> missing@[t] < ranges@.len(),
                    listed <==> exists|t: int| 0 <= t < k && ranges@[missing@[t] as int] == key,
                decreases missing@.len() - k,
            {
                if ranges[missing[k]] == key {
                    listed = true;
                }
                k = k + 1;
            }
            if !cached && !listed {
                return false;
            }
            j = j + 1;
        }
        true
    }

    /// Records the reads of a batch that went to the inner store, then
    /// answers the whole batch: `fetched[k]` is the outcome of reading
    /// `ranges[missing[k]]`. Every successful read is cached; the first failed
    /// read, in the order of `fetched`, fails the batch; otherwise each range
    /// is answered from the cache, in request order.
    pub fn complete_batch<E>(
        &mut self,
        path: &String,
        ranges: &Vec<ByteRange>,
        missing: &Vec<usize>,
        fetched: Vec<Result<Vec<u8>, E>>,
    ) -> (r: Result<Vec<Vec<u8>>, E>)
        requires
            old(self).wf(),
            missing@.len() == fetched@.len(),
            forall|k: int| 0 <= k < missing@.len() ==> missing@[k] < ranges@.len(),
            batch_covered(old(self)@, path@, ranges@, missing@),
        ensures
            final(self).wf(),
            final(self)@ == apply_fetches(old(self)@, path@, ranges@, missing@, fetched@),
            batch_result(fetched@) matches Err(e) ==> r == Err::<Vec<Vec<u8>>, E>(e),
            batch_result(fetched@) is Ok ==> (r matches Ok(v) && v@.len() == ranges@.len() && forall|j: int|
                0 <= j < ranges@.len() ==> final(self)@.contains_key((path@, ranges@[j])) && #[trigger] v@[j]@
                    == final(self)@[(path@, ranges@[j])]),
    {
        let ghost all = fetched@;
        let ghost start = self@;
        let mut rest = fetched;
        let ghost mut done: Seq<Result<Vec<u8>, E>> = Seq::empty();
        let mut first_error: Option<E> = None;
        let m = missing.len();
        let mut k: usize = 0;
        while rest.len() > 0
            invariant
                self.wf(),
                m == missing@.len(),
                all == done + rest@,
                k == done.len(),
                all.len() == missing@.len(),
                forall|t: int| 0 <= t < missing@.len() ==> missing@[t] < ranges@.len(),
                self@ == apply_fetches(start, path@, ranges@, missing@, done),
                first_error is None <==> batch_result(done) is Ok,
                first_error matches Some(e) ==> batch_result(done) == Err::<Seq<Seq<u8>>, E>(e),
            decreases rest@.len(),
        {
            let ghost before = rest@;
            let item = rest.remove(0);
            proof {
                assert(before =~= seq![item] + rest@);
                assert(done + before =~= done.push(item) + rest@);
                assert(all[k as int] == item);
                lemma_batch_result_push(done, item);
                assert(done.push(item).drop_last() =~= done);
                done = done.push(item);
            }
            match item {
                Ok(b) => {
                    self.insert(path, ranges[missing[k]], b);
                },
                Err(e) => {
                    if first_error.is_none() {
                        first_error = Some(e);
                    }
                },
            }
            k = k + 1;
        }
        assert(done =~= all);
        if let Some(e) = first_error {
            return Err(e);
        }
        proof {
            lemma_apply_fetches_keys(start, path@, ranges@, missing@, all);
        }
        let mut out: Vec<Vec<u8>> = Vec::new();
        let mut j: usize = 0;
        while j < ranges.len()
            invariant
                self.wf(),
                j <= ranges@.len(),
                out@.len() == j,
                self@ == apply_fetches(start, path@, ranges@, missing@, all),
                batch_result(all) is Ok,
                all.len() == missing@.len(),
                batch_covered(start, path@, ranges@, missing@),
                forall|key: CacheKey| start.contains_key(key) ==> #[trigger] self@.contains_key(key),
                forall|t: int|
                    0 <= t < all.len() ==> self@.contains_key((path@, #[trigger] ranges@[missing@[t] as int])),
                forall|i: int|
                    0 <= i < j ==> self@.contains_key((path@, ranges@[i])) && #[trigger] out@[i]@ == self@[(
                        path@,
                        ranges@[i],
                    )],
            decreases ranges@.len() - j,
        {
            proof {
                let key = ranges@[j as int];
                if !start.contains_key((path@, key)) {
                    let t = choose|t: int| 0 <= t < missing@.len() && ranges@[missing@[t] as int] == key;
                    assert(self@.contains_key((path@, ranges@[missing@[t] as int])));
                }
            }
            match self.lookup(path, ranges[j]) {
                Some(b) => out.push(b),
                None => {
                    proof {
                        assert(false);
                    }
                    out.push(Vec::new());
                },
            }
            j = j + 1;
        }
        Ok(out)
    }
}

} // verus!
