//! In-memory cache of large results, so an agent can page through them.

use vstd::prelude::*;

use crate::json::{JsonValue, JsonView, str_eq};
use crate::text::{digit_char, hex_text, push_hex, push_str, string_of};

verus! {

/// A cached pre-truncation value for pagination.
pub struct CacheEntry {
    /// The full JSON value before truncation.
    pub value: JsonValue,
    /// The expression that produced this value.
    pub expression: String,
    /// The type name from the debug adapter.
    pub value_type: String,
    /// Total number of items (array length or object key count).
    pub total_count: usize,
    /// Whether this is an array (true) or object (false).
    pub is_array: bool,
    /// When this entry was created, in nanoseconds since the Unix epoch.
    pub created_at: u128,
}

/// Mathematical view of a cache entry.
pub struct EntryView {
    pub value: JsonView,
    pub expression: Seq<char>,
    pub value_type: Seq<char>,
    pub total_count: nat,
    pub is_array: bool,
    pub created_at: nat,
}

impl CacheEntry {
    pub open spec fn view(&self) -> EntryView {
        EntryView {
            value: self.value@,
            expression: self.expression@,
            value_type: self.value_type@,
            total_count: self.total_count as nat,
            is_array: self.is_array,
            created_at: self.created_at as nat,
        }
    }
}

/// The pagination token for clock reading `nanos` (nanoseconds since the
/// epoch) and counter value `count`:
/// `pg_` followed by both in lowercase hex.
pub open spec fn token_text(nanos: nat, count: nat) -> Seq<char> {
    "pg_"@ + hex_text(nanos) + hex_text(count)
}

/// Generate a pagination token: `pg_` + timestamp hex + counter hex.
pub fn generate_token(nanos: u128, count: u64) -> (t: String)
    ensures
        t@ == token_text(nanos as nat, count as nat),
{
    let mut out: Vec<char> = Vec::new();
    push_str(&mut out, "pg_");
    push_hex(&mut out, nanos);
    push_hex(&mut out, count as u128);
    string_of(&out)
}

/// Index of the first pair of `s` whose key is `key`.
pub open spec fn key_index<V>(s: Seq<(Seq<char>, V)>, key: Seq<char>) -> Option<int>
    decreases s.len(),
{
    if s.len() == 0 {
        None
    } else if s[0].0 == key {
        Some(0)
    } else {
        match key_index(s.drop_first(), key) {
            Some(i) => Some(i + 1),
            None => None,
        }
    }
}

/// `key_index` finds the first pair with the key, and fails exactly when none has it.
pub proof fn lemma_key_index<V>(s: Seq<(Seq<char>, V)>, key: Seq<char>)
    ensures
        key_index(s, key) matches Some(i) ==> 0 <= i < s.len() && s[i].0 == key && forall|j: int|
            0 <= j < i ==> s[j].0 != key,
        key_index(s, key) is None ==> forall|j: int| 0 <= j < s.len() ==> s[j].0 != key,
    decreases s.len(),
{
    if s.len() > 0 {
        lemma_key_index(s.drop_first(), key);
        assert forall|j: int| 0 < j < s.len() implies s[j] == s.drop_first()[j - 1] by {}
    }
}

/// Every key of `c` was made from its recorded origin, before the current
/// count, and the counter is that count modulo 2^64.
pub open spec fn origins_match(c: CacheView) -> bool {
    &&& c.origins.len() == c.entries.len()
    &&& c.counter == c.issued % 0x1_0000_0000_0000_0000
    &&& forall|i: int|
        0 <= i < c.entries.len() ==> (#[trigger] c.origins[i]).1 < c.issued && c.entries[i].0
            == token_text(c.origins[i].0, c.origins[i].1 % 0x1_0000_0000_0000_0000)
}

/// Each token occurs once.
pub open spec fn distinct_keys<V>(s: Seq<(Seq<char>, V)>) -> bool {
    forall|i: int, j: int| 0 <= i < s.len() && 0 <= j < s.len() && i != j ==> s[i].0 != s[j].0
}

/// Index of the oldest entry (smallest creation time; the earliest such on ties).
pub open spec fn oldest_index(s: Seq<(Seq<char>, EntryView)>) -> int
    decreases s.len(),
{
    if s.len() <= 1 {
        0
    } else {
        let k = oldest_index(s.drop_last());
        if s.last().1.created_at < s[k].1.created_at {
            s.len() - 1
        } else {
            k
        }
    }
}

/// The entries after evicting the oldest one (none when empty).
pub open spec fn evict_oldest_spec(s: Seq<(Seq<char>, EntryView)>) -> Seq<(Seq<char>, EntryView)> {
    if s.len() == 0 {
        s
    } else {
        s.remove(oldest_index(s))
    }
}

/// The entries after storing `e` under `token`: replacing the value of an
/// existing token in place, or appending a new pair.
pub open spec fn with_entry(s: Seq<(Seq<char>, EntryView)>, token: Seq<char>, e: EntryView) -> Seq<
    (Seq<char>, EntryView),
> {
    match key_index(s, token) {
        Some(i) => s.update(i, (token, e)),
        None => s.push((token, e)),
    }
}

/// Whether an entry created at `created_at` has outlived `ttl_secs` at time
/// `now` (both in nanoseconds since the epoch; an entry from the future has age 0).
pub open spec fn is_expired(created_at: nat, now: nat, ttl_secs: nat) -> bool {
    let age = if now >= created_at {
        now - created_at
    } else {
        0
    };
    age > ttl_secs * 1_000_000_000
}

/// Mathematical view of the cache. `origins[i]` records how the token of
/// `entries[i]` was made: the clock reading and the number of tokens made
/// before it (`issued` counts all tokens made; the counter is that number
/// modulo 2^64).
pub struct CacheView {
    pub entries: Seq<(Seq<char>, EntryView)>,
    pub max_entries: nat,
    pub ttl_secs: nat,
    pub counter: nat,
    pub origins: Seq<(nat, nat)>,
    pub issued: nat,
}

/// The origins after the change that `with_entry` makes to `s`: the origin
/// of a replaced token is overwritten in place, a new one is appended.
pub open spec fn with_origin(s: Seq<(Seq<char>, EntryView)>, origins: Seq<(nat, nat)>, token: Seq<char>, o: (nat, nat)) -> Seq<(nat, nat)> {
    match key_index(s, token) {
        Some(i) => origins.update(i, o),
        None => origins.push(o),
    }
}

/// The origins after evicting the oldest entry of `s`.
pub open spec fn evict_origin(s: Seq<(Seq<char>, EntryView)>, origins: Seq<(nat, nat)>) -> Seq<(nat, nat)> {
    if s.len() == 0 {
        origins
    } else {
        origins.remove(oldest_index(s))
    }
}

/// Whether the token made at clock reading `nanos` from the current counter
/// differs from every key made at a reading no later than `nanos` or with
/// as many hex digits, as long as the counter has not wrapped around.
pub open spec fn token_fresh(c: CacheView, nanos: nat) -> bool {
    forall|i: int|
        0 <= i < c.entries.len() && c.issued < 0x1_0000_0000_0000_0000 && ((#[trigger] c.origins[i]).0
            <= nanos || hex_text(c.origins[i].0).len() == hex_text(nanos).len()) ==> c.entries[i].0
            != token_text(nanos, c.counter)
}

/// The cache after inserting `e` with the clock at `nanos` nanoseconds: the
/// oldest entry is evicted first when the cache holds `max_entries` or more,
/// and the token uses the current counter, which then advances (wrapping).
pub open spec fn inserted(c: CacheView, e: EntryView, nanos: nat) -> CacheView {
    let base = if c.entries.len() >= c.max_entries {
        evict_oldest_spec(c.entries)
    } else {
        c.entries
    };
    let base_origins = if c.entries.len() >= c.max_entries {
        evict_origin(c.entries, c.origins)
    } else {
        c.origins
    };
    CacheView {
        entries: with_entry(base, token_text(nanos, c.counter), e),
        counter: (c.counter + 1) % 0x1_0000_0000_0000_0000,
        origins: with_origin(base, base_origins, token_text(nanos, c.counter), (nanos, c.issued)),
        issued: c.issued + 1,
        ..c
    }
}

/// The view of an optional entry.
pub open spec fn entry_opt_view(r: Option<&CacheEntry>) -> Option<EntryView> {
    match r {
        Some(e) => Some(e@),
        None => None,
    }
}

/// Looking up `token` at time `now` in cache `c` answers `r` and leaves
/// `c2`: an absent token gives `None`; an expired entry is removed and gives
/// `None`; a live entry is returned and the cache is unchanged.
pub open spec fn looked_up(
    c: CacheView,
    token: Seq<char>,
    now: nat,
    r: Option<EntryView>,
    c2: CacheView,
) -> bool {
    match key_index(c.entries, token) {
        None => r is None && c2 == c,
        Some(i) => if is_expired(c.entries[i].1.created_at, now, c.ttl_secs) {
            r is None && c2 == (CacheView {
                entries: c.entries.remove(i),
                origins: c.origins.remove(i),
                ..c
            })
        } else {
            c2 == c && r == Some(c.entries[i].1)
        },
    }
}

/// In-memory cache for paginating large debug results.
pub struct PaginationCache {
    entries: Vec<(String, CacheEntry)>,
    max_entries: usize,
    ttl_secs: u64,
    counter: u64,
    origins: Ghost<Seq<(nat, nat)>>,
    issued: Ghost<nat>,
}

impl View for PaginationCache {
    type V = CacheView;

    closed spec fn view(&self) -> CacheView {
        CacheView {
            entries: Seq::new(
                self.entries@.len(),
                |i: int| (self.entries@[i].0@, self.entries@[i].1@),
            ),
            max_entries: self.max_entries as nat,
            ttl_secs: self.ttl_secs as nat,
            counter: self.counter as nat,
            origins: self.origins@,
            issued: self.issued@,
        }
    }
}

/// The current wall-clock time in nanoseconds since the Unix epoch (std
/// `SystemTime::now`; 0 for a clock before the epoch). Nothing is promised of the reading.
#[verifier::external_body]
pub(crate) fn now_unix_nanos() -> u128 {
    std::time::SystemTime::now().duration_since(std::time::UNIX_EPOCH).unwrap_or_default().as_nanos()
}

impl PaginationCache {
    /// Each token in the cache occurs once.
    pub closed spec fn keys_distinct(&self) -> bool {
        distinct_keys(self@.entries)
    }

    /// Each key was made from its recorded origin.
    pub closed spec fn origins_match(&self) -> bool {
        origins_match(self@)
    }

    /// Each token occurs once, was made from its recorded origin before the
    /// current count, and the cache holds at most `max_entries` entries (at
    /// least one: the latest insertion is always kept).
    pub closed spec fn wf(&self) -> bool {
        &&& self.keys_distinct()
        &&& origins_match(self@)
        &&& self@.entries.len() <= if self@.max_entries == 0 { 1 } else { self@.max_entries }
    }

    proof fn lemma_view_entry(&self, i: int)
        requires
            0 <= i < self.entries@.len(),
        ensures
            self@.entries[i] == (self.entries@[i].0@, self.entries@[i].1@),
            self@.entries.len() == self.entries@.len(),
    {
    }

    /// An empty cache holding at most `max_entries` entries for `ttl_secs` seconds each.
    pub fn new(max_entries: usize, ttl_secs: u64) -> (c: Self)
        ensures
            c.wf(),
            c@ == (CacheView {
                entries: Seq::empty(),
                max_entries: max_entries as nat,
                ttl_secs: ttl_secs as nat,
                counter: 0,
                origins: Seq::empty(),
                issued: 0,
            }),
    {
        let c = PaginationCache {
            entries: Vec::new(),
            max_entries,
            ttl_secs,
            counter: 0,
            origins: Ghost(Seq::empty()),
            issued: Ghost(0),
        };
        assert(c@.entries =~= Seq::empty());
        c
    }

    /// Number of cached entries.
    pub fn len(&self) -> (n: usize)
        ensures
            n == self@.entries.len(),
    {
        self.entries.len()
    }

    /// Drop all cached entries.
    pub fn clear(&mut self)
        requires
            old(self).wf(),
        ensures
            final(self).wf(),
            final(self)@ == (CacheView { entries: Seq::empty(), origins: Seq::empty(), ..old(self)@ }),
    {
        self.entries.clear();
        self.origins = Ghost(Seq::empty());
        assert(self@.entries =~= Seq::empty());
    }

    fn position(&self, token: &str) -> (r: Option<usize>)
        ensures
            r matches Some(i) ==> key_index(self@.entries, token@) == Some(i as int),
            r is None ==> key_index(self@.entries, token@) is None,
    {
        let mut i: usize = 0;
        while i < self.entries.len()
            invariant
                i <= self.entries@.len(),
                forall|j: int| 0 <= j < i ==> self@.entries[j].0 != token@,
            decreases self.entries.len() - i,
        {
            proof {
                self.lemma_view_entry(i as int);
            }
            if str_eq(self.entries[i].0.as_str(), token) {
                proof {
                    lemma_key_index(self@.entries, token@);
                }
                return Some(i);
            }
            i = i + 1;
        }
        proof {
            lemma_key_index(self@.entries, token@);
        }
        None
    }

    /// Evict the oldest entry by creation time.
    fn evict_oldest(&mut self)
        requires
            old(self).keys_distinct(),
        ensures
            final(self).keys_distinct(),
            final(self)@ == (CacheView {
                entries: evict_oldest_spec(old(self)@.entries),
                origins: evict_origin(old(self)@.entries, old(self)@.origins),
                ..old(self)@
            }),
    {
        let n = self.entries.len();
        if n == 0 {
            return ;
        }
        let ghost s = self@.entries;
        let mut k: usize = 0;
        let mut i: usize = 1;
        while i < n
            invariant
                s == self@.entries,
                n == s.len(),
                1 <= i <= n,
                k < i,
                k as int == oldest_index(s.take(i as int)),
            decreases n - i,
        {
            proof {
                self.lemma_view_entry(i as int);
                self.lemma_view_entry(k as int);
                assert(s.take(i + 1).drop_last() == s.take(i as int));
                assert(s.take(i + 1)[k as int] == s[k as int]);
            }
            if self.entries[i].1.created_at < self.entries[k].1.created_at {
                k = i;
            }
            i = i + 1;
        }
        assert(s.take(n as int) == s);
        let ghost before = self.entries@;
        self.entries.remove(k);
        self.origins = Ghost(self.origins@.remove(k as int));
        assert(self@.entries =~= s.remove(k as int)) by {
            assert forall|j: int| 0 <= j < n - 1 implies self@.entries[j] == s.remove(k as int)[j] by {
                if j < k {
                    assert(self.entries@[j] == before[j]);
                } else {
                    assert(self.entries@[j] == before[j + 1]);
                }
            }
        }
    }

    fn store(&mut self, token: String, entry: CacheEntry, origin: Ghost<(nat, nat)>)
        requires
            old(self).keys_distinct(),
        ensures
            final(self).keys_distinct(),
            final(self)@ == (CacheView {
                entries: with_entry(old(self)@.entries, token@, entry@),
                origins: with_origin(old(self)@.entries, old(self)@.origins, token@, origin@),
                ..old(self)@
            }),
    {
        let ghost s = self@.entries;
        let ghost e = entry@;
        let ghost before = self.entries@;
        match self.position(token.as_str()) {
            Some(i) => {
                proof {
                    lemma_key_index(s, token@);
                }
                self.entries.set(i, (token, entry));
                self.origins = Ghost(self.origins@.update(i as int, origin@));
                assert(self@.entries =~= s.update(i as int, (token@, e))) by {
                    assert forall|j: int| 0 <= j < s.len() && j != i implies self@.entries[j] == s[j] by {
                        assert(self.entries@[j] == before[j]);
                    }
                }
            },
            None => {
                proof {
                    lemma_key_index(s, token@);
                }
                self.entries.push((token, entry));
                self.origins = Ghost(self.origins@.push(origin@));
                assert(self@.entries =~= s.push((token@, e))) by {
                    assert forall|j: int| 0 <= j < s.len() implies self@.entries[j] == s[j] by {
                        assert(self.entries@[j] == before[j]);
                    }
                }
            },
        }
    }

    /// Insert an entry with the clock reading `nanos` (nanoseconds since the
    /// epoch) and return its pagination token.
    pub fn insert_at(&mut self, entry: CacheEntry, nanos: u128) -> (token: String)
        requires
            old(self).wf(),
        ensures
            final(self).wf(),
            token@ == token_text(nanos as nat, old(self)@.counter),
            final(self)@ == inserted(old(self)@, entry@, nanos as nat),
            token_fresh(old(self)@, nanos as nat),
    {
        let ghost c0 = self@;
        proof {
            lemma_insert_bounded(c0, entry@, nanos as nat);
            lemma_origins_fresh(c0, nanos as nat);
            lemma_inserted_origins(c0, entry@, nanos as nat);
        }
        if self.entries.len() >= self.max_entries {
            self.evict_oldest();
        }
        let token = generate_token(nanos, self.counter);
        let ghost origin = (nanos as nat, self.issued@);
        self.counter = self.counter.wrapping_add(1);
        self.issued = Ghost(self.issued@ + 1);
        let t2 = token.clone();
        self.store(t2, entry, Ghost(origin));
        token
    }

    /// Insert a cache entry and return its pagination token.
    /// Evicts the oldest entry if at capacity.
    pub fn insert(&mut self, entry: CacheEntry) -> (token: String)
        requires
            old(self).wf(),
        ensures
            final(self).wf(),
            exists|nanos: nat|
                token@ == token_text(nanos, old(self)@.counter) && final(self)@ == inserted(
                    old(self)@,
                    entry@,
                    nanos,
                ) && token_fresh(old(self)@, nanos),
    {
        let nanos = now_unix_nanos();
        self.insert_at(entry, nanos)
    }

    /// Look up `token` at time `now` (nanoseconds since the epoch). An
    /// expired entry is removed and reported as absent; other entries stay.
    pub fn get_at(&mut self, token: &str, now: u128) -> (r: Option<&CacheEntry>)
        requires
            old(self).wf(),
        ensures
            final(self).wf(),
            looked_up(old(self)@, token@, now as nat, entry_opt_view(r), final(self)@),
    {
        let ghost s = self@.entries;
        let ghost before = self.entries@;
        match self.position(token) {
            None => None,
            Some(i) => {
                proof {
                    lemma_key_index(s, token@);
                    self.lemma_view_entry(i as int);
                }
                let created = self.entries[i].1.created_at;
                let age: u128 = if now >= created {
                    now - created
                } else {
                    0
                };
                if age > (self.ttl_secs as u128) * 1_000_000_000 {
                    self.entries.remove(i);
                    self.origins = Ghost(self.origins@.remove(i as int));
                    assert(self@.entries =~= s.remove(i as int)) by {
                        assert forall|j: int| 0 <= j < s.len() - 1 implies self@.entries[j] == s.remove(
                            i as int,
                        )[j] by {
                            if j < i {
                                assert(self.entries@[j] == before[j]);
                            } else {
                                assert(self.entries@[j] == before[j + 1]);
                            }
                        }
                    }
                    None
                } else {
                    Some(&self.entries[i].1)
                }
            },
        }
    }

    /// Look up an entry by token. Returns `None` if not found or expired.
    /// Lazily prunes the expired entry on access.
    pub fn get(&mut self, token: &str) -> (r: Option<&CacheEntry>)
        requires
            old(self).wf(),
        ensures
            final(self).wf(),
            exists|now: nat| #[trigger]
                looked_up(old(self)@, token@, now, entry_opt_view(r), final(self)@),
    {
        let now = now_unix_nanos();
        self.get_at(token, now)
    }
}

/// The first index holding `key` is what `key_index` finds.
proof fn lemma_key_index_at<V>(s: Seq<(Seq<char>, V)>, key: Seq<char>, i: int)
    requires
        0 <= i < s.len(),
        s[i].0 == key,
        forall|j: int| 0 <= j < i ==> s[j].0 != key,
    ensures
        key_index(s, key) == Some(i),
{
    lemma_key_index(s, key);
}

/// An entry just inserted is found again under the token that insertion
/// returned, at any time before it expires, and the lookup changes nothing.
pub proof fn lemma_insert_then_lookup(c: CacheView, e: EntryView, nanos: nat, now: nat)
    requires
        !is_expired(e.created_at, now, c.ttl_secs),
    ensures
        looked_up(
            inserted(c, e, nanos),
            token_text(nanos, c.counter),
            now,
            Some(e),
            inserted(c, e, nanos),
        ),
{
    let token = token_text(nanos, c.counter);
    let base = if c.entries.len() >= c.max_entries {
        evict_oldest_spec(c.entries)
    } else {
        c.entries
    };
    let s2 = with_entry(base, token, e);
    lemma_key_index(base, token);
    match key_index(base, token) {
        Some(i) => {
            assert(s2 == base.update(i, (token, e)));
            lemma_key_index_at(s2, token, i);
        },
        None => {
            assert(s2 == base.push((token, e)));
            lemma_key_index_at(s2, token, base.len() as int);
        },
    }
}

/// Removing one element keeps a sequence's keys distinct.
proof fn lemma_remove_distinct(s: Seq<(Seq<char>, EntryView)>, k: int)
    requires
        0 <= k < s.len(),
        distinct_keys(s),
    ensures
        distinct_keys(s.remove(k)),
{
    let r = s.remove(k);
    assert forall|i: int, j: int| 0 <= i < r.len() && 0 <= j < r.len() && i != j implies r[i].0 != r[j].0 by {
        let a = if i < k { i } else { i + 1 };
        let b = if j < k { j } else { j + 1 };
        assert(r[i] == s[a]);
        assert(r[j] == s[b]);
    }
}

/// The oldest index lies within a non-empty sequence.
proof fn lemma_oldest_index_bounds(s: Seq<(Seq<char>, EntryView)>)
    ensures
        s.len() > 0 ==> 0 <= oldest_index(s) < s.len(),
    decreases s.len(),
{
    if s.len() > 1 {
        lemma_oldest_index_bounds(s.drop_last());
    }
}

/// Insertion keeps the cache within its capacity (at least one entry is
/// always kept, the new one), and keeps every token distinct.
pub proof fn lemma_insert_bounded(c: CacheView, e: EntryView, nanos: nat)
    requires
        distinct_keys(c.entries),
        c.entries.len() <= if c.max_entries == 0 { 1 } else { c.max_entries },
    ensures
        inserted(c, e, nanos).entries.len() <= if c.max_entries == 0 { 1 } else { c.max_entries },
        distinct_keys(inserted(c, e, nanos).entries),
{
    let token = token_text(nanos, c.counter);
    let base = if c.entries.len() >= c.max_entries {
        evict_oldest_spec(c.entries)
    } else {
        c.entries
    };
    lemma_oldest_index_bounds(c.entries);
    if c.entries.len() >= c.max_entries && c.entries.len() > 0 {
        lemma_remove_distinct(c.entries, oldest_index(c.entries));
    }
    assert(distinct_keys(base));
    let s2 = with_entry(base, token, e);
    lemma_key_index(base, token);
    match key_index(base, token) {
        Some(i) => {
            assert(s2 == base.update(i, (token, e)));
            assert forall|a: int, b: int| 0 <= a < s2.len() && 0 <= b < s2.len() && a != b implies s2[a].0
                != s2[b].0 by {
                if a != i && b != i {
                    assert(s2[a] == base[a] && s2[b] == base[b]);
                } else if a == i {
                    assert(s2[b] == base[b]);
                } else {
                    assert(s2[a] == base[a]);
                }
            }
        },
        None => {
            assert(s2 == base.push((token, e)));
            assert forall|a: int, b: int| 0 <= a < s2.len() && 0 <= b < s2.len() && a != b implies s2[a].0
                != s2[b].0 by {
                if a < base.len() && b < base.len() {
                    assert(s2[a] == base[a] && s2[b] == base[b]);
                } else if a < base.len() {
                    assert(s2[a] == base[a]);
                } else {
                    assert(s2[b] == base[b]);
                }
            }
        },
    }
}

/// A hexadecimal rendering has at least one digit.
proof fn lemma_hex_nonempty(n: nat)
    ensures
        hex_text(n).len() >= 1,
    decreases n,
{
    if n >= 16 {
        lemma_hex_nonempty(n / 16);
    }
}

/// Distinct digit values have distinct digit characters.
proof fn lemma_digit_char_injective(x: nat, y: nat)
    requires
        x < 16,
        y < 16,
        digit_char(x) == digit_char(y),
    ensures
        x == y,
{
    let u = if x < 10 { 48 + x } else { 87 + x };
    let v = if y < 10 { 48 + y } else { 87 + y };
    assert(digit_char(x) as u32 == u);
    assert(digit_char(y) as u32 == v);
}

/// Different numbers have different hexadecimal renderings.
pub proof fn lemma_hex_injective(a: nat, b: nat)
    requires
        hex_text(a) == hex_text(b),
    ensures
        a == b,
    decreases a,
{
    if a < 16 && b < 16 {
        assert(hex_text(a) == seq![digit_char(a)]);
        assert(hex_text(b) == seq![digit_char(b)]);
        assert(hex_text(a)[0] == hex_text(b)[0]);
        assert(seq![digit_char(a)][0] == digit_char(a));
        assert(seq![digit_char(b)][0] == digit_char(b));
        assert(digit_char(a) == digit_char(b));
        lemma_digit_char_injective(a, b);
    } else if a < 16 {
        lemma_hex_nonempty(b / 16);
        assert(hex_text(b).len() >= 2);
    } else if b < 16 {
        lemma_hex_nonempty(a / 16);
        assert(hex_text(a).len() >= 2);
    } else {
        assert(hex_text(a) == hex_text(a / 16).push(digit_char(a % 16)));
        assert(hex_text(b) == hex_text(b / 16).push(digit_char(b % 16)));
        assert(hex_text(a).last() == hex_text(b).last());
        assert(hex_text(a / 16).push(digit_char(a % 16)).last() == digit_char(a % 16));
        assert(hex_text(b / 16).push(digit_char(b % 16)).last() == digit_char(b % 16));
        assert(digit_char(a % 16) == digit_char(b % 16));
        assert(hex_text(a).drop_last() =~= hex_text(a / 16));
        assert(hex_text(b).drop_last() =~= hex_text(b / 16));
        lemma_hex_injective(a / 16, b / 16);
        lemma_digit_char_injective(a % 16, b % 16);
    }
}

/// Tokens made at the same clock reading from different counter values differ.
pub proof fn lemma_tokens_distinct(nanos: nat, a: nat, b: nat)
    requires
        a != b,
    ensures
        token_text(nanos, a) != token_text(nanos, b),
{
    let p = "pg_"@ + hex_text(nanos);
    assert(token_text(nanos, a) =~= p + hex_text(a));
    assert(token_text(nanos, b) =~= p + hex_text(b));
    if token_text(nanos, a) == token_text(nanos, b) {
        assert((p + hex_text(a)).skip(p.len() as int) =~= hex_text(a));
        assert((p + hex_text(b)).skip(p.len() as int) =~= hex_text(b));
        lemma_hex_injective(a, b);
    }
}

/// A larger number never has a shorter hexadecimal rendering.
proof fn lemma_hex_len_monotone(a: nat, b: nat)
    requires
        a <= b,
    ensures
        hex_text(a).len() <= hex_text(b).len(),
    decreases b,
{
    if b >= 16 {
        if a >= 16 {
            lemma_hex_len_monotone(a / 16, b / 16);
        } else {
            lemma_hex_nonempty(b / 16);
        }
    }
}

/// A token made at a clock reading no earlier, from a larger counter value,
/// differs from an earlier one.
pub proof fn lemma_token_fresh(t1: nat, c1: nat, t2: nat, c2: nat)
    requires
        t1 <= t2,
        c1 < c2,
    ensures
        token_text(t1, c1) != token_text(t2, c2),
{
    reveal_strlit("pg_");
    lemma_hex_len_monotone(t1, t2);
    lemma_hex_len_monotone(c1, c2);
    let x = token_text(t1, c1);
    let y = token_text(t2, c2);
    if x == y {
        let a = hex_text(t1);
        let b = hex_text(t2);
        assert(x.len() == y.len());
        assert(a.len() == b.len());
        assert(x.subrange(3, 3 + a.len() as int) =~= a);
        assert(y.subrange(3, 3 + b.len() as int) =~= b);
        lemma_hex_injective(t1, t2);
        assert(x.skip(3 + a.len() as int) =~= hex_text(c1));
        assert(y.skip(3 + b.len() as int) =~= hex_text(c2));
        lemma_hex_injective(c1, c2);
    }
}

/// Tokens whose clock readings have as many hex digits are equal only when
/// made from the same reading and counter value.
pub proof fn lemma_token_same_width(t1: nat, c1: nat, t2: nat, c2: nat)
    requires
        hex_text(t1).len() == hex_text(t2).len(),
        token_text(t1, c1) == token_text(t2, c2),
    ensures
        t1 == t2,
        c1 == c2,
{
    reveal_strlit("pg_");
    let x = token_text(t1, c1);
    let a = hex_text(t1);
    assert(x.subrange(3, 3 + a.len() as int) =~= a);
    assert(x.subrange(3, 3 + a.len() as int) =~= hex_text(t2));
    lemma_hex_injective(t1, t2);
    assert(x.skip(3 + a.len() as int) =~= hex_text(c1));
    assert(x.skip(3 + a.len() as int) =~= hex_text(c2));
    lemma_hex_injective(c1, c2);
}

/// In a cache whose keys match their origins, the next token is fresh
/// against every key made at a reading no later than the new one or with as
/// many hex digits, until the counter wraps around.
pub proof fn lemma_origins_fresh(c: CacheView, nanos: nat)
    requires
        origins_match(c),
    ensures
        token_fresh(c, nanos),
{
    assert forall|i: int|
        0 <= i < c.entries.len() && c.issued < 0x1_0000_0000_0000_0000 && ((#[trigger] c.origins[i]).0
            <= nanos || hex_text(c.origins[i].0).len() == hex_text(nanos).len()) implies c.entries[i].0
        != token_text(nanos, c.counter) by {
        let (t, j) = c.origins[i];
        assert(j % 0x1_0000_0000_0000_0000 == j);
        assert(c.counter == c.issued);
        if c.entries[i].0 == token_text(nanos, c.counter) {
            if t <= nanos {
                lemma_token_fresh(t, j, nanos, c.counter);
            } else {
                lemma_token_same_width(t, j, nanos, c.counter);
            }
        }
    }
}

/// Insertion keeps every key matched to its origin.
pub proof fn lemma_inserted_origins(c: CacheView, e: EntryView, nanos: nat)
    requires
        origins_match(c),
    ensures
        origins_match(inserted(c, e, nanos)),
{
    let m: nat = 0x1_0000_0000_0000_0000;
    let token = token_text(nanos, c.counter);
    let evict = c.entries.len() >= c.max_entries;
    let base = if evict { evict_oldest_spec(c.entries) } else { c.entries };
    let bo = if evict { evict_origin(c.entries, c.origins) } else { c.origins };
    lemma_oldest_index_bounds(c.entries);
    assert(bo.len() == base.len());
    assert forall|i: int| 0 <= i < base.len() implies (#[trigger] bo[i]).1 < c.issued && base[i].0
        == token_text(bo[i].0, bo[i].1 % m) by {
        if evict && c.entries.len() > 0 {
            let k = oldest_index(c.entries);
            if i < k {
                assert(bo[i] == c.origins[i] && base[i] == c.entries[i]);
            } else {
                assert(bo[i] == c.origins[i + 1] && base[i] == c.entries[i + 1]);
            }
        }
    }
    let r = inserted(c, e, nanos);
    assert(c.issued % m == c.counter);
    assert((c.counter + 1) % m == (c.issued + 1) % m) by (nonlinear_arith)
        requires
            c.issued % m == c.counter,
            m > 0,
    ;
    lemma_key_index(base, token);
    assert forall|i: int| 0 <= i < r.entries.len() implies (#[trigger] r.origins[i]).1 < r.issued
        && r.entries[i].0 == token_text(r.origins[i].0, r.origins[i].1 % m) by {
        match key_index(base, token) {
            Some(k) => {
                if i != k {
                    assert(r.origins[i] == bo[i] && r.entries[i] == base[i]);
                }
            },
            None => {
                if i < base.len() {
                    assert(r.origins[i] == bo[i] && r.entries[i] == base[i]);
                }
            },
        }
    }
}

} // verus!
