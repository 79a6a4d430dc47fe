//! Per-call metadata and timeout.
//!
//! A [`Context`] is built by the caller before a call is issued. It maps each
//! key to an ordered list of values and carries a timeout in nanoseconds.

use vstd::prelude::*;

verus! {

/// The timeout, in nanoseconds, that a context with timeout `0` stands for.
pub const DEFAULT_TIMEOUT_NANOS: i64 = 10_000_000_000;

/// One key with its values, in the order in which they were added.
#[derive(Clone, Debug)]
struct Entry {
    key: String,
    values: Vec<String>,
}

/// Metadata and timeout of one call.
#[derive(Clone, Debug)]
pub struct Context {
    entries: Vec<Entry>,
    timeout_nano: i64,
}

/// The mathematical value of a [`Context`].
pub struct ContextModel {
    /// Each key with the list of its values.
    pub metadata: Map<Seq<char>, Seq<Seq<char>>>,
    /// The timeout in nanoseconds as it was given; `0` asks for the default.
    pub timeout_nano: int,
}

/// The metadata after `value` was added under `key`: the value is appended to
/// the key's list, which is created when the key is new.
pub open spec fn metadata_add(
    metadata: Map<Seq<char>, Seq<Seq<char>>>,
    key: Seq<char>,
    value: Seq<char>,
) -> Map<Seq<char>, Seq<Seq<char>>> {
    if metadata.contains_key(key) {
        metadata.insert(key, metadata[key].push(value))
    } else {
        metadata.insert(key, seq![value])
    }
}

/// The metadata after the list of `key` was replaced by `values`.
pub open spec fn metadata_set(
    metadata: Map<Seq<char>, Seq<Seq<char>>>,
    key: Seq<char>,
    values: Seq<Seq<char>>,
) -> Map<Seq<char>, Seq<Seq<char>>> {
    metadata.insert(key, values)
}

/// The timeout that applies to a call: the default where `timeout_nano` is `0`.
pub open spec fn effective_timeout(timeout_nano: int) -> int {
    if timeout_nano == 0 {
        DEFAULT_TIMEOUT_NANOS as int
    } else {
        timeout_nano
    }
}

/// The instant at which a call issued at `now` with this timeout expires, on
/// a clock that counts nanoseconds in a `u64`: `now` plus the effective
/// timeout, held within the clock's range.
pub open spec fn deadline_of(timeout_nano: int, now: int) -> int {
    let at = now + effective_timeout(timeout_nano);
    if at < 0 {
        0
    } else if at > u64::MAX as int {
        u64::MAX as int
    } else {
        at
    }
}

/// `i` is the first position in `entries` that holds `key`.
spec fn is_first(entries: Seq<Entry>, key: Seq<char>, i: int) -> bool {
    &&& 0 <= i < entries.len()
    &&& entries[i].key@ == key
    &&& forall|j: int| 0 <= j < i ==> entries[j].key@ != key
}

/// `key` occurs in `entries`.
spec fn has_key(entries: Seq<Entry>, key: Seq<char>) -> bool {
    exists|i: int| 0 <= i < entries.len() && #[trigger] entries[i].key@ == key
}

/// The first position in `entries` that holds `key`.
spec fn first_index(entries: Seq<Entry>, key: Seq<char>) -> int {
    choose|i: int| is_first(entries, key, i)
}

/// Each key with the values of its first entry.
spec fn metadata_of(entries: Seq<Entry>) -> Map<Seq<char>, Seq<Seq<char>>> {
    Map::new(
        |key: Seq<char>| has_key(entries, key),
        |key: Seq<char>| entries[first_index(entries, key)].values.deep_view(),
    )
}

/// `key` does not occur in the first `n` entries.
spec fn absent_before(entries: Seq<Entry>, key: Seq<char>, n: int) -> bool {
    forall|j: int| 0 <= j < n ==> (#[trigger] entries[j]).key@ != key
}

/// The first position of a key is the one that the table looks at.
proof fn lemma_first_index(entries: Seq<Entry>, key: Seq<char>, i: int)
    requires
        is_first(entries, key, i),
    ensures
        has_key(entries, key),
        first_index(entries, key) == i,
{
    let c = first_index(entries, key);
    assert(is_first(entries, key, c));
    if c < i {
        assert(entries[c].key@ != key);
    } else if i < c {
        assert(entries[i].key@ != key);
    }
}

/// A key that occurs has a first position.
proof fn lemma_has_first(entries: Seq<Entry>, key: Seq<char>, n: int)
    requires
        0 <= n < entries.len(),
        entries[n].key@ == key,
    ensures
        exists|i: int| is_first(entries, key, i),
    decreases n,
{
    if absent_before(entries, key, n) {
        assert(is_first(entries, key, n));
    } else {
        let j = choose|j: int| 0 <= j < n && entries[j].key@ == key;
        lemma_has_first(entries, key, j);
    }
}

/// Replacing the values of the first entry of `key` replaces the list of
/// `key` and leaves every other key alone.
proof fn lemma_replace(before: Seq<Entry>, after: Seq<Entry>, key: Seq<char>, i: int)
    requires
        is_first(before, key, i),
        after.len() == before.len(),
        after[i].key@ == key,
        forall|j: int| 0 <= j < before.len() && j != i ==> after[j] == before[j],
    ensures
        metadata_of(before).contains_key(key),
        metadata_of(before)[key] == before[i].values.deep_view(),
        metadata_of(after) =~= metadata_of(before).insert(key, after[i].values.deep_view()),
{
    lemma_first_index(before, key, i);
    assert forall|j: int| 0 <= j < before.len() implies (#[trigger] after[j]).key@
        == before[j].key@ by {
        if j != i {
            assert(after[j] == before[j]);
        }
    }
    assert forall|k: Seq<char>| has_key(after, k) == has_key(before, k) by {
        if has_key(before, k) {
            let j = choose|j: int| 0 <= j < before.len() && before[j].key@ == k;
            assert(after[j].key@ == k);
        }
        if has_key(after, k) {
            let j = choose|j: int| 0 <= j < after.len() && after[j].key@ == k;
            assert(before[j].key@ == k);
        }
    }
    assert forall|k: Seq<char>| has_key(before, k) implies #[trigger] first_index(after, k)
        == first_index(before, k) by {
        let j = choose|j: int| 0 <= j < before.len() && before[j].key@ == k;
        lemma_has_first(before, k, j);
        let f = first_index(before, k);
        assert(is_first(before, k, f));
        assert forall|j: int| 0 <= j < f implies after[j].key@ != k by {
            assert(before[j].key@ != k);
        }
        assert(is_first(after, k, f));
        lemma_first_index(after, k, f);
    }
    assert forall|k: Seq<char>| has_key(before, k) && k != key implies after[first_index(
        before,
        k,
    )] == before[first_index(before, k)] by {
        let j = choose|j: int| 0 <= j < before.len() && before[j].key@ == k;
        lemma_has_first(before, k, j);
        assert(is_first(before, k, first_index(before, k)));
    }
}

/// Appending an entry whose key is new adds that key with its values.
proof fn lemma_append(before: Seq<Entry>, entry: Entry)
    requires
        absent_before(before, entry.key@, before.len() as int),
    ensures
        !metadata_of(before).contains_key(entry.key@),
        metadata_of(before.push(entry)) =~= metadata_of(before).insert(
            entry.key@,
            entry.values.deep_view(),
        ),
{
    let after = before.push(entry);
    let key = entry.key@;
    assert(is_first(after, key, before.len() as int));
    lemma_first_index(after, key, before.len() as int);
    assert forall|k: Seq<char>| has_key(after, k) == (has_key(before, k) || k == key) by {
        if has_key(before, k) {
            let j = choose|j: int| 0 <= j < before.len() && before[j].key@ == k;
            assert(after[j].key@ == k);
        }
        if has_key(after, k) && k != key {
            let j = choose|j: int| 0 <= j < after.len() && after[j].key@ == k;
            assert(before[j].key@ == k);
        }
    }
    assert forall|k: Seq<char>| has_key(before, k) implies after[#[trigger] first_index(after, k)]
        == before[first_index(before, k)] by {
        let j = choose|j: int| 0 <= j < before.len() && before[j].key@ == k;
        lemma_has_first(before, k, j);
        let f = first_index(before, k);
        assert(is_first(before, k, f));
        assert forall|j: int| 0 <= j < f implies after[j].key@ != k by {
            assert(before[j].key@ != k);
        }
        assert(is_first(after, k, f));
        lemma_first_index(after, k, f);
        assert(after[f] == before[f]);
    }
}

impl View for Context {
    type V = ContextModel;

    closed spec fn view(&self) -> ContextModel {
        ContextModel {
            metadata: metadata_of(self.entries@),
            timeout_nano: self.timeout_nano as int,
        }
    }
}

/// A context without metadata whose timeout is `nanos` nanoseconds; `0` asks
/// for [`DEFAULT_TIMEOUT_NANOS`].
pub fn with_timeout(nanos: i64) -> (ctx: Context)
    ensures
        ctx@.metadata == Map::<Seq<char>, Seq<Seq<char>>>::empty(),
        ctx@.timeout_nano == nanos,
{
    let ctx = Context { entries: Vec::new(), timeout_nano: nanos };
    proof {
        assert(ctx@.metadata =~= Map::<Seq<char>, Seq<Seq<char>>>::empty());
    }
    ctx
}

impl Context {
    /// The position of the first entry that holds `key`.
    fn find(&self, key: &String) -> (found: Option<usize>)
        ensures
            match found {
                Some(i) => is_first(self.entries@, key@, i as int),
                None => absent_before(self.entries@, key@, self.entries@.len() as int),
            },
    {
        let mut i: usize = 0;
        while i < self.entries.len()
            invariant
                i <= self.entries@.len(),
                absent_before(self.entries@, key@, i as int),
            decreases self.entries@.len() - i,
        {
            if self.entries[i].key == *key {
                return Some(i);
            }
            i += 1;
        }
        None
    }

    /// Appends `value` to the list of `key`; a new key starts with that one
    /// value.
    pub fn add(&mut self, key: String, value: String)
        ensures
            final(self)@.metadata == metadata_add(old(self)@.metadata, key@, value@),
            final(self)@.timeout_nano == old(self)@.timeout_nano,
    {
        match self.find(&key) {
            Some(i) => {
                self.entries[i].values.push(value);
                proof {
                    lemma_replace(old(self).entries@, self.entries@, key@, i as int);
                    assert(self.entries@[i as int].values.deep_view() =~= old(
                        self,
                    ).entries@[i as int].values.deep_view().push(value@));
                }
            },
            None => {
                let mut values: Vec<String> = Vec::new();
                values.push(value);
                let entry = Entry { key, values };
                proof {
                    lemma_append(self.entries@, entry);
                    assert(entry.values.deep_view() =~= seq![value@]);
                }
                self.entries.push(entry);
            },
        }
    }

    /// Replaces the whole list of `key` by `values`.
    pub fn set(&mut self, key: String, values: Vec<String>)
        ensures
            final(self)@.metadata == metadata_set(
                old(self)@.metadata,
                key@,
                values.deep_view(),
            ),
            final(self)@.timeout_nano == old(self)@.timeout_nano,
    {
        match self.find(&key) {
            Some(i) => {
                self.entries[i].values = values;
                proof {
                    lemma_replace(old(self).entries@, self.entries@, key@, i as int);
                }
            },
            None => {
                let entry = Entry { key, values };
                proof {
                    lemma_append(self.entries@, entry);
                }
                self.entries.push(entry);
            },
        }
    }

    /// The values of `key`, in the order in which they were added.
    pub fn get(&self, key: &str) -> (values: Option<&Vec<String>>)
        ensures
            match values {
                Some(list) => self@.metadata.contains_key(key@) && list.deep_view()
                    == self@.metadata[key@],
                None => !self@.metadata.contains_key(key@),
            },
    {
        let owned = key.to_owned();
        match self.find(&owned) {
            Some(i) => {
                proof {
                    lemma_first_index(self.entries@, key@, i as int);
                }
                Some(&self.entries[i].values)
            },
            None => None,
        }
    }

    /// The timeout in nanoseconds as it was given.
    pub fn timeout_nano(&self) -> (nanos: i64)
        ensures
            nanos == self@.timeout_nano,
    {
        self.timeout_nano
    }

    /// The instant at which a call issued at `now` under this context
    /// expires, both in nanoseconds on the caller's clock.
    pub fn deadline_at(&self, now: u64) -> (deadline: u64)
        ensures
            deadline == deadline_of(self@.timeout_nano, now as int),
    {
        let timeout: i64 = if self.timeout_nano == 0 {
            DEFAULT_TIMEOUT_NANOS
        } else {
            self.timeout_nano
        };
        if timeout >= 0 {
            let ahead: u64 = timeout as u64;
            if now > u64::MAX - ahead {
                u64::MAX
            } else {
                now + ahead
            }
        } else {
            let back: u64 = (-(timeout + 1)) as u64 + 1;
            if back > now {
                0
            } else {
                now - back
            }
        }
    }
}

/// The context of a call that asks for nothing special: the default timeout,
/// two values under `key-1` and one under `key-2`.
pub fn default_ctx() -> (ctx: Context)
    ensures
        ctx@.timeout_nano == 0,
        ctx@.metadata == map![
            "key-1"@ => seq!["value-1-1"@, "value-1-2"@],
            "key-2"@ => seq!["value-2"@],
        ],
{
    let mut ctx = with_timeout(0);
    ctx.add("key-1".to_owned(), "value-1-1".to_owned());
    ctx.add("key-1".to_owned(), "value-1-2".to_owned());
    let mut values: Vec<String> = Vec::new();
    values.push("value-2".to_owned());
    ctx.set("key-2".to_owned(), values);
    proof {
        reveal_strlit("key-1");
        reveal_strlit("key-2");
        assert("key-1"@[4] != "key-2"@[4]);
        assert(values.deep_view() =~= seq!["value-2"@]);
        assert(seq!["value-1-1"@].push("value-1-2"@) =~= seq!["value-1-1"@, "value-1-2"@]);
        assert(ctx@.metadata =~= map![
            "key-1"@ => seq!["value-1-1"@, "value-1-2"@],
            "key-2"@ => seq!["value-2"@],
        ]);
    }
    ctx
}

/// The list of `key`, empty where the key is absent.
pub open spec fn values_of(metadata: Map<Seq<char>, Seq<Seq<char>>>, key: Seq<char>) -> Seq<
    Seq<char>,
> {
    if metadata.contains_key(key) {
        metadata[key]
    } else {
        Seq::empty()
    }
}

/// Adding puts the new value behind every value that the key already has, so
/// two values added under one key stay in the order in which they were added.
/// No other key is touched.
pub proof fn lemma_add_appends(
    metadata: Map<Seq<char>, Seq<Seq<char>>>,
    key: Seq<char>,
    first: Seq<char>,
    second: Seq<char>,
)
    ensures
        values_of(metadata_add(metadata, key, first), key) == values_of(metadata, key).push(first),
        values_of(metadata_add(metadata_add(metadata, key, first), key, second), key) == values_of(
            metadata,
            key,
        ).push(first).push(second),
        forall|other: Seq<char>|
            other != key ==> values_of(
                metadata_add(metadata_add(metadata, key, first), key, second),
                other,
            ) == values_of(metadata, other),
{
    assert(Seq::<Seq<char>>::empty().push(first) =~= seq![first]);
}

/// Setting replaces whatever the key had: the list is exactly the one given,
/// whether values were added before or not. No other key is touched.
pub proof fn lemma_set_replaces(
    metadata: Map<Seq<char>, Seq<Seq<char>>>,
    key: Seq<char>,
    added: Seq<char>,
    values: Seq<Seq<char>>,
)
    ensures
        values_of(metadata_set(metadata, key, values), key) == values,
        metadata_set(metadata_add(metadata, key, added), key, values) == metadata_set(
            metadata,
            key,
            values,
        ),
        forall|other: Seq<char>|
            other != key ==> values_of(metadata_set(metadata, key, values), other) == values_of(
                metadata,
                other,
            ),
{
    assert(metadata_set(metadata_add(metadata, key, added), key, values) =~= metadata_set(
        metadata,
        key,
        values,
    ));
}

} // verus!
