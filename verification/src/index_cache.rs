//! A cache of what remote peers answered to index queries
use crate::wire_messages::{Entry, IndexQuery};
use std::num::NonZeroUsize;
use lru::LruCache;
use vstd::prelude::*;

verus! {

/// What the keys of a cache are hashed with.
#[verifier::external_type_specification]
#[verifier::external_body]
pub struct ExDefaultHasher(lru::DefaultHasher);

/// A cache that drops what was used least recently.
#[verifier::external_type_specification]
#[verifier::external_body]
#[verifier::reject_recursive_types(K)]
#[verifier::reject_recursive_types(V)]
#[verifier::reject_recursive_types(S)]
pub struct ExLruCache<K, V, S>(LruCache<K, V, S>);

/// What a query asks for.
pub type QueryView = (Option<Seq<char>>, Option<Seq<char>>, bool);

/// What a cache holds, the most recently used entry first.
pub uninterp spec fn cached(
    cache: LruCache<(Option<String>, Option<String>, bool), Vec<Vec<Entry>>>,
) -> Seq<(QueryView, Vec<Vec<Entry>>)>;

/// The most entries that a cache holds.
pub uninterp spec fn cache_limit(
    cache: LruCache<(Option<String>, Option<String>, bool), Vec<Vec<Entry>>>,
) -> nat;

/// Calls `LruCache::new`, which makes an empty cache that holds at most `limit` entries. It makes
/// room for all of them at once, which fails for limits that no memory can hold.
#[verifier::external_body]
fn new_cache(limit: usize) -> (r: LruCache<
    (Option<String>, Option<String>, bool),
    Vec<Vec<Entry>>,
>)
    requires
        0 < limit <= 65536,
    ensures
        cached(r).len() == 0,
        cache_limit(r) == limit,
{
    LruCache::new(NonZeroUsize::new(limit).unwrap())
}

/// The entries with other keys.
pub open spec fn others(
    entries: Seq<(QueryView, Vec<Vec<Entry>>)>,
    key: QueryView,
) -> Seq<(QueryView, Vec<Vec<Entry>>)> {
    entries.filter(|entry: (QueryView, Vec<Vec<Entry>>)| entry.0 != key)
}

/// Whether there is an entry with a key.
pub open spec fn is_cached(entries: Seq<(QueryView, Vec<Vec<Entry>>)>, key: QueryView) -> bool {
    exists|i: int| 0 <= i < entries.len() && (#[trigger] entries[i]).0 == key
}

/// The view of a key.
pub open spec fn key_view(key: (Option<String>, Option<String>, bool)) -> QueryView {
    (text_view(key.0), text_view(key.1), key.2)
}

/// The view of a text that may be there.
pub open spec fn text_view(text: Option<String>) -> Option<Seq<char>> {
    match text {
        Some(text) => Some(text@),
        None => None,
    }
}

/// Calls `LruCache::get`, which finds the entry with a key and moves it to the front. An entry
/// that is not there leaves everything as it is.
#[verifier::external_body]
fn cache_get<'a>(
    cache: &'a mut LruCache<(Option<String>, Option<String>, bool), Vec<Vec<Entry>>>,
    key: &(Option<String>, Option<String>, bool),
) -> (r: Option<&'a Vec<Vec<Entry>>>)
    ensures
        r is Some == is_cached(cached(*old(cache)), key_view(*key)),
        r is Some ==> cached(*old(cache)).contains((key_view(*key), *r->Some_0)),
        cached(*final(cache)) == if r is Some {
            seq![(key_view(*key), *r->Some_0)] + others(cached(*old(cache)), key_view(*key))
        } else {
            cached(*old(cache))
        },
        cache_limit(*final(cache)) == cache_limit(*old(cache)),
{
    cache.get(key)
}

/// Calls `LruCache::put`, which puts an entry to the front, in place of one with the same key.
/// Where that makes too many, the one at the end leaves.
#[verifier::external_body]
fn cache_put(
    cache: &mut LruCache<(Option<String>, Option<String>, bool), Vec<Vec<Entry>>>,
    key: (Option<String>, Option<String>, bool),
    value: Vec<Vec<Entry>>,
)
    ensures
        cached(*final(cache)) == within(
            seq![(key_view(key), value)] + others(cached(*old(cache)), key_view(key)),
            cache_limit(*old(cache)),
        ),
        cache_limit(*final(cache)) == cache_limit(*old(cache)),
{
    cache.put(key, value);
}

/// The first entries, as many as a limit allows.
pub open spec fn within(entries: Seq<(QueryView, Vec<Vec<Entry>>)>, limit: nat) -> Seq<
    (QueryView, Vec<Vec<Entry>>),
> {
    if entries.len() <= limit {
        entries
    } else {
        entries.take(limit as int)
    }
}

/// Whether no key occurs twice.
pub open spec fn distinct(entries: Seq<(QueryView, Vec<Vec<Entry>>)>) -> bool {
    forall|i: int, j: int|
        0 <= i < j < entries.len() ==> (#[trigger] entries[i]).0 != (#[trigger] entries[j]).0
}

/// What is cached for a key.
pub open spec fn lookup(entries: Seq<(QueryView, Vec<Vec<Entry>>)>, key: QueryView) -> Option<
    Vec<Vec<Entry>>,
> {
    if is_cached(entries, key) {
        let i = choose|i: int| 0 <= i < entries.len() && (#[trigger] entries[i]).0 == key;
        Some(entries[i].1)
    } else {
        None
    }
}

/// The entries once something has been put in.
pub open spec fn with_entry(
    entries: Seq<(QueryView, Vec<Vec<Entry>>)>,
    key: QueryView,
    value: Vec<Vec<Entry>>,
    limit: nat,
) -> Seq<(QueryView, Vec<Vec<Entry>>)> {
    within(seq![(key, value)] + others(entries, key), limit)
}

/// The entries once one has been used.
pub open spec fn used(entries: Seq<(QueryView, Vec<Vec<Entry>>)>, key: QueryView) -> Seq<
    (QueryView, Vec<Vec<Entry>>),
> {
    match lookup(entries, key) {
        Some(value) => seq![(key, value)] + others(entries, key),
        None => entries,
    }
}

proof fn lemma_others(entries: Seq<(QueryView, Vec<Vec<Entry>>)>, key: QueryView)
    requires
        distinct(entries),
    ensures
        distinct(others(entries, key)),
        forall|i: int|
            0 <= i < others(entries, key).len() ==> (#[trigger] others(entries, key)[i]).0 != key
                && entries.contains(others(entries, key)[i]),
        forall|i: int|
            0 <= i < entries.len() && (#[trigger] entries[i]).0 != key ==> others(
                entries,
                key,
            ).contains(entries[i]),
        others(entries, key).len() + (if is_cached(entries, key) {
            1nat
        } else {
            0nat
        }) == entries.len(),
    decreases entries.len(),
{
    let other = |entry: (QueryView, Vec<Vec<Entry>>)| entry.0 != key;
    reveal(Seq::filter);
    if entries.len() > 0 {
        let rest = entries.drop_last();
        let last = entries.last();
        lemma_others(rest, key);
        let kept = others(rest, key);
        assert forall|i: int| 0 <= i < kept.len() implies (#[trigger] kept[i]).0 != last.0 || last.0
            == key by {
            let j = choose|j: int| 0 <= j < rest.len() && rest[j] == kept[i];
            assert(entries[j].0 != entries[entries.len() - 1].0);
        }
        assert(is_cached(entries, key) == (is_cached(rest, key) || last.0 == key)) by {
            if is_cached(rest, key) {
                let j = choose|j: int| 0 <= j < rest.len() && (#[trigger] rest[j]).0 == key;
                assert(entries[j].0 == key);
            }
            if last.0 == key {
                assert(entries[entries.len() - 1].0 == key);
            }
            if is_cached(entries, key) && last.0 != key {
                let j = choose|j: int| 0 <= j < entries.len() && (#[trigger] entries[j]).0 == key;
                assert(rest[j].0 == key);
            }
        }
        if last.0 == key && is_cached(rest, key) {
            let j = choose|j: int| 0 <= j < rest.len() && (#[trigger] rest[j]).0 == key;
            assert(entries[j].0 != entries[entries.len() - 1].0);
        }
        let all = others(entries, key);
        assert(all == if last.0 != key {
            kept.push(last)
        } else {
            kept
        });
        assert forall|i: int| 0 <= i < all.len() implies (#[trigger] all[i]).0 != key
            && entries.contains(all[i]) by {
            if i < kept.len() {
                assert(all[i] == kept[i]);
                let j = choose|j: int| 0 <= j < rest.len() && rest[j] == kept[i];
                assert(entries[j] == all[i]);
            } else {
                assert(entries[entries.len() - 1] == all[i]);
            }
        }
        assert forall|i: int| 0 <= i < entries.len() && (#[trigger] entries[i]).0
            != key implies all.contains(entries[i]) by {
            if i < rest.len() {
                assert(rest[i] == entries[i]);
                let j = choose|j: int| 0 <= j < kept.len() && kept[j] == rest[i];
                assert(all[j] == entries[i]);
            } else {
                assert(all[kept.len() as int] == entries[i]);
            }
        }
    }
}

proof fn lemma_lookup(entries: Seq<(QueryView, Vec<Vec<Entry>>)>, i: int)
    requires
        distinct(entries),
        0 <= i < entries.len(),
    ensures
        lookup(entries, entries[i].0) == Some(entries[i].1),
{
    let key = entries[i].0;
    assert(entries[i].0 == key);
    let j = choose|j: int| 0 <= j < entries.len() && (#[trigger] entries[j]).0 == key;
    assert(j == i);
}

/// What is put in is what is found, until something else is put in its place.
pub proof fn law_cached_answer_is_found(
    entries: Seq<(QueryView, Vec<Vec<Entry>>)>,
    key: QueryView,
    value: Vec<Vec<Entry>>,
    limit: nat,
)
    requires
        distinct(entries),
        limit > 0,
    ensures
        lookup(with_entry(entries, key, value, limit), key) == Some(value),
        distinct(with_entry(entries, key, value, limit)),
        with_entry(entries, key, value, limit).len() <= limit,
{
    lemma_others(entries, key);
    let after = with_entry(entries, key, value, limit);
    assert(after[0] == (key, value));
    lemma_lookup(after, 0);
}

/// Putting in an answer does not change another one: that one is still there, or it was the least
/// recently used one of a full cache.
pub proof fn law_other_answers_stay(
    entries: Seq<(QueryView, Vec<Vec<Entry>>)>,
    key: QueryView,
    value: Vec<Vec<Entry>>,
    limit: nat,
    i: int,
)
    requires
        distinct(entries),
        0 < limit,
        entries.len() <= limit,
        0 <= i < entries.len(),
        entries[i].0 != key,
        i < entries.len() - 1 || entries.len() < limit || is_cached(entries, key),
    ensures
        lookup(with_entry(entries, key, value, limit), entries[i].0) == Some(entries[i].1),
{
    let kept = others(entries, key);
    let all = seq![(key, value)] + kept;
    let after = with_entry(entries, key, value, limit);
    law_cached_answer_is_found(entries, key, value, limit);
    lemma_others(entries, key);
    let j = choose|j: int| 0 <= j < kept.len() && kept[j] == entries[i];
    if all.len() <= limit {
        assert(after[j + 1] == entries[i]);
        lemma_lookup(after, j + 1);
    } else {
        // Nothing is left out, so that the order is the same
        assert(!is_cached(entries, key));
        lemma_nothing_left_out(entries, key);
        assert(after[i + 1] == entries[i]);
        lemma_lookup(after, i + 1);
    }
}

proof fn lemma_nothing_left_out(entries: Seq<(QueryView, Vec<Vec<Entry>>)>, key: QueryView)
    requires
        !is_cached(entries, key),
    ensures
        others(entries, key) == entries,
    decreases entries.len(),
{
    reveal(Seq::filter);
    if entries.len() > 0 {
        let rest = entries.drop_last();
        assert forall|j: int| 0 <= j < rest.len() implies (#[trigger] rest[j]).0 != key by {
            assert(entries[j].0 != key);
        }
        lemma_nothing_left_out(rest, key);
        assert(entries[entries.len() - 1].0 != key);
        assert(rest.push(entries.last()) =~= entries);
    } else {
        assert(others(entries, key) =~= entries);
    }
}

/// What a query asks for.
pub open spec fn query_view(query: IndexQuery) -> QueryView {
    (text_view(query.path), text_view(query.searchterm), query.recursive)
}

/// The cache for index requests to one peer
pub struct IndexCache {
    cache: LruCache<(Option<String>, Option<String>, bool), Vec<Vec<Entry>>>,
}

impl View for IndexCache {
    type V = Seq<(QueryView, Vec<Vec<Entry>>)>;

    closed spec fn view(&self) -> Seq<(QueryView, Vec<Vec<Entry>>)> {
        cached(self.cache)
    }
}

fn copy_key(query: &IndexQuery) -> (r: (Option<String>, Option<String>, bool))
    ensures
        key_view(r) == query_view(*query),
{
    let path = match &query.path {
        Some(path) => Some(path.clone()),
        None => None,
    };
    let searchterm = match &query.searchterm {
        Some(searchterm) => Some(searchterm.clone()),
        None => None,
    };
    (path, searchterm, query.recursive)
}

/// Copies some entries.
pub fn copy_entries(entries: &Vec<Entry>) -> (r: Vec<Entry>)
    ensures
        r@ == entries@,
{
    let mut r: Vec<Entry> = Vec::new();
    let mut i: usize = 0;
    while i < entries.len()
        invariant
            i <= entries@.len(),
            r@ =~= entries@.take(i as int),
        decreases entries@.len() - i,
    {
        let entry = &entries[i];
        r.push(Entry { name: entry.name.clone(), size: entry.size, is_dir: entry.is_dir });
        i += 1;
    }
    r
}

/// The lists of entries in an answer.
pub open spec fn entry_lists(answer: Seq<Vec<Entry>>) -> Seq<Seq<Entry>> {
    answer.map_values(|entries: Vec<Entry>| entries@)
}

impl IndexCache {
    /// The most answers that are kept.
    pub closed spec fn limit(self) -> nat {
        cache_limit(self.cache)
    }

    /// No query occurs twice, and the limit is kept.
    pub open spec fn wf(self) -> bool {
        &&& distinct(self@)
        &&& 0 < self.limit()
        &&& self@.len() <= self.limit()
    }

    /// An empty cache.
    pub fn new(limit: usize) -> (r: IndexCache)
        requires
            0 < limit <= 65536,
        ensures
            r.wf(),
            r@.len() == 0,
            r.limit() == limit,
    {
        IndexCache { cache: new_cache(limit) }
    }

    /// What is cached for a query, which becomes the most recently used one.
    pub fn get(&mut self, query: &IndexQuery) -> (r: Option<Vec<Vec<Entry>>>)
        requires
            old(self).wf(),
        ensures
            final(self).wf(),
            final(self).limit() == old(self).limit(),
            final(self)@ == used(old(self)@, query_view(*query)),
            match r {
                Some(answer) => {
                    &&& lookup(old(self)@, query_view(*query)) is Some
                    &&& entry_lists(answer@) == entry_lists(
                        lookup(old(self)@, query_view(*query))->Some_0@,
                    )
                },
                None => lookup(old(self)@, query_view(*query)) is None,
            },
    {
        let key = copy_key(query);
        let ghost before = self@;
        proof {
            lemma_others(before, query_view(*query));
        }
        match cache_get(&mut self.cache, &key) {
            Some(answer) => {
                proof {
                    let found = (query_view(*query), *answer);
                    let i = choose|i: int| 0 <= i < before.len() && before[i] == found;
                    lemma_lookup(before, i);
                }
                let mut r: Vec<Vec<Entry>> = Vec::new();
                let mut i: usize = 0;
                while i < answer.len()
                    invariant
                        i <= answer@.len(),
                        r@.len() == i,
                        forall|k: int| 0 <= k < i ==> (#[trigger] r@[k])@ == answer@[k]@,
                    decreases answer@.len() - i,
                {
                    r.push(copy_entries(&answer[i]));
                    i += 1;
                }
                assert(entry_lists(r@) =~= entry_lists(answer@));
                Some(r)
            },
            None => None,
        }
    }

    /// Puts in the answer to a query.
    pub fn put(&mut self, query: &IndexQuery, answer: Vec<Vec<Entry>>)
        requires
            old(self).wf(),
        ensures
            final(self).wf(),
            final(self).limit() == old(self).limit(),
            final(self)@ == with_entry(
                old(self)@,
                query_view(*query),
                answer,
                old(self).limit(),
            ),
    {
        proof {
            law_cached_answer_is_found(self@, query_view(*query), answer, self.limit());
        }
        let key = copy_key(query);
        cache_put(&mut self.cache, key, answer);
    }
}

/// An answer that was just used is not the next to leave: it is still found once another one is put
/// in, if there is room for both.
pub proof fn law_used_answer_stays(
    entries: Seq<(QueryView, Vec<Vec<Entry>>)>,
    key: QueryView,
    other: QueryView,
    value: Vec<Vec<Entry>>,
    limit: nat,
)
    requires
        distinct(entries),
        entries.len() <= limit,
        limit >= 2,
        is_cached(entries, key),
        key != other,
    ensures
        lookup(with_entry(used(entries, key), other, value, limit), key) == lookup(entries, key),
{
    let i = choose|i: int| 0 <= i < entries.len() && (#[trigger] entries[i]).0 == key;
    lemma_lookup(entries, i);
    lemma_others(entries, key);
    let after = used(entries, key);
    let kept = others(entries, key);
    assert(after =~= seq![(key, entries[i].1)] + kept);
    assert(after[0] == (key, entries[i].1));
    assert forall|a: int, b: int| 0 <= a < b < after.len() implies (#[trigger] after[a]).0 != (
    #[trigger] after[b]).0 by {
        assert(after[b] == kept[b - 1]);
        if a > 0 {
            assert(after[a] == kept[a - 1]);
        }
    }
    lemma_others(after, other);
    law_other_answers_stay(after, other, value, limit, 0);
}

/// Queries that ask for different things are cached apart.
pub proof fn law_different_queries_are_cached_apart(a: IndexQuery, b: IndexQuery)
    requires
        query_view(a) == query_view(b),
    ensures
        a.recursive == b.recursive,
        a.path is Some == b.path is Some,
        a.path is Some ==> a.path->Some_0@ == b.path->Some_0@,
        a.searchterm is Some == b.searchterm is Some,
        a.searchterm is Some ==> a.searchterm->Some_0@ == b.searchterm->Some_0@,
{
}

} // verus!
