//! A semantic cache: near-duplicate prompts get a stored response.
use crate::json::json_tree;
use crate::score::{law_leader_is_unique, leader, leads, Score};
use crate::text::copy_option;
use serde_json::Value;
use std::collections::VecDeque;
use vstd::prelude::*;

verus! {

/// A stored response.
pub struct CacheEntry<E> {
    pub embedding: E,
    pub response: Value,
    pub category: Option<String>,
    /// When it was stored, in nanoseconds on a monotonic clock.
    pub inserted_at: u128,
}

/// A response from the cache.
pub struct CacheHit {
    pub response: Value,
    pub category: Option<String>,
    pub score: Score,
}

/// A brute-force semantic cache: near-duplicate prompts (by the similarity of
/// their embeddings) get a stored response instead of reaching the backend.
/// Fine at the scale of a single router instance.
pub struct SemanticCache<E> {
    entries: VecDeque<CacheEntry<E>>,
    similarity_threshold: Score,
    ttl_seconds: u64,
    max_entries: usize,
    enabled: bool,
}

/// What a cache holds and how it is set up.
pub ghost struct CacheModel<E> {
    /// The entries, the one stored first at the front.
    pub entries: Seq<CacheEntry<E>>,
    pub similarity_threshold: Score,
    pub ttl_seconds: u64,
    pub max_entries: usize,
    pub enabled: bool,
}

/// The age of something stored at `inserted_at`, as of `now`; zero where the
/// clock of the reader lags behind.
pub open spec fn age(inserted_at: u128, now: u128) -> int {
    if now >= inserted_at {
        now - inserted_at
    } else {
        0
    }
}

/// Whether an entry is still alive at a time.
pub open spec fn is_fresh<E>(entry: CacheEntry<E>, now: u128, ttl_seconds: u64) -> bool {
    age(entry.inserted_at, now) < ttl_seconds * 1_000_000_000
}

/// The entries that are still alive at a time, in the same order.
pub open spec fn fresh_entries<E>(
    entries: Seq<CacheEntry<E>>,
    now: u128,
    ttl_seconds: u64,
) -> Seq<CacheEntry<E>> {
    entries.filter(|e: CacheEntry<E>| is_fresh(e, now, ttl_seconds))
}

/// Whether `scores` is what `similarity` answers for the query and the
/// embedding of each entry.
pub open spec fn entries_rated<E, F: Fn(&E, &E) -> Score>(
    similarity: F,
    query: E,
    entries: Seq<CacheEntry<E>>,
    scores: Seq<Score>,
) -> bool {
    &&& scores.len() == entries.len()
    &&& forall|j: int|
        0 <= j < entries.len() ==> call_ensures(
            similarity,
            (&query, &(#[trigger] entries[j]).embedding),
            scores[j],
        )
}

/// Whether an answer is the one that the scores of the entries call for: the
/// leading entry, if its score reaches the threshold.
pub open spec fn is_answer<E>(
    hit: Option<CacheHit>,
    entries: Seq<CacheEntry<E>>,
    scores: Seq<Score>,
    threshold: Score,
) -> bool {
    match hit {
        Some(h) => exists|b: int| #[trigger]
            leads(scores, b) && scores[b].reaches(threshold) && h.score == scores[b] && h.category
                == entries[b].category && json_tree(h.response) == json_tree(entries[b].response),
        None => forall|b: int| #[trigger] leads(scores, b) ==> !scores[b].reaches(threshold),
    }
}

/// The entries after one more is stored: where the cache is full, the oldest
/// makes room.
pub open spec fn stored<E>(
    entries: Seq<CacheEntry<E>>,
    entry: CacheEntry<E>,
    max_entries: usize,
) -> Seq<CacheEntry<E>> {
    if entries.len() >= max_entries && entries.len() > 0 {
        entries.drop_first().push(entry)
    } else {
        entries.push(entry)
    }
}

impl<E> CacheModel<E> {
    /// No more entries than the limit; a limit of zero counts as one.
    pub open spec fn within_limit(self) -> bool {
        self.entries.len() <= if self.max_entries == 0 {
            1
        } else {
            self.max_entries as nat
        }
    }

    /// The same cache with other entries.
    pub open spec fn holding(self, entries: Seq<CacheEntry<E>>) -> CacheModel<E> {
        CacheModel { entries, ..self }
    }

    /// The cache after one more entry is stored: a disabled one stays as it is.
    pub open spec fn with_entry(self, entry: CacheEntry<E>) -> CacheModel<E> {
        if self.enabled {
            self.holding(stored(self.entries, entry, self.max_entries))
        } else {
            self
        }
    }

    /// The cache without the entries that are no longer alive; a disabled one
    /// stays as it is.
    pub open spec fn expired(self, now: u128) -> CacheModel<E> {
        if self.enabled {
            self.holding(fresh_entries(self.entries, now, self.ttl_seconds))
        } else {
            self
        }
    }
}

/// Whether a lookup at a time turns one cache into another and gives the
/// answer: expired entries are dropped, and the answer is the one that the
/// ratings of the others call for. A disabled cache gives none.
pub open spec fn is_lookup<E, F: Fn(&E, &E) -> Score>(
    before: CacheModel<E>,
    after: CacheModel<E>,
    similarity: F,
    query: E,
    now: u128,
    hit: Option<CacheHit>,
) -> bool {
    &&& after == before.expired(now)
    &&& !before.enabled ==> hit is None
    &&& before.enabled ==> exists|scores: Seq<Score>| #[trigger]
        entries_rated(similarity, query, after.entries, scores) && is_answer(
            hit,
            after.entries,
            scores,
            after.similarity_threshold,
        )
}

impl<E> SemanticCache<E> {
    /// What the cache holds and how it is set up.
    pub closed spec fn view(&self) -> CacheModel<E> {
        CacheModel {
            entries: self.entries@,
            similarity_threshold: self.similarity_threshold,
            ttl_seconds: self.ttl_seconds,
            max_entries: self.max_entries,
            enabled: self.enabled,
        }
    }

    /// An empty cache.
    pub fn new(
        enabled: bool,
        similarity_threshold: Score,
        ttl_seconds: u64,
        max_entries: usize,
    ) -> (cache: Self)
        ensures
            cache@ == (CacheModel::<E> {
                entries: Seq::empty(),
                similarity_threshold,
                ttl_seconds,
                max_entries,
                enabled,
            }),
            cache@.within_limit(),
    {
        SemanticCache {
            entries: VecDeque::new(),
            similarity_threshold,
            ttl_seconds,
            max_entries,
            enabled,
        }
    }

    /// Drops the entries that have outlived the time to live.
    fn expire(&mut self, now: u128)
        ensures
            final(self)@ == old(self)@.holding(
                fresh_entries(old(self)@.entries, now, old(self)@.ttl_seconds),
            ),
    {
        let ghost all = self.entries@;
        let ttl: u128 = self.ttl_seconds as u128 * 1_000_000_000;
        let ttl_seconds: u64 = self.ttl_seconds;
        let ghost alive = |e: CacheEntry<E>| is_fresh(e, now, ttl_seconds);
        let total: usize = self.entries.len();
        let mut kept: VecDeque<CacheEntry<E>> = VecDeque::new();
        let mut i: usize = 0;
        assert(all.take(0) =~= Seq::empty());
        assert(all.skip(0) =~= all);
        while i < total
            invariant
                0 <= i <= total,
                total == all.len(),
                alive == (|e: CacheEntry<E>| is_fresh(e, now, ttl_seconds)),
                ttl == ttl_seconds * 1_000_000_000,
                self.entries@ == all.skip(i as int),
                self@ == old(self)@.holding(self.entries@),
                ttl_seconds == old(self)@.ttl_seconds,
                kept@ == all.take(i as int).filter(alive),
            decreases total - i,
        {
            reveal(Seq::filter);
            if let Some(entry) = self.entries.pop_front() {
                assert(entry == all[i as int]);
                let age: u128 = if now >= entry.inserted_at { now - entry.inserted_at } else { 0 };
                assert(all.take(i + 1).drop_last() =~= all.take(i as int));
                assert(all.skip(i as int).drop_first() =~= all.skip(i + 1));
                if age < ttl {
                    kept.push_back(entry);
                }
            }
            i = i + 1;
        }
        assert(all.take(total as int) =~= all);
        self.entries = kept;
    }

    /// The stored response whose embedding is rated highest against the query,
    /// if its score reaches the similarity threshold. Entries that have
    /// outlived the time to live are dropped first.
    pub fn get<F: Fn(&E, &E) -> Score>(
        &mut self,
        query_embedding: &E,
        now: u128,
        similarity: &F,
    ) -> (hit: Option<CacheHit>)
        requires
            forall|e: E| call_requires(*similarity, (query_embedding, &e)),
        ensures
            is_lookup(old(self)@, final(self)@, *similarity, *query_embedding, now, hit),
            old(self)@.within_limit() ==> final(self)@.within_limit(),
    {
        if !self.enabled {
            return None;
        }
        self.expire(now);
        proof {
            let alive = |e: CacheEntry<E>| is_fresh(e, now, old(self)@.ttl_seconds);
            old(self)@.entries.lemma_filter_len(alive);
        }
        let mut scores: Vec<Score> = Vec::new();
        let mut i: usize = 0;
        while i < self.entries.len()
            invariant
                0 <= i <= self.entries.len(),
                forall|e: E| call_requires(*similarity, (query_embedding, &e)),
                entries_rated(
                    *similarity,
                    *query_embedding,
                    self.entries@.take(i as int),
                    scores@,
                ),
            decreases self.entries.len() - i,
        {
            scores.push(similarity(query_embedding, &self.entries[i].embedding));
            i = i + 1;
        }
        assert(self.entries@.take(i as int) =~= self.entries@);
        self.answer(&scores)
    }

    /// The response of the leading entry, given a score for each entry, if its
    /// score reaches the similarity threshold.
    pub fn answer(&self, scores: &Vec<Score>) -> (hit: Option<CacheHit>)
        requires
            scores@.len() == self@.entries.len(),
        ensures
            is_answer(hit, self@.entries, scores@, self@.similarity_threshold),
    {
        match leader(scores) {
            Some(b) => {
                let score = scores[b];
                if score >= self.similarity_threshold {
                    let entry = &self.entries[b];
                    Some(
                        CacheHit {
                            response: entry.response.clone(),
                            category: copy_option(&entry.category),
                            score,
                        },
                    )
                } else {
                    proof {
                        assert forall|c: int| #[trigger] leads(scores@, c) implies !scores@[c].reaches(
                            self.similarity_threshold,
                        ) by {
                            law_leader_is_unique(scores@, b as int, c);
                        }
                    }
                    None
                }
            },
            None => None,
        }
    }

    /// Stores a response; where the cache is full, the oldest entry makes room.
    pub fn put(&mut self, embedding: E, response: Value, category: Option<String>, now: u128)
        ensures
            final(self)@ == old(self)@.with_entry(
                CacheEntry { embedding, response, category, inserted_at: now },
            ),
            old(self)@.within_limit() ==> final(self)@.within_limit(),
    {
        if !self.enabled {
            return;
        }
        if self.entries.len() >= self.max_entries {
            let _ = self.entries.pop_front();
        }
        self.entries.push_back(CacheEntry { embedding, response, category, inserted_at: now });
        assert(self@.entries =~= stored(
            old(self)@.entries,
            CacheEntry { embedding, response, category, inserted_at: now },
            old(self)@.max_entries,
        ));
    }
}

/// Whether entries stand in the order in which they were stored.
pub open spec fn in_age_order<E>(entries: Seq<CacheEntry<E>>) -> bool {
    forall|i: int, j: int|
        0 <= i < j < entries.len() ==> (#[trigger] entries[i]).inserted_at <= (
        #[trigger] entries[j]).inserted_at
}

proof fn lemma_fresh_push<E>(
    entries: Seq<CacheEntry<E>>,
    entry: CacheEntry<E>,
    now: u128,
    ttl_seconds: u64,
)
    ensures
        fresh_entries(entries.push(entry), now, ttl_seconds) == if is_fresh(entry, now, ttl_seconds) {
            fresh_entries(entries, now, ttl_seconds).push(entry)
        } else {
            fresh_entries(entries, now, ttl_seconds)
        },
{
    reveal(Seq::filter);
    assert(entries.push(entry).drop_last() =~= entries);
}

/// What was stored last can be read back: while it is alive and rated at the
/// threshold or above, a lookup answers, with a score at least as high; and it
/// answers with what was stored where every other entry is rated lower. No
/// rating at the front may be NaN.
pub proof fn law_stored_response_is_found<E>(
    before: CacheModel<E>,
    entry: CacheEntry<E>,
    now: u128,
    scores: Seq<Score>,
    hit: Option<CacheHit>,
)
    requires
        is_fresh(entry, now, before.ttl_seconds),
        ({
            let kept = fresh_entries(
                stored(before.entries, entry, before.max_entries),
                now,
                before.ttl_seconds,
            );
            &&& scores.len() == kept.len()
            &&& !scores[0].is_nan()
            &&& scores.last().reaches(before.similarity_threshold)
            &&& is_answer(hit, kept, scores, before.similarity_threshold)
        }),
    ensures
        hit is Some,
        hit->Some_0.score.reaches(scores.last()),
        (forall|j: int| 0 <= j < scores.len() - 1 ==> scores.last().exceeds(#[trigger] scores[j]))
            ==> {
            &&& hit->Some_0.score == scores.last()
            &&& json_tree(hit->Some_0.response) == json_tree(entry.response)
            &&& hit->Some_0.category == entry.category
        },
{
    let others = if before.entries.len() >= before.max_entries && before.entries.len() > 0 {
        before.entries.drop_first()
    } else {
        before.entries
    };
    let kept = fresh_entries(others.push(entry), now, before.ttl_seconds);
    lemma_fresh_push(others, entry, now, before.ttl_seconds);
    assert(kept.last() == entry);
    lemma_leader_exists(scores);
    let top = choose|b: int| leads(scores, b);
    let last = scores.len() - 1;
    assert(scores[top].reaches(scores[last]));
    assert(scores[top].reaches(before.similarity_threshold));
    assert(hit is Some);
    let b = choose|b: int| #[trigger]
        leads(scores, b) && hit->Some_0.score == scores[b] && hit->Some_0.category
            == kept[b].category && json_tree(hit->Some_0.response) == json_tree(kept[b].response);
    law_leader_is_unique(scores, top, b);
    if forall|j: int| 0 <= j < last ==> scores.last().exceeds(#[trigger] scores[j]) {
        if b < last {
            assert(scores.last().exceeds(scores[b]));
        }
    }
}

proof fn lemma_leader_exists(scores: Seq<Score>)
    requires
        scores.len() > 0,
    ensures
        exists|b: int| leads(scores, b),
    decreases scores.len(),
{
    if scores.len() == 1 {
        assert(leads(scores, 0));
    } else {
        let rest = scores.drop_last();
        lemma_leader_exists(rest);
        let b = choose|b: int| leads(rest, b);
        assert(forall|j: int| 0 <= j < rest.len() ==> rest[j] == scores[j]);
        if scores.last().exceeds(scores[b]) {
            assert(leads(scores, scores.len() - 1));
        } else {
            assert(leads(scores, b));
        }
    }
}

/// A lookup answers with the best of all live entries: it finds nothing exactly
/// where no live entry is rated at the threshold or above; and else it answers
/// with the oldest of those that are rated highest, NaNs left aside. The rating
/// of the oldest live entry may not be NaN.
pub proof fn law_best_live_entry_answers<E>(
    before: CacheModel<E>,
    now: u128,
    scores: Seq<Score>,
    hit: Option<CacheHit>,
)
    requires
        scores.len() == before.expired(now).entries.len(),
        scores.len() > 0 ==> !scores[0].is_nan(),
        is_answer(hit, before.expired(now).entries, scores, before.similarity_threshold),
    ensures
        hit is None <==> forall|i: int|
            0 <= i < scores.len() ==> !(#[trigger] scores[i]).reaches(before.similarity_threshold),
        hit matches Some(h) ==> {
            let kept = before.expired(now).entries;
            exists|b: int|
                0 <= b < kept.len() && {
                    &&& h.score == scores[b]
                    &&& h.category == (#[trigger] kept[b]).category
                    &&& json_tree(h.response) == json_tree(kept[b].response)
                    &&& forall|j: int|
                        0 <= j < scores.len() && !(#[trigger] scores[j]).is_nan()
                            ==> scores[b].reaches(scores[j])
                    &&& forall|j: int|
                        0 <= j < b && !(#[trigger] scores[j]).is_nan() ==> scores[b].exceeds(
                            scores[j],
                        )
                }
        },
{
    let kept = before.expired(now).entries;
    if scores.len() > 0 {
        lemma_leader_exists(scores);
        let top = choose|b: int| leads(scores, b);
        assert(leads(scores, top));
        if let Some(h) = hit {
            let b = choose|b: int| #[trigger]
                leads(scores, b) && scores[b].reaches(before.similarity_threshold) && h.score
                    == scores[b] && h.category == kept[b].category && json_tree(h.response)
                    == json_tree(kept[b].response);
            assert(scores[b].reaches(before.similarity_threshold));
            assert(h.category == kept[b].category);
        } else {
            assert forall|i: int| 0 <= i < scores.len() implies !(#[trigger] scores[i]).reaches(
                before.similarity_threshold,
            ) by {
                assert(!scores[i].is_nan() ==> scores[top].reaches(scores[i]));
            }
        }
    }
}

/// A response from the cache was stored in it, is still alive, and is rated at
/// the threshold or above.
pub proof fn law_hit_comes_from_a_live_entry<E>(
    entries: Seq<CacheEntry<E>>,
    now: u128,
    ttl_seconds: u64,
    scores: Seq<Score>,
    threshold: Score,
    hit: CacheHit,
)
    requires
        scores.len() == fresh_entries(entries, now, ttl_seconds).len(),
        is_answer(Some(hit), fresh_entries(entries, now, ttl_seconds), scores, threshold),
    ensures
        hit.score.reaches(threshold),
        exists|i: int|
            0 <= i < entries.len() && is_fresh(#[trigger] entries[i], now, ttl_seconds)
                && hit.category == entries[i].category && json_tree(hit.response) == json_tree(
                entries[i].response,
            ),
{
    let alive = |e: CacheEntry<E>| is_fresh(e, now, ttl_seconds);
    let kept = fresh_entries(entries, now, ttl_seconds);
    let b = choose|b: int| #[trigger]
        leads(scores, b) && scores[b].reaches(threshold) && hit.score == scores[b] && hit.category
            == kept[b].category && json_tree(hit.response) == json_tree(kept[b].response);
    broadcast use vstd::seq_lib::group_filter_ensures;

    assert(alive(kept[b]));
    entries.lemma_filter_contains_rev(alive, kept[b]);
    let i = choose|i: int| 0 <= i < entries.len() && entries[i] == kept[b];
    assert(is_fresh(entries[i], now, ttl_seconds));
}

/// What has expired stays expired: dropping at one time and again at a later
/// one is dropping at the later one.
pub proof fn law_expiry_is_final<E>(
    entries: Seq<CacheEntry<E>>,
    earlier: u128,
    later: u128,
    ttl_seconds: u64,
)
    requires
        earlier <= later,
    ensures
        fresh_entries(fresh_entries(entries, earlier, ttl_seconds), later, ttl_seconds)
            == fresh_entries(entries, later, ttl_seconds),
    decreases entries.len(),
{
    if entries.len() == 0 {
        reveal(Seq::filter);
    } else {
        let rest = entries.drop_last();
        let last = entries.last();
        law_expiry_is_final(rest, earlier, later, ttl_seconds);
        assert(rest.push(last) =~= entries);
        lemma_fresh_push(rest, last, earlier, ttl_seconds);
        lemma_fresh_push(rest, last, later, ttl_seconds);
        if is_fresh(last, earlier, ttl_seconds) {
            lemma_fresh_push(fresh_entries(rest, earlier, ttl_seconds), last, later, ttl_seconds);
        }
    }
}

/// With a time to live of zero nothing is ever found.
pub proof fn law_zero_lifetime_never_hits<E>(
    entries: Seq<CacheEntry<E>>,
    now: u128,
    scores: Seq<Score>,
    threshold: Score,
    hit: Option<CacheHit>,
)
    requires
        scores.len() == fresh_entries(entries, now, 0).len(),
        is_answer(hit, fresh_entries(entries, now, 0), scores, threshold),
    ensures
        hit is None,
{
    let alive = |e: CacheEntry<E>| is_fresh(e, now, 0);
    broadcast use vstd::seq_lib::group_filter_ensures;

    if fresh_entries(entries, now, 0).len() > 0 {
        assert(alive(fresh_entries(entries, now, 0)[0]));
    }
}

/// Entries stay in the order in which they were stored, on a clock that never
/// goes back; so the one that makes room is the oldest.
pub proof fn law_oldest_entry_makes_room<E>(
    entries: Seq<CacheEntry<E>>,
    entry: CacheEntry<E>,
    max_entries: usize,
    now: u128,
    ttl_seconds: u64,
)
    requires
        in_age_order(entries),
        forall|i: int| 0 <= i < entries.len() ==> (#[trigger] entries[i]).inserted_at <= entry.inserted_at,
    ensures
        in_age_order(stored(entries, entry, max_entries)),
        in_age_order(fresh_entries(entries, now, ttl_seconds)),
        entries.len() > 0 && entries.len() >= max_entries ==> {
            &&& stored(entries, entry, max_entries) == entries.push(entry).drop_first()
            &&& forall|i: int|
                0 <= i < entries.len() ==> entries[0].inserted_at <= (
                #[trigger] entries[i]).inserted_at
        },
    decreases entries.len(),
{
    if entries.len() == 0 {
        reveal(Seq::filter);
    } else {
        assert(entries.push(entry).drop_first() =~= entries.drop_first().push(entry));
        let rest = entries.drop_last();
        let last = entries.last();
        assert(rest.push(last) =~= entries);
        lemma_fresh_push(rest, last, now, ttl_seconds);
        law_oldest_entry_makes_room(rest, last, max_entries, now, ttl_seconds);
        let alive = |e: CacheEntry<E>| is_fresh(e, now, ttl_seconds);
        let kept = fresh_entries(rest, now, ttl_seconds);
        assert forall|i: int| 0 <= i < kept.len() implies (#[trigger] kept[i]).inserted_at
            <= last.inserted_at by {
            assert(kept.contains(kept[i]));
            rest.lemma_filter_contains_rev(alive, kept[i]);
            let k = choose|k: int| 0 <= k < rest.len() && rest[k] == kept[i];
            assert(entries[k] == rest[k]);
        }
    }
}

/// An entry stored at some time survives a lookup a while later exactly where
/// that while is shorter than the time to live, whatever the time was.
pub proof fn law_entry_lives_for_the_time_to_live<E>(
    before: CacheModel<E>,
    k: int,
    elapsed: u128,
    now: u128,
)
    requires
        before.enabled,
        0 <= k < before.entries.len(),
        now == before.entries[k].inserted_at + elapsed,
    ensures
        before.expired(now).entries.contains(before.entries[k]) <==> elapsed < before.ttl_seconds
            * 1_000_000_000,
{
    let alive = |e: CacheEntry<E>| is_fresh(e, now, before.ttl_seconds);
    let entry = before.entries[k];
    let kept = before.expired(now).entries;
    broadcast use vstd::seq_lib::group_filter_ensures;

    if elapsed < before.ttl_seconds * 1_000_000_000 {
        assert(alive(entry));
        assert(before.entries.contains(entry));
        before.entries.lemma_filter_contains(alive, k);
    } else if kept.contains(entry) {
        let i = choose|i: int| 0 <= i < kept.len() && kept[i] == entry;
        assert(alive(kept[i]));
    }
}

/// Whether an entry is alive does not depend on when the clock was started: to
/// shift the time at which it was stored and the time of the lookup alike
/// changes nothing. At the time at which it was stored, and before, it is alive
/// unless the time to live is zero.
pub proof fn law_freshness_is_relative<E>(
    a: CacheEntry<E>,
    b: CacheEntry<E>,
    now: u128,
    shift: u128,
    ttl_seconds: u64,
)
    requires
        b.inserted_at == a.inserted_at + shift,
        now + shift <= u128::MAX,
    ensures
        is_fresh(a, now, ttl_seconds) == is_fresh(b, (now + shift) as u128, ttl_seconds),
        now <= a.inserted_at ==> (is_fresh(a, now, ttl_seconds) <==> ttl_seconds > 0),
{
}

/// A lookup drops each entry that is too old, and no other, and keeps the rest
/// in order: one entry more leaves the others as they are, and is kept itself,
/// last, where it is younger than the time to live. Nothing else changes, and a
/// disabled cache does not change at all.
pub proof fn law_each_entry_expires_by_itself<E>(
    before: CacheModel<E>,
    entry: CacheEntry<E>,
    now: u128,
)
    ensures
        before.enabled ==> {
            let longer = CacheModel { entries: before.entries.push(entry), ..before };
            let age = if now >= entry.inserted_at {
                now - entry.inserted_at
            } else {
                0
            };
            longer.expired(now).entries == if age < before.ttl_seconds * 1_000_000_000 {
                before.expired(now).entries.push(entry)
            } else {
                before.expired(now).entries
            }
        },
        before.entries.len() == 0 ==> before.expired(now).entries.len() == 0,
        !before.enabled ==> before.expired(now) == before,
        before.expired(now) == (CacheModel { entries: before.expired(now).entries, ..before }),
{
    lemma_fresh_push(before.entries, entry, now, before.ttl_seconds);
    if before.entries.len() == 0 {
        reveal(Seq::filter);
    }
}

/// Storing appends: the new entry comes last, every other stays in its order,
/// and where the limit was reached the first of them is gone. Nothing else
/// changes, the limit holds (a limit of zero counts as one), and a disabled
/// cache does not change at all.
pub proof fn law_storing_drops_at_most_the_oldest<E>(before: CacheModel<E>, entry: CacheEntry<E>)
    ensures
        !before.enabled ==> before.with_entry(entry) == before,
        before.with_entry(entry) == (CacheModel {
            entries: before.with_entry(entry).entries,
            ..before
        }),
        before.enabled ==> {
            let old = before.entries;
            let new = before.with_entry(entry).entries;
            &&& new.len() > 0 && new.last() == entry
            &&& old.len() < before.max_entries || old.len() == 0 ==> {
                &&& new.len() == old.len() + 1
                &&& forall|i: int| 0 <= i < old.len() ==> #[trigger] new[i] == old[i]
            }
            &&& old.len() >= before.max_entries && old.len() > 0 ==> {
                &&& new.len() == old.len()
                &&& forall|i: int| 0 <= i < old.len() - 1 ==> #[trigger] new[i] == old[i + 1]
            }
        },
        before.entries.len() <= before.max_entries ==> before.with_entry(entry).entries.len()
            <= before.max_entries || before.with_entry(entry).entries.len() == 1,
        before.within_limit() <==> before.entries.len() <= before.max_entries
            || before.entries.len() == 1,
{
}

/// A lookup rates every live entry, however many there are: for each of them the
/// similarity answers something for the query and its embedding, and a hit has a
/// score that reaches it, while without a hit it stays below the threshold. This
/// is so where the similarity never answers NaN.
pub proof fn law_lookup_rates_every_live_entry<E, F: Fn(&E, &E) -> Score>(
    before: CacheModel<E>,
    after: CacheModel<E>,
    similarity: F,
    query: E,
    now: u128,
    hit: Option<CacheHit>,
    k: int,
)
    requires
        is_lookup(before, after, similarity, query, now, hit),
        before.enabled,
        0 <= k < before.entries.len(),
        now < before.entries[k].inserted_at + before.ttl_seconds * 1_000_000_000,
        before.ttl_seconds > 0,
        forall|e: E, s: Score| call_ensures(similarity, (&query, &e), s) ==> !s.is_nan(),
    ensures
        exists|s: Score| #[trigger]
            call_ensures(similarity, (&query, &before.entries[k].embedding), s) && match hit {
                Some(h) => h.score.reaches(s),
                None => !s.reaches(before.similarity_threshold),
            },
{
    let kept = after.entries;
    let alive = |e: CacheEntry<E>| is_fresh(e, now, before.ttl_seconds);
    let scores = choose|scores: Seq<Score>| #[trigger]
        entries_rated(similarity, query, kept, scores) && is_answer(
            hit,
            kept,
            scores,
            after.similarity_threshold,
        );
    assert(alive(before.entries[k]));
    before.entries.lemma_filter_contains(alive, k);
    let i = choose|i: int| 0 <= i < kept.len() && kept[i] == before.entries[k];
    assert(call_ensures(similarity, (&query, &kept[i].embedding), scores[i]));
    assert(call_ensures(similarity, (&query, &kept[0].embedding), scores[0]));
    law_best_live_entry_answers(before, now, scores, hit);
    if let Some(h) = hit {
        let b = choose|b: int|
            0 <= b < kept.len() && h.score == scores[b] && h.category == (
            #[trigger] kept[b]).category && (forall|j: int|
                0 <= j < scores.len() && !(#[trigger] scores[j]).is_nan() ==> scores[b].reaches(
                    scores[j],
                ));
        assert(scores[b].reaches(scores[i]));
    }
}

/// A hit is a stored response: there is an entry, younger than the time to live,
/// for whose embedding the similarity answers the score of the hit, which
/// reaches the threshold; and the hit has the response and the category of that
/// entry. A disabled cache gives none.
pub proof fn law_hit_is_a_stored_response<E, F: Fn(&E, &E) -> Score>(
    before: CacheModel<E>,
    after: CacheModel<E>,
    similarity: F,
    query: E,
    now: u128,
    hit: CacheHit,
)
    requires
        is_lookup(before, after, similarity, query, now, Some(hit)),
    ensures
        before.enabled,
        hit.score.reaches(before.similarity_threshold),
        exists|k: int|
            0 <= k < before.entries.len() && {
                &&& call_ensures(
                    similarity,
                    (&query, &(#[trigger] before.entries[k]).embedding),
                    hit.score,
                )
                &&& now < before.entries[k].inserted_at + before.ttl_seconds * 1_000_000_000
                &&& before.ttl_seconds > 0
                &&& hit.category == before.entries[k].category
                &&& json_tree(hit.response) == json_tree(before.entries[k].response)
            },
{
    broadcast use vstd::seq_lib::group_filter_ensures;

    let kept = after.entries;
    let alive = |e: CacheEntry<E>| is_fresh(e, now, before.ttl_seconds);
    let scores = choose|scores: Seq<Score>| #[trigger]
        entries_rated(similarity, query, kept, scores) && is_answer(
            Some(hit),
            kept,
            scores,
            after.similarity_threshold,
        );
    let b = choose|b: int| #[trigger]
        leads(scores, b) && scores[b].reaches(after.similarity_threshold) && hit.score == scores[b]
            && hit.category == kept[b].category && json_tree(hit.response) == json_tree(
            kept[b].response,
        );
    assert(call_ensures(similarity, (&query, &kept[b].embedding), scores[b]));
    assert(alive(kept[b]));
    before.entries.lemma_filter_contains_rev(alive, kept[b]);
    let k = choose|k: int| 0 <= k < before.entries.len() && before.entries[k] == kept[b];
    assert(before.entries[k] == kept[b]);
}

/// A lookup changes a cache by what has expired alone, whatever it answers, and
/// a disabled cache neither changes nor answers.
pub proof fn law_lookup_only_expires<E, F: Fn(&E, &E) -> Score>(
    before: CacheModel<E>,
    after: CacheModel<E>,
    similarity: F,
    query: E,
    now: u128,
    hit: Option<CacheHit>,
)
    requires
        is_lookup(before, after, similarity, query, now, hit),
    ensures
        before.enabled ==> after == before.expired(now),
        !before.enabled ==> after == before && hit is None,
{
}

/// A NaN for the oldest entry withholds every answer.
pub proof fn law_nan_at_the_front_never_hits<E>(
    entries: Seq<CacheEntry<E>>,
    scores: Seq<Score>,
    threshold: Score,
    hit: Option<CacheHit>,
)
    requires
        scores.len() == entries.len(),
        scores.len() > 0,
        scores[0].is_nan(),
        is_answer(hit, entries, scores, threshold),
    ensures
        hit is None,
{
}

} // verus!
