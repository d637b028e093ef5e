//! Which attempt at each alias was the latest, and the order in which the
//! aliases are offered: the most recent first.

use crate::history::{attempts, Attempt, HistoryEntry};
use crate::text::{lemma_text_lt_total, lemma_text_lt_transitive, text_before, text_lt};
use vstd::prelude::*;

verus! {

/// Whether `a` is offered before `b`: it is the more recent of the two, or
/// as recent and its alias comes first in the order of a dictionary.
pub open spec fn ranks_before(a: Attempt, b: Attempt) -> bool {
    a.timestamp > b.timestamp || (a.timestamp == b.timestamp && text_lt(a.alias, b.alias))
}

/// Each attempt of `r` is offered before all that follow it.
pub open spec fn is_ranked(r: Seq<Attempt>) -> bool {
    forall|i: int, j: int| 0 <= i < j < r.len() ==> ranks_before(#[trigger] r[i], #[trigger] r[j])
}

/// `r` lists what `latest` holds, one attempt per alias, the most recent
/// first.
pub open spec fn is_ranking(r: Seq<Attempt>, latest: Map<Seq<char>, i64>) -> bool {
    &&& is_ranked(r)
    &&& forall|i: int|
        0 <= i < r.len() ==> latest.contains_pair((#[trigger] r[i]).alias, r[i].timestamp)
    &&& forall|alias: Seq<char>| #[trigger]
        latest.contains_key(alias) ==> exists|i: int|
            0 <= i < r.len() && (#[trigger] r[i]).alias == alias
}

/// What is known after one more attempt: its timestamp stands for its alias
/// unless a later or equal one already does.
pub open spec fn recorded(latest: Map<Seq<char>, i64>, a: Attempt) -> Map<Seq<char>, i64> {
    if latest.contains_key(a.alias) && latest[a.alias] >= a.timestamp {
        latest
    } else {
        latest.insert(a.alias, a.timestamp)
    }
}

/// What is known after the attempts of `log`, taken in order.
pub open spec fn latest_of(log: Seq<Attempt>) -> Map<Seq<char>, i64>
    decreases log.len(),
{
    if log.len() == 0 {
        Map::empty()
    } else {
        recorded(latest_of(log.drop_last()), log.last())
    }
}

/// The order of attempts is transitive.
pub proof fn lemma_ranks_before_transitive(a: Attempt, b: Attempt, c: Attempt)
    requires
        ranks_before(a, b),
        ranks_before(b, c),
    ensures
        ranks_before(a, c),
{
    if a.timestamp == b.timestamp && b.timestamp == c.timestamp {
        lemma_text_lt_transitive(a.alias, b.alias, c.alias);
    }
}

/// Of two attempts at different aliases exactly one is offered before the
/// other, and none before another at the same alias and time.
pub proof fn lemma_ranks_before_total(a: Attempt, b: Attempt)
    ensures
        a.alias != b.alias ==> (ranks_before(a, b) <==> !ranks_before(b, a)),
        a.alias == b.alias && a.timestamp == b.timestamp ==> !ranks_before(a, b),
{
    lemma_text_lt_total(a.alias, b.alias);
}

/// A ranking names no alias twice.
pub proof fn lemma_ranking_distinct(r: Seq<Attempt>, latest: Map<Seq<char>, i64>)
    requires
        is_ranking(r, latest),
    ensures
        forall|i: int, j: int|
            0 <= i < r.len() && 0 <= j < r.len() && i != j ==> (#[trigger] r[i]).alias != (
            #[trigger] r[j]).alias,
{
    assert forall|i: int, j: int|
        0 <= i < r.len() && 0 <= j < r.len() && i != j implies (#[trigger] r[i]).alias != (
    #[trigger] r[j]).alias by {
        lemma_ranks_before_total(r[i], r[j]);
        lemma_ranks_before_total(r[j], r[i]);
    }
}

/// Without one of its attempts, a ranking lists what is known without that
/// alias.
pub proof fn lemma_ranking_remove(r: Seq<Attempt>, latest: Map<Seq<char>, i64>, j: int)
    requires
        is_ranking(r, latest),
        0 <= j < r.len(),
    ensures
        is_ranking(r.remove(j), latest.remove(r[j].alias)),
{
    let s = r.remove(j);
    let m = latest.remove(r[j].alias);
    r.remove_ensures(j);
    lemma_ranking_distinct(r, latest);
    assert forall|i: int| 0 <= i < s.len() implies m.contains_pair(
        (#[trigger] s[i]).alias,
        s[i].timestamp,
    ) by {
        let k = if i < j { i } else { i + 1 };
        assert(s[i] == r[k]);
    }
    assert forall|alias: Seq<char>| #[trigger] m.contains_key(alias) implies exists|i: int|
        0 <= i < s.len() && (#[trigger] s[i]).alias == alias by {
        let k = choose|k: int| 0 <= k < r.len() && (#[trigger] r[k]).alias == alias;
        let i = if k < j { k } else { k - 1 };
        assert(s[i] == r[k]);
    }
    assert forall|a: int, b: int| 0 <= a < b < s.len() implies ranks_before(
        #[trigger] s[a],
        #[trigger] s[b],
    ) by {
        let ka = if a < j { a } else { a + 1 };
        let kb = if b < j { b } else { b + 1 };
        assert(s[a] == r[ka] && s[b] == r[kb]);
    }
}

/// An attempt put between those offered before it and those offered after
/// it keeps the order.
proof fn lemma_ranked_insert(r: Seq<Attempt>, a: Attempt, p: int)
    requires
        is_ranked(r),
        0 <= p <= r.len(),
        forall|i: int| 0 <= i < p ==> ranks_before(#[trigger] r[i], a),
        forall|i: int| p <= i < r.len() ==> ranks_before(a, #[trigger] r[i]),
    ensures
        is_ranked(r.insert(p, a)),
{
    let s = r.insert(p, a);
    r.insert_ensures(p, a);
    assert forall|x: int, y: int| 0 <= x < y < s.len() implies ranks_before(
        #[trigger] s[x],
        #[trigger] s[y],
    ) by {
        if y == p {
            assert(s[x] == r[x]);
        } else if x == p {
            assert(s[y] == r[y - 1]);
        } else {
            let kx = if x < p { x } else { x - 1 };
            let ky = if y < p { y } else { y - 1 };
            assert(s[x] == r[kx]);
            assert(s[y] == r[ky]);
        }
    }
}

/// With an attempt at a new alias put where the order asks for it, a
/// ranking lists what is known with that attempt.
pub proof fn lemma_ranking_insert(r: Seq<Attempt>, latest: Map<Seq<char>, i64>, a: Attempt, p: int)
    requires
        is_ranking(r, latest),
        !latest.contains_key(a.alias),
        0 <= p <= r.len(),
        forall|i: int| 0 <= i < p ==> ranks_before(#[trigger] r[i], a),
        p == r.len() || !ranks_before(r[p], a),
    ensures
        is_ranking(r.insert(p, a), latest.insert(a.alias, a.timestamp)),
{
    let s = r.insert(p, a);
    let m = latest.insert(a.alias, a.timestamp);
    r.insert_ensures(p, a);
    assert forall|i: int| p <= i < r.len() implies ranks_before(a, #[trigger] r[i]) by {
        assert(latest.contains_pair(r[p].alias, r[p].timestamp));
        lemma_ranks_before_total(r[p], a);
        if i > p {
            lemma_ranks_before_transitive(a, r[p], r[i]);
        }
    }
    lemma_ranked_insert(r, a, p);
    assert forall|i: int| 0 <= i < s.len() implies m.contains_pair(
        (#[trigger] s[i]).alias,
        s[i].timestamp,
    ) by {
        if i < p {
            assert(s[i] == r[i]);
        } else if i > p {
            assert(s[i] == r[i - 1]);
        }
    }
    assert forall|alias: Seq<char>| #[trigger] m.contains_key(alias) implies exists|i: int|
        0 <= i < s.len() && (#[trigger] s[i]).alias == alias by {
        if alias == a.alias {
            assert(s[p].alias == alias);
        } else {
            let k = choose|k: int| 0 <= k < r.len() && (#[trigger] r[k]).alias == alias;
            let i = if k < p { k } else { k + 1 };
            assert(s[i] == r[k]);
        }
    }
}

/// What is known has one ranking only.
pub proof fn lemma_ranking_unique(r: Seq<Attempt>, s: Seq<Attempt>, latest: Map<Seq<char>, i64>)
    requires
        is_ranking(r, latest),
        is_ranking(s, latest),
    ensures
        r == s,
    decreases r.len(),
{
    if r.len() == 0 {
        if s.len() > 0 {
            assert(latest.contains_key(s[0].alias));
        }
        assert(r =~= s);
    } else {
        assert(latest.contains_key(r[0].alias));
        let j = choose|j: int| 0 <= j < s.len() && (#[trigger] s[j]).alias == r[0].alias;
        assert(s[j] == r[0]);
        assert(latest.contains_key(s[0].alias));
        let i = choose|i: int| 0 <= i < r.len() && (#[trigger] r[i]).alias == s[0].alias;
        assert(r[i] == s[0]);
        if j > 0 {
            lemma_ranks_before_total(s[0], s[j]);
            assert(false);
        }
        lemma_ranking_remove(r, latest, 0);
        lemma_ranking_remove(s, latest, 0);
        lemma_ranking_unique(r.remove(0), s.remove(0), latest.remove(r[0].alias));
        assert(r =~= seq![r[0]] + r.remove(0));
        assert(s =~= seq![s[0]] + s.remove(0));
    }
}

/// What is known holds the latest attempt at each alias of the log, and
/// nothing else: an alias is known exactly if the log holds an attempt at
/// it, and then with the greatest timestamp of those attempts.
pub proof fn lemma_latest_of_is_maximum(log: Seq<Attempt>)
    ensures
        forall|alias: Seq<char>| #[trigger]
            latest_of(log).contains_key(alias) <==> exists|k: int|
                0 <= k < log.len() && (#[trigger] log[k]).alias == alias,
        forall|k: int|
            0 <= k < log.len() ==> latest_of(log)[(#[trigger] log[k]).alias] >= log[k].timestamp,
        forall|alias: Seq<char>| #[trigger]
            latest_of(log).contains_key(alias) ==> exists|k: int|
                0 <= k < log.len() && #[trigger] log[k] == (Attempt {
                    alias,
                    timestamp: latest_of(log)[alias],
                }),
    decreases log.len(),
{
    if log.len() > 0 {
        let before = log.drop_last();
        let last = log.last();
        lemma_latest_of_is_maximum(before);
        assert forall|alias: Seq<char>| #[trigger]
            latest_of(log).contains_key(alias) implies exists|k: int|
            0 <= k < log.len() && (#[trigger] log[k]).alias == alias by {
            if alias == last.alias {
                assert(log[log.len() - 1].alias == alias);
            } else {
                assert(latest_of(before).contains_key(alias));
                let k = choose|k: int| 0 <= k < before.len() && (#[trigger] before[k]).alias == alias;
                assert(log[k] == before[k]);
            }
        }
        assert forall|alias: Seq<char>|
            (exists|k: int|
                0 <= k < log.len() && (#[trigger] log[k]).alias == alias) implies #[trigger]
            latest_of(log).contains_key(alias) by {
            let k = choose|k: int| 0 <= k < log.len() && (#[trigger] log[k]).alias == alias;
            if k < before.len() {
                assert(before[k].alias == alias);
            }
        }
        assert forall|k: int| 0 <= k < log.len() implies latest_of(log)[(#[trigger] log[k]).alias]
            >= log[k].timestamp by {
            if k < before.len() {
                assert(before[k] == log[k]);
                assert(latest_of(before).contains_key(before[k].alias));
            }
        }
        assert forall|alias: Seq<char>| #[trigger]
            latest_of(log).contains_key(alias) implies exists|k: int|
            0 <= k < log.len() && #[trigger] log[k] == (Attempt {
                alias,
                timestamp: latest_of(log)[alias],
            }) by {
            if alias == last.alias && latest_of(log)[alias] == last.timestamp {
                assert(log[log.len() - 1] == last);
            } else {
                assert(latest_of(before).contains_key(alias));
                let k = choose|k: int|
                    0 <= k < before.len() && #[trigger] before[k] == (Attempt {
                        alias,
                        timestamp: latest_of(before)[alias],
                    });
                assert(log[k] == before[k]);
            }
        }
    }
}

/// A ranking of what is known after the attempts of `log` has one entry for
/// each alias of the log and no other, and the entry holds the greatest
/// timestamp among the attempts at its alias.
pub proof fn lemma_ranking_of_log(log: Seq<Attempt>, r: Seq<Attempt>)
    requires
        is_ranking(r, latest_of(log)),
    ensures
        forall|i: int, j: int|
            0 <= i < r.len() && 0 <= j < r.len() && i != j ==> (#[trigger] r[i]).alias != (
            #[trigger] r[j]).alias,
        forall|k: int|
            0 <= k < log.len() ==> exists|i: int|
                0 <= i < r.len() && (#[trigger] r[i]).alias == (#[trigger] log[k]).alias
                    && r[i].timestamp >= log[k].timestamp,
        forall|i: int|
            0 <= i < r.len() ==> exists|k: int| 0 <= k < log.len() && #[trigger] log[k] == #[trigger] r[i],
{
    let known = latest_of(log);
    lemma_latest_of_is_maximum(log);
    lemma_ranking_distinct(r, known);
    assert forall|k: int| 0 <= k < log.len() implies exists|i: int|
        0 <= i < r.len() && (#[trigger] r[i]).alias == (#[trigger] log[k]).alias && r[i].timestamp
            >= log[k].timestamp by {
        assert(known.contains_key(log[k].alias));
        let i = choose|i: int| 0 <= i < r.len() && (#[trigger] r[i]).alias == log[k].alias;
        assert(known.contains_pair(r[i].alias, r[i].timestamp));
    }
    assert forall|i: int| 0 <= i < r.len() implies exists|k: int|
        0 <= k < log.len() && #[trigger] log[k] == #[trigger] r[i] by {
        assert(known.contains_pair(r[i].alias, r[i].timestamp));
        assert(known.contains_key(r[i].alias));
        let k = choose|k: int|
            0 <= k < log.len() && #[trigger] log[k] == (Attempt {
                alias: r[i].alias,
                timestamp: known[r[i].alias],
            });
        assert(log[k] == r[i]);
    }
}

/// Whether `a` is offered before `b`.
pub fn offered_before(a: &HistoryEntry, b: &HistoryEntry) -> (r: bool)
    ensures
        r == ranks_before(a@, b@),
{
    a.timestamp > b.timestamp || (a.timestamp == b.timestamp && text_before(
        a.alias.as_str(),
        b.alias.as_str(),
    ))
}

/// The latest attempt at each alias, kept in the order in which the aliases
/// are offered.
pub struct HistoryStore {
    ranked: Vec<HistoryEntry>,
    latest: Ghost<Map<Seq<char>, i64>>,
}

impl View for HistoryStore {
    type V = Map<Seq<char>, i64>;

    /// The timestamp of the latest attempt at each alias.
    closed spec fn view(&self) -> Map<Seq<char>, i64> {
        self.latest@
    }
}

impl HistoryStore {
    /// The store lists what it knows, one entry per alias, the most recent
    /// first.
    pub closed spec fn wf(&self) -> bool {
        is_ranking(attempts(self.ranked@), self.latest@)
    }

    /// A store that knows of no attempt.
    pub fn new() -> (s: Self)
        ensures
            s.wf(),
            s@ == Map::<Seq<char>, i64>::empty(),
    {
        HistoryStore { ranked: Vec::new(), latest: Ghost(Map::empty()) }
    }

    /// Where the entry for `alias` stands, if there is one.
    fn position(&self, alias: &String) -> (r: Option<usize>)
        requires
            self.wf(),
        ensures
            match r {
                Some(j) => j < self.ranked@.len() && self.ranked@[j as int].alias@ == alias@,
                None => !self@.contains_key(alias@),
            },
    {
        let mut j: usize = 0;
        while j < self.ranked.len()
            invariant
                j <= self.ranked@.len(),
                forall|i: int| 0 <= i < j ==> (#[trigger] self.ranked@[i]).alias@ != alias@,
            decreases self.ranked.len() - j,
        {
            if self.ranked[j].alias == *alias {
                return Some(j);
            }
            j += 1;
        }
        proof {
            if self@.contains_key(alias@) {
                let r = attempts(self.ranked@);
                let i = choose|i: int| 0 <= i < r.len() && (#[trigger] r[i]).alias == alias@;
                assert(self.ranked@[i].alias@ == alias@);
            }
        }
        None
    }

    /// Where `entry` belongs: after all that are offered before it.
    fn slot(&self, entry: &HistoryEntry) -> (p: usize)
        ensures
            p <= self.ranked@.len(),
            forall|i: int| 0 <= i < p ==> ranks_before((#[trigger] self.ranked@[i])@, entry@),
            p == self.ranked@.len() || !ranks_before(self.ranked@[p as int]@, entry@),
    {
        let mut p: usize = 0;
        while p < self.ranked.len() && offered_before(&self.ranked[p], entry)
            invariant
                p <= self.ranked@.len(),
                forall|i: int| 0 <= i < p ==> ranks_before((#[trigger] self.ranked@[i])@, entry@),
            decreases self.ranked.len() - p,
        {
            p += 1;
        }
        p
    }

    /// Takes note of one more attempt.
    pub fn record(&mut self, entry: HistoryEntry)
        requires
            old(self).wf(),
        ensures
            final(self).wf(),
            final(self)@ == recorded(old(self)@, entry@),
    {
        let ghost before = attempts(self.ranked@);
        let ghost known = self.latest@;
        match self.position(&entry.alias) {
            Some(j) => {
                assert(before[j as int] == self.ranked@[j as int]@);
                if self.ranked[j].timestamp >= entry.timestamp {
                    return ;
                }
                self.ranked.remove(j);
                proof {
                    lemma_ranking_remove(before, known, j as int);
                    before.remove_ensures(j as int);
                    assert(attempts(self.ranked@) == before.remove(j as int));
                    self.latest = Ghost(known.remove(entry.alias@));
                }
            },
            None => {},
        }
        let ghost without = attempts(self.ranked@);
        let p = self.slot(&entry);
        proof {
            assert forall|i: int| 0 <= i < p implies ranks_before(#[trigger] without[i], entry@) by {
                assert(without[i] == self.ranked@[i]@);
            }
            if p < without.len() {
                assert(without[p as int] == self.ranked@[p as int]@);
            }
            lemma_ranking_insert(without, self.latest@, entry@, p as int);
            without.insert_ensures(p as int, entry@);
            self.ranked@.insert_ensures(p as int, entry);
            assert(attempts(self.ranked@.insert(p as int, entry)) == without.insert(
                p as int,
                entry@,
            ));
            assert(known.remove(entry.alias@).insert(entry.alias@, entry.timestamp)
                == known.insert(entry.alias@, entry.timestamp));
            self.latest = Ghost(self.latest@.insert(entry.alias@, entry.timestamp));
        }
        self.ranked.insert(p, entry);
    }

    /// What the store knows, one entry per alias, the most recent first.
    pub fn entries(&self) -> (v: Vec<HistoryEntry>)
        requires
            self.wf(),
        ensures
            is_ranking(attempts(v@), self@),
    {
        let ghost ranking = attempts(self.ranked@);
        let mut v: Vec<HistoryEntry> = Vec::new();
        let mut k: usize = 0;
        while k < self.ranked.len()
            invariant
                k <= self.ranked@.len(),
                ranking == attempts(self.ranked@),
                attempts(v@) == ranking.take(k as int),
            decreases self.ranked.len() - k,
        {
            let entry = HistoryEntry {
                alias: self.ranked[k].alias.clone(),
                timestamp: self.ranked[k].timestamp,
            };
            assert(attempts(v@.push(entry)) == ranking.take(k as int).push(ranking[k as int]));
            assert(ranking.take(k + 1) == ranking.take(k as int).push(ranking[k as int]));
            v.push(entry);
            k += 1;
        }
        assert(ranking.take(k as int) == ranking);
        v
    }

    /// What the store knew, one entry per alias, the most recent first.
    pub fn into_entries(self) -> (v: Vec<HistoryEntry>)
        requires
            self.wf(),
        ensures
            is_ranking(attempts(v@), self@),
    {
        self.ranked
    }
}

} // verus!
