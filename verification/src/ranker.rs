//! One list of candidates from the history and the configuration.

use crate::history::{attempts, Attempt, HistoryEntry};
use crate::recency::{is_ranking, lemma_ranking_distinct, ranks_before};
use crate::text::texts;
use vstd::prelude::*;

verus! {

/// The aliases of some attempts, in their order.
pub open spec fn aliases(history: Seq<Attempt>) -> Seq<Seq<char>> {
    Seq::new(history.len(), |i: int| history[i].alias)
}

/// Tells the aliases that are not among `known`, for `filter`.
pub open spec fn unknown_to(known: Seq<Seq<char>>) -> spec_fn(Seq<char>) -> bool {
    |alias: Seq<char>| !known.contains(alias)
}

/// The candidates: the aliases of the history in its order, then those of
/// the configuration that the history does not hold, in their order and as
/// often as the configuration has them.
pub open spec fn merged(history: Seq<Attempt>, config: Seq<Seq<char>>) -> Seq<Seq<char>> {
    aliases(history) + config.filter(unknown_to(aliases(history)))
}

/// The aliases of `s` in the order in which each comes first.
pub open spec fn distinct(s: Seq<Seq<char>>) -> Seq<Seq<char>>
    decreases s.len(),
{
    if s.len() == 0 {
        s
    } else {
        let before = distinct(s.drop_last());
        if before.contains(s.last()) {
            before
        } else {
            before.push(s.last())
        }
    }
}

/// The candidates start with the aliases of the history, in its order, and
/// go on with aliases of the configuration that the history does not hold.
pub proof fn lemma_merged_parts(history: Seq<Attempt>, config: Seq<Seq<char>>)
    ensures
        history.len() <= merged(history, config).len(),
        forall|i: int| 0 <= i < history.len() ==> merged(history, config)[i] == history[i].alias,
        forall|i: int|
            history.len() <= i < merged(history, config).len() ==> {
                &&& config.contains(#[trigger] merged(history, config)[i])
                &&& !aliases(history).contains(merged(history, config)[i])
            },
        forall|alias: Seq<char>|
            config.contains(alias) || aliases(history).contains(alias) ==> merged(
                history,
                config,
            ).contains(alias),
{
    let known = aliases(history);
    let tail = config.filter(unknown_to(known));
    let m = merged(history, config);
    assert forall|i: int| history.len() <= i < m.len() implies {
        &&& config.contains(#[trigger] m[i])
        &&& !known.contains(m[i])
    } by {
        let j = i - history.len();
        assert(m[i] == tail[j]);
        config.lemma_filter_pred(unknown_to(known), j);
        assert(tail.contains(tail[j]));
        config.lemma_filter_contains_rev(unknown_to(known), tail[j]);
    }
    assert forall|alias: Seq<char>|
        config.contains(alias) || known.contains(alias) implies m.contains(alias) by {
        if known.contains(alias) {
            let i = choose|i: int| 0 <= i < known.len() && known[i] == alias;
            assert(m[i] == alias);
        } else {
            let i = choose|i: int| 0 <= i < config.len() && config[i] == alias;
            config.lemma_filter_contains(unknown_to(known), i);
            let j = choose|j: int| 0 <= j < tail.len() && tail[j] == alias;
            assert(m[history.len() + j] == alias);
        }
    }
}

/// What is kept of a list without a repeated alias has none.
proof fn lemma_filter_no_duplicates(s: Seq<Seq<char>>, keep: spec_fn(Seq<char>) -> bool)
    requires
        s.no_duplicates(),
    ensures
        s.filter(keep).no_duplicates(),
    decreases s.len(),
{
    reveal(Seq::filter);
    if s.len() > 0 {
        let before = s.drop_last();
        lemma_filter_no_duplicates(before, keep);
        if keep(s.last()) {
            let kept = before.filter(keep);
            if kept.contains(s.last()) {
                before.lemma_filter_contains_rev(keep, s.last());
                let i = choose|i: int| 0 <= i < before.len() && before[i] == s.last();
                assert(s[i] == s[s.len() - 1]);
            }
        }
    }
}

/// No alias is offered twice where neither the history nor the
/// configuration repeats one; an alias of both is offered once, for the
/// history.
pub proof fn lemma_merged_no_duplicates(history: Seq<Attempt>, config: Seq<Seq<char>>)
    requires
        aliases(history).no_duplicates(),
        config.no_duplicates(),
    ensures
        merged(history, config).no_duplicates(),
{
    let known = aliases(history);
    let tail = config.filter(unknown_to(known));
    let m = merged(history, config);
    lemma_filter_no_duplicates(config, unknown_to(known));
    lemma_merged_parts(history, config);
    assert forall|i: int, j: int| 0 <= i < m.len() && 0 <= j < m.len() && i != j implies m[i]
        != m[j] by {
        if i < known.len() && j < known.len() {
            assert(m[i] == known[i] && m[j] == known[j]);
        } else if i >= known.len() && j >= known.len() {
            assert(m[i] == tail[i - known.len()] && m[j] == tail[j - known.len()]);
        } else if i < known.len() {
            assert(m[i] == known[i]);
            assert(!known.contains(m[j]));
        } else {
            assert(m[j] == known[j]);
            assert(!known.contains(m[i]));
        }
    }
}

/// The candidates that come from a ranking stand in its order: each is
/// more recent than those after it, or as recent and first by its alias.
pub proof fn lemma_merged_history_ranked(
    history: Seq<Attempt>,
    latest: Map<Seq<char>, i64>,
    config: Seq<Seq<char>>,
)
    requires
        is_ranking(history, latest),
    ensures
        aliases(history).no_duplicates(),
        forall|i: int, j: int|
            0 <= i < j < history.len() ==> {
                &&& #[trigger] merged(history, config)[i] == history[i].alias
                &&& #[trigger] merged(history, config)[j] == history[j].alias
                &&& ranks_before(history[i], history[j])
                &&& history[i].timestamp >= history[j].timestamp
            },
{
    lemma_ranking_distinct(history, latest);
    assert forall|i: int, j: int|
        0 <= i < aliases(history).len() && 0 <= j < aliases(history).len() && i != j implies aliases(
        history,
    )[i] != aliases(history)[j] by {
        assert(history[i].alias != history[j].alias);
    }
}

/// What `distinct` keeps: every alias of the list, each once.
pub proof fn lemma_distinct(s: Seq<Seq<char>>)
    ensures
        distinct(s).no_duplicates(),
        forall|alias: Seq<char>|
            #![trigger distinct(s).contains(alias)]
            #![trigger s.contains(alias)]
            distinct(s).contains(alias) <==> s.contains(alias),
    decreases s.len(),
{
    if s.len() > 0 {
        let before = s.drop_last();
        let d = distinct(before);
        lemma_distinct(before);
        assert forall|alias: Seq<char>|
            #![trigger distinct(s).contains(alias)]
            #![trigger s.contains(alias)]
            distinct(s).contains(alias) <==> s.contains(alias) by {
            if s.contains(alias) {
                let i = choose|i: int| 0 <= i < s.len() && s[i] == alias;
                if i < before.len() {
                    assert(before[i] == alias);
                    assert(before.contains(alias));
                    let j = choose|j: int| 0 <= j < d.len() && d[j] == alias;
                    assert(distinct(s)[j] == alias);
                } else if !d.contains(s.last()) {
                    assert(distinct(s)[d.len() as int] == alias);
                }
            }
            if distinct(s).contains(alias) {
                let j = choose|j: int| 0 <= j < distinct(s).len() && distinct(s)[j] == alias;
                if j < d.len() {
                    assert(d[j] == alias);
                    assert(d.contains(alias));
                    let i = choose|i: int| 0 <= i < before.len() && before[i] == alias;
                    assert(s[i] == alias);
                } else {
                    assert(s[s.len() - 1] == alias);
                }
            }
        }
    }
}

/// Whether the history holds an attempt at `alias`.
pub fn attempted(history: &Vec<HistoryEntry>, alias: &String) -> (b: bool)
    ensures
        b == aliases(attempts(history@)).contains(alias@),
{
    let ghost known = aliases(attempts(history@));
    let mut k: usize = 0;
    while k < history.len()
        invariant
            k <= history@.len(),
            known == aliases(attempts(history@)),
            forall|i: int| 0 <= i < k ==> known[i] != alias@,
        decreases history.len() - k,
    {
        if history[k].alias == *alias {
            assert(known[k as int] == alias@);
            return true;
        }
        k += 1;
    }
    false
}

/// Whether `alias` is among `list`.
pub fn listed(list: &Vec<String>, alias: &String) -> (b: bool)
    ensures
        b == texts(list@).contains(alias@),
{
    let mut k: usize = 0;
    while k < list.len()
        invariant
            k <= list@.len(),
            forall|i: int| 0 <= i < k ==> texts(list@)[i] != alias@,
        decreases list.len() - k,
    {
        if list[k] == *alias {
            assert(texts(list@)[k as int] == alias@);
            return true;
        }
        k += 1;
    }
    false
}

/// The candidates: the aliases of the history in its order, then those of
/// the configuration that the history does not hold. An alias that the
/// configuration repeats stays repeated.
pub fn merge(history: &Vec<HistoryEntry>, config: &Vec<String>) -> (out: Vec<String>)
    ensures
        texts(out@) == merged(attempts(history@), texts(config@)),
{
    let ghost known = aliases(attempts(history@));
    let ghost declared = texts(config@);
    let mut out: Vec<String> = Vec::new();
    let mut k: usize = 0;
    while k < history.len()
        invariant
            k <= history@.len(),
            known == aliases(attempts(history@)),
            texts(out@) == known.take(k as int),
        decreases history.len() - k,
    {
        let alias = history[k].alias.clone();
        assert(texts(out@.push(alias)) == known.take(k as int).push(known[k as int]));
        assert(known.take(k + 1) == known.take(k as int).push(known[k as int]));
        out.push(alias);
        k += 1;
    }
    assert(known.take(k as int) == known);
    let mut n: usize = 0;
    proof {
        reveal(Seq::filter);
        assert(declared.take(0).filter(unknown_to(known)) == Seq::<Seq<char>>::empty());
    }
    while n < config.len()
        invariant
            n <= config@.len(),
            known == aliases(attempts(history@)),
            declared == texts(config@),
            texts(out@) == known + declared.take(n as int).filter(unknown_to(known)),
        decreases config.len() - n,
    {
        proof {
            reveal(Seq::filter);
            assert(declared.take(n + 1).drop_last() == declared.take(n as int));
        }
        if !attempted(history, &config[n]) {
            let alias = config[n].clone();
            assert(texts(out@.push(alias)) == texts(out@).push(declared[n as int]));
            out.push(alias);
        }
        n += 1;
    }
    assert(declared.take(n as int) == declared);
    out
}

/// The aliases of `config` in the order in which each comes first, each
/// once.
pub fn dedup(config: &Vec<String>) -> (out: Vec<String>)
    ensures
        texts(out@) == distinct(texts(config@)),
{
    let ghost declared = texts(config@);
    let mut out: Vec<String> = Vec::new();
    let mut n: usize = 0;
    assert(texts(out@) == distinct(declared.take(0)));
    while n < config.len()
        invariant
            n <= config@.len(),
            declared == texts(config@),
            texts(out@) == distinct(declared.take(n as int)),
        decreases config.len() - n,
    {
        assert(declared.take(n + 1).drop_last() == declared.take(n as int));
        if !listed(&out, &config[n]) {
            let alias = config[n].clone();
            assert(texts(out@.push(alias)) == texts(out@).push(declared[n as int]));
            out.push(alias);
        }
        n += 1;
    }
    assert(declared.take(n as int) == declared);
    out
}

} // verus!
