//! The text of the history log: one line per connection attempt, a
//! timestamp and an alias separated by a space.

use crate::error::Error;
use crate::recency::{is_ranking, latest_of, HistoryStore};
use crate::stamp::{has_text, in_range, instant_of, read_instant, text_of, write_instant};
use crate::text::{
    chars_of, fields, fields_between, is_word, lemma_lines_push, lemma_two_fields, line_bounds,
    lines, pieces, texts, whole_lines,
};
use vstd::prelude::*;
use vstd::string::StringExecFns;

verus! {

/// One connection attempt, as contracts see it.
pub struct Attempt {
    pub alias: Seq<char>,
    pub timestamp: i64,
}

/// One connection attempt: the alias that was asked for and when, in whole
/// seconds since the Unix epoch.
#[derive(Debug, Clone, PartialEq, Eq)]
pub struct HistoryEntry {
    pub alias: String,
    pub timestamp: i64,
}

impl View for HistoryEntry {
    type V = Attempt;

    open spec fn view(&self) -> Attempt {
        Attempt { alias: self.alias@, timestamp: self.timestamp }
    }
}

/// The attempts that a sequence of entries holds.
pub open spec fn attempts(v: Seq<HistoryEntry>) -> Seq<Attempt> {
    Seq::new(v.len(), |i: int| v[i]@)
}

/// The attempt that a line records: the line has exactly two fields, and
/// the first is a timestamp.
pub open spec fn line_entry(line: Seq<char>) -> Option<Attempt> {
    let f = fields(line);
    if f.len() == 2 && instant_of(f[0]) is Some {
        Some(Attempt { alias: f[1], timestamp: instant_of(f[0])->Some_0 })
    } else {
        None
    }
}

/// A line of the log is in order if it is empty or records an attempt. A
/// line of blanks alone is not.
pub open spec fn line_in_order(line: Seq<char>) -> bool {
    line.len() == 0 || line_entry(line) is Some
}

/// Every line of the log is in order.
pub open spec fn log_in_order(log: Seq<char>) -> bool {
    forall|k: int| 0 <= k < lines(log).len() ==> line_in_order(#[trigger] lines(log)[k])
}

/// `k` is the index of the first line of the log that is not in order.
pub open spec fn first_line_out_of_order(log: Seq<char>, k: int) -> bool {
    &&& 0 <= k < lines(log).len()
    &&& !line_in_order(lines(log)[k])
    &&& forall|j: int| 0 <= j < k ==> line_in_order(#[trigger] lines(log)[j])
}

/// Reads one line, for `filter_map`.
pub open spec fn reader() -> spec_fn(Seq<char>) -> Option<Attempt> {
    |line: Seq<char>| line_entry(line)
}

/// The attempts that the log records, in the order of its lines.
pub open spec fn log_entries(log: Seq<char>) -> Seq<Attempt> {
    lines(log).filter_map(reader())
}

/// The line that records an attempt, line feed included.
pub open spec fn line_text(stamp: Seq<char>, alias: Seq<char>) -> Seq<char> {
    stamp + seq![' '] + alias + seq!['\n']
}

/// Adding `line` to the end of a log of whole lines adds the attempt `a` to
/// what the log records, and nothing else.
pub open spec fn adds(line: Seq<char>, a: Attempt) -> bool {
    forall|log: Seq<char>|
        whole_lines(log) ==> {
            &&& whole_lines(#[trigger] (log + line))
            &&& log_entries(log + line) == log_entries(log).push(a)
            &&& log_in_order(log) ==> log_in_order(log + line)
        }
}

/// The line written for a timestamp and an alias, added to the end of a
/// log, is read back as that alias and the instant of that timestamp.
pub proof fn lemma_append_line(stamp: Seq<char>, alias: Seq<char>, timestamp: i64)
    requires
        is_word(stamp),
        is_word(alias),
        instant_of(stamp) == Some(timestamp),
    ensures
        adds(line_text(stamp, alias), Attempt { alias, timestamp }),
{
    let line = stamp + seq![' '] + alias;
    let a = Attempt { alias, timestamp };
    lemma_two_fields(stamp, alias);
    assert(line_entry(line) == Some(a));
    assert forall|log: Seq<char>| whole_lines(log) implies {
        &&& whole_lines(#[trigger] (log + line_text(stamp, alias)))
        &&& log_entries(log + line_text(stamp, alias)) == log_entries(log).push(a)
        &&& log_in_order(log) ==> log_in_order(log + line_text(stamp, alias))
    } by {
        let whole = log + line_text(stamp, alias);
        assert(whole == log + line + seq!['\n']);
        lemma_lines_push(log, line);
        let ls = lines(log);
        assert(ls.push(line).drop_last() == ls);
        if log_in_order(log) {
            assert forall|k: int| 0 <= k < lines(whole).len() implies line_in_order(
                #[trigger] lines(whole)[k],
            ) by {
                if k < ls.len() {
                    assert(lines(whole)[k] == ls[k]);
                }
            }
        }
    }
}

/// The line that records an attempt at `alias` at the time `timestamp`.
/// There is one for the years 0000 to 9999, whose timestamps have a text of
/// fixed width: twenty characters without a blank. Where the alias is a
/// word too, the line is read back as that alias and that time.
pub fn history_line(timestamp: i64, alias: &str) -> (r: Option<String>)
    ensures
        r is Some <==> in_range(timestamp),
        r matches Some(line) ==> {
            &&& line@ == line_text(text_of(timestamp), alias@)
            &&& text_of(timestamp).len() == 20
            &&& is_word(text_of(timestamp))
            &&& is_word(alias@) ==> adds(line@, Attempt { alias: alias@, timestamp })
        },
{
    if !has_text(timestamp) {
        return None;
    }
    let mut line = write_instant(timestamp);
    line.push(' ');
    line.append(alias);
    line.push('\n');
    proof {
        if is_word(alias@) {
            lemma_append_line(text_of(timestamp), alias@, timestamp);
        }
    }
    Some(line)
}

/// Adds the line for an attempt at `alias` made at the time `now` to the
/// end of the log's text, and tells whether it did. Nothing that the log
/// held is changed. For a time outside the years 0000 to 9999 there is no
/// line, and the log stays as it is. Where the log is of whole lines and the
/// alias is a word, the log afterwards records that attempt after those it
/// recorded before.
pub fn append_to_history(log: &mut String, now: i64, alias: &str) -> (done: bool)
    ensures
        done <==> in_range(now),
        !done ==> final(log)@ == old(log)@,
        done ==> {
            &&& final(log)@ == old(log)@ + line_text(text_of(now), alias@)
            &&& text_of(now).len() == 20
            &&& is_word(text_of(now))
            &&& is_word(alias@) && whole_lines(old(log)@) ==> {
                &&& whole_lines(final(log)@)
                &&& log_entries(final(log)@) == log_entries(old(log)@).push(
                    Attempt { alias: alias@, timestamp: now },
                )
                &&& log_in_order(old(log)@) ==> log_in_order(final(log)@)
            }
        },
{
    match history_line(now, alias) {
        Some(line) => {
            let ghost before = log@;
            log.append(line.as_str());
            assert(log@ == before + line@);
            true
        },
        None => false,
    }
}

/// Reads the log: the attempts it records, in the order of its lines, or
/// the first line that is not in order.
pub fn read_log(log: &str) -> (r: Result<Vec<HistoryEntry>, Error>)
    ensures
        match r {
            Ok(v) => log_in_order(log@) && attempts(v@) == log_entries(log@),
            Err(Error::HistoryCorrupt { line }) => first_line_out_of_order(log@, line as int),
            Err(_) => false,
        },
{
    let v = chars_of(log);
    let bounds = line_bounds(&v);
    let ghost ls = lines(log@);
    let mut out: Vec<HistoryEntry> = Vec::new();
    let mut k: usize = 0;
    while k < bounds.len()
        invariant
            v@ == log@,
            ls == lines(log@),
            k <= bounds@.len() == ls.len(),
            pieces(v@, bounds@) == ls,
            forall|n: int|
                0 <= n < bounds@.len() ==> (#[trigger] bounds@[n]).0 <= bounds@[n].1 <= v@.len(),
            forall|j: int| 0 <= j < k ==> line_in_order(#[trigger] ls[j]),
            attempts(out@) == ls.take(k as int).filter_map(reader()),
        decreases bounds.len() - k,
    {
        let (from, to) = bounds[k];
        assert(v@.subrange(from as int, to as int) == ls[k as int]);
        proof {
            ls.lemma_filter_map_take_succ(reader(), k as int);
        }
        if from < to {
            let mut f = fields_between(&v, from, to);
            if f.len() != 2 {
                return Err(Error::HistoryCorrupt { line: k });
            }
            let ghost found = texts(f@);
            let alias = f.pop().unwrap();
            let stamp = f.pop().unwrap();
            assert(stamp@ == found[0] && alias@ == found[1]);
            match read_instant(stamp.as_str()) {
                Some(timestamp) => {
                    let entry = HistoryEntry { alias, timestamp };
                    assert(attempts(out@.push(entry)) == attempts(out@) + seq![entry@]);
                    out.push(entry);
                },
                None => {
                    return Err(Error::HistoryCorrupt { line: k });
                },
            }
        } else {
            assert(fields(ls[k as int]).len() == 0);
        }
        k += 1;
    }
    assert(ls.take(k as int) == ls);
    Ok(out)
}

/// Loads the history from the text of the log: the latest attempt at each
/// alias, the most recent first. Fails on the first line that is not in
/// order.
pub fn extract_history(log: &str) -> (r: Result<Vec<HistoryEntry>, Error>)
    ensures
        match r {
            Ok(v) => log_in_order(log@) && is_ranking(
                attempts(v@),
                latest_of(log_entries(log@)),
            ),
            Err(Error::HistoryCorrupt { line }) => first_line_out_of_order(log@, line as int),
            Err(_) => false,
        },
{
    match read_log(log) {
        Ok(read) => Ok(latest_attempts(&read)),
        Err(e) => Err(e),
    }
}

/// The latest attempt at each alias among `log`, the most recent first.
pub fn latest_attempts(log: &Vec<HistoryEntry>) -> (v: Vec<HistoryEntry>)
    ensures
        is_ranking(attempts(v@), latest_of(attempts(log@))),
{
    let mut store = HistoryStore::new();
    let mut k: usize = 0;
    while k < log.len()
        invariant
            k <= log@.len(),
            store.wf(),
            store@ == latest_of(attempts(log@).take(k as int)),
        decreases log.len() - k,
    {
        let entry = HistoryEntry { alias: log[k].alias.clone(), timestamp: log[k].timestamp };
        assert(attempts(log@).take(k + 1).drop_last() == attempts(log@).take(k as int));
        store.record(entry);
        k += 1;
    }
    assert(attempts(log@).take(k as int) == attempts(log@));
    store.into_entries()
}

} // verus!
