//! Texts as sequences of characters: their lines, their fields between
//! blanks, and their order.

use vstd::prelude::*;
use vstd::std_specs::iter::IteratorSpec;

verus! {

/// The characters that separate fields: space, tab, line feed, form feed
/// and carriage return.
pub open spec fn is_blank(c: char) -> bool {
    c == ' ' || c == '\t' || c == '\n' || c == '\x0c' || c == '\r'
}

/// A field: at least one character, none of them blank.
pub open spec fn is_word(s: Seq<char>) -> bool {
    s.len() > 0 && forall|i: int| 0 <= i < s.len() ==> !is_blank(#[trigger] s[i])
}

/// Length of the longest prefix of `s` that holds no blank character.
pub open spec fn word_len(s: Seq<char>) -> nat
    decreases s.len(),
{
    if s.len() == 0 || is_blank(s[0]) {
        0
    } else {
        1 + word_len(s.skip(1))
    }
}

/// Length of the longest prefix of `s` that holds no line feed.
pub open spec fn line_len(s: Seq<char>) -> nat
    decreases s.len(),
{
    if s.len() == 0 || s[0] == '\n' {
        0
    } else {
        1 + line_len(s.skip(1))
    }
}

/// The fields of `s`: its maximal runs of non-blank characters, in order.
pub open spec fn fields(s: Seq<char>) -> Seq<Seq<char>>
    decreases s.len(),
{
    if s.len() == 0 {
        Seq::empty()
    } else if is_blank(s[0]) {
        fields(s.skip(1))
    } else {
        let n = word_len(s) as int;
        proof {
            lemma_word_len_bounds(s);
        }
        seq![s.take(n)] + fields(s.skip(n))
    }
}

/// The lines of `s`. A line ends at a line feed, which is not part of it, or
/// at the end of the text; the empty text has no lines, and a text that ends
/// in a line feed has no empty last line.
pub open spec fn lines(s: Seq<char>) -> Seq<Seq<char>>
    decreases s.len(),
{
    if s.len() == 0 {
        Seq::empty()
    } else {
        let n = line_len(s) as int;
        if n < s.len() {
            seq![s.take(n)] + lines(s.skip(n + 1))
        } else {
            seq![s]
        }
    }
}

/// A text of whole lines: it is empty or ends in a line feed.
pub open spec fn whole_lines(s: Seq<char>) -> bool {
    s.len() == 0 || s.last() == '\n'
}

/// Whether `a` comes before `b` in the order of a dictionary: at the first
/// place where the two differ, `a` has ended or holds the smaller character.
pub open spec fn text_lt(a: Seq<char>, b: Seq<char>) -> bool
    decreases a.len(),
{
    if b.len() == 0 {
        false
    } else if a.len() == 0 {
        true
    } else if a[0] != b[0] {
        (a[0] as int) < (b[0] as int)
    } else {
        text_lt(a.skip(1), b.skip(1))
    }
}

/// The texts that a sequence of strings holds.
pub open spec fn texts(v: Seq<String>) -> Seq<Seq<char>> {
    Seq::new(v.len(), |i: int| v[i]@)
}

/// The pieces of `s` that the pairs in `bounds` mark, each from its first
/// index up to its second.
pub open spec fn pieces(s: Seq<char>, bounds: Seq<(usize, usize)>) -> Seq<Seq<char>> {
    Seq::new(bounds.len(), |k: int| s.subrange(bounds[k].0 as int, bounds[k].1 as int))
}

/// A text that starts with a character that is not blank starts with a
/// word, which is no longer than the text.
pub proof fn lemma_word_len_bounds(s: Seq<char>)
    ensures
        word_len(s) <= s.len(),
        s.len() > 0 && !is_blank(s[0]) ==> word_len(s) >= 1,
    decreases s.len(),
{
    if s.len() > 0 && !is_blank(s[0]) {
        lemma_word_len_bounds(s.skip(1));
    }
}

/// `word_len(s)` is the one `n` such that the first `n` characters are not
/// blank and the text ends there or goes on with a blank.
pub proof fn lemma_word_len_is(s: Seq<char>, n: int)
    requires
        0 <= n <= s.len(),
        forall|i: int| 0 <= i < n ==> !is_blank(#[trigger] s[i]),
        n == s.len() || is_blank(s[n]),
    ensures
        word_len(s) == n,
    decreases n,
{
    if n > 0 {
        let t = s.skip(1);
        assert forall|i: int| 0 <= i < n - 1 implies !is_blank(#[trigger] t[i]) by {
            assert(t[i] == s[i + 1]);
        }
        lemma_word_len_is(t, n - 1);
    }
}

/// `line_len(s)` is the one `n` such that the first `n` characters are not
/// line feeds and the text ends there or goes on with a line feed.
pub proof fn lemma_line_len_is(s: Seq<char>, n: int)
    requires
        0 <= n <= s.len(),
        forall|i: int| 0 <= i < n ==> #[trigger] s[i] != '\n',
        n == s.len() || s[n] == '\n',
    ensures
        line_len(s) == n,
    decreases n,
{
    if n > 0 {
        let t = s.skip(1);
        assert forall|i: int| 0 <= i < n - 1 implies #[trigger] t[i] != '\n' by {
            assert(t[i] == s[i + 1]);
        }
        lemma_line_len_is(t, n - 1);
    }
}

/// Of two different texts exactly one comes before the other, and no text
/// comes before itself.
pub proof fn lemma_text_lt_total(a: Seq<char>, b: Seq<char>)
    ensures
        a == b ==> !text_lt(a, b),
        a != b ==> (text_lt(a, b) <==> !text_lt(b, a)),
    decreases a.len(),
{
    if a.len() > 0 && b.len() > 0 && a[0] == b[0] {
        lemma_text_lt_total(a.skip(1), b.skip(1));
        if a.skip(1) == b.skip(1) {
            assert(a =~= seq![a[0]] + a.skip(1));
            assert(b =~= seq![b[0]] + b.skip(1));
        }
    } else if a.len() == 0 && b.len() == 0 {
        assert(a =~= b);
    }
}

/// The order of texts is transitive.
pub proof fn lemma_text_lt_transitive(a: Seq<char>, b: Seq<char>, c: Seq<char>)
    requires
        text_lt(a, b),
        text_lt(b, c),
    ensures
        text_lt(a, c),
    decreases a.len(),
{
    if a.len() > 0 && a[0] == b[0] && b[0] == c[0] {
        lemma_text_lt_transitive(a.skip(1), b.skip(1), c.skip(1));
    }
}

/// What `line_len(s)` is: the first `line_len(s)` characters are not line
/// feeds, and the text ends there or goes on with a line feed.
pub proof fn lemma_line_len_facts(s: Seq<char>)
    ensures
        line_len(s) <= s.len(),
        forall|i: int| 0 <= i < line_len(s) ==> #[trigger] s[i] != '\n',
        line_len(s) == s.len() || s[line_len(s) as int] == '\n',
    decreases s.len(),
{
    if s.len() > 0 && s[0] != '\n' {
        let t = s.skip(1);
        lemma_line_len_facts(t);
        assert forall|i: int| 0 <= i < line_len(s) implies #[trigger] s[i] != '\n' by {
            if i > 0 {
                assert(s[i] == t[i - 1]);
            }
        }
    }
}

/// A line without a line feed, written with one to the end of a log,
/// becomes its last line.
pub proof fn lemma_lines_push(log: Seq<char>, line: Seq<char>)
    requires
        whole_lines(log),
        forall|i: int| 0 <= i < line.len() ==> #[trigger] line[i] != '\n',
    ensures
        lines(log + line + seq!['\n']) == lines(log).push(line),
    decreases log.len(),
{
    let whole = log + line + seq!['\n'];
    if log.len() == 0 {
        lemma_line_len_is(whole, line.len() as int);
        assert(whole.take(line.len() as int) == line);
        assert(lines(whole.skip(line.len() as int + 1)) == Seq::<Seq<char>>::empty());
        assert(lines(whole) == seq![line]);
        assert(lines(log).push(line) == seq![line]);
    } else {
        let n = line_len(log) as int;
        lemma_line_len_facts(log);
        assert(log[log.len() - 1] == '\n');
        assert(n < log.len());
        assert forall|i: int| 0 <= i < n implies #[trigger] whole[i] != '\n' by {
            assert(whole[i] == log[i]);
        }
        assert(whole[n] == log[n]);
        lemma_line_len_is(whole, n);
        let rest = log.skip(n + 1);
        assert(whole.take(n) == log.take(n));
        assert(whole.skip(n + 1) == rest + line + seq!['\n']);
        if rest.len() > 0 {
            assert(rest.last() == log.last());
        }
        lemma_lines_push(rest, line);
        assert(seq![log.take(n)] + lines(rest).push(line) == (seq![log.take(n)] + lines(
            rest,
        )).push(line));
    }
}

/// Two words with a space between them are two fields.
pub proof fn lemma_two_fields(a: Seq<char>, b: Seq<char>)
    requires
        is_word(a),
        is_word(b),
    ensures
        fields(a + seq![' '] + b) == seq![a, b],
{
    let s = a + seq![' '] + b;
    let t = seq![' '] + b;
    lemma_word_len_is(s, a.len() as int);
    assert(s.take(a.len() as int) == a);
    assert(s.skip(a.len() as int) == t);
    assert(t.skip(1) == b);
    lemma_word_len_is(b, b.len() as int);
    assert(b.take(b.len() as int) == b);
    assert(fields(b.skip(b.len() as int)) == Seq::<Seq<char>>::empty());
    assert(!is_blank(b[0]));
    assert(fields(b) == seq![b]);
    assert(fields(t) == fields(b));
    assert(s[0] == a[0]);
    assert(fields(s) == seq![a] + fields(t));
    assert(seq![a] + seq![b] == seq![a, b]);
}

/// `String::push` of the standard library. Assumed, as it is documented:
/// afterwards the string is what it was, with `c` added to its end.
pub assume_specification[ String::push ](s: &mut String, c: char)
    ensures
        final(s)@ == old(s)@.push(c),
;

/// Whether `c` separates fields.
pub fn blank(c: char) -> (b: bool)
    ensures
        b == is_blank(c),
{
    c == ' ' || c == '\t' || c == '\n' || c == '\x0c' || c == '\r'
}

/// A copy of a list of strings.
pub fn copy_of(list: &Vec<String>) -> (out: Vec<String>)
    ensures
        texts(out@) == texts(list@),
{
    let mut out: Vec<String> = Vec::new();
    let mut k: usize = 0;
    while k < list.len()
        invariant
            k <= list@.len(),
            texts(out@) == texts(list@).take(k as int),
        decreases list.len() - k,
    {
        let item = list[k].clone();
        assert(texts(out@.push(item)) == texts(list@).take(k as int).push(texts(list@)[k as int]));
        assert(texts(list@).take(k + 1) == texts(list@).take(k as int).push(
            texts(list@)[k as int],
        ));
        out.push(item);
        k += 1;
    }
    assert(texts(list@).take(k as int) == texts(list@));
    out
}

/// Whether `a` comes before `b` in the order of a dictionary.
pub fn text_before(a: &str, b: &str) -> (r: bool)
    ensures
        r == text_lt(a@, b@),
{
    broadcast use vstd::string::group_string_axioms;

    let mut x = a.chars();
    let mut y = b.chars();
    let ghost mut n: int = 0;
    loop
        invariant
            n + x.remaining().len() == a@.len(),
            text_lt(a@, b@) == text_lt(x.remaining(), y.remaining()),
        decreases a@.len() - n,
    {
        let ghost (xs, ys) = (x.remaining(), y.remaining());
        let in_a = x.next();
        let in_b = y.next();
        match in_b {
            None => {
                return false;
            },
            Some(cb) => match in_a {
                None => {
                    return true;
                },
                Some(ca) => {
                    if ca != cb {
                        return ca < cb;
                    }
                    proof {
                        assert(xs.drop_first() == xs.skip(1));
                        assert(ys.drop_first() == ys.skip(1));
                        n = n + 1;
                    }
                },
            },
        }
    }
}

/// The characters of `text`, one by one.
pub fn chars_of(text: &str) -> (out: Vec<char>)
    ensures
        out@ == text@,
{
    broadcast use vstd::string::group_string_axioms;

    let mut out: Vec<char> = Vec::new();
    let mut rest = text.chars();
    loop
        invariant
            out@ + rest.remaining() == text@,
        ensures
            out@ == text@,
        decreases text@.len() - out@.len(),
    {
        match rest.next() {
            Some(c) => {
                out.push(c);
            },
            None => {
                break ;
            },
        }
    }
    out
}

/// Where the line that starts at `from` ends: the index of the next line
/// feed, or the end of the text.
pub fn line_end(v: &Vec<char>, from: usize) -> (end: usize)
    requires
        from <= v.len(),
    ensures
        end == from + line_len(v@.skip(from as int)),
        from <= end <= v.len(),
{
    let mut end: usize = from;
    while end < v.len() && v[end] != '\n'
        invariant
            from <= end <= v.len(),
            forall|k: int| from <= k < end ==> #[trigger] v@[k] != '\n',
        decreases v.len() - end,
    {
        end += 1;
    }
    proof {
        lemma_line_len_is(v@.skip(from as int), end - from);
    }
    end
}

/// Where each line of the text starts and ends: the first starts at 0, and
/// each other one after the line feed that ends the one before.
pub fn line_bounds(v: &Vec<char>) -> (out: Vec<(usize, usize)>)
    ensures
        pieces(v@, out@) == lines(v@),
        forall|k: int| 0 <= k < out@.len() ==> (#[trigger] out@[k]).0 <= out@[k].1 <= v@.len(),
        out@.len() > 0 ==> out@[0].0 == 0,
        forall|k: int| 0 < k < out@.len() ==> (#[trigger] out@[k]).0 == out@[k - 1].1 + 1,
{
    let mut out: Vec<(usize, usize)> = Vec::new();
    let mut from: usize = 0;
    assert(v@.skip(0) == v@);
    while from < v.len()
        invariant
            from <= v.len(),
            forall|k: int| 0 <= k < out@.len() ==> (#[trigger] out@[k]).0 <= out@[k].1 <= v@.len(),
            out@.len() == 0 ==> from == 0,
            out@.len() > 0 ==> out@[0].0 == 0 && (from == out@.last().1 + 1 || from == v.len()),
            forall|k: int| 0 < k < out@.len() ==> (#[trigger] out@[k]).0 == out@[k - 1].1 + 1,
            pieces(v@, out@) + lines(v@.skip(from as int)) == lines(v@),
        decreases v.len() - from,
    {
        let ghost rest = v@.skip(from as int);
        let end = line_end(v, from);
        proof {
            assert(rest.take(end - from) == v@.subrange(from as int, end as int));
            assert(pieces(v@, out@.push((from, end))) == pieces(v@, out@) + seq![
                v@.subrange(from as int, end as int),
            ]);
            if end < v.len() {
                assert(rest.skip(end - from + 1) == v@.skip(end + 1));
            } else {
                assert(rest == rest.take(end - from));
                assert(v@.skip(end as int).len() == 0);
            }
        }
        out.push((from, end));
        from = if end < v.len() {
            end + 1
        } else {
            end
        };
    }
    out
}

/// The fields of the characters from `from` up to `to`.
pub fn fields_between(v: &Vec<char>, from: usize, to: usize) -> (out: Vec<String>)
    requires
        from <= to <= v.len(),
    ensures
        texts(out@) == fields(v@.subrange(from as int, to as int)),
{
    let mut out: Vec<String> = Vec::new();
    let mut i: usize = from;
    while i < to
        invariant
            from <= i <= to <= v.len(),
            texts(out@) + fields(v@.subrange(i as int, to as int)) == fields(
                v@.subrange(from as int, to as int),
            ),
        decreases to - i,
    {
        let ghost tail = v@.subrange(i as int, to as int);
        if blank(v[i]) {
            assert(tail.skip(1) == v@.subrange(i + 1, to as int));
            i += 1;
        } else {
            let mut word = String::new();
            let mut j: usize = i;
            while j < to && !blank(v[j])
                invariant
                    i <= j <= to <= v.len(),
                    word@ == v@.subrange(i as int, j as int),
                    forall|k: int| i <= k < j ==> !is_blank(#[trigger] v@[k]),
                decreases to - j,
            {
                word.push(v[j]);
                j += 1;
            }
            proof {
                lemma_word_len_is(tail, j - i);
                assert(tail.take(j - i) == word@);
                assert(tail.skip(j - i) == v@.subrange(j as int, to as int));
                assert(texts(out@.push(word)) == texts(out@) + seq![word@]);
            }
            out.push(word);
            i = j;
        }
    }
    out
}

} // verus!
