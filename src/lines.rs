use vstd::prelude::*;

use crate::text::{chars_of, string_of};

verus! {

/// How many characters of `s` come before its first newline (all of them
/// when there is none).
pub open spec fn line_len(s: Seq<char>) -> nat
    decreases s.len(),
{
    if s.len() == 0 || s[0] == '\n' {
        0
    } else {
        1 + line_len(s.drop_first())
    }
}

/// `l` without one trailing carriage return.
pub open spec fn strip_cr(l: Seq<char>) -> Seq<char> {
    if l.len() > 0 && l.last() == '\r' {
        l.drop_last()
    } else {
        l
    }
}

/// The lines of `s`: split at each `\n`, a `\r` right before it dropped;
/// the last line needs no terminator, and no text after the last `\n` gives
/// no line.
pub open spec fn split_lines(s: Seq<char>) -> Seq<Seq<char>>
    decreases s.len(),
{
    if s.len() == 0 {
        seq![]
    } else {
        let k = line_len(s);
        if k >= s.len() {
            seq![s]
        } else {
            seq![strip_cr(s.take(k as int))] + split_lines(s.skip((k + 1) as int))
        }
    }
}

/// `s` is empty or ends a line.
pub open spec fn ends_line(s: Seq<char>) -> bool {
    s.len() == 0 || s.last() == '\n'
}

proof fn lemma_line_len(t: Seq<char>, k: int)
    requires
        0 <= k <= t.len(),
        forall|j: int| 0 <= j < k ==> t[j] != '\n',
        k == t.len() || t[k] == '\n',
    ensures
        line_len(t) == k,
    decreases k,
{
    if k > 0 {
        lemma_line_len(t.drop_first(), k - 1);
    }
}

proof fn lemma_line_len_bound(t: Seq<char>)
    ensures
        line_len(t) <= t.len(),
        line_len(t) < t.len() ==> t[line_len(t) as int] == '\n',
        forall|j: int| 0 <= j < line_len(t) ==> t[j] != '\n',
    decreases t.len(),
{
    if t.len() > 0 && t[0] != '\n' {
        lemma_line_len_bound(t.drop_first());
        assert forall|j: int| 0 <= j < line_len(t) implies t[j] != '\n' by {
            if j > 0 {
                assert(t[j] == t.drop_first()[j - 1]);
            }
        }
    }
}

/// Splitting text that ends a line, followed by more text, gives the lines of
/// the first part followed by the lines of the second.
pub proof fn lemma_split_lines_append(a: Seq<char>, b: Seq<char>)
    requires
        ends_line(a),
    ensures
        split_lines(a + b) == split_lines(a) + split_lines(b),
    decreases a.len(),
{
    if a.len() == 0 {
        assert(a + b =~= b);
        assert(split_lines(a) =~= seq![]);
        assert(split_lines(a) + split_lines(b) =~= split_lines(b));
    } else {
        let ab = a + b;
        let k = line_len(a);
        lemma_line_len_bound(a);
        if k >= a.len() {
            assert(a[a.len() - 1] == '\n');
            assert(false);
        }
        assert forall|j: int| 0 <= j < k implies ab[j] != '\n' by {
            assert(ab[j] == a[j]);
        }
        assert(ab[k as int] == a[k as int]);
        lemma_line_len(ab, k as int);
        assert(ab.take(k as int) =~= a.take(k as int));
        assert(ab.skip((k + 1) as int) =~= a.skip((k + 1) as int) + b);
        let rest = a.skip((k + 1) as int);
        assert(ends_line(rest)) by {
            if rest.len() > 0 {
                assert(rest.last() == a.last());
            }
        }
        lemma_split_lines_append(rest, b);
        assert(split_lines(a + b) =~= split_lines(a) + split_lines(b));
    }
}

/// The lines of `text`, as `str::lines` gives them.
pub fn lines_of(text: &str) -> (r: Vec<String>)
    ensures
        r@.map_values(|l: String| l@) == split_lines(text@),
{
    let c = chars_of(text);
    let n = c.len();
    let mut out: Vec<String> = Vec::new();
    let mut start: usize = 0;
    let mut i: usize = 0;
    assert(c@.skip(0) =~= c@);
    assert(out@.map_values(|l: String| l@) + split_lines(c@) =~= split_lines(c@));
    while i < n
        invariant
            n == c@.len(),
            c@ == text@,
            start <= i <= n,
            forall|j: int| start <= j < i ==> c@[j] != '\n',
            out@.map_values(|l: String| l@) + split_lines(c@.skip(start as int)) == split_lines(c@),
        decreases n - i,
    {
        if c[i] == '\n' {
            let ghost t = c@.skip(start as int);
            let mut end: usize = i;
            if end > start && c[end - 1] == '\r' {
                end = end - 1;
            }
            let line = string_of(&c.as_slice()[start..end]);
            proof {
                let k = i - start;
                assert forall|j: int| 0 <= j < k implies t[j] != '\n' by {
                    assert(t[j] == c@[start + j]);
                }
                assert(t[k] == c@[i as int]);
                lemma_line_len(t, k);
                assert(line@ =~= strip_cr(t.take(k)));
                assert(t.skip(k + 1) =~= c@.skip(i + 1));
                assert(split_lines(t) == seq![line@] + split_lines(c@.skip(i + 1)));
            }
            let ghost prev = out@.map_values(|l: String| l@);
            out.push(line);
            proof {
                assert(out@.map_values(|l: String| l@) =~= prev.push(line@));
                assert(prev.push(line@) + split_lines(c@.skip(i + 1)) =~= prev + (seq![line@] + split_lines(c@.skip(i + 1))));
            }
            start = i + 1;
        }
        i = i + 1;
    }
    let ghost t = c@.skip(start as int);
    let ghost prev = out@.map_values(|l: String| l@);
    if start < n {
        let line = string_of(&c.as_slice()[start..n]);
        proof {
            assert forall|j: int| 0 <= j < t.len() implies t[j] != '\n' by {
                assert(t[j] == c@[start + j]);
            }
            lemma_line_len(t, t.len() as int);
            assert(line@ =~= t);
        }
        out.push(line);
        proof {
            assert(out@.map_values(|l: String| l@) =~= prev + split_lines(t));
        }
    } else {
        assert(t.len() == 0);
        assert(prev + split_lines(t) =~= prev);
    }
    out
}

} // verus!
