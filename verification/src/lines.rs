//! Splitting cell text into physical lines.
//!
//! A physical line is one line-feed-delimited segment of a cell's text.
//! A trailing line feed closes the last line without opening an empty
//! one, and the empty text has no lines at all.
use vstd::prelude::*;
use vstd::string::StrSliceExecFns;
use vstd::string::StringExecFns;

verus! {

/// Index of the first line feed in `s`, or `s.len()` when there is none.
pub open spec fn first_nl(s: Seq<char>) -> int
    decreases s.len(),
{
    if s.len() == 0 {
        0
    } else if s[0] == '\n' {
        0
    } else {
        1 + first_nl(s.drop_first())
    }
}

/// `first_nl` points at the first line feed: nothing before it is a line
/// feed, and it is a line feed unless it is the end of the text.
pub proof fn lemma_first_nl(s: Seq<char>)
    ensures
        0 <= first_nl(s) <= s.len(),
        forall|k: int| 0 <= k < first_nl(s) ==> s[k] != '\n',
        first_nl(s) < s.len() ==> s[first_nl(s)] == '\n',
    decreases s.len(),
{
    if s.len() == 0 {
    } else if s[0] == '\n' {
    } else {
        lemma_first_nl(s.drop_first());
        assert forall|k: int| 0 <= k < first_nl(s) implies s[k] != '\n' by {
            if k > 0 {
                assert(s.drop_first()[k - 1] == s[k]);
            }
        }
        if first_nl(s) < s.len() {
            assert(s.drop_first()[first_nl(s) - 1] == s[first_nl(s)]);
        }
    }
}

/// Conversely, a position with no line feed before it, and a line feed
/// (or the end of the text) at it, is `first_nl`.
pub proof fn lemma_first_nl_is(s: Seq<char>, k: int)
    requires
        0 <= k <= s.len(),
        forall|m: int| 0 <= m < k ==> s[m] != '\n',
        k == s.len() || s[k] == '\n',
    ensures
        first_nl(s) == k,
    decreases s.len(),
{
    if s.len() == 0 {
    } else if s[0] == '\n' {
        assert(k == 0);
    } else {
        assert(k > 0) by {
            assert(s[0] != '\n');
        }
        assert forall|m: int| 0 <= m < k - 1 implies s.drop_first()[m] != '\n' by {
            assert(s.drop_first()[m] == s[m + 1]);
        }
        if k < s.len() {
            assert(s.drop_first()[k - 1] == s[k]);
        }
        lemma_first_nl_is(s.drop_first(), k - 1);
    }
}

/// The physical lines of `s`: the segments between line feeds.  A
/// trailing line feed yields no empty final segment, and the empty text
/// yields no segments.
pub open spec fn line_split(s: Seq<char>) -> Seq<Seq<char>>
    decreases s.len(),
{
    if s.len() == 0 {
        Seq::empty()
    } else {
        let i = first_nl(s);
        if i < 0 || i >= s.len() {
            seq![s]
        } else {
            seq![s.take(i)] + line_split(s.skip(i + 1))
        }
    }
}

/// Text without line feeds is its own single line (or no line when empty).
pub proof fn lemma_line_split_no_nl(s: Seq<char>)
    requires
        forall|k: int| 0 <= k < s.len() ==> s[k] != '\n',
    ensures
        s.len() == 0 ==> line_split(s) == Seq::<Seq<char>>::empty(),
        s.len() > 0 ==> line_split(s) == seq![s],
{
    if s.len() > 0 {
        lemma_first_nl_is(s, s.len() as int);
    }
}

/// Prepending a line-feed-free segment and one line feed prepends one line.
pub proof fn lemma_line_split_prepend(a: Seq<char>, b: Seq<char>)
    requires
        forall|k: int| 0 <= k < a.len() ==> a[k] != '\n',
    ensures
        line_split(a + seq!['\n'] + b) == seq![a] + line_split(b),
{
    let s = a + seq!['\n'] + b;
    assert forall|m: int| 0 <= m < a.len() implies s[m] != '\n' by {
        assert(s[m] == a[m]);
    }
    assert(s[a.len() as int] == '\n');
    lemma_first_nl_is(s, a.len() as int);
    assert(s.take(a.len() as int) =~= a);
    assert(s.skip(a.len() as int + 1) =~= b);
}

/// Every physical line is free of line feeds and no longer than the text.
pub proof fn lemma_line_split_lines(s: Seq<char>)
    ensures
        forall|i: int, k: int|
            0 <= i < line_split(s).len() && 0 <= k < line_split(s)[i].len()
                ==> line_split(s)[i][k] != '\n',
        forall|i: int| 0 <= i < line_split(s).len() ==> line_split(s)[i].len() <= s.len(),
    decreases s.len(),
{
    lemma_first_nl(s);
    if s.len() == 0 {
    } else {
        let f = first_nl(s);
        if f >= s.len() {
            assert forall|i: int, k: int|
                0 <= i < line_split(s).len() && 0 <= k < line_split(s)[i].len()
                    implies line_split(s)[i][k] != '\n' by {
                assert(line_split(s)[i] == s);
            }
        } else {
            lemma_line_split_lines(s.skip(f + 1));
            let rest = line_split(s.skip(f + 1));
            assert forall|i: int, k: int|
                0 <= i < line_split(s).len() && 0 <= k < line_split(s)[i].len()
                    implies line_split(s)[i][k] != '\n' by {
                if i == 0 {
                    assert(line_split(s)[0] == s.take(f));
                    assert(s.take(f)[k] == s[k]);
                } else {
                    assert(line_split(s)[i] == rest[i - 1]);
                }
            }
            assert forall|i: int| 0 <= i < line_split(s).len()
                implies line_split(s)[i].len() <= s.len() by {
                if i > 0 {
                    assert(line_split(s)[i] == rest[i - 1]);
                    assert(rest[i - 1].len() <= s.skip(f + 1).len());
                }
            }
        }
    }
}

/// One step of the splitting loop: with no line feed in `s[start..i]`
/// and a line feed at `i`, the lines of `s[start..]` are `s[start..i]`
/// followed by the lines of `s[i + 1..]`.
pub proof fn lemma_line_split_step(s: Seq<char>, start: int, i: int)
    requires
        0 <= start <= i < s.len(),
        forall|k: int| start <= k < i ==> s[k] != '\n',
        s[i] == '\n',
    ensures
        line_split(s.skip(start)) == seq![s.subrange(start, i)] + line_split(s.skip(i + 1)),
{
    let t = s.skip(start);
    assert forall|m: int| 0 <= m < i - start implies t[m] != '\n' by {
        assert(t[m] == s[start + m]);
    }
    assert(t[i - start] == s[i]);
    lemma_first_nl_is(t, i - start);
    assert(t.take(i - start) =~= s.subrange(start, i));
    assert(t.skip(i - start + 1) =~= s.skip(i + 1));
}

/// Splits `s` into its physical lines, in order.
pub fn split_lines(s: &str) -> (r: Vec<String>)
    ensures
        r.deep_view() == line_split(s@),
{
    let n = s.unicode_len();
    let mut r: Vec<String> = Vec::new();
    let mut start: usize = 0;
    let mut i: usize = 0;
    proof {
        assert(s@.skip(0) =~= s@);
        assert(r.deep_view() =~= Seq::<Seq<char>>::empty());
    }
    while i < n
        invariant
            n == s@.len(),
            start <= i <= n,
            forall|k: int| start <= k < i ==> s@[k] != '\n',
            line_split(s@) == r.deep_view() + line_split(s@.skip(start as int)),
        decreases n - i,
    {
        let c = s.get_char(i);
        if c == '\n' {
            proof {
                lemma_line_split_step(s@, start as int, i as int);
            }
            let ghost prev = r.deep_view();
            let seg = s.substring_char(start, i);
            r.push(String::from_str(seg));
            proof {
                assert(r.deep_view() =~= prev.push(s@.subrange(start as int, i as int)));
                assert(prev.push(s@.subrange(start as int, i as int))
                    =~= prev + seq![s@.subrange(start as int, i as int)]);
            }
            start = i + 1;
        }
        i += 1;
    }
    proof {
        assert(s@.skip(start as int).len() == n - start);
        assert forall|m: int| 0 <= m < s@.skip(start as int).len()
            implies s@.skip(start as int)[m] != '\n' by {
            assert(s@.skip(start as int)[m] == s@[start + m]);
        }
        lemma_line_split_no_nl(s@.skip(start as int));
    }
    if start < n {
        let ghost prev = r.deep_view();
        let seg = s.substring_char(start, n);
        r.push(String::from_str(seg));
        proof {
            assert(s@.subrange(start as int, n as int) =~= s@.skip(start as int));
            assert(r.deep_view() =~= prev + seq![s@.skip(start as int)]);
        }
    } else {
        proof {
            assert(s@.skip(start as int) =~= Seq::<char>::empty());
            assert(r.deep_view() =~= r.deep_view() + line_split(s@.skip(start as int)));
        }
    }
    r
}

} // verus!
