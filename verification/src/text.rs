//! Low-level text building: character repetition, right-alignment, joining.
use vstd::prelude::*;
use vstd::string::StrSliceExecFns;
use vstd::string::StringExecFns;

verus! {

/// `n` copies of `c`.
pub open spec fn repeat_char(c: char, n: nat) -> Seq<char> {
    Seq::new(n, |i: int| c)
}

/// `l` right-aligned in a field of `w` characters, padded on the left
/// with spaces.  Text wider than the field is kept whole.
pub open spec fn pad_left(l: Seq<char>, w: nat) -> Seq<char> {
    if l.len() >= w {
        l
    } else {
        repeat_char(' ', (w - l.len()) as nat) + l
    }
}

/// `s` wrapped in quotation marks.
pub open spec fn quoted(s: Seq<char>) -> Seq<char> {
    seq!['"'] + s + seq!['"']
}

/// The parts joined with the single separator `sep` between consecutive
/// parts.
pub open spec fn join_with(parts: Seq<Seq<char>>, sep: char) -> Seq<char>
    decreases parts.len(),
{
    if parts.len() == 0 {
        Seq::empty()
    } else if parts.len() == 1 {
        parts[0]
    } else {
        join_with(parts.drop_last(), sep) + seq![sep] + parts.last()
    }
}

/// Joining one more part appends one separator and the part.
pub proof fn lemma_join_with_push(parts: Seq<Seq<char>>, p: Seq<char>, sep: char)
    ensures
        parts.len() == 0 ==> join_with(parts.push(p), sep) == p,
        parts.len() >= 1 ==> join_with(parts.push(p), sep) == join_with(parts, sep) + seq![sep]
            + p,
{
    assert(parts.push(p).drop_last() =~= parts);
    assert(parts.push(p).last() == p);
    if parts.len() == 0 {
        assert(parts.push(p)[0] == p);
    }
}

/// When every part has length `w`, the joined text has `n` parts' worth
/// of characters plus the separators between them.
pub proof fn lemma_join_with_len(parts: Seq<Seq<char>>, sep: char, w: nat)
    requires
        forall|j: int| 0 <= j < parts.len() ==> (#[trigger] parts[j]).len() == w,
    ensures
        parts.len() == 0 ==> join_with(parts, sep).len() == 0,
        parts.len() >= 1 ==> join_with(parts, sep).len() == parts.len() * w + parts.len() - 1,
    decreases parts.len(),
{
    if parts.len() <= 1 {
    } else {
        lemma_join_with_len(parts.drop_last(), sep, w);
        assert((parts.len() - 1) * w + w == parts.len() * w) by (nonlinear_arith);
    }
}

/// Padding to a field at least as wide as the text yields the field width.
pub proof fn lemma_pad_left_len(l: Seq<char>, w: nat)
    requires
        l.len() <= w,
    ensures
        pad_left(l, w).len() == w,
{
}

/// Relies on `String::push`: appends the single character `c`.
#[verifier::external_body]
pub(crate) fn push_char(s: &mut String, c: char)
    ensures
        final(s)@ == old(s)@ + seq![c],
{
    s.push(c);
}

/// Appends `n` copies of `c`.
pub(crate) fn push_repeat(out: &mut String, c: char, n: usize)
    ensures
        final(out)@ == old(out)@ + repeat_char(c, n as nat),
{
    let mut k: usize = 0;
    while k < n
        invariant
            k <= n,
            out@ == old(out)@ + repeat_char(c, k as nat),
        decreases n - k,
    {
        push_char(out, c);
        proof {
            assert(repeat_char(c, (k + 1) as nat) =~= repeat_char(c, k as nat) + seq![c]);
        }
        k += 1;
    }
}

/// Appends `l` right-aligned to width `w`.
pub(crate) fn push_padded(out: &mut String, l: &str, w: usize)
    ensures
        final(out)@ == old(out)@ + pad_left(l@, w as nat),
{
    let len = l.unicode_len();
    if len < w {
        push_repeat(out, ' ', w - len);
    }
    out.append(l);
    proof {
        if len < w {
            assert(out@ =~= old(out)@ + pad_left(l@, w as nat));
        }
    }
}

} // verus!
