//! Character-level text operations used when rewriting generated JavaScript.

use vstd::prelude::*;
use vstd::std_specs::iter::IteratorSpec;

verus! {

broadcast use {vstd::string::axiom_spec_iter, vstd::string::next_postcondition};

/// `s` ends with `suffix`.
pub open spec fn ends_with(s: Seq<char>, suffix: Seq<char>) -> bool {
    suffix.len() <= s.len() && s.subrange(s.len() - suffix.len(), s.len() as int) == suffix
}

/// `s` with every non-overlapping occurrence of `pat`, found from left to
/// right, replaced by `rep`.
pub open spec fn spec_replace(s: Seq<char>, pat: Seq<char>, rep: Seq<char>) -> Seq<char>
    recommends
        pat.len() > 0,
    decreases s.len(),
{
    if pat.len() == 0 || s.len() < pat.len() {
        s
    } else if s.subrange(0, pat.len() as int) == pat {
        rep + spec_replace(s.skip(pat.len() as int), pat, rep)
    } else {
        seq![s[0]] + spec_replace(s.skip(1), pat, rep)
    }
}

/// The characters of `s`.
pub fn chars_of(s: &str) -> (r: Vec<char>)
    ensures
        r@ == s@,
{
    let mut v: Vec<char> = Vec::new();
    for c in it: s.chars()
        invariant
            it.seq() == s@,
            v@ == it.seq().take(it.index() as int),
    {
        v.push(c);
        assert(v@ =~= it.seq().take(it.index() + 1));
    }
    assert(v@ =~= s@);
    v
}

/// A string of the characters `chars`.
pub fn string_of(chars: &[char]) -> (r: String)
    ensures
        r@ == chars@,
{
    let mut s = String::new();
    let mut i: usize = 0;
    while i < chars.len()
        invariant
            i <= chars@.len(),
            s@ == chars@.take(i as int),
        decreases chars@.len() - i,
    {
        push_char(&mut s, chars[i]);
        i = i + 1;
        assert(s@ =~= chars@.take(i as int));
    }
    assert(chars@.take(chars@.len() as int) =~= chars@);
    s
}

/// Appends `c` to `s`.
#[verifier::external_body]
pub(crate) fn push_char(s: &mut String, c: char)
    ensures
        final(s)@ == old(s)@.push(c),
{
    s.push(c);
}

/// `s` ends with `suffix`.
pub fn chars_end_with(s: &[char], suffix: &[char]) -> (r: bool)
    ensures
        r == ends_with(s@, suffix@),
{
    if suffix.len() > s.len() {
        return false;
    }
    let start: usize = s.len() - suffix.len();
    let slen: usize = s.len();
    let mut i: usize = 0;
    while i < suffix.len()
        invariant
            slen == s@.len(),
            start + suffix@.len() == s@.len(),
            i <= suffix@.len(),
            forall|k: int| 0 <= k < i ==> s@[start + k] == suffix@[k],
        decreases suffix@.len() - i,
    {
        if s[start + i] != suffix[i] {
            assert(s@.subrange(start as int, s@.len() as int)[i as int] != suffix@[i as int]);
            return false;
        }
        i = i + 1;
    }
    assert(s@.subrange(start as int, s@.len() as int) =~= suffix@);
    true
}

/// How many characters of `s` come before its first newline (all of them
/// if it has none).
pub open spec fn line_len(s: Seq<char>) -> nat
    decreases s.len(),
{
    if s.len() == 0 || s[0] == '\n' {
        0
    } else {
        1 + line_len(s.drop_first())
    }
}

/// `pat` occurs somewhere in `s`.
pub open spec fn contains(s: Seq<char>, pat: Seq<char>) -> bool {
    exists|i: int| 0 <= i && #[trigger] occurs_at(s, pat, i)
}

/// `s` with every line that contains `pat` emptied; the newlines stay.
pub open spec fn blank_lines_containing(s: Seq<char>, pat: Seq<char>) -> Seq<char>
    decreases s.len(),
{
    let k = line_len(s);
    let line = s.take(k as int);
    let kept = if contains(line, pat) {
        Seq::empty()
    } else {
        line
    };
    if k < s.len() {
        kept + seq!['\n'] + blank_lines_containing(s.skip(k + 1int), pat)
    } else {
        kept
    }
}

/// `pat` occurs in `s` at position `at`.
pub open spec fn occurs_at(s: Seq<char>, pat: Seq<char>, at: int) -> bool {
    at + pat.len() <= s.len() && s.subrange(at, at + pat.len()) == pat
}

/// `pat` occurs in `s` at position `at`.
pub(crate) fn matches_at(s: &[char], pat: &[char], at: usize) -> (r: bool)
    requires
        at <= s@.len(),
    ensures
        r == occurs_at(s@, pat@, at as int),
{
    if pat.len() > s.len() - at {
        return false;
    }
    let slen: usize = s.len();
    let mut i: usize = 0;
    while i < pat.len()
        invariant
            slen == s@.len(),
            at + pat@.len() <= s@.len(),
            i <= pat@.len(),
            forall|k: int| 0 <= k < i ==> s@[at + k] == pat@[k],
        decreases pat@.len() - i,
    {
        if s[at + i] != pat[i] {
            assert(s@.subrange(at as int, at + pat@.len())[i as int] != pat@[i as int]);
            return false;
        }
        i = i + 1;
    }
    assert(s@.subrange(at as int, at + pat@.len()) =~= pat@);
    true
}

/// `s` with every non-overlapping occurrence of `pat`, found from left to
/// right, replaced by `rep`.
pub fn replace_all(s: &[char], pat: &[char], rep: &[char]) -> (r: Vec<char>)
    requires
        pat@.len() > 0,
    ensures
        r@ == spec_replace(s@, pat@, rep@),
{
    let mut out: Vec<char> = Vec::new();
    let mut i: usize = 0;
    assert(s@.skip(0) =~= s@);
    while i < s.len()
        invariant
            i <= s@.len(),
            pat@.len() > 0,
            out@ + spec_replace(s@.skip(i as int), pat@, rep@) == spec_replace(s@, pat@, rep@),
        decreases s@.len() - i,
    {
        let ghost rest = s@.skip(i as int);
        if matches_at(s, pat, i) {
            assert(rest.subrange(0, pat@.len() as int) =~= s@.subrange(
                i as int,
                i + pat@.len(),
            ));
            assert(rest.skip(pat@.len() as int) =~= s@.skip(i + pat@.len()));
            let mut j: usize = 0;
            let ghost out0 = out@;
            while j < rep.len()
                invariant
                    j <= rep@.len(),
                    out@ == out0 + rep@.take(j as int),
                decreases rep@.len() - j,
            {
                out.push(rep[j]);
                j = j + 1;
                assert(out@ =~= out0 + rep@.take(j as int));
            }
            assert(rep@.take(rep@.len() as int) =~= rep@);
            assert(out0 + (rep@ + spec_replace(s@.skip(i + pat@.len()), pat@, rep@)) =~= out@
                + spec_replace(s@.skip(i + pat@.len()), pat@, rep@));
            i = i + pat.len();
        } else {
            proof {
                if rest.len() >= pat@.len() {
                    assert(rest.subrange(0, pat@.len() as int) =~= s@.subrange(
                        i as int,
                        i + pat@.len(),
                    ));
                }
            }
            assert(rest.skip(1) =~= s@.skip(i + 1));
            let ghost out0 = out@;
            out.push(s[i]);
            assert(out0 + (seq![s@[i as int]] + spec_replace(s@.skip(i + 1), pat@, rep@)) =~= out@
                + spec_replace(s@.skip(i + 1), pat@, rep@));
            i = i + 1;
        }
    }
    assert(s@.skip(i as int) =~= Seq::<char>::empty());
    assert(out@ + Seq::<char>::empty() =~= out@);
    out
}


/// How many times `c` occurs in `s`.
pub open spec fn count_char(s: Seq<char>, c: char) -> nat
    decreases s.len(),
{
    if s.len() == 0 {
        0
    } else {
        (if s[0] == c {
            1nat
        } else {
            0nat
        }) + count_char(s.drop_first(), c)
    }
}

/// Counting over a concatenation adds the counts of its parts.
pub proof fn lemma_count_concat(a: Seq<char>, b: Seq<char>, c: char)
    ensures
        count_char(a + b, c) == count_char(a, c) + count_char(b, c),
    decreases a.len(),
{
    if a.len() == 0 {
        assert(a + b =~= b);
    } else {
        assert((a + b).drop_first() =~= a.drop_first() + b);
        lemma_count_concat(a.drop_first(), b, c);
    }
}

/// A character that is counted zero times occurs nowhere.
pub proof fn lemma_count_zero(s: Seq<char>, c: char)
    requires
        count_char(s, c) == 0,
    ensures
        forall|i: int| 0 <= i < s.len() ==> s[i] != c,
    decreases s.len(),
{
    if s.len() > 0 {
        lemma_count_zero(s.drop_first(), c);
        assert forall|i: int| 0 <= i < s.len() implies s[i] != c by {
            if i > 0 {
                assert(s[i] == s.drop_first()[i - 1]);
            }
        }
    }
}

/// A line runs up to the first newline, which it does not hold.
proof fn lemma_line_len(s: Seq<char>)
    ensures
        line_len(s) <= s.len(),
        count_char(s.take(line_len(s) as int), '\n') == 0,
        line_len(s) < s.len() ==> s[line_len(s) as int] == '\n',
    decreases s.len(),
{
    if s.len() == 0 || s[0] == '\n' {
        assert(s.take(0).len() == 0);
    } else {
        lemma_line_len(s.drop_first());
        let k = line_len(s.drop_first());
        assert(s.take(k + 1int).drop_first() =~= s.drop_first().take(k as int));
    }
}

/// The count of a single character.
proof fn lemma_count_single(x: char, c: char)
    ensures
        count_char(seq![x], c) == (if x == c {
            1nat
        } else {
            0nat
        }),
{
    reveal_with_fuel(count_char, 2);
    assert(seq![x][0] == x);
    assert(seq![x].drop_first().len() == 0);
}

/// Replacing `pat` by `rep`, neither of which holds `c`, keeps the number of `c`s.
pub proof fn lemma_replace_keeps_count(s: Seq<char>, pat: Seq<char>, rep: Seq<char>, c: char)
    requires
        pat.len() > 0,
        count_char(pat, c) == 0,
        count_char(rep, c) == 0,
    ensures
        count_char(spec_replace(s, pat, rep), c) == count_char(s, c),
    decreases s.len(),
{
    if s.len() < pat.len() {
    } else if s.subrange(0, pat.len() as int) == pat {
        let rest = s.skip(pat.len() as int);
        lemma_replace_keeps_count(rest, pat, rep, c);
        lemma_count_concat(rep, spec_replace(rest, pat, rep), c);
        assert(s =~= pat + rest);
        lemma_count_concat(pat, rest, c);
    } else {
        let rest = s.skip(1);
        lemma_replace_keeps_count(rest, pat, rep, c);
        lemma_count_concat(seq![s[0]], spec_replace(rest, pat, rep), c);
        assert(s =~= seq![s[0]] + rest);
        lemma_count_concat(seq![s[0]], rest, c);
    }
}

/// Blanking lines keeps every newline.
pub proof fn lemma_blank_keeps_newlines(s: Seq<char>, pat: Seq<char>)
    ensures
        count_char(blank_lines_containing(s, pat), '\n') == count_char(s, '\n'),
    decreases s.len(),
{
    lemma_line_len(s);
    let k = line_len(s);
    let line = s.take(k as int);
    let kept = if contains(line, pat) {
        Seq::empty()
    } else {
        line
    };
    assert(count_char(kept, '\n') == 0);
    if k < s.len() {
        let rest = s.skip(k + 1int);
        lemma_blank_keeps_newlines(rest, pat);
        assert(s =~= line + seq!['\n'] + rest);
        lemma_single_newline();
        lemma_count_concat(line + seq!['\n'], rest, '\n');
        lemma_count_concat(line, seq!['\n'], '\n');
        lemma_count_concat(kept + seq!['\n'], blank_lines_containing(rest, pat), '\n');
        lemma_count_concat(kept, seq!['\n'], '\n');
    } else {
        assert(s =~= line);
    }
}

proof fn lemma_single_newline()
    ensures
        count_char(seq!['\n'], '\n') == 1,
{
    lemma_count_single('\n', '\n');
}

/// An occurrence that ends within `a` is an occurrence in `a`.
proof fn lemma_occurs_in_prefix(a: Seq<char>, b: Seq<char>, pat: Seq<char>, i: int)
    requires
        0 <= i,
        occurs_at(a + b, pat, i),
        i + pat.len() <= a.len(),
    ensures
        occurs_at(a, pat, i),
{
    assert((a + b).subrange(i, i + pat.len()) =~= a.subrange(i, i + pat.len()));
}

/// An occurrence that starts after `a` is an occurrence in `b`.
proof fn lemma_occurs_in_suffix(a: Seq<char>, b: Seq<char>, pat: Seq<char>, i: int)
    requires
        a.len() <= i,
        occurs_at(a + b, pat, i),
    ensures
        occurs_at(b, pat, i - a.len()),
{
    assert((a + b).subrange(i, i + pat.len()) =~= b.subrange(i - a.len(), i - a.len() + pat.len()));
}

/// An occurrence of `pat` at `i` puts `pat[j - i]` at `j`.
proof fn lemma_occurrence_covers(s: Seq<char>, pat: Seq<char>, i: int, j: int)
    requires
        0 <= i <= j < i + pat.len(),
        occurs_at(s, pat, i),
    ensures
        s[j] == pat[j - i],
{
    assert(s.subrange(i, i + pat.len())[j - i] == s[j]);
}

/// Joining two texts that lack `pat` at a newline makes no occurrence of a
/// `pat` that holds no newline.
pub proof fn lemma_join_at_newline(a: Seq<char>, b: Seq<char>, pat: Seq<char>)
    requires
        pat.len() > 0,
        count_char(pat, '\n') == 0,
        !contains(a, pat),
        !contains(b, pat),
        (a.len() > 0 && a[a.len() - 1] == '\n') || (b.len() > 0 && b[0] == '\n'),
    ensures
        !contains(a + b, pat),
{
    lemma_count_zero(pat, '\n');
    if contains(a + b, pat) {
        let i = choose|i: int| 0 <= i && #[trigger] occurs_at(a + b, pat, i);
        if i + pat.len() <= a.len() {
            lemma_occurs_in_prefix(a, b, pat, i);
        } else if a.len() <= i {
            lemma_occurs_in_suffix(a, b, pat, i);
        } else if a.len() > 0 && a[a.len() - 1] == '\n' {
            lemma_occurrence_covers(a + b, pat, i, a.len() - 1);
        } else {
            lemma_occurrence_covers(a + b, pat, i, a.len() as int);
        }
    }
}

/// Where `pat` is not empty and holds no newline, no line of
/// `blank_lines_containing(s, pat)` holds it, so it occurs nowhere there.
pub proof fn lemma_blank_drops_pattern(s: Seq<char>, pat: Seq<char>)
    requires
        pat.len() > 0,
        count_char(pat, '\n') == 0,
    ensures
        !contains(blank_lines_containing(s, pat), pat),
    decreases s.len(),
{
    lemma_line_len(s);
    let k = line_len(s);
    let line = s.take(k as int);
    let kept = if contains(line, pat) {
        Seq::empty()
    } else {
        line
    };
    if contains(kept, pat) {
        let i = choose|i: int| 0 <= i && #[trigger] occurs_at(kept, pat, i);
        assert(occurs_at(line, pat, i));
    }
    if k < s.len() {
        let rest = s.skip(k + 1int);
        lemma_blank_drops_pattern(rest, pat);
        let nl = kept + seq!['\n'];
        if contains(nl, pat) {
            let i = choose|i: int| 0 <= i && #[trigger] occurs_at(nl, pat, i);
            lemma_count_zero(pat, '\n');
            if i + pat.len() <= kept.len() {
                lemma_occurs_in_prefix(kept, seq!['\n'], pat, i);
            } else {
                lemma_occurrence_covers(nl, pat, i, kept.len() as int);
            }
        }
        lemma_join_at_newline(nl, blank_lines_containing(rest, pat), pat);
    }
}

} // verus!
