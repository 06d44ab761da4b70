//! Finding and replacing a text within a text.
use vstd::prelude::*;

verus! {

/// Whether `pattern` stands in `s` at position `i`.
pub open spec fn occurs_at(s: Seq<char>, pattern: Seq<char>, i: int) -> bool {
    0 <= i && i + pattern.len() <= s.len() && s.subrange(i, i + pattern.len()) == pattern
}

/// Position of the first occurrence of `pattern` in `s` at or after `from`,
/// or `s.len()` when there is none.
pub open spec fn find_from(s: Seq<char>, pattern: Seq<char>, from: int) -> int
    decreases s.len() - from,
{
    if 0 <= from < s.len() && !occurs_at(s, pattern, from) {
        find_from(s, pattern, from + 1)
    } else {
        from
    }
}

/// Whether `pattern`, which is not empty, occurs in `s`.
pub open spec fn contains_text(s: Seq<char>, pattern: Seq<char>) -> bool {
    find_from(s, pattern, 0) < s.len()
}

/// `s` from position `i` on with every occurrence of `pattern` replaced by
/// `with`, from left to right, an occurrence beginning where the one before
/// it ends at the earliest.
pub open spec fn replaced_from(s: Seq<char>, pattern: Seq<char>, with: Seq<char>, i: int) -> Seq<
    char,
>
    decreases s.len() - i,
{
    if 0 <= i < s.len() && pattern.len() > 0 {
        if occurs_at(s, pattern, i) {
            with + replaced_from(s, pattern, with, i + pattern.len())
        } else {
            seq![s[i]] + replaced_from(s, pattern, with, i + 1)
        }
    } else {
        Seq::empty()
    }
}

/// `s` with every occurrence of `pattern` replaced by `with`. An empty
/// pattern occurs nowhere.
pub open spec fn replaced(s: Seq<char>, pattern: Seq<char>, with: Seq<char>) -> Seq<char> {
    if pattern.len() == 0 {
        s
    } else {
        replaced_from(s, pattern, with, 0)
    }
}

/// `s` without the characters `c` at its end.
pub open spec fn without_trailing(s: Seq<char>, c: char) -> Seq<char>
    decreases s.len(),
{
    if s.len() > 0 && s.last() == c {
        without_trailing(s.drop_last(), c)
    } else {
        s
    }
}

pub proof fn lemma_find_from(s: Seq<char>, pattern: Seq<char>, from: int)
    requires
        0 <= from <= s.len(),
    ensures
        from <= find_from(s, pattern, from) <= s.len(),
        forall|k: int| from <= k < find_from(s, pattern, from) ==> !occurs_at(s, pattern, k),
        find_from(s, pattern, from) < s.len() ==> occurs_at(s, pattern, find_from(s, pattern, from)),
    decreases s.len() - from,
{
    if from < s.len() && !occurs_at(s, pattern, from) {
        lemma_find_from(s, pattern, from + 1);
    }
}

/// Whether `pattern` stands in `s` at position `i`.
pub fn matches_at(s: &Vec<char>, pattern: &Vec<char>, i: usize) -> (b: bool)
    requires
        i <= s.len(),
    ensures
        b == occurs_at(s@, pattern@, i as int),
{
    if pattern.len() > s.len() - i {
        return false;
    }
    let mut k: usize = 0;
    while k < pattern.len()
        invariant
            k <= pattern.len(),
            i + pattern.len() <= s.len(),
            forall|j: int| 0 <= j < k ==> s@[i + j] == pattern@[j],
        decreases pattern.len() - k,
    {
        if s[i + k] != pattern[k] {
            assert(s@.subrange(i as int, i + pattern@.len())[k as int] != pattern@[k as int]);
            return false;
        }
        k += 1;
    }
    assert(s@.subrange(i as int, i + pattern@.len()) =~= pattern@);
    true
}

/// Position of the first occurrence of `pattern` at or after `from`, or
/// `s.len()`.
pub fn find(s: &Vec<char>, pattern: &Vec<char>, from: usize) -> (at: usize)
    requires
        from <= s.len(),
    ensures
        at == find_from(s@, pattern@, from as int),
        from <= at <= s.len(),
{
    let mut i: usize = from;
    while i < s.len() && !matches_at(s, pattern, i)
        invariant
            from <= i <= s.len(),
            find_from(s@, pattern@, i as int) == find_from(s@, pattern@, from as int),
        decreases s.len() - i,
    {
        i += 1;
    }
    i
}

/// Whether `pattern` occurs in `s`.
pub fn contains(s: &Vec<char>, pattern: &Vec<char>) -> (b: bool)
    ensures
        b == contains_text(s@, pattern@),
{
    find(s, pattern, 0) < s.len()
}

/// `s` with every occurrence of `pattern` replaced by `with`.
pub fn replace_all(s: &Vec<char>, pattern: &Vec<char>, with: &Vec<char>) -> (out: Vec<char>)
    ensures
        out@ == replaced(s@, pattern@, with@),
{
    if pattern.len() == 0 {
        return crate::text::slice_of(s, 0, s.len());
    }
    let mut out: Vec<char> = Vec::new();
    let mut i: usize = 0;
    assert(out@ + replaced_from(s@, pattern@, with@, 0) =~= replaced(s@, pattern@, with@));
    while i < s.len()
        invariant
            i <= s.len(),
            pattern@.len() > 0,
            out@ + replaced_from(s@, pattern@, with@, i as int) == replaced(s@, pattern@, with@),
        decreases s.len() - i,
    {
        let ghost before = out@;
        if matches_at(s, pattern, i) {
            crate::text::extend_chars(&mut out, with);
            assert(out@ + replaced_from(s@, pattern@, with@, i + pattern@.len()) =~= before
                + replaced_from(s@, pattern@, with@, i as int));
            i += pattern.len();
        } else {
            out.push(s[i]);
            assert(out@ + replaced_from(s@, pattern@, with@, i + 1) =~= before + replaced_from(
                s@,
                pattern@,
                with@,
                i as int,
            ));
            i += 1;
        }
    }
    assert(out@ + replaced_from(s@, pattern@, with@, i as int) =~= out@);
    out
}

/// `s` without the characters `c` at its end.
pub fn trim_end_matches(s: &Vec<char>, c: char) -> (out: Vec<char>)
    ensures
        out@ == without_trailing(s@, c),
{
    let mut n: usize = s.len();
    assert(s@.subrange(0, s@.len() as int) =~= s@);
    while n > 0 && s[n - 1] == c
        invariant
            n <= s.len(),
            without_trailing(s@.subrange(0, n as int), c) == without_trailing(s@, c),
        decreases n,
    {
        proof {
            let head = s@.subrange(0, n as int);
            assert(head.last() == s@[n - 1]);
            assert(head.drop_last() =~= s@.subrange(0, n - 1));
        }
        n -= 1;
    }
    proof {
        assert(s@.subrange(0, s@.len() as int) =~= s@);
        let head = s@.subrange(0, n as int);
        if n > 0 {
            assert(head.last() == s@[n - 1]);
        }
    }
    crate::text::slice_of(s, 0, n)
}

} // verus!
