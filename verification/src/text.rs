//! Character-sequence helpers for the line-oriented rule-file grammar:
//! trimming, searching, splitting, and string equality, each verified
//! against a spec-level definition.

use vstd::prelude::*;

verus! {

/// The whitespace characters the rule-file grammar strips at line and
/// value boundaries.
pub open spec fn is_space(c: char) -> bool {
    c == ' ' || c == '\t' || c == '\r' || c == '\n'
}

/// `s` with leading and trailing whitespace removed.
pub open spec fn spec_trim(s: Seq<char>) -> Seq<char>
    decreases s.len(),
{
    if s.len() == 0 {
        s
    } else if is_space(s[0]) {
        spec_trim(s.drop_first())
    } else if is_space(s.last()) {
        spec_trim(s.drop_last())
    } else {
        s
    }
}

/// The trimmed sequence is the subrange that remains once a fully-blank
/// prefix and suffix are cut off.
pub proof fn lemma_trim_subrange(s: Seq<char>, i: int, j: int)
    requires
        0 <= i <= j <= s.len(),
        forall|k: int| 0 <= k < i ==> is_space(s[k]),
        forall|k: int| j <= k < s.len() ==> is_space(s[k]),
        i < j ==> !is_space(s[i]) && !is_space(s[j - 1]),
    ensures
        spec_trim(s) == s.subrange(i, j),
    decreases s.len(),
{
    if s.len() == 0 {
        assert(s.subrange(i, j) =~= s);
    } else if is_space(s[0]) {
        if i > 0 {
            lemma_trim_subrange(s.drop_first(), i - 1, j - 1);
            assert(s.drop_first().subrange(i - 1, j - 1) =~= s.subrange(i, j));
        } else {
            // i == 0 and s[0] is blank, so i == j and the whole of s is blank.
            assert(i == j);
            lemma_trim_subrange(s.drop_first(), 0, 0);
            assert(s.drop_first().subrange(0, 0) =~= s.subrange(i, j));
        }
    } else if is_space(s.last()) {
        assert(i == 0);
        assert(j < s.len());
        lemma_trim_subrange(s.drop_last(), i, j);
        assert(s.drop_last().subrange(i, j) =~= s.subrange(i, j));
    } else {
        assert(i == 0 && j == s.len());
        assert(s.subrange(i, j) =~= s);
    }
}

fn is_space_char(c: char) -> (r: bool)
    ensures
        r == is_space(c),
{
    c == ' ' || c == '\t' || c == '\r' || c == '\n'
}

/// Remove leading and trailing whitespace.
pub fn trim_str<'a>(s: &'a str) -> (r: &'a str)
    ensures
        r@ == spec_trim(s@),
{
    let n: usize = s.unicode_len();
    let mut i: usize = 0;
    while i < n && is_space_char(s.get_char(i))
        invariant
            0 <= i <= n,
            n == s@.len(),
            forall|k: int| 0 <= k < i ==> is_space(s@[k]),
        decreases n - i,
    {
        i = i + 1;
    }
    let mut j: usize = n;
    while j > i && is_space_char(s.get_char(j - 1))
        invariant
            i <= j <= n,
            n == s@.len(),
            i < n ==> !is_space(s@[i as int]),
            forall|k: int| j <= k < n ==> is_space(s@[k]),
        decreases j,
    {
        j = j - 1;
    }
    proof {
        lemma_trim_subrange(s@, i as int, j as int);
    }
    s.substring_char(i, j)
}

/// The index of the first occurrence of `c` in `s`, if any.
pub open spec fn spec_find(s: Seq<char>, c: char) -> Option<int>
    decreases s.len(),
{
    if s.len() == 0 {
        None
    } else if s[0] == c {
        Some(0int)
    } else {
        match spec_find(s.drop_first(), c) {
            None => None,
            Some(i) => Some(i + 1),
        }
    }
}

/// What `spec_find` returns: the first index holding `c`, or nothing
/// when `c` does not occur.
pub proof fn lemma_find_props(s: Seq<char>, c: char)
    ensures
        match spec_find(s, c) {
            Some(i) => 0 <= i < s.len() && s[i] == c && (forall|j: int|
                0 <= j < i ==> s[j] != c),
            None => forall|j: int| 0 <= j < s.len() ==> s[j] != c,
        },
    decreases s.len(),
{
    if s.len() != 0 && s[0] != c {
        let t = s.drop_first();
        lemma_find_props(t, c);
        match spec_find(t, c) {
            Some(i) => {
                assert(s[i + 1] == t[i]);
                assert forall|j: int| 0 <= j < i + 1 implies s[j] != c by {
                    if j > 0 {
                        assert(s[j] == t[j - 1]);
                    }
                }
            },
            None => {
                assert forall|j: int| 0 <= j < s.len() implies s[j] != c by {
                    if j > 0 {
                        assert(s[j] == t[j - 1]);
                    }
                }
            },
        }
    }
}

/// An index that holds `c` with no earlier occurrence is exactly what
/// `spec_find` returns.
pub proof fn lemma_find_is_first(s: Seq<char>, c: char, i: int)
    requires
        0 <= i < s.len(),
        s[i] == c,
        forall|j: int| 0 <= j < i ==> s[j] != c,
    ensures
        spec_find(s, c) == Some(i),
    decreases s.len(),
{
    if s[0] == c {
        assert(i == 0);
    } else {
        lemma_find_is_first(s.drop_first(), c, i - 1);
    }
}

/// When `c` occurs nowhere in `s`, `spec_find` returns nothing.
pub proof fn lemma_find_none(s: Seq<char>, c: char)
    requires
        forall|j: int| 0 <= j < s.len() ==> s[j] != c,
    ensures
        spec_find(s, c) == None::<int>,
    decreases s.len(),
{
    if s.len() != 0 {
        lemma_find_none(s.drop_first(), c);
    }
}

/// First index of `c` in `s`, if any.
pub fn find_char(s: &str, c: char) -> (r: Option<usize>)
    ensures
        match r {
            Some(i) => spec_find(s@, c) == Some(i as int),
            None => spec_find(s@, c) == None::<int>,
        },
{
    let n: usize = s.unicode_len();
    let mut i: usize = 0;
    while i < n
        invariant
            0 <= i <= n,
            n == s@.len(),
            forall|k: int| 0 <= k < i ==> s@[k] != c,
        decreases n - i,
    {
        if s.get_char(i) == c {
            proof {
                lemma_find_is_first(s@, c, i as int);
            }
            return Some(i);
        }
        i = i + 1;
    }
    proof {
        lemma_find_none(s@, c);
    }
    None
}

/// `s` split at every newline; the final fragment is kept even when
/// it is empty, as a line of its own.
pub open spec fn spec_lines(s: Seq<char>) -> Seq<Seq<char>>
    decreases s.len(),
    via spec_lines_dec
{
    match spec_find(s, '\n') {
        None => seq![s],
        Some(i) => seq![s.take(i)] + spec_lines(s.skip(i + 1)),
    }
}

#[via_fn]
proof fn spec_lines_dec(s: Seq<char>) {
    lemma_find_props(s, '\n');
}

/// The maximal space-free, non-empty fragments of `s`, in order.
pub open spec fn spec_tokens(s: Seq<char>) -> Seq<Seq<char>>
    decreases s.len(),
    via spec_tokens_dec
{
    if s.len() == 0 {
        Seq::empty()
    } else if s[0] == ' ' {
        spec_tokens(s.drop_first())
    } else {
        match spec_find(s, ' ') {
            None => seq![s],
            Some(i) => seq![s.take(i)] + spec_tokens(s.skip(i + 1)),
        }
    }
}

#[via_fn]
proof fn spec_tokens_dec(s: Seq<char>) {
    if s.len() != 0 && s[0] != ' ' {
        lemma_find_props(s, ' ');
    }
}

/// Split `s` at newlines.
pub fn split_lines(s: &str) -> (r: Vec<String>)
    ensures
        r.deep_view() == spec_lines(s@),
{
    let mut out: Vec<String> = Vec::new();
    let mut rest: &str = s;
    loop
        invariant
            out.deep_view() + spec_lines(rest@) == spec_lines(s@),
        decreases rest@.len(),
    {
        let found = find_char(rest, '\n');
        match found {
            Some(i) => {
                proof {
                    lemma_find_props(rest@, '\n');
                }
                let n: usize = rest.unicode_len();
                let line: &str = rest.substring_char(0, i);
                let ghost old_out = out.deep_view();
                let ghost old_rest = rest@;
                out.push(line.to_owned());
                rest = rest.substring_char(i + 1, n);
                proof {
                    assert(line@ =~= old_rest.take(i as int));
                    assert(rest@ =~= old_rest.skip(i as int + 1));
                    assert(out.deep_view() =~= old_out.push(line@));
                    assert(out.deep_view() + spec_lines(rest@) =~~= spec_lines(s@));
                }
            },
            None => {
                let ghost old_out = out.deep_view();
                out.push(rest.to_owned());
                proof {
                    assert(out.deep_view() =~= old_out.push(rest@));
                    assert(out.deep_view() =~~= spec_lines(s@));
                }
                return out;
            },
        }
    }
}

/// Split `s` at spaces, dropping empty fragments.
pub fn split_tokens(s: &str) -> (r: Vec<String>)
    ensures
        r.deep_view() == spec_tokens(s@),
{
    let mut out: Vec<String> = Vec::new();
    let mut rest: &str = s;
    loop
        invariant
            out.deep_view() + spec_tokens(rest@) == spec_tokens(s@),
        decreases rest@.len(),
    {
        let n: usize = rest.unicode_len();
        if n == 0 {
            proof {
                assert(out.deep_view() + spec_tokens(rest@) =~~= out.deep_view());
            }
            return out;
        }
        if rest.get_char(0) == ' ' {
            let ghost old_rest = rest@;
            rest = rest.substring_char(1, n);
            proof {
                assert(rest@ =~= old_rest.drop_first());
            }
        } else {
            let found = find_char(rest, ' ');
            match found {
                None => {
                    let ghost old_out = out.deep_view();
                    out.push(rest.to_owned());
                    proof {
                        assert(out.deep_view() =~= old_out.push(rest@));
                        assert(out.deep_view() =~~= spec_tokens(s@));
                    }
                    return out;
                },
                Some(i) => {
                    proof {
                        lemma_find_props(rest@, ' ');
                    }
                    let token: &str = rest.substring_char(0, i);
                    let ghost old_out = out.deep_view();
                    let ghost old_rest = rest@;
                    out.push(token.to_owned());
                    rest = rest.substring_char(i + 1, n);
                    proof {
                        assert(token@ =~= old_rest.take(i as int));
                        assert(rest@ =~= old_rest.skip(i as int + 1));
                        assert(out.deep_view() =~= old_out.push(token@));
                        assert(out.deep_view() + spec_tokens(rest@) =~~= spec_tokens(s@));
                    }
                },
            }
        }
    }
}

/// Whether some entry of `v` equals `x`, character for character.
pub fn contains_str(v: &Vec<String>, x: &str) -> (r: bool)
    ensures
        r == v.deep_view().contains(x@),
{
    let mut i: usize = 0;
    while i < v.len()
        invariant
            0 <= i <= v@.len(),
            forall|k: int| 0 <= k < i ==> v.deep_view()[k] != x@,
        decreases v@.len() - i,
    {
        if str_eq(v[i].as_str(), x) {
            proof {
                assert(v.deep_view()[i as int] == x@);
            }
            return true;
        }
        i = i + 1;
    }
    proof {
        assert(forall|k: int| 0 <= k < v.deep_view().len() ==> v.deep_view()[k] != x@);
    }
    false
}

/// Character-for-character string equality.
pub fn str_eq(a: &str, b: &str) -> (r: bool)
    ensures
        r == (a@ == b@),
{
    let na: usize = a.unicode_len();
    let nb: usize = b.unicode_len();
    if na != nb {
        return false;
    }
    let mut i: usize = 0;
    while i < na
        invariant
            0 <= i <= na,
            na == a@.len(),
            na == b@.len(),
            forall|k: int| 0 <= k < i ==> a@[k] == b@[k],
        decreases na - i,
    {
        if a.get_char(i) != b.get_char(i) {
            return false;
        }
        i = i + 1;
    }
    proof {
        assert(a@ =~= b@);
    }
    true
}

} // verus!
