//! Character-level string operations that the locator and the orchestrator
//! build their contracts on: substring containment, suffix tests, base-name
//! extraction and logical path joining.

use vstd::prelude::*;

verus! {

/// The fragment `frag` occurs in `s` starting at index `i`.
pub open spec fn contains_at(s: Seq<char>, frag: Seq<char>, i: int) -> bool {
    0 <= i && i + frag.len() <= s.len() && s.subrange(i, i + frag.len() as int) == frag
}

/// The fragment `frag` occurs somewhere in `s` as a contiguous substring.
pub open spec fn contains_fragment(s: Seq<char>, frag: Seq<char>) -> bool {
    exists|i: int| contains_at(s, frag, i)
}

/// `s` ends with `suffix`.
pub open spec fn has_suffix(s: Seq<char>, suffix: Seq<char>) -> bool {
    s.len() >= suffix.len() && s.subrange(s.len() - suffix.len(), s.len() as int) == suffix
}

/// Some character of `s` equals `c`.
pub open spec fn has_char(s: Seq<char>, c: char) -> bool {
    exists|i: int| 0 <= i < s.len() && s[i] == c
}

/// The part of `s` after its last `/`, or all of `s` when it holds none.
pub open spec fn base_name_of(s: Seq<char>) -> Seq<char>
    decreases s.len(),
{
    if s.len() == 0 {
        s
    } else if has_char(s, '/') {
        base_name_of(s.skip(1))
    } else {
        s
    }
}

/// Index of the first occurrence of `c` in `s`, or -1 when there is none.
pub open spec fn find_char(s: Seq<char>, c: char) -> int
    decreases s.len(),
{
    if s.len() == 0 {
        -1
    } else if s[0] == c {
        0
    } else if find_char(s.skip(1), c) == -1 {
        -1
    } else {
        find_char(s.skip(1), c) + 1
    }
}

/// `find_char` yields -1 exactly when `c` is absent, and otherwise the first
/// index holding `c`.
pub proof fn lemma_find_char(s: Seq<char>, c: char)
    ensures
        find_char(s, c) == -1 ==> (forall|i: int| 0 <= i < s.len() ==> s[i] != c),
        find_char(s, c) != -1 ==> 0 <= find_char(s, c) < s.len() && s[find_char(s, c)] == c && (
        forall|i: int| 0 <= i < find_char(s, c) ==> s[i] != c),
    decreases s.len(),
{
    if s.len() == 0 {
    } else if s[0] == c {
    } else {
        let t = s.skip(1);
        lemma_find_char(t, c);
        let f = find_char(t, c);
        if f == -1 {
            assert forall|i: int| 0 <= i < s.len() implies s[i] != c by {
                if i > 0 {
                    assert(t[i - 1] == s[i]);
                }
            }
        } else {
            assert(find_char(s, c) == f + 1);
            assert(s[f + 1] == t[f]);
            assert forall|i: int| 0 <= i < f + 1 implies s[i] != c by {
                if i > 0 {
                    assert(t[i - 1] == s[i]);
                }
            }
        }
    }
}

/// Joining a logical path with a member name: an empty path contributes
/// nothing, otherwise the two are separated by a single `/`.
pub open spec fn path_join_spec(a: Seq<char>, b: Seq<char>) -> Seq<char> {
    if a.len() == 0 {
        b
    } else {
        a + seq!['/'] + b
    }
}

/// Whether `s` contains `frag` as a substring.
pub fn str_contains_fragment(s: &str, frag: &str) -> (r: bool)
    ensures
        r == contains_fragment(s@, frag@),
{
    let n = s.unicode_len();
    let m = frag.unicode_len();
    if m > n {
        assert(forall|i: int| !contains_at(s@, frag@, i));
        return false;
    }
    if m == 0 {
        proof {
            assert(s@.subrange(0, 0) =~= frag@);
            assert(contains_at(s@, frag@, 0));
        }
        return true;
    }
    let mut i: usize = 0;
    while i <= n - m
        invariant
            1 <= m <= n,
            n == s@.len(),
            m == frag@.len(),
            i <= n - m + 1,
            forall|k: int| 0 <= k < i ==> !contains_at(s@, frag@, k),
        decreases n - m + 1 - i,
    {
        let mut j: usize = 0;
        let mut ok = true;
        while j < m
            invariant
                m <= n,
                n == s@.len(),
                m == frag@.len(),
                i <= n - m,
                j <= m,
                ok ==> (forall|t: int| 0 <= t < j ==> s@[i + t] == frag@[t]),
                !ok ==> !contains_at(s@, frag@, i as int),
            decreases m - j,
        {
            if s.get_char(i + j) != frag.get_char(j) {
                proof {
                    if contains_at(s@, frag@, i as int) {
                        assert(s@.subrange(i as int, i + m as int)[j as int] == frag@[j as int]);
                        assert(s@[i + j] == frag@[j as int]);
                    }
                }
                ok = false;
                j = m;
            } else {
                j = j + 1;
            }
        }
        if ok {
            proof {
                assert forall|t: int| 0 <= t < m implies s@.subrange(
                    i as int,
                    i + m as int,
                )[t] == frag@[t] by {
                    assert(s@[i + t] == frag@[t]);
                }
                assert(s@.subrange(i as int, i + m as int) =~= frag@);
                assert(contains_at(s@, frag@, i as int));
            }
            return true;
        }
        i = i + 1;
    }
    proof {
        assert forall|k: int| !contains_at(s@, frag@, k) by {
            if 0 <= k && k + m <= n {
                assert(k < i);
            }
        }
    }
    false
}

/// Whether `s` ends with `suffix`.
pub fn str_has_suffix(s: &str, suffix: &str) -> (r: bool)
    ensures
        r == has_suffix(s@, suffix@),
{
    let n = s.unicode_len();
    let m = suffix.unicode_len();
    if m > n {
        return false;
    }
    let mut j: usize = 0;
    while j < m
        invariant
            m <= n,
            n == s@.len(),
            m == suffix@.len(),
            j <= m,
            forall|t: int| 0 <= t < j ==> s@[n - m + t] == suffix@[t],
        decreases m - j,
    {
        if s.get_char(n - m + j) != suffix.get_char(j) {
            proof {
                if has_suffix(s@, suffix@) {
                    assert(s@.subrange(n - m, n as int)[j as int] == suffix@[j as int]);
                    assert(s@[n - m + j] == suffix@[j as int]);
                }
            }
            return false;
        }
        j = j + 1;
    }
    proof {
        assert forall|t: int| 0 <= t < m implies s@.subrange(n - m, n as int)[t] == suffix@[t] by {
            assert(s@[n - m + t] == suffix@[t]);
        }
        assert(s@.subrange(n - m, n as int) =~= suffix@);
    }
    true
}

/// Skipping past a `/` does not change the base name.
proof fn lemma_base_name_skip(s: Seq<char>, i: int)
    requires
        0 <= i < s.len(),
        s[i] == '/',
    ensures
        base_name_of(s) == base_name_of(s.skip(i + 1)),
    decreases i,
{
    assert(has_char(s, '/'));
    if i == 0 {
    } else {
        assert(s.skip(1)[i - 1] == s[i]);
        lemma_base_name_skip(s.skip(1), i - 1);
        assert(s.skip(1).skip(i) =~= s.skip(i + 1));
    }
}

/// The part of `s` after its last `/`, or all of `s` when it holds none.
pub fn base_name(s: &str) -> (r: String)
    ensures
        r@ == base_name_of(s@),
{
    let n = s.unicode_len();
    let mut start: usize = 0;
    let mut i: usize = 0;
    proof {
        assert(s@.skip(0) =~= s@);
    }
    while i < n
        invariant
            n == s@.len(),
            start <= i <= n,
            forall|k: int| start <= k < i ==> s@[k] != '/',
            base_name_of(s@) == base_name_of(s@.skip(start as int)),
        decreases n - i,
    {
        if s.get_char(i) == '/' {
            proof {
                lemma_base_name_skip(s@, i as int);
            }
            start = i + 1;
        }
        i = i + 1;
    }
    proof {
        if has_char(s@.skip(start as int), '/') {
            let k = choose|k: int|
                0 <= k < s@.skip(start as int).len() && s@.skip(start as int)[k] == '/';
            assert(s@[start + k] == '/');
        }
        assert(base_name_of(s@.skip(start as int)) == s@.skip(start as int));
    }
    let tail = s.substring_char(start, n);
    String::from_str(tail)
}

/// Join a logical container path and a member name with a `/` separator.
pub fn path_join(a: &str, b: &str) -> (r: String)
    ensures
        r@ == path_join_spec(a@, b@),
{
    if a.unicode_len() == 0 {
        String::from_str(b)
    } else {
        let r = String::from_str(a).concat("/").concat(b);
        proof {
            reveal_strlit("/");
            assert("/"@ =~= seq!['/']);
        }
        r
    }
}

/// The part of `s` before its first `c`, or all of `s` when it holds none.
pub open spec fn before_char(s: Seq<char>, c: char) -> Seq<char> {
    if find_char(s, c) == -1 {
        s
    } else {
        s.subrange(0, find_char(s, c))
    }
}

/// Position of the first occurrence of `c` in `s`, if any.
pub fn find_char_index(s: &str, c: char) -> (r: Option<usize>)
    ensures
        r matches Some(f) ==> find_char(s@, c) == f as int,
        r is None ==> find_char(s@, c) == -1,
{
    let n = s.unicode_len();
    let mut i: usize = 0;
    while i < n
        invariant
            n == s@.len(),
            i <= n,
            forall|k: int| 0 <= k < i ==> s@[k] != c,
        decreases n - i,
    {
        if s.get_char(i) == c {
            proof {
                lemma_find_char(s@, c);
                let f = find_char(s@, c);
                if f == -1 {
                    assert(s@[i as int] != c);
                }
                assert(f == i as int);
            }
            return Some(i);
        }
        i = i + 1;
    }
    proof {
        lemma_find_char(s@, c);
        let f = find_char(s@, c);
        if f != -1 {
            assert(s@[f] != c);
        }
    }
    None
}

/// Cut `s` at the first occurrence of `c`, keeping what stands before it.
pub fn cut_at_char(s: &str, c: char) -> (r: String)
    ensures
        r@ == before_char(s@, c),
{
    let n = s.unicode_len();
    let mut i: usize = 0;
    while i < n
        invariant
            n == s@.len(),
            i <= n,
            forall|k: int| 0 <= k < i ==> s@[k] != c,
        decreases n - i,
    {
        if s.get_char(i) == c {
            proof {
                lemma_find_char(s@, c);
                let f = find_char(s@, c);
                if f == -1 {
                    assert(s@[i as int] != c);
                }
                assert(f == i as int);
            }
            let head = s.substring_char(0, i);
            return String::from_str(head);
        }
        i = i + 1;
    }
    proof {
        lemma_find_char(s@, c);
        let f = find_char(s@, c);
        if f != -1 {
            assert(s@[f] != c);
        }
    }
    String::from_str(s)
}

} // verus!
