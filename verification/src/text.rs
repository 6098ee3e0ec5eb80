//! Small verified helpers on strings and lists of names.

use vstd::prelude::*;

verus! {

/// A position that holds `x` with no `x` before it is the first such position.
pub proof fn lemma_index_of_first_is<T>(s: Seq<T>, x: T, i: int)
    requires
        0 <= i < s.len(),
        s[i] == x,
        forall|j: int| 0 <= j < i ==> s[j] != x,
    ensures
        s.index_of_first(x) == Some(i),
{
    s.index_of_first_ensures(x);
    assert(s.contains(x));
}

/// Where no position holds `x` there is no first position.
pub proof fn lemma_index_of_first_none<T>(s: Seq<T>, x: T)
    requires
        forall|j: int| 0 <= j < s.len() ==> s[j] != x,
    ensures
        s.index_of_first(x) is None,
{
    s.index_of_first_ensures(x);
}

/// Compares two string slices by their characters.
pub fn str_eq(a: &str, b: &str) -> (r: bool)
    ensures
        r == (a@ == b@),
{
    let x = String::from_str(a);
    let y = String::from_str(b);
    x == y
}

/// Position of the first `c` in `s`.
pub fn find_char(s: &str, c: char) -> (r: Option<usize>)
    ensures
        match r {
            Some(i) => s@.index_of_first(c) == Some(i as int),
            None => s@.index_of_first(c) is None,
        },
{
    let n = s.unicode_len();
    let mut i: usize = 0;
    while i < n
        invariant
            n == s@.len(),
            i <= n,
            forall|j: int| 0 <= j < i ==> s@[j] != c,
        decreases n - i,
    {
        if s.get_char(i) == c {
            proof {
                lemma_index_of_first_is(s@, c, i as int);
            }
            return Some(i);
        }
        i += 1;
    }
    proof {
        lemma_index_of_first_none(s@, c);
    }
    None
}

/// A copy of a list of names.
pub fn clone_names(v: &Vec<String>) -> (r: Vec<String>)
    ensures
        r.deep_view() == v.deep_view(),
{
    let mut out: Vec<String> = Vec::new();
    let mut i: usize = 0;
    while i < v.len()
        invariant
            i <= v.len(),
            out.len() == i,
            forall|j: int| 0 <= j < i ==> out[j]@ == v[j]@,
        decreases v.len() - i,
    {
        out.push(v[i].clone());
        i += 1;
    }
    assert(out.deep_view() =~= v.deep_view());
    out
}

/// Whether `name` occurs in `v`.
pub fn contains_name(v: &Vec<String>, name: &str) -> (r: bool)
    ensures
        r == v.deep_view().contains(name@),
{
    let mut i: usize = 0;
    while i < v.len()
        invariant
            i <= v.len(),
            forall|j: int| 0 <= j < i ==> v[j]@ != name@,
        decreases v.len() - i,
    {
        if str_eq(v[i].as_str(), name) {
            assert(v.deep_view()[i as int] == name@);
            return true;
        }
        i += 1;
    }
    assert forall|j: int| 0 <= j < v.deep_view().len() implies v.deep_view()[j] != name@ by {
        assert(v.deep_view()[j] == v[j]@);
    }
    false
}

/// A position that holds `x` with no `x` after it is the last such position.
pub proof fn lemma_index_of_last_is<T>(s: Seq<T>, x: T, i: int)
    requires
        0 <= i < s.len(),
        s[i] == x,
        forall|j: int| i < j < s.len() ==> s[j] != x,
    ensures
        s.index_of_last(x) == Some(i),
{
    s.index_of_last_ensures(x);
    assert(s.contains(x));
}

/// Where no position holds `x` there is no last position.
pub proof fn lemma_index_of_last_none<T>(s: Seq<T>, x: T)
    requires
        forall|j: int| 0 <= j < s.len() ==> s[j] != x,
    ensures
        s.index_of_last(x) is None,
{
    s.index_of_last_ensures(x);
}

} // verus!
