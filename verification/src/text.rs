//! Text handling for the flattener: whitespace trimming, string equality,
//! and joining text runs with single spaces.

use vstd::prelude::*;

verus! {

/// Whitespace as this library trims it: the ASCII space, tab, line feed and
/// carriage return characters.
pub open spec fn is_space_char(c: char) -> bool {
    c == ' ' || c == '\t' || c == '\n' || c == '\r'
}

/// Whether `c` counts as whitespace when trimming text runs and labels.
pub fn is_space(c: char) -> (r: bool)
    ensures
        r == is_space_char(c),
{
    c == ' ' || c == '\t' || c == '\n' || c == '\r'
}

/// The string with its leading whitespace removed.
pub open spec fn trim_front(s: Seq<char>) -> Seq<char>
    decreases s.len(),
{
    if s.len() > 0 && is_space_char(s[0]) {
        trim_front(s.drop_first())
    } else {
        s
    }
}

/// The string with its trailing whitespace removed.
pub open spec fn trim_back(s: Seq<char>) -> Seq<char>
    decreases s.len(),
{
    if s.len() > 0 && is_space_char(s.last()) {
        trim_back(s.drop_last())
    } else {
        s
    }
}

/// The string with leading and trailing whitespace removed.
pub open spec fn trim_spec(s: Seq<char>) -> Seq<char> {
    trim_back(trim_front(s))
}

/// Returns the slice of `s` with leading and trailing whitespace removed.
pub fn trim_str<'a>(s: &'a str) -> (r: &'a str)
    ensures
        r@ == trim_spec(s@),
{
    let n = s.unicode_len();
    let mut a: usize = 0;
    proof {
        assert(s@.subrange(0, n as int) =~= s@);
    }
    while a < n && is_space(s.get_char(a))
        invariant
            a <= n,
            n == s@.len(),
            trim_front(s@) == trim_front(s@.subrange(a as int, n as int)),
        decreases n - a,
    {
        proof {
            let sub = s@.subrange(a as int, n as int);
            assert(sub.drop_first() =~= s@.subrange(a as int + 1, n as int));
        }
        a = a + 1;
    }
    proof {
        let sub = s@.subrange(a as int, n as int);
        assert(trim_front(sub) == sub);
        assert(trim_front(s@) == s@.subrange(a as int, n as int));
    }
    let mut b: usize = n;
    while b > a && is_space(s.get_char(b - 1))
        invariant
            a <= b <= n,
            n == s@.len(),
            trim_front(s@) == s@.subrange(a as int, n as int),
            trim_back(s@.subrange(a as int, n as int)) == trim_back(s@.subrange(a as int, b as int)),
        decreases b,
    {
        proof {
            let sub = s@.subrange(a as int, b as int);
            assert(sub.drop_last() =~= s@.subrange(a as int, b as int - 1));
        }
        b = b - 1;
    }
    proof {
        let sub = s@.subrange(a as int, b as int);
        assert(trim_back(sub) == sub);
    }
    s.substring_char(a, b)
}

/// Whether two strings hold the same characters.
pub fn str_eq(a: &str, b: &str) -> (r: bool)
    ensures
        r == (a@ == b@),
{
    let na = a.unicode_len();
    let nb = b.unicode_len();
    if na != nb {
        return false;
    }
    let mut i: usize = 0;
    while i < na
        invariant
            i <= na,
            na == a@.len(),
            na == b@.len(),
            forall|j: int| 0 <= j < i ==> a@[j] == b@[j],
        decreases na - i,
    {
        if a.get_char(i) != b.get_char(i) {
            return false;
        }
        i = i + 1;
    }
    proof {
        assert(a@ =~= b@);
    }
    true
}

/// The text runs joined with a single space between consecutive runs.
pub open spec fn join_space(parts: Seq<Seq<char>>) -> Seq<char>
    decreases parts.len(),
{
    if parts.len() == 0 {
        Seq::empty()
    } else if parts.len() == 1 {
        parts[0]
    } else {
        join_space(parts.drop_last()) + seq![' '] + parts.last()
    }
}

/// The views of a sequence of strings.
pub open spec fn strs_view(parts: Seq<String>) -> Seq<Seq<char>> {
    parts.map_values(|p: String| p@)
}

/// Joins the strings with a single space between consecutive entries.
pub fn join_with_spaces(parts: &Vec<String>) -> (r: String)
    ensures
        r@ == join_space(strs_view(parts@)),
{
    let mut r = String::new();
    let mut i: usize = 0;
    while i < parts.len()
        invariant
            i <= parts@.len(),
            r@ == join_space(strs_view(parts@).subrange(0, i as int)),
        decreases parts@.len() - i,
    {
        if i > 0 {
            r.append(" ");
        }
        r.append(parts[i].as_str());
        proof {
            reveal_strlit(" ");
            assert(" "@ =~= seq![' ']);
            let m = strs_view(parts@);
            assert(m.subrange(0, i as int + 1).drop_last() =~= m.subrange(0, i as int));
            assert(m.subrange(0, i as int + 1).last() == parts@[i as int]@);
        }
        i = i + 1;
    }
    proof {
        assert(strs_view(parts@).subrange(0, parts@.len() as int) =~= strs_view(parts@));
    }
    r
}

} // verus!
