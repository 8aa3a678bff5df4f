//! Character-level helpers shared by the header parser and the
//! content-negotiation engine: ASCII case folding, whitespace trimming,
//! separator splitting and substring search, each with an exact
//! specification over `Seq<char>`.

use vstd::prelude::*;
use vstd::slice::{slice_index_get, slice_subrange, slice_to_vec};
use vstd::string::StrSliceExecFns;

verus! {

/// Linear whitespace accepted around header tokens and parameters.
pub open spec fn is_ws(c: char) -> bool {
    c == ' ' || c == '\t'
}

/// ASCII case folding of a single character; other characters are unchanged.
pub open spec fn lower_char(c: char) -> char {
    if 'A' <= c && c <= 'Z' {
        ((c as u8) + 0x20) as char
    } else {
        c
    }
}

/// ASCII case folding of a whole string.
pub open spec fn lower(s: Seq<char>) -> Seq<char> {
    s.map_values(|c: char| lower_char(c))
}

/// The string with leading whitespace removed.
pub open spec fn trim_front(s: Seq<char>) -> Seq<char>
    decreases s.len(),
{
    if s.len() > 0 && is_ws(s[0]) {
        trim_front(s.drop_first())
    } else {
        s
    }
}

/// The string with trailing whitespace removed.
pub open spec fn trim_back(s: Seq<char>) -> Seq<char>
    decreases s.len(),
{
    if s.len() > 0 && is_ws(s[s.len() - 1]) {
        trim_back(s.drop_last())
    } else {
        s
    }
}

/// The string with surrounding whitespace removed.
pub open spec fn trim(s: Seq<char>) -> Seq<char> {
    trim_back(trim_front(s))
}

/// The segments of `s` between occurrences of `sep`. Always at least one
/// segment; separators are not part of any segment.
pub open spec fn split(s: Seq<char>, sep: char) -> Seq<Seq<char>>
    decreases s.len(),
{
    if s.len() == 0 {
        seq![Seq::<char>::empty()]
    } else if s[0] == sep {
        seq![Seq::<char>::empty()].add(split(s.drop_first(), sep))
    } else {
        let rest = split(s.drop_first(), sep);
        seq![seq![s[0]].add(rest[0])].add(rest.skip(1))
    }
}

/// `split` never returns an empty list of segments.
pub proof fn lemma_split_nonempty(s: Seq<char>, sep: char)
    ensures
        split(s, sep).len() >= 1,
    decreases s.len(),
{
    if s.len() > 0 {
        lemma_split_nonempty(s.drop_first(), sep);
    }
}

/// `p` stands at the front of `s`.
pub open spec fn starts_with_chars(s: Seq<char>, p: Seq<char>) -> bool {
    p.len() <= s.len() && s.subrange(0, p.len() as int) == p
}

/// `p` occurs somewhere inside `s`.
pub open spec fn contains_chars(s: Seq<char>, p: Seq<char>) -> bool {
    exists|i: int|
        0 <= i <= s.len() - p.len() && #[trigger] s.subrange(i, i + p.len() as int) == p
}

/// The characters of a string slice, in order.
pub fn chars_of(s: &str) -> (r: Vec<char>)
    ensures
        r@ == s@,
{
    let n: usize = s.unicode_len();
    let mut r: Vec<char> = Vec::new();
    let mut i: usize = 0;
    while i < n
        invariant
            i <= n,
            n == s@.len(),
            r@.len() == i,
            forall|k: int| 0 <= k < i ==> r@[k] == s@[k],
        decreases n - i,
    {
        r.push(s.get_char(i));
        i += 1;
    }
    proof {
        assert(r@ =~= s@);
    }
    r
}

/// ASCII case folding, executable form.
pub fn to_lower_char(c: char) -> (r: char)
    ensures
        r == lower_char(c),
{
    if 'A' <= c && c <= 'Z' {
        ((c as u8) + 0x20) as char
    } else {
        c
    }
}

/// ASCII case folding of a whole string, executable form.
pub fn lower_vec(v: &[char]) -> (r: Vec<char>)
    ensures
        r@ == lower(v@),
{
    let n: usize = v.len();
    let mut r: Vec<char> = Vec::new();
    let mut i: usize = 0;
    while i < n
        invariant
            i <= n,
            n == v@.len(),
            r@.len() == i,
            forall|k: int| 0 <= k < i ==> r@[k] == lower_char(v@[k]),
        decreases n - i,
    {
        let c: char = *slice_index_get(v, i);
        r.push(to_lower_char(c));
        i += 1;
    }
    proof {
        assert(r@ =~= lower(v@));
    }
    r
}

/// Exact equality of two character strings.
pub fn eq_chars(a: &[char], b: &[char]) -> (r: bool)
    ensures
        r == (a@ == b@),
{
    if a.len() != b.len() {
        return false;
    }
    let n: usize = a.len();
    let mut i: usize = 0;
    while i < n
        invariant
            i <= n,
            n == a@.len(),
            n == b@.len(),
            forall|k: int| 0 <= k < i ==> a@[k] == b@[k],
        decreases n - i,
    {
        let ca: char = *slice_index_get(a, i);
        let cb: char = *slice_index_get(b, i);
        if ca != cb {
            return false;
        }
        i += 1;
    }
    proof {
        assert(a@ =~= b@);
    }
    true
}

/// Removes leading whitespace; mirrors `trim_front`.
pub fn trim_front_exec(v: &[char]) -> (r: Vec<char>)
    ensures
        r@ == trim_front(v@),
    decreases v@.len(),
{
    if v.len() > 0 {
        let c: char = *slice_index_get(v, 0);
        if c == ' ' || c == '\t' {
            let sub = slice_subrange(v, 1, v.len());
            proof {
                assert(sub@ == v@.drop_first());
            }
            return trim_front_exec(sub);
        }
    }
    slice_to_vec(v)
}

/// Removes trailing whitespace; mirrors `trim_back`.
pub fn trim_back_exec(v: &[char]) -> (r: Vec<char>)
    ensures
        r@ == trim_back(v@),
    decreases v@.len(),
{
    if v.len() > 0 {
        let c: char = *slice_index_get(v, v.len() - 1);
        if c == ' ' || c == '\t' {
            let sub = slice_subrange(v, 0, v.len() - 1);
            proof {
                assert(sub@ == v@.drop_last());
            }
            return trim_back_exec(sub);
        }
    }
    slice_to_vec(v)
}

/// Removes surrounding whitespace; mirrors `trim`.
pub fn trim_exec(v: &[char]) -> (r: Vec<char>)
    ensures
        r@ == trim(v@),
{
    let front = trim_front_exec(v);
    trim_back_exec(front.as_slice())
}

/// Splits on a separator; mirrors `split`, one entry per segment.
pub fn split_exec(v: &[char], sep: char) -> (r: Vec<Vec<char>>)
    ensures
        r@.len() == split(v@, sep).len(),
        forall|i: int| 0 <= i < r@.len() ==> r@[i]@ == split(v@, sep)[i],
    decreases v@.len(),
{
    if v.len() == 0 {
        let mut r: Vec<Vec<char>> = Vec::new();
        r.push(Vec::new());
        return r;
    }
    let c: char = *slice_index_get(v, 0);
    let sub = slice_subrange(v, 1, v.len());
    proof {
        assert(sub@ == v@.drop_first());
    }
    let mut rest = split_exec(sub, sep);
    if c == sep {
        rest.insert(0, Vec::new());
        proof {
            assert(forall|i: int|
                0 <= i < rest@.len() ==> rest@[i]@ == split(v@, sep)[i]);
        }
        rest
    } else {
        proof {
            lemma_split_nonempty(v@.drop_first(), sep);
        }
        let mut first = rest.remove(0);
        first.insert(0, c);
        rest.insert(0, first);
        proof {
            let spec_rest = split(v@.drop_first(), sep);
            assert(rest@[0]@ =~= seq![v@[0]].add(spec_rest[0]));
            assert(forall|i: int|
                1 <= i < rest@.len() ==> rest@[i]@ == spec_rest.skip(1)[i - 1]);
            assert(forall|i: int|
                0 <= i < rest@.len() ==> rest@[i]@ == split(v@, sep)[i]);
        }
        rest
    }
}

/// Prefix test; mirrors `starts_with_chars`.
pub fn starts_with_exec(s: &[char], p: &[char]) -> (r: bool)
    ensures
        r == starts_with_chars(s@, p@),
{
    if p.len() > s.len() {
        return false;
    }
    let head = slice_subrange(s, 0, p.len());
    eq_chars(head, p)
}

/// Substring test; mirrors `contains_chars`.
pub fn contains_exec(s: &[char], p: &[char]) -> (r: bool)
    ensures
        r == contains_chars(s@, p@),
{
    if p.len() > s.len() {
        return false;
    }
    if p.len() == 0 {
        proof {
            assert(s@.subrange(0, 0 + p@.len() as int) == p@);
        }
        return true;
    }
    let bound: usize = s.len() - p.len();
    let mut i: usize = 0;
    while i <= bound
        invariant
            0 <= i <= bound + 1,
            bound == s@.len() - p@.len(),
            0 < p@.len() <= s@.len(),
            s@.len() <= usize::MAX,
            forall|j: int|
                0 <= j < i ==> #[trigger] s@.subrange(j, j + p@.len() as int) != p@,
        decreases bound + 1 - i,
    {
        let window = slice_subrange(s, i, i + p.len());
        if eq_chars(window, p) {
            proof {
                assert(s@.subrange(i as int, i + p@.len() as int) == p@);
            }
            return true;
        }
        i += 1;
    }
    proof {
        assert(forall|j: int|
            0 <= j <= s@.len() - p@.len() ==> #[trigger] s@.subrange(j, j + p@.len() as int) != p@);
    }
    false
}

} // verus!
