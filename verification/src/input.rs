//! Parsing of weighted, comma-separated preference headers such as
//! `Accept-Encoding`, and resolution against a server-side list of
//! supported tokens.
//!
//! A header value is split on commas into entries; each entry holds a
//! token and an optional `q=` quality parameter. Qualities are carried
//! in thousandths, so `q=0.5` is 500 and the default (absent or
//! malformed parameter) is 1000. An entry whose quality is exactly 0 is
//! never selected. A `*` entry matches any supported token that no entry
//! names explicitly. Among the supported tokens, the one with the
//! highest matching quality wins; ties go to the token that stands
//! earlier in the server's list. Token comparison is ASCII
//! case-insensitive throughout.

use vstd::prelude::*;
use vstd::slice::{slice_index_get, slice_subrange};

use crate::text::{
    chars_of, eq_chars, lower, lower_vec, split, split_exec, trim, trim_exec,
    lemma_split_nonempty,
};

verus! {

/// A decimal digit.
pub open spec fn is_digit(c: char) -> bool {
    '0' <= c && c <= '9'
}

/// The value of a decimal digit.
pub open spec fn digit_val(c: char) -> int {
    c as int - '0' as int
}

/// Every character is a decimal digit.
pub open spec fn all_digits(s: Seq<char>) -> bool {
    forall|i: int| 0 <= i < s.len() ==> is_digit(#[trigger] s[i])
}

/// Every character is the digit zero.
pub open spec fn all_zero(s: Seq<char>) -> bool {
    forall|i: int| 0 <= i < s.len() ==> (#[trigger] s[i]) == '0'
}

/// The value, in thousandths, of up to three fraction digits.
pub open spec fn frac_val(s: Seq<char>) -> int {
    (if s.len() >= 1 { 100 * digit_val(s[0]) } else { 0 })
    + (if s.len() >= 2 { 10 * digit_val(s[1]) } else { 0 })
    + (if s.len() >= 3 { digit_val(s[2]) } else { 0 })
}

/// The quality denoted by a `q=` argument, in thousandths: either `0`
/// with up to three fraction digits, or `1` with up to three zero
/// fraction digits. Anything else is malformed and denotes nothing.
pub open spec fn qvalue(s: Seq<char>) -> Option<int> {
    if s.len() == 0 {
        None
    } else if s[0] == '0' {
        if s.len() == 1 {
            Some(0)
        } else if s[1] == '.' && s.len() <= 5 && all_digits(s.skip(2)) {
            Some(frac_val(s.skip(2)))
        } else {
            None
        }
    } else if s[0] == '1' {
        if s.len() == 1 {
            Some(1000)
        } else if s[1] == '.' && s.len() <= 5 && all_zero(s.skip(2)) {
            Some(1000)
        } else {
            None
        }
    } else {
        None
    }
}

/// The token of one comma-separated entry: the part before the first
/// `;`, trimmed and case-folded.
pub open spec fn entry_token(seg: Seq<char>) -> Seq<char> {
    lower(trim(split(seg, ';')[0]))
}

/// The quality given by the first `n` parameters: the last well-formed
/// `q=` parameter wins, and without one the quality is 1000.
pub open spec fn q_of_params_prefix(ps: Seq<Seq<char>>, n: int) -> int
    decreases n,
{
    if n <= 0 {
        1000
    } else {
        let prev = q_of_params_prefix(ps, n - 1);
        let p = trim(ps[n - 1]);
        if p.len() >= 2 && p[0] == 'q' && p[1] == '=' {
            match qvalue(p.skip(2)) {
                Some(x) => x,
                None => prev,
            }
        } else {
            prev
        }
    }
}

/// The quality of one comma-separated entry.
pub open spec fn entry_q(seg: Seq<char>) -> int {
    let ps = split(seg, ';').skip(1);
    q_of_params_prefix(ps, ps.len() as int)
}

/// All entries of a header value: one (token, quality) pair per
/// comma-separated segment, in order of appearance.
pub open spec fn header_entries(h: Seq<char>) -> Seq<(Seq<char>, int)> {
    split(h, ',').map_values(|seg: Seq<char>| (entry_token(seg), entry_q(seg)))
}

/// The wildcard token.
pub open spec fn wildcard_token() -> Seq<char> {
    seq!['*']
}

/// Some entry of the header names this (case-folded) token itself.
/// An entry weighted `q=0` still lists its token: the client ruled the
/// token out, so a wildcard must not resurrect it.
pub open spec fn explicitly_listed(h: Seq<char>, e: Seq<char>) -> bool {
    exists|k: int|
        0 <= k < header_entries(h).len() && (#[trigger] header_entries(h)[k]).0 == e
}

/// The entry accepts the (case-folded) token `e`: its quality is not
/// zero, and it either names `e` or is a wildcard while no entry names
/// `e` explicitly.
pub open spec fn entry_matches(h: Seq<char>, ent: (Seq<char>, int), e: Seq<char>) -> bool {
    ent.1 > 0 && (ent.0 == e || (ent.0 == wildcard_token() && !explicitly_listed(h, e)))
}

/// The best quality that the first `n` entries give to token `e`;
/// 0 when none of them accepts it.
pub open spec fn best_q_prefix(h: Seq<char>, n: int, e: Seq<char>) -> int
    decreases n,
{
    if n <= 0 {
        0
    } else {
        let prev = best_q_prefix(h, n - 1, e);
        let ent = header_entries(h)[n - 1];
        if entry_matches(h, ent, e) && ent.1 > prev {
            ent.1
        } else {
            prev
        }
    }
}

/// The quality the header gives to the (case-folded) token `e`;
/// 0 when the header does not accept it.
pub open spec fn elem_quality(h: Seq<char>, e: Seq<char>) -> int {
    best_q_prefix(h, header_entries(h).len() as int, e)
}

/// A best quality is never negative.
pub proof fn lemma_best_q_nonnegative(h: Seq<char>, e: Seq<char>, n: int)
    ensures
        best_q_prefix(h, n, e) >= 0,
    decreases n,
{
    if n > 0 {
        lemma_best_q_nonnegative(h, e, n - 1);
    }
}

/// The winner among the first `n` supported tokens: the one with the
/// highest non-zero quality, earlier tokens winning ties.
pub open spec fn preferred_prefix(h: Seq<char>, elems: Seq<Seq<char>>, n: int) -> Option<int>
    decreases n,
{
    if n <= 0 {
        None
    } else {
        let prev = preferred_prefix(h, elems, n - 1);
        let q = elem_quality(h, lower(elems[n - 1]));
        match prev {
            None => if q > 0 { Some(n - 1) } else { None },
            Some(j) => if q > elem_quality(h, lower(elems[j])) { Some(n - 1) } else { Some(j) },
        }
    }
}

/// The index, into the supported list, of the single best mutually
/// acceptable token, or nothing when no supported token is acceptable.
pub open spec fn priority_preferred(h: Seq<char>, elems: Seq<Seq<char>>) -> Option<int> {
    preferred_prefix(h, elems, elems.len() as int)
}

/// Parses a `q=` argument; mirrors `qvalue`.
fn parse_qvalue(v: &[char]) -> (r: Option<u32>)
    ensures
        (match r {
            Some(x) => qvalue(v@) == Some(x as int) && x <= 1000,
            None => qvalue(v@) is None,
        }),
{
    if v.len() == 0 {
        return None;
    }
    let c0: char = *slice_index_get(v, 0);
    if c0 == '0' {
        if v.len() == 1 {
            return Some(0);
        }
        let c1: char = *slice_index_get(v, 1);
        if c1 != '.' || v.len() > 5 {
            return None;
        }
        let mut val: u32 = 0;
        if v.len() >= 3 {
            let c: char = *slice_index_get(v, 2);
            if !('0' <= c && c <= '9') {
                proof {
                    assert(!is_digit(v@.skip(2)[0]));
                }
                return None;
            }
            val = val + 100 * ((c as u32) - 48);
        }
        if v.len() >= 4 {
            let c: char = *slice_index_get(v, 3);
            if !('0' <= c && c <= '9') {
                proof {
                    assert(!is_digit(v@.skip(2)[1]));
                }
                return None;
            }
            val = val + 10 * ((c as u32) - 48);
        }
        if v.len() == 5 {
            let c: char = *slice_index_get(v, 4);
            if !('0' <= c && c <= '9') {
                proof {
                    assert(!is_digit(v@.skip(2)[2]));
                }
                return None;
            }
            val = val + ((c as u32) - 48);
        }
        proof {
            assert(all_digits(v@.skip(2)));
            assert(frac_val(v@.skip(2)) == val as int);
        }
        Some(val)
    } else if c0 == '1' {
        if v.len() == 1 {
            return Some(1000);
        }
        let c1: char = *slice_index_get(v, 1);
        if c1 != '.' || v.len() > 5 {
            return None;
        }
        if v.len() >= 3 {
            let c: char = *slice_index_get(v, 2);
            if c != '0' {
                proof {
                    assert(v@.skip(2)[0] != '0');
                }
                return None;
            }
        }
        if v.len() >= 4 {
            let c: char = *slice_index_get(v, 3);
            if c != '0' {
                proof {
                    assert(v@.skip(2)[1] != '0');
                }
                return None;
            }
        }
        if v.len() == 5 {
            let c: char = *slice_index_get(v, 4);
            if c != '0' {
                proof {
                    assert(v@.skip(2)[2] != '0');
                }
                return None;
            }
        }
        proof {
            assert(all_zero(v@.skip(2)));
        }
        Some(1000)
    } else {
        None
    }
}

/// Parses one comma-separated entry into its token and quality.
fn parse_entry(seg: &[char]) -> (r: (Vec<char>, u32))
    ensures
        r.0@ == entry_token(seg@),
        r.1 as int == entry_q(seg@),
        r.1 <= 1000,
{
    let parts = split_exec(seg, ';');
    proof {
        lemma_split_nonempty(seg@, ';');
    }
    let first = slice_index_get(parts.as_slice(), 0);
    let trimmed = trim_exec(first.as_slice());
    let tok = lower_vec(trimmed.as_slice());
    let ghost ps = split(seg@, ';').skip(1);
    let mut q: u32 = 1000;
    let mut j: usize = 1;
    while j < parts.len()
        invariant
            1 <= j <= parts@.len(),
            parts@.len() == split(seg@, ';').len(),
            forall|i: int| 0 <= i < parts@.len() ==> (#[trigger] parts@[i])@ == split(seg@, ';')[i],
            ps == split(seg@, ';').skip(1),
            q <= 1000,
            q as int == q_of_params_prefix(ps, j - 1),
        decreases parts@.len() - j,
    {
        let p = slice_index_get(parts.as_slice(), j);
        let pt = trim_exec(p.as_slice());
        proof {
            assert(ps[j - 1] == split(seg@, ';')[j as int]);
            assert(pt@ == trim(ps[j - 1]));
        }
        if pt.len() >= 2 {
            let c0: char = *slice_index_get(pt.as_slice(), 0);
            let c1: char = *slice_index_get(pt.as_slice(), 1);
            if c0 == 'q' && c1 == '=' {
                let rest = slice_subrange(pt.as_slice(), 2, pt.len());
                proof {
                    assert(rest@ == trim(ps[j - 1]).skip(2));
                }
                match parse_qvalue(rest) {
                    Some(x) => {
                        q = x;
                    },
                    None => {},
                }
            }
        }
        j += 1;
    }
    proof {
        assert(ps.len() == parts@.len() - 1);
        assert(q as int == q_of_params_prefix(ps, ps.len() as int));
    }
    (tok, q)
}

/// Parses a whole header value into its entries; mirrors
/// `header_entries`.
fn parse_entries(h: &[char]) -> (r: Vec<(Vec<char>, u32)>)
    ensures
        r@.len() == header_entries(h@).len(),
        forall|i: int|
            0 <= i < r@.len() ==> (#[trigger] r@[i]).0@ == header_entries(h@)[i].0
                && r@[i].1 as int == header_entries(h@)[i].1,
{
    let segs = split_exec(h, ',');
    let mut r: Vec<(Vec<char>, u32)> = Vec::new();
    let mut i: usize = 0;
    while i < segs.len()
        invariant
            i <= segs@.len(),
            segs@.len() == split(h@, ',').len(),
            forall|k: int| 0 <= k < segs@.len() ==> (#[trigger] segs@[k])@ == split(h@, ',')[k],
            r@.len() == i,
            forall|k: int|
                0 <= k < i ==> (#[trigger] r@[k]).0@ == header_entries(h@)[k].0
                    && r@[k].1 as int == header_entries(h@)[k].1,
        decreases segs@.len() - i,
    {
        let seg = slice_index_get(segs.as_slice(), i);
        let (tok, q) = parse_entry(seg.as_slice());
        r.push((tok, q));
        i += 1;
    }
    r
}

/// The quality the header gives to the case-folded token `e`, computed
/// from parsed entries; mirrors `elem_quality`.
fn quality_for(entries: &Vec<(Vec<char>, u32)>, e: &[char], Ghost(h): Ghost<Seq<char>>) -> (q: u32)
    requires
        entries@.len() == header_entries(h).len(),
        forall|i: int|
            0 <= i < entries@.len() ==> (#[trigger] entries@[i]).0@ == header_entries(h)[i].0
                && entries@[i].1 as int == header_entries(h)[i].1,
    ensures
        q as int == elem_quality(h, e@),
{
    let star: Vec<char> = vec!['*'];
    proof {
        assert(star@ =~= wildcard_token());
    }
    let mut listed = false;
    let mut k: usize = 0;
    while k < entries.len()
        invariant
            k <= entries@.len(),
            entries@.len() == header_entries(h).len(),
            forall|i: int|
                0 <= i < entries@.len() ==> (#[trigger] entries@[i]).0@ == header_entries(h)[i].0
                    && entries@[i].1 as int == header_entries(h)[i].1,
            listed ==> explicitly_listed(h, e@),
            !listed ==> forall|i: int|
                0 <= i < k ==> (#[trigger] header_entries(h)[i]).0 != e@,
        decreases entries@.len() - k,
    {
        let ent = slice_index_get(entries.as_slice(), k);
        if eq_chars(ent.0.as_slice(), e) {
            listed = true;
        }
        k += 1;
    }
    proof {
        if !listed {
            assert(!explicitly_listed(h, e@));
        }
    }
    let mut best: u32 = 0;
    let mut n: usize = 0;
    while n < entries.len()
        invariant
            n <= entries@.len(),
            entries@.len() == header_entries(h).len(),
            forall|i: int|
                0 <= i < entries@.len() ==> (#[trigger] entries@[i]).0@ == header_entries(h)[i].0
                    && entries@[i].1 as int == header_entries(h)[i].1,
            star@ == wildcard_token(),
            listed == explicitly_listed(h, e@),
            best as int == best_q_prefix(h, n as int, e@),
        decreases entries@.len() - n,
    {
        let ent = slice_index_get(entries.as_slice(), n);
        let accepts = ent.1 > 0
            && (eq_chars(ent.0.as_slice(), e)
                || (eq_chars(ent.0.as_slice(), star.as_slice()) && !listed));
        proof {
            assert(accepts == entry_matches(h, header_entries(h)[n as int], e@));
        }
        if accepts && ent.1 > best {
            best = ent.1;
        }
        n += 1;
    }
    best
}

/// The index into `elements` of the best token that the header value
/// `input` accepts, or nothing when no supported token is acceptable.
/// `elements` is the server's supported list, most preferred first.
pub fn priority_header_preferred(input: &str, elements: &[&str]) -> (r: Option<usize>)
    ensures
        (match r {
            Some(i) => priority_preferred(input@, elements.deep_view()) == Some(i as int)
                && i < elements@.len(),
            None => priority_preferred(input@, elements.deep_view()) is None,
        }),
{
    let h = chars_of(input);
    let entries = parse_entries(h.as_slice());
    let ghost elems = elements.deep_view();
    proof {
        assert(elems.len() == elements@.len());
    }
    let mut best: Option<usize> = None;
    let mut best_q: u32 = 0;
    let mut i: usize = 0;
    while i < elements.len()
        invariant
            i <= elements@.len(),
            elems == elements.deep_view(),
            elems.len() == elements@.len(),
            h@ == input@,
            entries@.len() == header_entries(input@).len(),
            forall|k: int|
                0 <= k < entries@.len() ==> (#[trigger] entries@[k]).0@ == header_entries(input@)[k].0
                    && entries@[k].1 as int == header_entries(input@)[k].1,
            (match best {
                Some(j) => j < i && preferred_prefix(input@, elems, i as int) == Some(j as int)
                    && best_q as int == elem_quality(input@, lower(elems[j as int]))
                    && best_q > 0,
                None => preferred_prefix(input@, elems, i as int) is None,
            }),
        decreases elements@.len() - i,
    {
        let el_str: &str = *slice_index_get(elements, i);
        let el_chars = chars_of(el_str);
        let el = lower_vec(el_chars.as_slice());
        proof {
            assert(elems[i as int] == elements@[i as int]@);
            assert(el@ == lower(elems[i as int]));
        }
        let q = quality_for(&entries, el.as_slice(), Ghost(input@));
        match best {
            None => {
                if q > 0 {
                    best = Some(i);
                    best_q = q;
                }
            },
            Some(_j) => {
                if q > best_q {
                    best = Some(i);
                    best_q = q;
                }
            },
        }
        i += 1;
    }
    best
}

} // verus!
