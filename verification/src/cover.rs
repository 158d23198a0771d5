//! The cover picture of a listing. Listing pages give it in an inline style,
//! `background-image: url("<address>");`; the address is what the pattern
//! `background-image: url\("(.*)"\);` captures: the first match from the left,
//! where `.` is any character but a line feed and `.*` takes as much as it can.

use vstd::prelude::*;
use crate::text::chars_of;

verus! {

/// `background-image: url("`, what comes before the address.
pub open spec fn cover_prefix() -> Seq<char> {
    seq![
        'b', 'a', 'c', 'k', 'g', 'r', 'o', 'u', 'n', 'd', '-', 'i', 'm', 'a', 'g', 'e', ':', ' ',
        'u', 'r', 'l', '(', '"',
    ]
}

/// `");`, what comes after the address.
pub open spec fn cover_suffix() -> Seq<char> {
    seq!['"', ')', ';']
}

/// `s` holds `pat` from position `i` on.
pub open spec fn holds_at(s: Seq<char>, pat: Seq<char>, i: int) -> bool {
    0 <= i && i + pat.len() <= s.len() && s.subrange(i, i + pat.len()) == pat
}

/// No line feed stands in `s` from position `a` up to, not including, `b`.
pub open spec fn line_free(s: Seq<char>, a: int, b: int) -> bool {
    forall|k: int| a <= k < b ==> s[k] != '\n'
}

/// A match of the pattern in `s` that starts at `i`, whose address ends at `j`.
pub open spec fn cover_span(s: Seq<char>, i: int, j: int) -> bool {
    &&& holds_at(s, cover_prefix(), i)
    &&& i + 23 <= j
    &&& holds_at(s, cover_suffix(), j)
    &&& line_free(s, i + 23, j)
}

/// Some match of the pattern in `s` starts at `i`.
pub open spec fn match_starts_at(s: Seq<char>, i: int) -> bool {
    exists|j: int| cover_span(s, i, j)
}

/// The match that the pattern finds: it starts as far left as any match can, and
/// its address is the longest of those that start there.
pub open spec fn first_cover_span(s: Seq<char>, i: int, j: int) -> bool {
    &&& cover_span(s, i, j)
    &&& forall|i2: int| 0 <= i2 < i ==> !match_starts_at(s, i2)
    &&& forall|j2: int| j < j2 ==> !cover_span(s, i, j2)
}

/// The cover address in a style text, if the pattern matches it.
pub open spec fn cover_url_of(s: Seq<char>) -> Option<Seq<char>> {
    if exists|i: int, j: int| first_cover_span(s, i, j) {
        let (i, j) = choose|i: int, j: int| first_cover_span(s, i, j);
        Some(s.subrange(i + 23, j))
    } else {
        None
    }
}

proof fn lemma_first_span_unique(s: Seq<char>, i: int, j: int, i2: int, j2: int)
    requires
        first_cover_span(s, i, j),
        first_cover_span(s, i2, j2),
    ensures
        i == i2 && j == j2,
{
    if i2 < i {
        assert(match_starts_at(s, i2));
    }
    if i < i2 {
        assert(match_starts_at(s, i));
    }
}

/// The address found at a known first match.
proof fn lemma_cover_url_at(s: Seq<char>, i: int, j: int)
    requires
        first_cover_span(s, i, j),
    ensures
        cover_url_of(s) == Some(s.subrange(i + 23, j)),
{
    let (i2, j2) = choose|i2: int, j2: int| first_cover_span(s, i2, j2);
    lemma_first_span_unique(s, i, j, i2, j2);
}

/// Whether `cs` holds `pat` from position `i` on.
fn holds_at_exec(cs: &Vec<char>, pat: &Vec<char>, i: usize) -> (r: bool)
    ensures
        r == holds_at(cs@, pat@, i as int),
{
    if i > cs.len() || pat.len() > cs.len() - i {
        return false;
    }
    let mut k: usize = 0;
    while k < pat.len()
        invariant
            k <= pat.len(),
            i + pat.len() <= cs.len(),
            forall|m: int| 0 <= m < k ==> cs@[i + m] == pat@[m],
        decreases pat.len() - k,
    {
        if cs[i + k] != pat[k] {
            assert(cs@.subrange(i as int, i + pat.len())[k as int] != pat@[k as int]);
            return false;
        }
        k = k + 1;
    }
    assert(cs@.subrange(i as int, i + pat.len()) =~= pat@);
    true
}

/// The address in an inline cover style, or `None` where the pattern does not
/// match it.
pub fn cover_url(style: &str) -> (r: Option<String>)
    ensures
        match r {
            Some(u) => cover_url_of(style@) == Some(u@),
            None => cover_url_of(style@) is None,
        },
{
    let cs = chars_of(style);
    let pre: Vec<char> = vec![
        'b', 'a', 'c', 'k', 'g', 'r', 'o', 'u', 'n', 'd', '-', 'i', 'm', 'a', 'g', 'e', ':', ' ',
        'u', 'r', 'l', '(', '"',
    ];
    let suf: Vec<char> = vec!['"', ')', ';'];
    assert(pre@ =~= cover_prefix());
    assert(suf@ =~= cover_suffix());
    let ghost s = style@;
    let n = cs.len();
    let mut i: usize = 0;
    while i < n
        invariant
            s == style@,
            cs@ == s,
            n == s.len(),
            pre@ == cover_prefix(),
            suf@ == cover_suffix(),
            forall|i2: int| 0 <= i2 < i ==> !match_starts_at(s, i2),
        decreases n - i,
    {
        if holds_at_exec(&cs, &pre, i) {
            let start = i + 23;
            let mut k = start;
            while k < n && cs[k] != '\n'
                invariant
                    start <= k <= n,
                    cs@ == s,
                    n == s.len(),
                    line_free(s, start as int, k as int),
                decreases n - k,
            {
                k = k + 1;
            }
            // Every address that can end a match starting at `i` ends at or before `k`.
            assert(forall|j2: int| cover_span(s, i as int, j2) ==> j2 <= k) by {
                assert forall|j2: int| cover_span(s, i as int, j2) implies j2 <= k by {
                    if j2 > k {
                        if k < n {
                            assert(s[k as int] == '\n');
                        }
                    }
                }
            }
            let mut j = k;
            loop
                invariant
                    s == style@,
                    start <= j <= k <= n,
                    cs@ == s,
                    n == s.len(),
                    suf@ == cover_suffix(),
                    pre@ == cover_prefix(),
                    holds_at(s, cover_prefix(), i as int),
                    start == i + 23,
                    line_free(s, start as int, k as int),
                    forall|i2: int| 0 <= i2 < i ==> !match_starts_at(s, i2),
                    forall|j2: int| cover_span(s, i as int, j2) ==> j2 <= k,
                    forall|j2: int| j < j2 <= k ==> !holds_at(s, cover_suffix(), j2),
                ensures
                    forall|j2: int| start <= j2 <= k ==> !holds_at(s, cover_suffix(), j2),
                decreases j,
            {
                if holds_at_exec(&cs, &suf, j) {
                    assert(cover_span(s, i as int, j as int));
                    assert(first_cover_span(s, i as int, j as int));
                    proof {
                        lemma_cover_url_at(s, i as int, j as int);
                    }
                    let found = style.substring_char(start, j);
                    return Some(String::from_str(found));
                }
                if j == start {
                    break;
                }
                j = j - 1;
            }
            assert(!match_starts_at(s, i as int)) by {
                if match_starts_at(s, i as int) {
                    let j2 = choose|j2: int| cover_span(s, i as int, j2);
                    assert(j2 <= k);
                }
            }
        }
        i = i + 1;
    }
    assert(!exists|i: int, j: int| first_cover_span(s, i, j)) by {
        if exists|i: int, j: int| first_cover_span(s, i, j) {
            let (i2, j2) = choose|i2: int, j2: int| first_cover_span(s, i2, j2);
            assert(match_starts_at(s, i2));
        }
    }
    None
}

/// The address written into a cover style is the address read back from it,
/// wherever the address holds no line feed.
pub proof fn lemma_cover_url_of_style(address: Seq<char>)
    requires
        !address.contains('\n'),
    ensures
        cover_url_of(cover_prefix() + address + cover_suffix()) == Some(address),
{
    let s = cover_prefix() + address + cover_suffix();
    let j: int = 23 + address.len() as int;
    assert(cover_prefix().len() == 23);
    assert(cover_suffix().len() == 3);
    assert(s.len() == j + 3);
    assert(s.subrange(0, 23) =~= cover_prefix());
    assert(s.subrange(j, j + 3) =~= cover_suffix());
    assert(holds_at(s, cover_prefix(), 0));
    assert(holds_at(s, cover_suffix(), j));
    assert(line_free(s, 23, j)) by {
        assert forall|k: int| 23 <= k < j implies s[k] != '\n' by {
            assert(s[k] == address[k - 23]);
        }
    }
    assert(cover_span(s, 0, j));
    assert(first_cover_span(s, 0, j));
    lemma_cover_url_at(s, 0, j);
    assert(s.subrange(23, j) =~= address);
}

} // verus!
