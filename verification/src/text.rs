//! Character-level text helpers shared by the relay model and the search filter.

use vstd::prelude::*;
use vstd::utf8::is_char_boundary;
use vstd::string::StringSliceAdditionalSpecFns;

verus! {

/// ASCII lower-casing of one character; every other character is unchanged.
pub open spec fn ascii_lower(c: char) -> char {
    if 'A' <= c && c <= 'Z' {
        ((c as u32) + 32) as char
    } else {
        c
    }
}

/// Two strings match when they have the same length and agree character by
/// character after ASCII lower-casing.
pub open spec fn eq_ignore_ascii_case_spec(a: Seq<char>, b: Seq<char>) -> bool {
    &&& a.len() == b.len()
    &&& forall|i: int| 0 <= i < a.len() ==> ascii_lower(#[trigger] a[i]) == ascii_lower(b[i])
}

/// `needle` occurs as a contiguous run of characters inside `hay`.
pub open spec fn contains_spec(hay: Seq<char>, needle: Seq<char>) -> bool {
    exists|i: int|
        0 <= i && i + needle.len() <= hay.len() && #[trigger] hay.subrange(i, i + needle.len())
            == needle
}

fn ascii_lower_char(c: char) -> (r: char)
    ensures
        r == ascii_lower(c),
{
    if 'A' <= c && c <= 'Z' {
        let u: u32 = c as u32;
        proof {
            assert(65 <= u <= 90);
        }
        ((u + 32) as u8) as char
    } else {
        c
    }
}

/// The characters of `s`, in order.
pub fn chars_of(s: &str) -> (v: Vec<char>)
    ensures
        v@ == s@,
{
    let n = s.unicode_len();
    let mut v: Vec<char> = Vec::new();
    let mut i: usize = 0;
    while i < n
        invariant
            n == s@.len(),
            i <= n,
            v@ == s@.subrange(0, i as int),
        decreases n - i,
    {
        let c = s.get_char(i);
        v.push(c);
        i = i + 1;
        proof {
            assert(v@ =~= s@.subrange(0, i as int));
        }
    }
    proof {
        assert(v@ =~= s@);
    }
    v
}

/// ASCII case-insensitive comparison, as `str::eq_ignore_ascii_case` documents it.
pub fn eq_ignore_ascii_case(a: &str, b: &str) -> (r: bool)
    ensures
        r == eq_ignore_ascii_case_spec(a@, b@),
{
    let av = chars_of(a);
    let bv = chars_of(b);
    if av.len() != bv.len() {
        return false;
    }
    let mut i: usize = 0;
    while i < av.len()
        invariant
            av@ == a@,
            bv@ == b@,
            av.len() == bv.len(),
            i <= av.len(),
            forall|k: int| 0 <= k < i ==> ascii_lower(#[trigger] a@[k]) == ascii_lower(b@[k]),
        decreases av.len() - i,
    {
        if ascii_lower_char(av[i]) != ascii_lower_char(bv[i]) {
            return false;
        }
        i = i + 1;
    }
    true
}

/// Substring search over characters, as `str::contains` documents it for a string pattern.
pub fn contains(hay: &str, needle: &str) -> (r: bool)
    ensures
        r == contains_spec(hay@, needle@),
{
    let h = chars_of(hay);
    let n = chars_of(needle);
    if n.len() == 0 {
        proof {
            assert(hay@.subrange(0int, 0int + needle@.len()) =~= needle@);
        }
        return true;
    }
    if n.len() > h.len() {
        return false;
    }
    let last = h.len() - n.len();
    let mut i: usize = 0;
    while i <= last
        invariant
            h@ == hay@,
            n@ == needle@,
            last == h.len() - n.len(),
            0 < n.len() <= h.len(),
            i <= last + 1,
            forall|k: int|
                0 <= k < i ==> #[trigger] hay@.subrange(k, k + needle@.len()) != needle@,
        decreases last + 1 - i,
    {
        let mut j: usize = 0;
        let mut ok = true;
        while j < n.len() && ok
            invariant
                h@ == hay@,
                n@ == needle@,
                i <= last,
                last == h.len() - n.len(),
                j <= n.len(),
                forall|k: int| 0 <= k < j ==> h@[i + k] == n@[k],
                !ok ==> hay@.subrange(i as int, i + needle@.len()) != needle@,
            decreases n.len() - j + (if ok { 1int } else { 0int }),
        {
            if h[i + j] != n[j] {
                ok = false;
                proof {
                    assert(hay@.subrange(i as int, i + needle@.len())[j as int]
                        != needle@[j as int]);
                }
            } else {
                j = j + 1;
            }
        }
        if ok {
            proof {
                assert(hay@.subrange(i as int, i + needle@.len()) =~= needle@);
            }
            return true;
        }
        i = i + 1;
    }
    false
}

/// Unicode lower-casing of a string, as the standard library's
/// `str::to_lowercase` computes it (Unicode `Lowercase` mapping).
pub uninterp spec fn unicode_lowercase(s: Seq<char>) -> Seq<char>;

/// Lower-cases `s` with `str::to_lowercase`.
///
/// The contract only names the result: it is `unicode_lowercase` of the
/// argument's characters. The Unicode case tables themselves are not stated.
#[verifier::external_body]
pub(crate) fn to_lowercase(s: &str) -> (r: String)
    ensures
        r@ == unicode_lowercase(s@),
{
    s.to_lowercase()
}

/// Index of the first occurrence of `c` in `s`, or `s.len()` when there is none.
pub open spec fn first_index_of(s: Seq<char>, c: char) -> nat
    decreases s.len(),
{
    if s.len() == 0 {
        0
    } else if s[0] == c {
        0
    } else {
        1 + first_index_of(s.drop_first(), c)
    }
}

/// Number of leading characters of `s` equal to `c`.
pub open spec fn leading_run(s: Seq<char>, c: char) -> nat
    decreases s.len(),
{
    if s.len() == 0 {
        0
    } else if s[0] != c {
        0
    } else {
        1 + leading_run(s.drop_first(), c)
    }
}

/// Index of the last occurrence of `c` in `s`, if any.
pub open spec fn last_index_of(s: Seq<char>, c: char) -> Option<nat>
    decreases s.len(),
{
    if s.len() == 0 {
        None
    } else if s.last() == c {
        Some((s.len() - 1) as nat)
    } else {
        last_index_of(s.drop_last(), c)
    }
}

pub proof fn lemma_first_index_of(s: Seq<char>, c: char, i: int)
    requires
        0 <= i <= s.len(),
        forall|k: int| 0 <= k < i ==> s[k] != c,
        i == s.len() || s[i] == c,
    ensures
        first_index_of(s, c) == i,
    decreases i,
{
    if i > 0 {
        let t = s.drop_first();
        assert forall|k: int| 0 <= k < i - 1 implies t[k] != c by {
            assert(t[k] == s[k + 1]);
        }
        if i < s.len() {
            assert(t[i - 1] == s[i]);
        }
        lemma_first_index_of(t, c, i - 1);
    }
}

pub proof fn lemma_leading_run(s: Seq<char>, c: char, i: int)
    requires
        0 <= i <= s.len(),
        forall|k: int| 0 <= k < i ==> s[k] == c,
        i == s.len() || s[i] != c,
    ensures
        leading_run(s, c) == i,
    decreases i,
{
    if i > 0 {
        let t = s.drop_first();
        assert forall|k: int| 0 <= k < i - 1 implies t[k] == c by {
            assert(t[k] == s[k + 1]);
        }
        if i < s.len() {
            assert(t[i - 1] == s[i]);
        }
        lemma_leading_run(t, c, i - 1);
    }
}

pub proof fn lemma_last_index_found(s: Seq<char>, c: char, p: int)
    requires
        0 <= p < s.len(),
        s[p] == c,
        forall|k: int| p < k < s.len() ==> s[k] != c,
    ensures
        last_index_of(s, c) == Some(p as nat),
    decreases s.len(),
{
    if p < s.len() - 1 {
        let t = s.drop_last();
        assert(s.last() != c);
        assert forall|k: int| p < k < t.len() implies t[k] != c by {
            assert(t[k] == s[k]);
        }
        lemma_last_index_found(t, c, p);
    }
}

pub proof fn lemma_last_index_absent(s: Seq<char>, c: char)
    requires
        forall|k: int| 0 <= k < s.len() ==> s[k] != c,
    ensures
        last_index_of(s, c) == None::<nat>,
    decreases s.len(),
{
    if s.len() > 0 {
        let t = s.drop_last();
        assert(s.last() != c);
        assert forall|k: int| 0 <= k < t.len() implies t[k] != c by {
            assert(t[k] == s[k]);
        }
        lemma_last_index_absent(t, c);
    }
}

/// Position of the first `c` in `v`, or `v.len()` when there is none.
pub fn find_first(v: &Vec<char>, c: char) -> (r: usize)
    ensures
        r == first_index_of(v@, c),
        r <= v.len(),
{
    let mut i: usize = 0;
    while i < v.len() && v[i] != c
        invariant
            i <= v.len(),
            forall|k: int| 0 <= k < i ==> v@[k] != c,
        decreases v.len() - i,
    {
        i = i + 1;
    }
    proof {
        lemma_first_index_of(v@, c, i as int);
    }
    i
}

/// Number of leading characters of `v[..end]` equal to `c`.
pub fn count_leading(v: &Vec<char>, end: usize, c: char) -> (r: usize)
    requires
        end <= v.len(),
    ensures
        r == leading_run(v@.subrange(0, end as int), c),
        r <= end,
{
    let ghost s = v@.subrange(0, end as int);
    let mut i: usize = 0;
    while i < end && v[i] == c
        invariant
            end <= v.len(),
            s == v@.subrange(0, end as int),
            i <= end,
            forall|k: int| 0 <= k < i ==> s[k] == c,
        decreases end - i,
    {
        i = i + 1;
    }
    proof {
        lemma_leading_run(s, c, i as int);
    }
    i
}

/// Position of the last `c` in `v`, if any.
pub fn find_last(v: &Vec<char>, c: char) -> (r: Option<usize>)
    ensures
        r matches Some(p) ==> last_index_of(v@, c) == Some(p as nat) && p < v.len(),
        r is None ==> last_index_of(v@, c) is None,
{
    let mut i: usize = v.len();
    while i > 0 && v[i - 1] != c
        invariant
            i <= v.len(),
            forall|k: int| i <= k < v.len() ==> v@[k] != c,
        decreases i,
    {
        i = i - 1;
    }
    if i == 0 {
        proof {
            lemma_last_index_absent(v@, c);
        }
        None
    } else {
        proof {
            lemma_last_index_found(v@, c, i - 1);
        }
        Some(i - 1)
    }
}

/// The longest prefix of `s` of at most `max` bytes, as `&s[..s.len().min(max)]`.
///
/// Slicing a `str` off a character boundary panics, so the cut must fall on one.
pub fn clip(s: &str, max: usize) -> (r: &str)
    requires
        s.spec_bytes().len() <= usize::MAX,
        is_char_boundary(s.spec_bytes(), min_len(s.spec_bytes().len(), max as int)),
    ensures
        r.spec_bytes() == s.spec_bytes().subrange(0, min_len(s.spec_bytes().len(), max as int)),
{
    proof {
        vstd::utf8::encode_utf8_valid_utf8(s@);
    }
    let end = if s.len() < max { s.len() } else { max };
    let (head, _tail) = s.split_at(end);
    head
}

/// Whether `clip(s, max)` cuts on a character boundary.
pub fn can_clip(s: &str, max: usize) -> (b: bool)
    requires
        s.spec_bytes().len() <= usize::MAX,
    ensures
        b == is_char_boundary(s.spec_bytes(), min_len(s.spec_bytes().len(), max as int)),
{
    let end = if s.len() < max { s.len() } else { max };
    s.is_char_boundary(end)
}

/// The smaller of a length and a limit.
pub open spec fn min_len(len: nat, max: int) -> int {
    if len < max { len as int } else { max }
}

/// ASCII case-insensitive equality relates exactly the strings of equal
/// length whose characters agree or are the upper- and lower-case forms of
/// the same ASCII letter.
pub proof fn lemma_ascii_case_match(a: Seq<char>, b: Seq<char>)
    ensures
        eq_ignore_ascii_case_spec(a, b) <==> a.len() == b.len() && forall|i: int|
            0 <= i < a.len() ==> #[trigger] same_letter_ignoring_case(a[i], b[i]),
{
    assert forall|x: char, y: char| #[trigger] same_letter_ignoring_case(x, y) == (ascii_lower(x)
        == ascii_lower(y)) by {
    }
    if eq_ignore_ascii_case_spec(a, b) {
        assert forall|i: int| 0 <= i < a.len() implies #[trigger] same_letter_ignoring_case(
            a[i],
            b[i],
        ) by {
            assert(ascii_lower(a[i]) == ascii_lower(b[i]));
        }
    }
    if a.len() == b.len() && forall|i: int|
        0 <= i < a.len() ==> #[trigger] same_letter_ignoring_case(a[i], b[i]) {
        assert forall|i: int| 0 <= i < a.len() implies ascii_lower(#[trigger] a[i]) == ascii_lower(
            b[i],
        ) by {
            assert(same_letter_ignoring_case(a[i], b[i]));
        }
    }
}

/// Two characters are equal, or one is an ASCII capital and the other its
/// small letter.
pub open spec fn same_letter_ignoring_case(x: char, y: char) -> bool {
    ||| x == y
    ||| 'A' <= x <= 'Z' && (y as u32) == (x as u32) + 32
    ||| 'A' <= y <= 'Z' && (x as u32) == (y as u32) + 32
}

/// A string contains every piece it is built from.
pub proof fn lemma_contains_infix(a: Seq<char>, b: Seq<char>, c: Seq<char>)
    ensures
        contains_spec(a + b + c, b),
{
    let h = a + b + c;
    let i = a.len() as int;
    assert(h.subrange(i, i + b.len()) =~= b);
}

/// A needle is never longer than a string that contains it.
pub proof fn lemma_contains_needs_room(h: Seq<char>, n: Seq<char>)
    ensures
        contains_spec(h, n) ==> n.len() <= h.len(),
{
}

} // verus!
