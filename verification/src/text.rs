//! Text helpers shared by the settings and cursor-reply parsers: strings as
//! character sequences, searching and trimming.

use vstd::prelude::*;

verus! {

/// Whether two strings hold the same text, character by character.
pub(crate) fn same_text(a: &str, b: &str) -> (r: bool)
    ensures
        r == (a@ == b@),
{
    let va = chars_of(a);
    let vb = chars_of(b);
    let n = va.len();
    if n != vb.len() {
        return false;
    }
    let mut i: usize = 0;
    while i < n
        invariant
            va@ == a@,
            vb@ == b@,
            n == va@.len(),
            n == vb@.len(),
            i <= n,
            forall|j: int| 0 <= j < i ==> va@[j] == vb@[j],
        decreases n - i,
    {
        let (x, y) = (va[i], vb[i]);
        if x != y {
            proof {
                assert(a@[i as int] != b@[i as int]);
            }
            return false;
        }
        i = i + 1;
    }
    proof {
        assert(va@ =~= vb@);
    }
    true
}

/// Append `c` to `s` with std's `String::push`.
#[verifier::external_body]
fn push_char(s: &mut String, c: char)
    ensures
        final(s)@ == old(s)@.push(c),
{
    s.push(c)
}

/// The characters of `s`, in order.
pub fn chars_of(s: &str) -> (v: Vec<char>)
    ensures
        v@ == s@,
{
    let mut v: Vec<char> = Vec::new();
    for c in it: s.chars()
        invariant
            v@ == it.seq().take(it.index() as int),
    {
        v.push(c);
    }
    v
}

/// The characters `lo..hi` of `v` as a string.
pub fn string_of(v: &Vec<char>, lo: usize, hi: usize) -> (s: String)
    requires
        lo <= hi <= v@.len(),
    ensures
        s@ == v@.subrange(lo as int, hi as int),
{
    let mut s = String::new();
    let mut i = lo;
    while i < hi
        invariant
            lo <= i <= hi <= v@.len(),
            s@ == v@.subrange(lo as int, i as int),
        decreases hi - i,
    {
        push_char(&mut s, v[i]);
        proof {
            assert(v@.subrange(lo as int, i + 1) =~= v@.subrange(lo as int, i as int).push(v@[i as int]));
        }
        i = i + 1;
    }
    s
}

/// Unicode's White_Space characters, which std's `char::is_whitespace`
/// and `str::trim` go by.
pub open spec fn is_space(c: char) -> bool {
    let u = c as u32;
    ||| 0x9 <= u <= 0xd
    ||| u == 0x20
    ||| u == 0x85
    ||| u == 0xa0
    ||| u == 0x1680
    ||| 0x2000 <= u <= 0x200a
    ||| u == 0x2028
    ||| u == 0x2029
    ||| u == 0x202f
    ||| u == 0x205f
    ||| u == 0x3000
}

/// What trimming strips: white space, or with `quotes` double quotes.
pub open spec fn strippable(c: char, quotes: bool) -> bool {
    if quotes {
        c == '"'
    } else {
        is_space(c)
    }
}

/// `s` without the strippable characters it starts with.
pub open spec fn strip_start(s: Seq<char>, quotes: bool) -> Seq<char>
    decreases s.len(),
{
    if s.len() > 0 && strippable(s[0], quotes) {
        strip_start(s.drop_first(), quotes)
    } else {
        s
    }
}

/// `s` without the strippable characters it ends with.
pub open spec fn strip_end(s: Seq<char>, quotes: bool) -> Seq<char>
    decreases s.len(),
{
    if s.len() > 0 && strippable(s.last(), quotes) {
        strip_end(s.drop_last(), quotes)
    } else {
        s
    }
}

/// `s` trimmed at both ends: `str::trim`, or with `quotes`
/// `str::trim_matches('"')`.
pub open spec fn strip(s: Seq<char>, quotes: bool) -> Seq<char> {
    strip_end(strip_start(s, quotes), quotes)
}

/// Where `c` first occurs in `s`; the length of `s` when it does not.
pub open spec fn first_at(s: Seq<char>, c: char) -> int
    decreases s.len(),
{
    if s.len() == 0 {
        0
    } else if s[0] == c {
        0
    } else {
        1 + first_at(s.drop_first(), c)
    }
}

/// `first_at` lies within `s`, points at a `c` unless it is the end, and
/// no `c` comes before it.
pub proof fn lemma_first_at(s: Seq<char>, c: char)
    ensures
        0 <= first_at(s, c) <= s.len(),
        first_at(s, c) < s.len() ==> s[first_at(s, c)] == c,
        forall|j: int| 0 <= j < first_at(s, c) ==> s[j] != c,
    decreases s.len(),
{
    if s.len() > 0 && s[0] != c {
        lemma_first_at(s.drop_first(), c);
        assert forall|j: int| 0 <= j < first_at(s, c) implies s[j] != c by {
            if j > 0 {
                assert(s[j] == s.drop_first()[j - 1]);
            }
        }
    }
}

/// A position that only `c`-free characters precede, at a `c` or at the
/// end, is where `c` first occurs.
pub proof fn lemma_first_at_is(s: Seq<char>, c: char, i: int)
    requires
        0 <= i <= s.len(),
        i < s.len() ==> s[i] == c,
        forall|j: int| 0 <= j < i ==> s[j] != c,
    ensures
        first_at(s, c) == i,
    decreases s.len(),
{
    if s.len() > 0 && s[0] != c {
        assert forall|j: int| 0 <= j < i - 1 implies s.drop_first()[j] != c by {
            assert(s.drop_first()[j] == s[j + 1]);
        }
        lemma_first_at_is(s.drop_first(), c, i - 1);
    }
}

/// Where `c` first occurs in `v` at or after `lo` and before `hi`; `hi`
/// when it does not.
pub fn find(v: &Vec<char>, lo: usize, hi: usize, c: char) -> (i: usize)
    requires
        lo <= hi <= v@.len(),
    ensures
        lo <= i <= hi,
        i - lo == first_at(v@.subrange(lo as int, hi as int), c),
{
    let mut i = lo;
    while i < hi && v[i] != c
        invariant
            lo <= i <= hi <= v@.len(),
            forall|j: int| lo <= j < i ==> v@[j] != c,
        decreases hi - i,
    {
        i = i + 1;
    }
    proof {
        let s = v@.subrange(lo as int, hi as int);
        if i < hi {
            assert(s[i - lo] == v@[i as int]);
        }
        assert forall|j: int| 0 <= j < i - lo implies s[j] != c by {
            assert(s[j] == v@[lo + j]);
        }
        lemma_first_at_is(s, c, i - lo);
    }
    i
}

/// Whether `c` is white space.
pub fn space(c: char) -> (b: bool)
    ensures
        b == is_space(c),
{
    let u = c as u32;
    (0x9 <= u && u <= 0xd) || u == 0x20 || u == 0x85 || u == 0xa0 || u == 0x1680 || (0x2000 <= u
        && u <= 0x200a) || u == 0x2028 || u == 0x2029 || u == 0x202f || u == 0x205f || u == 0x3000
}

fn strippable_char(c: char, quotes: bool) -> (b: bool)
    ensures
        b == strippable(c, quotes),
{
    if quotes {
        c == '"'
    } else {
        space(c)
    }
}

/// The part of `lo..hi` in `v` that is left after trimming.
pub fn trim_range(v: &Vec<char>, lo: usize, hi: usize, quotes: bool) -> (r: (usize, usize))
    requires
        lo <= hi <= v@.len(),
    ensures
        lo <= r.0 <= r.1 <= hi,
        v@.subrange(r.0 as int, r.1 as int) == strip(v@.subrange(lo as int, hi as int), quotes),
{
    let mut a = lo;
    while a < hi && strippable_char(v[a], quotes)
        invariant
            lo <= a <= hi <= v@.len(),
            strip_start(v@.subrange(lo as int, hi as int), quotes) == strip_start(
                v@.subrange(a as int, hi as int),
                quotes,
            ),
        decreases hi - a,
    {
        proof {
            assert(v@.subrange(a as int, hi as int).drop_first() =~= v@.subrange(a + 1, hi as int));
        }
        a = a + 1;
    }
    let mut b = hi;
    while b > a && strippable_char(v[b - 1], quotes)
        invariant
            lo <= a <= b <= hi <= v@.len(),
            strip_end(v@.subrange(a as int, hi as int), quotes) == strip_end(
                v@.subrange(a as int, b as int),
                quotes,
            ),
        decreases b - a,
    {
        proof {
            assert(v@.subrange(a as int, b as int).drop_last() =~= v@.subrange(a as int, b - 1));
        }
        b = b - 1;
    }
    proof {
        let s = v@.subrange(a as int, hi as int);
        if a < hi {
            assert(!strippable(s[0], quotes));
        }
        assert(strip_start(s, quotes) == s);
        let t = v@.subrange(a as int, b as int);
        if b > a {
            assert(!strippable(t.last(), quotes));
        }
        assert(strip_end(t, quotes) == t);
    }
    (a, b)
}

/// Where trimming the start of `s` stops: everything before is strippable.
proof fn lemma_strip_start(s: Seq<char>, quotes: bool) -> (a: int)
    ensures
        0 <= a <= s.len(),
        strip_start(s, quotes) == s.skip(a),
        forall|j: int| 0 <= j < a ==> strippable(#[trigger] s[j], quotes),
        a < s.len() ==> !strippable(s[a], quotes),
    decreases s.len(),
{
    if s.len() > 0 && strippable(s[0], quotes) {
        let a = lemma_strip_start(s.drop_first(), quotes);
        assert(s.drop_first().skip(a) =~= s.skip(a + 1));
        assert forall|j: int| 0 <= j < a + 1 implies strippable(#[trigger] s[j], quotes) by {
            if j > 0 {
                assert(s[j] == s.drop_first()[j - 1]);
            }
        }
        assert(a + 1 < s.len() ==> s[a + 1] == s.drop_first()[a]);
        a + 1
    } else {
        assert(s.skip(0) =~= s);
        0
    }
}

/// Where trimming the end of `s` stops: everything after is strippable.
proof fn lemma_strip_end(s: Seq<char>, quotes: bool) -> (b: int)
    ensures
        0 <= b <= s.len(),
        strip_end(s, quotes) == s.take(b),
        forall|j: int| b <= j < s.len() ==> strippable(#[trigger] s[j], quotes),
        b > 0 ==> !strippable(s[b - 1], quotes),
    decreases s.len(),
{
    if s.len() > 0 && strippable(s.last(), quotes) {
        let b = lemma_strip_end(s.drop_last(), quotes);
        assert(s.drop_last().take(b) =~= s.take(b));
        assert forall|j: int| b <= j < s.len() implies strippable(#[trigger] s[j], quotes) by {
            if j < s.len() - 1 {
                assert(s[j] == s.drop_last()[j]);
            }
        }
        assert(b > 0 ==> s[b - 1] == s.drop_last()[b - 1]);
        b
    } else {
        assert(s.take(s.len() as int) =~= s);
        s.len() as int
    }
}

/// Trimming cuts a run of strippable characters (white space, or with
/// `quotes` double quotes) off each end of `s` and nothing else: what is
/// left is a stretch of `s` that neither starts nor ends with one, and
/// everything cut off is strippable.
pub proof fn law_strip(s: Seq<char>, quotes: bool)
    ensures
        exists|a: int, b: int|
            {
                &&& 0 <= a <= b <= s.len()
                &&& strip(s, quotes) == s.subrange(a, b)
                &&& forall|j: int| 0 <= j < a ==> strippable(#[trigger] s[j], quotes)
                &&& forall|j: int| b <= j < s.len() ==> strippable(#[trigger] s[j], quotes)
            },
        strip(s, quotes).len() > 0 ==> !strippable(strip(s, quotes)[0], quotes) && !strippable(
            strip(s, quotes).last(),
            quotes,
        ),
{
    let a = lemma_strip_start(s, quotes);
    let t = s.skip(a);
    let b = lemma_strip_end(t, quotes);
    assert(t.take(b) =~= s.subrange(a, a + b));
    assert forall|j: int| a + b <= j < s.len() implies strippable(#[trigger] s[j], quotes) by {
        assert(s[j] == t[j - a]);
    }
    let r = strip(s, quotes);
    if r.len() > 0 {
        assert(r[0] == s[a]);
        assert(r.last() == t[b - 1]);
    }
}

} // verus!
