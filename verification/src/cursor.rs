//! Hyprland's answer to `cursorpos`: two numbers separated by a comma. The
//! socket and the numbers themselves are the caller's part.

use vstd::prelude::*;

use crate::text::{chars_of, find, first_at, law_strip, lemma_first_at, string_of, strip, strippable, trim_range};

verus! {

/// The two coordinates in a reply, as text: the reply trimmed, split at
/// its first comma, each side trimmed.
pub open spec fn reply_parts(reply: Seq<char>) -> Option<(Seq<char>, Seq<char>)> {
    let t = strip(reply, false);
    let i = first_at(t, ',');
    if i < t.len() {
        Some((strip(t.take(i), false), strip(t.skip(i + 1), false)))
    } else {
        None
    }
}

/// Split a `cursorpos` reply into the text of its two coordinates.
pub fn split_reply(reply: &str) -> (parts: Option<(String, String)>)
    ensures
        match (parts, reply_parts(reply@)) {
            (Some((x, y)), Some((sx, sy))) => x@ == sx && y@ == sy,
            (None, None) => true,
            _ => false,
        },
{
    let v = chars_of(reply);
    let len = v.len();
    proof {
        assert(v@.subrange(0, len as int) =~= v@);
    }
    let (a, b) = trim_range(&v, 0, len, false);
    let ghost t = v@.subrange(a as int, b as int);
    let c = find(&v, a, b, ',');
    proof {
        lemma_first_at(t, ',');
    }
    if c < b {
        proof {
            assert(t.take(c - a) =~= v@.subrange(a as int, c as int));
            assert(t.skip(c - a + 1) =~= v@.subrange(c + 1, b as int));
        }
        let (xa, xb) = trim_range(&v, a, c, false);
        let (ya, yb) = trim_range(&v, c + 1, b, false);
        Some((string_of(&v, xa, xb), string_of(&v, ya, yb)))
    } else {
        None
    }
}

/// A reply splits exactly when it holds a comma. The first coordinate is
/// the text before the first comma, so it holds none; both are trimmed of
/// white space, and the second is what follows that comma.
pub proof fn law_reply_parts(reply: Seq<char>)
    ensures
        reply_parts(reply) is Some <==> exists|j: int| 0 <= j < reply.len() && reply[j] == ',',
        reply_parts(reply) matches Some((x, y)) ==> {
            &&& forall|j: int| 0 <= j < x.len() ==> #[trigger] x[j] != ','
            &&& x.len() > 0 ==> !strippable(x[0], false) && !strippable(x.last(), false)
            &&& y.len() > 0 ==> !strippable(y[0], false) && !strippable(y.last(), false)
        },
{
    law_strip(reply, false);
    let t = strip(reply, false);
    let (a, b) = choose|a: int, b: int|
        {
            &&& 0 <= a <= b <= reply.len()
            &&& strip(reply, false) == reply.subrange(a, b)
            &&& forall|j: int| 0 <= j < a ==> strippable(#[trigger] reply[j], false)
            &&& forall|j: int| b <= j < reply.len() ==> strippable(#[trigger] reply[j], false)
        };
    let i = first_at(t, ',');
    lemma_first_at(t, ',');
    if exists|j: int| 0 <= j < reply.len() && reply[j] == ',' {
        let j = choose|j: int| 0 <= j < reply.len() && reply[j] == ',';
        assert(!strippable(reply[j], false));
        assert(a <= j < b);
        assert(t[j - a] == ',');
    }
    if i < t.len() {
        assert(reply[a + i] == t[i]);
        let k = t.take(i);
        law_strip(k, false);
        law_strip(t.skip(i + 1), false);
        let x = strip(k, false);
        assert forall|j: int| 0 <= j < x.len() implies #[trigger] x[j] != ',' by {
            let (c, d) = choose|c: int, d: int|
                {
                    &&& 0 <= c <= d <= k.len()
                    &&& strip(k, false) == k.subrange(c, d)
                    &&& forall|j: int| 0 <= j < c ==> strippable(#[trigger] k[j], false)
                    &&& forall|j: int| d <= j < k.len() ==> strippable(#[trigger] k[j], false)
                };
            assert(x[j] == t[c + j]);
        }
    }
}

} // verus!
