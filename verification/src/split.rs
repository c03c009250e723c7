//! Splitting a compact JWT into its dot-separated segments.
//!
//! A well-formed compact token has exactly three segments — header,
//! payload, signature — separated by two dots.  The functions here locate
//! the dots and cut out the payload and signature segments.

use vstd::prelude::*;
use vstd::std_specs::iter::IteratorSpec;

verus! {

broadcast use vstd::string::axiom_spec_iter, vstd::string::next_postcondition;

/// Relies on `String::push`: appends the character to the end of the
/// string.
pub assume_specification[ String::push ](s: &mut String, c: char)
    ensures
        final(s)@ == old(s)@.push(c),
;

/// The position of the first dot at or after `from`, or the length of the
/// text when there is none.
pub open spec fn find_dot(s: Seq<char>, from: int) -> int
    decreases s.len() - from,
{
    if from >= s.len() {
        s.len() as int
    } else if s[from] == '.' {
        from
    } else {
        find_dot(s, from + 1)
    }
}

/// The text has exactly three dot-separated segments (two dots).
pub open spec fn has_three_segments(s: Seq<char>) -> bool {
    let i = find_dot(s, 0);
    let j = find_dot(s, i + 1);
    i < s.len() && j < s.len() && find_dot(s, j + 1) == s.len()
}

/// The middle (payload) segment of a three-segment token.
pub open spec fn message_of(s: Seq<char>) -> Seq<char> {
    let i = find_dot(s, 0);
    let j = find_dot(s, i + 1);
    s.subrange(i + 1, j)
}

/// The final (signature) segment of a three-segment token.
pub open spec fn signature_of(s: Seq<char>) -> Seq<char> {
    let i = find_dot(s, 0);
    let j = find_dot(s, i + 1);
    s.subrange(j + 1, s.len() as int)
}

/// The characters of a text, in order.
pub fn chars_of(s: &str) -> (r: Vec<char>)
    ensures
        r@ == s@,
{
    let mut it = s.chars();
    let mut r: Vec<char> = Vec::new();
    loop
        invariant
            it.obeys_prophetic_iter_laws(),
            it.decrease() is Some,
            r@ + it.remaining() == s@,
        ensures
            r@ == s@,
        decreases it.decrease()->0,
    {
        match it.next() {
            Some(c) => {
                r.push(c);
            },
            None => {
                proof {
                    assert(r@ + it.remaining() =~= r@);
                    assert(r@ =~= s@);
                }
                break ;
            },
        }
    }
    r
}

/// Text equality, decided character by character.
pub fn str_eq(a: &str, b: &str) -> (r: bool)
    ensures
        r == (a@ == b@),
{
    let va = chars_of(a);
    let vb = chars_of(b);
    if va.len() != vb.len() {
        return false;
    }
    let mut i: usize = 0;
    while i < va.len()
        invariant
            i <= va@.len(),
            va@.len() == vb@.len(),
            va@ == a@,
            vb@ == b@,
            forall|j: int| 0 <= j < i ==> va@[j] == vb@[j],
        decreases va@.len() - i,
    {
        if va[i] != vb[i] {
            return false;
        }
        i = i + 1;
    }
    proof {
        assert(a@ =~= b@);
    }
    true
}

/// The position of the first dot at or after `from`, or the text's length.
pub fn find_dot_from(v: &Vec<char>, from: usize) -> (r: usize)
    requires
        from <= v@.len(),
    ensures
        r as int == find_dot(v@, from as int),
        from <= r <= v@.len(),
{
    let mut i = from;
    while i < v.len()
        invariant
            from <= i <= v@.len(),
            find_dot(v@, from as int) == find_dot(v@, i as int),
        decreases v@.len() - i,
    {
        if v[i] == '.' {
            return i;
        }
        i = i + 1;
    }
    i
}

/// The segment `v[from..to]` as a `String`.
pub fn segment_string(v: &Vec<char>, from: usize, to: usize) -> (r: String)
    requires
        from <= to <= v@.len(),
    ensures
        r@ == v@.subrange(from as int, to as int),
{
    let mut out = String::new();
    let mut x = from;
    while x < to
        invariant
            from <= x <= to <= v@.len(),
            out@ == v@.subrange(from as int, x as int),
        decreases to - x,
    {
        out.push(v[x]);
        proof {
            assert(v@.subrange(from as int, x + 1) =~= v@.subrange(from as int, x as int).push(
                v@[x as int],
            ));
        }
        x = x + 1;
    }
    out
}

/// The two dot positions of a three-segment token, or `None` when the
/// token does not have exactly three segments.
pub fn three_segment_dots(v: &Vec<char>) -> (r: Option<(usize, usize)>)
    ensures
        match r {
            Some((i, j)) => has_three_segments(v@) && i < j < v@.len() && i as int == find_dot(
                v@,
                0,
            ) && j as int == find_dot(v@, i + 1),
            None => !has_three_segments(v@),
        },
{
    let i = find_dot_from(v, 0);
    if i >= v.len() {
        return None;
    }
    let j = find_dot_from(v, i + 1);
    if j >= v.len() {
        return None;
    }
    let k = find_dot_from(v, j + 1);
    if k < v.len() {
        return None;
    }
    Some((i, j))
}

} // verus!
