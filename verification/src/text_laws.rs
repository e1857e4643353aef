//! Laws on texts: white space, blank texts and lower case.

use crate::text::{ascii_lower, is_blank, is_space, trimmed, trimmed_end, trimmed_start};
use vstd::prelude::*;

verus! {

/// Whether a text is made of white space alone.
pub open spec fn is_all_space(s: Seq<char>) -> bool {
    forall|i: int| 0 <= i < s.len() ==> is_space(#[trigger] s[i])
}

/// Among the ASCII characters, the blank, the tab, the line feed, the carriage return and the two
/// other feeds are white space, and no others.
pub proof fn ascii_white_space(c: char)
    requires
        c as u32 <= 0x7f,
    ensures
        is_space(c) <==> c == ' ' || c == '\t' || c == '\n' || c == '\r' || c as u32 == 0xb
            || c as u32 == 0xc,
{
}

proof fn start_is_cut(s: Seq<char>) -> (front: Seq<char>)
    ensures
        s == front + trimmed_start(s),
        is_all_space(front),
        trimmed_start(s).len() > 0 ==> !is_space(trimmed_start(s)[0]),
    decreases s.len(),
{
    if s.len() > 0 && is_space(s[0]) {
        let rest = start_is_cut(s.skip(1));
        let front = seq![s[0]] + rest;
        assert(s =~= seq![s[0]] + s.skip(1));
        assert(s =~= front + trimmed_start(s));
        front
    } else {
        assert(s =~= Seq::<char>::empty() + s);
        Seq::empty()
    }
}

proof fn end_is_cut(s: Seq<char>) -> (back: Seq<char>)
    ensures
        s == trimmed_end(s) + back,
        is_all_space(back),
        trimmed_end(s).len() > 0 ==> !is_space(trimmed_end(s).last()),
    decreases s.len(),
{
    if s.len() > 0 && is_space(s.last()) {
        let rest = end_is_cut(s.drop_last());
        let back = rest.push(s.last());
        assert(s =~= s.drop_last().push(s.last()));
        assert(s =~= trimmed_end(s) + back);
        back
    } else {
        assert(s =~= s + Seq::<char>::empty());
        Seq::empty()
    }
}

/// What is left of a trimmed text stands in it between white space, and neither begins nor ends
/// with any.
pub proof fn trimming_cuts_white_space(s: Seq<char>)
    ensures
        exists|front: Seq<char>, back: Seq<char>|
            s == #[trigger] (front + trimmed(s) + back) && is_all_space(front) && is_all_space(
                back,
            ),
        trimmed(s).len() > 0 ==> !is_space(trimmed(s)[0]) && !is_space(trimmed(s).last()),
{
    let front = start_is_cut(s);
    let back = end_is_cut(trimmed_start(s));
    assert(s =~= front + trimmed(s) + back);
    if trimmed(s).len() > 0 {
        assert(trimmed(s)[0] == trimmed_start(s)[0]);
    }
}

/// A text is blank exactly if it is made of white space alone.
pub proof fn blank_is_all_space(s: Seq<char>)
    ensures
        is_blank(s) <==> is_all_space(s),
{
    trimming_cuts_white_space(s);
    let (front, back) = choose|front: Seq<char>, back: Seq<char>|
        s == #[trigger] (front + trimmed(s) + back) && is_all_space(front) && is_all_space(back);
    if is_blank(s) {
        assert(s =~= front + back);
    } else {
        assert(s[front.len() as int] == trimmed(s)[0]);
    }
}

/// In lower case a text has the same length; its capital letters became the small ones, and
/// everything else stayed.
pub proof fn lower_case_keeps_the_rest(s: Seq<char>, i: int)
    requires
        0 <= i < s.len(),
    ensures
        ascii_lower(s).len() == s.len(),
        'A' <= s[i] <= 'Z' ==> 'a' <= ascii_lower(s)[i] <= 'z' && ascii_lower(s)[i] as u32
            - 'a' as u32 == s[i] as u32 - 'A' as u32,
        !('A' <= s[i] <= 'Z') ==> ascii_lower(s)[i] == s[i],
        ascii_lower(ascii_lower(s)) == ascii_lower(s),
{
    assert forall|k: int| 0 <= k < s.len() implies ascii_lower(ascii_lower(s))[k]
        == #[trigger] ascii_lower(s)[k] by {}
    assert(ascii_lower(ascii_lower(s)) =~= ascii_lower(s));
}

} // verus!
