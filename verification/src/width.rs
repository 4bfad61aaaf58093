//! Display-column widths of characters and strings, as a terminal renders
//! them: most characters take one column, East-Asian wide characters take
//! two, one Khmer sign takes three, and combining marks and control
//! characters take none.

use vstd::prelude::*;

verus! {

/// The number of terminal columns one character occupies.
pub uninterp spec fn char_col_width(c: char) -> nat;

/// Relies on `unicode_width::UnicodeWidthChar::width`: the width is a
/// function of the character alone, is at most 3 (only the Khmer sign
/// beyyal reaches 3), is 1 for printable ASCII, and is `None` only for
/// control characters (counted as 0 here).
#[verifier::external_body]
pub fn char_width(c: char) -> (w: usize)
    ensures
        w == char_col_width(c),
        w <= 3,
        0x20 <= (c as u32) < 0x7f ==> w == 1,
{
    unicode_width::UnicodeWidthChar::width(c).unwrap_or(0)
}

/// The display width of a character sequence: the sum of its characters'
/// column widths.
pub open spec fn spec_display_width(s: Seq<char>) -> nat
    decreases s.len(),
{
    if s.len() == 0 {
        0
    } else {
        char_col_width(s[0]) + spec_display_width(s.drop_first())
    }
}

pub broadcast proof fn lemma_display_width_push(s: Seq<char>, c: char)
    ensures
        #[trigger] spec_display_width(s.push(c)) == spec_display_width(s) + char_col_width(c),
    decreases s.len(),
{
    let t = s.push(c);
    assert(t.len() == s.len() + 1);
    assert(spec_display_width(t) == char_col_width(t[0]) + spec_display_width(t.drop_first()));
    if s.len() == 0 {
        assert(t[0] == c);
        assert(t.drop_first() =~= Seq::<char>::empty());
        assert(spec_display_width(t.drop_first()) == 0);
    } else {
        assert(t[0] == s[0]);
        assert(t.drop_first() =~= s.drop_first().push(c));
        lemma_display_width_push(s.drop_first(), c);
        assert(spec_display_width(s) == char_col_width(s[0]) + spec_display_width(s.drop_first()));
    }
}

/// The display width of `v`, saturated to `u16::MAX`.
pub fn display_width_u16(v: &Vec<char>) -> (w: u16)
    ensures
        w == if spec_display_width(v@) > 0xffff {
            0xffffnat
        } else {
            spec_display_width(v@)
        },
{
    broadcast use lemma_display_width_push;

    let n = v.len();
    let mut acc: u32 = 0;
    for k in 0..n
        invariant
            n == v@.len(),
            acc == if spec_display_width(v@.take(k as int)) > 0x10000 {
                0x10000nat
            } else {
                spec_display_width(v@.take(k as int))
            },
    {
        let cw = char_width(v[k]);
        proof {
            lemma_display_width_push(v@.take(k as int), v@[k as int]);
            assert(v@.take(k as int).push(v@[k as int]) =~= v@.take(k + 1));
            assert(spec_display_width(v@.take(k + 1)) == spec_display_width(v@.take(k as int))
                + char_col_width(v@[k as int]));
        }
        if acc < 0x10000 {
            acc = acc + (cw as u32);
            if acc > 0x10000 {
                acc = 0x10000;
            }
        }
    }
    assert(v@.take(n as int) =~= v@);
    if acc > 0xffff {
        0xffff
    } else {
        acc as u16
    }
}

} // verus!
