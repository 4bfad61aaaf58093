//! Character and string helpers: ASCII classification, case folding,
//! decimal rendering, and conversion between `&str` and `Vec<char>`.

use vstd::prelude::*;

verus! {

/// Relies on `char::from_u32` from std: `Some` exactly on Unicode scalar
/// values, returning the character with that value.
pub assume_specification[ char::from_u32 ](v: u32) -> (r: Option<char>)
    ensures
        r is Some <==> vstd::utf8::is_scalar(v),
        r matches Some(c) ==> (c as u32) == v,
;

/// ASCII decimal digit `0`..=`9`.
pub open spec fn spec_is_ascii_digit(c: char) -> bool {
    0x30 <= (c as u32) && (c as u32) <= 0x39
}

/// ASCII letter `A`..=`Z` or `a`..=`z`.
pub open spec fn spec_is_ascii_alpha(c: char) -> bool {
    (0x41 <= (c as u32) && (c as u32) <= 0x5a) || (0x61 <= (c as u32) && (c as u32) <= 0x7a)
}

/// ASCII letter or digit.
pub open spec fn spec_is_ascii_alnum(c: char) -> bool {
    spec_is_ascii_digit(c) || spec_is_ascii_alpha(c)
}

/// Unicode `White_Space` characters.
pub open spec fn spec_is_whitespace(c: char) -> bool {
    ||| (0x09 <= (c as u32) && (c as u32) <= 0x0d)
    ||| (c as u32) == 0x20
    ||| (c as u32) == 0x85
    ||| (c as u32) == 0xa0
    ||| (c as u32) == 0x1680
    ||| (0x2000 <= (c as u32) && (c as u32) <= 0x200a)
    ||| (c as u32) == 0x2028
    ||| (c as u32) == 0x2029
    ||| (c as u32) == 0x202f
    ||| (c as u32) == 0x205f
    ||| (c as u32) == 0x3000
}

/// ASCII upper-case letters folded to lower case; all else unchanged.
pub open spec fn spec_ascii_lower(c: char) -> char {
    if 0x41 <= (c as u32) && (c as u32) <= 0x5a {
        (((c as u32) + 0x20) as char)
    } else {
        c
    }
}

/// ASCII lower-case letters folded to upper case; all else unchanged.
pub open spec fn spec_ascii_upper(c: char) -> char {
    if 0x61 <= (c as u32) && (c as u32) <= 0x7a {
        (((c as u32) - 0x20) as char)
    } else {
        c
    }
}

/// A whole sequence folded to ASCII lower case.
pub open spec fn spec_lower_seq(s: Seq<char>) -> Seq<char> {
    s.map_values(|c: char| spec_ascii_lower(c))
}

pub fn is_ascii_digit_char(c: char) -> (r: bool)
    ensures
        r == spec_is_ascii_digit(c),
{
    let u = c as u32;
    0x30 <= u && u <= 0x39
}

pub fn is_ascii_alpha_char(c: char) -> (r: bool)
    ensures
        r == spec_is_ascii_alpha(c),
{
    let u = c as u32;
    (0x41 <= u && u <= 0x5a) || (0x61 <= u && u <= 0x7a)
}

pub fn is_ascii_alnum_char(c: char) -> (r: bool)
    ensures
        r == spec_is_ascii_alnum(c),
{
    is_ascii_digit_char(c) || is_ascii_alpha_char(c)
}

pub fn is_whitespace_char(c: char) -> (r: bool)
    ensures
        r == spec_is_whitespace(c),
{
    let u = c as u32;
    (0x09 <= u && u <= 0x0d) || u == 0x20 || u == 0x85 || u == 0xa0 || u == 0x1680 || (0x2000 <= u
        && u <= 0x200a) || u == 0x2028 || u == 0x2029 || u == 0x202f || u == 0x205f || u == 0x3000
}

pub fn ascii_lower_char(c: char) -> (r: char)
    ensures
        r == spec_ascii_lower(c),
{
    let u = c as u32;
    if 0x41 <= u && u <= 0x5a {
        assert(vstd::utf8::is_scalar((u + 0x20) as u32));
        match char::from_u32(u + 0x20) {
            Some(r) => {
                proof {
                    vstd::utf8::char_u32_cast(r, (u + 0x20) as u32);
                }
                r
            },
            None => c,
        }
    } else {
        c
    }
}

pub fn ascii_upper_char(c: char) -> (r: char)
    ensures
        r == spec_ascii_upper(c),
{
    let u = c as u32;
    if 0x61 <= u && u <= 0x7a {
        assert(vstd::utf8::is_scalar((u - 0x20) as u32));
        match char::from_u32(u - 0x20) {
            Some(r) => {
                proof {
                    vstd::utf8::char_u32_cast(r, (u - 0x20) as u32);
                }
                r
            },
            None => c,
        }
    } else {
        c
    }
}

/// The characters of `s`, in order, as a vector.
pub fn chars_of(s: &str) -> (v: Vec<char>)
    ensures
        v@ == s@,
{
    let n = s.unicode_len();
    let mut v: Vec<char> = Vec::new();
    for i in 0..n
        invariant
            n == s@.len(),
            v@ == s@.take(i as int),
    {
        v.push(s.get_char(i));
        assert(v@ =~= s@.take(i + 1));
    }
    assert(v@ =~= s@);
    v
}

/// Relies on `String::push` from std: appends one character.
#[verifier::external_body]
pub fn push_char(s: &mut String, c: char)
    ensures
        final(s)@ == old(s)@ + seq![c],
{
    s.push(c)
}

/// The string holding exactly the characters of `v`.
pub fn string_of(v: &Vec<char>) -> (s: String)
    ensures
        s@ == v@,
{
    let mut s = String::new();
    let n = v.len();
    for i in 0..n
        invariant
            n == v@.len(),
            s@ == v@.take(i as int),
    {
        push_char(&mut s, v[i]);
        assert(s@ =~= v@.take(i + 1));
    }
    assert(s@ =~= v@);
    s
}

/// Leading whitespace removed.
pub open spec fn spec_trim_start(s: Seq<char>) -> Seq<char>
    decreases s.len(),
{
    if s.len() > 0 && spec_is_whitespace(s[0]) {
        spec_trim_start(s.drop_first())
    } else {
        s
    }
}

/// Trailing whitespace removed.
pub open spec fn spec_trim_end(s: Seq<char>) -> Seq<char>
    decreases s.len(),
{
    if s.len() > 0 && spec_is_whitespace(s[s.len() - 1]) {
        spec_trim_end(s.drop_last())
    } else {
        s
    }
}

/// Leading and trailing whitespace removed.
pub open spec fn spec_trim(s: Seq<char>) -> Seq<char> {
    spec_trim_end(spec_trim_start(s))
}

pub proof fn lemma_trim_start_skip(s: Seq<char>, i: int)
    requires
        0 <= i < s.len(),
        spec_is_whitespace(s[i]),
    ensures
        spec_trim_start(s.skip(i)) == spec_trim_start(s.skip(i + 1)),
{
    assert(s.skip(i).len() > 0);
    assert(s.skip(i)[0] == s[i]);
    assert(s.skip(i).drop_first() =~= s.skip(i + 1));
}

proof fn lemma_trim_end_take(s: Seq<char>, j: int)
    requires
        0 < j <= s.len(),
        spec_is_whitespace(s[j - 1]),
    ensures
        spec_trim_end(s.take(j)) == spec_trim_end(s.take(j - 1)),
{
    assert(s.take(j).len() == j);
    assert(s.take(j)[j - 1] == s[j - 1]);
    assert(s.take(j).drop_last() =~= s.take(j - 1));
}

/// The characters of `v` with leading and trailing whitespace removed.
pub fn trim_chars(v: &Vec<char>) -> (r: Vec<char>)
    ensures
        r@ == spec_trim(v@),
{
    let n = v.len();
    let mut i: usize = 0;
    assert(v@.skip(0) =~= v@);
    while i < n && is_whitespace_char(v[i])
        invariant
            n == v@.len(),
            i <= n,
            spec_trim_start(v@) == spec_trim_start(v@.skip(i as int)),
        decreases n - i,
    {
        proof {
            lemma_trim_start_skip(v@, i as int);
        }
        i = i + 1;
    }
    assert(v@.skip(i as int).len() == 0 || !spec_is_whitespace(v@.skip(i as int)[0]));
    assert(spec_trim_start(v@) == v@.skip(i as int));
    let ghost t = v@.skip(i as int);
    let mut j: usize = n;
    assert(t.take((n - i) as int) =~= t);
    while j > i && is_whitespace_char(v[j - 1])
        invariant
            n == v@.len(),
            i <= j <= n,
            t == v@.skip(i as int),
            spec_trim_end(t) == spec_trim_end(t.take(j - i)),
        decreases j,
    {
        proof {
            assert(t.take(j - i)[j - i - 1] == v@[j - 1]);
            lemma_trim_end_take(t, j - i);
        }
        j = j - 1;
    }
    proof {
        let u = t.take(j - i);
        assert(u.len() == 0 || u[u.len() - 1] == v@[j - 1]);
        assert(spec_trim_end(t) == u);
    }
    let mut r: Vec<char> = Vec::new();
    let mut k: usize = i;
    while k < j
        invariant
            i <= k <= j <= n,
            n == v@.len(),
            r@ == v@.subrange(i as int, k as int),
        decreases j - k,
    {
        r.push(v[k]);
        assert(r@ =~= v@.subrange(i as int, k + 1));
        k = k + 1;
    }
    assert(r@ =~= v@.skip(i as int).take(j - i));
    r
}

/// The characters of `v` with trailing whitespace removed.
pub fn trim_end_chars(v: &Vec<char>) -> (r: Vec<char>)
    ensures
        r@ == spec_trim_end(v@),
{
    let n = v.len();
    let mut j: usize = n;
    assert(v@.take(n as int) =~= v@);
    while j > 0 && is_whitespace_char(v[j - 1])
        invariant
            j <= n,
            n == v@.len(),
            spec_trim_end(v@) == spec_trim_end(v@.take(j as int)),
        decreases j,
    {
        proof {
            lemma_trim_end_take(v@, j as int);
        }
        j = j - 1;
    }
    proof {
        let u = v@.take(j as int);
        assert(u.len() == 0 || u[u.len() - 1] == v@[j - 1]);
        assert(spec_trim_end(v@) == u);
    }
    let r = sub_chars(v, 0, j);
    assert(r@ =~= v@.take(j as int));
    r
}

/// A text whose trim is non-empty is not all whitespace.
pub proof fn lemma_trim_nonempty(s: Seq<char>)
    requires
        spec_trim(s).len() > 0,
    ensures
        !spec_all_whitespace(s),
{
    lemma_trim_start_sub(s);
    let t = spec_trim_start(s);
    lemma_trim_end_sub(t);
    let u = spec_trim_end(t);
    assert(u.len() > 0);
    let x = u[u.len() - 1];
    assert(!spec_is_whitespace(x));
    assert(t.contains(x));
    let j = choose|j: int| 0 <= j < t.len() && t[j] == x;
    assert(s.contains(t[j]));
    let i = choose|i: int| 0 <= i < s.len() && s[i] == t[j];
    assert(!spec_is_whitespace(s[i]));
}

/// `spec_trim_start` yields a suffix whose elements come from `s`.
proof fn lemma_trim_start_sub(s: Seq<char>)
    ensures
        forall|i: int|
            0 <= i < spec_trim_start(s).len() ==> s.contains(#[trigger] spec_trim_start(s)[i]),
    decreases s.len(),
{
    if s.len() > 0 && spec_is_whitespace(s[0]) {
        lemma_trim_start_sub(s.drop_first());
        assert(spec_trim_start(s) == spec_trim_start(s.drop_first()));
        assert forall|i: int|
            0 <= i < spec_trim_start(s).len() implies s.contains(
            #[trigger] spec_trim_start(s)[i],
        ) by {
            assert(s.drop_first().contains(spec_trim_start(s.drop_first())[i]));
            assert(s.drop_first().contains(spec_trim_start(s)[i]));
            let j = choose|j: int|
                0 <= j < s.drop_first().len() && s.drop_first()[j] == spec_trim_start(s)[i];
            assert(s[j + 1] == spec_trim_start(s)[i]);
        }
    } else {
        assert forall|i: int|
            0 <= i < spec_trim_start(s).len() implies s.contains(
            #[trigger] spec_trim_start(s)[i],
        ) by {
            assert(s[i] == spec_trim_start(s)[i]);
        }
    }
}

/// The last element of a non-empty `spec_trim_end` is not whitespace, and
/// its elements come from `s`.
proof fn lemma_trim_end_sub(s: Seq<char>)
    ensures
        spec_trim_end(s).len() > 0 ==> !spec_is_whitespace(
            spec_trim_end(s)[spec_trim_end(s).len() - 1],
        ),
        forall|i: int|
            0 <= i < spec_trim_end(s).len() ==> s.contains(#[trigger] spec_trim_end(s)[i]),
    decreases s.len(),
{
    if s.len() > 0 && spec_is_whitespace(s[s.len() - 1]) {
        lemma_trim_end_sub(s.drop_last());
        assert(spec_trim_end(s) == spec_trim_end(s.drop_last()));
        assert forall|i: int|
            0 <= i < spec_trim_end(s).len() implies s.contains(#[trigger] spec_trim_end(s)[i]) by {
            assert(s.drop_last().contains(spec_trim_end(s.drop_last())[i]));
            assert(s.drop_last().contains(spec_trim_end(s)[i]));
            let j = choose|j: int|
                0 <= j < s.drop_last().len() && s.drop_last()[j] == spec_trim_end(s)[i];
            assert(s[j] == spec_trim_end(s)[i]);
        }
    } else {
        assert forall|i: int|
            0 <= i < spec_trim_end(s).len() implies s.contains(#[trigger] spec_trim_end(s)[i]) by {
            assert(s[i] == spec_trim_end(s)[i]);
        }
    }
}

/// True when every character of `s` is whitespace.
pub open spec fn spec_all_whitespace(s: Seq<char>) -> bool {
    forall|i: int| 0 <= i < s.len() ==> spec_is_whitespace(s[i])
}

/// Whether every character of `v` is whitespace.
pub fn all_whitespace(v: &Vec<char>) -> (r: bool)
    ensures
        r == spec_all_whitespace(v@),
{
    let n = v.len();
    for k in 0..n
        invariant
            n == v@.len(),
            forall|i: int| 0 <= i < k ==> spec_is_whitespace(v@[i]),
    {
        if !is_whitespace_char(v[k]) {
            return false;
        }
    }
    true
}

/// Whether `v` holds the character `c`.
pub fn contains_char(v: &Vec<char>, c: char) -> (r: bool)
    ensures
        r == v@.contains(c),
{
    let n = v.len();
    for k in 0..n
        invariant
            n == v@.len(),
            forall|i: int| 0 <= i < k ==> v@[i] != c,
    {
        if v[k] == c {
            return true;
        }
    }
    false
}

/// The characters `[s, e)` of `v`.
pub fn sub_chars(v: &Vec<char>, s: usize, e: usize) -> (r: Vec<char>)
    requires
        s <= e <= v@.len(),
    ensures
        r@ == v@.subrange(s as int, e as int),
{
    let mut out: Vec<char> = Vec::new();
    for k in s..e
        invariant
            s <= e <= v@.len(),
            out@ =~= v@.subrange(s as int, k as int),
    {
        out.push(v[k]);
        assert(out@ =~= v@.subrange(s as int, k + 1));
    }
    assert(out@ =~= v@.subrange(s as int, e as int));
    out
}

/// Whether `v` holds exactly the characters of `s`.
pub fn chars_eq_str(v: &Vec<char>, s: &str) -> (r: bool)
    ensures
        r == (v@ == s@),
{
    let n = s.unicode_len();
    if v.len() != n {
        return false;
    }
    for i in 0..n
        invariant
            n == s@.len(),
            n == v@.len(),
            forall|j: int| 0 <= j < i ==> v@[j] == s@[j],
    {
        if v[i] != s.get_char(i) {
            return false;
        }
    }
    assert(v@ =~= s@);
    true
}

/// `v` folded to ASCII lower case.
pub fn lower_chars(v: &Vec<char>) -> (r: Vec<char>)
    ensures
        r@ == spec_lower_seq(v@),
{
    let n = v.len();
    let mut r: Vec<char> = Vec::new();
    for i in 0..n
        invariant
            n == v@.len(),
            r@ =~= v@.take(i as int).map_values(|c: char| spec_ascii_lower(c)),
    {
        r.push(ascii_lower_char(v[i]));
        assert(r@ =~= v@.take(i + 1).map_values(|c: char| spec_ascii_lower(c)));
    }
    assert(v@.take(n as int) =~= v@);
    r
}

/// Splitting on `sep`, with `cur` the piece gathered so far.
pub open spec fn spec_split_rec(s: Seq<char>, sep: char, cur: Seq<char>) -> Seq<Seq<char>>
    decreases s.len(),
{
    if s.len() == 0 {
        seq![cur]
    } else if s[0] == sep {
        seq![cur] + spec_split_rec(s.drop_first(), sep, Seq::empty())
    } else {
        spec_split_rec(s.drop_first(), sep, cur.push(s[0]))
    }
}

/// The pieces of `s` between occurrences of `sep`; adjacent separators
/// yield empty pieces, as `str::split` does.
pub open spec fn spec_split(s: Seq<char>, sep: char) -> Seq<Seq<char>> {
    spec_split_rec(s, sep, Seq::empty())
}

/// Splits `v` on `sep`.
pub fn split_char(v: &Vec<char>, sep: char) -> (r: Vec<Vec<char>>)
    ensures
        r@.map_values(|p: Vec<char>| p@) == spec_split(v@, sep),
{
    let ghost whole = spec_split(v@, sep);
    let n = v.len();
    let mut res: Vec<Vec<char>> = Vec::new();
    let mut cur: Vec<char> = Vec::new();
    assert(v@.skip(0) =~= v@);
    for i in 0..n
        invariant
            n == v@.len(),
            whole == spec_split(v@, sep),
            whole =~= res@.map_values(|p: Vec<char>| p@) + spec_split_rec(
                v@.skip(i as int),
                sep,
                cur@,
            ),
    {
        proof {
            assert(v@.skip(i as int)[0] == v@[i as int]);
            assert(v@.skip(i as int).drop_first() =~= v@.skip(i + 1));
        }
        if v[i] == sep {
            res.push(cur);
            cur = Vec::new();
            assert(res@.map_values(|p: Vec<char>| p@) =~= res@.drop_last().map_values(
                |p: Vec<char>| p@,
            ).push(res@.last()@));
        } else {
            cur.push(v[i]);
        }
    }
    proof {
        assert(v@.skip(n as int).len() == 0);
        assert(spec_split_rec(v@.skip(n as int), sep, cur@) == seq![cur@]);
    }
    res.push(cur);
    assert(res@.map_values(|p: Vec<char>| p@) =~= res@.drop_last().map_values(|p: Vec<char>| p@)
        + seq![res@.last()@]);
    res
}

/// Splitting on whitespace, with `cur` the token gathered so far; empty
/// tokens are not kept.
pub open spec fn spec_split_ws_rec(s: Seq<char>, cur: Seq<char>) -> Seq<Seq<char>>
    decreases s.len(),
{
    if s.len() == 0 {
        if cur.len() > 0 {
            seq![cur]
        } else {
            Seq::empty()
        }
    } else if spec_is_whitespace(s[0]) {
        (if cur.len() > 0 {
            seq![cur]
        } else {
            Seq::empty()
        }) + spec_split_ws_rec(s.drop_first(), Seq::empty())
    } else {
        spec_split_ws_rec(s.drop_first(), cur.push(s[0]))
    }
}

/// The maximal whitespace-free runs of `s`, as `str::split_whitespace`.
pub open spec fn spec_split_ws(s: Seq<char>) -> Seq<Seq<char>> {
    spec_split_ws_rec(s, Seq::empty())
}

/// Splits `v` into whitespace-separated tokens.
pub fn split_whitespace_chars(v: &Vec<char>) -> (r: Vec<Vec<char>>)
    ensures
        r@.map_values(|p: Vec<char>| p@) == spec_split_ws(v@),
{
    let ghost whole = spec_split_ws(v@);
    let n = v.len();
    let mut res: Vec<Vec<char>> = Vec::new();
    let mut cur: Vec<char> = Vec::new();
    assert(v@.skip(0) =~= v@);
    for i in 0..n
        invariant
            n == v@.len(),
            whole == spec_split_ws(v@),
            whole =~= res@.map_values(|p: Vec<char>| p@) + spec_split_ws_rec(
                v@.skip(i as int),
                cur@,
            ),
    {
        proof {
            assert(v@.skip(i as int)[0] == v@[i as int]);
            assert(v@.skip(i as int).drop_first() =~= v@.skip(i + 1));
        }
        if is_whitespace_char(v[i]) {
            if cur.len() > 0 {
                res.push(cur);
                cur = Vec::new();
                assert(res@.map_values(|p: Vec<char>| p@) =~= res@.drop_last().map_values(
                    |p: Vec<char>| p@,
                ).push(res@.last()@));
            } else {
                proof {
                    assert(spec_split_ws_rec(v@.skip(i as int), cur@) =~= Seq::<
                        Seq<char>,
                    >::empty() + spec_split_ws_rec(v@.skip(i + 1), Seq::empty()));
                    assert(Seq::<Seq<char>>::empty() + spec_split_ws_rec(
                        v@.skip(i + 1),
                        Seq::empty(),
                    ) =~= spec_split_ws_rec(v@.skip(i + 1), Seq::empty()));
                    assert(cur@ =~= Seq::<char>::empty());
                }
            }
        } else {
            cur.push(v[i]);
        }
    }
    proof {
        assert(v@.skip(n as int).len() == 0);
    }
    if cur.len() > 0 {
        res.push(cur);
        assert(res@.map_values(|p: Vec<char>| p@) =~= res@.drop_last().map_values(
            |p: Vec<char>| p@,
        ) + seq![res@.last()@]);
    }
    res
}

/// The decimal digit character for `d`.
pub open spec fn spec_digit_char(d: int) -> char {
    if d == 0 {
        '0'
    } else if d == 1 {
        '1'
    } else if d == 2 {
        '2'
    } else if d == 3 {
        '3'
    } else if d == 4 {
        '4'
    } else if d == 5 {
        '5'
    } else if d == 6 {
        '6'
    } else if d == 7 {
        '7'
    } else if d == 8 {
        '8'
    } else {
        '9'
    }
}

/// Decimal rendering of a natural number, most significant digit first.
pub open spec fn spec_dec(n: nat) -> Seq<char>
    decreases n,
{
    if n < 10 {
        seq![spec_digit_char(n as int)]
    } else {
        spec_dec(n / 10) + seq![spec_digit_char((n % 10) as int)]
    }
}

fn digit_char(d: u64) -> (c: char)
    requires
        d < 10,
    ensures
        c == spec_digit_char(d as int),
{
    if d == 0 {
        '0'
    } else if d == 1 {
        '1'
    } else if d == 2 {
        '2'
    } else if d == 3 {
        '3'
    } else if d == 4 {
        '4'
    } else if d == 5 {
        '5'
    } else if d == 6 {
        '6'
    } else if d == 7 {
        '7'
    } else if d == 8 {
        '8'
    } else {
        '9'
    }
}

/// The decimal digits of `n` appended to `out`.
pub fn push_dec_u64(out: &mut Vec<char>, n: u64)
    ensures
        final(out)@ == old(out)@ + spec_dec(n as nat),
    decreases n,
{
    if n < 10 {
        out.push(digit_char(n));
    } else {
        push_dec_u64(out, n / 10);
        out.push(digit_char(n % 10));
        assert(final(out)@ =~= old(out)@ + spec_dec(n as nat));
    }
}

/// The ASCII byte of a decimal digit.
pub open spec fn spec_digit_byte(d: int) -> u8 {
    (0x30 + d) as u8
}

/// Decimal rendering of a natural number as ASCII bytes.
pub open spec fn spec_dec_bytes(n: nat) -> Seq<u8>
    decreases n,
{
    if n < 10 {
        seq![spec_digit_byte(n as int)]
    } else {
        spec_dec_bytes(n / 10) + seq![spec_digit_byte((n % 10) as int)]
    }
}

/// The decimal digits of `n`, as ASCII bytes, appended to `out`.
pub fn push_dec_bytes_u64(out: &mut Vec<u8>, n: u64)
    ensures
        final(out)@ == old(out)@ + spec_dec_bytes(n as nat),
    decreases n,
{
    if n < 10 {
        out.push(0x30 + (n as u8));
    } else {
        push_dec_bytes_u64(out, n / 10);
        out.push(0x30 + ((n % 10) as u8));
        assert(final(out)@ =~= old(out)@ + spec_dec_bytes(n as nat));
    }
}


} // verus!
