//! Character-level text utilities.
//!
//! Paths, file names, front-matter blocks and dates are all modelled as
//! sequences of characters.  This module holds the spec-level vocabulary for
//! them (splitting, joining, trimming, digit runs, case mapping) together
//! with the verified executable routines that the rest of the crate builds
//! its parsers and formatters from.

use vstd::prelude::*;

verus! {

/// Appends one character to a string.
///
/// Relies on `String::push`: the pushed character becomes the last
/// character of the string.
#[verifier::external_body]
pub fn push_char(s: &mut String, c: char)
    ensures
        final(s)@ == old(s)@.push(c),
{
    s.push(c);
}

/// The characters of a string slice, as a vector.
pub fn to_chars(s: &str) -> (r: Vec<char>)
    ensures
        r@ == s@,
{
    let n = s.unicode_len();
    let mut r: Vec<char> = Vec::new();
    let mut i: usize = 0;
    while i < n
        invariant
            n == s@.len(),
            i <= n,
            r@ == s@.take(i as int),
        decreases n - i,
    {
        r.push(s.get_char(i));
        i = i + 1;
        proof {
            assert(r@ =~= s@.take(i as int));
        }
    }
    proof {
        assert(r@ =~= s@);
    }
    r
}

/// A string holding exactly the given characters.
pub fn from_chars(v: &Vec<char>) -> (r: String)
    ensures
        r@ == v@,
{
    let mut r = String::new();
    let mut i: usize = 0;
    while i < v.len()
        invariant
            i <= v@.len(),
            r@ == v@.take(i as int),
        decreases v@.len() - i,
    {
        push_char(&mut r, v[i]);
        i = i + 1;
        proof {
            assert(r@ =~= v@.take(i as int));
        }
    }
    proof {
        assert(r@ =~= v@);
    }
    r
}

/// Whether two string slices hold the same characters.
pub fn str_eq(a: &str, b: &str) -> (r: bool)
    ensures
        r == (a@ == b@),
{
    let s = a.to_owned();
    let t = b.to_owned();
    s == t
}

/// The characters of `s` from `from` (inclusive) to `to` (exclusive).
pub fn subvec(s: &Vec<char>, from: usize, to: usize) -> (r: Vec<char>)
    requires
        from <= to <= s@.len(),
    ensures
        r@ == s@.subrange(from as int, to as int),
{
    let mut r: Vec<char> = Vec::new();
    let mut i: usize = from;
    while i < to
        invariant
            from <= i <= to <= s@.len(),
            r@ == s@.subrange(from as int, i as int),
        decreases to - i,
    {
        r.push(s[i]);
        i = i + 1;
        proof {
            assert(r@ =~= s@.subrange(from as int, i as int));
        }
    }
    r
}

/// Uppercase image of an ASCII letter; other characters are unchanged.
pub open spec fn upper_char(c: char) -> char {
    if 'a' <= c && c <= 'z' {
        (((c as u8) - 32) as u8) as char
    } else {
        c
    }
}

/// Lowercase image of an ASCII letter; other characters are unchanged.
pub open spec fn lower_char(c: char) -> char {
    if 'A' <= c && c <= 'Z' {
        (((c as u8) + 32) as u8) as char
    } else {
        c
    }
}

/// Maps an ASCII lowercase letter to uppercase.
pub fn to_upper(c: char) -> (r: char)
    ensures
        r == upper_char(c),
{
    let u = c as u32;
    if 'a' as u32 <= u && u <= 'z' as u32 {
        ((u - 32) as u8) as char
    } else {
        c
    }
}

/// Maps an ASCII uppercase letter to lowercase.
pub fn to_lower(c: char) -> (r: char)
    ensures
        r == lower_char(c),
{
    let u = c as u32;
    if 'A' as u32 <= u && u <= 'Z' as u32 {
        ((u + 32) as u8) as char
    } else {
        c
    }
}

/// Index of the first occurrence of `sep` in `s`, or `s.len()` when absent.
pub open spec fn find_of(s: Seq<char>, sep: char) -> nat
    decreases s.len(),
{
    if s.len() == 0 {
        0
    } else if s[0] == sep {
        0
    } else {
        1 + find_of(s.skip(1), sep)
    }
}

/// `find_of` names the first occurrence: nothing before it matches, and it
/// either points at a match or at the end.
pub proof fn lemma_find_of(s: Seq<char>, sep: char)
    ensures
        find_of(s, sep) <= s.len(),
        forall|j: int| 0 <= j < find_of(s, sep) ==> s[j] != sep,
        find_of(s, sep) < s.len() ==> s[find_of(s, sep) as int] == sep,
    decreases s.len(),
{
    if s.len() > 0 && s[0] != sep {
        lemma_find_of(s.skip(1), sep);
        assert forall|j: int| 0 <= j < find_of(s, sep) implies s[j] != sep by {
            if j > 0 {
                assert(s.skip(1)[j - 1] == s[j]);
            }
        }
        if find_of(s, sep) < s.len() {
            assert(s.skip(1)[find_of(s, sep) - 1] == s[find_of(s, sep) as int]);
        }
    }
}

/// A scan that finds no `sep` before `m`, and a match or the end at `m`,
/// has found exactly `find_of`.
pub proof fn lemma_find_of_is(s: Seq<char>, sep: char, m: int)
    requires
        0 <= m <= s.len(),
        forall|j: int| 0 <= j < m ==> s[j] != sep,
        m == s.len() || s[m] == sep,
    ensures
        find_of(s, sep) == m,
    decreases s.len(),
{
    if s.len() > 0 && s[0] != sep {
        assert forall|j: int| 0 <= j < m - 1 implies s.skip(1)[j] != sep by {
            assert(s.skip(1)[j] == s[j + 1]);
        }
        assert(m - 1 == s.skip(1).len() || s.skip(1)[m - 1] == sep);
        lemma_find_of_is(s.skip(1), sep, m - 1);
    }
}

/// Index of the first occurrence of `c` in `s`, or `s.len()` when absent.
pub fn find_char(s: &Vec<char>, c: char) -> (r: usize)
    ensures
        r == find_of(s@, c),
        r <= s@.len(),
{
    let n = s.len();
    let mut i: usize = 0;
    while i < n && s[i] != c
        invariant
            i <= n == s@.len(),
            forall|k: int| 0 <= k < i ==> s@[k] != c,
        decreases n - i,
    {
        i = i + 1;
    }
    proof {
        lemma_find_of_is(s@, c, i as int);
    }
    i
}

/// The segments of `s` between occurrences of `sep`; always at least one,
/// and empty segments are kept.
pub open spec fn split_of(s: Seq<char>, sep: char) -> Seq<Seq<char>>
    decreases s.len(),
{
    let i = find_of(s, sep);
    if i >= s.len() {
        seq![s]
    } else {
        seq![s.take(i as int)] + split_of(s.skip(i + 1 as int), sep)
    }
}

/// Splitting yields at least one segment, and none of them holds `sep`.
pub proof fn lemma_split_of(s: Seq<char>, sep: char)
    ensures
        split_of(s, sep).len() >= 1,
        forall|k: int, j: int|
            0 <= k < split_of(s, sep).len() && 0 <= j < split_of(s, sep)[k].len()
                ==> #[trigger] split_of(s, sep)[k][j] != sep,
    decreases s.len(),
{
    let i = find_of(s, sep);
    lemma_find_of(s, sep);
    if i < s.len() {
        lemma_split_of(s.skip(i + 1 as int), sep);
        assert forall|k: int, j: int|
            0 <= k < split_of(s, sep).len() && 0 <= j < split_of(s, sep)[k].len()
            implies #[trigger] split_of(s, sep)[k][j] != sep by {
            if k == 0 {
                assert(split_of(s, sep)[0] == s.take(i as int));
            } else {
                assert(split_of(s, sep)[k] == split_of(s.skip(i + 1 as int), sep)[k - 1]);
            }
        }
    }
}

/// The segments joined back with `sep` between them.
pub open spec fn join_of(parts: Seq<Seq<char>>, sep: char) -> Seq<char>
    decreases parts.len(),
{
    if parts.len() == 0 {
        Seq::empty()
    } else {
        parts[0] + join_rest(parts.skip(1), sep)
    }
}

/// The tail of a join: each further segment preceded by `sep`.
pub open spec fn join_rest(parts: Seq<Seq<char>>, sep: char) -> Seq<char>
    decreases parts.len(),
{
    if parts.len() == 0 {
        Seq::empty()
    } else {
        seq![sep] + parts[0] + join_rest(parts.skip(1), sep)
    }
}

/// The deep view of a vector of character vectors is its element views.
pub proof fn lemma_deep_view_is(v: &Vec<Vec<char>>)
    ensures
        v.deep_view().len() == v@.len(),
        forall|i: int| 0 <= i < v@.len() ==> v.deep_view()[i] == v@[i]@,
{
    assert forall|i: int| 0 <= i < v@.len() implies v.deep_view()[i] == v@[i]@ by {
        assert(v@[i].deep_view() =~= v@[i]@);
    }
}

/// The deep view of a vector of strings is its element views.
pub proof fn lemma_deep_view_strs(v: &Vec<String>)
    ensures
        v.deep_view().len() == v@.len(),
        forall|i: int| 0 <= i < v@.len() ==> v.deep_view()[i] == v@[i]@,
{
}

/// Joining the segments of a split restores the original characters.
pub proof fn lemma_split_join(s: Seq<char>, sep: char)
    ensures
        join_of(split_of(s, sep), sep) == s,
    decreases s.len(),
{
    let i = find_of(s, sep);
    lemma_find_of(s, sep);
    if i >= s.len() {
        assert(join_of(split_of(s, sep), sep) =~= s);
    } else {
        lemma_split_join(s.skip(i + 1 as int), sep);
        let tail = split_of(s.skip(i + 1 as int), sep);
        lemma_split_of(s.skip(i + 1 as int), sep);
        lemma_join_unfold(s.take(i as int), tail, sep);
        assert(join_rest(tail, sep) == seq![sep] + tail[0] + join_rest(tail.skip(1), sep));
        assert(join_of(tail, sep) == tail[0] + join_rest(tail.skip(1), sep));
        assert(join_rest(tail, sep) =~= seq![sep] + join_of(tail, sep));
        assert(join_of(split_of(s, sep), sep) == s.take(i as int) + join_rest(tail, sep));
        assert(s[i as int] == sep);
        assert(join_of(split_of(s, sep), sep) =~= s);
    }
}

/// Unfolds one step of a join whose head segment is `head`.
pub proof fn lemma_join_unfold(head: Seq<char>, tail: Seq<Seq<char>>, sep: char)
    ensures
        join_of(seq![head] + tail, sep) == head + join_rest(tail, sep),
        tail.len() > 0 ==> join_rest(seq![head] + tail, sep) == seq![sep] + head + join_rest(
            tail,
            sep,
        ),
{
    let parts = seq![head] + tail;
    assert(parts[0] == head);
    assert(parts.skip(1) =~= tail);
}

/// All segments of `s` separated by `sep`, empty segments included.
pub fn split_all(s: &Vec<char>, sep: char) -> (r: Vec<Vec<char>>)
    ensures
        r.deep_view() == split_of(s@, sep),
{
    let mut r: Vec<Vec<char>> = Vec::new();
    let mut pos: usize = 0;
    proof {
        lemma_deep_view_is(&r);
        assert(r.deep_view() =~= Seq::<Seq<char>>::empty());
        assert(s@.skip(0) =~= s@);
    }
    loop
        invariant
            pos <= s@.len(),
            split_of(s@, sep) == r.deep_view() + split_of(s@.skip(pos as int), sep),
        decreases s@.len() - pos,
    {
        let ghost rest = s@.skip(pos as int);
        let mut j: usize = pos;
        while j < s.len() && s[j] != sep
            invariant
                pos <= j <= s@.len(),
                rest == s@.skip(pos as int),
                forall|k: int| pos <= k < j ==> s@[k] != sep,
            decreases s@.len() - j,
        {
            j = j + 1;
        }
        proof {
            assert forall|k: int| 0 <= k < j - pos implies rest[k] != sep by {
                assert(rest[k] == s@[pos + k]);
            }
            if j < s@.len() {
                assert(rest[j - pos] == s@[j as int]);
            }
            lemma_find_of_is(rest, sep, j - pos as int);
        }
        let seg = subvec(s, pos, j);
        let ghost dv = r.deep_view();
        r.push(seg);
        proof {
            lemma_deep_view_is(&r);
            assert(seg@ =~= rest.take(j - pos as int));
            assert forall|k: int| 0 <= k < dv.len() implies r.deep_view()[k] == dv[k] by {
                assert(r@[k] == r@.subrange(0, dv.len() as int)[k]);
            }
            assert(r.deep_view() =~= dv + seq![seg@]);
        }
        if j == s.len() {
            proof {
                assert(seg@ =~= rest);
                assert(split_of(rest, sep) =~= seq![seg@]);
                assert(split_of(s@, sep) =~= dv + seq![seg@]);
                assert(split_of(s@, sep) =~= r.deep_view());
            }
            return r;
        }
        proof {
            assert(rest.skip(j - pos + 1) =~= s@.skip(j + 1));
            assert(split_of(rest, sep) =~= seq![seg@] + split_of(s@.skip(j + 1), sep));
            assert(dv + split_of(rest, sep) =~= (dv + seq![seg@]) + split_of(s@.skip(j + 1), sep));
        }
        pos = j + 1;
    }
}

/// The segments joined with `sep` between them.
pub fn join_all(parts: &Vec<Vec<char>>, sep: char) -> (r: Vec<char>)
    ensures
        r@ == join_of(parts.deep_view(), sep),
{
    let mut r: Vec<char> = Vec::new();
    let mut i: usize = 0;
    while i < parts.len()
        invariant
            i <= parts@.len(),
            i == 0 ==> r@ == Seq::<char>::empty(),
            i > 0 ==> join_of(parts.deep_view(), sep) == r@ + join_rest(
                parts.deep_view().skip(i as int),
                sep,
            ),
        decreases parts@.len() - i,
    {
        let ghost pre = r@;
        if i > 0 {
            r.push(sep);
        }
        let mut k: usize = 0;
        let part = &parts[i];
        while k < part.len()
            invariant
                k <= part@.len(),
                part@ == parts.deep_view()[i as int],
                i == 0 ==> r@ == pre + part@.take(k as int),
                i > 0 ==> r@ == pre + seq![sep] + part@.take(k as int),
            decreases part@.len() - k,
        {
            r.push(part[k]);
            k = k + 1;
        }
        proof {
            let dv = parts.deep_view();
            assert(part@.take(part@.len() as int) =~= part@);
            if i == 0 {
                assert(join_of(dv, sep) == dv[0] + join_rest(dv.skip(1), sep));
                assert(r@ =~= pre + dv[0]);
                assert(join_of(dv, sep) =~= r@ + join_rest(dv.skip(i + 1), sep));
            } else {
                assert(join_rest(dv.skip(i as int), sep) == seq![sep] + dv[i as int] + join_rest(
                    dv.skip(i as int).skip(1),
                    sep,
                ));
                assert(dv.skip(i as int).skip(1) =~= dv.skip(i + 1));
                assert(join_of(dv, sep) =~= r@ + join_rest(dv.skip(i + 1), sep));
            }
        }
        i = i + 1;
    }
    proof {
        if parts@.len() > 0 {
            assert(parts.deep_view().skip(parts@.len() as int) =~= Seq::<Seq<char>>::empty());
            assert(join_of(parts.deep_view(), sep) =~= r@);
        } else {
            assert(join_of(parts.deep_view(), sep) =~= r@);
        }
    }
    r
}

/// Characters stripped by trimming: spaces, tabs, carriage returns and
/// newlines.
pub open spec fn is_blank(c: char) -> bool {
    c == ' ' || c == '\t' || c == '\r' || c == '\n'
}

/// `s` without its leading blank characters.
pub open spec fn trim_front_of(s: Seq<char>) -> Seq<char>
    decreases s.len(),
{
    if s.len() > 0 && is_blank(s[0]) {
        trim_front_of(s.skip(1))
    } else {
        s
    }
}

/// `s` without its trailing blank characters.
pub open spec fn trim_back_of(s: Seq<char>) -> Seq<char>
    decreases s.len(),
{
    if s.len() > 0 && is_blank(s.last()) {
        trim_back_of(s.take(s.len() - 1))
    } else {
        s
    }
}

/// `s` without leading and trailing blank characters.
pub open spec fn trim_of(s: Seq<char>) -> Seq<char> {
    trim_back_of(trim_front_of(s))
}

/// A scan past `a` leading blanks has found `trim_front_of`.
proof fn lemma_trim_front_is(s: Seq<char>, a: int)
    requires
        0 <= a <= s.len(),
        forall|k: int| 0 <= k < a ==> is_blank(s[k]),
        a == s.len() || !is_blank(s[a]),
    ensures
        trim_front_of(s) == s.skip(a),
    decreases s.len(),
{
    if s.len() > 0 && is_blank(s[0]) {
        assert forall|k: int| 0 <= k < a - 1 implies is_blank(s.skip(1)[k]) by {
            assert(s.skip(1)[k] == s[k + 1]);
        }
        if a > 0 {
            lemma_trim_front_is(s.skip(1), a - 1);
            assert(s.skip(1).skip(a - 1) =~= s.skip(a));
        } else {
            assert(!is_blank(s[0]));
        }
    } else {
        assert(a == 0);
        assert(s.skip(0) =~= s);
    }
}

/// A scan back over `len - b` trailing blanks has found `trim_back_of`.
proof fn lemma_trim_back_is(s: Seq<char>, b: int)
    requires
        0 <= b <= s.len(),
        forall|k: int| b <= k < s.len() ==> is_blank(s[k]),
        b == 0 || !is_blank(s[b - 1]),
    ensures
        trim_back_of(s) == s.take(b),
    decreases s.len(),
{
    if s.len() > 0 && is_blank(s.last()) {
        assert(b < s.len());
        let t = s.take(s.len() - 1);
        assert forall|k: int| b <= k < t.len() implies is_blank(t[k]) by {
            assert(t[k] == s[k]);
        }
        lemma_trim_back_is(t, b);
        assert(t.take(b) =~= s.take(b));
    } else {
        assert(b == s.len());
        assert(s.take(b) =~= s);
    }
}

/// `s` without leading and trailing blanks.
pub fn trim(s: &Vec<char>) -> (r: Vec<char>)
    ensures
        r@ == trim_of(s@),
{
    let n = s.len();
    let mut a: usize = 0;
    while a < n && is_blank_char(s[a])
        invariant
            a <= n == s@.len(),
            forall|k: int| 0 <= k < a ==> is_blank(s@[k]),
        decreases n - a,
    {
        a = a + 1;
    }
    proof {
        lemma_trim_front_is(s@, a as int);
    }
    if a == n {
        let r: Vec<char> = Vec::new();
        proof {
            assert(s@.skip(a as int) =~= Seq::<char>::empty());
            assert(r@ =~= trim_of(s@));
        }
        return r;
    }
    let mut b: usize = n;
    while b > a + 1 && is_blank_char(s[b - 1])
        invariant
            a < b <= n == s@.len(),
            forall|k: int| b <= k < n ==> is_blank(s@[k]),
        decreases b,
    {
        b = b - 1;
    }
    let r = subvec(s, a, b);
    proof {
        let t = s@.skip(a as int);
        assert forall|k: int| b - a <= k < t.len() implies is_blank(t[k]) by {
            assert(t[k] == s@[k + a]);
        }
        assert(t[b - a - 1] == s@[b - 1]);
        assert(!is_blank(s@[a as int]));
        lemma_trim_back_is(t, b - a as int);
        assert(t.take(b - a as int) =~= s@.subrange(a as int, b as int));
    }
    r
}

/// Whether `c` is trimmed away at the ends of a token.
pub fn is_blank_char(c: char) -> (r: bool)
    ensures
        r == is_blank(c),
{
    c == ' ' || c == '\t' || c == '\r' || c == '\n'
}

/// `s` without one layer of surrounding double quotes, when both are there.
pub open spec fn unquote_of(s: Seq<char>) -> Seq<char> {
    if s.len() >= 2 && s[0] == '"' && s.last() == '"' {
        s.subrange(1, s.len() - 1)
    } else {
        s
    }
}

/// Strips one layer of surrounding double quotes.
pub fn unquote(s: &Vec<char>) -> (r: Vec<char>)
    ensures
        r@ == unquote_of(s@),
{
    if s.len() >= 2 && s[0] == '"' && s[s.len() - 1] == '"' {
        subvec(s, 1, s.len() - 1)
    } else {
        let r = subvec(s, 0, s.len());
        proof {
            assert(r@ =~= s@);
        }
        r
    }
}

/// Whether `c` is a decimal digit.
pub open spec fn is_digit(c: char) -> bool {
    '0' as u32 <= c as u32 && c as u32 <= '9' as u32
}

/// The numeric value of a decimal digit.
pub open spec fn digit_val(c: char) -> int {
    c as u32 - '0' as u32
}

/// A non-empty run of decimal digits.
pub open spec fn is_digits(s: Seq<char>) -> bool {
    s.len() > 0 && forall|i: int| 0 <= i < s.len() ==> is_digit(#[trigger] s[i])
}

/// The number written by a run of decimal digits.
pub open spec fn digits_val(s: Seq<char>) -> int
    decreases s.len(),
{
    if s.len() == 0 {
        0
    } else {
        digits_val(s.take(s.len() - 1)) * 10 + digit_val(s.last())
    }
}

/// A digit run's value is non-negative and grows along its prefixes.
pub proof fn lemma_digits_val_bounds(s: Seq<char>)
    requires
        forall|i: int| 0 <= i < s.len() ==> is_digit(#[trigger] s[i]),
    ensures
        digits_val(s) >= 0,
        forall|i: int| 0 <= i <= s.len() ==> digits_val(#[trigger] s.take(i)) <= digits_val(s),
    decreases s.len(),
{
    if s.len() == 0 {
        assert(s.take(0) =~= s);
    } else {
        let t = s.take(s.len() - 1);
        assert(forall|i: int| 0 <= i < t.len() ==> is_digit(#[trigger] t[i]));
        lemma_digits_val_bounds(t);
        assert(digit_val(s.last()) >= 0);
        assert(digits_val(s) >= digits_val(t)) by {
            assert(digits_val(t) * 10 >= digits_val(t)) by (nonlinear_arith)
                requires
                    digits_val(t) >= 0,
            ;
        }
        assert forall|i: int| 0 <= i <= s.len() implies digits_val(#[trigger] s.take(i))
            <= digits_val(s) by {
            if i < s.len() {
                assert(t.take(i) =~= s.take(i));
            } else {
                assert(s.take(i) =~= s);
            }
        }
    }
}

/// The number a digit run denotes, when it fits in a `u32`.
pub fn parse_u32(s: &Vec<char>) -> (r: Option<u32>)
    ensures
        r is Some <==> is_digits(s@) && digits_val(s@) <= u32::MAX,
        r matches Some(v) ==> v == digits_val(s@),
{
    let n = s.len();
    if n == 0 {
        return None;
    }
    let mut acc: u32 = 0;
    let mut i: usize = 0;
    while i < n
        invariant
            i <= n == s@.len(),
            forall|k: int| 0 <= k < i ==> is_digit(#[trigger] s@[k]),
            acc == digits_val(s@.take(i as int)),
        decreases n - i,
    {
        let u = s[i] as u32;
        if u < '0' as u32 || u > '9' as u32 {
            return None;
        }
        proof {
            assert(is_digit(s@[i as int]));
        }
        let d = u - '0' as u32;
        if acc > (u32::MAX - d) / 10 {
            proof {
                assert(acc * 10 + d > u32::MAX) by (nonlinear_arith)
                    requires
                        acc > (u32::MAX - d) / 10,
                        0 <= d <= 9,
                ;
                assert(s@.take(i + 1).take(i as int) =~= s@.take(i as int));
                assert(s@.take(i + 1).last() == s@[i as int]);
                assert(digits_val(s@.take(i + 1)) == acc * 10 + d);
                if is_digits(s@) {
                    lemma_digits_val_bounds(s@);
                    assert(digits_val(s@) > u32::MAX);
                }
            }
            return None;
        }
        proof {
            assert(acc * 10 + d <= u32::MAX) by (nonlinear_arith)
                requires
                    acc <= (u32::MAX - d) / 10,
                    0 <= d <= 9,
            ;
            assert(s@.take(i + 1).take(i as int) =~= s@.take(i as int));
            assert(s@.take(i + 1).last() == s@[i as int]);
        }
        acc = acc * 10 + d;
        i = i + 1;
    }
    proof {
        assert(s@.take(n as int) =~= s@);
    }
    Some(acc)
}

/// The digit character for a value below ten.
pub open spec fn digit_char(d: int) -> char {
    ((('0' as u8) + d) as u8) as char
}

/// The decimal digits of `n`, most significant first.
pub open spec fn digits_of(n: int) -> Seq<char>
    decreases n,
{
    if n < 10 {
        seq![digit_char(n)]
    } else {
        digits_of(n / 10) + seq![digit_char(n % 10)]
    }
}

/// Appends the decimal digits of `n`.
pub fn push_u32(v: &mut Vec<char>, n: u32)
    ensures
        final(v)@ == old(v)@ + digits_of(n as int),
    decreases n,
{
    if n >= 10 {
        push_u32(v, n / 10);
        let ghost mid = v@;
        v.push((('0' as u32 + n % 10) as u8) as char);
        proof {
            assert(v@ =~= old(v)@ + digits_of(n as int));
        }
    } else {
        v.push((('0' as u32 + n) as u8) as char);
        proof {
            assert(v@ =~= old(v)@ + digits_of(n as int));
        }
    }
}

/// A number always prints at least one digit.
pub proof fn lemma_digits_of_len(n: int)
    ensures
        digits_of(n).len() >= 1,
    decreases n,
{
    if n >= 10 {
        lemma_digits_of_len(n / 10);
    }
}

/// A two-digit zero-padded number, for values below one hundred.
pub open spec fn pad2_of(n: int) -> Seq<char> {
    seq![digit_char(n / 10), digit_char(n % 10)]
}

/// Appends a two-digit zero-padded number.
pub fn push_pad2(v: &mut Vec<char>, n: u32)
    requires
        n < 100,
    ensures
        final(v)@ == old(v)@ + pad2_of(n as int),
{
    v.push((('0' as u32 + n / 10) as u8) as char);
    v.push((('0' as u32 + n % 10) as u8) as char);
    proof {
        assert(v@ =~= old(v)@ + pad2_of(n as int));
    }
}

/// Index of the first occurrence of `pat` in `s`; `s.len()` when absent.
pub open spec fn find_seq(s: Seq<char>, pat: Seq<char>) -> nat
    decreases s.len(),
{
    if s.len() < pat.len() || pat.len() == 0 {
        s.len()
    } else if s.take(pat.len() as int) == pat {
        0
    } else {
        1 + find_seq(s.skip(1), pat)
    }
}

/// For a non-empty pattern, `find_seq` points at the first match: the
/// pattern occurs there if the result leaves room for it, and nowhere
/// before.
pub proof fn lemma_find_seq(s: Seq<char>, pat: Seq<char>)
    requires
        pat.len() > 0,
    ensures
        find_seq(s, pat) <= s.len(),
        find_seq(s, pat) + pat.len() <= s.len() ==> s.subrange(
            find_seq(s, pat) as int,
            find_seq(s, pat) + pat.len() as int,
        ) == pat,
        forall|j: int|
            0 <= j < find_seq(s, pat) && j + pat.len() <= s.len() ==> #[trigger] s.subrange(
                j,
                j + pat.len() as int,
            ) != pat,
    decreases s.len(),
{
    if s.len() < pat.len() {
    } else if s.take(pat.len() as int) == pat {
        assert(s.subrange(0, 0 + pat.len() as int) =~= s.take(pat.len() as int));
    } else {
        lemma_find_seq(s.skip(1), pat);
        let f = find_seq(s, pat);
        if f + pat.len() <= s.len() {
            assert(s.skip(1).subrange(f - 1, f - 1 + pat.len()) =~= s.subrange(
                f as int,
                f + pat.len() as int,
            ));
        }
        assert forall|j: int| 0 <= j < f && j + pat.len() <= s.len() implies #[trigger] s.subrange(
            j,
            j + pat.len() as int,
        ) != pat by {
            if j == 0 {
                assert(s.subrange(0, pat.len() as int) =~= s.take(pat.len() as int));
            } else {
                assert(s.skip(1).subrange(j - 1, j - 1 + pat.len()) =~= s.subrange(
                    j,
                    j + pat.len(),
                ));
            }
        }
    }
}

/// A scan that sees no match before `m`, and a match or the end at `m`,
/// has found exactly `find_seq`.
pub proof fn lemma_find_seq_is(s: Seq<char>, pat: Seq<char>, m: int)
    requires
        pat.len() > 0,
        0 <= m <= s.len(),
        forall|j: int|
            0 <= j < m && j + pat.len() <= s.len() ==> #[trigger] s.subrange(
                j,
                j + pat.len() as int,
            ) != pat,
        m == s.len() || (m + pat.len() <= s.len() && s.subrange(m, m + pat.len()) == pat),
    ensures
        find_seq(s, pat) == m,
    decreases s.len(),
{
    if s.len() < pat.len() {
        assert(m == s.len());
    } else if s.take(pat.len() as int) == pat {
        if m > 0 {
            assert(s.subrange(0, 0 + pat.len() as int) =~= s.take(pat.len() as int));
            assert(false);
        }
    } else {
        assert(m > 0) by {
            if m == 0 {
                assert(s.subrange(0, pat.len() as int) =~= s.take(pat.len() as int));
            }
        }
        assert forall|j: int|
            0 <= j < m - 1 && j + pat.len() <= s.skip(1).len() implies #[trigger] s.skip(
            1,
        ).subrange(j, j + pat.len() as int) != pat by {
            assert(s.skip(1).subrange(j, j + pat.len()) =~= s.subrange(j + 1, j + 1 + pat.len()));
        }
        if m < s.len() {
            assert(s.skip(1).subrange(m - 1, m - 1 + pat.len()) =~= s.subrange(m, m + pat.len()));
        }
        lemma_find_seq_is(s.skip(1), pat, m - 1);
    }
}

/// Index of the first occurrence of `pat` in `s` at or after `from`;
/// `s.len()` when absent.
pub fn find_pat(s: &Vec<char>, from: usize, pat: &Vec<char>) -> (r: usize)
    requires
        pat@.len() > 0,
        from <= s@.len(),
    ensures
        r == from + find_seq(s@.skip(from as int), pat@),
        from <= r <= s@.len(),
{
    let n = s.len();
    let m = pat.len();
    let ghost rest = s@.skip(from as int);
    if n - from < m {
        proof {
            lemma_find_seq_is(rest, pat@, rest.len() as int);
        }
        return n;
    }
    let mut i: usize = from;
    while i <= n - m
        invariant
            from <= i,
            i <= n - m + 1,
            n == s@.len(),
            m == pat@.len(),
            m > 0,
            from <= n - m,
            rest == s@.skip(from as int),
            forall|j: int|
                0 <= j < i - from && j + m <= rest.len() ==> #[trigger] rest.subrange(
                    j,
                    j + m as int,
                ) != pat@,
        decreases n - i,
    {
        let mut k: usize = 0;
        let mut matched = true;
        while k < m
            invariant
                k <= m == pat@.len(),
                n == s@.len(),
                i + m <= n,
                matched <==> (forall|t: int| 0 <= t < k ==> s@[i + t] == pat@[t]),
            decreases m - k,
        {
            if s[i + k] != pat[k] {
                matched = false;
                k = m;
            } else {
                k = k + 1;
            }
        }
        if matched {
            proof {
                assert(rest.subrange(i - from, i - from + m as int) =~= pat@) by {
                    assert forall|t: int| 0 <= t < m implies rest.subrange(
                        i - from,
                        i - from + m as int,
                    )[t] == pat@[t] by {
                        assert(rest[i - from + t] == s@[i + t]);
                    }
                }
                lemma_find_seq_is(rest, pat@, i - from as int);
            }
            return i;
        }
        proof {
            let ghost w: int = choose|t: int| 0 <= t < m && s@[i + t] != pat@[t];
            assert(rest.subrange(i - from, i - from + m as int)[w] == s@[i + w]);
            assert(rest.subrange(i - from, i - from + m as int) != pat@);
            assert forall|j: int|
                0 <= j < i + 1 - from && j + m <= rest.len() implies #[trigger] rest.subrange(
                j,
                j + m as int,
            ) != pat@ by {}
        }
        i = i + 1;
    }
    proof {
        assert forall|j: int|
            0 <= j < rest.len() && j + m <= rest.len() implies #[trigger] rest.subrange(
            j,
            j + m as int,
        ) != pat@ by {
            assert(j < i - from);
        }
        lemma_find_seq_is(rest, pat@, rest.len() as int);
    }
    n
}

/// The three parts of `s` around the first two occurrences of `pat`, when
/// both occur: the text before the first, between the two, and after the
/// second.
pub open spec fn split3_of(s: Seq<char>, pat: Seq<char>) -> Option<(Seq<char>, Seq<char>, Seq<char>)> {
    let i = find_seq(s, pat);
    if i + pat.len() > s.len() {
        None
    } else {
        let rest = s.skip(i + pat.len() as int);
        let j = find_seq(rest, pat);
        if j + pat.len() > rest.len() {
            None
        } else {
            Some((s.take(i as int), rest.take(j as int), rest.skip(j + pat.len() as int)))
        }
    }
}

/// Splits `s` around the first two occurrences of `pat`.
pub fn split3(s: &Vec<char>, pat: &Vec<char>) -> (r: Option<(Vec<char>, Vec<char>, Vec<char>)>)
    requires
        pat@.len() > 0,
    ensures
        r is Some <==> split3_of(s@, pat@) is Some,
        r matches Some(p) ==> split3_of(s@, pat@) matches Some(q) && p.0@ == q.0 && p.1@ == q.1
            && p.2@ == q.2,
{
    let n = s.len();
    let m = pat.len();
    proof {
        assert(s@.skip(0) =~= s@);
    }
    let i = find_pat(s, 0, pat);
    if n - i < m {
        proof {
            lemma_find_seq(s@, pat@);
        }
        return None;
    }
    let j = find_pat(s, i + m, pat);
    proof {
        assert(s@.skip(0) =~= s@);
        lemma_find_seq(s@.skip(i + m as int), pat@);
    }
    if n - j < m {
        return None;
    }
    let head = subvec(s, 0, i);
    let mid = subvec(s, i + m, j);
    let tail = subvec(s, j + m, n);
    proof {
        let rest = s@.skip(i + m as int);
        assert(head@ =~= s@.take(i as int));
        assert(mid@ =~= rest.take(j - i - m as int));
        assert(tail@ =~= rest.skip(j - i - m + find_seq(rest, pat@) - find_seq(rest, pat@)
            + m as int));
        assert(tail@ =~= rest.skip((j - i - m) + m as int));
    }
    Some((head, mid, tail))
}

/// A word with its first letter uppercased and the rest lowercased.
pub open spec fn cap_word_of(w: Seq<char>) -> Seq<char> {
    seq![upper_char(w[0])] + w.skip(1).map_values(|c: char| lower_char(c))
}

/// The non-empty hyphen-separated words, each capitalized.
pub open spec fn title_words_of(parts: Seq<Seq<char>>) -> Seq<Seq<char>>
    decreases parts.len(),
{
    if parts.len() == 0 {
        Seq::empty()
    } else {
        let rest = title_words_of(parts.skip(1));
        if parts[0].len() == 0 {
            rest
        } else {
            seq![cap_word_of(parts[0])] + rest
        }
    }
}

/// The title derived from a file name's title segment: its hyphen-separated
/// words, empties dropped, each capitalized, joined with single spaces.
pub open spec fn title_of(s: Seq<char>) -> Seq<char> {
    join_of(title_words_of(split_of(s, '-')), ' ')
}

/// A word with its first letter uppercased and the rest lowercased.
pub fn cap_word(w: &Vec<char>) -> (r: Vec<char>)
    requires
        w@.len() > 0,
    ensures
        r@ == cap_word_of(w@),
{
    let mut r: Vec<char> = Vec::new();
    r.push(to_upper(w[0]));
    let mut k: usize = 1;
    while k < w.len()
        invariant
            1 <= k <= w@.len(),
            r@.len() == k,
            r@[0] == upper_char(w@[0]),
            forall|j: int| 1 <= j < k ==> r@[j] == lower_char(#[trigger] w@[j]),
        decreases w@.len() - k,
    {
        r.push(to_lower(w[k]));
        k = k + 1;
    }
    proof {
        assert forall|j: int| 0 <= j < r@.len() implies r@[j] == cap_word_of(w@)[j] by {
            if j >= 1 {
                assert(w@.skip(1).map_values(|c: char| lower_char(c))[j - 1] == lower_char(
                    w@.skip(1)[j - 1],
                ));
            }
        }
        assert(r@ =~= cap_word_of(w@));
    }
    r
}

/// The title derived from a file name's title segment.
pub fn title_case(s: &Vec<char>) -> (r: Vec<char>)
    ensures
        r@ == title_of(s@),
{
    let parts = split_all(s, '-');
    let ghost dv = parts.deep_view();
    let mut words: Vec<Vec<char>> = Vec::new();
    let mut i: usize = 0;
    proof {
        lemma_deep_view_is(&words);
        assert(words.deep_view() =~= Seq::<Seq<char>>::empty());
        assert(dv.skip(0) =~= dv);
    }
    while i < parts.len()
        invariant
            i <= parts@.len(),
            dv == parts.deep_view(),
            dv.len() == parts@.len(),
            title_words_of(dv) == words.deep_view() + title_words_of(dv.skip(i as int)),
        decreases parts@.len() - i,
    {
        proof {
            lemma_deep_view_is(&parts);
            assert(dv.skip(i as int)[0] == dv[i as int]);
            assert(dv.skip(i as int).skip(1) =~= dv.skip(i + 1));
        }
        if parts[i].len() > 0 {
            let cap = cap_word(&parts[i]);
            let ghost wdv = words.deep_view();
            words.push(cap);
            proof {
                lemma_deep_view_is(&words);
                assert forall|k: int| 0 <= k < wdv.len() implies words.deep_view()[k] == wdv[k]
                    by {
                    assert(words@[k] == words@.subrange(0, wdv.len() as int)[k]);
                }
                assert(words.deep_view() =~= wdv + seq![cap@]);
                assert(title_words_of(dv.skip(i as int)) == seq![cap_word_of(dv[i as int])]
                    + title_words_of(dv.skip(i + 1)));
                assert(title_words_of(dv) =~= words.deep_view() + title_words_of(dv.skip(i + 1)));
            }
        } else {
            proof {
                assert(title_words_of(dv.skip(i as int)) == title_words_of(dv.skip(i + 1)));
            }
        }
        i = i + 1;
    }
    proof {
        assert(dv.skip(parts@.len() as int) =~= Seq::<Seq<char>>::empty());
        assert(title_words_of(dv) =~= words.deep_view());
    }
    join_all(&words, ' ')
}

/// Whether `path` lies at or under `root`: equal to it, or reached from it
/// by a `/`-separated descent.
pub open spec fn is_under_of(root: Seq<char>, path: Seq<char>) -> bool {
    path == root || (path.len() > root.len() && path.take(root.len() as int) == root && path[root.len() as int]
        == '/')
}

/// Whether `path` is `root` itself or below it.
pub fn is_under(root: &Vec<char>, path: &Vec<char>) -> (r: bool)
    ensures
        r == is_under_of(root@, path@),
{
    let n = root.len();
    if path.len() < n {
        proof {
            assert(path@.len() < root@.len());
            assert(!is_under_of(root@, path@));
        }
        return false;
    }
    if path.len() > n && path[n] != '/' {
        return false;
    }
    let mut k: usize = 0;
    while k < n
        invariant
            k <= n == root@.len(),
            n <= path@.len(),
            forall|j: int| 0 <= j < k ==> path@[j] == root@[j],
        decreases n - k,
    {
        if path[k] != root[k] {
            proof {
                if path@.len() == root@.len() {
                    assert(path@ != root@);
                } else {
                    assert(path@.take(root@.len() as int)[k as int] == path@[k as int]);
                }
            }
            return false;
        }
        k = k + 1;
    }
    proof {
        if path@.len() == root@.len() {
            assert(path@ =~= root@);
        } else {
            assert(path@.take(root@.len() as int) =~= root@);
        }
    }
    true
}

} // verus!
