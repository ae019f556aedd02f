use vstd::prelude::*;
use crate::text::slice_chars;

verus! {

// ---------------------------------------------------------------------------
// Searching
// ---------------------------------------------------------------------------

/// The index of the first `c` in `s`, or `s.len()` when `s` holds none.
pub open spec fn find_char(s: Seq<char>, c: char) -> int
    decreases s.len(),
{
    if s.len() == 0 {
        0
    } else if s[0] == c {
        0
    } else {
        1 + find_char(s.drop_first(), c)
    }
}

pub proof fn lemma_find_char(s: Seq<char>, c: char)
    ensures
        0 <= find_char(s, c) <= s.len(),
        forall|j: int| 0 <= j < find_char(s, c) ==> s[j] != c,
        find_char(s, c) < s.len() ==> s[find_char(s, c)] == c,
    decreases s.len(),
{
    if s.len() > 0 && s[0] != c {
        lemma_find_char(s.drop_first(), c);
        assert forall|j: int| 0 <= j < find_char(s, c) implies s[j] != c by {
            if j > 0 {
                assert(s[j] == s.drop_first()[j - 1]);
            }
        }
    }
}

/// `find_char` is the one index before which no `c` occurs and at which `c` occurs (or the end).
pub proof fn lemma_find_char_is(s: Seq<char>, c: char, i: int)
    requires
        0 <= i <= s.len(),
        forall|j: int| 0 <= j < i ==> s[j] != c,
        i < s.len() ==> s[i] == c,
    ensures
        find_char(s, c) == i,
{
    lemma_find_char(s, c);
}

/// Scans `v` from `start` for the first `c`; returns its index or `v.len()`.
pub fn find_char_from(v: &Vec<char>, start: usize, c: char) -> (r: usize)
    requires
        start <= v@.len(),
    ensures
        start <= r <= v@.len(),
        r == start + find_char(v@.skip(start as int), c),
        forall|j: int| start <= j < r ==> v@[j] != c,
        r < v@.len() ==> v@[r as int] == c,
{
    let mut i = start;
    while i < v.len() && v[i] != c
        invariant
            start <= i <= v@.len(),
            forall|j: int| start <= j < i ==> v@[j] != c,
        decreases v@.len() - i,
    {
        i = i + 1;
    }
    proof {
        lemma_find_char_is(v@.skip(start as int), c, i - start);
    }
    i
}

/// The part before and the part after the first `c`, if `s` holds one: `str::split_once`.
pub open spec fn split_once(s: Seq<char>, c: char) -> Option<(Seq<char>, Seq<char>)> {
    let i = find_char(s, c);
    if i < s.len() {
        Some((s.take(i), s.skip(i + 1)))
    } else {
        None
    }
}

pub fn split_once_exec(v: &Vec<char>, c: char) -> (r: Option<(Vec<char>, Vec<char>)>)
    ensures
        match r {
            Some((a, b)) => split_once(v@, c) == Some((a@, b@)),
            None => split_once(v@, c) is None,
        },
{
    let i = find_char_from(v, 0, c);
    assert(v@.skip(0) =~= v@);
    if i < v.len() {
        let a = slice_chars(v, 0, i);
        let b = slice_chars(v, i + 1, v.len());
        assert(a@ =~= v@.take(i as int));
        assert(b@ =~= v@.skip(i + 1));
        Some((a, b))
    } else {
        None
    }
}

// ---------------------------------------------------------------------------
// Numbers
// ---------------------------------------------------------------------------

/// The value of `c` as a digit in the given radix (10 or 16), if it is one.
pub open spec fn digit_value(c: char, radix: nat) -> Option<nat> {
    if '0' <= c && c <= '9' {
        Some((c as int - '0' as int) as nat)
    } else if radix == 16 && 'a' <= c && c <= 'f' {
        Some((c as int - 'a' as int + 10) as nat)
    } else if radix == 16 && 'A' <= c && c <= 'F' {
        Some((c as int - 'A' as int + 10) as nat)
    } else {
        None
    }
}

/// Every character of `s` is a digit in the radix.
pub open spec fn all_digits(s: Seq<char>, radix: nat) -> bool {
    forall|i: int| 0 <= i < s.len() ==> (#[trigger] digit_value(s[i], radix)) is Some
}

/// The value of a string of digits.
pub open spec fn digits_value(s: Seq<char>, radix: nat) -> nat
    decreases s.len(),
{
    if s.len() == 0 {
        0
    } else {
        digits_value(s.drop_last(), radix) * radix + digit_value(s.last(), radix).unwrap()
    }
}

/// What an unsigned integer parse reads after an optional leading `+`.
pub open spec fn unsigned_body(s: Seq<char>) -> Seq<char> {
    if s.len() > 0 && s[0] == '+' {
        s.drop_first()
    } else {
        s
    }
}

/// The unsigned integer that `s` spells in the radix, if it is at most `max`:
/// how `str::parse` and `from_str_radix` read an unsigned integer type whose
/// largest value is `max`.
pub open spec fn parse_unsigned(s: Seq<char>, radix: nat, max: nat) -> Option<nat> {
    let b = unsigned_body(s);
    if b.len() > 0 && all_digits(b, radix) && digits_value(b, radix) <= max {
        Some(digits_value(b, radix))
    } else {
        None
    }
}

proof fn lemma_digits_value_monotone(s: Seq<char>, radix: nat, j: int)
    requires
        radix >= 2,
        0 <= j <= s.len(),
        all_digits(s, radix),
    ensures
        digits_value(s.take(j), radix) <= digits_value(s, radix),
    decreases s.len(),
{
    if j < s.len() {
        assert(s.drop_last().take(j) =~= s.take(j));
        assert(all_digits(s.drop_last(), radix)) by {
            assert forall|i: int| 0 <= i < s.drop_last().len() implies (#[trigger] digit_value(s.drop_last()[i], radix)) is Some by {
                assert(digit_value(s[i], radix) is Some);
            }
        }
        lemma_digits_value_monotone(s.drop_last(), radix, j);
        assert(digit_value(s[s.len() - 1], radix) is Some);
        assert(digits_value(s.drop_last(), radix) <= digits_value(s.drop_last(), radix) * radix) by (nonlinear_arith)
            requires radix >= 2;
    } else {
        assert(s.take(j) =~= s);
    }
}

fn digit_of(c: char, radix: u64) -> (r: Option<u64>)
    requires
        radix == 10 || radix == 16,
    ensures
        match r {
            Some(d) => digit_value(c, radix as nat) == Some(d as nat) && d < radix,
            None => digit_value(c, radix as nat) is None,
        },
{
    if '0' <= c && c <= '9' {
        Some((c as u32 - '0' as u32) as u64)
    } else if radix == 16 && 'a' <= c && c <= 'f' {
        Some((c as u32 - 'a' as u32 + 10) as u64)
    } else if radix == 16 && 'A' <= c && c <= 'F' {
        Some((c as u32 - 'A' as u32 + 10) as u64)
    } else {
        None
    }
}

/// Reads an unsigned integer of at most `max` in radix 10 or 16, as `parse_unsigned` says.
pub fn parse_unsigned_exec(v: &Vec<char>, radix: u64, max: u64) -> (r: Option<u64>)
    requires
        radix == 10 || radix == 16,
    ensures
        match r {
            Some(n) => parse_unsigned(v@, radix as nat, max as nat) == Some(n as nat),
            None => parse_unsigned(v@, radix as nat, max as nat) is None,
        },
{
    let start: usize = if v.len() > 0 && v[0] == '+' { 1 } else { 0 };
    let ghost b = unsigned_body(v@);
    assert(b =~= v@.skip(start as int));
    if start >= v.len() {
        return None;
    }
    let mut acc: u64 = 0;
    let mut i = start;
    while i < v.len()
        invariant
            start <= i <= v@.len(),
            b =~= v@.skip(start as int),
            b == unsigned_body(v@),
            radix == 10 || radix == 16,
            all_digits(b.take(i - start), radix as nat),
            acc as nat == digits_value(b.take(i - start), radix as nat),
            acc <= max,
        decreases v@.len() - i,
    {
        let d = match digit_of(v[i], radix) {
            Some(d) => d,
            None => {
                assert(b[i - start] == v@[i as int]);
                assert(digit_value(b[i - start], radix as nat) is None);
                assert(!all_digits(b, radix as nat));
                return None;
            },
        };
        let ghost prefix = b.take(i - start);
        let ghost next = b.take(i - start + 1);
        assert(next.drop_last() =~= prefix);
        assert(next.last() == v@[i as int]);
        assert(all_digits(next, radix as nat)) by {
            assert forall|k: int| 0 <= k < next.len() implies (#[trigger] digit_value(next[k], radix as nat)) is Some by {
                if k < prefix.len() {
                    assert(next[k] == prefix[k]);
                }
            }
        }
        if d > max || acc > (max - d) / radix {
            proof {
                if d <= max {
                    let q = (max - d) as int / radix as int;
                    assert(acc as int * radix as int + d as int > max as int) by (nonlinear_arith)
                        requires acc as int > q, q == (max - d) as int / radix as int, radix > 0, d <= max;
                }
                if all_digits(b, radix as nat) {
                    lemma_digits_value_monotone(b, radix as nat, i - start + 1);
                }
            }
            return None;
        }
        proof {
            let q = (max - d) as int / radix as int;
            assert(acc as int * radix as int + d as int <= max as int) by (nonlinear_arith)
                requires acc as int <= q, q == (max - d) as int / radix as int, radix > 0, d <= max;
        }
        acc = acc * radix + d;
        i = i + 1;
    }
    assert(b.take(i - start) =~= b);
    Some(acc)
}

} // verus!

verus! {

// ---------------------------------------------------------------------------
// Splitting
// ---------------------------------------------------------------------------

/// The character sequences that a list of character vectors holds.
pub open spec fn views(r: Seq<Vec<char>>) -> Seq<Seq<char>> {
    r.map_values(|p: Vec<char>| p@)
}

/// The pieces of `s` between occurrences of `c`: `str::split` with a character
/// pattern. There is always at least one piece.
pub open spec fn split_char(s: Seq<char>, c: char) -> Seq<Seq<char>>
    decreases s.len(),
{
    let i = find_char(s, c);
    if 0 <= i < s.len() {
        seq![s.take(i)] + split_char(s.skip(i + 1), c)
    } else {
        seq![s]
    }
}

/// Splitting two pieces joined by the separator splits each piece.
pub proof fn lemma_split_char_concat(x: Seq<char>, y: Seq<char>, c: char)
    ensures
        split_char(x + seq![c] + y, c) == split_char(x, c) + split_char(y, c),
    decreases x.len(),
{
    let s = x + seq![c] + y;
    lemma_find_char(x, c);
    let i = find_char(x, c);
    if i < x.len() {
        assert forall|j: int| 0 <= j < i implies s[j] != c by {
            assert(s[j] == x[j]);
        }
        lemma_find_char_is(s, c, i);
        assert(s.take(i) =~= x.take(i));
        assert(s.skip(i + 1) =~= x.skip(i + 1) + seq![c] + y);
        lemma_split_char_concat(x.skip(i + 1), y, c);
        assert(split_char(x, c) == seq![x.take(i)] + split_char(x.skip(i + 1), c));
        assert(split_char(s, c) =~= split_char(x, c) + split_char(y, c));
    } else {
        assert forall|j: int| 0 <= j < x.len() implies s[j] != c by {
            assert(s[j] == x[j]);
        }
        lemma_find_char_is(s, c, x.len() as int);
        assert(s.take(x.len() as int) =~= x);
        assert(s.skip(x.len() as int + 1) =~= y);
        assert(split_char(x, c) == seq![x]);
        assert(split_char(s, c) =~= split_char(x, c) + split_char(y, c));
    }
}

/// Splits `v` at every `c`, as `split_char` says.
pub fn split_char_exec(v: &Vec<char>, c: char) -> (r: Vec<Vec<char>>)
    ensures
        views(r@) == split_char(v@, c),
{
    let mut r: Vec<Vec<char>> = Vec::new();
    let mut start: usize = 0;
    assert(v@.skip(0) =~= v@);
    assert(views(r@) =~= Seq::<Seq<char>>::empty());
    loop
        invariant
            start <= v@.len(),
            split_char(v@, c) == views(r@) + split_char(v@.skip(start as int), c),
        decreases v@.len() - start,
    {
        let i = find_char_from(v, start, c);
        let piece = slice_chars(v, start, i);
        let ghost s = v@.skip(start as int);
        proof {
            lemma_find_char(s, c);
        }
        if i < v.len() {
            assert(s.take(i - start) =~= piece@);
            assert(s.skip(i - start + 1) =~= v@.skip(i + 1));
            let ghost old_r = views(r@);
            r.push(piece);
            assert(views(r@) =~= old_r.push(piece@));
            assert(split_char(s, c) == seq![piece@] + split_char(v@.skip(i + 1), c));
            assert(split_char(v@, c) =~= views(r@) + split_char(v@.skip(i + 1), c));
            start = i + 1;
        } else {
            assert(s =~= piece@);
            let ghost old_r = views(r@);
            r.push(piece);
            assert(views(r@) =~= old_r.push(piece@));
            assert(split_char(v@, c) =~= views(r@));
            return r;
        }
    }
}

/// `s` without its leading run of `c`: `str::trim_start_matches` with a character.
pub open spec fn trim_start_char(s: Seq<char>, c: char) -> Seq<char>
    decreases s.len(),
{
    if s.len() > 0 && s[0] == c {
        trim_start_char(s.drop_first(), c)
    } else {
        s
    }
}

proof fn lemma_trim_start_char_is(s: Seq<char>, c: char, k: int)
    requires
        0 <= k <= s.len(),
        forall|j: int| 0 <= j < k ==> s[j] == c,
        k < s.len() ==> s[k] != c,
    ensures
        trim_start_char(s, c) == s.skip(k),
    decreases k,
{
    if k == 0 {
        assert(s.skip(0) =~= s);
    } else {
        assert forall|j: int| 0 <= j < k - 1 implies s.drop_first()[j] == c by {
            assert(s.drop_first()[j] == s[j + 1]);
        }
        lemma_trim_start_char_is(s.drop_first(), c, k - 1);
        assert(s.drop_first().skip(k - 1) =~= s.skip(k));
    }
}

pub fn trim_start_char_exec(v: &Vec<char>, c: char) -> (r: Vec<char>)
    ensures
        r@ == trim_start_char(v@, c),
{
    let mut k: usize = 0;
    while k < v.len() && v[k] == c
        invariant
            k <= v@.len(),
            forall|j: int| 0 <= j < k ==> v@[j] == c,
        decreases v@.len() - k,
    {
        k = k + 1;
    }
    proof {
        lemma_trim_start_char_is(v@, c, k as int);
    }
    let r = slice_chars(v, k, v.len());
    assert(r@ =~= v@.skip(k as int));
    r
}

} // verus!

verus! {

// ---------------------------------------------------------------------------
// Lines, prefixes and suffixes
// ---------------------------------------------------------------------------

/// A line without its trailing carriage return, if it has one.
pub open spec fn strip_cr(l: Seq<char>) -> Seq<char> {
    if l.len() > 0 && l.last() == '\r' {
        l.drop_last()
    } else {
        l
    }
}

/// The lines of `s`: `str::lines`. Lines end at `\n` or `\r\n`; the final line
/// ending is optional, and a bare `\r` at the very end stays in the last line.
pub open spec fn lines(s: Seq<char>) -> Seq<Seq<char>>
    decreases s.len(),
{
    if s.len() == 0 {
        seq![]
    } else {
        let i = find_char(s, '\n');
        if 0 <= i < s.len() {
            seq![strip_cr(s.take(i))] + lines(s.skip(i + 1))
        } else {
            seq![s]
        }
    }
}

fn strip_cr_exec(v: Vec<char>) -> (r: Vec<char>)
    ensures
        r@ == strip_cr(v@),
{
    let mut v = v;
    if v.len() > 0 && v[v.len() - 1] == '\r' {
        v.pop();
    }
    v
}

/// Splits `v` into lines, as `lines` says.
pub fn lines_exec(v: &Vec<char>) -> (r: Vec<Vec<char>>)
    ensures
        views(r@) == lines(v@),
{
    let mut r: Vec<Vec<char>> = Vec::new();
    let mut start: usize = 0;
    assert(v@.skip(0) =~= v@);
    assert(views(r@) =~= Seq::<Seq<char>>::empty());
    loop
        invariant
            start <= v@.len(),
            lines(v@) == views(r@) + lines(v@.skip(start as int)),
        decreases v@.len() - start,
    {
        let ghost s = v@.skip(start as int);
        if start == v.len() {
            assert(s.len() == 0);
            assert(lines(v@) =~= views(r@));
            return r;
        }
        let i = find_char_from(v, start, '\n');
        proof {
            lemma_find_char(s, '\n');
        }
        if i < v.len() {
            let line = strip_cr_exec(slice_chars(v, start, i));
            assert(s.take(i - start) =~= v@.subrange(start as int, i as int));
            assert(s.skip(i - start + 1) =~= v@.skip(i + 1));
            let ghost old_r = views(r@);
            r.push(line);
            assert(views(r@) =~= old_r.push(line@));
            assert(lines(s) == seq![line@] + lines(v@.skip(i + 1)));
            assert(lines(v@) =~= views(r@) + lines(v@.skip(i + 1)));
            start = i + 1;
        } else {
            let line = slice_chars(v, start, v.len());
            assert(s =~= line@);
            let ghost old_r = views(r@);
            r.push(line);
            assert(views(r@) =~= old_r.push(line@));
            assert(lines(v@) =~= views(r@));
            return r;
        }
    }
}

/// `s` begins with `p`.
pub open spec fn starts_with(s: Seq<char>, p: Seq<char>) -> bool {
    p.len() <= s.len() && s.take(p.len() as int) == p
}

/// `s` ends with `p`.
pub open spec fn ends_with(s: Seq<char>, p: Seq<char>) -> bool {
    p.len() <= s.len() && s.skip(s.len() - p.len()) == p
}

/// `s` without the prefix `p`, if it has it: `str::strip_prefix`.
pub open spec fn strip_prefix(s: Seq<char>, p: Seq<char>) -> Option<Seq<char>> {
    if starts_with(s, p) { Some(s.skip(p.len() as int)) } else { None }
}

/// `s` without the suffix `p`, if it has it: `str::strip_suffix`.
pub open spec fn strip_suffix(s: Seq<char>, p: Seq<char>) -> Option<Seq<char>> {
    if ends_with(s, p) { Some(s.take(s.len() - p.len())) } else { None }
}

/// Whether `v` begins with `p`.
pub fn starts_with_exec(v: &Vec<char>, p: &Vec<char>) -> (r: bool)
    ensures
        r == starts_with(v@, p@),
{
    if p.len() > v.len() {
        return false;
    }
    let n = p.len();
    for i in 0..n
        invariant
            n == p@.len(),
            n <= v@.len(),
            forall|j: int| 0 <= j < i ==> v@[j] == p@[j],
    {
        if v[i] != p[i] {
            assert(v@.take(n as int)[i as int] != p@[i as int]);
            return false;
        }
    }
    assert(v@.take(n as int) =~= p@);
    true
}

/// Whether `v` ends with `p`.
pub fn ends_with_exec(v: &Vec<char>, p: &Vec<char>) -> (r: bool)
    ensures
        r == ends_with(v@, p@),
{
    if p.len() > v.len() {
        return false;
    }
    let n = p.len();
    let off = v.len() - n;
    for i in 0..n
        invariant
            n == p@.len(),
            off + n == v.len(),
            forall|j: int| 0 <= j < i ==> v@[off + j] == p@[j],
    {
        if v[off + i] != p[i] {
            assert(v@.skip(off as int)[i as int] != p@[i as int]);
            return false;
        }
    }
    assert(v@.skip(off as int) =~= p@);
    true
}

/// `v` without the prefix `p`, if it has it.
pub fn strip_prefix_exec(v: &Vec<char>, p: &Vec<char>) -> (r: Option<Vec<char>>)
    ensures
        match r {
            Some(x) => strip_prefix(v@, p@) == Some(x@),
            None => strip_prefix(v@, p@) is None,
        },
{
    if starts_with_exec(v, p) {
        let x = slice_chars(v, p.len(), v.len());
        assert(x@ =~= v@.skip(p@.len() as int));
        Some(x)
    } else {
        None
    }
}

/// `v` without the suffix `p`, if it has it.
pub fn strip_suffix_exec(v: &Vec<char>, p: &Vec<char>) -> (r: Option<Vec<char>>)
    ensures
        match r {
            Some(x) => strip_suffix(v@, p@) == Some(x@),
            None => strip_suffix(v@, p@) is None,
        },
{
    if ends_with_exec(v, p) {
        let x = slice_chars(v, 0, v.len() - p.len());
        assert(x@ =~= v@.take(v@.len() - p@.len()));
        Some(x)
    } else {
        None
    }
}

/// Whether two character sequences are equal.
pub fn chars_eq(a: &Vec<char>, b: &Vec<char>) -> (r: bool)
    ensures
        r == (a@ == b@),
{
    if a.len() != b.len() {
        return false;
    }
    let n = a.len();
    for i in 0..n
        invariant
            n == a@.len(),
            n == b@.len(),
            forall|j: int| 0 <= j < i ==> a@[j] == b@[j],
    {
        if a[i] != b[i] {
            return false;
        }
    }
    assert(a@ =~= b@);
    true
}

// ---------------------------------------------------------------------------
// Whitespace
// ---------------------------------------------------------------------------

/// The Unicode White_Space characters: `char::is_whitespace`.
pub open spec fn is_whitespace(c: char) -> bool {
    ||| '\u{9}' <= c && c <= '\u{d}'
    ||| c == ' '
    ||| c == '\u{85}'
    ||| c == '\u{a0}'
    ||| c == '\u{1680}'
    ||| '\u{2000}' <= c && c <= '\u{200a}'
    ||| c == '\u{2028}'
    ||| c == '\u{2029}'
    ||| c == '\u{202f}'
    ||| c == '\u{205f}'
    ||| c == '\u{3000}'
}

pub fn is_whitespace_exec(c: char) -> (r: bool)
    ensures
        r == is_whitespace(c),
{
    ('\u{9}' <= c && c <= '\u{d}') || c == ' ' || c == '\u{85}' || c == '\u{a0}' || c == '\u{1680}'
        || ('\u{2000}' <= c && c <= '\u{200a}') || c == '\u{2028}' || c == '\u{2029}' || c
        == '\u{202f}' || c == '\u{205f}' || c == '\u{3000}'
}

/// The number of leading whitespace characters of `s`.
pub open spec fn leading_ws(s: Seq<char>) -> int
    decreases s.len(),
{
    if s.len() > 0 && is_whitespace(s[0]) {
        1 + leading_ws(s.drop_first())
    } else {
        0
    }
}

/// The number of trailing whitespace characters of `s`.
pub open spec fn trailing_ws(s: Seq<char>) -> int
    decreases s.len(),
{
    if s.len() > 0 && is_whitespace(s.last()) {
        1 + trailing_ws(s.drop_last())
    } else {
        0
    }
}

proof fn lemma_leading_ws_is(s: Seq<char>, k: int)
    requires
        0 <= k <= s.len(),
        forall|j: int| 0 <= j < k ==> is_whitespace(s[j]),
        k < s.len() ==> !is_whitespace(s[k]),
    ensures
        leading_ws(s) == k,
    decreases k,
{
    if k > 0 {
        assert forall|j: int| 0 <= j < k - 1 implies is_whitespace(s.drop_first()[j]) by {
            assert(s.drop_first()[j] == s[j + 1]);
        }
        lemma_leading_ws_is(s.drop_first(), k - 1);
    }
}

proof fn lemma_trailing_ws_is(s: Seq<char>, k: int)
    requires
        0 <= k <= s.len(),
        forall|j: int| s.len() - k <= j < s.len() ==> is_whitespace(s[j]),
        k < s.len() ==> !is_whitespace(s[s.len() - 1 - k]),
    ensures
        trailing_ws(s) == k,
    decreases k,
{
    if k > 0 {
        assert forall|j: int| s.drop_last().len() - (k - 1) <= j < s.drop_last().len() implies is_whitespace(s.drop_last()[j]) by {
            assert(s.drop_last()[j] == s[j]);
        }
        if k - 1 < s.drop_last().len() {
            assert(s.drop_last()[s.drop_last().len() - 1 - (k - 1)] == s[s.len() - 1 - k]);
        }
        lemma_trailing_ws_is(s.drop_last(), k - 1);
    }
}

proof fn lemma_trailing_ws_bounds(s: Seq<char>)
    ensures
        0 <= trailing_ws(s) <= s.len(),
    decreases s.len(),
{
    if s.len() > 0 && is_whitespace(s.last()) {
        lemma_trailing_ws_bounds(s.drop_last());
    }
}

/// Dropping a trailing whitespace character does not change the trimmed text.
pub proof fn lemma_trim_drop_ws(s: Seq<char>)
    requires
        s.len() > 0,
        is_whitespace(s.last()),
    ensures
        trim(s.drop_last()) == trim(s),
{
    let d = s.drop_last();
    lemma_leading_ws(s);
    lemma_leading_ws(d);
    let l = leading_ws(s);
    if l == s.len() {
        assert forall|j: int| 0 <= j < d.len() implies is_whitespace(d[j]) by {
            assert(d[j] == s[j]);
        }
        lemma_leading_ws_is(d, d.len() as int);
        assert(trim_start(s).len() == 0);
        assert(trim_start(d).len() == 0);
        assert(trim(s) =~= Seq::<char>::empty());
        assert(trim(d) =~= Seq::<char>::empty());
    } else {
        assert(l < d.len());
        assert forall|j: int| 0 <= j < l implies is_whitespace(d[j]) by {
            assert(d[j] == s[j]);
        }
        assert(d[l] == s[l]);
        lemma_leading_ws_is(d, l);
        let t = s.skip(l);
        let td = d.skip(l);
        assert(td =~= t.drop_last());
        assert(t.last() == s.last());
        assert(trailing_ws(t) == 1 + trailing_ws(td));
        lemma_trailing_ws_bounds(td);
        assert(trim(s) =~= t.take(td.len() - trailing_ws(td)));
        assert(trim(d) =~= td.take(td.len() - trailing_ws(td)));
        assert(t.take(td.len() - trailing_ws(td)) =~= td.take(td.len() - trailing_ws(td)));
    }
}

pub proof fn lemma_leading_ws(s: Seq<char>)
    ensures
        0 <= leading_ws(s) <= s.len(),
        forall|j: int| 0 <= j < leading_ws(s) ==> is_whitespace(s[j]),
        leading_ws(s) < s.len() ==> !is_whitespace(s[leading_ws(s)]),
    decreases s.len(),
{
    if s.len() > 0 && is_whitespace(s[0]) {
        lemma_leading_ws(s.drop_first());
        assert forall|j: int| 0 <= j < leading_ws(s) implies is_whitespace(s[j]) by {
            if j > 0 {
                assert(s[j] == s.drop_first()[j - 1]);
            }
        }
    }
}

/// `s` without leading whitespace: `str::trim_start`.
pub open spec fn trim_start(s: Seq<char>) -> Seq<char> {
    s.skip(leading_ws(s))
}

/// `s` without trailing whitespace: `str::trim_end`.
pub open spec fn trim_end(s: Seq<char>) -> Seq<char> {
    s.take(s.len() - trailing_ws(s))
}

/// `s` without leading or trailing whitespace: `str::trim`.
pub open spec fn trim(s: Seq<char>) -> Seq<char> {
    trim_end(trim_start(s))
}

pub fn trim_start_exec(v: &Vec<char>) -> (r: Vec<char>)
    ensures
        r@ == trim_start(v@),
{
    let mut k: usize = 0;
    while k < v.len() && is_whitespace_exec(v[k])
        invariant
            k <= v@.len(),
            forall|j: int| 0 <= j < k ==> is_whitespace(v@[j]),
        decreases v@.len() - k,
    {
        k = k + 1;
    }
    proof {
        lemma_leading_ws_is(v@, k as int);
    }
    slice_chars(v, k, v.len())
}

pub fn trim_end_exec(v: &Vec<char>) -> (r: Vec<char>)
    ensures
        r@ == trim_end(v@),
{
    let mut k: usize = 0;
    while k < v.len() && is_whitespace_exec(v[v.len() - 1 - k])
        invariant
            k <= v@.len(),
            forall|j: int| v@.len() - k <= j < v@.len() ==> is_whitespace(v@[j]),
        decreases v@.len() - k,
    {
        k = k + 1;
    }
    proof {
        lemma_trailing_ws_is(v@, k as int);
    }
    let r = slice_chars(v, 0, v.len() - k);
    assert(r@ =~= v@.take(v@.len() - k));
    r
}

pub fn trim_exec(v: &Vec<char>) -> (r: Vec<char>)
    ensures
        r@ == trim(v@),
{
    trim_end_exec(&trim_start_exec(v))
}

} // verus!

verus! {

/// The rest of the first line that starts with `p`, if any line does.
pub open spec fn first_with_prefix(ls: Seq<Seq<char>>, p: Seq<char>) -> Option<Seq<char>>
    decreases ls.len(),
{
    if ls.len() == 0 {
        None
    } else if starts_with(ls[0], p) {
        Some(ls[0].skip(p.len() as int))
    } else {
        first_with_prefix(ls.drop_first(), p)
    }
}

/// Finds the first line that starts with `p` and returns the rest of it.
pub fn first_with_prefix_exec(ls: &Vec<Vec<char>>, p: &Vec<char>) -> (r: Option<Vec<char>>)
    ensures
        match r {
            Some(x) => first_with_prefix(views(ls@), p@) == Some(x@),
            None => first_with_prefix(views(ls@), p@) is None,
        },
{
    let n = ls.len();
    assert(views(ls@).skip(0) =~= views(ls@));
    for i in 0..n
        invariant
            n == ls@.len(),
            first_with_prefix(views(ls@), p@) == first_with_prefix(views(ls@).skip(i as int), p@),
    {
        let ghost rest = views(ls@).skip(i as int);
        assert(rest[0] == ls@[i as int]@);
        assert(rest.drop_first() =~= views(ls@).skip(i + 1));
        match strip_prefix_exec(&ls[i], p) {
            Some(x) => {
                return Some(x);
            },
            None => {},
        }
    }
    assert(views(ls@).skip(n as int).len() == 0);
    None
}

} // verus!

verus! {

/// The index of the first whitespace character of `s`, or `s.len()`.
pub open spec fn find_ws(s: Seq<char>) -> int
    decreases s.len(),
{
    if s.len() == 0 {
        0
    } else if is_whitespace(s[0]) {
        0
    } else {
        1 + find_ws(s.drop_first())
    }
}

pub proof fn lemma_find_ws(s: Seq<char>)
    ensures
        0 <= find_ws(s) <= s.len(),
        forall|j: int| 0 <= j < find_ws(s) ==> !is_whitespace(s[j]),
        find_ws(s) < s.len() ==> is_whitespace(s[find_ws(s)]),
    decreases s.len(),
{
    if s.len() > 0 && !is_whitespace(s[0]) {
        lemma_find_ws(s.drop_first());
        assert forall|j: int| 0 <= j < find_ws(s) implies !is_whitespace(s[j]) by {
            if j > 0 {
                assert(s[j] == s.drop_first()[j - 1]);
            }
        }
    }
}

proof fn lemma_find_ws_is(s: Seq<char>, i: int)
    requires
        0 <= i <= s.len(),
        forall|j: int| 0 <= j < i ==> !is_whitespace(s[j]),
        i < s.len() ==> is_whitespace(s[i]),
    ensures
        find_ws(s) == i,
{
    lemma_find_ws(s);
}

/// The non-empty runs of non-whitespace characters of `s`: `str::split_whitespace`.
pub open spec fn split_whitespace(s: Seq<char>) -> Seq<Seq<char>>
    decreases s.len(),
{
    let t = s.skip(leading_ws(s));
    if leading_ws(s) < 0 || leading_ws(s) > s.len() || t.len() == 0 {
        seq![]
    } else {
        let i = find_ws(t);
        if 1 <= i <= t.len() {
            seq![t.take(i)] + split_whitespace(t.skip(i))
        } else {
            seq![]
        }
    }
}

/// Splits `v` at runs of whitespace, as `split_whitespace` says.
pub fn split_whitespace_exec(v: &Vec<char>) -> (r: Vec<Vec<char>>)
    ensures
        views(r@) == split_whitespace(v@),
{
    let mut r: Vec<Vec<char>> = Vec::new();
    let mut pos: usize = 0;
    assert(v@.skip(0) =~= v@);
    assert(views(r@) =~= Seq::<Seq<char>>::empty());
    loop
        invariant
            pos <= v@.len(),
            split_whitespace(v@) == views(r@) + split_whitespace(v@.skip(pos as int)),
        decreases v@.len() - pos,
    {
        let ghost s = v@.skip(pos as int);
        let mut k = pos;
        while k < v.len() && is_whitespace_exec(v[k])
            invariant
                pos <= k <= v@.len(),
                forall|j: int| pos <= j < k ==> is_whitespace(v@[j]),
            decreases v@.len() - k,
        {
            k = k + 1;
        }
        proof {
            lemma_leading_ws_is(s, k - pos);
        }
        let ghost t = s.skip(k - pos);
        assert(t =~= v@.skip(k as int));
        if k == v.len() {
            assert(split_whitespace(s) =~= Seq::<Seq<char>>::empty());
            assert(split_whitespace(v@) =~= views(r@));
            return r;
        }
        let mut e = k;
        while e < v.len() && !is_whitespace_exec(v[e])
            invariant
                k <= e <= v@.len(),
                forall|j: int| k <= j < e ==> !is_whitespace(v@[j]),
            decreases v@.len() - e,
        {
            e = e + 1;
        }
        proof {
            lemma_find_ws_is(t, e - k);
        }
        let piece = slice_chars(v, k, e);
        assert(t.take(e - k) =~= piece@);
        assert(t.skip(e - k) =~= v@.skip(e as int));
        let ghost old_r = views(r@);
        r.push(piece);
        assert(views(r@) =~= old_r.push(piece@));
        assert(split_whitespace(s) == seq![piece@] + split_whitespace(v@.skip(e as int)));
        assert(split_whitespace(v@) =~= views(r@) + split_whitespace(v@.skip(e as int)));
        pos = e;
    }
}

/// The number of bytes the UTF-8 encoding of `c` takes.
pub open spec fn utf8_width(c: char) -> nat {
    if (c as u32) < 0x80 {
        1
    } else if (c as u32) < 0x800 {
        2
    } else if (c as u32) < 0x10000 {
        3
    } else {
        4
    }
}

/// The number of bytes the UTF-8 encoding of `s` takes: `str::len`.
pub open spec fn utf8_len(s: Seq<char>) -> nat
    decreases s.len(),
{
    if s.len() == 0 {
        0
    } else {
        utf8_len(s.drop_last()) + utf8_width(s.last())
    }
}

proof fn lemma_utf8_len_prefix(s: Seq<char>, j: int)
    requires
        0 <= j <= s.len(),
    ensures
        utf8_len(s.take(j)) <= utf8_len(s),
    decreases s.len(),
{
    if j < s.len() {
        assert(s.drop_last().take(j) =~= s.take(j));
        lemma_utf8_len_prefix(s.drop_last(), j);
    } else {
        assert(s.take(j) =~= s);
    }
}

/// Whether the UTF-8 encoding of `v` takes exactly `n` bytes.
pub fn utf8_len_eq(v: &Vec<char>, n: u64) -> (r: bool)
    ensures
        r == (utf8_len(v@) == n),
{
    let mut total: u64 = 0;
    let len = v.len();
    for i in 0..len
        invariant
            len == v@.len(),
            total as nat == utf8_len(v@.take(i as int)),
            total <= n,
    {
        let c = v[i];
        let w: u64 = if (c as u32) < 0x80 { 1 } else if (c as u32) < 0x800 { 2 } else if (c as u32) < 0x10000 { 3 } else { 4 };
        assert(v@.take(i + 1).drop_last() =~= v@.take(i as int));
        if w > n - total {
            proof {
                lemma_utf8_len_prefix(v@, i + 1);
            }
            return false;
        }
        total = total + w;
    }
    assert(v@.take(len as int) =~= v@);
    total == n
}

} // verus!

verus! {

/// `s` without its trailing run of `c`: `str::trim_end_matches` with a character.
pub open spec fn trim_end_char(s: Seq<char>, c: char) -> Seq<char>
    decreases s.len(),
{
    if s.len() > 0 && s.last() == c {
        trim_end_char(s.drop_last(), c)
    } else {
        s
    }
}

proof fn lemma_trim_end_char_is(s: Seq<char>, c: char, k: int)
    requires
        0 <= k <= s.len(),
        forall|j: int| s.len() - k <= j < s.len() ==> s[j] == c,
        k < s.len() ==> s[s.len() - 1 - k] != c,
    ensures
        trim_end_char(s, c) == s.take(s.len() - k),
    decreases k,
{
    if k == 0 {
        assert(s.take(s.len() as int) =~= s);
    } else {
        assert forall|j: int| s.drop_last().len() - (k - 1) <= j < s.drop_last().len() implies s.drop_last()[j] == c by {
            assert(s.drop_last()[j] == s[j]);
        }
        lemma_trim_end_char_is(s.drop_last(), c, k - 1);
        assert(s.drop_last().take(s.drop_last().len() - (k - 1)) =~= s.take(s.len() - k));
    }
}

pub fn trim_end_char_exec(v: &Vec<char>, c: char) -> (r: Vec<char>)
    ensures
        r@ == trim_end_char(v@, c),
{
    let mut k: usize = 0;
    while k < v.len() && v[v.len() - 1 - k] == c
        invariant
            k <= v@.len(),
            forall|j: int| v@.len() - k <= j < v@.len() ==> v@[j] == c,
        decreases v@.len() - k,
    {
        k = k + 1;
    }
    proof {
        lemma_trim_end_char_is(v@, c, k as int);
    }
    let r = slice_chars(v, 0, v.len() - k);
    assert(r@ =~= v@.take(v@.len() - k));
    r
}

/// `s` with every leading copy of the non-empty `p` removed: `str::trim_start_matches` with a string.
pub open spec fn trim_start_str(s: Seq<char>, p: Seq<char>) -> Seq<char>
    decreases s.len(),
{
    if p.len() > 0 && starts_with(s, p) {
        trim_start_str(s.skip(p.len() as int), p)
    } else {
        s
    }
}

pub fn trim_start_str_exec(v: &Vec<char>, p: &Vec<char>) -> (r: Vec<char>)
    ensures
        r@ == trim_start_str(v@, p@),
{
    if p.len() == 0 {
        return slice_chars(v, 0, v.len());
    }
    let mut cur = slice_chars(v, 0, v.len());
    assert(cur@ =~= v@);
    loop
        invariant
            p@.len() > 0,
            trim_start_str(v@, p@) == trim_start_str(cur@, p@),
        decreases cur@.len(),
    {
        match strip_prefix_exec(&cur, p) {
            Some(rest) => {
                cur = rest;
            },
            None => {
                return cur;
            },
        }
    }
}

/// The lines joined with `\n` between them: `[String]::join("\n")`.
pub open spec fn join_lines(ls: Seq<Seq<char>>) -> Seq<char>
    decreases ls.len(),
{
    if ls.len() == 0 {
        Seq::empty()
    } else if ls.len() == 1 {
        ls[0]
    } else {
        join_lines(ls.drop_last()) + "\n"@ + ls.last()
    }
}

/// No line that `lines` gives holds a newline.
pub proof fn lemma_lines_no_newline(s: Seq<char>)
    ensures
        forall|k: int| 0 <= k < lines(s).len() ==> !(#[trigger] lines(s)[k]).contains('\n'),
    decreases s.len(),
{
    if s.len() > 0 {
        lemma_find_char(s, '\n');
        let i = find_char(s, '\n');
        if i < s.len() {
            lemma_lines_no_newline(s.skip(i + 1));
            let first = strip_cr(s.take(i));
            assert(!first.contains('\n')) by {
                if first.contains('\n') {
                    let j = choose|j: int| 0 <= j < first.len() && first[j] == '\n';
                    assert(s.take(i)[j] == s[j]);
                }
            }
            assert forall|k: int| 0 <= k < lines(s).len() implies !(#[trigger] lines(s)[k]).contains('\n') by {
                if k > 0 {
                    assert(lines(s)[k] == lines(s.skip(i + 1))[k - 1]);
                }
            }
        } else {
            assert(!s.contains('\n')) by {
                if s.contains('\n') {
                    let j = choose|j: int| 0 <= j < s.len() && s[j] == '\n';
                }
            }
        }
    }
}

/// The lines, each followed by a newline.
pub open spec fn terminated_lines(ls: Seq<Seq<char>>) -> Seq<char>
    decreases ls.len(),
{
    if ls.len() == 0 {
        Seq::empty()
    } else {
        ls[0] + "\n"@ + terminated_lines(ls.drop_first())
    }
}

proof fn lemma_terminated_push(ls: Seq<Seq<char>>, x: Seq<char>)
    ensures
        terminated_lines(ls.push(x)) == terminated_lines(ls) + x + "\n"@,
    decreases ls.len(),
{
    if ls.len() == 0 {
        assert(terminated_lines(Seq::<Seq<char>>::empty()) == Seq::<char>::empty());
        assert(ls.push(x).drop_first() =~= Seq::<Seq<char>>::empty());
        assert(ls.push(x)[0] == x);
        assert(terminated_lines(ls.push(x)) =~= x + "\n"@);
    } else {
        assert(ls.push(x).drop_first() =~= ls.drop_first().push(x));
        lemma_terminated_push(ls.drop_first(), x);
        assert(terminated_lines(ls.push(x)) =~= terminated_lines(ls) + x + "\n"@);
    }
}

/// Joining lines and ending the text with a newline ends every line with one.
pub proof fn lemma_join_lines_terminated(ls: Seq<Seq<char>>)
    requires
        ls.len() > 0,
    ensures
        join_lines(ls) + "\n"@ == terminated_lines(ls),
    decreases ls.len(),
{
    if ls.len() == 1 {
        assert(terminated_lines(Seq::<Seq<char>>::empty()) == Seq::<char>::empty());
        assert(ls.drop_first() =~= Seq::<Seq<char>>::empty());
        assert(terminated_lines(ls) =~= ls[0] + "\n"@);
    } else {
        lemma_join_lines_terminated(ls.drop_last());
        lemma_terminated_push(ls.drop_last(), ls.last());
        assert(ls.drop_last().push(ls.last()) =~= ls);
        assert(join_lines(ls) + "\n"@ =~= terminated_lines(ls.drop_last()) + ls.last() + "\n"@);
    }
}

/// Reading back lines that hold no newline, each written with a newline after
/// it, gives each line again, less a trailing carriage return.
pub proof fn lemma_lines_of_terminated(ls: Seq<Seq<char>>)
    requires
        forall|k: int| 0 <= k < ls.len() ==> !(#[trigger] ls[k]).contains('\n'),
    ensures
        lines(terminated_lines(ls)) == ls.map_values(|l: Seq<char>| strip_cr(l)),
    decreases ls.len(),
{
    reveal_strlit("\n");
    if ls.len() == 0 {
        assert(lines(terminated_lines(ls)) =~= ls.map_values(|l: Seq<char>| strip_cr(l)));
    } else {
        let s = terminated_lines(ls);
        let first = ls[0];
        let rest = terminated_lines(ls.drop_first());
        assert(s =~= first + seq!['\n'] + rest);
        assert forall|j: int| 0 <= j < first.len() implies s[j] != '\n' by {
            assert(s[j] == first[j]);
            assert(!ls[0].contains('\n'));
            if s[j] == '\n' {
                assert(first.contains('\n'));
            }
        }
        lemma_find_char_is(s, '\n', first.len() as int);
        assert(s.take(first.len() as int) =~= first);
        assert(s.skip(first.len() as int + 1) =~= rest);
        assert forall|k: int| 0 <= k < ls.drop_first().len() implies !(#[trigger] ls.drop_first()[k]).contains('\n') by {
            assert(ls.drop_first()[k] == ls[k + 1]);
        }
        lemma_lines_of_terminated(ls.drop_first());
        assert(lines(s) =~= ls.map_values(|l: Seq<char>| strip_cr(l)));
    }
}

} // verus!

verus! {

/// The parts joined with `sep` between them: `[String]::join(sep)`.
pub open spec fn join_sep(ls: Seq<Seq<char>>, sep: Seq<char>) -> Seq<char>
    decreases ls.len(),
{
    if ls.len() == 0 {
        Seq::empty()
    } else if ls.len() == 1 {
        ls[0]
    } else {
        join_sep(ls.drop_last(), sep) + sep + ls.last()
    }
}

/// Whether the UTF-8 encoding of `v` takes at most `n` bytes.
pub fn utf8_len_at_most(v: &Vec<char>, n: u64) -> (r: bool)
    ensures
        r == (utf8_len(v@) <= n),
{
    let mut total: u64 = 0;
    let len = v.len();
    for i in 0..len
        invariant
            len == v@.len(),
            total as nat == utf8_len(v@.take(i as int)),
            total <= n,
    {
        let c = v[i];
        let w: u64 = if (c as u32) < 0x80 { 1 } else if (c as u32) < 0x800 { 2 } else if (c as u32) < 0x10000 { 3 } else { 4 };
        assert(v@.take(i + 1).drop_last() =~= v@.take(i as int));
        if w > n - total {
            proof {
                lemma_utf8_len_prefix(v@, i + 1);
            }
            return false;
        }
        total = total + w;
    }
    assert(v@.take(len as int) =~= v@);
    true
}

} // verus!

verus! {

/// The signed integer that `s` spells in decimal, if it lies in `[-neg_max, pos_max]`:
/// how `str::parse` reads a signed integer type. An optional `+` or `-` comes first.
pub open spec fn parse_signed(s: Seq<char>, neg_max: nat, pos_max: nat) -> Option<int> {
    if s.len() > 0 && s[0] == '-' {
        let b = s.drop_first();
        if b.len() > 0 && all_digits(b, 10) && digits_value(b, 10) <= neg_max {
            Some(-(digits_value(b, 10) as int))
        } else {
            None
        }
    } else {
        match parse_unsigned(s, 10, pos_max) {
            Some(n) => Some(n as int),
            None => None,
        }
    }
}

/// Reads an `i64` as `str::parse` does.
pub fn parse_i64_exec(v: &Vec<char>) -> (r: Option<i64>)
    ensures
        match r {
            Some(n) => parse_signed(v@, 0x8000_0000_0000_0000, i64::MAX as nat) == Some(n as int),
            None => parse_signed(v@, 0x8000_0000_0000_0000, i64::MAX as nat) is None,
        },
{
    if v.len() > 0 && v[0] == '-' {
        let b = slice_chars(v, 1, v.len());
        assert(b@ =~= v@.drop_first());
        if b.len() > 0 && b[0] == '+' {
            assert(digit_value(b@[0], 10) is None);
            return None;
        }
        assert(unsigned_body(b@) == b@);
        match parse_unsigned_exec(&b, 10, 0x8000_0000_0000_0000) {
            Some(n) => {
                let r: i64 = (0i128 - n as i128) as i64;
                Some(r)
            },
            None => None,
        }
    } else {
        match parse_unsigned_exec(v, 10, i64::MAX as u64) {
            Some(n) => Some(n as i64),
            None => None,
        }
    }
}

} // verus!

verus! {

/// `s` with every non-overlapping occurrence of the non-empty `from`, found
/// left to right, replaced by `to`: `str::replace`.
pub open spec fn replace_all(s: Seq<char>, from: Seq<char>, to: Seq<char>) -> Seq<char>
    decreases s.len(),
{
    if s.len() == 0 || from.len() == 0 {
        s
    } else if starts_with(s, from) {
        to + replace_all(s.skip(from.len() as int), from, to)
    } else {
        seq![s[0]] + replace_all(s.drop_first(), from, to)
    }
}

/// Replaces every occurrence of `from` by `to`, as `replace_all` says.
pub fn replace_all_exec(v: &Vec<char>, from: &Vec<char>, to: &Vec<char>) -> (r: Vec<char>)
    requires
        from@.len() > 0,
    ensures
        r@ == replace_all(v@, from@, to@),
{
    let mut out: Vec<char> = Vec::new();
    let mut rest = slice_chars(v, 0, v.len());
    assert(rest@ =~= v@);
    loop
        invariant
            from@.len() > 0,
            replace_all(v@, from@, to@) == out@ + replace_all(rest@, from@, to@),
        decreases rest@.len(),
    {
        if rest.len() == 0 {
            assert(out@ + rest@ =~= out@);
            return out;
        }
        match strip_prefix_exec(&rest, from) {
            Some(after) => {
                let ghost old_out = out@;
                let n = to.len();
                for i in 0..n
                    invariant
                        n == to@.len(),
                        out@ == old_out + to@.take(i as int),
                {
                    out.push(to[i]);
                    assert(to@.take(i + 1) =~= to@.take(i as int).push(to@[i as int]));
                    assert(out@ =~= old_out + to@.take(i + 1));
                }
                assert(to@.take(n as int) =~= to@);
                assert(old_out + (to@ + replace_all(after@, from@, to@)) =~= out@ + replace_all(after@, from@, to@));
                rest = after;
            },
            None => {
                let c = rest[0];
                let ghost old_out = out@;
                out.push(c);
                let after = slice_chars(&rest, 1, rest.len());
                assert(after@ =~= rest@.drop_first());
                assert(old_out + (seq![c] + replace_all(after@, from@, to@)) =~= out@ + replace_all(after@, from@, to@));
                rest = after;
            },
        }
    }
}

} // verus!
