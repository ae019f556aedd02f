use vstd::prelude::*;
use crate::scan::{all_digits, digit_value, digits_value, unsigned_body, lemma_find_char_is, lemma_split_char_concat, parse_unsigned, parse_unsigned_exec, split_char, split_char_exec, trim_start_char, trim_start_char_exec, views};
use crate::text::{chars_of, decimal, digit_char, is_digit, lemma_decimal_digits, string_of};

verus! {

/// What an update check reports when a newer release exists.
#[derive(Clone, Debug)]
pub struct UpdateInfo {
    pub current_version: String,
    pub latest_version: String,
    pub release_url: String,
    pub release_name: String,
}

/// The numeric segments of a dotted version such as "v0.1.42": leading `v`s
/// are dropped, the rest is split at `.`, and a segment that is not a number
/// counts as 0.
pub open spec fn version_parts(s: Seq<char>) -> Seq<nat> {
    split_char(trim_start_char(s, 'v'), '.').map_values(
        |p: Seq<char>|
            match parse_unsigned(p, 10, u64::MAX as nat) {
                Some(n) => n,
                None => 0nat,
            },
    )
}

/// The `i`th segment, where a missing segment counts as 0.
pub open spec fn part(parts: Seq<nat>, i: int) -> nat {
    if 0 <= i < parts.len() {
        parts[i]
    } else {
        0
    }
}

/// `l` is ahead of `c` at segment `i`: they agree before it and `l` is larger there.
pub open spec fn ahead_at(l: Seq<nat>, c: Seq<nat>, i: int) -> bool {
    &&& 0 <= i
    &&& i < l.len() || i < c.len()
    &&& forall|j: int| 0 <= j < i ==> part(l, j) == part(c, j)
    &&& part(l, i) > part(c, i)
}

/// Segment lists compared numerically, segment by segment.
pub open spec fn parts_newer(l: Seq<nat>, c: Seq<nat>) -> bool {
    exists|i: int| ahead_at(l, c, i)
}

/// The version `latest` is newer than `current`.
pub open spec fn version_newer(latest: Seq<char>, current: Seq<char>) -> bool {
    parts_newer(version_parts(latest), version_parts(current))
}

fn version_parts_exec(s: &str) -> (r: Vec<u64>)
    ensures
        r@.len() == version_parts(s@).len(),
        forall|i: int| 0 <= i < r@.len() ==> r@[i] as nat == version_parts(s@)[i],
{
    let chars = chars_of(s);
    let trimmed = trim_start_char_exec(&chars, 'v');
    let pieces = split_char_exec(&trimmed, '.');
    let ghost spec_pieces = split_char(trim_start_char(s@, 'v'), '.');
    let mut r: Vec<u64> = Vec::new();
    let n = pieces.len();
    for i in 0..n
        invariant
            n == pieces@.len(),
            views(pieces@) == spec_pieces,
            spec_pieces == split_char(trim_start_char(s@, 'v'), '.'),
            r@.len() == i,
            forall|j: int| 0 <= j < i ==> r@[j] as nat == version_parts(s@)[j],
    {
        assert(pieces@[i as int]@ == spec_pieces[i as int]);
        let value: u64 = match parse_unsigned_exec(&pieces[i], 10, u64::MAX) {
            Some(n) => n,
            None => 0,
        };
        r.push(value);
    }
    r
}

/// True when the dotted version `latest` is newer than `current`, comparing
/// segments as numbers (so "0.1.10" is newer than "0.1.9").
pub fn is_newer(latest: &str, current: &str) -> (r: bool)
    ensures
        r == version_newer(latest@, current@),
{
    let l = version_parts_exec(latest);
    let c = version_parts_exec(current);
    let ghost lp = version_parts(latest@);
    let ghost cp = version_parts(current@);
    let n = if l.len() > c.len() { l.len() } else { c.len() };
    for i in 0..n
        invariant
            n == (if l@.len() > c@.len() { l@.len() } else { c@.len() }),
            lp == version_parts(latest@),
            cp == version_parts(current@),
            l@.len() == lp.len(),
            c@.len() == cp.len(),
            forall|k: int| 0 <= k < l@.len() ==> l@[k] as nat == lp[k],
            forall|k: int| 0 <= k < c@.len() ==> c@[k] as nat == cp[k],
            forall|j: int| 0 <= j < i ==> part(lp, j) == part(cp, j),
    {
        let lv: u64 = if i < l.len() { l[i] } else { 0 };
        let cv: u64 = if i < c.len() { c[i] } else { 0 };
        assert(lv as nat == part(lp, i as int));
        assert(cv as nat == part(cp, i as int));
        if lv != cv {
            if lv > cv {
                assert(ahead_at(lp, cp, i as int));
                return true;
            } else {
                assert forall|k: int| !ahead_at(lp, cp, k) by {
                    if ahead_at(lp, cp, k) {
                        if k > i {
                            assert(part(lp, i as int) == part(cp, i as int));
                        }
                    }
                }
                return false;
            }
        }
    }
    assert forall|k: int| !ahead_at(lp, cp, k) by {
        if ahead_at(lp, cp, k) {
            assert(part(lp, k) == part(cp, k));
        }
    }
    false
}

/// No version is newer than itself.
pub proof fn lemma_newer_irreflexive(v: Seq<char>)
    ensures
        !version_newer(v, v),
{
}

/// Of two versions, at most one is newer than the other.
pub proof fn lemma_newer_asymmetric(a: Seq<char>, b: Seq<char>)
    ensures
        !(version_newer(a, b) && version_newer(b, a)),
{
    if version_newer(a, b) && version_newer(b, a) {
        let pa = version_parts(a);
        let pb = version_parts(b);
        let i = choose|i: int| ahead_at(pa, pb, i);
        let k = choose|k: int| ahead_at(pb, pa, k);
        if i < k {
            assert(part(pb, i) == part(pa, i));
        } else if k < i {
            assert(part(pa, k) == part(pb, k));
        }
    }
}

/// Newer-than is transitive.
pub proof fn lemma_newer_transitive(a: Seq<char>, b: Seq<char>, c: Seq<char>)
    requires
        version_newer(a, b),
        version_newer(b, c),
    ensures
        version_newer(a, c),
{
    let pa = version_parts(a);
    let pb = version_parts(b);
    let pc = version_parts(c);
    let i = choose|i: int| ahead_at(pa, pb, i);
    let k = choose|k: int| ahead_at(pb, pc, k);
    let m = if i < k { i } else { k };
    assert forall|j: int| 0 <= j < m implies part(pa, j) == part(pc, j) by {
        assert(part(pa, j) == part(pb, j));
        assert(part(pb, j) == part(pc, j));
    }
    if i < k {
        assert(part(pb, i) == part(pc, i));
    } else if k < i {
        assert(part(pa, k) == part(pb, k));
    }
    assert(part(pa, m) > part(pc, m));
    assert(m < pa.len());
    assert(ahead_at(pa, pc, m));
}

/// A leading `v` is ignored: "v1.0.0" compares exactly as "1.0.0" does.
pub proof fn lemma_leading_v_ignored(a: Seq<char>, b: Seq<char>)
    ensures
        version_newer(seq!['v'] + a, b) == version_newer(a, b),
        version_newer(b, seq!['v'] + a) == version_newer(b, a),
{
    assert((seq!['v'] + a).drop_first() =~= a);
    assert(trim_start_char(seq!['v'] + a, 'v') == trim_start_char(a, 'v'));
}

proof fn lemma_trim_v_append(a: Seq<char>, s: Seq<char>)
    requires
        s.len() > 0,
        s[0] != 'v',
    ensures
        trim_start_char(a + s, 'v') == trim_start_char(a, 'v') + s,
    decreases a.len(),
{
    if a.len() > 0 && a[0] == 'v' {
        assert((a + s).drop_first() =~= a.drop_first() + s);
        lemma_trim_v_append(a.drop_first(), s);
    } else if a.len() == 0 {
        assert(a + s =~= s);
        assert(trim_start_char(a, 'v') + s =~= s);
    }
}

proof fn lemma_parts_push_zero(l: Seq<nat>, c: Seq<nat>)
    ensures
        parts_newer(l.push(0), c) == parts_newer(l, c),
        parts_newer(c, l.push(0)) == parts_newer(c, l),
{
    let l2 = l.push(0);
    assert forall|i: int| #[trigger] part(l2, i) == part(l, i) by {}
    if parts_newer(l2, c) {
        let i = choose|i: int| ahead_at(l2, c, i);
        assert(part(l2, i) == part(l, i));
        assert forall|j: int| 0 <= j < i implies part(l, j) == part(c, j) by {
            assert(part(l2, j) == part(l, j));
        }
        assert(ahead_at(l, c, i));
    }
    if parts_newer(l, c) {
        let i = choose|i: int| ahead_at(l, c, i);
        assert(part(l2, i) == part(l, i));
        assert forall|j: int| 0 <= j < i implies part(l2, j) == part(c, j) by {
            assert(part(l2, j) == part(l, j));
        }
        assert(ahead_at(l2, c, i));
    }
    if parts_newer(c, l2) {
        let i = choose|i: int| ahead_at(c, l2, i);
        assert(part(l2, i) == part(l, i));
        assert forall|j: int| 0 <= j < i implies part(c, j) == part(l, j) by {
            assert(part(l2, j) == part(l, j));
        }
        assert(ahead_at(c, l, i));
    }
    if parts_newer(c, l) {
        let i = choose|i: int| ahead_at(c, l, i);
        assert(part(l2, i) == part(l, i));
        assert forall|j: int| 0 <= j < i implies part(c, j) == part(l2, j) by {
            assert(part(l2, j) == part(l, j));
        }
        assert(ahead_at(c, l2, i));
    }
}

/// A missing segment counts as 0: appending ".0" to a version does not change how it
/// compares with any other, so "1.0" and "1.0.0" are neither newer than the other.
pub proof fn lemma_trailing_zero_ignored(a: Seq<char>, b: Seq<char>)
    ensures
        version_newer(a + ".0"@, b) == version_newer(a, b),
        version_newer(b, a + ".0"@) == version_newer(b, a),
{
    reveal_strlit(".0");
    reveal_strlit("0");
    let t = trim_start_char(a, 'v');
    lemma_trim_v_append(a, ".0"@);
    assert(".0"@ =~= seq!['.'] + "0"@);
    assert(t + ".0"@ =~= t + seq!['.'] + "0"@);
    lemma_split_char_concat(t, "0"@, '.');
    lemma_find_char_is("0"@, '.', 1);
    assert(split_char("0"@, '.') =~= seq!["0"@]);
    assert(digits_value("0"@, 10) == 0) by {
        assert("0"@.len() == 1 && "0"@[0] == '0');
        assert("0"@.drop_last() =~= Seq::<char>::empty());
        assert(digits_value("0"@.drop_last(), 10) == 0);
        assert(digit_value("0"@.last(), 10) == Some(0nat));
    }
    assert(parse_unsigned("0"@, 10, u64::MAX as nat) == Some(0nat));
    assert(version_parts(a + ".0"@) =~= version_parts(a).push(0));
    lemma_parts_push_zero(version_parts(a), version_parts(b));
}

proof fn lemma_decimal_value(n: nat)
    ensures
        all_digits(decimal(n), 10),
        digits_value(decimal(n), 10) == n,
    decreases n,
{
    lemma_decimal_digits(n);
    assert forall|i: int| 0 <= i < decimal(n).len() implies (#[trigger] digit_value(decimal(n)[i], 10)) is Some by {
        assert(is_digit(decimal(n)[i]));
    }
    if n < 10 {
        assert(decimal(n) == seq![digit_char(n)]);
        assert(decimal(n).drop_last() =~= Seq::<char>::empty());
        assert(digits_value(decimal(n).drop_last(), 10) == 0);
        assert(digit_value(digit_char(n), 10) == Some(n));
    } else {
        lemma_decimal_value(n / 10);
        assert(decimal(n) == decimal(n / 10).push(digit_char(n % 10)));
        assert(decimal(n).drop_last() =~= decimal(n / 10));
        assert(digit_value(digit_char(n % 10), 10) == Some(n % 10));
        assert(n == (n / 10) * 10 + n % 10);
    }
}

/// A segment written as a number is read back as that number, for every
/// number a segment can hold.
proof fn lemma_segment_parts(n: u64)
    ensures
        parse_unsigned(decimal(n as nat), 10, u64::MAX as nat) == Some(n as nat),
        split_char(decimal(n as nat), '.') == seq![decimal(n as nat)],
{
    let d = decimal(n as nat);
    lemma_decimal_value(n as nat);
    lemma_decimal_digits(n as nat);
    assert(is_digit(d[0]));
    assert(unsigned_body(d) == d);
    assert forall|j: int| 0 <= j < d.len() implies d[j] != '.' by {
        assert(is_digit(d[j]));
    }
    lemma_find_char_is(d, '.', d.len() as int);
}

/// A version that is one number compares as that number: "120" is newer than
/// "119", and "100" than "99".
pub proof fn lemma_numbers_compare_numerically(a: u64, b: u64)
    ensures
        version_newer(decimal(a as nat), decimal(b as nat)) == (a > b),
{
    lemma_segment_parts(a);
    lemma_segment_parts(b);
    lemma_decimal_digits(a as nat);
    lemma_decimal_digits(b as nat);
    let da = decimal(a as nat);
    let db = decimal(b as nat);
    assert(is_digit(da[0]) && is_digit(db[0]));
    assert(trim_start_char(da, 'v') == da);
    assert(trim_start_char(db, 'v') == db);
    let pa = version_parts(da);
    let pb = version_parts(db);
    assert(pa =~= seq![a as nat]);
    assert(pb =~= seq![b as nat]);
    if a > b {
        assert(ahead_at(pa, pb, 0));
    }
    if version_newer(da, db) {
        let i = choose|i: int| ahead_at(pa, pb, i);
        assert(i == 0);
    }
}

/// Versions that agree up to their last segment compare by that segment, as
/// numbers: "0.1.100" is newer than "0.1.99", whatever comes before.
pub proof fn lemma_last_segment_decides(prefix: Seq<char>, a: u64, b: u64)
    ensures
        version_newer(prefix + seq!['.'] + decimal(a as nat), prefix + seq!['.'] + decimal(b as nat)) == (a > b),
{
    let da = decimal(a as nat);
    let db = decimal(b as nat);
    let t = trim_start_char(prefix, 'v');
    lemma_segment_parts(a);
    lemma_segment_parts(b);
    lemma_trim_v_append(prefix, seq!['.'] + da);
    lemma_trim_v_append(prefix, seq!['.'] + db);
    assert(prefix + seq!['.'] + da =~= prefix + (seq!['.'] + da));
    assert(prefix + seq!['.'] + db =~= prefix + (seq!['.'] + db));
    assert(t + (seq!['.'] + da) =~= t + seq!['.'] + da);
    assert(t + (seq!['.'] + db) =~= t + seq!['.'] + db);
    lemma_split_char_concat(t, da, '.');
    lemma_split_char_concat(t, db, '.');
    let base = version_parts(prefix);
    let pa = version_parts(prefix + seq!['.'] + da);
    let pb = version_parts(prefix + seq!['.'] + db);
    assert(pa =~= base.push(a as nat));
    assert(pb =~= base.push(b as nat));
    let k = base.len() as int;
    assert forall|j: int| 0 <= j < k implies part(pa, j) == part(pb, j) by {
        assert(pa[j] == base[j] && pb[j] == base[j]);
    }
    if a > b {
        assert(ahead_at(pa, pb, k));
    }
    if version_newer(prefix + seq!['.'] + da, prefix + seq!['.'] + db) {
        let i = choose|i: int| ahead_at(pa, pb, i);
        if i < k {
            assert(part(pa, i) == part(pb, i));
        } else if i > k {
            assert(part(pa, k) == part(pb, k));
        }
    }
}

/// What the update check reports for a release whose tag is `tag_name`, when
/// the running version is `current_version`: an `UpdateInfo` exactly when the
/// tag, without its leading `v`s, names a newer version. The release name
/// falls back to the tag.
pub fn update_for_release(
    current_version: String,
    tag_name: String,
    html_url: String,
    name: Option<String>,
) -> (r: Option<UpdateInfo>)
    ensures
        r is Some <==> version_newer(trim_start_char(tag_name@, 'v'), current_version@),
        r matches Some(info) ==> {
            &&& info.current_version@ == current_version@
            &&& info.latest_version@ == trim_start_char(tag_name@, 'v')
            &&& info.release_url@ == html_url@
            &&& info.release_name@ == (match name {
                Some(n) => n@,
                None => tag_name@,
            })
        },
{
    let tag_chars = chars_of(tag_name.as_str());
    let latest = string_of(&trim_start_char_exec(&tag_chars, 'v'));
    if is_newer(latest.as_str(), current_version.as_str()) {
        let release_name = match name {
            Some(n) => n,
            None => tag_name,
        };
        Some(UpdateInfo {
            current_version,
            latest_version: latest,
            release_url: html_url,
            release_name,
        })
    } else {
        None
    }
}

} // verus!
