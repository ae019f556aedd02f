use vstd::prelude::*;
use crate::scan::{
    lines, lines_exec, parse_signed, parse_i64_exec, parse_unsigned, parse_unsigned_exec,
    split_char, split_char_exec, split_whitespace, split_whitespace_exec, starts_with,
    starts_with_exec, trim, trim_exec, views,
};
use crate::text::chars_of;
use vstd::string::*;

verus! {

broadcast use vstd::seq_lib::group_seq_properties;

/// What a scan reports about one project folder.
#[derive(Clone, Debug)]
pub struct ProjectInfo {
    pub name: String,
    pub path: String,
    pub languages: Vec<String>,
    pub has_git: bool,
    pub commit_count: u32,
    pub last_commit_days_ago: Option<i64>,
    pub todo_count: u32,
    pub disk_bytes: u64,
    pub dependency_count: Option<u32>,
    pub activity: String,
}

// ---- languages ----

/// The marker files, in the order they are checked.
pub open spec fn marker_file(i: int) -> Seq<char> {
    if i == 0 { "Cargo.toml"@ }
    else if i == 1 { "package.json"@ }
    else if i == 2 { "requirements.txt"@ }
    else if i == 3 { "pyproject.toml"@ }
    else if i == 4 { "go.mod"@ }
    else if i == 5 { "pom.xml"@ }
    else { "Gemfile"@ }
}

/// The language each marker file stands for.
pub open spec fn marker_language(i: int) -> Seq<char> {
    if i == 0 { "Rust"@ }
    else if i == 1 { "JavaScript/TypeScript"@ }
    else if i == 2 { "Python"@ }
    else if i == 3 { "Python"@ }
    else if i == 4 { "Go"@ }
    else if i == 5 { "Java"@ }
    else { "Ruby"@ }
}

fn marker_language_exec(i: usize) -> (r: &'static str)
    requires
        i < 7,
    ensures
        r@ == marker_language(i as int),
{
    if i == 0 { "Rust" }
    else if i == 1 { "JavaScript/TypeScript" }
    else if i == 2 { "Python" }
    else if i == 3 { "Python" }
    else if i == 4 { "Go" }
    else if i == 5 { "Java" }
    else { "Ruby" }
}

/// The marker file checked at position `i` (of seven).
pub fn marker_file_exec(i: usize) -> (r: &'static str)
    requires
        i < 7,
    ensures
        r@ == marker_file(i as int),
{
    if i == 0 { "Cargo.toml" }
    else if i == 1 { "package.json" }
    else if i == 2 { "requirements.txt" }
    else if i == 3 { "pyproject.toml" }
    else if i == 4 { "go.mod" }
    else if i == 5 { "pom.xml" }
    else { "Gemfile" }
}

/// The languages found among the first `k` markers, each named once, in marker order.
pub open spec fn languages_upto(present: Seq<bool>, k: int) -> Seq<Seq<char>>
    decreases k,
{
    if k <= 0 {
        Seq::empty()
    } else {
        let before = languages_upto(present, k - 1);
        if present[k - 1] && !before.contains(marker_language(k - 1)) {
            before.push(marker_language(k - 1))
        } else {
            before
        }
    }
}

proof fn lemma_languages_grow(present: Seq<bool>, k: int, l: int)
    requires
        0 <= k <= l,
    ensures
        forall|x: Seq<char>| languages_upto(present, k).contains(x) ==> languages_upto(present, l).contains(x),
    decreases l - k,
{
    if k < l {
        lemma_languages_grow(present, k, l - 1);
        assert forall|x: Seq<char>| languages_upto(present, l - 1).contains(x) implies languages_upto(present, l).contains(x) by {
            let before = languages_upto(present, l - 1);
            if present[l - 1] && !before.contains(marker_language(l - 1)) {
                let i = choose|i: int| 0 <= i < before.len() && before[i] == x;
                assert(before.push(marker_language(l - 1))[i] == x);
            }
        }
    }
}

proof fn lemma_languages_from_markers(present: Seq<bool>, k: int)
    requires
        0 <= k,
    ensures
        forall|i: int| 0 <= i < languages_upto(present, k).len() ==> exists|j: int|
            0 <= j < k && present[j] && #[trigger] languages_upto(present, k)[i] == marker_language(j),
        forall|a: int, b: int| 0 <= a < b < languages_upto(present, k).len() ==>
            languages_upto(present, k)[a] != languages_upto(present, k)[b],
    decreases k,
{
    if k > 0 {
        lemma_languages_from_markers(present, k - 1);
        let before = languages_upto(present, k - 1);
        let now = languages_upto(present, k);
        assert forall|i: int| 0 <= i < now.len() implies exists|j: int|
            0 <= j < k && present[j] && #[trigger] now[i] == marker_language(j) by {
            if i < before.len() {
                assert(now[i] == before[i]);
                let j = choose|j: int| 0 <= j < k - 1 && present[j] && before[i] == marker_language(j);
                assert(0 <= j < k && present[j] && now[i] == marker_language(j));
            } else {
                assert(now[i] == marker_language(k - 1));
            }
        }
        assert forall|a: int, b: int| 0 <= a < b < now.len() implies now[a] != now[b] by {
            if b == before.len() {
                assert(now[a] == before[a]);
                assert(before.contains(before[a]));
            } else {
                assert(now[a] == before[a] && now[b] == before[b]);
            }
        }
    }
}

/// The languages reported are exactly those of the marker files present,
/// each once: every present marker's language is reported, every reported
/// language is that of some present marker, and none is reported twice.
pub proof fn lemma_languages_of_present_markers(present: Seq<bool>)
    requires
        present.len() == 7,
    ensures
        forall|k: int| 0 <= k < 7 && present[k] ==> languages_upto(present, 7).contains(#[trigger] marker_language(k)),
        forall|i: int| 0 <= i < languages_upto(present, 7).len() ==> exists|k: int|
            0 <= k < 7 && present[k] && #[trigger] languages_upto(present, 7)[i] == marker_language(k),
        forall|a: int, b: int| 0 <= a < b < languages_upto(present, 7).len() ==>
            languages_upto(present, 7)[a] != languages_upto(present, 7)[b],
{
    assert forall|k: int| 0 <= k < 7 && present[k] implies languages_upto(present, 7).contains(#[trigger] marker_language(k)) by {
        let before = languages_upto(present, k);
        let after = languages_upto(present, k + 1);
        if !before.contains(marker_language(k)) {
            assert(after[after.len() - 1] == marker_language(k));
        } else {
            lemma_languages_grow(present, k, k + 1);
        }
        assert(after.contains(marker_language(k)));
        lemma_languages_grow(present, k + 1, 7);
    }
    lemma_languages_from_markers(present, 7);
}

/// The languages of a project, given which of the seven marker files exist.
pub fn detect_languages(present: &Vec<bool>) -> (r: Vec<String>)
    requires
        present@.len() == 7,
    ensures
        r@.map_values(|s: String| s@) == languages_upto(present@, 7),
{
    let mut r: Vec<String> = Vec::new();
    for i in 0..7
        invariant
            present@.len() == 7,
            r@.map_values(|s: String| s@) == languages_upto(present@, i as int),
    {
        let lang = marker_language_exec(i);
        let lang_chars = chars_of(lang);
        let mut seen = false;
        let m = r.len();
        for j in 0..m
            invariant
                m == r@.len(),
                lang_chars@ == marker_language(i as int),
                seen == (exists|k: int| 0 <= k < j && r@[k]@ == lang_chars@),
        {
            if crate::scan::chars_eq(&chars_of(r[j].as_str()), &lang_chars) {
                seen = true;
            }
        }
        let ghost before = r@.map_values(|s: String| s@);
        proof {
            if before.contains(marker_language(i as int)) {
                let k = choose|k: int| 0 <= k < before.len() && before[k] == marker_language(i as int);
                assert(r@[k]@ == lang_chars@);
            }
            if seen {
                let k = choose|k: int| 0 <= k < m && r@[k]@ == lang_chars@;
                assert(before[k] == marker_language(i as int));
            }
            assert(seen == before.contains(marker_language(i as int)));
        }
        if present[i] && !seen {
            r.push(String::from_str(lang));
            assert(r@.map_values(|s: String| s@) =~= before.push(marker_language(i as int)));
        }
    }
    r
}

// ---- TODO count ----

/// The sum of a sequence of counts.
pub open spec fn total(s: Seq<nat>) -> nat
    decreases s.len(),
{
    if s.len() == 0 { 0 } else { total(s.drop_last()) + s.last() }
}

/// The per-file counts in `rg -c` output: the number after the last `:` of
/// each line, where that reads as a `u32`.
pub open spec fn todo_counts(out: Seq<char>) -> Seq<nat> {
    lines(out).filter_map(|l: Seq<char>| parse_unsigned(split_char(l, ':').last(), 10, u32::MAX as nat))
}

/// The TODO/FIXME total from `rg -i -c` output, kept to 32 bits.
#[verifier::rlimit(40)]
pub fn count_todos(out: &str) -> (r: u32)
    ensures
        r as nat == total(todo_counts(out@)) % 0x1_0000_0000,
{
    let ls = lines_exec(&chars_of(out));
    let ghost all = lines(out@);
    let ghost f = |l: Seq<char>| parse_unsigned(split_char(l, ':').last(), 10, u32::MAX as nat);
    let mut sum: u32 = 0;
    let n = ls.len();
    assert(all.take(0).filter_map(f) =~= Seq::empty());
    for i in 0..n
        invariant
            n == ls@.len(),
            views(ls@) == all,
            all == lines(out@),
            f == (|l: Seq<char>| parse_unsigned(split_char(l, ':').last(), 10, u32::MAX as nat)),
            sum as nat == total(all.take(i as int).filter_map(f)) % 0x1_0000_0000,
    {
        proof {
            all.lemma_filter_map_take_succ(f, i as int);
        }
        assert(all[i as int] == ls@[i as int]@);
        let pieces = split_char_exec(&ls[i], ':');
        assert(views(pieces@).last() == pieces@[pieces@.len() - 1]@);
        match parse_unsigned_exec(&pieces[pieces.len() - 1], 10, u32::MAX as u64) {
            Some(c) => {
                let ghost prev = all.take(i as int).filter_map(f);
                assert((prev + seq![c as nat]).drop_last() =~= prev);
                assert(total(prev + seq![c as nat]) == total(prev) + c);
                sum = ((sum as u64 + c) % 0x1_0000_0000) as u32;
                assert(sum as nat == (total(prev) + c) % 0x1_0000_0000) by (nonlinear_arith)
                    requires
                        sum as nat == ((total(prev) % 0x1_0000_0000) + c) % 0x1_0000_0000;
            },
            None => {
                assert(all.take(i + 1).filter_map(f) =~= all.take(i as int).filter_map(f));
            },
        }
    }
    assert(all.take(n as int) =~= all);
    sum
}

} // verus!

verus! {

// ---- dependencies ----

/// For a JSON text, `None` when it does not parse; otherwise, for each of the
/// two keys, the number of entries of the member under that key when that
/// member is an object.
pub uninterp spec fn json_object_member_lens(text: Seq<char>, key1: Seq<char>, key2: Seq<char>) -> Option<(Option<nat>, Option<nat>)>;

pub open spec fn opt_nat(o: Option<usize>) -> Option<nat> {
    match o {
        Some(n) => Some(n as nat),
        None => None,
    }
}

/// `serde_json::from_str::<serde_json::Value>` on `text`, then, for each key,
/// `Value::get`, `Value::as_object` and `Map::len`: the sizes of the object
/// members under the two keys. The result is named `json_object_member_lens`
/// of the three arguments; nothing more of it is stated.
#[verifier::external_body]
fn json_object_lens(text: &str, key1: &str, key2: &str) -> (r: Option<(Option<usize>, Option<usize>)>)
    ensures
        match r {
            None => json_object_member_lens(text@, key1@, key2@) is None,
            Some((a, b)) => json_object_member_lens(text@, key1@, key2@) == Some((opt_nat(a), opt_nat(b))),
        },
{
    match serde_json::from_str::<serde_json::Value>(text) {
        Ok(v) => Some((
            v.get(key1).and_then(serde_json::Value::as_object).map(serde_json::Map::len),
            v.get(key2).and_then(serde_json::Value::as_object).map(serde_json::Map::len),
        )),
        Err(_) => None,
    }
}

/// An optional table size as added to the count: kept to 32 bits, 0 when absent.
pub open spec fn len32(o: Option<nat>) -> nat {
    match o {
        Some(n) => n % 0x1_0000_0000,
        None => 0,
    }
}

/// A requirements line that names a package: not blank and not a comment.
pub open spec fn requirement_line(l: Seq<char>) -> bool {
    trim(l).len() > 0 && !starts_with(trim(l), "#"@)
}

/// What the Cargo.toml scan knows after some lines: whether it is inside the
/// `[dependencies]` table, and how many dependency lines it has counted.
pub open spec fn cargo_step(st: (bool, nat), line: Seq<char>) -> (bool, nat) {
    let t = trim(line);
    if starts_with(t, "["@) {
        (starts_with(t, "[dependencies"@) && !starts_with(t, "[dependencies."@), st.1)
    } else if st.0 && t.contains('=') && t.len() > 0 {
        (st.0, st.1 + 1)
    } else {
        st
    }
}

pub open spec fn cargo_scan(ls: Seq<Seq<char>>) -> (bool, nat)
    decreases ls.len(),
{
    if ls.len() == 0 {
        (false, 0)
    } else {
        cargo_step(cargo_scan(ls.drop_last()), ls.last())
    }
}

/// A Cargo.toml line that opens a table.
pub open spec fn table_header(l: Seq<char>) -> bool {
    starts_with(trim(l), "["@)
}

/// A Cargo.toml line that opens the `[dependencies]` table itself (not one of
/// its `[dependencies.name]` subtables).
pub open spec fn dependencies_header(l: Seq<char>) -> bool {
    starts_with(trim(l), "[dependencies"@) && !starts_with(trim(l), "[dependencies."@)
}

/// Line `i` lies in the `[dependencies]` table: the last table header before
/// it opens that table.
pub open spec fn under_dependencies(ls: Seq<Seq<char>>, i: int) -> bool {
    exists|h: int|
        0 <= h < i && #[trigger] dependencies_header(ls[h]) && table_header(ls[h])
            && forall|m: int| h < m < i ==> !table_header(#[trigger] ls[m])
}

/// Line `i` declares a dependency: a `key = value` line in the `[dependencies]` table.
pub open spec fn dependency_line(ls: Seq<Seq<char>>, i: int) -> bool {
    !table_header(ls[i]) && trim(ls[i]).contains('=') && under_dependencies(ls, i)
}

/// How many of the first `n` lines declare a dependency.
pub open spec fn dependency_lines(ls: Seq<Seq<char>>, n: int) -> nat
    decreases n,
{
    if n <= 0 {
        0
    } else {
        dependency_lines(ls, n - 1) + (if dependency_line(ls, n - 1) { 1nat } else { 0nat })
    }
}

proof fn lemma_under_dependencies_prefix(ls: Seq<Seq<char>>, i: int)
    requires
        0 <= i <= ls.len() - 1,
    ensures
        under_dependencies(ls, i) == under_dependencies(ls.drop_last(), i),
{
    let p = ls.drop_last();
    if under_dependencies(ls, i) {
        let h = choose|h: int| 0 <= h < i && #[trigger] dependencies_header(ls[h]) && table_header(ls[h])
            && forall|m: int| h < m < i ==> !table_header(#[trigger] ls[m]);
        assert(p[h] == ls[h]);
        assert forall|m: int| h < m < i implies !table_header(#[trigger] p[m]) by {
            assert(p[m] == ls[m]);
        }
        assert(dependencies_header(p[h]));
    }
    if under_dependencies(p, i) {
        let h = choose|h: int| 0 <= h < i && #[trigger] dependencies_header(p[h]) && table_header(p[h])
            && forall|m: int| h < m < i ==> !table_header(#[trigger] p[m]);
        assert(p[h] == ls[h]);
        assert forall|m: int| h < m < i implies !table_header(#[trigger] ls[m]) by {
            assert(p[m] == ls[m]);
        }
        assert(dependencies_header(ls[h]));
    }
}

proof fn lemma_dependency_lines_prefix(ls: Seq<Seq<char>>, n: int)
    requires
        0 <= n <= ls.len() - 1,
    ensures
        dependency_lines(ls, n) == dependency_lines(ls.drop_last(), n),
    decreases n,
{
    if n > 0 {
        lemma_dependency_lines_prefix(ls, n - 1);
        lemma_under_dependencies_prefix(ls, n - 1);
        assert(ls[n - 1] == ls.drop_last()[n - 1]);
    }
}

/// The Cargo.toml scan is in the `[dependencies]` table exactly when the last
/// table header so far opens it, and its count is the number of `key = value`
/// lines inside that table: only table headers move the scan between tables,
/// so blank lines, comments and other lines never end the table.
pub proof fn lemma_cargo_scan_counts_dependency_lines(ls: Seq<Seq<char>>)
    ensures
        cargo_scan(ls).0 == under_dependencies(ls, ls.len() as int),
        cargo_scan(ls).1 == dependency_lines(ls, ls.len() as int),
    decreases ls.len(),
{
    if ls.len() > 0 {
        let p = ls.drop_last();
        let n = p.len() as int;
        let l = ls.last();
        lemma_cargo_scan_counts_dependency_lines(p);
        lemma_dependency_lines_prefix(ls, n);
        lemma_under_dependencies_prefix(ls, n);
        assert(ls[n] == l);
        if table_header(l) {
            if dependencies_header(l) {
                assert(under_dependencies(ls, n + 1));
            } else if under_dependencies(ls, n + 1) {
                let h = choose|h: int| 0 <= h < n + 1 && #[trigger] dependencies_header(ls[h]) && table_header(ls[h])
                    && forall|m: int| h < m < n + 1 ==> !table_header(#[trigger] ls[m]);
                if h < n {
                    assert(!table_header(ls[n]));
                }
            }
        } else {
            if under_dependencies(ls, n + 1) {
                let h = choose|h: int| 0 <= h < n + 1 && #[trigger] dependencies_header(ls[h]) && table_header(ls[h])
                    && forall|m: int| h < m < n + 1 ==> !table_header(#[trigger] ls[m]);
                assert(h < n);
                assert(under_dependencies(ls, n));
            }
            if under_dependencies(ls, n) {
                let h = choose|h: int| 0 <= h < n && #[trigger] dependencies_header(ls[h]) && table_header(ls[h])
                    && forall|m: int| h < m < n ==> !table_header(#[trigger] ls[m]);
                assert forall|m: int| h < m < n + 1 implies !table_header(#[trigger] ls[m]) by {}
                assert(under_dependencies(ls, n + 1));
            }
            if trim(l).contains('=') {
                assert(trim(l).len() > 0);
            }
        }
    }
}

/// The dependency count from what the manifests gave: the sizes of
/// package.json's dependencies and devDependencies objects when it parsed
/// (`None` when it did not or could not be read), else requirements.txt (its
/// package lines), else Cargo.toml (the `key = value` lines of its
/// `[dependencies]` table). Counts are kept to 32 bits.
pub open spec fn dependency_count_of(
    lens: Option<(Option<nat>, Option<nat>)>,
    req: Option<Seq<char>>,
    cargo: Option<Seq<char>>,
) -> Option<nat> {
    if let Some((a, b)) = lens {
        Some((len32(a) + len32(b)) % 0x1_0000_0000)
    } else if req is Some {
        Some(lines(req->0).filter(|l: Seq<char>| requirement_line(l)).len() % 0x1_0000_0000)
    } else if cargo is Some {
        Some(cargo_scan(lines(cargo->0)).1 % 0x1_0000_0000)
    } else {
        None
    }
}

/// The dependency count of a project from its manifests (`None` for a file
/// that could not be read), package.json read as JSON.
pub open spec fn dependency_count_spec(pkg: Option<Seq<char>>, req: Option<Seq<char>>, cargo: Option<Seq<char>>) -> Option<nat> {
    dependency_count_of(
        if pkg is Some { json_object_member_lens(pkg->0, "dependencies"@, "devDependencies"@) } else { None },
        req,
        cargo,
    )
}

/// The object sizes as the count reads them.
pub open spec fn lens_of(lens: Option<(Option<usize>, Option<usize>)>) -> Option<(Option<nat>, Option<nat>)> {
    match lens {
        Some((a, b)) => Some((opt_nat(a), opt_nat(b))),
        None => None,
    }
}

pub open spec fn text_of(o: Option<String>) -> Option<Seq<char>> {
    match o {
        Some(s) => Some(s@),
        None => None,
    }
}

fn count_requirements(text: &str) -> (r: u32)
    ensures
        r as nat == lines(text@).filter(|l: Seq<char>| requirement_line(l)).len() % 0x1_0000_0000,
{
    let ls = lines_exec(&chars_of(text));
    let ghost all = lines(text@);
    let ghost p = |l: Seq<char>| requirement_line(l);
    let hash = chars_of("#");
    let mut count: usize = 0;
    let n = ls.len();
    assert(all.take(0).filter(p) =~= Seq::empty()) by {
        reveal(Seq::filter);
    }
    for i in 0..n
        invariant
            n == ls@.len(),
            views(ls@) == all,
            all == lines(text@),
            hash@ == "#"@,
            p == (|l: Seq<char>| requirement_line(l)),
            count as nat == all.take(i as int).filter(p).len(),
            count <= i,
    {
        assert(all.take(i + 1) =~= all.take(i as int).push(all[i as int]));
        assert(all[i as int] == ls@[i as int]@);
        proof {
            all.take(i as int).lemma_filter_push(all[i as int], p);
        }
        let t = trim_exec(&ls[i]);
        if t.len() > 0 && !starts_with_exec(&t, &hash) {
            count = count + 1;
        }
    }
    assert(all.take(n as int) =~= all);
    (count as u64 % 0x1_0000_0000) as u32
}

fn contains_char(v: &Vec<char>, c: char) -> (r: bool)
    ensures
        r == v@.contains(c),
{
    let n = v.len();
    for i in 0..n
        invariant
            n == v@.len(),
            forall|j: int| 0 <= j < i ==> v@[j] != c,
    {
        if v[i] == c {
            assert(v@[i as int] == c);
            return true;
        }
    }
    false
}

fn count_cargo_dependencies(text: &str) -> (r: u32)
    ensures
        r as nat == cargo_scan(lines(text@)).1 % 0x1_0000_0000,
{
    let ls = lines_exec(&chars_of(text));
    let ghost all = lines(text@);
    let open_bracket = chars_of("[");
    let deps = chars_of("[dependencies");
    let deps_dot = chars_of("[dependencies.");
    let mut in_deps = false;
    let mut count: usize = 0;
    let n = ls.len();
    assert(all.take(0) =~= Seq::<Seq<char>>::empty());
    for i in 0..n
        invariant
            n == ls@.len(),
            views(ls@) == all,
            all == lines(text@),
            open_bracket@ == "["@,
            deps@ == "[dependencies"@,
            deps_dot@ == "[dependencies."@,
            (in_deps, count as nat) == cargo_scan(all.take(i as int)),
            count <= i,
    {
        assert(all.take(i + 1).drop_last() =~= all.take(i as int));
        assert(all.take(i + 1).last() == ls@[i as int]@);
        let t = trim_exec(&ls[i]);
        if starts_with_exec(&t, &open_bracket) {
            in_deps = starts_with_exec(&t, &deps) && !starts_with_exec(&t, &deps_dot);
        } else if in_deps && contains_char(&t, '=') && t.len() > 0 {
            count = count + 1;
        }
    }
    assert(all.take(n as int) =~= all);
    (count as u64 % 0x1_0000_0000) as u32
}

/// Counts a project's dependencies from what its manifests gave: `lens` is
/// the sizes of package.json's two dependency objects when it parsed.
pub fn dependency_count_from(
    lens: Option<(Option<usize>, Option<usize>)>,
    requirements: Option<String>,
    cargo_toml: Option<String>,
) -> (r: Option<u32>)
    ensures
        match r {
            Some(n) => dependency_count_of(lens_of(lens), text_of(requirements), text_of(cargo_toml)) == Some(n as nat),
            None => dependency_count_of(lens_of(lens), text_of(requirements), text_of(cargo_toml)) is None,
        },
{
    match lens {
        Some((a, b)) => {
            let a32: u64 = match a {
                Some(n) => n as u64 % 0x1_0000_0000,
                None => 0,
            };
            let b32: u64 = match b {
                Some(n) => n as u64 % 0x1_0000_0000,
                None => 0,
            };
            return Some(((a32 + b32) % 0x1_0000_0000) as u32);
        },
        None => {},
    }
    match &requirements {
        Some(text) => return Some(count_requirements(text.as_str())),
        None => {},
    }
    match &cargo_toml {
        Some(text) => Some(count_cargo_dependencies(text.as_str())),
        None => None,
    }
}

/// Counts a project's dependencies from the manifests that could be read.
pub fn count_dependencies(package_json: Option<String>, requirements: Option<String>, cargo_toml: Option<String>) -> (r: Option<u32>)
    ensures
        match r {
            Some(n) => dependency_count_spec(text_of(package_json), text_of(requirements), text_of(cargo_toml)) == Some(n as nat),
            None => dependency_count_spec(text_of(package_json), text_of(requirements), text_of(cargo_toml)) is None,
        },
{
    let lens = match &package_json {
        Some(text) => json_object_lens(text.as_str(), "dependencies", "devDependencies"),
        None => None,
    };
    dependency_count_from(lens, requirements, cargo_toml)
}

// ---- git and disk usage ----

/// A folder whose name starts with `.` is not a project.
pub fn is_hidden(name: &str) -> (r: bool)
    ensures
        r == starts_with(name@, "."@),
{
    starts_with_exec(&chars_of(name), &chars_of("."))
}

/// The commit count from `git rev-list --count HEAD` (its trimmed output when
/// it succeeded), 0 when it did not run or did not print a number.
pub fn commit_count(out: Option<String>) -> (r: u32)
    ensures
        r as nat == (match out {
            Some(s) => match parse_unsigned(s@, 10, u32::MAX as nat) {
                Some(n) => n,
                None => 0,
            },
            None => 0,
        }),
{
    match out {
        Some(s) => match parse_unsigned_exec(&chars_of(s.as_str()), 10, u32::MAX as u64) {
            Some(n) => n as u32,
            None => 0,
        },
        None => 0,
    }
}

/// Integer division rounding toward zero, as Rust's `/` on signed integers.
pub open spec fn div_toward_zero(a: int, b: int) -> int {
    if a >= 0 { a / b } else { -((-a) / b) }
}

/// Whole days between the last commit and `now`, from `git log -1 --format=%ct`
/// (its trimmed output when it succeeded); the difference of the two times
/// wraps as 64-bit arithmetic does.
pub fn days_since_commit(now: i64, out: Option<String>) -> (r: Option<i64>)
    ensures
        match out {
            Some(s) => match parse_signed(s@, 0x8000_0000_0000_0000, i64::MAX as nat) {
                Some(ts) => r == Some(div_toward_zero(now.wrapping_sub(ts as i64) as int, 86400) as i64),
                None => r is None,
            },
            None => r is None,
        },
{
    match out {
        Some(s) => match parse_i64_exec(&chars_of(s.as_str())) {
            Some(ts) => {
                let d: i64 = now.wrapping_sub(ts);
                let days: i64 = if d >= 0 {
                    d / 86400
                } else {
                    let m: i128 = 0i128 - d as i128;
                    (0i128 - m / 86400) as i64
                };
                Some(days)
            },
            None => None,
        },
        None => None,
    }
}

/// How active a project is: within a week of its last commit it is active,
/// within sixty days dormant, after that abandoned; a repository whose last
/// commit could not be read counts as dormant, a folder without git as "no_git".
pub open spec fn activity_spec(has_git: bool, days: Option<i64>) -> Seq<char> {
    if !has_git {
        "no_git"@
    } else {
        match days {
            Some(d) => if d <= 7 { "active"@ } else if d <= 60 { "dormant"@ } else { "abandoned"@ },
            None => "dormant"@,
        }
    }
}

/// Classifies a project's activity.
pub fn activity(has_git: bool, days: Option<i64>) -> (r: String)
    ensures
        r@ == activity_spec(has_git, days),
{
    let s = if !has_git {
        "no_git"
    } else {
        match days {
            Some(d) => if d <= 7 { "active" } else if d <= 60 { "dormant" } else { "abandoned" },
            None => "dormant",
        }
    };
    String::from_str(s)
}

/// The size of a folder from `du -sb` (its trimmed output when it succeeded):
/// the first field read as a number, 0 otherwise.
pub fn du_total(out: Option<String>) -> (r: u64)
    ensures
        r as nat == (match out {
            Some(s) => if split_whitespace(s@).len() > 0 {
                match parse_unsigned(split_whitespace(s@)[0], 10, u64::MAX as nat) {
                    Some(n) => n,
                    None => 0,
                }
            } else {
                0
            },
            None => 0,
        }),
{
    match out {
        Some(s) => {
            let fields = split_whitespace_exec(&chars_of(s.as_str()));
            if fields.len() > 0 {
                assert(views(fields@)[0] == fields@[0]@);
                match parse_unsigned_exec(&fields[0], 10, u64::MAX) {
                    Some(n) => n,
                    None => 0,
                }
            } else {
                0
            }
        },
        None => 0,
    }
}

} // verus!

verus! {

/// Everything a scan reports about one project folder, given what was read
/// from it: which marker files exist, the trimmed outputs of the git commands
/// (when they succeeded), the current time, the output of `rg` (when it ran),
/// the trimmed output of `du -sb` (when it succeeded), and the manifests that
/// could be read. Without git, the git outputs are not consulted.
pub fn project_info(
    name: String,
    path: String,
    present: &Vec<bool>,
    has_git: bool,
    rev_count_out: Option<String>,
    last_commit_out: Option<String>,
    now: i64,
    rg_out: Option<String>,
    du_out: Option<String>,
    package_json: Option<String>,
    requirements: Option<String>,
    cargo_toml: Option<String>,
) -> (r: ProjectInfo)
    requires
        present@.len() == 7,
    ensures
        r.name@ == name@,
        r.path@ == path@,
        r.languages@.map_values(|s: String| s@) == languages_upto(present@, 7),
        r.has_git == has_git,
        !has_git ==> r.commit_count == 0 && r.last_commit_days_ago is None,
        has_git ==> r.commit_count as nat == (match rev_count_out {
            Some(s) => match parse_unsigned(s@, 10, u32::MAX as nat) {
                Some(n) => n,
                None => 0,
            },
            None => 0,
        }),
        has_git ==> r.last_commit_days_ago == (match last_commit_out {
            Some(s) => match parse_signed(s@, 0x8000_0000_0000_0000, i64::MAX as nat) {
                Some(ts) => Some(div_toward_zero(now.wrapping_sub(ts as i64) as int, 86400) as i64),
                None => None,
            },
            None => None,
        }),
        r.todo_count as nat == (match rg_out {
            Some(s) => total(todo_counts(s@)) % 0x1_0000_0000,
            None => 0,
        }),
        r.disk_bytes as nat == (match du_out {
            Some(s) => if split_whitespace(s@).len() > 0 {
                match parse_unsigned(split_whitespace(s@)[0], 10, u64::MAX as nat) {
                    Some(n) => n,
                    None => 0,
                }
            } else {
                0
            },
            None => 0,
        }),
        match r.dependency_count {
            Some(n) => dependency_count_spec(text_of(package_json), text_of(requirements), text_of(cargo_toml)) == Some(n as nat),
            None => dependency_count_spec(text_of(package_json), text_of(requirements), text_of(cargo_toml)) is None,
        },
        r.activity@ == activity_spec(has_git, r.last_commit_days_ago),
{
    let (commits, days) = if has_git {
        (commit_count(rev_count_out), days_since_commit(now, last_commit_out))
    } else {
        (0, None)
    };
    let todo_count = match rg_out {
        Some(s) => count_todos(s.as_str()),
        None => 0,
    };
    ProjectInfo {
        name,
        path,
        languages: detect_languages(present),
        has_git,
        commit_count: commits,
        last_commit_days_ago: days,
        todo_count,
        disk_bytes: du_total(du_out),
        dependency_count: count_dependencies(package_json, requirements, cargo_toml),
        activity: activity(has_git, days),
    }
}

} // verus!
