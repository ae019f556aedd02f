use vstd::prelude::*;
use crate::scan::{
    chars_eq, lines, lines_exec, parse_unsigned, parse_unsigned_exec, split_char, split_char_exec,
    split_once, split_once_exec, trim, trim_end_char, trim_end_char_exec, trim_exec, views,
};
use crate::sort::{stable_sort, stable_sort_of, SortKey};
use crate::text::{chars_of, push_str, string_of};

verus! {

broadcast use vstd::seq_lib::group_seq_properties;

/// One child of a scanned folder with its total size.
#[derive(Clone, Debug)]
pub struct FolderEntry {
    pub name: String,
    pub path: String,
    pub size_bytes: u64,
    pub is_dir: bool,
}

/// Folder entries are listed largest first.
impl SortKey for FolderEntry {
    open spec fn key_le(self, other: Self) -> bool {
        self.size_bytes >= other.size_bytes
    }

    fn le(&self, other: &Self) -> (r: bool) {
        self.size_bytes >= other.size_bytes
    }

    proof fn lemma_total(a: Self, b: Self) {
    }

    proof fn lemma_transitive(a: Self, b: Self, c: Self) {
    }
}

/// The part after the last `/` of a path (all of it when there is none).
pub open spec fn last_component(p: Seq<char>) -> Seq<char> {
    split_char(p, '/').last()
}

/// The entry one line of `du -b --max-depth=1 <path>` stands for: "size\tpath",
/// skipping lines that do not parse and the summary line for `path` itself.
pub open spec fn du_entry_spec(line: Seq<char>, path: Seq<char>) -> Option<(Seq<char>, Seq<char>, nat)> {
    match split_once(line, '\t') {
        None => None,
        Some((size_str, entry_path)) => match parse_unsigned(size_str, 10, u64::MAX as nat) {
            None => None,
            Some(size) => if trim_end_char(entry_path, '/') == trim_end_char(path, '/') {
                None
            } else {
                Some((last_component(entry_path), entry_path, size))
            },
        },
    }
}

pub open spec fn entry_view(e: FolderEntry) -> (Seq<char>, Seq<char>, nat) {
    (e.name@, e.path@, e.size_bytes as nat)
}

/// The entries `du` reported, in its order, before sorting.
pub open spec fn du_entries_spec(out: Seq<char>, path: Seq<char>) -> Seq<(Seq<char>, Seq<char>, nat)> {
    lines(out).filter_map(|l: Seq<char>| du_entry_spec(l, path))
}

/// The error when running `du` failed.
pub fn du_spawn_error(e: &str) -> (r: String)
    ensures
        r@ == "Failed to run du: "@ + e@,
{
    let mut m = String::new();
    push_str(&mut m, "Failed to run du: ");
    push_str(&mut m, e);
    m
}

#[verifier::rlimit(40)]
fn du_entries(out: &Vec<char>, path: &Vec<char>) -> (r: Vec<FolderEntry>)
    ensures
        r@.map_values(|e: FolderEntry| entry_view(e)) == du_entries_spec(out@, path@),
        forall|k: int| 0 <= k < r@.len() ==> (#[trigger] r@[k]).is_dir,
{
    let ls = lines_exec(out);
    let ghost all = lines(out@);
    let ghost f = |l: Seq<char>| du_entry_spec(l, path@);
    let trimmed_path = trim_end_char_exec(path, '/');
    let mut r: Vec<FolderEntry> = Vec::new();
    let n = ls.len();
    assert(all.take(0).filter_map(f) =~= Seq::empty());
    for i in 0..n
        invariant
            n == ls@.len(),
            views(ls@) == all,
            all == lines(out@),
            f == (|l: Seq<char>| du_entry_spec(l, path@)),
            trimmed_path@ == trim_end_char(path@, '/'),
            r@.map_values(|e: FolderEntry| entry_view(e)) == all.take(i as int).filter_map(f),
            forall|k: int| 0 <= k < r@.len() ==> (#[trigger] r@[k]).is_dir,
    {
        proof {
            all.lemma_filter_map_take_succ(f, i as int);
        }
        assert(all[i as int] == ls@[i as int]@);
        let ghost old_r = r@;
        match split_once_exec(&ls[i], '\t') {
            Some((size_str, entry_path)) => match parse_unsigned_exec(&size_str, 10, u64::MAX) {
                Some(size) => {
                    if !chars_eq(&trim_end_char_exec(&entry_path, '/'), &trimmed_path) {
                        let pieces = split_char_exec(&entry_path, '/');
                        assert(views(pieces@).last() == pieces@[pieces@.len() - 1]@);
                        let e = FolderEntry {
                            name: string_of(&pieces[pieces.len() - 1]),
                            path: string_of(&entry_path),
                            size_bytes: size,
                            is_dir: true,
                        };
                        r.push(e);
                        assert(r@.map_values(|e: FolderEntry| entry_view(e)) =~= old_r.map_values(|e: FolderEntry| entry_view(e)) + seq![entry_view(e)]);
                    }
                },
                None => {},
            },
            None => {},
        }
    }
    assert(all.take(n as int) =~= all);
    r
}

/// The children of `path` from the output of `du -b --max-depth=1 <path>`,
/// largest first, at most fifty of them. When `du` printed nothing (beyond
/// whitespace) the error names the path and carries `du`'s error output.
pub fn scan_folder(path: &str, stdout: &str, stderr: &str) -> (r: Result<Vec<FolderEntry>, String>)
    ensures
        trim(stdout@).len() == 0 ==> (r matches Err(e) && e@ == "du produced no output for "@ + path@ + ": "@ + stderr@),
        trim(stdout@).len() > 0 ==> (r matches Ok(v) && exists|pre: Seq<FolderEntry>, sorted: Seq<FolderEntry>| {
            &&& pre.map_values(|e: FolderEntry| entry_view(e)) == du_entries_spec(stdout@, path@)
            &&& forall|k: int| 0 <= k < pre.len() ==> (#[trigger] pre[k]).is_dir
            &&& stable_sort_of(sorted, pre)
            &&& v@ == (if sorted.len() > 50 { sorted.take(50) } else { sorted })
        }),
{
    let out = chars_of(stdout);
    if trim_exec(&out).len() == 0 {
        let mut m = String::new();
        push_str(&mut m, "du produced no output for ");
        push_str(&mut m, path);
        push_str(&mut m, ": ");
        push_str(&mut m, stderr);
        return Err(m);
    }
    let entries = du_entries(&out, &chars_of(path));
    let ghost pre = entries@;
    let mut sorted = stable_sort(entries);
    let ghost all_sorted = sorted@;
    sorted.truncate(50);
    proof {
        if all_sorted.len() <= 50 {
            assert(sorted@ == all_sorted);
        } else {
            assert(sorted@ =~= all_sorted.take(50));
        }
    }
    Ok(sorted)
}

} // verus!
