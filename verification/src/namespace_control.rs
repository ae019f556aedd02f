use vstd::prelude::*;
use crate::scan::{chars_eq, strip_prefix, strip_prefix_exec, strip_suffix, strip_suffix_exec};
use crate::sort::{lemma_lex_total, lemma_lex_transitive, lex_le, lex_le_exec, stable_sort, SortKey};
use crate::text::{chars_of, push_str, string_of};
use vstd::string::*;

verus! {

broadcast use vstd::seq_lib::group_seq_properties;

/// The processes that share one namespace.
#[derive(Clone, Debug)]
pub struct NamespaceGroup {
    pub ns_type: String,
    pub inode: String,
    pub pids: Vec<u32>,
    pub process_names: Vec<String>,
}

/// The namespace kinds that are inspected, in order.
pub open spec fn ns_type_name(i: int) -> Seq<char> {
    if i == 0 { "net"@ }
    else if i == 1 { "pid"@ }
    else if i == 2 { "mnt"@ }
    else if i == 3 { "uts"@ }
    else if i == 4 { "ipc"@ }
    else if i == 5 { "user"@ }
    else { "cgroup"@ }
}

/// The namespace kind inspected at position `i` (of seven).
pub fn ns_type(i: usize) -> (r: &'static str)
    requires
        i < 7,
    ensures
        r@ == ns_type_name(i as int),
{
    if i == 0 { "net" }
    else if i == 1 { "pid" }
    else if i == 2 { "mnt" }
    else if i == 3 { "uts" }
    else if i == 4 { "ipc" }
    else if i == 5 { "user" }
    else { "cgroup" }
}

/// The inode in a namespace link target such as "net:[4026531840]".
pub open spec fn ns_inode_spec(ns_type: Seq<char>, link: Seq<char>) -> Option<Seq<char>> {
    match strip_prefix(link, ns_type + ":["@) {
        Some(rest) => strip_suffix(rest, "]"@),
        None => None,
    }
}

/// Reads the inode out of a `/proc/<pid>/ns/<type>` link target.
pub fn ns_inode(ns_type: &str, link: &str) -> (r: Option<String>)
    ensures
        match r {
            Some(x) => ns_inode_spec(ns_type@, link@) == Some(x@),
            None => ns_inode_spec(ns_type@, link@) is None,
        },
{
    let mut prefix = String::new();
    push_str(&mut prefix, ns_type);
    push_str(&mut prefix, ":[");
    match strip_prefix_exec(&chars_of(link), &chars_of(prefix.as_str())) {
        Some(rest) => match strip_suffix_exec(&rest, &chars_of("]")) {
            Some(x) => Some(string_of(&x)),
            None => None,
        },
        None => None,
    }
}

/// One process found in one namespace.
#[derive(Clone, Debug)]
pub struct NsMember {
    pub pid: u32,
    pub ns_type: String,
    pub inode: String,
}

/// A process's name as known to the process table, "?" when it is not there.
pub open spec fn name_of(table: Seq<(u32, String)>, pid: u32) -> Seq<char>
    decreases table.len(),
{
    if table.len() == 0 {
        "?"@
    } else if table[0].0 == pid {
        table[0].1@
    } else {
        name_of(table.drop_first(), pid)
    }
}

fn lookup_name(table: &Vec<(u32, String)>, pid: u32) -> (r: String)
    ensures
        r@ == name_of(table@, pid),
{
    let n = table.len();
    assert(table@.skip(0) =~= table@);
    for i in 0..n
        invariant
            n == table@.len(),
            name_of(table@, pid) == name_of(table@.skip(i as int), pid),
    {
        assert(table@.skip(i as int)[0] == table@[i as int]);
        assert(table@.skip(i as int).drop_first() =~= table@.skip(i + 1));
        if table[i].0 == pid {
            return table[i].1.clone();
        }
    }
    String::from_str("?")
}

/// Whether a member belongs to the namespace (`t`, `i`).
pub open spec fn member_of(m: NsMember, t: Seq<char>, i: Seq<char>) -> bool {
    m.ns_type@ == t && m.inode@ == i
}

/// Process `p` is among the first `upto` members in the namespace (`t`, `i`).
pub open spec fn in_ns(members: Seq<NsMember>, upto: int, t: Seq<char>, i: Seq<char>, p: u32) -> bool {
    exists|j: int| 0 <= j < upto && member_of(#[trigger] members[j], t, i) && members[j].pid == p
}

/// Some group is for the namespace of member `m`.
pub open spec fn has_group(groups: Seq<NamespaceGroup>, m: NsMember) -> bool {
    exists|k: int| 0 <= k < groups.len() && member_of(m, #[trigger] groups[k].ns_type@, groups[k].inode@)
}

/// The processes of a group are in increasing order without repeats, are
/// exactly the first `upto` members in its namespace, and are not none: no
/// group is reported for a namespace that no member is in.
pub open spec fn group_pids_ok(g: NamespaceGroup, members: Seq<NsMember>, upto: int) -> bool {
    &&& g.pids@.len() > 0
    &&& forall|a: int, b: int| 0 <= a < b < g.pids@.len() ==> g.pids@[a] < g.pids@[b]
    &&& forall|p: u32| g.pids@.contains(p) <==> #[trigger] in_ns(members, upto, g.ns_type@, g.inode@, p)
}

/// `g` is the group of the namespace it names: its processes are exactly the
/// members of that namespace, in increasing order without repeats, each with
/// its name from the process table.
pub open spec fn proper_group(g: NamespaceGroup, members: Seq<NsMember>, table: Seq<(u32, String)>) -> bool {
    &&& group_pids_ok(g, members, members.len() as int)
    &&& g.process_names@.len() == g.pids@.len()
    &&& forall|a: int| 0 <= a < g.pids@.len() ==> (#[trigger] g.process_names@[a])@ == name_of(table, g.pids@[a])
}

/// Some member is in the namespace of group `g`.
pub open spec fn some_member_in(members: Seq<NsMember>, g: NamespaceGroup) -> bool {
    exists|m: int| 0 <= m < members.len() && member_of(#[trigger] members[m], g.ns_type@, g.inode@)
}

/// No two groups are for the same namespace.
pub open spec fn distinct_namespaces(groups: Seq<NamespaceGroup>) -> bool {
    forall|a: int, b: int|
        0 <= a < b < groups.len() ==> !(#[trigger] groups[a].ns_type@ == #[trigger] groups[b].ns_type@ && groups[a].inode@ == groups[b].inode@)
}

/// Namespaces are listed by kind, and within a kind the ones shared by fewer
/// processes (usually containers and other isolated programs) first.
impl SortKey for NamespaceGroup {
    open spec fn key_le(self, other: Self) -> bool {
        lex_le(self.ns_type@, other.ns_type@) && (lex_le(other.ns_type@, self.ns_type@)
            ==> self.pids@.len() <= other.pids@.len())
    }

    fn le(&self, other: &Self) -> (r: bool) {
        let a = chars_of(self.ns_type.as_str());
        let b = chars_of(other.ns_type.as_str());
        lex_le_exec(&a, &b) && (!lex_le_exec(&b, &a) || self.pids.len() <= other.pids.len())
    }

    proof fn lemma_total(a: Self, b: Self) {
        lemma_lex_total(a.ns_type@, b.ns_type@);
    }

    proof fn lemma_transitive(a: Self, b: Self, c: Self) {
        lemma_lex_transitive(a.ns_type@, b.ns_type@, c.ns_type@);
        if lex_le(c.ns_type@, a.ns_type@) {
            lemma_lex_transitive(c.ns_type@, a.ns_type@, b.ns_type@);
            lemma_lex_transitive(b.ns_type@, c.ns_type@, a.ns_type@);
        }
    }
}

/// Inserts `p` into an increasing list without repeats, keeping it so.
fn insert_sorted_unique(v: &mut Vec<u32>, p: u32)
    requires
        forall|a: int, b: int| 0 <= a < b < old(v)@.len() ==> old(v)@[a] < old(v)@[b],
    ensures
        forall|a: int, b: int| 0 <= a < b < final(v)@.len() ==> final(v)@[a] < final(v)@[b],
        forall|q: u32| final(v)@.contains(q) <==> (old(v)@.contains(q) || q == p),
{
    let mut j: usize = 0;
    while j < v.len() && v[j] < p
        invariant
            j <= v@.len(),
            forall|k: int| 0 <= k < j ==> v@[k] < p,
        decreases v@.len() - j,
    {
        j = j + 1;
    }
    if j < v.len() && v[j] == p {
        assert(v@.contains(p));
        return;
    }
    let ghost before = v@;
    v.insert(j, p);
    proof {
        assert forall|a: int, b: int| 0 <= a < b < v@.len() implies v@[a] < v@[b] by {
            if b < j {
            } else if a < j && b == j {
            } else if a < j {
                assert(before[a] < before[b - 1]);
            } else if a == j {
                if b - 1 > j {
                    assert(before[j as int] < before[b - 1]);
                }
            } else {
                assert(before[a - 1] < before[b - 1]);
            }
        }
        assert forall|q: u32| v@.contains(q) <==> (before.contains(q) || q == p) by {
            if v@.contains(q) {
                let k = choose|k: int| 0 <= k < v@.len() && v@[k] == q;
                if k < j {
                    assert(before[k] == q);
                } else if k > j {
                    assert(before[k - 1] == q);
                }
            }
            if before.contains(q) {
                let k = choose|k: int| 0 <= k < before.len() && before[k] == q;
                if k < j {
                    assert(v@[k] == q);
                } else {
                    assert(v@[k + 1] == q);
                }
            }
            if q == p {
                assert(v@[j as int] == p);
            }
        }
    }
}

fn copy_pids(v: &Vec<u32>) -> (r: Vec<u32>)
    ensures
        r@ == v@,
{
    let mut r: Vec<u32> = Vec::new();
    let n = v.len();
    for i in 0..n
        invariant
            n == v@.len(),
            r@ == v@.take(i as int),
    {
        r.push(v[i]);
        assert(r@ =~= v@.take(i + 1));
    }
    assert(v@.take(n as int) =~= v@);
    r
}

/// Groups processes by the namespaces they are in. Every namespace that some
/// member is in gets exactly one group, and no other namespace gets one; a
/// group holds its processes in increasing order, with their names from the
/// process table; groups are ordered by kind and then by how many processes
/// they hold.
pub fn group_namespaces(members: &Vec<NsMember>, table: &Vec<(u32, String)>) -> (r: Vec<NamespaceGroup>)
    ensures
        forall|k: int| 0 <= k < r@.len() ==> proper_group(#[trigger] r@[k], members@, table@),
        forall|k: int| 0 <= k < r@.len() ==> #[trigger] some_member_in(members@, r@[k]),
        distinct_namespaces(r@),
        forall|m: int| 0 <= m < members@.len() ==> #[trigger] has_group(r@, members@[m]),
        forall|a: int, b: int| 0 <= a < b < r@.len() ==> (#[trigger] r@[a]).key_le(#[trigger] r@[b]),
{
    let mut groups: Vec<NamespaceGroup> = Vec::new();
    let n = members.len();
    for m in 0..n
        invariant
            n == members@.len(),
            forall|k: int| 0 <= k < groups@.len() ==> group_pids_ok(#[trigger] groups@[k], members@, m as int),
            distinct_namespaces(groups@),
            forall|j: int| 0 <= j < m ==> #[trigger] has_group(groups@, members@[j]),
    {
        let t = chars_of(members[m].ns_type.as_str());
        let i = chars_of(members[m].inode.as_str());
        let pid = members[m].pid;
        let ghost mm = members@[m as int];
        let mut found: Option<usize> = None;
        let g = groups.len();
        for k in 0..g
            invariant
                g == groups@.len(),
                t@ == mm.ns_type@,
                i@ == mm.inode@,
                match found {
                    Some(f) => f < g && member_of(mm, groups@[f as int].ns_type@, groups@[f as int].inode@),
                    None => forall|k2: int| 0 <= k2 < k ==> !member_of(mm, #[trigger] groups@[k2].ns_type@, groups@[k2].inode@),
                },
        {
            if found.is_none() && chars_eq(&chars_of(groups[k].ns_type.as_str()), &t)
                && chars_eq(&chars_of(groups[k].inode.as_str()), &i) {
                found = Some(k);
            }
        }
        let ghost before = groups@;
        match found {
            Some(f) => {
                let mut grp = groups.remove(f);
                let ghost old_grp = grp;
                insert_sorted_unique(&mut grp.pids, pid);
                groups.insert(f, grp);
                proof {
                    assert(groups@ =~= before.update(f as int, grp));
                    assert forall|k: int| 0 <= k < groups@.len() implies group_pids_ok(#[trigger] groups@[k], members@, m + 1) by {
                        let gk = groups@[k];
                        assert forall|p: u32| #[trigger] in_ns(members@, m + 1, gk.ns_type@, gk.inode@, p)
                            <==> in_ns(members@, m as int, gk.ns_type@, gk.inode@, p) || (member_of(mm, gk.ns_type@, gk.inode@) && mm.pid == p) by {
                            if in_ns(members@, m + 1, gk.ns_type@, gk.inode@, p) {
                                let j = choose|j: int| 0 <= j < m + 1 && member_of(#[trigger] members@[j], gk.ns_type@, gk.inode@) && members@[j].pid == p;
                                if j < m {
                                    assert(in_ns(members@, m as int, gk.ns_type@, gk.inode@, p));
                                }
                            }
                            if in_ns(members@, m as int, gk.ns_type@, gk.inode@, p) {
                                let j = choose|j: int| 0 <= j < m && member_of(#[trigger] members@[j], gk.ns_type@, gk.inode@) && members@[j].pid == p;
                                assert(members@[j] == members@[j]);
                            }
                            if member_of(mm, gk.ns_type@, gk.inode@) && mm.pid == p {
                                assert(members@[m as int] == mm);
                            }
                        }
                        if k == f {
                            assert(group_pids_ok(old_grp, members@, m as int));
                            assert(gk.pids@.contains(pid));
                        } else {
                            assert(group_pids_ok(before[k], members@, m as int));
                            if member_of(mm, gk.ns_type@, gk.inode@) {
                                if k < f {
                                    assert(!(before[k].ns_type@ == before[f as int].ns_type@ && before[k].inode@ == before[f as int].inode@));
                                } else {
                                    assert(!(before[f as int].ns_type@ == before[k].ns_type@ && before[f as int].inode@ == before[k].inode@));
                                }
                            }
                        }
                    }
                    assert forall|a: int, b: int| 0 <= a < b < groups@.len() implies !(#[trigger] groups@[a].ns_type@ == #[trigger] groups@[b].ns_type@ && groups@[a].inode@ == groups@[b].inode@) by {
                        assert(before[a].ns_type@ == groups@[a].ns_type@ && before[a].inode@ == groups@[a].inode@);
                        assert(before[b].ns_type@ == groups@[b].ns_type@ && before[b].inode@ == groups@[b].inode@);
                    }
                    assert forall|j: int| 0 <= j < m + 1 implies #[trigger] has_group(groups@, members@[j]) by {
                        if j < m {
                            assert(has_group(before, members@[j]));
                            let k = choose|k: int| 0 <= k < before.len() && member_of(members@[j], #[trigger] before[k].ns_type@, before[k].inode@);
                            assert(member_of(members@[j], groups@[k].ns_type@, groups@[k].inode@));
                        } else {
                            assert(member_of(members@[j], groups@[f as int].ns_type@, groups@[f as int].inode@));
                        }
                    }
                }
            },
            None => {
                let mut pids: Vec<u32> = Vec::new();
                pids.push(pid);
                let grp = NamespaceGroup {
                    ns_type: members[m].ns_type.clone(),
                    inode: members[m].inode.clone(),
                    pids,
                    process_names: Vec::new(),
                };
                groups.push(grp);
                proof {
                    assert(groups@ =~= before.push(grp));
                    assert forall|k: int| 0 <= k < groups@.len() implies group_pids_ok(#[trigger] groups@[k], members@, m + 1) by {
                        let gk = groups@[k];
                        assert forall|p: u32| #[trigger] in_ns(members@, m + 1, gk.ns_type@, gk.inode@, p)
                            <==> in_ns(members@, m as int, gk.ns_type@, gk.inode@, p) || (member_of(mm, gk.ns_type@, gk.inode@) && mm.pid == p) by {
                            if in_ns(members@, m + 1, gk.ns_type@, gk.inode@, p) {
                                let j = choose|j: int| 0 <= j < m + 1 && member_of(#[trigger] members@[j], gk.ns_type@, gk.inode@) && members@[j].pid == p;
                                if j < m {
                                    assert(in_ns(members@, m as int, gk.ns_type@, gk.inode@, p));
                                }
                            }
                            if in_ns(members@, m as int, gk.ns_type@, gk.inode@, p) {
                                let j = choose|j: int| 0 <= j < m && member_of(#[trigger] members@[j], gk.ns_type@, gk.inode@) && members@[j].pid == p;
                                assert(members@[j] == members@[j]);
                            }
                            if member_of(mm, gk.ns_type@, gk.inode@) && mm.pid == p {
                                assert(members@[m as int] == mm);
                            }
                        }
                        if k == before.len() {
                            assert forall|p: u32| !in_ns(members@, m as int, gk.ns_type@, gk.inode@, p) by {
                                if in_ns(members@, m as int, gk.ns_type@, gk.inode@, p) {
                                    let j = choose|j: int| 0 <= j < m && member_of(#[trigger] members@[j], gk.ns_type@, gk.inode@) && members@[j].pid == p;
                                    assert(has_group(before, members@[j]));
                                    let k2 = choose|k2: int| 0 <= k2 < before.len() && member_of(members@[j], #[trigger] before[k2].ns_type@, before[k2].inode@);
                                    assert(member_of(mm, before[k2].ns_type@, before[k2].inode@));
                                }
                            }
                            assert(gk.pids@ =~= seq![pid]);
                            assert forall|p: u32| gk.pids@.contains(p) <==> in_ns(members@, m + 1, gk.ns_type@, gk.inode@, p) by {
                                if gk.pids@.contains(p) {
                                    assert(gk.pids@[0] == pid);
                                }
                                if p == pid {
                                    assert(gk.pids@[0] == p);
                                }
                            }
                        } else {
                            assert(group_pids_ok(before[k], members@, m as int));
                            assert(!member_of(mm, before[k].ns_type@, before[k].inode@));
                        }
                    }
                    assert forall|a: int, b: int| 0 <= a < b < groups@.len() implies !(#[trigger] groups@[a].ns_type@ == #[trigger] groups@[b].ns_type@ && groups@[a].inode@ == groups@[b].inode@) by {
                        if b == before.len() {
                            assert(!member_of(mm, before[a].ns_type@, before[a].inode@));
                        }
                    }
                    assert forall|j: int| 0 <= j < m + 1 implies #[trigger] has_group(groups@, members@[j]) by {
                        if j < m {
                            assert(has_group(before, members@[j]));
                            let k = choose|k: int| 0 <= k < before.len() && member_of(members@[j], #[trigger] before[k].ns_type@, before[k].inode@);
                            assert(member_of(members@[j], groups@[k].ns_type@, groups@[k].inode@));
                        } else {
                            assert(member_of(members@[j], groups@[before.len() as int].ns_type@, groups@[before.len() as int].inode@));
                        }
                    }
                }
            },
        }
    }
    let mut named: Vec<NamespaceGroup> = Vec::new();
    let g = groups.len();
    for k in 0..g
        invariant
            g == groups@.len(),
            named@.len() == k,
            forall|x: int| 0 <= x < k ==> proper_group(#[trigger] named@[x], members@, table@),
            forall|x: int| 0 <= x < k ==> (#[trigger] named@[x]).ns_type@ == groups@[x].ns_type@ && named@[x].inode@ == groups@[x].inode@,
            forall|x: int| 0 <= x < groups@.len() ==> group_pids_ok(#[trigger] groups@[x], members@, members@.len() as int),
    {
        let pids = copy_pids(&groups[k].pids);
        let mut names: Vec<String> = Vec::new();
        let np = pids.len();
        for a in 0..np
            invariant
                np == pids@.len(),
                names@.len() == a,
                forall|b: int| 0 <= b < a ==> (#[trigger] names@[b])@ == name_of(table@, pids@[b]),
        {
            names.push(lookup_name(table, pids[a]));
        }
        let grp = NamespaceGroup {
            ns_type: groups[k].ns_type.clone(),
            inode: groups[k].inode.clone(),
            pids,
            process_names: names,
        };
        assert(group_pids_ok(groups@[k as int], members@, members@.len() as int));
        named.push(grp);
    }
    let ghost pre = named@;
    assert(distinct_namespaces(pre)) by {
        assert forall|a: int, b: int| 0 <= a < b < pre.len() implies !(#[trigger] pre[a].ns_type@ == #[trigger] pre[b].ns_type@ && pre[a].inode@ == pre[b].inode@) by {
            assert(!(groups@[a].ns_type@ == groups@[b].ns_type@ && groups@[a].inode@ == groups@[b].inode@));
        }
    }
    assert forall|m: int| 0 <= m < members@.len() implies #[trigger] has_group(pre, members@[m]) by {
        assert(has_group(groups@, members@[m]));
        let k = choose|k: int| 0 <= k < groups@.len() && member_of(members@[m], #[trigger] groups@[k].ns_type@, groups@[k].inode@);
        assert(member_of(members@[m], pre[k].ns_type@, pre[k].inode@));
    }
    let r = stable_sort(named);
    proof {
        let perm = choose|perm: Seq<int>| crate::sort::is_permutation_map(r@, pre, perm);
        assert forall|k: int| 0 <= k < r@.len() implies proper_group(#[trigger] r@[k], members@, table@) by {
            assert(r@[k] == pre[perm[k]]);
        }
        assert forall|a: int, b: int| 0 <= a < b < r@.len() implies !(#[trigger] r@[a].ns_type@ == #[trigger] r@[b].ns_type@ && r@[a].inode@ == r@[b].inode@) by {
            assert(r@[a] == pre[perm[a]]);
            assert(r@[b] == pre[perm[b]]);
            assert(perm[a] != perm[b]);
            if perm[a] < perm[b] {
                assert(!(pre[perm[a]].ns_type@ == pre[perm[b]].ns_type@ && pre[perm[a]].inode@ == pre[perm[b]].inode@));
            } else {
                assert(!(pre[perm[b]].ns_type@ == pre[perm[a]].ns_type@ && pre[perm[b]].inode@ == pre[perm[a]].inode@));
            }
        }
        assert forall|k: int| 0 <= k < r@.len() implies #[trigger] some_member_in(members@, r@[k]) by {
            assert(r@[k] == pre[perm[k]]);
            let g = r@[k];
            assert(g.pids@.contains(g.pids@[0]));
            assert(in_ns(members@, members@.len() as int, g.ns_type@, g.inode@, g.pids@[0]));
            let j = choose|j: int| 0 <= j < members@.len() && member_of(#[trigger] members@[j], g.ns_type@, g.inode@) && members@[j].pid == g.pids@[0];
            assert(member_of(members@[j], r@[k].ns_type@, r@[k].inode@));
        }
        assert forall|m: int| 0 <= m < members@.len() implies #[trigger] has_group(r@, members@[m]) by {
            assert(has_group(pre, members@[m]));
            let k0 = choose|k: int| 0 <= k < pre.len() && member_of(members@[m], #[trigger] pre[k].ns_type@, pre[k].inode@);
            assert(crate::sort::hits(perm, k0));
            let k = choose|k: int| 0 <= k < perm.len() && perm[k] == k0;
            assert(r@[k] == pre[k0]);
            assert(member_of(members@[m], r@[k].ns_type@, r@[k].inode@));
        }
    }
    r
}

} // verus!
