use vstd::prelude::*;

verus! {

broadcast use vstd::seq_lib::group_seq_properties;

/// Types ordered by a key that may tie: a total preorder.
pub trait SortKey: Sized {
    /// The key of `self` is at most the key of `other`.
    spec fn key_le(self, other: Self) -> bool;

    fn le(&self, other: &Self) -> (r: bool)
        ensures
            r == self.key_le(*other),
    ;

    proof fn lemma_total(a: Self, b: Self)
        ensures
            a.key_le(b) || b.key_le(a),
    ;

    proof fn lemma_transitive(a: Self, b: Self, c: Self)
        requires
            a.key_le(b),
            b.key_le(c),
        ensures
            a.key_le(c),
    ;
}

/// `a` and `b` have equal keys.
pub open spec fn same_key<T: SortKey>(a: T, b: T) -> bool {
    a.key_le(b) && b.key_le(a)
}

/// The elements with the same key as `y`, in order.
pub open spec fn key_class<T: SortKey>(s: Seq<T>, y: T) -> Seq<T> {
    s.filter(|z: T| same_key(z, y))
}

/// `s` is in ascending key order.
pub open spec fn sorted_by_key<T: SortKey>(s: Seq<T>) -> bool {
    forall|i: int, j: int| 0 <= i < j < s.len() ==> (#[trigger] s[i]).key_le(#[trigger] s[j])
}

/// `perm` maps each position of `out` to the position of `inp` it came from,
/// one to one and onto.
pub open spec fn is_permutation_map<T>(out: Seq<T>, inp: Seq<T>, perm: Seq<int>) -> bool {
    &&& perm.len() == out.len()
    &&& forall|k: int| 0 <= k < perm.len() ==> 0 <= #[trigger] perm[k] < inp.len() && out[k] == inp[perm[k]]
    &&& forall|a: int, b: int| 0 <= a < b < perm.len() ==> perm[a] != perm[b]
    &&& forall|t: int| 0 <= t < inp.len() ==> #[trigger] hits(perm, t)
}

/// Some position of `perm` maps to `t`.
pub open spec fn hits(perm: Seq<int>, t: int) -> bool {
    exists|k: int| 0 <= k < perm.len() && perm[k] == t
}

/// `out` is the stable sort of `inp`: a rearrangement of it in ascending key
/// order that holds, for every key, exactly the elements of `inp` with that key
/// in their original order.
pub open spec fn stable_sort_of<T: SortKey>(out: Seq<T>, inp: Seq<T>) -> bool {
    &&& out.len() == inp.len()
    &&& sorted_by_key(out)
    &&& forall|y: T| #[trigger] key_class(out, y) == key_class(inp, y)
    &&& exists|perm: Seq<int>| is_permutation_map(out, inp, perm)
}

proof fn lemma_insert_class<T: SortKey>(out: Seq<T>, j: int, x: T, y: T)
    requires
        0 <= j <= out.len(),
        forall|k: int| 0 <= k < j ==> (#[trigger] out[k]).key_le(x),
        forall|k: int| j <= k < out.len() ==> !(#[trigger] out[k]).key_le(x),
    ensures
        key_class(out.insert(j, x), y) == if same_key(x, y) {
            key_class(out, y).push(x)
        } else {
            key_class(out, y)
        },
{
    let p = |z: T| same_key(z, y);
    let a = out.take(j);
    let b = out.skip(j);
    assert(out.insert(j, x) =~= a + seq![x] + b);
    assert(out =~= a + b);
    Seq::filter_distributes_over_add(a + seq![x], b, p);
    Seq::filter_distributes_over_add(a, seq![x], p);
    Seq::filter_distributes_over_add(a, b, p);
    assert(seq![x] =~= Seq::<T>::empty().push(x));
    Seq::<T>::empty().lemma_filter_push(x, p);
    assert(Seq::<T>::empty().filter(p) =~= Seq::<T>::empty()) by {
        reveal(Seq::filter);
    }
    if same_key(x, y) {
        assert forall|k: int| 0 <= k < b.len() implies !p(#[trigger] b[k]) by {
            assert(b[k] == out[j + k]);
            if p(b[k]) {
                T::lemma_transitive(b[k], y, x);
            }
        }
        b.lemma_all_neg_filter_empty(p);
        assert(b.filter(p) =~= Seq::<T>::empty());
        assert(a.filter(p) + b.filter(p) =~= a.filter(p));
        assert(a.filter(p) + seq![x] + b.filter(p) =~= a.filter(p).push(x));
    } else {
        assert(a.filter(p) + Seq::<T>::empty() + b.filter(p) =~= a.filter(p) + b.filter(p));
    }
}

/// Sorts by key, keeping elements with equal keys in their original order.
pub fn stable_sort<T: SortKey>(v: Vec<T>) -> (r: Vec<T>)
    ensures
        stable_sort_of(r@, v@),
{
    let ghost orig = v@;
    let mut v = v;
    let mut out: Vec<T> = Vec::new();
    let n = v.len();
    let mut i: usize = 0;
    let ghost mut perm: Seq<int> = Seq::empty();
    assert forall|y: T| #[trigger] key_class(out@, y) == key_class(orig.take(0), y) by {
        reveal(Seq::filter);
        assert(out@ =~= orig.take(0));
    }
    while i < n
        invariant
            n == orig.len(),
            i <= n,
            v@ == orig.skip(i as int),
            out@.len() == i,
            sorted_by_key(out@),
            forall|y: T| #[trigger] key_class(out@, y) == key_class(orig.take(i as int), y),
            is_permutation_map(out@, orig.take(i as int), perm),
        decreases n - i,
    {
        let x = v.remove(0);
        assert(x == orig[i as int]);
        let mut j: usize = 0;
        while j < out.len() && out[j].le(&x)
            invariant
                j <= out@.len(),
                forall|k: int| 0 <= k < j ==> (#[trigger] out@[k]).key_le(x),
            decreases out@.len() - j,
        {
            j = j + 1;
        }
        let ghost old_out = out@;
        proof {
            assert forall|k: int| j <= k < old_out.len() implies !(#[trigger] old_out[k]).key_le(x) by {
                assert(!old_out[j as int].key_le(x));
                if k > j && old_out[k].key_le(x) {
                    T::lemma_transitive(old_out[j as int], old_out[k], x);
                }
            }
            assert forall|y: T| #[trigger] key_class(old_out.insert(j as int, x), y)
                == key_class(orig.take(i + 1), y) by {
                lemma_insert_class(old_out, j as int, x, y);
                assert(orig.take(i + 1) =~= orig.take(i as int).push(x));
                orig.take(i as int).lemma_filter_push(x, |z: T| same_key(z, y));
            }
        }
        out.insert(j, x);
        proof {
            let old_perm = perm;
            perm = perm.insert(j as int, i as int);
            assert forall|k: int| 0 <= k < perm.len() implies 0 <= #[trigger] perm[k] < orig.take(i + 1).len() && out@[k] == orig.take(i + 1)[perm[k]] by {
                if k < j {
                    assert(perm[k] == old_perm[k]);
                } else if k > j {
                    assert(perm[k] == old_perm[k - 1]);
                }
            }
            assert forall|a: int, b: int| 0 <= a < b < perm.len() implies perm[a] != perm[b] by {
                if a < j && b < j {
                } else if a < j && b == j {
                } else if a < j && b > j {
                    assert(perm[b] == old_perm[b - 1]);
                } else if a == j {
                    assert(perm[b] == old_perm[b - 1]);
                } else {
                    assert(perm[a] == old_perm[a - 1]);
                    assert(perm[b] == old_perm[b - 1]);
                }
            }
            assert forall|t: int| 0 <= t < orig.take(i + 1).len() implies #[trigger] hits(perm, t) by {
                if t == i {
                    assert(perm[j as int] == t);
                } else {
                    assert(hits(old_perm, t));
                    let k0 = choose|k: int| 0 <= k < old_perm.len() && old_perm[k] == t;
                    if k0 < j {
                        assert(perm[k0] == t);
                    } else {
                        assert(perm[k0 + 1] == t);
                    }
                }
            }
            assert forall|a: int, b: int| 0 <= a < b < out@.len() implies (#[trigger] out@[a]).key_le(#[trigger] out@[b]) by {
                if a < j && b == j {
                } else if a == j && b > j {
                    T::lemma_total(old_out[b - 1], x);
                } else if a < j && b > j {
                    assert(old_out[a].key_le(old_out[b - 1]));
                } else if b < j {
                } else {
                    assert(old_out[a - 1].key_le(old_out[b - 1]));
                }
            }
            assert(v@ =~= orig.skip(i + 1));
        }
        i = i + 1;
    }
    assert(orig.take(n as int) =~= orig);
    assert(is_permutation_map(out@, orig, perm));
    out
}

// ---------------------------------------------------------------------------
// Lexicographic order of strings
// ---------------------------------------------------------------------------

/// Lexicographic order of character sequences by code point, which is the
/// order of `str` (UTF-8 preserves code point order byte by byte).
pub open spec fn lex_le(a: Seq<char>, b: Seq<char>) -> bool
    decreases a.len(),
{
    if a.len() == 0 {
        true
    } else if b.len() == 0 {
        false
    } else if (a[0] as u32) != (b[0] as u32) {
        (a[0] as u32) < (b[0] as u32)
    } else {
        lex_le(a.drop_first(), b.drop_first())
    }
}

pub proof fn lemma_lex_total(a: Seq<char>, b: Seq<char>)
    ensures
        lex_le(a, b) || lex_le(b, a),
    decreases a.len(),
{
    if a.len() > 0 && b.len() > 0 && (a[0] as u32) == (b[0] as u32) {
        lemma_lex_total(a.drop_first(), b.drop_first());
    }
}

pub proof fn lemma_lex_transitive(a: Seq<char>, b: Seq<char>, c: Seq<char>)
    requires
        lex_le(a, b),
        lex_le(b, c),
    ensures
        lex_le(a, c),
    decreases a.len(),
{
    if a.len() > 0 && b.len() > 0 && c.len() > 0 && (a[0] as u32) == (b[0] as u32) && (b[0] as u32) == (c[0] as u32) {
        lemma_lex_transitive(a.drop_first(), b.drop_first(), c.drop_first());
    }
}

/// Compares two character sequences lexicographically.
pub fn lex_le_exec(a: &Vec<char>, b: &Vec<char>) -> (r: bool)
    ensures
        r == lex_le(a@, b@),
{
    let mut i: usize = 0;
    while i < a.len() && i < b.len() && (a[i] as u32) == (b[i] as u32)
        invariant
            i <= a@.len(),
            i <= b@.len(),
            lex_le(a@, b@) == lex_le(a@.skip(i as int), b@.skip(i as int)),
        decreases a@.len() - i,
    {
        assert(a@.skip(i as int).drop_first() =~= a@.skip(i + 1));
        assert(b@.skip(i as int).drop_first() =~= b@.skip(i + 1));
        i = i + 1;
    }
    if i == a.len() {
        true
    } else if i == b.len() {
        false
    } else {
        assert(a@.skip(i as int)[0] == a@[i as int]);
        assert(b@.skip(i as int)[0] == b@[i as int]);
        (a[i] as u32) < (b[i] as u32)
    }
}

} // verus!
