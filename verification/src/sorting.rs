//! Stable sorting of key-tagged entries.
//!
//! Every ordering the renderers need (inline diagnostics by severity, code
//! lenses by start position, code actions by kind bucket) is expressed by
//! tagging each entry with a `u64` key and sorting by that key. The sort
//! is a stable insertion sort whose result is pinned exactly by the spec
//! function `sort_by_key`; sortedness, permutation and stability are
//! proved of that function once, below.

use vstd::prelude::*;

use vstd::multiset::Multiset;

verus! {

/// Keys never decrease along the sequence.
pub open spec fn sorted_by_key<T>(s: Seq<(u64, T)>) -> bool {
    forall|i: int, j: int| 0 <= i < j < s.len() ==> s[i].0 <= s[j].0
}

/// `x` inserted behind every entry whose key is at most `x`'s: the stable
/// position.
pub open spec fn insert_by_key<T>(x: (u64, T), s: Seq<(u64, T)>) -> Seq<(u64, T)>
    decreases s.len(),
{
    if s.len() == 0 {
        seq![x]
    } else if x.0 < s[0].0 {
        seq![x] + s
    } else {
        seq![s[0]] + insert_by_key(x, s.drop_first())
    }
}

/// Stable insertion sort: entries are inserted left to right, each behind
/// its equal keys.
pub open spec fn sort_by_key<T>(s: Seq<(u64, T)>) -> Seq<(u64, T)>
    decreases s.len(),
{
    if s.len() == 0 {
        Seq::empty()
    } else {
        insert_by_key(s.last(), sort_by_key(s.drop_last()))
    }
}

/// The subsequence of entries carrying key `k`, in order.
pub open spec fn entries_with_key<T>(s: Seq<(u64, T)>, k: u64) -> Seq<(u64, T)>
    decreases s.len(),
{
    if s.len() == 0 {
        Seq::empty()
    } else if s[0].0 == k {
        seq![s[0]] + entries_with_key(s.drop_first(), k)
    } else {
        entries_with_key(s.drop_first(), k)
    }
}

pub proof fn lemma_insert_by_key_len<T>(x: (u64, T), s: Seq<(u64, T)>)
    ensures
        insert_by_key(x, s).len() == s.len() + 1,
    decreases s.len(),
{
    if s.len() > 0 && !(x.0 < s[0].0) {
        lemma_insert_by_key_len(x, s.drop_first());
    }
}

/// Inserting preserves sortedness.
pub proof fn lemma_insert_by_key_sorted<T>(x: (u64, T), s: Seq<(u64, T)>)
    requires
        sorted_by_key(s),
    ensures
        sorted_by_key(insert_by_key(x, s)),
    decreases s.len(),
{
    if s.len() == 0 {
    } else if x.0 < s[0].0 {
        assert forall|i: int, j: int|
            0 <= i < j < insert_by_key(x, s).len() implies insert_by_key(x, s)[i].0 <= insert_by_key(
            x,
            s,
        )[j].0 by {
            if i > 0 {
                assert(insert_by_key(x, s)[i] == s[i - 1]);
                assert(insert_by_key(x, s)[j] == s[j - 1]);
            } else {
                assert(insert_by_key(x, s)[j] == s[j - 1]);
                assert(s[0].0 <= s[j - 1].0);
            }
        }
    } else {
        assert(sorted_by_key(s.drop_first())) by {
            assert forall|i: int, j: int|
                0 <= i < j < s.drop_first().len() implies s.drop_first()[i].0
                <= s.drop_first()[j].0 by {
                assert(s.drop_first()[i] == s[i + 1]);
                assert(s.drop_first()[j] == s[j + 1]);
            }
        }
        lemma_insert_by_key_sorted(x, s.drop_first());
        lemma_insert_by_key_len(x, s.drop_first());
        let r = insert_by_key(x, s);
        let rest = insert_by_key(x, s.drop_first());
        assert forall|i: int, j: int| 0 <= i < j < r.len() implies r[i].0 <= r[j].0 by {
            if i == 0 {
                assert(r[j] == rest[j - 1]);
                // every entry of `rest` is either x or an entry of s
                lemma_insert_by_key_members(x, s.drop_first(), j - 1);
            } else {
                assert(r[i] == rest[i - 1]);
                assert(r[j] == rest[j - 1]);
            }
        }
    }
}

/// Each entry of the inserted sequence is `x` or came from `s`, with a key
/// at least `min(x.0, s[0].0)` when `s` is sorted.
proof fn lemma_insert_by_key_members<T>(x: (u64, T), s: Seq<(u64, T)>, i: int)
    requires
        sorted_by_key(s),
        0 <= i < insert_by_key(x, s).len(),
    ensures
        insert_by_key(x, s)[i] == x || s.contains(insert_by_key(x, s)[i]),
    decreases s.len(),
{
    lemma_insert_by_key_len(x, s);
    if s.len() == 0 {
    } else if x.0 < s[0].0 {
        if i > 0 {
            assert(insert_by_key(x, s)[i] == s[i - 1]);
        }
    } else {
        if i == 0 {
            assert(insert_by_key(x, s)[0] == s[0]);
        } else {
            assert(sorted_by_key(s.drop_first())) by {
                assert forall|a: int, b: int|
                    0 <= a < b < s.drop_first().len() implies s.drop_first()[a].0
                    <= s.drop_first()[b].0 by {
                    assert(s.drop_first()[a] == s[a + 1]);
                    assert(s.drop_first()[b] == s[b + 1]);
                }
            }
            lemma_insert_by_key_members(x, s.drop_first(), i - 1);
            assert(insert_by_key(x, s)[i] == insert_by_key(x, s.drop_first())[i - 1]);
            if s.drop_first().contains(insert_by_key(x, s.drop_first())[i - 1]) {
                let w = choose|w: int|
                    0 <= w < s.drop_first().len() && s.drop_first()[w] == insert_by_key(
                        x,
                        s.drop_first(),
                    )[i - 1];
                assert(s[w + 1] == insert_by_key(x, s.drop_first())[i - 1]);
            }
        }
    }
}

/// The sort's result is sorted.
pub proof fn lemma_sort_by_key_sorted<T>(s: Seq<(u64, T)>)
    ensures
        sorted_by_key(sort_by_key(s)),
    decreases s.len(),
{
    if s.len() > 0 {
        lemma_sort_by_key_sorted(s.drop_last());
        lemma_insert_by_key_sorted(s.last(), sort_by_key(s.drop_last()));
    }
}

/// Inserting adds exactly one occurrence to the multiset of entries.
pub proof fn lemma_insert_by_key_multiset<T>(x: (u64, T), s: Seq<(u64, T)>)
    ensures
        insert_by_key(x, s).to_multiset() == s.to_multiset().insert(x),
    decreases s.len(),
{
    broadcast use vstd::seq_lib::group_to_multiset_ensures;

    if s.len() == 0 {
        assert(insert_by_key(x, s) =~= Seq::empty().push(x));
        assert(Seq::<(u64, T)>::empty().push(x).to_multiset() =~= Seq::<(
            u64,
            T,
        )>::empty().to_multiset().insert(x));
    } else if x.0 < s[0].0 {
        assert(insert_by_key(x, s) =~= seq![x] + s);
        vstd::seq_lib::lemma_multiset_commutative(seq![x], s);
        assert(seq![x].to_multiset() =~= Multiset::empty().insert(x)) by {
            assert(seq![x] =~= Seq::empty().push(x));
        }
        assert((seq![x] + s).to_multiset() =~= s.to_multiset().insert(x));
    } else {
        lemma_insert_by_key_multiset(x, s.drop_first());
        let rest = insert_by_key(x, s.drop_first());
        assert(insert_by_key(x, s) =~= seq![s[0]] + rest);
        vstd::seq_lib::lemma_multiset_commutative(seq![s[0]], rest);
        assert(seq![s[0]].to_multiset() =~= Multiset::empty().insert(s[0])) by {
            assert(seq![s[0]] =~= Seq::empty().push(s[0]));
        }
        assert(s =~= seq![s[0]] + s.drop_first());
        vstd::seq_lib::lemma_multiset_commutative(seq![s[0]], s.drop_first());
        assert(insert_by_key(x, s).to_multiset() =~= s.to_multiset().insert(x));
    }
}

/// The sort permutes its input: same entries, same multiplicities.
pub proof fn lemma_sort_by_key_multiset<T>(s: Seq<(u64, T)>)
    ensures
        sort_by_key(s).to_multiset() == s.to_multiset(),
    decreases s.len(),
{
    broadcast use vstd::seq_lib::group_to_multiset_ensures;

    if s.len() > 0 {
        lemma_sort_by_key_multiset(s.drop_last());
        lemma_insert_by_key_multiset(s.last(), sort_by_key(s.drop_last()));
        assert(s =~= s.drop_last().push(s.last()));
        assert(s.drop_last().push(s.last()).to_multiset() =~= s.drop_last().to_multiset().insert(
            s.last(),
        ));
    }
}

/// In a sorted sequence whose first key exceeds `k`, no entry carries `k`.
proof fn lemma_entries_with_key_empty<T>(s: Seq<(u64, T)>, k: u64)
    requires
        forall|i: int| 0 <= i < s.len() ==> k < #[trigger] s[i].0,
    ensures
        entries_with_key(s, k) =~= Seq::empty(),
    decreases s.len(),
{
    if s.len() > 0 {
        assert forall|i: int| 0 <= i < s.drop_first().len() implies k < #[trigger] s.drop_first()[i].0 by {
            assert(s.drop_first()[i] == s[i + 1]);
        }
        lemma_entries_with_key_empty(s.drop_first(), k);
    }
}


/// The key classes of a one-entry sequence.
proof fn lemma_entries_singleton<T>(x: (u64, T), k: u64)
    ensures
        entries_with_key(seq![x], k) == if x.0 == k {
            seq![x]
        } else {
            Seq::<(u64, T)>::empty()
        },
{
    let s1 = seq![x];
    assert(s1.len() == 1);
    assert(s1[0] == x);
    assert(s1.drop_first() =~= Seq::<(u64, T)>::empty());
    assert(entries_with_key(s1.drop_first(), k) =~= Seq::<(u64, T)>::empty()) by {
        assert(s1.drop_first().len() == 0);
    }
    if x.0 == k {
        assert(entries_with_key(s1, k) =~= seq![s1[0]] + entries_with_key(s1.drop_first(), k));
        assert(seq![s1[0]] + Seq::<(u64, T)>::empty() =~= seq![x]);
    }
}

/// Inserting appends `x` to its key class and leaves the others untouched.
proof fn lemma_insert_entries_with_key<T>(x: (u64, T), s: Seq<(u64, T)>, k: u64)
    requires
        sorted_by_key(s),
    ensures
        entries_with_key(insert_by_key(x, s), k) == if x.0 == k {
            entries_with_key(s, k).push(x)
        } else {
            entries_with_key(s, k)
        },
    decreases s.len(),
{
    if s.len() == 0 {
        assert(insert_by_key(x, s) =~= seq![x]);
        lemma_entries_singleton(x, k);
        if x.0 == k {
            assert(entries_with_key(s, k).push(x) =~= seq![x]);
        }
    } else if x.0 < s[0].0 {
        let r = seq![x] + s;
        assert(insert_by_key(x, s) == r);
        assert(r[0] == x);
        assert(r.drop_first() =~= s);
        if x.0 == k {
            assert forall|i: int| 0 <= i < s.len() implies k < #[trigger] s[i].0 by {
                assert(s[0].0 <= s[i].0);
            }
            lemma_entries_with_key_empty(s, k);
            assert(entries_with_key(r, k) =~= seq![x] + entries_with_key(s, k));
            assert(seq![x] + entries_with_key(s, k) =~= entries_with_key(s, k).push(x));
        } else {
            assert(entries_with_key(r, k) == entries_with_key(s, k));
        }
    } else {
        assert(sorted_by_key(s.drop_first())) by {
            assert forall|a: int, b: int|
                0 <= a < b < s.drop_first().len() implies s.drop_first()[a].0
                <= s.drop_first()[b].0 by {
                assert(s.drop_first()[a] == s[a + 1]);
                assert(s.drop_first()[b] == s[b + 1]);
            }
        }
        lemma_insert_entries_with_key(x, s.drop_first(), k);
        let rest = insert_by_key(x, s.drop_first());
        let r = seq![s[0]] + rest;
        assert(insert_by_key(x, s) == r);
        assert(r[0] == s[0]);
        assert(r.drop_first() =~= rest);
        if s[0].0 == k {
            if x.0 == k {
                assert(entries_with_key(r, k) =~= seq![s[0]] + entries_with_key(
                    s.drop_first(),
                    k,
                ).push(x));
                assert(entries_with_key(s, k) =~= seq![s[0]] + entries_with_key(
                    s.drop_first(),
                    k,
                ));
                assert(seq![s[0]] + entries_with_key(s.drop_first(), k).push(x)
                    =~= entries_with_key(s, k).push(x));
            } else {
                assert(entries_with_key(r, k) =~= seq![s[0]] + entries_with_key(
                    s.drop_first(),
                    k,
                ));
                assert(entries_with_key(s, k) =~= seq![s[0]] + entries_with_key(
                    s.drop_first(),
                    k,
                ));
            }
        } else {
            if x.0 == k {
                assert(entries_with_key(r, k) =~= entries_with_key(s.drop_first(), k).push(x));
                assert(entries_with_key(s, k) =~= entries_with_key(s.drop_first(), k));
            } else {
                assert(entries_with_key(r, k) =~= entries_with_key(s.drop_first(), k));
                assert(entries_with_key(s, k) =~= entries_with_key(s.drop_first(), k));
            }
        }
    }
}

/// Stability: sorting does not reorder entries of equal key.
pub proof fn lemma_sort_by_key_stable<T>(s: Seq<(u64, T)>, k: u64)
    ensures
        entries_with_key(sort_by_key(s), k) == entries_with_key(s, k),
    decreases s.len(),
{
    if s.len() > 0 {
        lemma_sort_by_key_stable(s.drop_last(), k);
        lemma_sort_by_key_sorted(s.drop_last());
        lemma_insert_entries_with_key(s.last(), sort_by_key(s.drop_last()), k);
        lemma_entries_with_key_push(s.drop_last(), s.last(), k);
        assert(s.drop_last().push(s.last()) =~= s);
    }
}

/// Appending an entry appends it to its key class.
proof fn lemma_entries_with_key_push<T>(s: Seq<(u64, T)>, x: (u64, T), k: u64)
    ensures
        entries_with_key(s.push(x), k) == if x.0 == k {
            entries_with_key(s, k).push(x)
        } else {
            entries_with_key(s, k)
        },
    decreases s.len(),
{
    if s.len() == 0 {
        assert(s.push(x) =~= seq![x]);
        lemma_entries_singleton(x, k);
        if x.0 == k {
            assert(entries_with_key(s, k).push(x) =~= seq![x]);
        }
    } else {
        assert(s.push(x)[0] == s[0]);
        assert(s.push(x).drop_first() =~= s.drop_first().push(x));
        lemma_entries_with_key_push(s.drop_first(), x, k);
        if s[0].0 == k {
            if x.0 == k {
                assert(entries_with_key(s.push(x), k) =~= seq![s[0]] + entries_with_key(
                    s.drop_first(),
                    k,
                ).push(x));
                assert(entries_with_key(s, k).push(x) =~= seq![s[0]] + entries_with_key(
                    s.drop_first(),
                    k,
                ).push(x));
            }
        }
    }
}

/// Every entry of the sorted sequence is an entry of the input, and the
/// lengths agree.
pub proof fn lemma_sort_by_key_contains<T>(s: Seq<(u64, T)>)
    ensures
        sort_by_key(s).len() == s.len(),
        forall|k: int| 0 <= k < sort_by_key(s).len() ==> s.contains(#[trigger] sort_by_key(s)[k]),
{
    broadcast use vstd::seq_lib::group_to_multiset_ensures;

    lemma_sort_by_key_multiset(s);
    assert(sort_by_key(s).to_multiset().len() == s.to_multiset().len());
    assert forall|k: int| 0 <= k < sort_by_key(s).len() implies s.contains(
        #[trigger] sort_by_key(s)[k],
    ) by {
        assert(sort_by_key(s).contains(sort_by_key(s)[k]));
        assert(sort_by_key(s).to_multiset().count(sort_by_key(s)[k]) > 0);
    }
}

/// Inserts `x` at its stable position in the sorted vector `out`.
fn insert_sorted<T>(out: &mut Vec<(u64, T)>, x: (u64, T))
    requires
        sorted_by_key(old(out)@),
    ensures
        final(out)@ == insert_by_key(x, old(out)@),
        sorted_by_key(final(out)@),
{
    proof {
        lemma_insert_by_key_sorted(x, old(out)@);
    }
    let mut p: usize = 0;
    while p < out.len() && out[p].0 <= x.0
        invariant
            p <= out@.len(),
            forall|i: int| 0 <= i < p ==> out@[i].0 <= x.0,
            out@ == old(out)@,
        decreases out@.len() - p,
    {
        p = p + 1;
    }
    proof {
        lemma_insert_at_position(x, out@, p as int);
    }
    out.insert(p, x);
}

/// For a sorted sequence, the stable position is the first index whose key
/// exceeds `x`'s.
proof fn lemma_insert_at_position<T>(x: (u64, T), s: Seq<(u64, T)>, p: int)
    requires
        sorted_by_key(s),
        0 <= p <= s.len(),
        forall|i: int| 0 <= i < p ==> s[i].0 <= x.0,
        p < s.len() ==> x.0 < s[p].0,
    ensures
        insert_by_key(x, s) == s.insert(p, x),
    decreases s.len(),
{
    if s.len() == 0 {
        assert(s.insert(0, x) =~= seq![x]);
    } else if p == 0 {
        assert(x.0 < s[0].0);
        assert(s.insert(0, x) =~= seq![x] + s);
    } else {
        assert(s[0].0 <= x.0);
        assert(sorted_by_key(s.drop_first())) by {
            assert forall|a: int, b: int|
                0 <= a < b < s.drop_first().len() implies s.drop_first()[a].0
                <= s.drop_first()[b].0 by {
                assert(s.drop_first()[a] == s[a + 1]);
                assert(s.drop_first()[b] == s[b + 1]);
            }
        }
        assert forall|i: int| 0 <= i < p - 1 implies s.drop_first()[i].0 <= x.0 by {
            assert(s.drop_first()[i] == s[i + 1]);
        }
        if p - 1 < s.drop_first().len() {
            assert(s.drop_first()[p - 1] == s[p]);
        }
        lemma_insert_at_position(x, s.drop_first(), p - 1);
        assert(insert_by_key(x, s) == seq![s[0]] + s.drop_first().insert(p - 1, x));
        assert(seq![s[0]] + s.drop_first().insert(p - 1, x) =~= s.insert(p, x));
    }
}

/// Sorts key-tagged entries: the result is exactly the stable insertion
/// sort of the input.
pub fn sort_pairs_by_key<T>(input: Vec<(u64, T)>) -> (r: Vec<(u64, T)>)
    ensures
        r@ == sort_by_key(input@),
        sorted_by_key(r@),
{
    let ghost input0 = input@;
    let mut rest = input;
    let mut out: Vec<(u64, T)> = Vec::new();
    let ghost mut i: int = 0;
    proof {
        assert(input0.take(0) =~= Seq::empty());
        assert(input0.skip(0) =~= input0);
    }
    while rest.len() > 0
        invariant
            0 <= i <= input0.len(),
            rest@ == input0.skip(i),
            out@ == sort_by_key(input0.take(i)),
            sorted_by_key(out@),
        decreases rest@.len(),
    {
        let x = rest.remove(0);
        proof {
            assert(x == input0[i]);
            assert(rest@ =~= input0.skip(i + 1));
            assert(input0.take(i + 1).drop_last() =~= input0.take(i));
            assert(input0.take(i + 1).last() == input0[i]);
        }
        insert_sorted(&mut out, x);
        proof {
            i = i + 1;
        }
    }
    proof {
        assert(input0.take(i) =~= input0);
    }
    out
}

} // verus!
