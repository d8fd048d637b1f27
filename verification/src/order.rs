//! Lexicographic order on character sequences, an executable comparison
//! on `&str`, and a verified insertion sort for vectors of strings.
//!
//! The order compares code points position by position, which agrees
//! with the byte-wise UTF-8 order that `String`'s `Ord` uses.

use vstd::prelude::*;
use vstd::string::StrSliceExecFns;

verus! {

/// `a` comes before `b` (or equals it) in code-point lexicographic order.
pub open spec fn lex_le(a: Seq<char>, b: Seq<char>) -> bool
    decreases a.len(),
{
    if a.len() == 0 {
        true
    } else if b.len() == 0 {
        false
    } else if a[0] == b[0] {
        lex_le(a.skip(1), b.skip(1))
    } else {
        (a[0] as int) < (b[0] as int)
    }
}

/// The order is total: one of the two directions always holds.
pub proof fn lemma_lex_le_total(a: Seq<char>, b: Seq<char>)
    ensures
        lex_le(a, b) || lex_le(b, a),
    decreases a.len(),
{
    if a.len() == 0 {
    } else if b.len() == 0 {
    } else if a[0] == b[0] {
        lemma_lex_le_total(a.skip(1), b.skip(1));
    } else {
        assert(a[0] as int != b[0] as int);
    }
}

/// The order is antisymmetric: mutual `lex_le` means equality.
pub proof fn lemma_lex_le_antisymmetric(a: Seq<char>, b: Seq<char>)
    requires
        lex_le(a, b),
        lex_le(b, a),
    ensures
        a == b,
    decreases a.len(),
{
    if a.len() == 0 {
        assert(b.len() == 0);
        assert(a =~= b);
    } else {
        assert(b.len() != 0);
        if a[0] == b[0] {
            lemma_lex_le_antisymmetric(a.skip(1), b.skip(1));
            assert(a =~= b) by {
                assert(a.skip(1).len() == b.skip(1).len());
                assert forall|i: int| 0 <= i < a.len() implies a[i] == b[i] by {
                    if i > 0 {
                        assert(a.skip(1)[i - 1] == b.skip(1)[i - 1]);
                    }
                }
            }
        } else {
            assert(a[0] as int != b[0] as int);
        }
    }
}

/// The order is transitive.
pub proof fn lemma_lex_le_trans(a: Seq<char>, b: Seq<char>, c: Seq<char>)
    requires
        lex_le(a, b),
        lex_le(b, c),
    ensures
        lex_le(a, c),
    decreases a.len(),
{
    if a.len() == 0 {
    } else {
        assert(b.len() != 0);
        assert(c.len() != 0);
        if a[0] == b[0] && b[0] == c[0] {
            lemma_lex_le_trans(a.skip(1), b.skip(1), c.skip(1));
        } else {
            assert(a[0] as int <= b[0] as int && b[0] as int <= c[0] as int);
        }
    }
}

/// Agreement on the first `i` characters lets the comparison start at `i`.
proof fn lemma_lex_le_common_prefix(a: Seq<char>, b: Seq<char>, i: int)
    requires
        0 <= i <= a.len(),
        i <= b.len(),
        forall|j: int| 0 <= j < i ==> a[j] == b[j],
    ensures
        lex_le(a, b) == lex_le(a.skip(i), b.skip(i)),
    decreases i,
{
    if i > 0 {
        assert(a.len() > 0 && b.len() > 0);
        assert(a[0] == b[0]);
        lemma_lex_le_common_prefix(a.skip(1), b.skip(1), i - 1);
        assert(a.skip(1).skip(i - 1) =~= a.skip(i));
        assert(b.skip(1).skip(i - 1) =~= b.skip(i));
    } else {
        assert(a.skip(0) =~= a);
        assert(b.skip(0) =~= b);
    }
}

/// Executable lexicographic comparison: `a` is at or before `b`.
pub fn str_lex_le(a: &str, b: &str) -> (r: bool)
    ensures
        r == lex_le(a@, b@),
{
    let al = a.unicode_len();
    let bl = b.unicode_len();
    let mut i: usize = 0;
    loop
        invariant
            i <= al,
            i <= bl,
            al == a@.len(),
            bl == b@.len(),
            forall|j: int| 0 <= j < i ==> a@[j] == b@[j],
        decreases al - i,
    {
        proof {
            lemma_lex_le_common_prefix(a@, b@, i as int);
        }
        if i >= al {
            proof {
                assert(a@.skip(i as int).len() == 0);
            }
            return true;
        }
        if i >= bl {
            proof {
                assert(b@.skip(i as int).len() == 0);
                assert(a@.skip(i as int).len() > 0);
            }
            return false;
        }
        let ca = a.get_char(i);
        let cb = b.get_char(i);
        if ca != cb {
            proof {
                assert(a@.skip(i as int)[0] == a@[i as int]);
                assert(b@.skip(i as int)[0] == b@[i as int]);
            }
            return (ca as u32) < (cb as u32);
        }
        i += 1;
    }
}

/// The views of a sequence of strings.
pub open spec fn views_of(s: Seq<String>) -> Seq<Seq<char>> {
    s.map_values(|x: String| x@)
}

/// `lex_le` as a relation value, for vstd's ordering vocabulary.
pub open spec fn lex_leq() -> spec_fn(Seq<char>, Seq<char>) -> bool {
    |a: Seq<char>, b: Seq<char>| lex_le(a, b)
}

/// `lex_le` is a total ordering.
pub proof fn lemma_lex_le_total_ordering()
    ensures
        vstd::relations::total_ordering(lex_leq()),
{
    let leq = lex_leq();
    assert forall|a: Seq<char>| #[trigger] leq(a, a) by {
        lemma_lex_le_total(a, a);
    }
    assert forall|a: Seq<char>, b: Seq<char>| #[trigger] leq(a, b) && #[trigger] leq(b, a)
        implies a == b by {
        lemma_lex_le_antisymmetric(a, b);
    }
    assert forall|a: Seq<char>, b: Seq<char>, c: Seq<char>|
        #[trigger] leq(a, b) && #[trigger] leq(b, c) implies leq(a, c) by {
        lemma_lex_le_trans(a, b, c);
    }
    assert forall|a: Seq<char>, b: Seq<char>| #[trigger] leq(a, b) || #[trigger] leq(b, a) by {
        lemma_lex_le_total(a, b);
    }
}

/// The sequence is sorted ascending in `lex_le`.
pub open spec fn strings_sorted(s: Seq<Seq<char>>) -> bool {
    forall|i: int, j: int| 0 <= i < j < s.len() ==> lex_le(#[trigger] s[i], #[trigger] s[j])
}

/// Taking views commutes with inserting one element.
proof fn lemma_views_of_insert(s: Seq<String>, j: int, x: String)
    requires
        0 <= j <= s.len(),
    ensures
        views_of(s.insert(j, x)) =~= views_of(s).insert(j, x@),
{
    s.insert_ensures(j, x);
    views_of(s).insert_ensures(j, x@);
}

/// Inserting an element anywhere adds exactly it to the multiset.
proof fn lemma_to_multiset_insert<A>(s: Seq<A>, j: int, x: A)
    requires
        0 <= j <= s.len(),
    ensures
        s.insert(j, x).to_multiset() =~= s.to_multiset().insert(x),
{
    broadcast use vstd::seq_lib::group_to_multiset_ensures;

    let t = s.insert(j, x);
    s.insert_ensures(j, x);
    assert(t.remove(j) =~= s) by {
        t.remove_ensures(j);
    }
    assert(t.remove(j).to_multiset() =~= t.to_multiset().remove(t[j]));
    assert(t[j] == x);
    assert(t.contains(x));
    assert(t.to_multiset().count(x) > 0);
    assert forall|y: A| s.to_multiset().insert(x).count(y) == t.to_multiset().count(y) by {
        assert(s.to_multiset().count(y) == t.to_multiset().remove(x).count(y));
    }
}

/// Insert one string into an already sorted vector, keeping it sorted.
fn insert_sorted(out: &mut Vec<String>, x: String)
    requires
        strings_sorted(views_of(old(out)@)),
    ensures
        strings_sorted(views_of(final(out)@)),
        views_of(final(out)@).to_multiset() == views_of(old(out)@).to_multiset().insert(x@),
{
    let ghost os = views_of(out@);
    let mut j: usize = 0;
    while j < out.len() && str_lex_le(&out[j], &x)
        invariant
            j <= out@.len(),
            out@ == old(out)@,
            os == views_of(out@),
            forall|k: int| 0 <= k < j ==> lex_le(#[trigger] os[k], x@),
        decreases out@.len() - j,
    {
        j += 1;
    }
    proof {
        if j < out@.len() {
            assert(!lex_le(os[j as int], x@));
            lemma_lex_le_total(os[j as int], x@);
            assert(lex_le(x@, os[j as int]));
        }
    }
    let ghost olen = out@.len() as int;
    out.insert(j, x);
    proof {
        lemma_views_of_insert(old(out)@, j as int, x);
        lemma_to_multiset_insert(os, j as int, x@);
        let ns = views_of(out@);
        assert(ns =~= os.insert(j as int, x@));
        os.insert_ensures(j as int, x@);
        assert forall|p: int, q: int| 0 <= p < q < ns.len() implies lex_le(
            #[trigger] ns[p],
            #[trigger] ns[q],
        ) by {
            if q < j {
                assert(ns[p] == os[p] && ns[q] == os[q]);
            } else if p < j && q == j {
                assert(ns[p] == os[p] && ns[q] == x@);
            } else if p < j && q > j {
                assert(ns[p] == os[p] && ns[q] == os[q - 1]);
                assert(p < q - 1);
                assert(lex_le(os[p], os[q - 1]));
            } else if p == j {
                assert(ns[p] == x@ && ns[q] == os[q - 1]);
                assert(j <= q - 1 < olen);
                assert(lex_le(x@, os[j as int]));
                if j < q - 1 {
                    assert(lex_le(os[j as int], os[q - 1]));
                    lemma_lex_le_trans(x@, os[j as int], os[q - 1]);
                }
            } else {
                assert(p > j);
                assert(ns[p] == os[p - 1] && ns[q] == os[q - 1]);
                assert(lex_le(os[p - 1], os[q - 1]));
            }
        }
    }
}

/// Sort a vector of strings ascending in `lex_le`, returning exactly the
/// same strings (as a multiset of views).
pub fn sort_strings(v: Vec<String>) -> (r: Vec<String>)
    ensures
        strings_sorted(views_of(r@)),
        views_of(r@).to_multiset() == views_of(v@).to_multiset(),
{
    broadcast use vstd::seq_lib::group_to_multiset_ensures;

    let ghost orig = views_of(v@);
    let mut rest = v;
    let mut out: Vec<String> = Vec::new();
    proof {
        assert(views_of(out@) =~= Seq::<Seq<char>>::empty());
        assert(views_of(out@).to_multiset().add(views_of(rest@).to_multiset()) =~= orig
            .to_multiset());
    }
    while rest.len() > 0
        invariant
            strings_sorted(views_of(out@)),
            views_of(out@).to_multiset().add(views_of(rest@).to_multiset()) == orig.to_multiset(),
        decreases rest@.len(),
    {
        let ghost pre = rest@;
        let x = rest.remove(0);
        proof {
            views_of(pre).remove_ensures(0);
            views_of(pre).to_multiset_ensures();
            assert(views_of(rest@) =~= views_of(pre).remove(0)) by {
                pre.remove_ensures(0);
            }
            assert(views_of(pre).remove(0).to_multiset() =~= views_of(pre).to_multiset().remove(
                views_of(pre)[0],
            ));
            assert(views_of(pre)[0] == x@);
        }
        let ghost before = views_of(out@);
        insert_sorted(&mut out, x);
        proof {
            assert(views_of(out@).to_multiset() =~= before.to_multiset().insert(x@));
            assert(views_of(out@).to_multiset().add(views_of(rest@).to_multiset()) =~= orig
                .to_multiset()) by {
                let a = before.to_multiset();
                let b = views_of(pre).to_multiset();
                assert(b.count(x@) > 0) by {
                    views_of(pre).to_multiset_ensures();
                    assert(views_of(pre)[0] == x@);
                    assert(views_of(pre).contains(x@));
                }
                assert(a.add(b) =~= orig.to_multiset());
                assert forall|y: Seq<char>|
                    a.insert(x@).add(b.remove(x@)).count(y) == a.add(b).count(y) by {}
            }
        }
    }
    proof {
        assert(views_of(rest@).to_multiset() =~= Seq::<Seq<char>>::empty().to_multiset()) by {
            assert(views_of(rest@) =~= Seq::<Seq<char>>::empty());
        }
        assert(views_of(out@).to_multiset() =~= orig.to_multiset()) by {
            assert forall|y: Seq<char>|
                views_of(out@).to_multiset().count(y) == orig.to_multiset().count(y) by {
                assert(Seq::<Seq<char>>::empty().to_multiset().count(y) == 0);
            }
        }
    }
    out
}

/// Two sorted string lists holding the same strings are the same list.
pub proof fn lemma_sorted_multiset_unique(a: Seq<Seq<char>>, b: Seq<Seq<char>>)
    requires
        strings_sorted(a),
        strings_sorted(b),
        a.to_multiset() == b.to_multiset(),
    ensures
        a == b,
{
    lemma_lex_le_total_ordering();
    vstd::seq_lib::lemma_sorted_unique(a, b, lex_leq());
}

/// Duplicate-free lists with the same members hold the same multiset.
pub proof fn lemma_distinct_same_members_multiset(a: Seq<Seq<char>>, b: Seq<Seq<char>>)
    requires
        a.no_duplicates(),
        b.no_duplicates(),
        forall|x: Seq<char>| a.contains(x) <==> b.contains(x),
    ensures
        a.to_multiset() == b.to_multiset(),
{
    a.lemma_multiset_has_no_duplicates();
    b.lemma_multiset_has_no_duplicates();
    a.to_multiset_ensures();
    b.to_multiset_ensures();
    assert forall|x: Seq<char>| a.to_multiset().count(x) == b.to_multiset().count(x) by {
        if a.contains(x) {
            assert(a.to_multiset().count(x) > 0);
            assert(b.to_multiset().count(x) > 0);
        } else {
            assert(!b.contains(x));
            assert(a.to_multiset().count(x) == 0);
            assert(b.to_multiset().count(x) == 0);
        }
    }
    assert(a.to_multiset() =~= b.to_multiset());
}

/// A filtered list holds exactly the members that pass the predicate.
pub proof fn lemma_filter_membership(s: Seq<Seq<char>>, p: spec_fn(Seq<char>) -> bool)
    ensures
        forall|x: Seq<char>| s.filter(p).contains(x) <==> (s.contains(x) && p(x)),
    decreases s.len(),
{
    reveal(Seq::filter);
    if s.len() == 0 {
        assert forall|x: Seq<char>| s.filter(p).contains(x) <==> (s.contains(x) && p(x)) by {}
    } else {
        let dl = s.drop_last();
        let last = s.last();
        lemma_filter_membership(dl, p);
        assert forall|x: Seq<char>| s.filter(p).contains(x) implies (s.contains(x) && p(x)) by {
            let f = s.filter(p);
            let i = choose|i: int| 0 <= i < f.len() && f[i] == x;
            if p(last) {
                assert(f == dl.filter(p).push(last));
                if i < f.len() - 1 {
                    assert(dl.filter(p)[i] == x);
                    assert(dl.filter(p).contains(x));
                    assert(dl.contains(x));
                    let j = choose|j: int| 0 <= j < dl.len() && dl[j] == x;
                    assert(s[j] == x);
                } else {
                    assert(x == last);
                    assert(s[s.len() - 1] == x);
                }
            } else {
                assert(f == dl.filter(p));
                assert(dl.filter(p).contains(x));
                assert(dl.contains(x));
                let j = choose|j: int| 0 <= j < dl.len() && dl[j] == x;
                assert(s[j] == x);
            }
        }
        assert forall|x: Seq<char>| s.contains(x) && p(x) implies s.filter(p).contains(x) by {
            let i = choose|i: int| 0 <= i < s.len() && s[i] == x;
            if i < s.len() - 1 {
                assert(dl[i] == x);
                assert(dl.contains(x));
                assert(dl.filter(p).contains(x));
                let j = choose|j: int| 0 <= j < dl.filter(p).len() && dl.filter(p)[j] == x;
                if p(last) {
                    assert(s.filter(p)[j] == x);
                } else {
                    assert(s.filter(p)[j] == x);
                }
            } else {
                assert(x == last);
                assert(p(last));
                assert(s.filter(p) == dl.filter(p).push(last));
                assert(s.filter(p)[s.filter(p).len() - 1] == x);
            }
        }
    }
}

/// Filtering a sorted list keeps it sorted.
pub proof fn lemma_filter_sorted(s: Seq<Seq<char>>, p: spec_fn(Seq<char>) -> bool)
    requires
        strings_sorted(s),
    ensures
        strings_sorted(s.filter(p)),
    decreases s.len(),
{
    reveal(Seq::filter);
    if s.len() > 0 {
        let dl = s.drop_last();
        let last = s.last();
        assert(strings_sorted(dl)) by {
            assert(forall|i: int| 0 <= i < dl.len() ==> dl[i] == #[trigger] s[i]);
        }
        lemma_filter_sorted(dl, p);
        lemma_filter_membership(dl, p);
        if p(last) {
            let f = dl.filter(p).push(last);
            assert(s.filter(p) == f);
            assert forall|i: int, j: int| 0 <= i < j < f.len() implies lex_le(
                #[trigger] f[i],
                #[trigger] f[j],
            ) by {
                if j < f.len() - 1 {
                    assert(lex_le(dl.filter(p)[i], dl.filter(p)[j]));
                } else {
                    assert(f[j] == last);
                    assert(dl.filter(p).contains(f[i])) by {
                        assert(dl.filter(p)[i] == f[i]);
                    }
                    assert(dl.contains(f[i]));
                    let k = choose|k: int| 0 <= k < dl.len() && dl[k] == f[i];
                    assert(s[k] == f[i]);
                    assert(lex_le(s[k], s[s.len() - 1]));
                }
            }
        }
    }
}

/// Filtering a duplicate-free list keeps it duplicate-free.
pub proof fn lemma_filter_no_duplicates(s: Seq<Seq<char>>, p: spec_fn(Seq<char>) -> bool)
    requires
        s.no_duplicates(),
    ensures
        s.filter(p).no_duplicates(),
    decreases s.len(),
{
    reveal(Seq::filter);
    if s.len() > 0 {
        let dl = s.drop_last();
        let last = s.last();
        assert(dl.no_duplicates()) by {
            assert(forall|i: int| 0 <= i < dl.len() ==> dl[i] == #[trigger] s[i]);
        }
        lemma_filter_no_duplicates(dl, p);
        lemma_filter_membership(dl, p);
        if p(last) {
            let f = dl.filter(p).push(last);
            assert(s.filter(p) == f);
            assert(!dl.contains(last)) by {
                if dl.contains(last) {
                    let k = choose|k: int| 0 <= k < dl.len() && dl[k] == last;
                    assert(s[k] == s[s.len() - 1]);
                }
            }
            assert(!dl.filter(p).contains(last));
            assert forall|i: int, j: int|
                (0 <= i < f.len() && 0 <= j < f.len() && i != j) implies #[trigger] f[i]
                != #[trigger] f[j] by {
                if i < f.len() - 1 && j < f.len() - 1 {
                    assert(dl.filter(p)[i] == f[i] && dl.filter(p)[j] == f[j]);
                } else if i == f.len() - 1 {
                    assert(f[i] == last);
                    assert(dl.filter(p)[j] == f[j]);
                    if f[j] == last {
                        assert(dl.filter(p).contains(last));
                    }
                } else {
                    assert(f[j] == last);
                    assert(dl.filter(p)[i] == f[i]);
                    if f[i] == last {
                        assert(dl.filter(p).contains(last));
                    }
                }
            }
        }
    }
}

} // verus!
