//! Sorted sets of strings: the lexicographic order on character sequences
//! (the order of `String`'s `Ord`), and sorted, duplicate-free vectors kept
//! that way under insertion.
use vstd::prelude::*;
use crate::strings::strings_view;

verus! {

/// Lexicographic order by code point: `a` sorts strictly before `b`.
pub open spec fn seq_lt(a: Seq<char>, b: Seq<char>) -> bool
    decreases a.len(),
{
    if a.len() == 0 {
        b.len() > 0
    } else if b.len() == 0 {
        false
    } else if a[0] != b[0] {
        (a[0] as u32) < (b[0] as u32)
    } else {
        seq_lt(a.drop_first(), b.drop_first())
    }
}

/// Strictly increasing, hence without duplicates.
pub open spec fn sorted_strict(s: Seq<Seq<char>>) -> bool {
    forall|i: int, j: int| 0 <= i < j < s.len() ==> seq_lt(#[trigger] s[i], #[trigger] s[j])
}

pub proof fn lemma_lt_irreflexive(a: Seq<char>)
    ensures
        !seq_lt(a, a),
    decreases a.len(),
{
    if a.len() > 0 {
        lemma_lt_irreflexive(a.drop_first());
    }
}

pub proof fn lemma_lt_asymmetric(a: Seq<char>, b: Seq<char>)
    ensures
        seq_lt(a, b) ==> !seq_lt(b, a),
    decreases a.len(),
{
    if a.len() > 0 && b.len() > 0 && a[0] == b[0] {
        lemma_lt_asymmetric(a.drop_first(), b.drop_first());
    }
}

pub proof fn lemma_lt_transitive(a: Seq<char>, b: Seq<char>, c: Seq<char>)
    requires
        seq_lt(a, b),
        seq_lt(b, c),
    ensures
        seq_lt(a, c),
    decreases a.len(),
{
    if a.len() > 0 && b.len() > 0 && c.len() > 0 && a[0] == b[0] && b[0] == c[0] {
        lemma_lt_transitive(a.drop_first(), b.drop_first(), c.drop_first());
    }
}

pub proof fn lemma_lt_total(a: Seq<char>, b: Seq<char>)
    ensures
        a == b || seq_lt(a, b) || seq_lt(b, a),
    decreases a.len(),
{
    if a.len() > 0 && b.len() > 0 && a[0] == b[0] {
        lemma_lt_total(a.drop_first(), b.drop_first());
        if a.drop_first() == b.drop_first() {
            assert(a =~= seq![a[0]] + a.drop_first());
            assert(b =~= seq![b[0]] + b.drop_first());
        }
    } else if a.len() == 0 && b.len() == 0 {
        assert(a =~= b);
    } else if a.len() > 0 && b.len() > 0 {
        if (a[0] as u32) == (b[0] as u32) {
            vstd::utf8::char_u32_cast(a[0], a[0] as u32);
            vstd::utf8::char_u32_cast(b[0], b[0] as u32);
        }
    }
}

/// A sorted sequence has no duplicates.
pub proof fn lemma_sorted_no_dup(s: Seq<Seq<char>>)
    requires
        sorted_strict(s),
    ensures
        s.no_duplicates(),
{
    assert forall|i: int, j: int| 0 <= i < s.len() && 0 <= j < s.len() && i != j implies s[i] != s[j] by {
        if i < j {
            assert(seq_lt(s[i], s[j]));
            lemma_lt_irreflexive(s[i]);
        } else {
            assert(seq_lt(s[j], s[i]));
            lemma_lt_irreflexive(s[j]);
        }
    }
}

/// Two sorted sequences with the same elements are equal.
pub proof fn lemma_sorted_unique(s: Seq<Seq<char>>, t: Seq<Seq<char>>)
    requires
        sorted_strict(s),
        sorted_strict(t),
        s.to_set() == t.to_set(),
    ensures
        s == t,
    decreases s.len(),
{
    lemma_sorted_no_dup(s);
    lemma_sorted_no_dup(t);
    s.unique_seq_to_set();
    t.unique_seq_to_set();
    if s.len() == 0 {
        assert(t.len() == 0);
        assert(s =~= t);
    } else {
        // The first elements are both the least element.
        assert(t.len() > 0);
        assert(t.to_set().contains(s[0]));
        assert(s.to_set().contains(t[0]));
        let i = choose|i: int| 0 <= i < t.len() && t[i] == s[0];
        let j = choose|j: int| 0 <= j < s.len() && s[j] == t[0];
        if i > 0 {
            assert(seq_lt(t[0], t[i]));
            if j > 0 {
                assert(seq_lt(s[0], s[j]));
                lemma_lt_asymmetric(t[0], s[0]);
            } else {
                lemma_lt_irreflexive(t[0]);
            }
        }
        assert(s[0] == t[0]);
        let s1 = s.drop_first();
        let t1 = t.drop_first();
        assert(sorted_strict(s1)) by {
            assert forall|a: int, b: int| 0 <= a < b < s1.len() implies seq_lt(#[trigger] s1[a], #[trigger] s1[b]) by {
                assert(s1[a] == s[a + 1] && s1[b] == s[b + 1]);
            }
        }
        assert(sorted_strict(t1)) by {
            assert forall|a: int, b: int| 0 <= a < b < t1.len() implies seq_lt(#[trigger] t1[a], #[trigger] t1[b]) by {
                assert(t1[a] == t[a + 1] && t1[b] == t[b + 1]);
            }
        }
        assert(s1.to_set() =~= t1.to_set()) by {
            assert forall|x: Seq<char>| s1.to_set().contains(x) implies t1.to_set().contains(x) by {
                let k = choose|k: int| 0 <= k < s1.len() && s1[k] == x;
                assert(s.to_set().contains(x)) by {
                    assert(s[k + 1] == x);
                }
                let m = choose|m: int| 0 <= m < t.len() && t[m] == x;
                if m == 0 {
                    assert(seq_lt(s[0], s[k + 1]));
                    lemma_lt_irreflexive(s[0]);
                }
                assert(t1[m - 1] == x);
            }
            assert forall|x: Seq<char>| t1.to_set().contains(x) implies s1.to_set().contains(x) by {
                let k = choose|k: int| 0 <= k < t1.len() && t1[k] == x;
                assert(t.to_set().contains(x)) by {
                    assert(t[k + 1] == x);
                }
                let m = choose|m: int| 0 <= m < s.len() && s[m] == x;
                if m == 0 {
                    assert(seq_lt(t[0], t[k + 1]));
                    lemma_lt_irreflexive(t[0]);
                }
                assert(s1[m - 1] == x);
            }
        }
        lemma_sorted_unique(s1, t1);
        assert(s =~= seq![s[0]] + s1);
        assert(t =~= seq![t[0]] + t1);
    }
}

/// Whether `a` sorts strictly before `b`.
pub fn str_lt(a: &String, b: &String) -> (r: bool)
    ensures
        r == seq_lt(a@, b@),
{
    let x = crate::strings::chars_of(a.as_str());
    let y = crate::strings::chars_of(b.as_str());
    let mut i: usize = 0;
    assert(x@.skip(0) =~= x@);
    assert(y@.skip(0) =~= y@);
    while i < x.len() && i < y.len()
        invariant
            i <= x.len(),
            i <= y.len(),
            x@ == a@,
            y@ == b@,
            seq_lt(x@, y@) == seq_lt(x@.skip(i as int), y@.skip(i as int)),
        decreases x.len() - i,
    {
        assert(x@.skip(i as int)[0] == x@[i as int]);
        assert(y@.skip(i as int)[0] == y@[i as int]);
        if x[i] != y[i] {
            let r = (x[i] as u32) < (y[i] as u32);
            assert(r == ((x@[i as int] as u32) < (y@[i as int] as u32)));
            assert(x@.skip(i as int).len() > 0 && y@.skip(i as int).len() > 0);
            assert(x@.skip(i as int)[0] != y@.skip(i as int)[0]);
            assert(seq_lt(x@.skip(i as int), y@.skip(i as int)) == ((x@.skip(i as int)[0] as u32) < (
            y@.skip(i as int)[0] as u32)));
            return r;
        }
        assert(x@.skip(i as int).drop_first() =~= x@.skip(i + 1));
        assert(y@.skip(i as int).drop_first() =~= y@.skip(i + 1));
        i += 1;
    }
    i < y.len()
}

/// Insert `x` into the sorted vector unless it is already there.
pub fn insert_sorted(v: &mut Vec<String>, x: String)
    requires
        sorted_strict(strings_view(old(v)@)),
    ensures
        sorted_strict(strings_view(final(v)@)),
        strings_view(final(v)@).to_set() == strings_view(old(v)@).to_set().insert(x@),
{
    let ghost sv = strings_view(v@);
    let mut i: usize = 0;
    while i < v.len() && str_lt(&v[i], &x)
        invariant
            i <= v.len(),
            sv == strings_view(v@),
            sorted_strict(sv),
            forall|k: int| 0 <= k < i ==> seq_lt(#[trigger] sv[k], x@),
        decreases v.len() - i,
    {
        i += 1;
    }
    if i < v.len() && v[i] == x {
        assert(sv[i as int] == x@);
        assert(sv.to_set().insert(x@) =~= sv.to_set());
        return;
    }
    proof {
        if i < v.len() {
            lemma_lt_total(sv[i as int], x@);
        }
    }
    v.insert(i, x);
    proof {
        let nv = strings_view(v@);
        assert(nv =~= sv.insert(i as int, x@));
        assert forall|a: int, b: int| 0 <= a < b < nv.len() implies seq_lt(#[trigger] nv[a], #[trigger] nv[b]) by {
            if b < i {
                assert(nv[a] == sv[a] && nv[b] == sv[b]);
            } else if b == i {
                assert(nv[a] == sv[a]);
            } else if a < i {
                assert(nv[a] == sv[a] && nv[b] == sv[b - 1]);
                assert(seq_lt(sv[a], x@));
                assert(seq_lt(x@, sv[i as int]));
                if b - 1 > i {
                    assert(seq_lt(sv[i as int], sv[b - 1]));
                    lemma_lt_transitive(x@, sv[i as int], sv[b - 1]);
                }
                lemma_lt_transitive(sv[a], x@, sv[b - 1]);
            } else if a == i {
                assert(nv[b] == sv[b - 1]);
                if b - 1 > i {
                    assert(seq_lt(sv[i as int], sv[b - 1]));
                    lemma_lt_transitive(x@, sv[i as int], sv[b - 1]);
                }
            } else {
                assert(nv[a] == sv[a - 1] && nv[b] == sv[b - 1]);
            }
        }
        assert(nv.to_set() =~= sv.to_set().insert(x@)) by {
            assert forall|y: Seq<char>| nv.to_set().contains(y) implies sv.to_set().insert(x@).contains(y) by {
                let k = choose|k: int| 0 <= k < nv.len() && nv[k] == y;
                if k < i {
                    assert(sv[k] == y);
                } else if k > i {
                    assert(sv[k - 1] == y);
                }
            }
            assert forall|y: Seq<char>| sv.to_set().insert(x@).contains(y) implies nv.to_set().contains(y) by {
                if y == x@ {
                    assert(nv[i as int] == y);
                } else {
                    let k = choose|k: int| 0 <= k < sv.len() && sv[k] == y;
                    if k < i {
                        assert(nv[k] == y);
                    } else {
                        assert(nv[k + 1] == y);
                    }
                }
            }
        }
    }
}

} // verus!
