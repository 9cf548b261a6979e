//! Ascending lists of distinct numbers.

use vstd::prelude::*;

verus! {

/// Strictly ascending, so that nothing occurs twice.
pub open spec fn ascending(s: Seq<u32>) -> bool {
    forall|i: int, j: int| 0 <= i < j < s.len() ==> s[i] < s[j]
}

/// Put `x` in its place, unless it is there already.
pub fn insert(list: &mut Vec<u32>, x: u32)
    requires
        ascending(old(list)@),
    ensures
        ascending(final(list)@),
        forall|y: u32| #[trigger]
            final(list)@.contains(y) <==> old(list)@.contains(y) || y == x,
{
    let mut at: usize = 0;
    while at < list.len() && list[at] < x
        invariant
            at <= list@.len(),
            list@ == old(list)@,
            forall|i: int| 0 <= i < at ==> list@[i] < x,
        decreases list@.len() - at,
    {
        at = at + 1;
    }
    if at < list.len() && list[at] == x {
        proof {
            assert(list@[at as int] == x);
        }
        return;
    }
    list.insert(at, x);
    proof {
        let before = old(list)@;
        assert(list@ =~= before.insert(at as int, x));
        assert forall|y: u32| #[trigger] list@.contains(y) <==> before.contains(y) || y == x by {
            if before.contains(y) {
                let i = choose|i: int| 0 <= i < before.len() && before[i] == y;
                if i < at {
                    assert(list@[i] == y);
                } else {
                    assert(list@[i + 1] == y);
                }
            }
            if y == x {
                assert(list@[at as int] == y);
            }
            if list@.contains(y) {
                let i = choose|i: int| 0 <= i < list@.len() && list@[i] == y;
                if i < at {
                    assert(before[i] == y);
                } else if i > at {
                    assert(before[i - 1] == y);
                }
            }
        }
    }
}

/// Two ascending lists with the same members are the same list.
pub proof fn law_members_fix_the_list(a: Seq<u32>, b: Seq<u32>)
    requires
        ascending(a),
        ascending(b),
        forall|y: u32| #[trigger] a.contains(y) <==> b.contains(y),
    ensures
        a == b,
    decreases a.len(),
{
    if a.len() == 0 {
        if b.len() > 0 {
            assert(b.contains(b[0]));
            assert(a.contains(b[0]));
        }
        assert(a =~= b);
    } else {
        assert(a.contains(a.last()));
        assert(b.contains(a.last()));
        assert(b.len() > 0);
        assert(b.contains(b.last()));
        assert(a.contains(b.last()));
        let i = choose|i: int| 0 <= i < b.len() && b[i] == a.last();
        let j = choose|j: int| 0 <= j < a.len() && a[j] == b.last();
        assert(a.last() == b.last());
        let a0 = a.drop_last();
        let b0 = b.drop_last();
        assert forall|y: u32| #[trigger] a0.contains(y) <==> b0.contains(y) by {
            if a0.contains(y) {
                let k = choose|k: int| 0 <= k < a0.len() && a0[k] == y;
                assert(a[k] == y);
                assert(a.contains(y));
                assert(b.contains(y));
                let l = choose|l: int| 0 <= l < b.len() && b[l] == y;
                assert(b0[l] == y);
            }
            if b0.contains(y) {
                let k = choose|k: int| 0 <= k < b0.len() && b0[k] == y;
                assert(b[k] == y);
                assert(b.contains(y));
                assert(a.contains(y));
                let l = choose|l: int| 0 <= l < a.len() && a[l] == y;
                assert(a0[l] == y);
            }
        }
        law_members_fix_the_list(a0, b0);
        assert(a =~= a0.push(a.last()));
        assert(b =~= b0.push(b.last()));
    }
}

/// How many members of `list` are less than `x`: where `x` belongs.
pub open spec fn place(list: Seq<u32>, x: u32) -> nat
    decreases list.len(),
{
    if list.len() == 0 {
        0
    } else {
        place(list.drop_last(), x) + if list.last() < x {
            1nat
        } else {
            0
        }
    }
}

/// The members of `s`, each once, ascending.
pub open spec fn sorted_set(s: Seq<u32>) -> Seq<u32>
    decreases s.len(),
{
    if s.len() == 0 {
        Seq::empty()
    } else {
        let list = sorted_set(s.drop_last());
        if list.contains(s.last()) {
            list
        } else {
            list.insert(place(list, s.last()) as int, s.last())
        }
    }
}

/// In an ascending list the members less than `x` come first.
pub proof fn lemma_place(list: Seq<u32>, x: u32)
    requires
        ascending(list),
    ensures
        place(list, x) <= list.len(),
        forall|i: int| 0 <= i < place(list, x) ==> list[i] < x,
        forall|i: int| place(list, x) <= i < list.len() ==> list[i] >= x,
    decreases list.len(),
{
    if list.len() > 0 {
        let init = list.drop_last();
        lemma_place(init, x);
        let p = place(init, x) as int;
        if list.last() < x && p < init.len() {
            assert(init[p] >= x);
            assert(list[p] < list[list.len() - 1]);
        }
        assert forall|i: int| 0 <= i < place(list, x) implies list[i] < x by {
            if i < init.len() {
                assert(init[i] == list[i]);
            }
        }
        assert forall|i: int| place(list, x) <= i < list.len() implies list[i] >= x by {
            if i < init.len() {
                assert(init[i] == list[i]);
            }
        }
    }
}

/// A member of an ascending list stands at its place.
pub proof fn lemma_member_at_its_place(list: Seq<u32>, x: u32)
    requires
        ascending(list),
        list.contains(x),
    ensures
        place(list, x) < list.len(),
        list[place(list, x) as int] == x,
{
    lemma_place(list, x);
    let i = choose|i: int| 0 <= i < list.len() && list[i] == x;
    assert(place(list, x) <= i);
    if place(list, x) < i {
        assert(list[place(list, x) as int] >= x);
    }
}

/// The sorted members of a sequence are ascending, and they are its members.
pub proof fn law_sorted_set(s: Seq<u32>)
    ensures
        ascending(sorted_set(s)),
        forall|y: u32| #[trigger] sorted_set(s).contains(y) <==> s.contains(y),
        sorted_set(s).len() == s.to_set().len(),
    decreases s.len(),
{
    if s.len() > 0 {
        let init = s.drop_last();
        let list = sorted_set(init);
        let x = s.last();
        law_sorted_set(init);
        lemma_place(list, x);
        let after = sorted_set(s);
        assert forall|y: u32| #[trigger] after.contains(y) <==> list.contains(y) || y == x by {
            if !list.contains(x) {
                let at = place(list, x) as int;
                if list.contains(y) {
                    let i = choose|i: int| 0 <= i < list.len() && list[i] == y;
                    if i < at {
                        assert(after[i] == y);
                    } else {
                        assert(after[i + 1] == y);
                    }
                }
                assert(after[at] == x);
                if after.contains(y) {
                    let i = choose|i: int| 0 <= i < after.len() && after[i] == y;
                    if i < at {
                        assert(list[i] == y);
                    } else if i > at {
                        assert(list[i - 1] == y);
                    }
                }
            }
        }
        assert forall|y: u32| #[trigger] s.contains(y) <==> init.contains(y) || y == x by {
            if s.contains(y) {
                let i = choose|i: int| 0 <= i < s.len() && s[i] == y;
                if i < init.len() {
                    assert(init[i] == y);
                }
            }
            if init.contains(y) {
                let i = choose|i: int| 0 <= i < init.len() && init[i] == y;
                assert(s[i] == y);
            }
            assert(s[s.len() - 1] == x);
        }
        if !list.contains(x) {
            let at = place(list, x) as int;
            assert forall|i: int| at <= i < list.len() implies list[i] > x by {
                assert(list[i] >= x);
                assert(list.contains(list[i]));
            }
        }
        assert(ascending(after));
    }
    let list = sorted_set(s);
    assert(list.no_duplicates());
    list.unique_seq_to_set();
    assert(list.to_set() =~= s.to_set()) by {
        assert forall|y: u32| list.to_set().contains(y) <==> s.to_set().contains(y) by {
            assert(list.contains(y) <==> s.contains(y));
        }
    }
}

/// The members of `s`, each once, ascending.
pub fn sort_distinct(s: &Vec<u32>) -> (list: Vec<u32>)
    ensures
        list@ == sorted_set(s@),
{
    let mut list: Vec<u32> = Vec::new();
    let mut i: usize = 0;
    while i < s.len()
        invariant
            i <= s@.len(),
            list@ == sorted_set(s@.take(i as int)),
        decreases s@.len() - i,
    {
        let ghost before = s@.take(i as int);
        let ghost after = s@.take(i + 1);
        proof {
            assert(after.drop_last() =~= before);
            law_sorted_set(before);
            law_sorted_set(after);
        }
        insert(&mut list, s[i]);
        proof {
            let x = s@[i as int];
            assert forall|y: u32| #[trigger]
                list@.contains(y) <==> sorted_set(after).contains(y) by {
                assert(sorted_set(before).contains(y) <==> before.contains(y));
                assert(sorted_set(after).contains(y) <==> after.contains(y));
                if after.contains(y) {
                    let k = choose|k: int| 0 <= k < after.len() && after[k] == y;
                    if k < i {
                        assert(before[k] == y);
                    }
                }
                if before.contains(y) {
                    let k = choose|k: int| 0 <= k < before.len() && before[k] == y;
                    assert(after[k] == y);
                }
                assert(after[i as int] == x);
            }
            law_members_fix_the_list(list@, sorted_set(after));
        }
        i = i + 1;
    }
    proof {
        assert(s@.take(i as int) =~= s@);
    }
    list
}

} // verus!
