//! Lists of addresses: taking entries out, and what that does to what a list
//! holds.

use crate::address::PeerAddress;
use vstd::prelude::*;

verus! {

/// The addresses that are neither `own`, where there is such an address,
/// nor among `excluded`.
pub open spec fn other_than(own: Option<PeerAddress>, excluded: Seq<PeerAddress>) -> spec_fn(
    PeerAddress,
) -> bool {
    |a: PeerAddress| own != Some(a) && !excluded.contains(a)
}

/// What is left of a list when some of its entries are taken out: the
/// entries that are kept, and no others; and none twice, where none was
/// there twice.
pub proof fn lemma_filtered(list: Seq<PeerAddress>, keep: spec_fn(PeerAddress) -> bool)
    ensures
        forall|a: PeerAddress| #[trigger]
            list.filter(keep).contains(a) <==> list.contains(a) && keep(a),
        list.no_duplicates() ==> list.filter(keep).no_duplicates(),
        list.filter(keep).len() <= list.len(),
    decreases list.len(),
{
    reveal(Seq::filter);
    if list.len() > 0 {
        let rest = list.drop_last();
        let last = list.last();
        lemma_filtered(rest, keep);
        let sub = rest.filter(keep);
        let out = list.filter(keep);
        assert forall|a: PeerAddress| #[trigger] out.contains(a) <==> list.contains(a) && keep(
            a,
        ) by {
            if list.contains(a) {
                let j = choose|j: int| 0 <= j < list.len() && list[j] == a;
                if j < rest.len() {
                    assert(rest[j] == a);
                }
            }
            if rest.contains(a) {
                let j = choose|j: int| 0 <= j < rest.len() && rest[j] == a;
                assert(list[j] == a);
            }
            if sub.contains(a) && keep(last) {
                let j = choose|j: int| 0 <= j < sub.len() && sub[j] == a;
                assert(out[j] == a);
            }
            if keep(last) {
                assert(out[sub.len() as int] == last);
                assert(list[list.len() - 1] == last);
            }
            if out.contains(a) && keep(last) {
                let j = choose|j: int| 0 <= j < out.len() && out[j] == a;
                if j < sub.len() {
                    assert(sub[j] == a);
                }
            }
        }
        if list.no_duplicates() {
            assert(rest.no_duplicates());
            if keep(last) {
                assert(!rest.contains(last)) by {
                    if rest.contains(last) {
                        let j = choose|j: int| 0 <= j < rest.len() && rest[j] == last;
                        assert(list[j] == list[list.len() - 1]);
                    }
                }
                assert(!sub.contains(last));
            }
        }
    }
}

/// A list without one of its entries holds what it held but that entry, where
/// no entry was there twice.
pub proof fn lemma_removed(list: Seq<PeerAddress>, i: int)
    requires
        list.no_duplicates(),
        0 <= i < list.len(),
    ensures
        list.remove(i).no_duplicates(),
        forall|a: PeerAddress| #[trigger]
            list.remove(i).contains(a) <==> list.contains(a) && a != list[i],
{
    let after = list.remove(i);
    assert forall|a: PeerAddress| #[trigger] after.contains(a) <==> list.contains(a) && a
        != list[i] by {
        if list.contains(a) && a != list[i] {
            let j = choose|j: int| 0 <= j < list.len() && list[j] == a;
            if j < i {
                assert(after[j] == a);
            } else {
                assert(after[j - 1] == a);
            }
        }
        if after.contains(a) {
            let j = choose|j: int| 0 <= j < after.len() && after[j] == a;
            if j < i {
                assert(list[j] == a);
            } else {
                assert(list[j + 1] == a);
            }
        }
    }
    assert forall|x: int, y: int| 0 <= x < after.len() && 0 <= y < after.len() && x
        != y implies after[x] != after[y] by {
        let x0 = if x < i { x } else { x + 1 };
        let y0 = if y < i { y } else { y + 1 };
        assert(after[x] == list[x0] && after[y] == list[y0]);
    }
}

/// A list with one more entry holds what it held and that entry; and none
/// twice, where none was there twice and the entry is new.
pub proof fn lemma_pushed(list: Seq<PeerAddress>, address: PeerAddress)
    ensures
        forall|a: PeerAddress| #[trigger]
            list.push(address).contains(a) <==> list.contains(a) || a == address,
        list.no_duplicates() && !list.contains(address) ==> list.push(address).no_duplicates(),
{
    let after = list.push(address);
    assert forall|a: PeerAddress| #[trigger] after.contains(a) <==> list.contains(a) || a
        == address by {
        if list.contains(a) {
            let j = choose|j: int| 0 <= j < list.len() && list[j] == a;
            assert(after[j] == a);
        }
        if a == address {
            assert(after[list.len() as int] == a);
        }
    }
    if list.no_duplicates() && !list.contains(address) {
        assert forall|x: int, y: int| 0 <= x < after.len() && 0 <= y < after.len() && x
            != y implies after[x] != after[y] by {
            if x < list.len() {
                assert(list.contains(list[x]));
            }
            if y < list.len() {
                assert(list.contains(list[y]));
            }
        }
    }
}

/// Whether `list` holds `address`.
pub fn contains_address(list: &Vec<PeerAddress>, address: PeerAddress) -> (r: bool)
    ensures
        r == list@.contains(address),
{
    let mut i: usize = 0;
    while i < list.len()
        invariant
            i <= list@.len(),
            forall|j: int| 0 <= j < i ==> list@[j] != address,
        decreases list@.len() - i,
    {
        if list[i] == address {
            return true;
        }
        i += 1;
    }
    false
}

/// The entries of `list` that are neither `own`, where there is such an
/// address, nor among `excluded`, in their order.
pub fn others(list: &Vec<PeerAddress>, own: Option<PeerAddress>, excluded: &Vec<PeerAddress>) -> (r:
    Vec<PeerAddress>)
    ensures
        r@ == list@.filter(other_than(own, excluded@)),
{
    let ghost keep = other_than(own, excluded@);
    let mut r: Vec<PeerAddress> = Vec::new();
    let mut i: usize = 0;
    proof {
        reveal(Seq::filter);
        assert(list@.subrange(0, 0).filter(keep) =~= Seq::<PeerAddress>::empty());
    }
    while i < list.len()
        invariant
            i <= list@.len(),
            keep == other_than(own, excluded@),
            r@ == list@.subrange(0, i as int).filter(keep),
        decreases list@.len() - i,
    {
        let a: PeerAddress = list[i];
        proof {
            reveal(Seq::filter);
            let next = list@.subrange(0, i + 1);
            assert(next.drop_last() =~= list@.subrange(0, i as int));
            assert(next.last() == a);
        }
        let is_own: bool = match own {
            Some(o) => o == a,
            None => false,
        };
        if !is_own && !contains_address(excluded, a) {
            r.push(a);
        }
        i += 1;
    }
    proof {
        assert(list@.subrange(0, list@.len() as int) =~= list@);
    }
    r
}

} // verus!
