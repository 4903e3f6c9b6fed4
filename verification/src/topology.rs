//! Choice of the neighbors to which a node gossips.

use vstd::prelude::*;
use vstd::arithmetic::div_mod::lemma_fundamental_div_mod_converse;
use crate::error::NodeError;
use crate::sender::Sender;
use crate::strmap::StrMap;
use crate::text::{clone_names, names, str_eq};

verus! {

/// The test that holds of every id but `id`.
pub open spec fn is_not(id: Seq<char>) -> spec_fn(Seq<char>) -> bool {
    |other: Seq<char>| other != id
}

/// The ids at the offsets `step`, `2 * step`, `4 * step`, ... from position
/// `me`, as long as the offset is below the number of ids. Positions wrap
/// around the end of the list.
pub open spec fn skip_from(ids: Seq<Seq<char>>, me: int, step: int) -> Seq<Seq<char>>
    decreases
            if step < ids.len() {
                ids.len() - step
            } else {
                0
            },
{
    if step <= 0 || step >= ids.len() {
        Seq::empty()
    } else {
        seq![ids[(me + step) % (ids.len() as int)]] + skip_from(ids, me, 2 * step)
    }
}

/// The neighbors of the node at position `me` in the skip structure over
/// `ids`: the nodes at the offsets 1, 2, 4, ... from it.
pub open spec fn skip_neighbors(ids: Seq<Seq<char>>, me: int) -> Seq<Seq<char>> {
    skip_from(ids, me, 1)
}

/// Position of the first occurrence of `id` in `ids`.
pub fn find(ids: &Vec<String>, id: &str) -> (r: Option<usize>)
    ensures
        match r {
            Some(i) => names(ids@).index_of_first(id@) == Some(i as int),
            None => names(ids@).index_of_first(id@) is None,
        },
{
    let mut i: usize = 0;
    while i < ids.len()
        invariant
            i <= ids@.len(),
            forall|j: int| 0 <= j < i ==> names(ids@)[j] != id@,
        decreases ids@.len() - i,
    {
        if str_eq(ids[i].as_str(), id) {
            proof {
                assert(names(ids@)[i as int] == id@);
                names(ids@).index_of_first_ensures(id@);
            }
            return Some(i);
        }
        i += 1;
    }
    proof {
        names(ids@).index_of_first_ensures(id@);
    }
    None
}

/// Neighbors in the skip structure over the node ids: every node is
/// linked to the nodes at the offsets 1, 2, 4, ... after it in the list,
/// so that few hops lead from any node to any other.
pub fn sane_neighbors(sender: &Sender) -> (r: Result<Vec<String>, NodeError>)
    ensures
        match r {
            Ok(v) => sender@.node_ids.index_of_first(sender@.node_id) matches Some(me) && names(v@)
                == skip_neighbors(sender@.node_ids, me),
            Err(e) => e == NodeError::MissingSelf && sender@.node_ids.index_of_first(
                sender@.node_id,
            ) is None,
        },
{
    let ids = sender.node_ids();
    let n: usize = ids.len();
    let me: usize = match find(ids, sender.node_id().as_str()) {
        Some(i) => i,
        None => {
            return Err(NodeError::MissingSelf);
        },
    };
    proof {
        names(ids@).index_of_first_ensures(sender@.node_id);
    }
    let ghost all = names(ids@);
    let mut out: Vec<String> = Vec::new();
    let mut step: usize = 1;
    while step < n
        invariant
            1 <= step,
            me < n,
            n == ids@.len(),
            all == names(ids@),
            names(out@) + skip_from(all, me as int, step as int) == skip_neighbors(all, me as int),
        decreases n - step,
    {
        let index: usize = if step < n - me {
            me + step
        } else {
            step - (n - me)
        };
        proof {
            if step < n - me {
                lemma_fundamental_div_mod_converse(me + step, n as int, 0, index as int);
            } else {
                lemma_fundamental_div_mod_converse(me + step, n as int, 1, index as int);
            }
        }
        let ghost before = names(out@);
        out.push(ids[index].clone());
        assert(names(out@) =~= before + seq![all[index as int]]);
        let next: usize = if step > (n - 1) / 2 {
            n
        } else {
            2 * step
        };
        assert(skip_from(all, me as int, next as int) == skip_from(all, me as int, 2 * step));
        assert(names(out@) + skip_from(all, me as int, next as int) =~= before + skip_from(
            all,
            me as int,
            step as int,
        ));
        step = next;
    }
    assert(names(out@) + Seq::<Seq<char>>::empty() =~= names(out@));
    Ok(out)
}

/// The ids in `ids` that differ from `id`, in their order.
pub fn without(ids: &Vec<String>, id: &str) -> (r: Vec<String>)
    ensures
        names(r@) == names(ids@).filter(is_not(id@)),
{
    let ghost all = names(ids@);
    let ghost keep = is_not(id@);
    let mut out: Vec<String> = Vec::new();
    let mut i: usize = 0;
    while i < ids.len()
        invariant
            i <= ids@.len(),
            all == names(ids@),
            keep == is_not(id@),
            names(out@) == all.take(i as int).filter(keep),
        decreases ids@.len() - i,
    {
        proof {
            assert(all.take(i + 1) =~= all.take(i as int).push(all[i as int]));
            Seq::lemma_filter_push(all.take(i as int), all[i as int], keep);
        }
        let ghost before = names(out@);
        if !str_eq(ids[i].as_str(), id) {
            out.push(ids[i].clone());
            assert(names(out@) =~= before.push(all[i as int]));
        }
        i += 1;
    }
    assert(all.take(i as int) =~= all);
    out
}

/// Every node but the node itself, in the order of the node ids.
pub fn all_others(sender: &Sender) -> (r: Vec<String>)
    ensures
        names(r@) == sender@.node_ids.filter(is_not(sender@.node_id)),
{
    without(sender.node_ids(), sender.node_id().as_str())
}

/// The neighbors that `topology` lists for the node itself.
pub fn supplied_neighbors(sender: &Sender, topology: &StrMap<Vec<String>>) -> (r: Result<
    Vec<String>,
    NodeError,
>)
    ensures
        match r {
            Ok(v) => topology@.contains_key(sender@.node_id) && names(v@) == names(
                topology@[sender@.node_id]@,
            ),
            Err(e) => e == NodeError::MissingSelf && !topology@.contains_key(sender@.node_id),
        },
{
    match topology.get(sender.node_id().as_str()) {
        Some(list) => Ok(clone_names(list)),
        None => Err(NodeError::MissingSelf),
    }
}

/// The overlay in which every node has the neighbors of the skip
/// structure: for each position in `ids` the neighbors of the node there.
pub open spec fn skip_overlay(ids: Seq<Seq<char>>) -> Seq<Seq<Seq<char>>> {
    Seq::new(ids.len(), |i: int| skip_neighbors(ids, i))
}

/// The overlay in which every node has every other node as a neighbor.
pub open spec fn mesh_overlay(ids: Seq<Seq<char>>) -> Seq<Seq<Seq<char>>> {
    Seq::new(ids.len(), |i: int| ids.filter(is_not(ids[i])))
}

/// Whether `overlay` links the node at position `via` to the node at
/// position `to`: whether the latter is a neighbor of the former.
pub open spec fn linked(ids: Seq<Seq<char>>, overlay: Seq<Seq<Seq<char>>>, via: int, to: int) -> bool {
    0 <= via < ids.len() && overlay[via].contains(ids[to])
}

/// Whether at most `hops` links of `overlay` lead from the node at
/// position `from` to the node at position `to`.
pub open spec fn within(
    ids: Seq<Seq<char>>,
    overlay: Seq<Seq<Seq<char>>>,
    from: int,
    to: int,
    hops: nat,
) -> bool
    decreases hops,
{
    from == to || (hops > 0 && exists|via: int| #[trigger]
        linked(ids, overlay, via, to) && within(ids, overlay, from, via, (hops - 1) as nat))
}

/// Whether `p` is a power of two.
pub open spec fn is_pow2(p: int) -> bool
    decreases p,
{
    p == 1 || (p > 1 && p % 2 == 0 && is_pow2(p / 2))
}

/// The number of binary digits of `d`.
pub open spec fn bits(d: nat) -> nat
    decreases d,
{
    if d == 0 {
        0
    } else {
        1 + bits(d / 2)
    }
}

/// The largest power of two that is at most `d`.
pub open spec fn top_bit(d: nat) -> nat
    decreases d,
{
    if d <= 1 {
        d
    } else {
        2 * top_bit(d / 2)
    }
}

/// The number of links within which the skip structure over `n` nodes
/// leads from any node to any other: the number of binary digits of the
/// largest offset.
pub open spec fn hops(n: nat) -> nat {
    if n == 0 {
        0
    } else {
        bits((n - 1) as nat)
    }
}

proof fn lemma_bits_monotone(x: nat, y: nat)
    requires
        x <= y,
    ensures
        bits(x) <= bits(y),
    decreases y,
{
    if x > 0 {
        lemma_bits_monotone(x / 2, y / 2);
    }
}

proof fn lemma_top_bit(d: nat)
    requires
        d >= 1,
    ensures
        is_pow2(top_bit(d) as int),
        top_bit(d) <= d < 2 * top_bit(d),
        bits((d - top_bit(d)) as nat) < bits(d),
    decreases d,
{
    if d > 1 {
        lemma_top_bit(d / 2);
        let rest = (d - top_bit(d)) as nat;
        assert(rest / 2 == d / 2 - top_bit(d / 2));
        assert(top_bit(d) as int / 2 == top_bit(d / 2));
    }
}

/// Adding an offset below `n` to a position below `n` wraps around at
/// most once.
proof fn lemma_wrap(a: int, d: int, n: int)
    requires
        0 <= a < n,
        0 <= d < n,
    ensures
        (a + d) % n == if a + d < n {
            a + d
        } else {
            a + d - n
        },
{
    if a + d < n {
        lemma_fundamental_div_mod_converse(a + d, n, 0, a + d);
    } else {
        lemma_fundamental_div_mod_converse(a + d, n, 1, a + d - n);
    }
}

/// Of two powers of two, the larger is at least twice the smaller.
proof fn lemma_pow2_gap(step: int, p: int)
    requires
        is_pow2(step),
        is_pow2(p),
        step < p,
    ensures
        2 * step <= p,
        is_pow2(2 * step),
    decreases p,
{
    assert((2 * step) / 2 == step);
    if step > 1 {
        lemma_pow2_gap(step / 2, p / 2);
    }
}

/// The node at a power-of-two offset is among the skip neighbors.
proof fn lemma_skip_holds(ids: Seq<Seq<char>>, me: int, step: int, p: int)
    requires
        0 < step <= p < ids.len(),
        is_pow2(p),
        is_pow2(step),
    ensures
        skip_from(ids, me, step).contains(ids[(me + p) % (ids.len() as int)]),
    decreases p - step,
{
    let here = seq![ids[(me + step) % (ids.len() as int)]];
    let rest = skip_from(ids, me, 2 * step);
    if step == p {
        assert((here + rest)[0] == ids[(me + p) % (ids.len() as int)]);
    } else {
        lemma_pow2_gap(step, p);
        lemma_skip_holds(ids, me, 2 * step, p);
        let i = rest.index_of(ids[(me + p) % (ids.len() as int)]);
        assert((here + rest)[i + 1] == rest[i]);
    }
}

/// What is within some number of links is within any larger number.
pub proof fn lemma_within_more(
    ids: Seq<Seq<char>>,
    overlay: Seq<Seq<Seq<char>>>,
    from: int,
    to: int,
    hops: nat,
    more: nat,
)
    requires
        within(ids, overlay, from, to, hops),
        hops <= more,
    ensures
        within(ids, overlay, from, to, more),
    decreases hops,
{
    if from != to {
        let via = choose|via: int| #[trigger]
            linked(ids, overlay, via, to) && within(ids, overlay, from, via, (hops - 1) as nat);
        lemma_within_more(ids, overlay, from, via, (hops - 1) as nat, (more - 1) as nat);
        assert(linked(ids, overlay, via, to));
    }
}

/// The skip structure leads from a node to the node `d` positions after
/// it within as many links as `d` has binary digits.
proof fn lemma_skip_within(ids: Seq<Seq<char>>, from: int, d: nat)
    requires
        0 <= from < ids.len(),
        d < ids.len(),
    ensures
        within(ids, skip_overlay(ids), from, (from + d) % (ids.len() as int), bits(d)),
    decreases d,
{
    let n = ids.len() as int;
    let overlay = skip_overlay(ids);
    lemma_wrap(from, d as int, n);
    if d > 0 {
        lemma_top_bit(d);
        let p = top_bit(d) as int;
        let near = (d - top_bit(d)) as nat;
        let via = (from + near) % n;
        lemma_skip_within(ids, from, near);
        lemma_within_more(ids, overlay, from, via, bits(near), (bits(d) - 1) as nat);
        lemma_wrap(from, near as int, n);
        lemma_wrap(via, p, n);
        assert((via + p) % n == (from + d) % n);
        lemma_skip_holds(ids, via, 1, p);
        assert(overlay[via] == skip_neighbors(ids, via));
        assert(linked(ids, overlay, via, (from + d) % n));
    }
}

/// In the skip structure over `n` nodes, `hops(n)` links lead from any
/// node to any other.
pub proof fn law_skip_reaches(ids: Seq<Seq<char>>, from: int, to: int)
    requires
        0 <= from < ids.len(),
        0 <= to < ids.len(),
    ensures
        within(ids, skip_overlay(ids), from, to, hops(ids.len())),
{
    let n = ids.len() as int;
    let d: nat = if to >= from {
        (to - from) as nat
    } else {
        (to - from + n) as nat
    };
    lemma_wrap(from, d as int, n);
    lemma_skip_within(ids, from, d);
    lemma_bits_monotone(d, (n - 1) as nat);
    lemma_within_more(ids, skip_overlay(ids), from, to, bits(d), hops(ids.len()));
}

/// In the full mesh, one link leads from any node to any other.
pub proof fn law_mesh_reaches(ids: Seq<Seq<char>>, from: int, to: int)
    requires
        ids.no_duplicates(),
        0 <= from < ids.len(),
        0 <= to < ids.len(),
    ensures
        within(ids, mesh_overlay(ids), from, to, 1),
{
    if from != to {
        let overlay = mesh_overlay(ids);
        assert(within(ids, overlay, from, from, 0));
        assert(is_not(ids[from])(ids[to]));
        ids.lemma_filter_contains(is_not(ids[from]), to);
        assert(linked(ids, overlay, from, to));
    }
}

} // verus!
