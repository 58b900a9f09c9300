use vstd::prelude::*;
use vstd::arithmetic::div_mod::{lemma_add_mod_noop, lemma_mod_add_multiples_vanish, lemma_small_mod};
use vstd::string::*;
use crate::errors::AppError;
use crate::models::{Group, Member, member_names, pairs_view, user_ids};
use rand::seq::SliceRandom;

verus! {

/// The outcome of pairing generation, one entry per giver, in cycle order.
#[derive(Debug, Clone)]
pub struct Pairing {
    /// Giver user id to receiver user id.
    pub pairs: Vec<(String, String)>,
    /// Giver user id to receiver display name.
    pub by_user_id: Vec<(String, String)>,
}

/// The edges of the cycle through `ids` in order: position `i` gives to
/// position `i + 1`, and the last gives to the first.
pub open spec fn cycle_edges(ids: Seq<Seq<char>>) -> Seq<(Seq<char>, Seq<char>)> {
    Seq::new(ids.len(), |i: int| (ids[i], ids[(i + 1) % (ids.len() as int)]))
}

/// For the cycle through `order`: each giver's id with its receiver's name.
pub open spec fn cycle_names(order: Seq<Member>) -> Seq<(Seq<char>, Seq<char>)> {
    Seq::new(
        order.len(),
        |i: int| (order[i].user_id@, order[(i + 1) % (order.len() as int)].name@),
    )
}

/// The receiver of the edge whose giver is `x`.
pub open spec fn receiver_of(edges: Seq<(Seq<char>, Seq<char>)>, x: Seq<char>) -> Seq<char> {
    edges[choose|k: int| 0 <= k < edges.len() && edges[k].0 == x].1
}

/// Where `t` steps from `x` along the giver-to-receiver edges lead.
pub open spec fn walk(edges: Seq<(Seq<char>, Seq<char>)>, x: Seq<char>, t: nat) -> Seq<char>
    decreases t,
{
    if t == 0 {
        x
    } else {
        receiver_of(edges, walk(edges, x, (t - 1) as nat))
    }
}

/// How many steps forward along a cycle of `n` positions lead from position
/// `j` to position `m`; less than `n` for positions of the cycle.
pub open spec fn steps_between(j: int, m: int, n: nat) -> nat {
    if m >= j {
        (m - j) as nat
    } else {
        (m + n - j) as nat
    }
}

/// Relies on rand's `SliceRandom::shuffle` with the thread-local generator:
/// it only swaps elements, so the result is a permutation of the input.
#[verifier::external_body]
fn shuffle_members(v: &mut Vec<Member>)
    ensures
        final(v)@.to_multiset() == old(v)@.to_multiset(),
{
    v.shuffle(&mut rand::thread_rng());
}

/// The pairing that follows `order` as a cycle: member `i` gives to member
/// `i + 1`, the last to the first.
pub fn assign_cycle(order: &Vec<Member>) -> (r: Pairing)
    ensures
        pairs_view(r.pairs@) == cycle_edges(user_ids(order@)),
        pairs_view(r.by_user_id@) == cycle_names(order@),
{
    let n = order.len();
    let mut pairs: Vec<(String, String)> = Vec::new();
    let mut by_user_id: Vec<(String, String)> = Vec::new();
    let mut i: usize = 0;
    while i < n
        invariant
            n == order@.len(),
            i <= n,
            pairs@.len() == i,
            by_user_id@.len() == i,
            forall|k: int|
                0 <= k < i ==> #[trigger] pairs_view(pairs@)[k] == cycle_edges(
                    user_ids(order@),
                )[k],
            forall|k: int|
                0 <= k < i ==> #[trigger] pairs_view(by_user_id@)[k] == cycle_names(order@)[k],
        decreases n - i,
    {
        let next = (i + 1) % n;
        let giver = &order[i];
        let receiver = &order[next];
        let ghost prev_pairs = pairs@;
        let ghost prev_names = by_user_id@;
        pairs.push((giver.user_id.clone(), receiver.user_id.clone()));
        by_user_id.push((giver.user_id.clone(), receiver.name.clone()));
        proof {
            let ids = user_ids(order@);
            assert(ids[i as int] == order@[i as int].user_id@);
            assert(ids[next as int] == order@[next as int].user_id@);
            assert forall|k: int| 0 <= k < i + 1 implies #[trigger] pairs_view(pairs@)[k]
                == cycle_edges(ids)[k] by {
                if k < i {
                    assert(pairs@[k] == prev_pairs[k]);
                    assert(pairs_view(prev_pairs)[k] == cycle_edges(ids)[k]);
                }
            }
            assert forall|k: int| 0 <= k < i + 1 implies #[trigger] pairs_view(by_user_id@)[k]
                == cycle_names(order@)[k] by {
                if k < i {
                    assert(by_user_id@[k] == prev_names[k]);
                    assert(pairs_view(prev_names)[k] == cycle_names(order@)[k]);
                }
            }
        }
        i = i + 1;
    }
    assert(pairs_view(pairs@) =~= cycle_edges(user_ids(order@)));
    assert(pairs_view(by_user_id@) =~= cycle_names(order@));
    Pairing { pairs, by_user_id }
}

/// Whether the group may be paired: it exists, is not paired yet and has at
/// least two members (one member alone would give to themselves).
pub open spec fn can_generate(group: Option<Group>) -> bool {
    group is Some && !group->0.is_generated && group->0.members@.len() >= 2
}

/// Generates the pairing of `group`: a random order of its members, paired
/// as one cycle. Fails with `GroupNotFound` when there is no group, with
/// `GroupAlreadyGenerated` when the pairing exists already (which is never
/// replaced), and with `InvalidInput` when the group has fewer than two
/// members.
pub fn generate_pairs(group: Option<Group>) -> (r: Result<Pairing, AppError>)
    ensures
        r is Ok <==> can_generate(group),
        group is None ==> r == Err::<Pairing, AppError>(AppError::GroupNotFound),
        group is Some && group->0.is_generated ==> r == Err::<Pairing, AppError>(
            AppError::GroupAlreadyGenerated,
        ),
        group is Some && !group->0.is_generated && group->0.members@.len() < 2 ==> r is Err
            && r->Err_0 is InvalidInput,
        r is Ok ==> exists|order: Seq<Member>|
            #![trigger order.to_multiset()]
            order.to_multiset() == group->0.members@.to_multiset() && pairs_view(r->Ok_0.pairs@)
                == cycle_edges(user_ids(order)) && pairs_view(r->Ok_0.by_user_id@)
                == cycle_names(order),
{
    match group {
        None => Err(AppError::GroupNotFound),
        Some(g) => {
            if g.is_generated {
                Err(AppError::GroupAlreadyGenerated)
            } else if g.members.len() < 2 {
                Err(
                    AppError::InvalidInput(
                        String::from_str("At least two members are needed to generate pairs"),
                    ),
                )
            } else {
                let ghost unshuffled = g.members@;
                let mut order = g.members;
                shuffle_members(&mut order);
                let p = assign_cycle(&order);
                assert(order@.to_multiset() == unshuffled.to_multiset());
                Ok(p)
            }
        },
    }
}

proof fn lemma_receiver_in_cycle(ids: Seq<Seq<char>>, i: int)
    requires
        ids.no_duplicates(),
        ids.len() >= 1,
        0 <= i < ids.len(),
    ensures
        receiver_of(cycle_edges(ids), ids[i]) == ids[(i + 1) % (ids.len() as int)],
{
    let e = cycle_edges(ids);
    assert(e[i].0 == ids[i]);
    let k = choose|k: int| 0 <= k < e.len() && e[k].0 == ids[i];
    assert(ids[k] == ids[i]);
}

proof fn lemma_walk_in_cycle(ids: Seq<Seq<char>>, j: int, t: nat)
    requires
        ids.no_duplicates(),
        ids.len() >= 1,
        0 <= j < ids.len(),
    ensures
        walk(cycle_edges(ids), ids[j], t) == ids[(j + t) % (ids.len() as int)],
    decreases t,
{
    let n = ids.len() as int;
    if t == 0 {
        lemma_small_mod(j as nat, n as nat);
    } else {
        lemma_walk_in_cycle(ids, j, (t - 1) as nat);
        let a = (j + t - 1) % n;
        lemma_receiver_in_cycle(ids, a);
        lemma_add_mod_noop(j + t - 1, 1, n);
        if n == 1 {
            assert(1int % 1 == 0);
            assert(a == 0) by {
                assert((j + t - 1) % 1 == 0);
            }
            assert((j + t) % 1 == 0);
        } else {
            lemma_small_mod(1, n as nat);
        }
    }
}

/// Pairing members in a cycle over distinct ids, at least two of them, gives
/// one edge per member, no member giving to themselves, and one single cycle:
/// from any member, following giver to receiver visits every member and is
/// back at the start after exactly as many steps as there are members, and
/// not before.
pub proof fn lemma_pairing_is_single_cycle(ids: Seq<Seq<char>>)
    requires
        ids.no_duplicates(),
        ids.len() >= 2,
    ensures
        cycle_edges(ids).len() == ids.len(),
        forall|k: int|
            0 <= k < ids.len() ==> #[trigger] cycle_edges(ids)[k].0 != cycle_edges(ids)[k].1,
        forall|j: int, t: nat|
            0 <= j < ids.len() && t <= ids.len() ==> #[trigger] walk(cycle_edges(ids), ids[j], t)
                == ids[(j + t) % (ids.len() as int)],
        forall|j: int|
            0 <= j < ids.len() ==> #[trigger] walk(cycle_edges(ids), ids[j], ids.len()) == ids[j],
        forall|j: int, t: nat|
            0 <= j < ids.len() && 0 < t < ids.len() ==> #[trigger] walk(
                cycle_edges(ids),
                ids[j],
                t,
            ) != ids[j],
        forall|j: int, m: int|
            #![trigger ids[j], ids[m]]
            0 <= j < ids.len() && 0 <= m < ids.len() ==> walk(
                cycle_edges(ids),
                ids[j],
                steps_between(j, m, ids.len()),
            ) == ids[m],
{
    let n = ids.len() as int;
    let e = cycle_edges(ids);
    assert forall|k: int| 0 <= k < n implies #[trigger] e[k].0 != e[k].1 by {
        let k2 = (k + 1) % n;
        if k + 1 < n {
            lemma_small_mod((k + 1) as nat, n as nat);
        } else {
            assert(k + 1 == n);
            lemma_mod_add_multiples_vanish(0, n);
            lemma_small_mod(0, n as nat);
        }
        assert(k2 != k);
    }
    assert forall|j: int, t: nat|
        0 <= j < n && t <= n implies #[trigger] walk(e, ids[j], t) == ids[(j + t) % n] by {
        lemma_walk_in_cycle(ids, j, t);
    }
    assert forall|j: int| 0 <= j < n implies #[trigger] walk(e, ids[j], n as nat) == ids[j] by {
        lemma_walk_in_cycle(ids, j, n as nat);
        lemma_mod_add_multiples_vanish(j, n);
        lemma_small_mod(j as nat, n as nat);
    }
    assert forall|j: int, t: nat| 0 <= j < n && 0 < t < n implies #[trigger] walk(
        e,
        ids[j],
        t,
    ) != ids[j] by {
        lemma_walk_in_cycle(ids, j, t);
        let p = (j + t) % n;
        if j + t < n {
            lemma_small_mod((j + t) as nat, n as nat);
        } else {
            lemma_mod_add_multiples_vanish(j + t - n, n);
            lemma_small_mod((j + t - n) as nat, n as nat);
        }
        assert(p != j);
    }
    assert forall|j: int, m: int|
        #![trigger ids[j], ids[m]]
        0 <= j < n && 0 <= m < n implies walk(e, ids[j], steps_between(j, m, n as nat))
        == ids[m] by {
        let t = steps_between(j, m, n as nat);
        lemma_walk_in_cycle(ids, j, t);
        if m >= j {
            lemma_small_mod(m as nat, n as nat);
        } else {
            assert(j + t == n + m);
            lemma_mod_add_multiples_vanish(m, n);
            lemma_small_mod(m as nat, n as nat);
        }
        assert(walk(e, ids[j], t) == ids[m]);
    }
}

/// A permutation of members whose user ids are distinct has distinct user
/// ids too.
pub proof fn lemma_permutation_keeps_ids_distinct(members: Seq<Member>, order: Seq<Member>)
    requires
        user_ids(members).no_duplicates(),
        order.to_multiset() == members.to_multiset(),
    ensures
        user_ids(order).no_duplicates(),
        order.len() == members.len(),
{
    vstd::seq_lib::to_multiset_len(order);
    vstd::seq_lib::to_multiset_len(members);

    assert(members.no_duplicates()) by {
        assert forall|a: int, b: int|
            0 <= a < members.len() && 0 <= b < members.len() && a != b implies members[a]
            != members[b] by {
            assert(user_ids(members)[a] == members[a].user_id@);
            assert(user_ids(members)[b] == members[b].user_id@);
        }
    }
    members.lemma_multiset_has_no_duplicates();
    order.lemma_multiset_has_no_duplicates_conv();
    assert forall|a: int, b: int|
        0 <= a < order.len() && 0 <= b < order.len() && a != b implies user_ids(order)[a]
        != user_ids(order)[b] by {
        assert(order.contains(order[a]));
        assert(order.contains(order[b]));
        vstd::seq_lib::to_multiset_contains(order, order[a]);
        vstd::seq_lib::to_multiset_contains(order, order[b]);
        vstd::seq_lib::to_multiset_contains(members, order[a]);
        vstd::seq_lib::to_multiset_contains(members, order[b]);
        assert(members.contains(order[a]));
        assert(members.contains(order[b]));
        let x = choose|x: int| 0 <= x < members.len() && members[x] == order[a];
        let y = choose|y: int| 0 <= y < members.len() && members[y] == order[b];
        assert(user_ids(members)[x] == members[x].user_id@);
        assert(user_ids(members)[y] == members[y].user_id@);
    }
}

/// The pairing that `generate_pairs` makes of a group whose member ids are
/// distinct is one single cycle over all its members, with no one giving to
/// themselves (see `lemma_pairing_is_single_cycle`).
pub proof fn lemma_generated_pairing_is_cycle(members: Seq<Member>, order: Seq<Member>)
    requires
        user_ids(members).no_duplicates(),
        members.len() >= 2,
        order.to_multiset() == members.to_multiset(),
    ensures
        user_ids(order).no_duplicates(),
        cycle_edges(user_ids(order)).len() == members.len(),
        forall|k: int|
            0 <= k < members.len() ==> #[trigger] cycle_edges(user_ids(order))[k].0
                != cycle_edges(user_ids(order))[k].1,
        forall|j: int|
            0 <= j < members.len() ==> #[trigger] walk(
                cycle_edges(user_ids(order)),
                user_ids(order)[j],
                members.len(),
            ) == user_ids(order)[j],
        forall|j: int, t: nat|
            0 <= j < members.len() && 0 < t < members.len() ==> #[trigger] walk(
                cycle_edges(user_ids(order)),
                user_ids(order)[j],
                t,
            ) != user_ids(order)[j],
        forall|j: int, m: int|
            #![trigger user_ids(order)[j], user_ids(order)[m]]
            0 <= j < members.len() && 0 <= m < members.len() ==> walk(
                cycle_edges(user_ids(order)),
                user_ids(order)[j],
                steps_between(j, m, members.len()),
            ) == user_ids(order)[m],
{
    lemma_permutation_keeps_ids_distinct(members, order);
    lemma_pairing_is_single_cycle(user_ids(order));
}

} // verus!
