use vstd::prelude::*;
use vstd::string::*;
use crate::errors::AppError;
use crate::models::{
    CreateGroupInput, DbAssignment, DbGroup, DbMember, Group, JoinGroupInput, Member, WsMessage,
    has_one_creator, member_names, user_ids,
};
use crate::pairing::Pairing;
use rand::Rng;

verus! {

/// Whether some member of `ms` carries display name `name`.
fn name_taken(ms: &Vec<Member>, name: &String) -> (r: bool)
    ensures
        r == member_names(ms@).contains(name@),
{
    let mut k: usize = 0;
    while k < ms.len()
        invariant
            k <= ms@.len(),
            forall|x: int| 0 <= x < k ==> (#[trigger] member_names(ms@)[x]) != name@,
        decreases ms.len() - k,
    {
        assert(member_names(ms@)[k as int] == ms@[k as int].name@);
        if ms[k].name == *name {
            return true;
        }
        k = k + 1;
    }
    false
}

/// Whether some member of `ms` has user id `id`.
fn user_present(ms: &Vec<Member>, id: &String) -> (r: bool)
    ensures
        r == user_ids(ms@).contains(id@),
{
    let mut k: usize = 0;
    while k < ms.len()
        invariant
            k <= ms@.len(),
            forall|x: int| 0 <= x < k ==> (#[trigger] user_ids(ms@)[x]) != id@,
        decreases ms.len() - k,
    {
        assert(user_ids(ms@)[k as int] == ms@[k as int].user_id@);
        if ms[k].user_id == *id {
            return true;
        }
        k = k + 1;
    }
    false
}

/// Adds the member that `input` describes to `group`. Fails with
/// `GroupNotFound` when there is no group, `GroupAlreadyGenerated` once the
/// pairing exists, `NameTaken` when a member already carries the name, and
/// `AlreadyMember` when the user already belongs to the group; these are
/// tested in that order. On success the group is returned with the new member
/// (not the creator) appended and nothing else changed.
pub fn join_group(group: Option<Group>, input: JoinGroupInput) -> (r: Result<Group, AppError>)
    ensures
        group is None ==> r == Err::<Group, AppError>(AppError::GroupNotFound),
        group is Some && group->0.is_generated ==> r == Err::<Group, AppError>(
            AppError::GroupAlreadyGenerated,
        ),
        group is Some && !group->0.is_generated && group->0.has_name(input.name@) ==> r == Err::<
            Group,
            AppError,
        >(AppError::NameTaken),
        group is Some && !group->0.is_generated && !group->0.has_name(input.name@)
            && group->0.has_user(input.user_id@) ==> r == Err::<Group, AppError>(
            AppError::AlreadyMember,
        ),
        r is Ok <==> group is Some && !group->0.is_generated && !group->0.has_name(input.name@)
            && !group->0.has_user(input.user_id@),
        r is Ok ==> {
            let g = group->0;
            let ng = r->Ok_0;
            &&& ng.id == g.id
            &&& ng.name == g.name
            &&& ng.creator == g.creator
            &&& ng.is_generated == g.is_generated
            &&& ng.members@ == g.members@.push(
                Member { user_id: input.user_id, name: input.name, is_creator: false },
            )
        },
        r is Ok && group->0.wf() ==> r->Ok_0.wf(),
{
    match group {
        None => Err(AppError::GroupNotFound),
        Some(g) => {
            if g.is_generated {
                Err(AppError::GroupAlreadyGenerated)
            } else if name_taken(&g.members, &input.name) {
                Err(AppError::NameTaken)
            } else if user_present(&g.members, &input.user_id) {
                Err(AppError::AlreadyMember)
            } else {
                let ghost before = g.members@;
                let mut members = g.members;
                let m = Member { user_id: input.user_id, name: input.name, is_creator: false };
                let ghost mv = m;
                members.push(m);
                proof {
                    assert(user_ids(members@) =~= user_ids(before).push(mv.user_id@));
                    assert(member_names(members@) =~= member_names(before).push(mv.name@));
                    if has_one_creator(before) {
                        let c = choose|c: int|
                            0 <= c < before.len() && (#[trigger] before[c]).is_creator && forall|
                                k: int,
                            | 0 <= k < before.len() && k != c ==> !(#[trigger] before[k]).is_creator;
                        assert(members@[c] == before[c]);
                        assert forall|k: int|
                            0 <= k < members@.len() && k != c implies !(
                            #[trigger] members@[k]).is_creator by {
                            if k < before.len() {
                                assert(members@[k] == before[k]);
                            }
                        }
                    }
                }
                Ok(
                    Group {
                        id: g.id,
                        name: g.name,
                        creator: g.creator,
                        members,
                        is_generated: g.is_generated,
                    },
                )
            }
        },
    }
}

/// The group snapshot made of a stored group row and its member rows, in
/// the order given.
pub fn group_from_rows(group: DbGroup, rows: &Vec<DbMember>) -> (r: Group)
    ensures
        r.id == group.id,
        r.name == group.name,
        r.creator == group.creator,
        r.is_generated == group.is_generated,
        r.members@.len() == rows@.len(),
        forall|i: int|
            0 <= i < rows@.len() ==> (#[trigger] r.members@[i]).user_id == rows@[i].user_id
                && r.members@[i].name == rows@[i].name && r.members@[i].is_creator
                == rows@[i].is_creator,
{
    let mut members: Vec<Member> = Vec::new();
    let mut k: usize = 0;
    while k < rows.len()
        invariant
            k <= rows@.len(),
            members@.len() == k,
            forall|i: int|
                0 <= i < k ==> (#[trigger] members@[i]).user_id == rows@[i].user_id
                    && members@[i].name == rows@[i].name && members@[i].is_creator
                    == rows@[i].is_creator,
        decreases rows.len() - k,
    {
        let row = &rows[k];
        members.push(
            Member {
                user_id: row.user_id.clone(),
                name: row.name.clone(),
                is_creator: row.is_creator,
            },
        );
        k = k + 1;
    }
    Group {
        id: group.id,
        name: group.name,
        creator: group.creator,
        members,
        is_generated: group.is_generated,
    }
}

/// A new group under id `group_id`, not yet paired, whose one member is its
/// creator, under the creator's display name.
pub fn new_group(group_id: String, input: CreateGroupInput) -> (r: Group)
    ensures
        r.id == group_id,
        r.name == input.name,
        r.creator == input.creator,
        !r.is_generated,
        r.members@ == seq![
            Member { user_id: input.user_id, name: input.creator, is_creator: true },
        ],
        r.wf(),
{
    let creator_name = input.creator.clone();
    let mut members: Vec<Member> = Vec::new();
    members.push(Member { user_id: input.user_id, name: creator_name, is_creator: true });
    proof {
        assert(user_ids(members@).len() == 1);
        assert(member_names(members@).len() == 1);
        assert(members@[0].is_creator);
    }
    Group { id: group_id, name: input.name, creator: input.creator, members, is_generated: false }
}

/// The number of characters of a group id.
pub const GROUP_ID_LEN: usize = 5;

/// The characters a group id is made of: upper-case letters and digits.
pub open spec fn is_group_id_char(c: char) -> bool {
    ('A' <= c && c <= 'Z') || ('0' <= c && c <= '9')
}

/// Relies on rand's `Rng::gen_range` with the thread-local generator: a
/// value of the half-open range `0..n`, which must not be empty.
#[verifier::external_body]
fn random_below(n: usize) -> (r: usize)
    requires
        n > 0,
    ensures
        r < n,
{
    rand::thread_rng().gen_range(0..n)
}

/// Relies on std's `FromIterator<char>` for `String`: the characters in
/// order.
#[verifier::external_body]
fn string_of_chars(cs: &Vec<char>) -> (r: String)
    ensures
        r@ == cs@,
{
    cs.iter().collect()
}

/// The number of characters a group id is drawn from.
pub const GROUP_ID_CHARSET_LEN: usize = 36;

/// The characters a group id is drawn from, in the order that drawn indices
/// refer to: the upper-case letters, then the digits.
pub open spec fn group_id_charset() -> Seq<char> {
    seq![
        'A', 'B', 'C', 'D', 'E', 'F', 'G', 'H', 'I', 'J', 'K', 'L', 'M', 'N', 'O', 'P', 'Q', 'R',
        'S', 'T', 'U', 'V', 'W', 'X', 'Y', 'Z', '0', '1', '2', '3', '4', '5', '6', '7', '8', '9',
    ]
}

/// The group id that the drawn indices `idx` spell: its `k`-th character is
/// the charset entry at the `k`-th index.
pub open spec fn group_id_of(idx: Seq<usize>) -> Seq<char> {
    Seq::new(idx.len(), |k: int| group_id_charset()[idx[k] as int])
}

/// The group id spelled by five drawn indices into the charset.
pub fn group_id_from_indices(idx: &Vec<usize>) -> (r: String)
    requires
        idx@.len() == GROUP_ID_LEN,
        forall|k: int| 0 <= k < idx@.len() ==> #[trigger] idx@[k] < GROUP_ID_CHARSET_LEN,
    ensures
        r@ == group_id_of(idx@),
        forall|i: int| 0 <= i < r@.len() ==> is_group_id_char(#[trigger] r@[i]),
{
    let charset: Vec<char> = vec![
        'A', 'B', 'C', 'D', 'E', 'F', 'G', 'H', 'I', 'J', 'K', 'L', 'M', 'N', 'O', 'P', 'Q', 'R',
        'S', 'T', 'U', 'V', 'W', 'X', 'Y', 'Z', '0', '1', '2', '3', '4', '5', '6', '7', '8', '9',
    ];
    assert(charset@ =~= group_id_charset());
    assert(forall|i: int| 0 <= i < charset@.len() ==> is_group_id_char(#[trigger] charset@[i]));
    let mut cs: Vec<char> = Vec::new();
    let mut k: usize = 0;
    while k < idx.len()
        invariant
            k <= idx@.len(),
            idx@.len() == GROUP_ID_LEN,
            forall|j: int| 0 <= j < idx@.len() ==> #[trigger] idx@[j] < GROUP_ID_CHARSET_LEN,
            charset@ == group_id_charset(),
            cs@.len() == k,
            forall|i: int| 0 <= i < k ==> #[trigger] cs@[i] == group_id_charset()[idx@[i] as int],
            forall|i: int| 0 <= i < charset@.len() ==> is_group_id_char(#[trigger] charset@[i]),
            forall|i: int| 0 <= i < cs@.len() ==> is_group_id_char(#[trigger] cs@[i]),
        decreases idx.len() - k,
    {
        cs.push(charset[idx[k]]);
        k = k + 1;
    }
    assert(cs@ =~= group_id_of(idx@));
    string_of_chars(&cs)
}

/// A fresh random group id: five characters, each drawn independently from
/// the charset.
pub fn generate_group_id() -> (r: String)
    ensures
        r@.len() == GROUP_ID_LEN,
        forall|i: int| 0 <= i < r@.len() ==> is_group_id_char(#[trigger] r@[i]),
        exists|idx: Seq<usize>|
            #![trigger group_id_of(idx)]
            idx.len() == GROUP_ID_LEN && (forall|k: int|
                0 <= k < idx.len() ==> #[trigger] idx[k] < GROUP_ID_CHARSET_LEN) && r@
                == group_id_of(idx),
{
    let mut idx: Vec<usize> = Vec::new();
    let mut k: usize = 0;
    while k < GROUP_ID_LEN
        invariant
            k <= GROUP_ID_LEN,
            idx@.len() == k,
            forall|j: int| 0 <= j < idx@.len() ==> #[trigger] idx@[j] < GROUP_ID_CHARSET_LEN,
        decreases GROUP_ID_LEN - k,
    {
        idx.push(random_below(GROUP_ID_CHARSET_LEN));
        k = k + 1;
    }
    group_id_from_indices(&idx)
}

/// The group id of a request, which is required.
pub fn require_group_id(id: Option<String>) -> (r: Result<String, AppError>)
    ensures
        id is Some ==> r == Ok::<String, AppError>(id->0),
        id is None ==> r is Err && r->Err_0 is InvalidInput && r->Err_0->InvalidInput_0@
            == "Group ID required"@,
{
    match id {
        Some(s) => Ok(s),
        None => Err(AppError::InvalidInput(String::from_str("Group ID required"))),
    }
}

/// The user id of a request, which is required.
pub fn require_user_id(id: Option<String>) -> (r: Result<String, AppError>)
    ensures
        id is Some ==> r == Ok::<String, AppError>(id->0),
        id is None ==> r is Err && r->Err_0 is InvalidInput && r->Err_0->InvalidInput_0@
            == "User ID required"@,
{
    match id {
        Some(s) => Ok(s),
        None => Err(AppError::InvalidInput(String::from_str("User ID required"))),
    }
}

/// The (group, member) key of a new connection: both ids are required, the
/// group id being checked first.
pub fn connection_key(group_id: Option<String>, user_id: Option<String>) -> (r: Result<
    (String, String),
    AppError,
>)
    ensures
        r is Ok <==> group_id is Some && user_id is Some,
        r is Ok ==> r->Ok_0.0 == group_id->0 && r->Ok_0.1 == user_id->0,
        group_id is None ==> r is Err && r->Err_0->InvalidInput_0@ == "Group ID required"@,
        group_id is Some && user_id is None ==> r is Err && r->Err_0->InvalidInput_0@
            == "User ID required"@,
        r is Err ==> r->Err_0 is InvalidInput,
{
    let g = require_group_id(group_id)?;
    let u = require_user_id(user_id)?;
    Ok((g, u))
}

/// The messages a new connection receives before any broadcast: the group
/// snapshot when the group exists, then, when the group is paired and the
/// member has a receiver, that receiver's display name. Nothing when the
/// group does not exist.
pub fn connect_messages(group: Option<Group>, receiver: Option<String>) -> (r: Vec<WsMessage>)
    ensures
        group is None ==> r@.len() == 0,
        group is Some ==> r@.len() >= 1 && r@[0] == WsMessage::GroupUpdate(group->0),
        group is Some && group->0.is_generated && receiver is Some ==> r@.len() == 2 && r@[1]
            == (WsMessage::assignment { receiver: receiver->0 }),
        group is Some && !(group->0.is_generated && receiver is Some) ==> r@.len() == 1,
{
    let mut r: Vec<WsMessage> = Vec::new();
    match group {
        None => {},
        Some(g) => {
            let generated = g.is_generated;
            r.push(WsMessage::GroupUpdate(g));
            if generated {
                match receiver {
                    Some(name) => {
                        r.push(WsMessage::assignment { receiver: name });
                    },
                    None => {},
                }
            }
        },
    }
    r
}

/// The assignment rows that store `pairing` for group `group_id`: one per
/// giver, in the pairing's order.
pub fn assignment_rows(group_id: &String, pairing: &Pairing) -> (r: Vec<DbAssignment>)
    ensures
        r@.len() == pairing.pairs@.len(),
        forall|i: int|
            0 <= i < r@.len() ==> (#[trigger] r@[i]).group_id == *group_id && r@[i].giver_id
                == pairing.pairs@[i].0 && r@[i].receiver_id == pairing.pairs@[i].1,
{
    let mut r: Vec<DbAssignment> = Vec::new();
    let mut k: usize = 0;
    while k < pairing.pairs.len()
        invariant
            k <= pairing.pairs@.len(),
            r@.len() == k,
            forall|i: int|
                0 <= i < k ==> (#[trigger] r@[i]).group_id == *group_id && r@[i].giver_id
                    == pairing.pairs@[i].0 && r@[i].receiver_id == pairing.pairs@[i].1,
        decreases pairing.pairs.len() - k,
    {
        let p = &pairing.pairs[k];
        r.push(
            DbAssignment {
                group_id: group_id.clone(),
                giver_id: p.0.clone(),
                receiver_id: p.1.clone(),
            },
        );
        k = k + 1;
    }
    r
}

} // verus!
