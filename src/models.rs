use vstd::prelude::*;

verus! {

/// One participant of a group, as shown to clients.
#[derive(Debug, Clone)]
pub struct Member {
    pub user_id: String,
    pub name: String,
    pub is_creator: bool,
}

/// A full snapshot of a group: its identity, its members and whether the
/// pairing has been generated.
#[derive(Debug, Clone)]
pub struct Group {
    pub id: String,
    pub name: String,
    pub creator: String,
    pub members: Vec<Member>,
    pub is_generated: bool,
}

/// One row of the list of groups a user belongs to.
#[derive(Debug, Clone)]
pub struct UserGroupResponse {
    pub id: String,
    pub name: String,
    pub is_generated: bool,
    pub is_creator: bool,
}

/// Request to create a group; `creator` is the creator's display name.
#[derive(Debug, Clone)]
pub struct CreateGroupInput {
    pub name: String,
    pub creator: String,
    pub user_id: String,
}

/// Request to join an existing group under a display name.
#[derive(Debug, Clone)]
pub struct JoinGroupInput {
    pub group_id: String,
    pub name: String,
    pub user_id: String,
}

/// The messages pushed from the server to connected clients.
#[derive(Debug, Clone)]
#[allow(non_camel_case_types)]
pub enum WsMessage {
    /// A full snapshot of the group.
    GroupUpdate(Group),
    /// The display name of the member the receiving client gives a gift to.
    assignment { receiver: String },
    /// The whole pairing: giver id to receiver display name (`by_user_id`)
    /// and giver id to receiver id (`pairs`), one entry per giver.
    AssignmentsGenerated { by_user_id: Vec<(String, String)>, pairs: Vec<(String, String)> },
}

/// A stored group row.
#[derive(Debug, Clone)]
pub struct DbGroup {
    pub id: String,
    pub name: String,
    pub creator: String,
    pub is_generated: bool,
}

/// A stored member row.
#[derive(Debug, Clone)]
pub struct DbMember {
    pub group_id: String,
    pub user_id: String,
    pub name: String,
    pub is_creator: bool,
}

/// A stored assignment row: `giver_id` gives a gift to `receiver_id`.
#[derive(Debug, Clone)]
pub struct DbAssignment {
    pub group_id: String,
    pub giver_id: String,
    pub receiver_id: String,
}

/// The user ids of a list of members, in order.
pub open spec fn user_ids(ms: Seq<Member>) -> Seq<Seq<char>> {
    ms.map_values(|m: Member| m.user_id@)
}

/// The display names of a list of members, in order.
pub open spec fn member_names(ms: Seq<Member>) -> Seq<Seq<char>> {
    ms.map_values(|m: Member| m.name@)
}

/// A pair of strings viewed as a pair of character sequences.
pub open spec fn pair_view(p: (String, String)) -> (Seq<char>, Seq<char>) {
    (p.0@, p.1@)
}

/// A list of string pairs viewed as a sequence of character-sequence pairs.
pub open spec fn pairs_view(v: Seq<(String, String)>) -> Seq<(Seq<char>, Seq<char>)> {
    v.map_values(|p: (String, String)| pair_view(p))
}

/// Exactly one member of `ms` is the creator.
pub open spec fn has_one_creator(ms: Seq<Member>) -> bool {
    exists|c: int|
        0 <= c < ms.len() && (#[trigger] ms[c]).is_creator && forall|k: int|
            0 <= k < ms.len() && k != c ==> !(#[trigger] ms[k]).is_creator
}

impl Group {
    /// Member ids and member names are each unique within the group, and
    /// exactly one member is its creator.
    pub open spec fn wf(&self) -> bool {
        &&& user_ids(self.members@).no_duplicates()
        &&& member_names(self.members@).no_duplicates()
        &&& has_one_creator(self.members@)
    }

    /// Whether some member of the group carries display name `name`.
    pub open spec fn has_name(&self, name: Seq<char>) -> bool {
        member_names(self.members@).contains(name)
    }

    /// Whether some member of the group has user id `id`.
    pub open spec fn has_user(&self, id: Seq<char>) -> bool {
        user_ids(self.members@).contains(id)
    }
}

} // verus!
