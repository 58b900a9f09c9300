use santa_session::errors::AppError;
use santa_session::models::{
    CreateGroupInput, DbGroup, DbMember, Group, JoinGroupInput, WsMessage,
};
use santa_session::pairing::generate_pairs;
use santa_session::registry::Registry;
use santa_session::session::{
    assignment_rows, connect_messages, connection_key, generate_group_id, group_from_rows,
    group_id_from_indices,
    join_group, new_group, require_group_id, require_user_id,
};
use std::sync::mpsc::channel;

fn s(x: &str) -> String {
    x.to_string()
}

fn create(id: &str, creator: &str, user: &str) -> Group {
    new_group(s(id), CreateGroupInput { name: s("Party"), creator: s(creator), user_id: s(user) })
}

fn join(g: Group, name: &str, user: &str) -> Result<Group, AppError> {
    join_group(Some(g), JoinGroupInput { group_id: s("G1"), name: s(name), user_id: s(user) })
}

#[test]
fn new_group_has_creator_as_only_member() {
    let g = create("G1", "Alice", "a1");
    assert_eq!(g.id, "G1");
    assert_eq!(g.name, "Party");
    assert_eq!(g.creator, "Alice");
    assert!(!g.is_generated);
    assert_eq!(g.members.len(), 1);
    assert_eq!(g.members[0].user_id, "a1");
    assert_eq!(g.members[0].name, "Alice");
    assert!(g.members[0].is_creator);
}

#[test]
fn join_appends_non_creator_member() {
    let g = join(create("G1", "Alice", "a1"), "Bob", "b1").unwrap();
    assert_eq!(g.members.len(), 2);
    assert_eq!(g.members[1].user_id, "b1");
    assert_eq!(g.members[1].name, "Bob");
    assert!(!g.members[1].is_creator);
    assert_eq!(g.id, "G1");
}

#[test]
fn join_generated_group_fails_without_insertion() {
    let mut g = join(create("G1", "Alice", "a1"), "Bob", "b1").unwrap();
    g.is_generated = true;
    let r = join(g.clone(), "Carol", "c1");
    assert_eq!(r.unwrap_err(), AppError::GroupAlreadyGenerated);
    assert_eq!(g.members.len(), 2);
}

#[test]
fn join_taken_name_fails_but_other_group_accepts_it() {
    let g1 = join(create("G1", "Alice", "a1"), "Bob", "b1").unwrap();
    assert_eq!(join(g1, "Bob", "b2").unwrap_err(), AppError::NameTaken);
    let g2 = create("G2", "Dora", "d1");
    let g2 = join(g2, "Bob", "b2").unwrap();
    assert_eq!(g2.members.len(), 2);
}

#[test]
fn join_name_match_is_case_sensitive() {
    let g = join(create("G1", "Alice", "a1"), "alice", "a2").unwrap();
    assert_eq!(g.members.len(), 2);
}

#[test]
fn join_twice_by_same_user_fails() {
    let g = join(create("G1", "Alice", "a1"), "Bob", "b1").unwrap();
    assert_eq!(join(g, "Bobby", "b1").unwrap_err(), AppError::AlreadyMember);
}

#[test]
fn join_missing_group_is_not_found() {
    let r = join_group(None, JoinGroupInput { group_id: s("X"), name: s("Bob"), user_id: s("b1") });
    assert_eq!(r.unwrap_err(), AppError::GroupNotFound);
}

#[test]
fn end_to_end_three_members_each_get_one_other() {
    let g = create("G1", "A", "a1");
    let g = join(g, "B", "b1").unwrap();
    let g = join(g, "C", "c1").unwrap();
    let p = generate_pairs(Some(g.clone())).unwrap();
    let mut paired = g.clone();
    paired.is_generated = true;
    let names = [("a1", "A"), ("b1", "B"), ("c1", "C")];
    for (id, own) in names {
        let receiver = p.by_user_id.iter().find(|e| e.0 == id).map(|e| e.1.clone());
        let msgs = connect_messages(Some(paired.clone()), receiver);
        assert_eq!(msgs.len(), 2);
        assert!(matches!(msgs[0], WsMessage::GroupUpdate(_)));
        let got: Vec<&String> = msgs
            .iter()
            .filter_map(|m| match m {
                WsMessage::assignment { receiver } => Some(receiver),
                _ => None,
            })
            .collect();
        assert_eq!(got.len(), 1);
        assert_ne!(got[0], own);
        assert!(["A", "B", "C"].contains(&got[0].as_str()));
    }
    let next = |x: &str| p.pairs.iter().find(|e| e.0 == x).unwrap().1.clone();
    let b = next("a1");
    let c = next(&b);
    assert_eq!(next(&c), "a1");
    assert!(b != "a1" && c != "a1" && b != c);
}

#[test]
fn end_to_end_live_connection_sees_join() {
    let mut reg = Registry::new();
    let (tx, rx) = channel::<Group>();
    let g = create("G1", "A", "a1");
    for m in connect_messages(Some(g.clone()), None) {
        if let WsMessage::GroupUpdate(snapshot) = m {
            assert_eq!(snapshot.members.len(), 1);
        }
    }
    reg.register(s("G1"), s("a1"), tx);
    let g = join(g, "B", "b1").unwrap();
    for h in reg.recipients(&s("G1")) {
        h.send(g.clone()).unwrap();
    }
    let seen = rx.recv().unwrap();
    assert!(seen.members.iter().any(|m| m.user_id == "b1"));
}

#[test]
fn connect_messages_cases() {
    assert!(connect_messages(None, Some(s("B"))).is_empty());
    let g = create("G1", "A", "a1");
    let m = connect_messages(Some(g.clone()), Some(s("B")));
    assert_eq!(m.len(), 1);
    let mut paired = g;
    paired.is_generated = true;
    assert_eq!(connect_messages(Some(paired.clone()), None).len(), 1);
    let m = connect_messages(Some(paired), Some(s("B")));
    match &m[1] {
        WsMessage::assignment { receiver } => assert_eq!(receiver, "B"),
        _ => panic!("expected an assignment"),
    }
}

#[test]
fn connection_key_requires_both_ids() {
    assert_eq!(connection_key(Some(s("G")), Some(s("u"))).unwrap(), (s("G"), s("u")));
    assert_eq!(
        connection_key(None, Some(s("u"))).unwrap_err(),
        AppError::InvalidInput(s("Group ID required"))
    );
    assert_eq!(
        connection_key(Some(s("G")), None).unwrap_err(),
        AppError::InvalidInput(s("User ID required"))
    );
    assert_eq!(
        connection_key(None, None).unwrap_err(),
        AppError::InvalidInput(s("Group ID required"))
    );
}

#[test]
fn require_ids() {
    assert_eq!(require_group_id(Some(s("G"))).unwrap(), "G");
    assert_eq!(require_user_id(Some(s("u"))).unwrap(), "u");
    assert_eq!(require_user_id(None).unwrap_err(), AppError::InvalidInput(s("User ID required")));
}

#[test]
fn group_id_is_five_upper_alphanumerics() {
    for _ in 0..50 {
        let id = generate_group_id();
        assert_eq!(id.chars().count(), 5);
        assert!(id.chars().all(|c| c.is_ascii_uppercase() || c.is_ascii_digit()));
    }
}

#[test]
fn group_from_rows_keeps_rows_in_order() {
    let g = group_from_rows(
        DbGroup { id: s("G1"), name: s("Party"), creator: s("A"), is_generated: true },
        &vec![
            DbMember { group_id: s("G1"), user_id: s("a1"), name: s("A"), is_creator: true },
            DbMember { group_id: s("G1"), user_id: s("b1"), name: s("B"), is_creator: false },
        ],
    );
    assert_eq!(g.id, "G1");
    assert_eq!(g.creator, "A");
    assert!(g.is_generated);
    assert_eq!(g.members.len(), 2);
    assert_eq!(g.members[1].user_id, "b1");
    assert!(g.members[0].is_creator && !g.members[1].is_creator);
}

#[test]
fn assignment_rows_one_per_edge() {
    let g = join(create("G1", "A", "a1"), "B", "b1").unwrap();
    let p = generate_pairs(Some(g)).unwrap();
    let rows = assignment_rows(&s("G1"), &p);
    assert_eq!(rows.len(), 2);
    for (row, edge) in rows.iter().zip(p.pairs.iter()) {
        assert_eq!(row.group_id, "G1");
        assert_eq!(row.giver_id, edge.0);
        assert_eq!(row.receiver_id, edge.1);
    }
}

#[test]
fn error_status_and_message() {
    assert_eq!(AppError::GroupNotFound.status_and_message(), (404, s("Group not found")));
    assert_eq!(
        AppError::NameTaken.status_and_message(),
        (400, s("Name already taken in this group"))
    );
    assert_eq!(
        AppError::GroupAlreadyGenerated.status_and_message(),
        (400, s("Cannot join group - Secret Santas have already been generated"))
    );
    assert_eq!(
        AppError::AlreadyMember.status_and_message(),
        (400, s("Already a member of this group"))
    );
    assert_eq!(AppError::InvalidInput(s("bad")).status_and_message(), (400, s("bad")));
    assert_eq!(AppError::Database(s("disk")).status_and_message(), (500, s("disk")));
    assert_eq!(AppError::WebSocket(s("closed")).status_and_message(), (500, s("closed")));
}

#[test]
fn group_ids_vary_between_calls() {
    let first = generate_group_id();
    let differs = (0..50).any(|_| generate_group_id() != first);
    assert!(differs);
}

#[test]
fn group_id_from_indices_spells_charset_entries() {
    assert_eq!(group_id_from_indices(&vec![0, 1, 25, 26, 35]), "ABZ09");
    assert_eq!(group_id_from_indices(&vec![7, 4, 11, 11, 14]), "HELLO");
    assert_eq!(group_id_from_indices(&vec![0, 0, 0, 0, 0]), "AAAAA");
}
