use santa_session::errors::AppError;
use santa_session::models::{Group, Member};
use santa_session::pairing::{assign_cycle, generate_pairs, Pairing};

fn member(id: &str, name: &str, creator: bool) -> Member {
    Member { user_id: id.to_string(), name: name.to_string(), is_creator: creator }
}

fn group_of(n: usize, generated: bool) -> Group {
    let mut members = Vec::new();
    for i in 0..n {
        members.push(member(&format!("u{}", i), &format!("Name{}", i), i == 0));
    }
    Group {
        id: "ABCDE".to_string(),
        name: "Office".to_string(),
        creator: "Name0".to_string(),
        members,
        is_generated: generated,
    }
}

fn receiver_of(p: &Pairing, giver: &str) -> String {
    let hits: Vec<&(String, String)> = p.pairs.iter().filter(|e| e.0 == giver).collect();
    assert_eq!(hits.len(), 1, "giver {} must have exactly one edge", giver);
    hits[0].1.clone()
}

fn assert_single_cycle(p: &Pairing, ids: &[String]) {
    let n = ids.len();
    assert_eq!(p.pairs.len(), n);
    assert_eq!(p.by_user_id.len(), n);
    for e in &p.pairs {
        assert_ne!(e.0, e.1);
    }
    for start in ids {
        let mut seen = vec![start.clone()];
        let mut cur = receiver_of(p, start);
        let mut steps = 1;
        while &cur != start {
            assert!(!seen.contains(&cur));
            seen.push(cur.clone());
            cur = receiver_of(p, &cur);
            steps += 1;
            assert!(steps <= n);
        }
        assert_eq!(steps, n);
        assert_eq!(seen.len(), n);
    }
}

#[test]
fn generate_pairs_forms_single_cycle_for_many_sizes() {
    for n in 2..9 {
        let g = group_of(n, false);
        let ids: Vec<String> = g.members.iter().map(|m| m.user_id.clone()).collect();
        let p = generate_pairs(Some(g)).expect("pairing must succeed");
        assert_single_cycle(&p, &ids);
    }
}

#[test]
fn generate_pairs_names_match_receivers() {
    let g = group_of(4, false);
    let names: Vec<(String, String)> =
        g.members.iter().map(|m| (m.user_id.clone(), m.name.clone())).collect();
    let p = generate_pairs(Some(g)).unwrap();
    for (giver, name) in &p.by_user_id {
        let receiver = receiver_of(&p, giver);
        let expected = names.iter().find(|(id, _)| *id == receiver).unwrap().1.clone();
        assert_eq!(*name, expected);
    }
}

#[test]
fn generate_pairs_two_members_swap() {
    let p = generate_pairs(Some(group_of(2, false))).unwrap();
    assert_eq!(receiver_of(&p, "u0"), "u1");
    assert_eq!(receiver_of(&p, "u1"), "u0");
}

#[test]
fn generate_pairs_on_generated_group_is_rejected() {
    let r = generate_pairs(Some(group_of(3, true)));
    assert_eq!(r.unwrap_err(), AppError::GroupAlreadyGenerated);
}

#[test]
fn generate_pairs_on_missing_group_is_not_found() {
    assert_eq!(generate_pairs(None).unwrap_err(), AppError::GroupNotFound);
}

#[test]
fn generate_pairs_rejects_fewer_than_two_members() {
    assert!(matches!(generate_pairs(Some(group_of(1, false))), Err(AppError::InvalidInput(_))));
    assert!(matches!(generate_pairs(Some(group_of(0, false))), Err(AppError::InvalidInput(_))));
}

#[test]
fn assign_cycle_follows_the_given_order() {
    let order = vec![member("c", "Cy", false), member("a", "Al", true), member("b", "Bo", false)];
    let p = assign_cycle(&order);
    let expected = vec![
        ("c".to_string(), "a".to_string()),
        ("a".to_string(), "b".to_string()),
        ("b".to_string(), "c".to_string()),
    ];
    assert_eq!(p.pairs, expected);
    let names = vec![
        ("c".to_string(), "Al".to_string()),
        ("a".to_string(), "Bo".to_string()),
        ("b".to_string(), "Cy".to_string()),
    ];
    assert_eq!(p.by_user_id, names);
}

#[test]
fn assign_cycle_empty_order_gives_no_edges() {
    let p = assign_cycle(&Vec::new());
    assert!(p.pairs.is_empty());
    assert!(p.by_user_id.is_empty());
}

#[test]
fn generate_pairs_varies_between_runs() {
    let mut seen: Vec<Vec<(String, String)>> = Vec::new();
    for _ in 0..200 {
        let p = generate_pairs(Some(group_of(4, false))).unwrap();
        if !seen.contains(&p.pairs) {
            seen.push(p.pairs);
        }
    }
    assert!(seen.len() > 1);
}
