use ddns_rs::address::Addr;
use ddns_rs::reconcile::{reconcile, Action, LocalGroup, Plan, RemoteGroup, RemoteRecord};

const A: Addr = Addr::V4(0x0102_0304);
const B: Addr = Addr::V4(0x0506_0708);
const C: Addr = Addr::V4(0x090a_0b0c);
const D: Addr = Addr::V4(0x0d0e_0f10);

fn local(prefix: &str, addrs: &[Addr]) -> LocalGroup {
    LocalGroup { prefix: prefix.to_string(), addrs: addrs.to_vec() }
}

fn remote(prefix: &str, records: &[(u64, Addr)]) -> RemoteGroup {
    RemoteGroup {
        prefix: prefix.to_string(),
        records: records.iter().map(|&(id, addr)| RemoteRecord { id, addr }).collect(),
    }
}

fn counts(plan: &Plan) -> (usize, usize, usize) {
    let mut c = (0, 0, 0);
    for a in &plan.actions {
        match a {
            Action::Create { .. } => c.0 += 1,
            Action::Update { .. } => c.1 += 1,
            Action::Delete { .. } => c.2 += 1,
        }
    }
    c
}

fn outcome_addrs(plan: &Plan) -> Vec<Addr> {
    plan.outcome.iter().map(|(_, a)| *a).collect()
}

/// Applies a plan to the remote groups as a provider would, new records
/// taking ids from `next_id`.
fn apply(remote: &mut Vec<RemoteGroup>, plan: &Plan, mut next_id: u64) {
    for a in &plan.actions {
        match a {
            Action::Create { prefix, addr, .. } => {
                let rec = RemoteRecord { id: next_id, addr: *addr };
                next_id += 1;
                match remote.iter_mut().find(|g| &g.prefix == prefix) {
                    Some(g) => g.records.push(rec),
                    None => remote.push(RemoteGroup { prefix: prefix.clone(), records: vec![rec] }),
                }
            },
            Action::Update { record, addr, .. } => {
                for g in remote.iter_mut() {
                    for r in g.records.iter_mut() {
                        if r.id == *record {
                            r.addr = *addr;
                        }
                    }
                }
            },
            Action::Delete { record, .. } => {
                for g in remote.iter_mut() {
                    g.records.retain(|r| r.id != *record);
                }
            },
        }
    }
}

#[test]
fn second_cycle_is_empty() {
    let l = vec![local("@", &[A, B]), local("www", &[C])];
    let mut r = vec![remote("@", &[(1, C), (2, D), (3, A), (4, A)])];
    let first = reconcile(&l, &r, 600, false);
    assert!(!first.actions.is_empty());
    apply(&mut r, &first, 100);
    let second = reconcile(&l, &r, 600, false);
    assert!(second.actions.is_empty());
    assert!(second.outcome.is_empty());
}

#[test]
fn rotation_is_updates_only() {
    let l = vec![local("@", &[C, D])];
    let r = vec![remote("@", &[(1, A), (2, B)])];
    let plan = reconcile(&l, &r, 600, false);
    assert_eq!(counts(&plan), (0, 2, 0));
    assert!(matches!(plan.actions[0], Action::Update { record: 1, addr, .. } if addr == C));
    assert!(matches!(plan.actions[1], Action::Update { record: 2, addr, .. } if addr == D));
    assert_eq!(outcome_addrs(&plan), vec![C, D]);
}

#[test]
fn new_prefix_is_creates_only() {
    let l = vec![local("www", &[A, B, A])];
    let r = vec![remote("@", &[(1, A)])];
    let plan = reconcile(&l, &r, 300, true);
    assert_eq!(counts(&plan), (3, 0, 0));
    for a in &plan.actions {
        assert!(matches!(a, Action::Create { prefix, ttl: 300, .. } if prefix == "www"));
    }
    assert_eq!(outcome_addrs(&plan), vec![A, B, A]);
}

#[test]
fn surplus_remote_deletes_the_rest() {
    let l = vec![local("@", &[A])];
    let r = vec![remote("@", &[(1, A), (2, B), (3, C)])];
    let plan = reconcile(&l, &r, 600, false);
    assert_eq!(counts(&plan), (0, 0, 2));
    assert!(plan.outcome.is_empty());
    let forced = reconcile(&l, &r, 600, true);
    assert_eq!(counts(&forced), (0, 1, 2));
    assert_eq!(outcome_addrs(&forced), vec![A]);
}

#[test]
fn surplus_remote_reuses_for_new_address() {
    let l = vec![local("@", &[A, D])];
    let r = vec![remote("@", &[(1, A), (2, B), (3, C)])];
    let plan = reconcile(&l, &r, 600, false);
    assert_eq!(counts(&plan), (0, 1, 1));
    assert!(matches!(plan.actions[0], Action::Update { record: 2, addr, .. } if addr == D));
    assert!(matches!(plan.actions[1], Action::Delete { record: 3, .. }));
    assert_eq!(outcome_addrs(&plan), vec![D]);
}

#[test]
fn surplus_local_creates_one() {
    let l = vec![local("@", &[A, B])];
    let r = vec![remote("@", &[(1, A)])];
    let plan = reconcile(&l, &r, 600, false);
    assert_eq!(counts(&plan), (1, 0, 0));
    assert!(matches!(&plan.actions[0], Action::Create { addr, ttl: 600, .. } if *addr == B));
    assert_eq!(outcome_addrs(&plan), vec![B]);
}

#[test]
fn force_reaffirms_common_address() {
    let l = vec![local("@", &[A])];
    let r = vec![remote("@", &[(7, A)])];
    let forced = reconcile(&l, &r, 600, true);
    assert_eq!(counts(&forced), (0, 1, 0));
    assert!(matches!(forced.actions[0], Action::Update { record: 7, addr, .. } if addr == A));
    assert_eq!(outcome_addrs(&forced), vec![A]);
    let plain = reconcile(&l, &r, 600, false);
    assert!(plain.actions.is_empty());
    assert!(plain.outcome.is_empty());
}

#[test]
fn duplicate_remote_address_is_left_alone() {
    let l = vec![local("@", &[A])];
    let r = vec![remote("@", &[(1, A), (2, A)])];
    let plan = reconcile(&l, &r, 600, false);
    assert!(plan.actions.is_empty());
    let forced = reconcile(&l, &r, 600, true);
    assert_eq!(counts(&forced), (0, 1, 0));
    assert!(matches!(forced.actions[0], Action::Update { record: 1, .. }));
}

#[test]
fn duplicate_remote_address_rotates_with_one_update() {
    let l = vec![local("@", &[C])];
    let r = vec![remote("@", &[(1, A), (2, A)])];
    let plan = reconcile(&l, &r, 600, false);
    assert_eq!(counts(&plan), (0, 1, 0));
    assert!(matches!(plan.actions[0], Action::Update { record: 1, addr, .. } if addr == C));
    assert_eq!(outcome_addrs(&plan), vec![C]);
}

#[test]
fn duplicate_local_address_is_idempotent() {
    let l = vec![local("www", &[A, A])];
    let mut r: Vec<RemoteGroup> = vec![];
    let first = reconcile(&l, &r, 600, false);
    assert_eq!(counts(&first), (2, 0, 0));
    apply(&mut r, &first, 10);
    assert_eq!(r[0].records.len(), 2);
    let second = reconcile(&l, &r, 600, false);
    assert!(second.actions.is_empty());
    assert!(second.outcome.is_empty());
}

#[test]
fn empty_local_is_no_op() {
    let plan = reconcile(&vec![], &vec![remote("@", &[(1, A)])], 600, true);
    assert!(plan.actions.is_empty());
    assert!(plan.outcome.is_empty());
}

#[test]
fn outcome_carries_prefix() {
    let l = vec![local("a.b", &[B])];
    let r = vec![remote("a.b", &[(4, A)])];
    let plan = reconcile(&l, &r, 60, false);
    assert_eq!(plan.outcome, vec![("a.b".to_string(), B)]);
}

#[test]
fn several_prefixes_each_by_its_rule() {
    let l = vec![local("@", &[C, D]), local("www", &[A, B]), local("api", &[A])];
    let r = vec![remote("@", &[(1, A), (2, B)]), remote("api", &[(3, A), (4, B), (5, C)])];
    let plan = reconcile(&l, &r, 600, false);
    assert_eq!(counts(&plan), (2, 2, 2));
    assert_eq!(
        plan.outcome,
        vec![("@".to_string(), C), ("@".to_string(), D), ("www".to_string(), A), ("www".to_string(), B)]
    );
}
