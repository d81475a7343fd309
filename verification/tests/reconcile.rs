use activity_roles::error::GrantError;
use activity_roles::reconcile::{holds, missing_privileges};
use activity_roles::roster::Roster;
use activity_roles::runner::reconcile;

fn sorted(mut roles: Vec<u64>) -> Vec<u64> {
    roles.sort();
    roles
}

fn held_by(roster: &Roster, user_id: u64) -> Option<Vec<u64>> {
    roster.held_privileges(user_id).map(sorted)
}

fn roster_with(user_id: u64, held: &[u64]) -> Roster {
    let mut roster = Roster::new();
    roster.enroll(user_id);
    for role in held {
        roster.grant(user_id, *role).unwrap();
    }
    roster
}

#[test]
fn holds_finds_what_is_there() {
    assert!(holds(&vec![3, 1, 2], 1));
    assert!(holds(&vec![3, 1, 2], 3));
    assert!(!holds(&vec![3, 1, 2], 4));
    assert!(!holds(&Vec::new(), 0));
}

#[test]
fn missing_is_what_was_earned_and_is_not_held() {
    assert_eq!(missing_privileges(&vec![1, 2, 3], &vec![2]), vec![1, 3]);
    assert_eq!(missing_privileges(&vec![1, 2, 3], &Vec::new()), vec![1, 2, 3]);
    assert_eq!(missing_privileges(&vec![1, 2, 3], &vec![3, 2, 1]), Vec::<u64>::new());
    assert_eq!(missing_privileges(&Vec::new(), &vec![1]), Vec::<u64>::new());
}

#[test]
fn missing_ignores_what_is_held_beyond_what_was_earned() {
    assert_eq!(missing_privileges(&vec![1, 2], &vec![9, 2, 8]), vec![1]);
}

#[test]
fn missing_keeps_the_order_of_what_was_earned() {
    assert_eq!(missing_privileges(&vec![5, 1, 4, 2], &vec![1]), vec![5, 4, 2]);
}

#[test]
fn a_new_roster_knows_nobody() {
    let roster = Roster::new();
    assert_eq!(roster.held_privileges(1), None);
}

#[test]
fn a_new_member_holds_nothing() {
    let mut roster = Roster::new();
    roster.enroll(1);
    assert_eq!(roster.held_privileges(1), Some(Vec::new()));
    assert_eq!(roster.held_privileges(2), None);
}

#[test]
fn enrolling_a_member_again_keeps_their_roles() {
    let mut roster = roster_with(1, &[10, 20]);
    roster.enroll(1);
    assert_eq!(roster.held_privileges(1), Some(vec![10, 20]));
}

#[test]
fn held_roles_come_in_the_order_of_their_grants() {
    let roster = roster_with(1, &[30, 10, 20]);
    assert_eq!(roster.held_privileges(1), Some(vec![30, 10, 20]));
}

#[test]
fn a_grant_adds_the_role_once() {
    let mut roster = roster_with(1, &[]);
    assert_eq!(roster.grant(1, 10), Ok(()));
    assert_eq!(roster.held_privileges(1), Some(vec![10]));
    assert_eq!(roster.grant(1, 10), Ok(()));
    assert_eq!(roster.held_privileges(1), Some(vec![10]));
    assert_eq!(roster.grant(1, 20), Ok(()));
    assert_eq!(roster.held_privileges(1), Some(vec![10, 20]));
}

#[test]
fn a_grant_to_a_stranger_is_refused() {
    let mut roster = roster_with(1, &[10]);
    assert_eq!(roster.grant(2, 10), Err(GrantError::UnknownMember));
    assert_eq!(roster.held_privileges(2), None);
    assert_eq!(roster.held_privileges(1), Some(vec![10]));
}

#[test]
fn a_grant_touches_one_member_only() {
    let mut roster = roster_with(1, &[10]);
    roster.enroll(2);
    roster.grant(2, 30).unwrap();
    assert_eq!(roster.held_privileges(1), Some(vec![10]));
    assert_eq!(roster.held_privileges(2), Some(vec![30]));
}

#[test]
fn reconcile_grants_everything_to_a_member_who_holds_nothing() {
    let mut roster = roster_with(1, &[]);
    assert_eq!(reconcile(&mut roster, 1, &vec![10, 20]).map(sorted), Some(vec![10, 20]));
    assert_eq!(held_by(&roster, 1), Some(vec![10, 20]));
}

#[test]
fn reconcile_grants_only_what_is_missing() {
    let mut roster = roster_with(1, &[10]);
    assert_eq!(reconcile(&mut roster, 1, &vec![10, 20]), Some(vec![20]));
    assert_eq!(held_by(&roster, 1), Some(vec![10, 20]));
}

#[test]
fn reconcile_with_nothing_earned_does_nothing() {
    let mut roster = roster_with(1, &[10]);
    assert_eq!(reconcile(&mut roster, 1, &Vec::new()), Some(Vec::new()));
    assert_eq!(roster.held_privileges(1), Some(vec![10]));
}

#[test]
fn reconcile_twice_is_reconcile_once() {
    let mut once = roster_with(1, &[99, 10]);
    reconcile(&mut once, 1, &vec![10, 20, 30]);
    let held_once = held_by(&once, 1);

    let mut twice = roster_with(1, &[99, 10]);
    assert_eq!(reconcile(&mut twice, 1, &vec![10, 20, 30]).map(sorted), Some(vec![20, 30]));
    assert_eq!(reconcile(&mut twice, 1, &vec![10, 20, 30]), Some(Vec::new()));
    assert_eq!(held_by(&twice, 1), held_once);
    assert_eq!(held_once, Some(vec![10, 20, 30, 99]));
}

#[test]
fn reconcile_never_takes_a_role_away() {
    // 77 and 88 were granted by other means and are not earned.
    let mut roster = roster_with(1, &[77, 10, 88]);
    reconcile(&mut roster, 1, &vec![20]);
    assert_eq!(held_by(&roster, 1), Some(vec![10, 20, 77, 88]));
    reconcile(&mut roster, 1, &Vec::new());
    assert_eq!(held_by(&roster, 1), Some(vec![10, 20, 77, 88]));
}

#[test]
fn reconcile_of_a_stranger_does_nothing() {
    let mut roster = roster_with(1, &[10]);
    assert_eq!(reconcile(&mut roster, 2, &vec![10, 20]), None);
    assert_eq!(roster.held_privileges(2), None);
    assert_eq!(roster.held_privileges(1), Some(vec![10]));
}

#[test]
fn reconcile_leaves_the_other_members_alone() {
    let mut roster = roster_with(1, &[10]);
    roster.enroll(2);
    reconcile(&mut roster, 2, &vec![10, 20]);
    assert_eq!(held_by(&roster, 1), Some(vec![10]));
    assert_eq!(held_by(&roster, 2), Some(vec![10, 20]));
}

#[test]
fn reconcile_with_a_role_earned_twice_grants_it_once() {
    let mut roster = roster_with(1, &[]);
    reconcile(&mut roster, 1, &vec![10, 10]);
    assert_eq!(roster.held_privileges(1), Some(vec![10]));
}
