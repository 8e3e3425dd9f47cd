use v7dump::tee::Tee;

#[test]
fn tee_keeps_order_of_destinations() {
    let mut t: Tee<u32> = Tee::new();
    assert!(t.writers.is_empty());
    t.push(3);
    t.push(1);
    assert_eq!(t.writers, vec![3, 1]);
}

use v7dump::remove::{is_yes, plan_removal, RemovePlan};

#[test]
fn removal_plans() {
    assert_eq!(plan_removal(".", true, false, false, true, false), RemovePlan::RefuseDotEntry);
    assert_eq!(plan_removal("..", true, false, true, true, false), RemovePlan::RefuseDotEntry);
    assert_eq!(plan_removal("d", true, false, false, false, false), RemovePlan::RefuseDirectory);
    assert_eq!(plan_removal("d", true, false, false, true, false), RemovePlan::Remove);
    assert_eq!(plan_removal("f", false, true, false, false, false), RemovePlan::Confirm);
    assert_eq!(plan_removal("f", false, true, true, false, false), RemovePlan::Remove);
    assert_eq!(plan_removal("f", false, false, true, false, true), RemovePlan::Confirm);
    assert_eq!(plan_removal("...", false, false, false, false, false), RemovePlan::Remove);
}

#[test]
fn confirmation_answers() {
    assert!(is_yes("y\n"));
    assert!(is_yes("yes"));
    assert!(!is_yes("n\n"));
    assert!(!is_yes(""));
    assert!(!is_yes("Y"));
}
