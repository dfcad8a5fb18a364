use yastl::{Joined, Sentinel, WaitGroup, WaitGroups};

#[test]
fn a_new_group_is_done() {
    assert_eq!(WaitGroup::default().join(), Joined::Done);
}

#[test]
fn a_group_blocks_until_the_last_job() {
    let mut group = WaitGroup::default();
    group.submit();
    group.submit();
    assert_eq!(group.join(), Joined::Blocked);
    assert!(!group.complete());
    assert_eq!(group.join(), Joined::Blocked);
    assert!(group.complete());
    assert_eq!(group.join(), Joined::Done);
}

#[test]
fn a_poisoned_group_waits_for_the_other_jobs() {
    let mut group = WaitGroup::default();
    group.submit();
    group.submit();
    assert!(!group.poison());
    assert_eq!(group.join(), Joined::Blocked);
    assert!(group.complete());
    assert_eq!(group.join(), Joined::Poisoned);

    // and stays poisoned
    group.submit();
    assert_eq!(group.join(), Joined::Blocked);
    assert!(group.complete());
    assert_eq!(group.join(), Joined::Poisoned);
}

#[test]
fn the_counter_wraps_around() {
    let mut group = WaitGroup::default();
    assert!(!group.complete());
    assert_eq!(group.join(), Joined::Blocked);
    group.submit();
    assert_eq!(group.join(), Joined::Done);
}

#[test]
fn groups_get_ascending_numbers() {
    let mut groups = WaitGroups::new();
    assert!(!groups.contains(0));
    assert_eq!(groups.open(), 0);
    assert_eq!(groups.open(), 1);
    groups.close(0);
    assert!(!groups.contains(0));
    assert!(groups.contains(1));
    assert_eq!(groups.open(), 2);
}

#[test]
fn a_closed_group_lives_until_its_last_job() {
    let mut groups = WaitGroups::new();
    let id = groups.open();
    groups.submit(id);
    groups.submit(id);
    assert_eq!(groups.pending(id), 2);
    groups.close(id);
    assert!(groups.contains(id));
    assert!(!groups.poison(id));
    assert!(groups.contains(id));
    assert!(groups.complete(id));
    assert!(!groups.contains(id));
}

#[test]
fn a_canceled_sentinel_completes() {
    let mut groups = WaitGroups::new();
    let id = groups.open();
    groups.submit(id);
    let sentinel = Sentinel(Some(id));
    assert!(sentinel.cancel(&mut groups));
    assert_eq!(groups.join(id), Joined::Done);
    assert!(!Sentinel(None).cancel(&mut groups));
    assert_eq!(groups.join(id), Joined::Done);
}

#[test]
fn a_dropped_sentinel_poisons_once() {
    let mut groups = WaitGroups::new();
    let id = groups.open();
    groups.submit(id);
    groups.submit(id);
    let mut sentinel = Sentinel(Some(id));
    assert!(!sentinel.drop(&mut groups));
    assert!(!sentinel.drop(&mut groups));
    assert_eq!(groups.pending(id), 1);
    assert_eq!(groups.join(id), Joined::Blocked);
    assert!(groups.complete(id));
    assert_eq!(groups.join(id), Joined::Poisoned);
}
