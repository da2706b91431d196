use flock_lab::{dart_indices, next_power_of_two, InstanceSlots, DART_INDEX_COUNT, DART_VERTEX_COUNT};

#[test]
fn dart_indices_name_existing_vertices() {
    let indices = dart_indices();
    assert_eq!(indices.len(), DART_INDEX_COUNT);
    assert_eq!(
        indices,
        [0, 1, 3, 0, 3, 2, 0, 4, 1, 0, 2, 4, 1, 5, 3, 2, 3, 6, 1, 4, 5, 2, 6, 4]
    );
    assert!(indices.iter().all(|&i| (i as usize) < DART_VERTEX_COUNT));
}

#[test]
fn next_power_of_two_values() {
    assert_eq!(next_power_of_two(0), 1);
    assert_eq!(next_power_of_two(1), 1);
    assert_eq!(next_power_of_two(2), 2);
    assert_eq!(next_power_of_two(5), 8);
    assert_eq!(next_power_of_two(8), 8);
    assert_eq!(next_power_of_two(3_513), 4_096);
    assert_eq!(next_power_of_two(usize::MAX / 2 + 1), usize::MAX / 2 + 1);
}

#[test]
fn instance_capacity_grows_to_powers_of_two_and_never_shrinks() {
    let mut slots = InstanceSlots::new();
    assert_eq!(slots.capacity(), 1);
    assert_eq!(slots.count(), 0);
    assert!(!slots.should_draw());

    let plan = slots.plan_upload(3_512);
    assert!(plan.reallocate && plan.write);
    assert_eq!(slots.capacity(), 4_096);
    assert_eq!(slots.count(), 3_512);
    assert!(slots.should_draw());

    let plan = slots.plan_upload(100);
    assert!(!plan.reallocate && plan.write);
    assert_eq!(slots.capacity(), 4_096);
    assert_eq!(slots.count(), 100);

    let plan = slots.plan_upload(0);
    assert!(!plan.reallocate && !plan.write);
    assert_eq!(slots.capacity(), 4_096);
    assert!(!slots.should_draw());
}
