use flock_lab::{fill_to_count, resize_agents, seed_trails, spawn_count, update_trails};

#[test]
fn trails_keep_the_newest_positions() {
    let mut trails = vec![vec![1, 2, 3], vec![4], vec![]];
    let heads = vec![10, 20, 30];
    update_trails(&mut trails, &heads, 3);
    assert_eq!(trails, vec![vec![2, 3, 10], vec![4, 20], vec![30]]);
    update_trails(&mut trails, &heads, 2);
    assert_eq!(trails, vec![vec![10, 10], vec![20, 20], vec![30, 30]]);
}

#[test]
fn zero_trail_length_clears_every_trail() {
    let mut trails = vec![vec![1, 2], vec![3], vec![4, 5, 6]];
    update_trails(&mut trails, &vec![7], 0);
    assert_eq!(trails, vec![Vec::<i32>::new(), vec![], vec![]]);
}

#[test]
fn trails_without_an_agent_are_left_alone() {
    let mut trails = vec![vec![1], vec![2, 3]];
    update_trails(&mut trails, &vec![9], 4);
    assert_eq!(trails, vec![vec![1, 9], vec![2, 3]]);
}

#[test]
fn seeded_trails_hold_the_start_positions() {
    assert_eq!(seed_trails(&vec![5, 6, 7]), vec![vec![5], vec![6], vec![7]]);
    assert!(seed_trails::<u8>(&vec![]).is_empty());
}

#[test]
fn spawn_count_is_the_shortfall() {
    assert_eq!(spawn_count(3, 10), 7);
    assert_eq!(spawn_count(10, 3), 0);
    assert_eq!(spawn_count(4, 4), 0);
}

#[test]
fn fill_grows_and_shrinks_to_target() {
    let mut items = vec![1, 2];
    fill_to_count(&mut items, &vec![3, 4, 5], 4);
    assert_eq!(items, vec![1, 2, 3, 4]);
    fill_to_count(&mut items, &vec![], 1);
    assert_eq!(items, vec![1]);
    fill_to_count(&mut items, &vec![], 0);
    assert!(items.is_empty());
}

#[test]
fn resize_keeps_one_trail_per_agent() {
    let mut agents = vec!['a'];
    let mut trails = vec![vec![1, 2]];
    resize_agents(&mut agents, &mut trails, &vec![('b', 10), ('c', 20)], 3);
    assert_eq!(agents, vec!['a', 'b', 'c']);
    assert_eq!(trails, vec![vec![1, 2], vec![10], vec![20]]);
    resize_agents(&mut agents, &mut trails, &vec![], 2);
    assert_eq!(agents, vec!['a', 'b']);
    assert_eq!(trails, vec![vec![1, 2], vec![10]]);
}
