use flock_lab::CountSettings;

#[test]
fn count_validation_clamps_unsafe_values() {
    let settings = CountSettings {
        agent_count: 0,
        trail_length: 9_999,
        ..CountSettings::default()
    }
    .validated();
    assert_eq!(settings.agent_count, 1);
    assert_eq!(settings.trail_length, 96);
    assert_eq!(settings.predator_count, 2);
    assert_eq!(settings.obstacle_count, 10);
}

#[test]
fn count_validation_caps_every_count() {
    let settings = CountSettings {
        agent_count: 1_000_000,
        predator_count: 33,
        obstacle_count: 129,
        trail_length: 97,
    }
    .validated();
    assert_eq!(
        settings,
        CountSettings { agent_count: 50_000, predator_count: 32, obstacle_count: 128, trail_length: 96 }
    );
}

#[test]
fn default_counts() {
    let settings = CountSettings::default();
    assert_eq!(
        settings,
        CountSettings { agent_count: 3_500, predator_count: 2, obstacle_count: 10, trail_length: 18 }
    );
    assert_eq!(settings.validated(), settings);
}

#[test]
fn validation_is_idempotent() {
    let raw = CountSettings { agent_count: 0, predator_count: 40, obstacle_count: 5, trail_length: 500 };
    let once = raw.validated();
    assert_eq!(once.validated(), once);
}
