use quilt_mesh::json::Json;
use quilt_mesh::keys::{decision_window_start, deterministic_idempotency_key};

#[test]
fn the_key_is_the_digest_of_the_parts() {
    let payload = Json::empty_object()
        .with("b", Json::unsigned(1))
        .with("a", Json::unsigned(2));
    assert_eq!(
        deterministic_idempotency_key("t1", "w1", "SetPoolTarget", &payload, 100),
        "a24412ed8a3b6126c5de7623c50dddfff0c4caa908092143b5b0d3ddb03016e4"
    );
    assert_eq!(
        deterministic_idempotency_key(
            "tenant-ä",
            "w",
            "ScaleNodeGroupUp",
            &Json::empty_object(),
            -5
        ),
        "cd1a64553cb835890bddbeab549a06e541ea2cb64dca27ba7d235a5361beaba2"
    );
}

#[test]
fn every_part_of_a_decision_tells() {
    let payload = Json::empty_object().with("a", Json::unsigned(2));
    let other = Json::empty_object().with("a", Json::unsigned(3));
    let key = deterministic_idempotency_key("t", "w", "A", &payload, 5);
    assert_eq!(key.len(), 64);
    assert_ne!(key, deterministic_idempotency_key("u", "w", "A", &payload, 5));
    assert_ne!(key, deterministic_idempotency_key("t", "x", "A", &payload, 5));
    assert_ne!(key, deterministic_idempotency_key("t", "w", "B", &payload, 5));
    assert_ne!(key, deterministic_idempotency_key("t", "w", "A", &other, 5));
    assert_ne!(key, deterministic_idempotency_key("t", "w", "A", &payload, 10));
}

#[test]
fn windows_start_at_multiples() {
    assert_eq!(decision_window_start(1_000_003, 5), 1_000_000);
    assert_eq!(decision_window_start(1_000_000, 5), 1_000_000);
    assert_eq!(decision_window_start(239, 120), 120);
    assert_eq!(decision_window_start(0, 120), 0);
    assert_eq!(decision_window_start(-7, 5), -5);
    assert_eq!(decision_window_start(7, -5), 5);
}

#[test]
fn one_window_has_one_start() {
    for now in 600..720 {
        assert_eq!(decision_window_start(now, 120), 600);
    }
    assert_eq!(decision_window_start(720, 120), 720);
}
