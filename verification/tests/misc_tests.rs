use game_server::args::{Args, DEFAULT_PORT};
use game_server::object::{GameObjectType, GameObjectUpdateResult};

#[test]
fn default_args_port() {
    assert_eq!(Args::default().port, 80);
    assert_eq!(DEFAULT_PORT, 80);
}

#[test]
fn default_object_type() {
    assert_eq!(GameObjectType::default(), GameObjectType::NoType);
}

#[test]
fn update_result_builders() {
    let s: GameObjectUpdateResult<u32> = GameObjectUpdateResult::success();
    assert!(s.success && s.new_objects.is_none());
    let f: GameObjectUpdateResult<u32> = GameObjectUpdateResult::failure();
    assert!(!f.success && f.new_objects.is_none());
    let w = f.with_new_objects(vec![1, 2]);
    assert!(!w.success);
    assert_eq!(w.new_objects, Some(vec![1, 2]));
}
