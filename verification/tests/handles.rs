use minirenderer::{HandleArena, ResourceType};

#[test]
fn fresh_handle_starts_with_one_reference() {
    let mut arena = HandleArena::new();
    let h = arena.new_handle(ResourceType::Mesh);
    assert_eq!(arena.refcount(&h), 1);
    assert!(arena.is_live(&h));
    assert_eq!(*h.get_type(), ResourceType::Mesh);
}

#[test]
fn refcount_balances_clones_and_drops() {
    // After N clones and M < N drops the count is initial + N - M and the
    // allocation is still live.
    let mut arena = HandleArena::new();
    let h = arena.new_handle(ResourceType::Texture);
    let c1 = arena.clone_handle(&h);
    let c2 = arena.clone_handle(&h);
    let c3 = arena.clone_handle(&c1);
    assert_eq!(arena.refcount(&h), 4);
    arena.drop_handle(c2);
    arena.drop_handle(c3);
    assert_eq!(arena.refcount(&h), 2);
    assert!(arena.is_live(&h));
    arena.drop_handle(c1);
    assert_eq!(arena.refcount(&h), 1);
    assert!(arena.is_live(&h));
}

#[test]
fn allocation_freed_exactly_at_zero() {
    let mut arena = HandleArena::new();
    let h = arena.new_handle(ResourceType::Material);
    let c = arena.clone_handle(&h);
    assert!(arena.is_live(&c));
    arena.drop_handle(h);
    assert!(arena.is_live(&c));
    let probe = arena.clone_handle(&c);
    arena.drop_handle(c);
    assert!(arena.is_live(&probe));
    arena.drop_handle(probe);
    // the count reached zero exactly here
}

#[test]
fn clones_share_identity_and_uuid() {
    let mut arena = HandleArena::new();
    let a = arena.new_handle(ResourceType::Shader);
    let b = arena.new_handle(ResourceType::Shader);
    let ac = arena.clone_handle(&a);
    assert!(a == ac);
    assert_eq!(a.get_uuid(), ac.get_uuid());
    assert!(a != b);
}
