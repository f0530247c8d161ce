use cantaloop::entity_id::{EntityId, EntityIdGenerator};

#[test]
fn test_id_ranges() {
    let user_id = EntityId::new(42);
    assert!(user_id.is_user_defined());
    assert!(!user_id.is_native_function());

    let native_func = EntityId::new(10500);
    assert!(native_func.is_native_function());
    assert!(!native_func.is_user_defined());

    let native_type = EntityId::new(20001);
    assert!(native_type.is_native_type_or_module());

    let synthetic = EntityId::new(100042);
    assert!(synthetic.is_synthetic());
}

#[test]
fn test_generator() {
    let mut gen = EntityIdGenerator::new();

    let id1 = gen.next_user();
    let id2 = gen.next_user();
    assert_eq!(id1.as_u32(), 0);
    assert_eq!(id2.as_u32(), 1);

    let native1 = gen.next_native_func();
    assert_eq!(native1.as_u32(), 10000);

    let type1 = gen.next_native_type();
    assert_eq!(type1.as_u32(), 20000);

    let synth1 = gen.next_synthetic();
    assert_eq!(synth1.as_u32(), 100000);
}

#[test]
fn range_boundaries() {
    assert!(EntityId::new(0).is_user_defined());
    assert!(EntityId::new(9999).is_user_defined());
    assert!(EntityId::new(10000).is_native_function());
    assert!(EntityId::new(19999).is_native_function());
    assert!(EntityId::new(20000).is_native_type_or_module());
    assert!(EntityId::new(29999).is_native_type_or_module());
    // the reserved range belongs to no kind
    let reserved = EntityId::new(50000);
    assert!(!reserved.is_user_defined());
    assert!(!reserved.is_native_function());
    assert!(!reserved.is_native_type_or_module());
    assert!(!reserved.is_synthetic());
    assert!(EntityId::new(100000).is_synthetic());
    assert!(!EntityId::new(99999).is_synthetic());
}

#[test]
fn generator_counters_are_independent() {
    let mut gen = EntityIdGenerator::new();
    assert_eq!(gen.next_native_func().as_u32(), 10000);
    assert_eq!(gen.next_native_func().as_u32(), 10001);
    assert_eq!(gen.next_user().as_u32(), 0);
    assert_eq!(gen.next_native_type().as_u32(), 20000);
    assert_eq!(gen.next_native_func().as_u32(), 10002);
    assert_eq!(gen.next_synthetic().as_u32(), 100000);
    assert_eq!(gen.next_synthetic().as_u32(), 100001);
}

#[test]
fn allocate_specific_moves_only_its_counter() {
    let mut gen = EntityIdGenerator::new();
    let id = gen.allocate_specific(EntityId::new(42));
    assert_eq!(id, EntityId::new(42));
    assert_eq!(gen.next_user().as_u32(), 43);
    assert_eq!(gen.next_native_func().as_u32(), 10000);
    gen.allocate_specific(EntityId::new(10500));
    assert_eq!(gen.next_native_func().as_u32(), 10501);
    gen.allocate_specific(EntityId::new(25000));
    assert_eq!(gen.next_native_type().as_u32(), 25001);
    gen.allocate_specific(EntityId::new(200000));
    assert_eq!(gen.next_synthetic().as_u32(), 200001);
}

#[test]
fn reset_restarts_every_range() {
    let mut gen = EntityIdGenerator::new();
    gen.next_user();
    gen.next_native_func();
    gen.next_native_type();
    gen.next_synthetic();
    gen.reset();
    assert_eq!(gen.next_user().as_u32(), 0);
    assert_eq!(gen.next_native_func().as_u32(), 10000);
    assert_eq!(gen.next_native_type().as_u32(), 20000);
    assert_eq!(gen.next_synthetic().as_u32(), 100000);
    let d = EntityIdGenerator::default();
    let mut d2 = d;
    assert_eq!(d2.next_user().as_u32(), 0);
}

#[test]
fn skipped_ids_can_still_be_allocated() {
    let mut gen = EntityIdGenerator::new();
    assert_eq!(gen.allocate_specific(EntityId::new(5)), EntityId::new(5));
    // 0..=4 were skipped, never handed out
    assert_eq!(gen.allocate_specific(EntityId::new(3)), EntityId::new(3));
    assert_eq!(gen.allocate_specific(EntityId::new(0)), EntityId::new(0));
    assert_eq!(gen.allocate_specific(EntityId::new(4)), EntityId::new(4));
    // the counter is not moved back
    assert_eq!(gen.next_user().as_u32(), 6);
    gen.allocate_specific(EntityId::new(10003));
    assert_eq!(gen.allocate_specific(EntityId::new(10001)), EntityId::new(10001));
    assert_eq!(gen.next_native_func().as_u32(), 10004);
}

#[test]
fn an_id_above_every_issued_one_moves_only_its_range_counter() {
    let mut gen = EntityIdGenerator::new();
    assert_eq!(gen.next_user().as_u32(), 0);
    assert_eq!(gen.allocate_specific(EntityId::new(7)), EntityId::new(7));
    assert_eq!(gen.next_user().as_u32(), 8);
    assert_eq!(gen.allocate_specific(EntityId::new(3)), EntityId::new(3));
    assert_eq!(gen.next_user().as_u32(), 9);
    assert_eq!(gen.next_native_func().as_u32(), 10000);
    assert_eq!(gen.next_synthetic().as_u32(), 100000);
}
