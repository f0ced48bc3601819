use ecs_sim::component::ECS;

#[test]
fn index_addressed_store_reads_back_writes() {
    let mut s = ECS::<u32>::with_capacity(4).unwrap();
    assert_eq!(s.reg::<u8>(), Some(()));
    assert_eq!(s.reg::<u16>(), Some(()));
    s.modify::<u16, _>(2, |_| Some(8));
    assert_eq!(s.get::<u16>(2), Some(&8));
    assert_eq!(s.get::<u8>(2), None);
    assert_eq!(s.get::<u16>(1), None);
    assert_eq!(s.get::<u16>(9), None);
    s.modify::<u16, _>(2, |c| c.map(|v| v * 2));
    assert_eq!(s.get::<u16>(2), Some(&16));
    s.modify::<u16, _>(2, |_| None);
    assert_eq!(s.get::<u16>(2), None);
}

#[test]
fn index_addressed_registration_keeps_the_slot_of_a_known_kind() {
    let mut s = ECS::<u32>::with_capacity(1).unwrap();
    assert_eq!(s.reg::<u8>(), Some(()));
    s.modify::<u8, _>(0, |_| Some(1));
    assert_eq!(s.reg::<u8>(), Some(()));
    assert_eq!(s.get::<u8>(0), Some(&1));
}

#[test]
fn index_addressed_modify_of_unknown_kind_does_nothing() {
    let mut s = ECS::<u32>::with_capacity(1).unwrap();
    s.modify::<u8, _>(0, |_| Some(1));
    assert_eq!(s.get::<u8>(0), None);
    s.reg::<u8>().unwrap();
    assert_eq!(s.get::<u8>(0), None);
}
