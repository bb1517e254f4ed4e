use leafish::types::bit::BitSet;
use leafish::types::nibble::Array;
use leafish::types::GameMode;

#[test]
fn game_mode_from_int() {
    assert_eq!(GameMode::from_int(-1), GameMode::NotSet);
    assert_eq!(GameMode::from_int(0), GameMode::Survival);
    assert_eq!(GameMode::from_int(1), GameMode::Creative);
    assert_eq!(GameMode::from_int(2), GameMode::Adventure);
    assert_eq!(GameMode::from_int(3), GameMode::Spectator);
    assert_eq!(GameMode::from_int(99), GameMode::Adventure);
    assert_eq!(GameMode::from_int(-2), GameMode::Adventure);
    assert_eq!(GameMode::from_int(i32::MIN), GameMode::Adventure);
}

#[test]
fn game_mode_capabilities() {
    assert!(GameMode::Spectator.can_fly());
    assert!(GameMode::Creative.can_fly());
    assert!(!GameMode::Survival.can_fly());
    assert!(!GameMode::Adventure.can_fly());
    assert!(!GameMode::NotSet.can_fly());
    assert!(GameMode::Spectator.always_fly());
    assert!(!GameMode::Creative.always_fly());
    assert!(GameMode::Spectator.noclip());
    assert!(!GameMode::Creative.noclip());
    assert!(!GameMode::Adventure.can_interact_with_world());
    assert!(!GameMode::Spectator.can_interact_with_world());
    assert!(GameMode::Creative.can_interact_with_world());
    assert!(GameMode::Survival.can_interact_with_world());
    assert!(GameMode::NotSet.can_interact_with_world());
}

#[test]
fn nibble_array_sizes() {
    assert_eq!(Array::new(0).data.len(), 0);
    assert_eq!(Array::new(1).data.len(), 1);
    assert_eq!(Array::new(2).data.len(), 1);
    assert_eq!(Array::new(5).data, vec![0, 0, 0]);
    assert_eq!(Array::new_def(4, 0xA7).data, vec![0x77, 0x77]);
    assert_eq!(Array::new_def(3, 0x0F).data, vec![0xFF, 0xFF]);
}

#[test]
fn nibble_set_then_get() {
    for idx in 0..16 {
        for val in 0..16u8 {
            let mut array = Array::new_def(16, 0x5);
            array.set(idx, val);
            for other in 0..16 {
                if other == idx {
                    assert_eq!(array.get(other), val & 0xF);
                } else {
                    assert_eq!(array.get(other), 0x5);
                }
            }
        }
    }
}

#[test]
fn nibble_set_masks_and_packs_low_nibble_first() {
    let mut array = Array::new(4);
    array.set(0, 0xAB);
    assert_eq!(array.data, vec![0x0B, 0x00]);
    array.set(1, 0xCD);
    assert_eq!(array.data, vec![0xDB, 0x00]);
    array.set(3, 0x01);
    assert_eq!(array.data, vec![0xDB, 0x10]);
    assert_eq!(array.get(0), 0xB);
    assert_eq!(array.get(1), 0xD);
    assert_eq!(array.get(2), 0x0);
    assert_eq!(array.get(3), 0x1);
    array.set(1, 0);
    assert_eq!(array.data, vec![0x0B, 0x10]);
}

#[test]
fn bit_set_and_clear() {
    let mut set = BitSet::new(130);
    assert_eq!(set.capacity(), 192);
    for i in [0, 63, 64, 129, 191] {
        assert!(!set.get(i));
        set.set(i, true);
        assert!(set.get(i));
    }
    set.set(64, false);
    assert!(!set.get(64));
    assert!(set.get(63));
    assert!(set.get(129));
    assert!(!set.get(65));
}

#[test]
fn bit_or_then_includes() {
    let mut a = BitSet::new(128);
    let mut b = BitSet::new(128);
    a.set(1, true);
    a.set(70, true);
    b.set(2, true);
    b.set(127, true);
    assert!(!a.includes_set(&b));
    assert!(a.includes_set(&BitSet::new(128)));
    a.or(&b);
    assert!(a.includes_set(&b));
    for i in 0..128 {
        assert_eq!(a.get(i), i == 1 || i == 2 || i == 70 || i == 127);
    }
    assert!(!b.includes_set(&a));
}

#[test]
fn bit_operations_stop_at_the_shorter_set() {
    let mut short = BitSet::new(64);
    let mut long = BitSet::new(128);
    long.set(100, true);
    assert!(short.includes_set(&long));
    short.or(&long);
    assert_eq!(short.capacity(), 64);
    for i in 0..64 {
        assert!(!short.get(i));
    }
    long.set(5, true);
    assert!(!short.includes_set(&long));
    short.or(&long);
    assert!(short.get(5));
    assert!(short.includes_set(&long));
    long.or(&short);
    assert!(long.get(100));
}

#[test]
fn bit_resize_is_by_words() {
    let mut set = BitSet::new(64);
    set.set(10, true);
    set.set(63, true);
    set.resize(100);
    assert_eq!(set.capacity(), 128);
    assert!(set.get(10));
    assert!(set.get(63));
    for i in 64..128 {
        assert!(!set.get(i));
    }
    set.set(127, true);
    set.resize(65);
    assert_eq!(set.capacity(), 128);
    assert!(set.get(127));
    set.resize(64);
    assert_eq!(set.capacity(), 64);
    assert!(set.get(10));
    set.resize(128);
    assert!(!set.get(127));
    set.resize(0);
    assert_eq!(set.capacity(), 0);
    let copy = set.clone();
    assert_eq!(copy.capacity(), 0);
}
