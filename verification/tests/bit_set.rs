use leafish::types::bit::BitSet;

#[test]
fn test_set() {
    let mut set = BitSet::new(200);
    for i in 0..200 {
        if i % 3 == 0 {
            set.set(i, true)
        }
    }
    for i in 0..200 {
        if set.get(i) != (i % 3 == 0) {
            panic!("Fail")
        }
    }
}

#[test]
fn capacity_rounds_up_to_whole_words() {
    assert_eq!(BitSet::new(0).capacity(), 0);
    assert_eq!(BitSet::new(1).capacity(), 64);
    assert_eq!(BitSet::new(64).capacity(), 64);
    assert_eq!(BitSet::new(65).capacity(), 128);
    assert_eq!(BitSet::new(200).capacity(), 256);
}
