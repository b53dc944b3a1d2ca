use csv_formats::keys::{
    FixedKeysColumnIter, KeysColumnIter, LargeFixedKeysColumnIter, SerializedKeysColumnIter,
};

fn collect<T: Clone, K: KeysColumnIter<T>>(k: &K) -> Vec<T> {
    (0..k.key_count()).map(|i| k.key(i).clone()).collect()
}

#[test]
fn fixed_keys_follow_the_column() {
    let column: Vec<u32> = vec![7, 3, 7, 1];
    let it = FixedKeysColumnIter::create(&column).unwrap();
    assert_eq!(collect(&it), column);
}

#[test]
fn large_fixed_keys_follow_the_holder() {
    let it = LargeFixedKeysColumnIter::create(vec![(1u64, 2u64), (3, 4)]).unwrap();
    assert_eq!(it.key_count(), 2);
    assert_eq!(*it.key(1), (3, 4));
}

#[test]
fn serialized_keys_follow_the_column() {
    let column = vec![b"ab".to_vec(), Vec::new(), b"c".to_vec()];
    let it = SerializedKeysColumnIter::create(&column).unwrap();
    assert_eq!(collect(&it), column);
}
