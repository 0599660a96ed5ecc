use mappers::RangeIteratorAdapter;

#[test]
fn ranges_pair_each_offset_with_its_successor() {
    let offsets = [0usize, 2, 2, 5];
    let mut it = RangeIteratorAdapter::new(&offsets);
    assert_eq!(it.next(), Some(0..2));
    assert_eq!(it.next(), Some(2..2));
    assert_eq!(it.next(), Some(2..5));
    assert_eq!(it.next(), None);
    assert_eq!(it.next(), None);
}

#[test]
fn short_tables_yield_no_ranges() {
    let empty: [usize; 0] = [];
    let mut it = RangeIteratorAdapter::new(&empty);
    assert_eq!(it.next(), None);
    let single = [7usize];
    let mut it = RangeIteratorAdapter::new(&single);
    assert_eq!(it.next(), None);
}

#[test]
fn feature_index_ranges_follow_the_offset_table() {
    let points = [
        mappers::Point { x: 0, y: 0 },
        mappers::Point { x: 1, y: 1 },
        mappers::Point { x: 2, y: 2 },
    ];
    let c = mappers::FeatureCollection::new(&points, None).unwrap();
    let mut it = c.feature_indizes_iter();
    assert_eq!(it.next(), Some(0..1));
    assert_eq!(it.next(), Some(1..2));
    assert_eq!(it.next(), Some(2..3));
    assert_eq!(it.next(), None);
}
