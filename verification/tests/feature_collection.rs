use mappers::FeatureCollection;
use mappers::Geometry;
use mappers::MultiPoint;
use mappers::Point;
use mappers::TimeInterval;

fn pt(x: f64, y: f64) -> Point {
    Point { x: x.to_bits(), y: y.to_bits() }
}

fn three_point_collection() -> FeatureCollection {
    let points = [pt(0.0, 0.0), pt(1.0, 1.0), pt(2.0, 2.0)];
    FeatureCollection::new(&points, None).unwrap()
}

#[test]
fn it_works() {
}

#[test]
fn point_collection_feature_count_equals_point_count() {
    let c = three_point_collection();
    assert_eq!(c.get_feature_count(), 3);
    let empty = FeatureCollection::new(&[], None).unwrap();
    assert_eq!(empty.get_feature_count(), 0);
}

#[test]
fn scenario_a_geometry_at_index_one() {
    let c = three_point_collection();
    assert_eq!(c.get_feature_count(), 3);
    assert_eq!(c.get_geom(1), Some(Geometry::Point(pt(1.0, 1.0))));
    assert_eq!(c.get_geom(3), None);
}

#[test]
fn round_trip_geometry_iter_yields_input_points_in_order() {
    let points = [pt(0.5, -1.0), pt(7.25, 3.5), pt(-2.0, 0.0), pt(9.0, 9.0)];
    let c = FeatureCollection::new(&points, None).unwrap();
    let mut it = c.geom_iter();
    let mut seen = Vec::new();
    while let Some(g) = it.next() {
        match g {
            Geometry::Point(p) => seen.push(p),
            Geometry::MultiPoint(_) => panic!("a point collection yielded a multi-point"),
        }
    }
    assert_eq!(seen, points.to_vec());
}

#[test]
fn scenario_b_filter_retains_flagged_features_in_order() {
    let mut c = three_point_collection();
    c.filter_inplace(&[true, false, true]);
    assert_eq!(c.get_feature_count(), 2);
    assert_eq!(c.get_geom(0), Some(Geometry::Point(pt(0.0, 0.0))));
    assert_eq!(c.get_geom(1), Some(Geometry::Point(pt(2.0, 2.0))));
    assert_eq!(c.get_geom(2), None);
    let mut it = c.geom_iter();
    assert_eq!(it.next(), Some(Geometry::Point(pt(0.0, 0.0))));
    assert_eq!(it.next(), Some(Geometry::Point(pt(2.0, 2.0))));
    assert_eq!(it.next(), None);
}

#[test]
fn filter_all_true_changes_nothing() {
    let times = [
        TimeInterval::new(Some(10), Some(20)),
        TimeInterval::new(None, Some(5)),
        TimeInterval::new(Some(-3), None),
    ];
    let points = [pt(0.0, 0.0), pt(1.0, 1.0), pt(2.0, 2.0)];
    let mut c = FeatureCollection::new(&points, Some(&times)).unwrap();
    c.set_text("name".to_string(), vec!["a".to_string(), "b".to_string(), "c".to_string()])
        .unwrap();
    c.set_numeric("value".to_string(), vec![1.5f64.to_bits(), 2.5f64.to_bits(), 3.5f64.to_bits()])
        .unwrap();
    c.filter_inplace(&[true, true, true]);
    assert_eq!(c.get_feature_count(), 3);
    for i in 0..3 {
        assert_eq!(c.get_geom(i), Some(Geometry::Point(points[i])));
        assert_eq!(c.get_time(i), Some(&times[i]));
    }
    assert_eq!(c.get_text(0, "name"), Some("a"));
    assert_eq!(c.get_text(1, "name"), Some("b"));
    assert_eq!(c.get_text(2, "name"), Some("c"));
    assert_eq!(c.get_numeric(1, "value"), Some(&2.5f64.to_bits()));
}

#[test]
fn filter_keeps_columns_aligned_to_pre_filter_values() {
    let times = [
        TimeInterval::new(Some(1), Some(2)),
        TimeInterval::new(Some(3), Some(4)),
        TimeInterval::new(Some(5), Some(6)),
    ];
    let points = [pt(0.0, 0.0), pt(1.0, 1.0), pt(2.0, 2.0)];
    let mut c = FeatureCollection::new(&points, Some(&times)).unwrap();
    c.set_text("name".to_string(), vec!["a".to_string(), "b".to_string(), "c".to_string()])
        .unwrap();
    c.set_numeric("value".to_string(), vec![1.5f64.to_bits(), 2.5f64.to_bits(), 3.5f64.to_bits()])
        .unwrap();
    c.filter_inplace(&[true, false, true]);
    assert_eq!(c.get_feature_count(), 2);
    assert_eq!(c.get_text(0, "name"), Some("a"));
    assert_eq!(c.get_text(1, "name"), Some("c"));
    assert_eq!(c.get_text(2, "name"), None);
    assert_eq!(c.get_numeric(0, "value"), Some(&1.5f64.to_bits()));
    assert_eq!(c.get_numeric(1, "value"), Some(&3.5f64.to_bits()));
    assert_eq!(c.get_time(0), Some(&TimeInterval::new(Some(1), Some(2))));
    assert_eq!(c.get_time(1), Some(&TimeInterval::new(Some(5), Some(6))));
    assert_eq!(c.get_time(2), None);
    assert!(c.has_time());
}

#[test]
fn filter_none_kept_leaves_an_empty_collection() {
    let mut c = three_point_collection();
    c.filter_inplace(&[false, false, false]);
    assert_eq!(c.get_feature_count(), 0);
    assert_eq!(c.get_geom(0), None);
    let mut it = c.geom_iter();
    assert_eq!(it.next(), None);
}

#[test]
fn scenario_c_time_length_mismatch_rejected() {
    let points = [pt(0.0, 0.0), pt(1.0, 1.0), pt(2.0, 2.0)];
    let times = [TimeInterval::new(None, None), TimeInterval::new(Some(1), Some(2))];
    let r = FeatureCollection::new(&points, Some(&times));
    assert!(r.is_err());
}

#[test]
fn matching_time_column_is_accepted() {
    let points = [pt(0.0, 0.0), pt(1.0, 1.0)];
    let times = [TimeInterval::new(Some(0), Some(1)), TimeInterval::new(Some(2), None)];
    let c = FeatureCollection::new(&points, Some(&times)).unwrap();
    assert!(c.has_time());
    assert_eq!(c.get_time(0).unwrap().start(), &Some(0));
    assert_eq!(c.get_time(0).unwrap().end(), &Some(1));
    assert_eq!(c.get_time(1).unwrap().end(), &None);
    assert_eq!(c.get_time(2), None);
}

#[test]
fn collection_without_time_has_none() {
    let c = three_point_collection();
    assert!(!c.has_time());
    assert_eq!(c.get_time(0), None);
}

#[test]
fn set_time_replaces_one_interval() {
    let points = [pt(0.0, 0.0), pt(1.0, 1.0)];
    let times = [TimeInterval::new(None, None), TimeInterval::new(None, None)];
    let mut c = FeatureCollection::new(&points, Some(&times)).unwrap();
    assert_eq!(c.set_time(1, TimeInterval::new(Some(7), Some(8))), Ok(()));
    assert_eq!(c.get_time(1), Some(&TimeInterval::new(Some(7), Some(8))));
    assert_eq!(c.get_time(0), Some(&TimeInterval::new(None, None)));
    assert_eq!(c.set_time(2, TimeInterval::new(None, None)), Err(()));
}

#[test]
fn scenario_d_empty_multi_point_feature() {
    let points = [pt(0.0, 0.0), pt(1.0, 1.0), pt(2.0, 2.0), pt(3.0, 3.0), pt(4.0, 4.0)];
    let offsets = [0usize, 2, 2, 5];
    let c = FeatureCollection::new_multi_point(&points, &offsets, None).unwrap();
    assert_eq!(c.get_feature_count(), 3);
    assert_eq!(c.get_geom(1), Some(Geometry::MultiPoint(MultiPoint(Vec::new()))));
    assert_eq!(
        c.get_geom(0),
        Some(Geometry::MultiPoint(MultiPoint(vec![pt(0.0, 0.0), pt(1.0, 1.0)])))
    );
    assert_eq!(
        c.get_geom(2),
        Some(Geometry::MultiPoint(MultiPoint(vec![pt(2.0, 2.0), pt(3.0, 3.0), pt(4.0, 4.0)])))
    );
    assert_eq!(c.get_geom(3), None);
}

#[test]
fn multi_point_filter_rebuilds_offsets_and_points() {
    let points = [pt(0.0, 0.0), pt(1.0, 1.0), pt(2.0, 2.0), pt(3.0, 3.0), pt(4.0, 4.0)];
    let offsets = [0usize, 2, 2, 5];
    let mut c = FeatureCollection::new_multi_point(&points, &offsets, None).unwrap();
    c.filter_inplace(&[true, false, true]);
    assert_eq!(c.get_feature_count(), 2);
    assert_eq!(
        c.get_geom(0),
        Some(Geometry::MultiPoint(MultiPoint(vec![pt(0.0, 0.0), pt(1.0, 1.0)])))
    );
    assert_eq!(
        c.get_geom(1),
        Some(Geometry::MultiPoint(MultiPoint(vec![pt(2.0, 2.0), pt(3.0, 3.0), pt(4.0, 4.0)])))
    );
    assert_eq!(c.get_geom(2), None);
}

#[test]
fn invalid_offset_tables_are_rejected() {
    let points = [pt(0.0, 0.0), pt(1.0, 1.0)];
    assert!(FeatureCollection::new_multi_point(&points, &[], None).is_err());
    assert!(FeatureCollection::new_multi_point(&points, &[1, 2], None).is_err());
    assert!(FeatureCollection::new_multi_point(&points, &[0, 2, 1], None).is_err());
    assert!(FeatureCollection::new_multi_point(&points, &[0, 1], None).is_err());
    assert!(FeatureCollection::new_multi_point(&points, &[0, 1, 2], None).is_ok());
}

#[test]
fn multi_point_time_length_checked_against_feature_count() {
    let points = [pt(0.0, 0.0), pt(1.0, 1.0)];
    let offsets = [0usize, 1, 2];
    let times = [TimeInterval::new(None, None)];
    assert!(FeatureCollection::new_multi_point(&points, &offsets, Some(&times)).is_err());
    let times2 = [TimeInterval::new(None, None), TimeInterval::new(None, None)];
    assert!(FeatureCollection::new_multi_point(&points, &offsets, Some(&times2)).is_ok());
}

#[test]
fn scenario_e_missing_numeric_key_returns_nothing() {
    let mut c = three_point_collection();
    c.set_numeric("present".to_string(), vec![1.0f64.to_bits(), 2.0f64.to_bits(), 3.0f64.to_bits()])
        .unwrap();
    for i in 0..3 {
        assert_eq!(c.get_numeric(i, "missing_key"), None);
    }
    assert_eq!(c.get_numeric(0, "present"), Some(&1.0f64.to_bits()));
}

#[test]
fn attribute_columns_degrade_independently() {
    let mut c = three_point_collection();
    c.set_text("name".to_string(), vec!["x".to_string(), "y".to_string(), "z".to_string()])
        .unwrap();
    assert_eq!(c.get_text(1, "name"), Some("y"));
    assert_eq!(c.get_text(1, "other"), None);
    assert_eq!(c.get_text(3, "name"), None);
    assert_eq!(c.get_numeric(1, "name"), None);
}

#[test]
fn column_of_wrong_length_is_rejected() {
    let mut c = three_point_collection();
    assert_eq!(c.set_text("name".to_string(), vec!["x".to_string()]), Err(()));
    assert_eq!(c.get_text(0, "name"), None);
    assert_eq!(c.set_numeric("value".to_string(), vec![0u64; 4]), Err(()));
    assert_eq!(c.get_numeric(0, "value"), None);
}

#[test]
fn setting_a_column_twice_replaces_it() {
    let mut c = three_point_collection();
    c.set_text("name".to_string(), vec!["x".to_string(), "y".to_string(), "z".to_string()])
        .unwrap();
    c.set_text("name".to_string(), vec!["u".to_string(), "v".to_string(), "w".to_string()])
        .unwrap();
    assert_eq!(c.get_text(0, "name"), Some("u"));
    assert_eq!(c.get_text(2, "name"), Some("w"));
}

#[test]
fn global_attributes_are_stored_and_found_by_key() {
    let mut c = three_point_collection();
    assert_eq!(c.get_global_text("layer"), None);
    c.set_global_text("layer".to_string(), "roads".to_string());
    c.set_global_numeric("scale".to_string(), 0.25f64.to_bits());
    assert_eq!(c.get_global_text("layer"), Some("roads"));
    assert_eq!(c.get_global_text("scale"), None);
    assert_eq!(c.get_global_numeric("scale"), Some(&0.25f64.to_bits()));
    assert_eq!(c.get_global_numeric("layer"), None);
    c.set_global_text("layer".to_string(), "rivers".to_string());
    assert_eq!(c.get_global_text("layer"), Some("rivers"));
}

#[test]
fn time_interval_accessors_return_the_bounds() {
    let t = TimeInterval::new(Some(-100), None);
    assert_eq!(t.start(), &Some(-100));
    assert_eq!(t.end(), &None);
}
