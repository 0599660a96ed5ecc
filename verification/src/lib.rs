//! An in-memory columnar store for collections of geometric features:
//! points or multi-points, each optionally paired with a time interval
//! and with named text and numeric attribute columns.

pub mod feature_collection;
pub mod iterators;
pub mod mask;

pub use feature_collection::Entry;
pub use feature_collection::FeatureCollection;
pub use feature_collection::GeomIter;
pub use feature_collection::Geometry;
pub use feature_collection::GeometryKind;
pub use feature_collection::MultiPoint;
pub use feature_collection::Point;
pub use feature_collection::TimeInterval;
pub use iterators::RangeIteratorAdapter;
