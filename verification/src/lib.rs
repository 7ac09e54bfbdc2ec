//! RPM version handling: EVRs (epoch, version, release) and NEVRAs (name,
//! epoch, version, release, architecture), the RPM order of versions,
//! dependency requirements, and an encoding of an EVR as bytes whose plain
//! byte order is the RPM order.
pub mod ascii;
pub mod compare;
pub mod evr;
pub mod key_laws;
pub mod laws;
pub mod lexical;
pub mod nevra;
pub mod operator;
pub mod package;
pub mod requirement;
pub mod round_trips;
pub mod sort;
pub mod sortkey;
pub mod total_order;
pub mod version_order;

pub use compare::{compare_evr_values, compare_versions, evr_compare};
pub use evr::{parse_epoch, parse_values};
pub use nevra::{compare_nevra_values, nevra_compare, parse_nevra_values};
pub use operator::ReqOperator;
pub use package::{Evr, Nevra};
pub use requirement::Requirement;
pub use sort::{evr_sort, nevra_sort};
pub use sortkey::{version_sortkey, EvrSortKey};
