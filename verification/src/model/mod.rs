pub mod changes;
pub mod generation;
pub mod package;

pub use changes::PackageChanges;
pub use generation::Generation;
pub use package::{PackageChange, PackageChangeType, Size};
