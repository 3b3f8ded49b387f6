//! Verified core of a version-control binding library.
//!
//! The centerpiece is the repository-relative path resolver: a pure
//! computation that maps an absolute file path onto a path relative to a
//! repository's working directory. Around it stand the plain data types
//! that repository operations return and the small pieces of decision
//! logic (diff tallying, file matching, blame assembly, error
//! classification) that the unverified binding layer drives.

use vstd::prelude::*;

pub mod blame;
pub mod branch;
pub mod diff;
pub mod model;
pub mod path_laws;
pub mod paths;
pub mod repo;

pub use branch::Branch;
pub use model::BlameLine;
pub use model::Commit;
pub use model::DiffEntry;
pub use paths::ResolveError;
pub use paths::get_repository_relative_path;
pub use paths::resolve;

verus! {

} // verus!
