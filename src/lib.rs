//! Class enrollment over a transactional key-value store: the key layout of
//! the two record families, the enrollment rules as transaction bodies over a
//! snapshot of those records, the class catalog, and the decision logic of a
//! simulated student.

pub mod actor;
pub mod catalog;
pub mod codec;
pub mod enrollment;
