//! Permission levels of tools: read-only, state-changing and destructive.
//!
//! The set of levels is closed: `PermissionKind` requires the `Sealed` marker,
//! which only the three levels below carry.
use vstd::prelude::*;

verus! {

/// Marker that closes the set of permission levels.
pub trait Sealed {}

/// A tool permission level.
pub trait PermissionKind: Sealed + Send + Sync + 'static {}

/// Read-only tools: search, list, get.
pub struct ReadOp;

/// State-changing tools: create, update, start, stop.
pub struct WriteOp;

/// Destructive tools: delete, remove.
pub struct AdminOp;

impl Sealed for ReadOp {}
impl PermissionKind for ReadOp {}

impl Sealed for WriteOp {}
impl PermissionKind for WriteOp {}

impl Sealed for AdminOp {}
impl PermissionKind for AdminOp {}

} // verus!
