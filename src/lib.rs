//! Dynamic-DNS reconciliation: decides which address records of a hosted zone
//! must be pointed at the current public IP, and builds the change batch.

pub mod text;
pub mod records;
pub mod reconcile;
pub mod updater;
pub mod lookup;
pub mod paths;
