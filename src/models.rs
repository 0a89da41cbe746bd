//! Plain data handed between the engine, its callers and the user interface.

use vstd::prelude::*;

verus! {

/// One row of a device partition table.
#[derive(Debug, Clone)]
pub struct Partition {
    pub name: String,
    pub start: String,
    /// The size as a hexadecimal literal, e.g. `0x80000`.
    pub size: String,
    /// The size in human units, e.g. `512 KiB`.
    pub display_size: Option<String>,
}

#[derive(Debug, Clone)]
pub struct PartitionListResult {
    pub partitions: Vec<Partition>,
    pub operation_id: String,
}

#[derive(Debug, Clone)]
pub struct LogEvent {
    pub timestamp: String,
    pub level: String,
    pub message: String,
    pub partition_name: Option<String>,
}

/// One published line of a running tool.
#[derive(Debug, Clone)]
pub struct OperationOutputEvent {
    pub operation_id: String,
    pub line: String,
    pub timestamp: String,
    pub is_stderr: bool,
}

/// The single terminal event of an invocation.
#[derive(Debug, Clone)]
pub struct OperationCompleteEvent {
    pub operation_id: String,
    pub success: bool,
    pub error: Option<String>,
}

} // verus!
