//! Records of the chart service API that the study tools read.

use vstd::prelude::*;

verus! {

/// A chart on the service: its id and the URL of its archive.
#[derive(Clone, Debug)]
pub struct RemoteChart {
    pub id: i32,
    pub file: String,
}

/// One page of results.
#[derive(Clone, Debug)]
pub struct PagedResult<T> {
    pub results: Vec<T>,
}

} // verus!
