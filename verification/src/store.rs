//! Where a run's evidence lives: one directory per run under the runs
//! root.

use vstd::prelude::*;

use crate::text::{join, join_path};

verus! {

/// The directory of one run: `<runs_root>/<run_id>`.
pub fn run_dir(runs_root: &str, run_id: &str) -> (r: String)
    ensures
        r@ == join_path(runs_root@, run_id@),
{
    join(runs_root, run_id)
}

} // verus!
