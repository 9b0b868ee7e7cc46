//! What is known of the machine, as the dashboard shows it.

use crate::chat::span::Tint;
use crate::text::owned;
use vstd::prelude::*;

verus! {

/// A bar that shows a share: how many of its cells are filled, in what colour,
/// and the share as text.
#[derive(Debug)]
pub struct Gauge {
    pub filled: usize,
    pub color: Tint,
    pub text: String,
}

/// One sample of the state of the machine and of the process.
#[derive(Debug)]
pub struct SysSnapshot {
    pub cpu_brand: String,
    pub arch: String,
    pub logical_cores: usize,
    pub physical_cores: usize,
    /// The load of each core that gets a line of its own.
    pub per_core: Vec<Gauge>,
    /// How many cores were sampled.
    pub core_count: usize,
    /// The largest load among the other cores.
    pub busiest_rest: String,
    pub overall: Gauge,
    pub process: Gauge,
    pub process_rss_bytes: u64,
    pub total_mem_bytes: u64,
    pub used_mem_bytes: u64,
}

impl SysSnapshot {
    /// Nothing is known yet.
    pub fn placeholder(arch: &str) -> (s: Self)
        ensures
            s.cpu_brand@ == "(unknown)"@,
            s.arch@ == arch@,
            s.logical_cores == 0,
            s.physical_cores == 0,
            s.per_core@.len() == 0,
            s.core_count == 0,
            s.overall.filled == 0,
            s.overall.color == Tint::Green,
            s.overall.text@ == "  0%"@,
            s.process.filled == 0,
            s.process.color == Tint::Green,
            s.process.text@ == "  0%"@,
            s.process_rss_bytes == 0,
            s.total_mem_bytes == 0,
            s.used_mem_bytes == 0,
            s.wf(),
    {
        SysSnapshot {
            cpu_brand: owned("(unknown)"),
            arch: owned(arch),
            logical_cores: 0,
            physical_cores: 0,
            per_core: Vec::new(),
            core_count: 0,
            busiest_rest: owned("0"),
            overall: Gauge { filled: 0, color: Tint::Green, text: owned("  0%") },
            process: Gauge { filled: 0, color: Tint::Green, text: owned("  0%") },
            process_rss_bytes: 0,
            total_mem_bytes: 0,
            used_mem_bytes: 0,
        }
    }

    /// Each of the first cores has its own bar, and no bar is longer than its
    /// place.
    pub open spec fn wf(&self) -> bool {
        &&& self.per_core@.len() <= self.core_count
        &&& self.core_count <= 12 ==> self.per_core@.len() == self.core_count
        &&& self.core_count > 12 ==> self.per_core@.len() >= 12
        &&& self.overall.filled <= 10
        &&& self.process.filled <= 10
        &&& forall|i: int| 0 <= i < self.per_core@.len() ==> (#[trigger] self.per_core@[i]).filled
            <= 8
    }
}

} // verus!
