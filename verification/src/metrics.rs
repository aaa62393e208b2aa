//! Instrumentation counters: invocation and outcome counts per pipeline
//! stage, and hit/miss/update counts for the namespace cache. Counters
//! saturate instead of wrapping.

use vstd::prelude::*;

verus! {

/// A counter one higher, saturating at the maximum.
pub open spec fn bumped(x: u64) -> u64 {
    if x == u64::MAX {
        x
    } else {
        (x + 1) as u64
    }
}

/// [`bumped`] on a counter's mathematical value.
pub open spec fn bumped_int(x: int) -> int {
    if x == u64::MAX as int {
        x
    } else {
        x + 1
    }
}

/// Executable twin of [`bumped`].
pub fn bump(x: u64) -> (r: u64)
    ensures
        r == bumped(x),
{
    if x == u64::MAX {
        x
    } else {
        x + 1
    }
}

/// Counters of one pipeline stage: how often it ran and with what outcome.
#[derive(Clone, Copy, Debug, PartialEq, Eq, Structural)]
pub struct StageMetrics {
    pub invocations: u64,
    pub ok: u64,
    pub err: u64,
}

impl StageMetrics {
    pub fn new() -> (r: StageMetrics)
        ensures
            r == (StageMetrics { invocations: 0u64, ok: 0u64, err: 0u64 }),
    {
        StageMetrics { invocations: 0, ok: 0, err: 0 }
    }

    /// Records one invocation and its outcome.
    pub fn record(&mut self, success: bool)
        ensures
            final(self).invocations == bumped(old(self).invocations),
            final(self).ok == if success {
                bumped(old(self).ok)
            } else {
                old(self).ok
            },
            final(self).err == if success {
                old(self).err
            } else {
                bumped(old(self).err)
            },
    {
        self.invocations = bump(self.invocations);
        if success {
            self.ok = bump(self.ok);
        } else {
            self.err = bump(self.err);
        }
    }
}

/// Hit/miss/update counters of the namespace cache.
#[derive(Clone, Copy, Debug, PartialEq, Eq, Structural)]
pub struct CacheMetrics {
    pub hit: u64,
    pub miss: u64,
    pub update: u64,
}

impl CacheMetrics {
    pub fn new() -> (r: CacheMetrics)
        ensures
            r == (CacheMetrics { hit: 0u64, miss: 0u64, update: 0u64 }),
    {
        CacheMetrics { hit: 0, miss: 0, update: 0 }
    }
}

} // verus!
