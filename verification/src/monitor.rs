//! Health and performance observation types: alert and recommendation
//! severities, system counters, and the health classification over them.

use vstd::prelude::*;

verus! {

/// How urgent an alert is.
#[derive(Debug, Clone, Copy, PartialEq, Eq, Structural)]
pub enum AlertSeverity {
    Low,
    Medium,
    High,
    Critical,
}

/// Overall condition of the daemon.
#[derive(Debug, Clone, Copy, PartialEq, Eq, Structural)]
pub enum HealthLevel {
    Healthy,
    Warning,
    Critical,
}

/// How pressing a performance recommendation is.
#[derive(Debug, Clone, Copy, PartialEq, Eq, Structural)]
pub enum RecommendationSeverity {
    High,
    Medium,
    Low,
}

/// Resource counters of the running daemon.
#[derive(Debug, Clone, Copy, PartialEq, Eq, Structural)]
pub struct SystemMetrics {
    pub peak_memory_usage: u64,
    pub current_memory_usage: u64,
    pub file_descriptors_used: u32,
    pub total_jobs_processed: u64,
    pub uptime_seconds: u64,
}

/// One suggestion the profiler makes to the operator.
pub struct PerformanceRecommendation {
    pub category: String,
    pub issue: String,
    pub suggestion: String,
    pub severity: RecommendationSeverity,
}

/// Classifies the daemon's condition from its counters: critical above
/// 2000 MiB of memory, 95% CPU or 500 errors; warning above 1000 MiB, 90%
/// or 100 errors; healthy otherwise.
pub fn health_level(memory_mb: u64, cpu_percent: u64, total_errors: u64) -> (r: HealthLevel)
    ensures
        memory_mb > 2000 || cpu_percent > 95 || total_errors > 500 ==> r
            == HealthLevel::Critical,
        !(memory_mb > 2000 || cpu_percent > 95 || total_errors > 500) && (memory_mb > 1000
            || cpu_percent > 90 || total_errors > 100) ==> r == HealthLevel::Warning,
        !(memory_mb > 1000 || cpu_percent > 90 || total_errors > 100) ==> r
            == HealthLevel::Healthy,
{
    if memory_mb > 2000 || cpu_percent > 95 || total_errors > 500 {
        HealthLevel::Critical
    } else if memory_mb > 1000 || cpu_percent > 90 || total_errors > 100 {
        HealthLevel::Warning
    } else {
        HealthLevel::Healthy
    }
}

} // verus!
