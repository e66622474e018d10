use vstd::prelude::*;

verus! {

/// Relies on `chrono::Utc::now` and `DateTime::timestamp_micros`: the time
/// now, in microseconds since the Unix epoch. Nothing is promised of it.
#[verifier::external_body]
fn now_micros() -> (r: i64) {
    chrono::Utc::now().timestamp_micros()
}

/// Counters of scrape cycles and the time of the last one.
pub struct Metrics {
    total_scrapes: u64,
    successful_scrapes: u64,
    failed_scrapes: u64,
    last_scrape_time: Option<i64>,
}

pub struct MetricsView {
    pub total: u64,
    pub successful: u64,
    pub failed: u64,
    pub last_scrape_time: Option<i64>,
}

impl View for Metrics {
    type V = MetricsView;

    closed spec fn view(&self) -> MetricsView {
        MetricsView {
            total: self.total_scrapes,
            successful: self.successful_scrapes,
            failed: self.failed_scrapes,
            last_scrape_time: self.last_scrape_time,
        }
    }
}

/// `n + 1`, wrapping to zero past the largest value.
pub open spec fn bumped(n: u64) -> u64 {
    if n == u64::MAX { 0 } else { (n + 1) as u64 }
}

fn bump(n: u64) -> (r: u64)
    ensures
        r == bumped(n),
{
    if n == u64::MAX { 0 } else { n + 1 }
}

impl Metrics {
    pub fn new() -> (r: Metrics)
        ensures
            r@.total == 0,
            r@.successful == 0,
            r@.failed == 0,
            r@.last_scrape_time is None,
    {
        Metrics { total_scrapes: 0, successful_scrapes: 0, failed_scrapes: 0, last_scrape_time: None }
    }

    /// Counts one cycle, as a success or a failure, and stamps it with the
    /// time now.
    pub fn record_scrape(&mut self, success: bool)
        ensures
            final(self)@.total == bumped(old(self)@.total),
            final(self)@.successful == if success {
                bumped(old(self)@.successful)
            } else {
                old(self)@.successful
            },
            final(self)@.failed == if success {
                old(self)@.failed
            } else {
                bumped(old(self)@.failed)
            },
            final(self)@.last_scrape_time is Some,
    {
        self.total_scrapes = bump(self.total_scrapes);
        if success {
            self.successful_scrapes = bump(self.successful_scrapes);
        } else {
            self.failed_scrapes = bump(self.failed_scrapes);
        }
        self.last_scrape_time = Some(now_micros());
    }

    pub fn get_total_scrapes(&self) -> (r: u64)
        ensures
            r == self@.total,
    {
        self.total_scrapes
    }

    pub fn get_successful_scrapes(&self) -> (r: u64)
        ensures
            r == self@.successful,
    {
        self.successful_scrapes
    }

    pub fn get_failed_scrapes(&self) -> (r: u64)
        ensures
            r == self@.failed,
    {
        self.failed_scrapes
    }

    /// Time of the last recorded cycle, in microseconds since the Unix epoch.
    pub fn get_last_scrape_time(&self) -> (r: Option<i64>)
        ensures
            r == self@.last_scrape_time,
    {
        self.last_scrape_time
    }
}

impl Default for Metrics {
    fn default() -> (r: Metrics)
        ensures
            r@.total == 0,
            r@.successful == 0,
            r@.failed == 0,
            r@.last_scrape_time is None,
    {
        Metrics::new()
    }
}

} // verus!
