use vstd::prelude::*;

verus! {

/// Nanoseconds between two banner pulses, at least.
pub const BANNER_PERIOD: u64 = 2_000_000_000;

/// Nanoseconds between two gauge sweeps, at least.
pub const GAUGE_PERIOD: u64 = 350_000_000;

/// Nanoseconds between two sparkline fades, at least.
pub const SPARK_PERIOD: u64 = 320_000_000;

/// Nanoseconds between two table dissolves, at least.
pub const TABLE_PERIOD: u64 = 500_000_000;

/// Nanoseconds between two side-panel effects, at least.
pub const SIDE_PERIOD: u64 = 600_000_000;

/// Time from `last` to `now`, zero when `now` is earlier.
pub open spec fn elapsed(now: u64, last: u64) -> int {
    if now >= last {
        now - last
    } else {
        0
    }
}

/// Which periodic effects are due on one frame.
#[derive(Clone, Copy, Debug, PartialEq, Eq)]
pub struct PulseFired {
    pub banner: bool,
    pub gauges: bool,
    pub sparklines: bool,
    pub table: bool,
    pub side: bool,
}

/// When each periodic effect last fired, in nanoseconds on a monotonic clock.
pub struct PulseSchedule {
    last_banner: u64,
    last_gauge: u64,
    last_spark: u64,
    last_table: u64,
    last_side: u64,
}

/// One timer after a frame at `now`: it fires when more than `period` has
/// passed since `last`, and then restarts at `now`.
pub open spec fn timer_step(last: u64, now: u64, period: u64, fired: bool, next: u64) -> bool {
    &&& fired == (elapsed(now, last) > period)
    &&& next == if fired {
        now
    } else {
        last
    }
}

impl PulseSchedule {
    /// When the banner last pulsed.
    pub closed spec fn banner_at(&self) -> u64 {
        self.last_banner
    }

    /// When the gauges last swept.
    pub closed spec fn gauge_at(&self) -> u64 {
        self.last_gauge
    }

    /// When the sparklines last faded.
    pub closed spec fn spark_at(&self) -> u64 {
        self.last_spark
    }

    /// When the table last dissolved.
    pub closed spec fn table_at(&self) -> u64 {
        self.last_table
    }

    /// When the side panel last changed.
    pub closed spec fn side_at(&self) -> u64 {
        self.last_side
    }

    /// All timers start at `now`.
    pub fn new(now: u64) -> (r: Self)
        ensures
            r.banner_at() == now,
            r.gauge_at() == now,
            r.spark_at() == now,
            r.table_at() == now,
            r.side_at() == now,
    {
        PulseSchedule {
            last_banner: now,
            last_gauge: now,
            last_spark: now,
            last_table: now,
            last_side: now,
        }
    }

    /// Decides which effects fire on the frame at `now` and restarts their timers.
    pub fn pulse(&mut self, now: u64) -> (r: PulseFired)
        ensures
            timer_step(old(self).banner_at(), now, BANNER_PERIOD, r.banner, final(self).banner_at()),
            timer_step(old(self).gauge_at(), now, GAUGE_PERIOD, r.gauges, final(self).gauge_at()),
            timer_step(old(self).spark_at(), now, SPARK_PERIOD, r.sparklines, final(self).spark_at()),
            timer_step(old(self).table_at(), now, TABLE_PERIOD, r.table, final(self).table_at()),
            timer_step(old(self).side_at(), now, SIDE_PERIOD, r.side, final(self).side_at()),
    {
        let banner = now.saturating_sub(self.last_banner) > BANNER_PERIOD;
        if banner {
            self.last_banner = now;
        }
        let gauges = now.saturating_sub(self.last_gauge) > GAUGE_PERIOD;
        if gauges {
            self.last_gauge = now;
        }
        let sparklines = now.saturating_sub(self.last_spark) > SPARK_PERIOD;
        if sparklines {
            self.last_spark = now;
        }
        let table = now.saturating_sub(self.last_table) > TABLE_PERIOD;
        if table {
            self.last_table = now;
        }
        let side = now.saturating_sub(self.last_side) > SIDE_PERIOD;
        if side {
            self.last_side = now;
        }
        PulseFired { banner, gauges, sparklines, table, side }
    }
}

/// After any frame, no timer is overdue: at most its period has passed since
/// it last fired. A timer fires exactly when strictly more than its period
/// has passed, and then restarts at the frame's time; otherwise it keeps its
/// start.
pub proof fn lemma_timer_never_overdue(last: u64, now: u64, period: u64, fired: bool, next: u64)
    requires
        timer_step(last, now, period, fired, next),
    ensures
        elapsed(now, next) <= period,
        now >= last && now - last > period ==> fired && next == now,
        now < last || now - last <= period ==> !fired && next == last,
{
}

/// Nanoseconds between two WiFi scans, at least.
pub const WIFI_SCAN_PERIOD: u64 = 3_000_000_000;

/// When the WiFi networks were last scanned, if ever.
pub struct ScanGate {
    last: Option<u64>,
}

/// Whether a scan is due at `now` after the last one at `last`: always before
/// the first scan, then once at least the scan period has passed.
pub open spec fn scan_due(last: Option<u64>, now: u64) -> bool {
    match last {
        None => true,
        Some(t) => elapsed(now, t) >= WIFI_SCAN_PERIOD,
    }
}

impl ScanGate {
    /// When the last scan happened, if ever.
    pub closed spec fn last_scan(&self) -> Option<u64> {
        self.last
    }

    /// No scan yet.
    pub fn new() -> (r: Self)
        ensures
            r.last_scan() is None,
    {
        ScanGate { last: None }
    }

    /// Decides whether to scan at `now`; a scan is recorded as happening at `now`.
    pub fn due(&mut self, now: u64) -> (r: bool)
        ensures
            r == scan_due(old(self).last_scan(), now),
            final(self).last_scan() == if r {
                Some(now)
            } else {
                old(self).last_scan()
            },
    {
        let due = match self.last {
            None => true,
            Some(t) => now.saturating_sub(t) >= WIFI_SCAN_PERIOD,
        };
        if due {
            self.last = Some(now);
        }
        due
    }
}

/// Two scans are never closer than the scan period.
pub proof fn lemma_scans_spaced(last: u64, now: u64)
    requires
        scan_due(Some(last), now),
        now >= last,
    ensures
        now - last >= WIFI_SCAN_PERIOD,
{
}

/// The first scan is always due, and a later one as soon as the full scan
/// period (three seconds) has passed since the last.
pub proof fn lemma_scan_due_after_period(last: u64, now: u64)
    ensures
        scan_due(None, now),
        now >= last && now - last >= 3_000_000_000 ==> scan_due(Some(last), now),
        now >= last && now - last < 3_000_000_000 ==> !scan_due(Some(last), now),
{
}

/// The periods of the effects in nanoseconds: the banner pulses every two
/// seconds, the gauges every 350 ms, the sparklines every 320 ms, the table
/// every 500 ms and the side panels every 600 ms, each at the first frame
/// after its period.
pub proof fn lemma_periods()
    ensures
        BANNER_PERIOD == 2_000_000_000,
        GAUGE_PERIOD == 350_000_000,
        SPARK_PERIOD == 320_000_000,
        TABLE_PERIOD == 500_000_000,
        SIDE_PERIOD == 600_000_000,
{
}

} // verus!
