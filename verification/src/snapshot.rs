use vstd::prelude::*;
use crate::text::{append_decimal, append_signed, decimal, signal_percent, signed_decimal, dbm_to_percent};

verus! {

/// What the connectivity panel shows about WiFi.
#[derive(Clone, Debug)]
pub struct WifiSnapshot {
    pub state: String,
    pub ssid: String,
    pub signal_label: String,
    pub signal_dbm_label: String,
}

/// What the connectivity panel shows about Bluetooth.
#[derive(Clone, Debug)]
pub struct BluetoothSnapshot {
    pub state: String,
    pub devices_label: String,
}

/// One row of the process table. `cpu_rank` orders rows by CPU use: a larger
/// rank means more CPU.
#[derive(Clone, Debug)]
pub struct ProcessInfo {
    pub pid: String,
    pub name: String,
    pub cpu_rank: u32,
    pub cpu_str: String,
    pub mem_str: String,
}

/// The labels of one GPU gauge.
#[derive(Clone, Debug)]
pub struct GpuInfo {
    pub label: String,
    pub usage_label: String,
}

/// One WiFi network seen by a scan.
#[derive(Clone, Debug)]
pub struct WifiNetwork {
    pub ssid: String,
    pub signal_level: i32,
}

/// The text and counters that the screen shows for one refresh.
#[derive(Clone, Debug)]
pub struct SystemSnapshot {
    pub cpu_total_str: String,
    pub cpu_per_core_str: Vec<String>,
    pub mem_total: u64,
    pub mem_used: u64,
    pub mem_label: String,
    pub disk_total: u64,
    pub disk_used: u64,
    pub disk_label: String,
    pub net_rx_rate: String,
    pub net_tx_rate: String,
    pub processes: Vec<ProcessInfo>,
    pub wifi: WifiSnapshot,
    pub bluetooth: BluetoothSnapshot,
    pub gpus: Vec<GpuInfo>,
}

/// The WiFi panel when no network is known.
pub open spec fn is_wifi_absent(w: WifiSnapshot) -> bool {
    &&& w.state@ == "No WiFi"@
    &&& w.ssid@ == "N/A"@
    &&& w.signal_label@ == "N/A"@
    &&& w.signal_dbm_label@ == Seq::<char>::empty()
}

/// The Bluetooth panel when no adapter is usable.
pub open spec fn is_bluetooth_absent(b: BluetoothSnapshot) -> bool {
    &&& b.state@ == "No Bluetooth"@
    &&& b.devices_label@ == "None"@
}

/// The labels of GPU gauge `index` with the given usage text.
pub open spec fn is_gpu_slot(g: GpuInfo, index: nat, usage: Seq<char>) -> bool {
    &&& g.label@ == "GPU "@ + decimal(index)
    &&& g.usage_label@ == usage
}

impl WifiSnapshot {
    /// The WiFi panel when no network is known.
    pub fn absent() -> (r: Self)
        ensures
            is_wifi_absent(r),
    {
        proof {
            reveal_strlit("No WiFi");
            reveal_strlit("N/A");
        }
        WifiSnapshot {
            state: String::from_str("No WiFi"),
            ssid: String::from_str("N/A"),
            signal_label: String::from_str("N/A"),
            signal_dbm_label: String::new(),
        }
    }
}

impl BluetoothSnapshot {
    /// The Bluetooth panel when no adapter is usable.
    pub fn absent() -> (r: Self)
        ensures
            is_bluetooth_absent(r),
    {
        proof {
            reveal_strlit("No Bluetooth");
            reveal_strlit("None");
        }
        BluetoothSnapshot {
            state: String::from_str("No Bluetooth"),
            devices_label: String::from_str("None"),
        }
    }
}

/// The labels of GPU gauge `index` with the given usage text.
fn gpu_slot(index: u64, usage: String) -> (r: GpuInfo)
    ensures
        is_gpu_slot(r, index as nat, usage@),
{
    proof {
        reveal_strlit("GPU ");
    }
    let mut label = String::from_str("GPU ");
    append_decimal(&mut label, index);
    GpuInfo { label, usage_label: usage }
}

impl SystemSnapshot {
    /// The snapshot shown before the first refresh: zero counters, empty
    /// lists, placeholder labels and two GPU gauges without a reading.
    pub fn new() -> (r: Self)
        ensures
            r.cpu_total_str@ == "0.0%"@,
            r.cpu_per_core_str@.len() == 0,
            r.mem_total == 0,
            r.mem_used == 0,
            r.mem_label@ == "0 B / 0 B"@,
            r.disk_total == 0,
            r.disk_used == 0,
            r.disk_label@ == "0 B / 0 B"@,
            r.net_rx_rate@ == "0 B/s"@,
            r.net_tx_rate@ == "0 B/s"@,
            r.processes@.len() == 0,
            is_wifi_absent(r.wifi),
            is_bluetooth_absent(r.bluetooth),
            r.gpus@.len() == 2,
            is_gpu_slot(r.gpus@[0], 0, "N/A"@),
            is_gpu_slot(r.gpus@[1], 1, "N/A"@),
    {
        let mut gpus: Vec<GpuInfo> = Vec::with_capacity(2);
        gpus.push(gpu_slot(0, String::from_str("N/A")));
        gpus.push(gpu_slot(1, String::from_str("N/A")));
        SystemSnapshot {
            cpu_total_str: String::from_str("0.0%"),
            cpu_per_core_str: Vec::new(),
            mem_total: 0,
            mem_used: 0,
            mem_label: String::from_str("0 B / 0 B"),
            disk_total: 0,
            disk_used: 0,
            disk_label: String::from_str("0 B / 0 B"),
            net_rx_rate: String::from_str("0 B/s"),
            net_tx_rate: String::from_str("0 B/s"),
            processes: Vec::with_capacity(5),
            wifi: WifiSnapshot::absent(),
            bluetooth: BluetoothSnapshot::absent(),
            gpus,
        }
    }
}

/// The GPU gauges for the readings found: the first two readings in order,
/// each labelled by its position, padded with unread gauges up to two.
/// `readings[i]` is the usage text of GPU `i`, or `None` when it could not be read.
pub fn gpu_entries(readings: &Vec<Option<String>>) -> (r: Vec<GpuInfo>)
    ensures
        r@.len() == 2,
        forall|i: int|
            0 <= i < 2 ==> is_gpu_slot(
                #[trigger] r@[i],
                i as nat,
                if i < readings@.len() && readings@[i] is Some {
                    readings@[i]->Some_0@
                } else {
                    "N/A"@
                },
            ),
{
    proof {
        reveal_strlit("N/A");
    }
    let mut gpus: Vec<GpuInfo> = Vec::new();
    let mut index: usize = 0;
    while index < readings.len() && index < 2
        invariant
            index <= 2,
            index <= readings@.len(),
            gpus@.len() == index,
            forall|i: int|
                0 <= i < index ==> is_gpu_slot(
                    #[trigger] gpus@[i],
                    i as nat,
                    if readings@[i] is Some {
                        readings@[i]->Some_0@
                    } else {
                        "N/A"@
                    },
                ),
        decreases 2 - index,
    {
        let usage = match &readings[index] {
            Some(text) => text.clone(),
            None => String::from_str("N/A"),
        };
        gpus.push(gpu_slot(index as u64, usage));
        index = index + 1;
    }
    while gpus.len() < 2
        invariant
            gpus@.len() <= 2,
            gpus@.len() < 2 ==> gpus@.len() >= readings@.len(),
            forall|i: int|
                0 <= i < gpus@.len() ==> is_gpu_slot(
                    #[trigger] gpus@[i],
                    i as nat,
                    if i < readings@.len() && readings@[i] is Some {
                        readings@[i]->Some_0@
                    } else {
                        "N/A"@
                    },
                ),
        decreases 2 - gpus@.len(),
    {
        let n = gpus.len();
        gpus.push(gpu_slot(n as u64, String::from_str("N/A")));
    }
    gpus
}

/// Index of the network with the strongest signal; among equally strong ones
/// the last.
pub open spec fn strongest(s: Seq<WifiNetwork>) -> int
    decreases s.len(),
{
    if s.len() <= 1 {
        0
    } else {
        let b = strongest(s.drop_last());
        if s.last().signal_level >= s[b].signal_level {
            s.len() - 1
        } else {
            b
        }
    }
}

/// The WiFi panel for the networks a scan found: the strongest network's
/// name (`<hidden>` when empty), its signal as a percentage and in dBm; the
/// absent panel when the scan found nothing.
pub fn wifi_snapshot(networks: &Vec<WifiNetwork>) -> (r: WifiSnapshot)
    ensures
        networks@.len() == 0 ==> is_wifi_absent(r),
        networks@.len() > 0 ==> {
            let best = networks@[strongest(networks@)];
            &&& r.state@ == "Available"@
            &&& r.ssid@ == if best.ssid@.len() == 0 {
                "<hidden>"@
            } else {
                best.ssid@
            }
            &&& r.signal_label@ == decimal(signal_percent(best.signal_level as int) as nat) + "%"@
            &&& r.signal_dbm_label@ == "("@ + signed_decimal(best.signal_level as int) + " dBm)"@
        },
{
    if networks.len() == 0 {
        return WifiSnapshot::absent();
    }
    let mut best: usize = 0;
    let mut i: usize = 1;
    while i < networks.len()
        invariant
            1 <= i <= networks@.len(),
            best == strongest(networks@.take(i as int)),
            best < i,
        decreases networks@.len() - i,
    {
        proof {
            let t = networks@.take(i as int + 1);
            assert(t.drop_last() =~= networks@.take(i as int));
            assert(t[best as int] == networks@[best as int]);
        }
        if networks[i].signal_level >= networks[best].signal_level {
            best = i;
        }
        i = i + 1;
    }
    assert(networks@.take(i as int) =~= networks@);
    proof {
        reveal_strlit("Available");
        reveal_strlit("<hidden>");
        reveal_strlit("%");
        reveal_strlit("(");
        reveal_strlit(" dBm)");
    }
    let chosen = &networks[best];
    let ssid = if chosen.ssid.as_str().is_empty() {
        String::from_str("<hidden>")
    } else {
        chosen.ssid.clone()
    };
    let percent = dbm_to_percent(chosen.signal_level);
    let mut signal_label = String::new();
    append_decimal(&mut signal_label, percent as u64);
    signal_label.append("%");
    let mut signal_dbm_label = String::from_str("(");
    append_signed(&mut signal_dbm_label, chosen.signal_level);
    signal_dbm_label.append(" dBm)");
    WifiSnapshot { state: String::from_str("Available"), ssid, signal_label, signal_dbm_label }
}

/// Sum of `s`.
pub open spec fn total(s: Seq<u64>) -> int
    decreases s.len(),
{
    if s.len() == 0 {
        0
    } else {
        total(s.drop_last()) + s.last()
    }
}

/// `n` capped at the largest `u64`.
pub open spec fn saturate(n: int) -> u64 {
    if n > u64::MAX {
        u64::MAX
    } else {
        n as u64
    }
}

/// The sum of `values`, or the largest `u64` when the sum does not fit.
pub fn saturating_total(values: &Vec<u64>) -> (r: u64)
    ensures
        r == saturate(total(values@)),
{
    let mut acc: u64 = 0;
    let mut i: usize = 0;
    while i < values.len()
        invariant
            i <= values@.len(),
            acc == saturate(total(values@.take(i as int))),
            total(values@.take(i as int)) >= 0,
        decreases values@.len() - i,
    {
        assert(values@.take(i as int + 1).drop_last() =~= values@.take(i as int));
        acc = acc.saturating_add(values[i]);
        i = i + 1;
    }
    assert(values@.take(i as int) =~= values@);
    acc
}

/// Total and used space over all disks, each given as (total, available):
/// both sums saturate, and used space is total minus available, never below zero.
pub fn disk_usage(total_spaces: &Vec<u64>, available_spaces: &Vec<u64>) -> (r: (u64, u64))
    ensures
        r.0 == saturate(total(total_spaces@)),
        r.1 == if saturate(total(total_spaces@)) >= saturate(total(available_spaces@)) {
            saturate(total(total_spaces@)) - saturate(total(available_spaces@))
        } else {
            0
        },
        r.1 <= r.0,
{
    let all = saturating_total(total_spaces);
    let available = saturating_total(available_spaces);
    (all, all.saturating_sub(available))
}

/// The strongest network's signal is at least every other's, and strictly
/// above every network listed after it.
pub proof fn lemma_strongest(s: Seq<WifiNetwork>)
    requires
        s.len() > 0,
    ensures
        0 <= strongest(s) < s.len(),
        forall|j: int| 0 <= j < s.len() ==> #[trigger] s[j].signal_level <= s[strongest(s)].signal_level,
        forall|j: int| strongest(s) < j < s.len() ==> #[trigger] s[j].signal_level < s[strongest(s)].signal_level,
    decreases s.len(),
{
    if s.len() > 1 {
        let t = s.drop_last();
        lemma_strongest(t);
        assert(forall|j: int| 0 <= j < t.len() ==> t[j] == s[j]);
    }
}

/// Summing is additive: nothing sums to 0, one more value adds that value,
/// and the sum of two sequences one after the other is the sum of their sums.
pub proof fn lemma_total_additive(a: Seq<u64>, b: Seq<u64>, x: u64)
    ensures
        total(Seq::empty()) == 0,
        total(a.push(x)) == total(a) + x,
        total(a + b) == total(a) + total(b),
        total(a) >= 0,
    decreases b.len(),
{
    assert(a.push(x).drop_last() =~= a);
    lemma_total_nonneg(a);
    if b.len() > 0 {
        lemma_total_additive(a, b.drop_last(), x);
        assert((a + b).drop_last() =~= a + b.drop_last());
    } else {
        assert(a + b =~= a);
    }
}

proof fn lemma_total_nonneg(a: Seq<u64>)
    ensures
        total(a) >= 0,
    decreases a.len(),
{
    if a.len() > 0 {
        lemma_total_nonneg(a.drop_last());
    }
}

/// Every value counts towards the sum: the sum is at least each value, and
/// the saturated sum is the full sum whenever that fits in a `u64`.
pub proof fn lemma_total_bounds(s: Seq<u64>)
    ensures
        forall|i: int| 0 <= i < s.len() ==> #[trigger] s[i] <= total(s),
        total(s) <= u64::MAX ==> saturate(total(s)) == total(s),
        total(s) > u64::MAX ==> saturate(total(s)) == u64::MAX,
    decreases s.len(),
{
    if s.len() > 0 {
        let t = s.drop_last();
        lemma_total_bounds(t);
        lemma_total_nonneg(t);
        assert forall|i: int| 0 <= i < s.len() implies #[trigger] s[i] <= total(s) by {
            if i < s.len() - 1 {
                assert(s[i] == t[i]);
            }
        }
    }
}

} // verus!
