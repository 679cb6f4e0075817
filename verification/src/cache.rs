use vstd::prelude::*;
use crate::join::{append_joined, joined, texts};
use crate::snapshot::SystemSnapshot;

verus! {

/// Rows of the banner drawn at the top of the screen.
pub open spec fn banner_rows() -> Seq<Seq<char>> {
    seq![
        "IIII  OOOO  NN   N"@,
        " II  O    O N N  N"@,
        " II  O    O N  N N"@,
        " II  O    O N   NN"@,
        "IIII  OOOO  N    N"@,
    ]
}

/// Height of the banner in rows.
pub const BANNER_HEIGHT: u16 = 5;

/// The summary line: mode, CPU, RAM, disk and network figures.
pub open spec fn summary_text(s: SystemSnapshot, nav_mode: bool) -> Seq<char> {
    "MODE "@ + (if nav_mode {
        "NAV"@
    } else {
        "VIEW"@
    }) + "   CPU "@ + s.cpu_total_str@ + "   RAM "@ + s.mem_label@ + "   DISK "@
        + s.disk_label@ + "   NET D:"@ + s.net_rx_rate@ + " U:"@ + s.net_tx_rate@
}

/// The network panel text.
pub open spec fn net_text(s: SystemSnapshot) -> Seq<char> {
    "Down "@ + s.net_rx_rate@ + "\nUp   "@ + s.net_tx_rate@
}

/// The connectivity panel text.
pub open spec fn conn_text(s: SystemSnapshot) -> Seq<char> {
    "WiFi "@ + s.wifi.state@ + "\nSSID "@ + s.wifi.ssid@ + "\nSignal "@ + s.wifi.signal_label@
        + " "@ + s.wifi.signal_dbm_label@ + "\nBT "@ + s.bluetooth.state@ + "\nDevices "@
        + s.bluetooth.devices_label@
}

/// Text of the panels, rebuilt when the data or the mode changes rather than
/// on every frame.
pub struct UiCache {
    banner_text: String,
    summary_text: String,
    per_core_text: String,
    net_text: String,
    conn_text: String,
}

impl UiCache {
    /// The banner rows joined by line breaks.
    pub closed spec fn banner(&self) -> Seq<char> {
        self.banner_text@
    }

    /// The summary line.
    pub closed spec fn summary(&self) -> Seq<char> {
        self.summary_text@
    }

    /// One line per core.
    pub closed spec fn per_core(&self) -> Seq<char> {
        self.per_core_text@
    }

    /// The network panel text.
    pub closed spec fn net(&self) -> Seq<char> {
        self.net_text@
    }

    /// The connectivity panel text.
    pub closed spec fn conn(&self) -> Seq<char> {
        self.conn_text@
    }

    /// The banner ready, every other text empty until the first update.
    pub fn new() -> (r: Self)
        ensures
            r.banner() == joined(banner_rows(), "\n"@),
            r.summary().len() == 0,
            r.per_core().len() == 0,
            r.net().len() == 0,
            r.conn().len() == 0,
    {
        let mut banner_text = String::from_str("IIII  OOOO  NN   N");
        banner_text.append("\n");
        banner_text.append(" II  O    O N N  N");
        banner_text.append("\n");
        banner_text.append(" II  O    O N  N N");
        banner_text.append("\n");
        banner_text.append(" II  O    O N   NN");
        banner_text.append("\n");
        banner_text.append("IIII  OOOO  N    N");
        proof {
            reveal_with_fuel(joined, 6);
            let rows = banner_rows();
            assert(rows.drop_last().drop_last().drop_last().drop_last() =~= seq![rows[0]]);
            assert(rows.drop_last().drop_last().drop_last() =~= seq![rows[0], rows[1]]);
            assert(rows.drop_last().drop_last() =~= seq![rows[0], rows[1], rows[2]]);
            assert(rows.drop_last() =~= seq![rows[0], rows[1], rows[2], rows[3]]);
            assert(banner_text@ =~= joined(rows, "\n"@));
        }
        UiCache {
            banner_text,
            summary_text: String::new(),
            per_core_text: String::new(),
            net_text: String::new(),
            conn_text: String::new(),
        }
    }

    /// Rebuilds every text but the banner from `snapshot` and the mode.
    pub fn update(&mut self, snapshot: &SystemSnapshot, nav_mode: bool)
        ensures
            final(self).banner() == old(self).banner(),
            final(self).summary() == summary_text(*snapshot, nav_mode),
            final(self).per_core() == joined(texts(snapshot.cpu_per_core_str@), "\n"@),
            final(self).net() == net_text(*snapshot),
            final(self).conn() == conn_text(*snapshot),
            final(self).summary() == "MODE "@ + (if nav_mode {
                "NAV"@
            } else {
                "VIEW"@
            }) + "   CPU "@ + snapshot.cpu_total_str@ + "   RAM "@ + snapshot.mem_label@
                + "   DISK "@ + snapshot.disk_label@ + "   NET D:"@ + snapshot.net_rx_rate@
                + " U:"@ + snapshot.net_tx_rate@,
            final(self).net() == "Down "@ + snapshot.net_rx_rate@ + "\nUp   "@
                + snapshot.net_tx_rate@,
            final(self).conn() == "WiFi "@ + snapshot.wifi.state@ + "\nSSID "@
                + snapshot.wifi.ssid@ + "\nSignal "@ + snapshot.wifi.signal_label@ + " "@
                + snapshot.wifi.signal_dbm_label@ + "\nBT "@ + snapshot.bluetooth.state@
                + "\nDevices "@ + snapshot.bluetooth.devices_label@,
    {
        let mode = if nav_mode {
            "NAV"
        } else {
            "VIEW"
        };
        let mut summary = String::from_str("MODE ");
        summary.append(mode);
        summary.append("   CPU ");
        summary.append(snapshot.cpu_total_str.as_str());
        summary.append("   RAM ");
        summary.append(snapshot.mem_label.as_str());
        summary.append("   DISK ");
        summary.append(snapshot.disk_label.as_str());
        summary.append("   NET D:");
        summary.append(snapshot.net_rx_rate.as_str());
        summary.append(" U:");
        summary.append(snapshot.net_tx_rate.as_str());
        self.summary_text = summary;

        let mut per_core = String::new();
        append_joined(&mut per_core, &snapshot.cpu_per_core_str, "\n");
        self.per_core_text = per_core;

        let mut net = String::from_str("Down ");
        net.append(snapshot.net_rx_rate.as_str());
        net.append("\nUp   ");
        net.append(snapshot.net_tx_rate.as_str());
        self.net_text = net;

        let mut conn = String::from_str("WiFi ");
        conn.append(snapshot.wifi.state.as_str());
        conn.append("\nSSID ");
        conn.append(snapshot.wifi.ssid.as_str());
        conn.append("\nSignal ");
        conn.append(snapshot.wifi.signal_label.as_str());
        conn.append(" ");
        conn.append(snapshot.wifi.signal_dbm_label.as_str());
        conn.append("\nBT ");
        conn.append(snapshot.bluetooth.state.as_str());
        conn.append("\nDevices ");
        conn.append(snapshot.bluetooth.devices_label.as_str());
        self.conn_text = conn;
        proof {
            assert(self.summary_text@ =~= summary_text(*snapshot, nav_mode));
            assert(self.net_text@ =~= net_text(*snapshot));
            assert(self.conn_text@ =~= conn_text(*snapshot));
        }
    }

    /// The banner text.
    pub fn banner_text(&self) -> (r: &str)
        ensures
            r@ == self.banner(),
    {
        self.banner_text.as_str()
    }

    /// The summary line.
    pub fn summary_text(&self) -> (r: &str)
        ensures
            r@ == self.summary(),
    {
        self.summary_text.as_str()
    }

    /// The per-core lines.
    pub fn per_core_text(&self) -> (r: &str)
        ensures
            r@ == self.per_core(),
    {
        self.per_core_text.as_str()
    }

    /// The network panel text.
    pub fn net_text(&self) -> (r: &str)
        ensures
            r@ == self.net(),
    {
        self.net_text.as_str()
    }

    /// The connectivity panel text.
    pub fn conn_text(&self) -> (r: &str)
        ensures
            r@ == self.conn(),
    {
        self.conn_text.as_str()
    }
}

/// The panel texts in terms of the snapshot's fields: the summary names the
/// mode and shows CPU, RAM, disk and both network rates in that order; the
/// network panel shows the download rate, then the upload rate; the
/// connectivity panel shows the WiFi state, the network name on the SSID
/// line, the signal percentage and dBm on the Signal line, then the
/// Bluetooth state and devices.
pub proof fn lemma_panel_texts(s: SystemSnapshot, nav_mode: bool)
    ensures
        summary_text(s, nav_mode) == "MODE "@ + (if nav_mode {
            "NAV"@
        } else {
            "VIEW"@
        }) + "   CPU "@ + s.cpu_total_str@ + "   RAM "@ + s.mem_label@ + "   DISK "@
            + s.disk_label@ + "   NET D:"@ + s.net_rx_rate@ + " U:"@ + s.net_tx_rate@,
        net_text(s) == "Down "@ + s.net_rx_rate@ + "\nUp   "@ + s.net_tx_rate@,
        conn_text(s) == "WiFi "@ + s.wifi.state@ + "\nSSID "@ + s.wifi.ssid@ + "\nSignal "@
            + s.wifi.signal_label@ + " "@ + s.wifi.signal_dbm_label@ + "\nBT "@
            + s.bluetooth.state@ + "\nDevices "@ + s.bluetooth.devices_label@,
{
}

/// The banner is these five rows, and its height is five.
pub proof fn lemma_banner_rows()
    ensures
        banner_rows() == seq![
            "IIII  OOOO  NN   N"@,
            " II  O    O N N  N"@,
            " II  O    O N  N N"@,
            " II  O    O N   NN"@,
            "IIII  OOOO  N    N"@,
        ],
        BANNER_HEIGHT == 5,
{
}

} // verus!
