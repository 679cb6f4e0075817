use vstd::prelude::*;
use crate::join::{append_joined, joined, texts};
use crate::snapshot::{BluetoothSnapshot, is_bluetooth_absent};

verus! {

/// `a` sorts no later than `b` in the order of `String`: character by
/// character, a prefix before any longer text.
pub open spec fn text_le(a: Seq<char>, b: Seq<char>) -> bool
    decreases a.len(),
{
    if a.len() == 0 {
        true
    } else if b.len() == 0 {
        false
    } else if a[0] != b[0] {
        (a[0] as u32) < (b[0] as u32)
    } else {
        text_le(a.drop_first(), b.drop_first())
    }
}

/// The texts are in ascending `String` order.
pub open spec fn sorted_texts(s: Seq<Seq<char>>) -> bool {
    forall|i: int, j: int| 0 <= i < j < s.len() ==> text_le(s[i], s[j])
}

/// Sorts `names` with `<[String]>::sort`. Claimed: the names afterwards are a
/// rearrangement of the names before, in ascending `String` order. `String`
/// compares the UTF-8 bytes, and UTF-8 keeps the order of characters, so the
/// order is the character order that `text_le` states.
#[verifier::external_body]
fn sort_names(names: &mut Vec<String>)
    ensures
        texts(final(names)@).to_multiset() == texts(old(names)@).to_multiset(),
        sorted_texts(texts(final(names)@)),
{
    names.sort();
}

/// Most devices the Bluetooth panel lists.
pub const MAX_LISTED_DEVICES: usize = 5;

/// The devices line for the given arrangement of names: `None` when there
/// are no devices, otherwise the first five names joined by commas.
pub open spec fn devices_text(sorted: Seq<Seq<char>>) -> Seq<char> {
    if sorted.len() == 0 {
        "None"@
    } else {
        joined(
            sorted.take(if sorted.len() < 5 { sorted.len() as int } else { 5 }),
            ", "@,
        )
    }
}

/// The devices line reads `None` without devices, lists every name when
/// there are at most five, and only the first five otherwise, each name
/// after the first preceded by a comma and a space.
pub proof fn lemma_devices_text(sorted: Seq<Seq<char>>)
    ensures
        sorted.len() == 0 ==> devices_text(sorted) == "None"@,
        1 <= sorted.len() <= 5 ==> devices_text(sorted) == joined(sorted, ", "@),
        sorted.len() > 5 ==> devices_text(sorted) == joined(sorted.take(5), ", "@),
        MAX_LISTED_DEVICES == 5,
{
    if 1 <= sorted.len() <= 5 {
        assert(sorted.take(sorted.len() as int) =~= sorted);
    }
}

/// Whether `r` is the Bluetooth panel for the adapter state `state` and the
/// connected devices `devices`.
pub open spec fn is_bluetooth_panel(
    r: BluetoothSnapshot,
    state: Option<String>,
    devices: Seq<String>,
) -> bool {
    &&& r.state@ == match state {
        Some(s) => s@,
        None => "Unknown"@,
    }
    &&& exists|sorted: Seq<Seq<char>>|
        sorted.to_multiset() == texts(devices).to_multiset() && sorted_texts(sorted)
            && sorted.len() == devices.len() && r.devices_label@ == devices_text(sorted)
}

/// Two texts that each sort no later than the other are the same text.
proof fn lemma_text_le_antisymmetric(a: Seq<char>, b: Seq<char>)
    requires
        text_le(a, b),
        text_le(b, a),
    ensures
        a == b,
    decreases a.len(),
{
    if a.len() == 0 {
        assert(b.len() == 0);
        assert(a =~= b);
    } else {
        assert(b.len() > 0);
        assert(a[0] == b[0]);
        lemma_text_le_antisymmetric(a.drop_first(), b.drop_first());
        assert forall|i: int| 0 <= i < a.len() implies a[i] == b[i] by {
            if i > 0 {
                assert(a[i] == a.drop_first()[i - 1]);
                assert(b[i] == b.drop_first()[i - 1]);
            }
        }
        assert(a =~= b);
    }
}

/// There is one ascending arrangement of a collection of texts.
proof fn lemma_sorted_unique(s1: Seq<Seq<char>>, s2: Seq<Seq<char>>)
    requires
        sorted_texts(s1),
        sorted_texts(s2),
        s1.to_multiset() == s2.to_multiset(),
    ensures
        s1 == s2,
    decreases s1.len(),
{
    s1.to_multiset_ensures();
    s2.to_multiset_ensures();
    if s1.len() == 0 {
        assert(s1 =~= s2);
    } else {
        assert(s1.contains(s1[0]));
        assert(s1.to_multiset().count(s1[0]) > 0);
        assert(s2.to_multiset().count(s1[0]) > 0);
        assert(s2.contains(s1[0]));
        let k = choose|k: int| 0 <= k < s2.len() && s2[k] == s1[0];
        assert(s2.contains(s2[0]));
        assert(s2.to_multiset().count(s2[0]) > 0);
        assert(s1.to_multiset().count(s2[0]) > 0);
        assert(s1.contains(s2[0]));
        let m = choose|m: int| 0 <= m < s1.len() && s1[m] == s2[0];
        if k > 0 && m > 0 {
            assert(text_le(s2[0], s2[k]));
            assert(text_le(s1[0], s1[m]));
            lemma_text_le_antisymmetric(s1[0], s2[0]);
        }
        assert(s1[0] == s2[0]);
        let t1 = s1.drop_first();
        let t2 = s2.drop_first();
        assert(s1.remove(0) =~= t1);
        assert(s2.remove(0) =~= t2);
        assert(t1.to_multiset() == t2.to_multiset());
        assert(sorted_texts(t1)) by {
            assert forall|i: int, j: int| 0 <= i < j < t1.len() implies text_le(t1[i], t1[j]) by {
                assert(t1[i] == s1[i + 1] && t1[j] == s1[j + 1]);
            }
        }
        assert(sorted_texts(t2)) by {
            assert forall|i: int, j: int| 0 <= i < j < t2.len() implies text_le(t2[i], t2[j]) by {
                assert(t2[i] == s2[i + 1] && t2[j] == s2[j + 1]);
            }
        }
        lemma_sorted_unique(t1, t2);
        assert forall|i: int| 0 <= i < s1.len() implies s1[i] == s2[i] by {
            if i > 0 {
                assert(s1[i] == t1[i - 1]);
                assert(s2[i] == t2[i - 1]);
            }
        }
        assert(s1 =~= s2);
    }
}

/// The panel does not depend on the order in which the devices were found:
/// two lists holding the same names give the same panel.
pub proof fn lemma_panel_order_free(
    r1: BluetoothSnapshot,
    r2: BluetoothSnapshot,
    state: Option<String>,
    devices1: Seq<String>,
    devices2: Seq<String>,
)
    requires
        is_bluetooth_panel(r1, state, devices1),
        is_bluetooth_panel(r2, state, devices2),
        texts(devices1).to_multiset() == texts(devices2).to_multiset(),
    ensures
        r1.state@ == r2.state@,
        r1.devices_label@ == r2.devices_label@,
{
    let s1 = choose|sorted: Seq<Seq<char>>|
        sorted.to_multiset() == texts(devices1).to_multiset() && sorted_texts(sorted)
            && sorted.len() == devices1.len() && r1.devices_label@ == devices_text(sorted);
    let s2 = choose|sorted: Seq<Seq<char>>|
        sorted.to_multiset() == texts(devices2).to_multiset() && sorted_texts(sorted)
            && sorted.len() == devices2.len() && r2.devices_label@ == devices_text(sorted);
    lemma_sorted_unique(s1, s2);
}

/// The Bluetooth panel for one scan: the adapter state (`Unknown` when it
/// could not be read) and the names of the connected devices in ascending
/// order, at most five of them, or `None` when there is none.
pub fn bluetooth_snapshot(state: Option<String>, devices: Vec<String>) -> (r: BluetoothSnapshot)
    ensures
        is_bluetooth_panel(r, state, devices@),
{
    proof {
        reveal_strlit("Unknown");
        reveal_strlit("None");
        reveal_strlit(", ");
    }
    let state = match state {
        Some(s) => s,
        None => String::from_str("Unknown"),
    };
    let mut devices = devices;
    let ghost before = devices@;
    sort_names(&mut devices);
    let ghost sorted = texts(devices@);
    proof {
        assert(devices@.len() == before.len()) by {
            texts(devices@).to_multiset_ensures();
            texts(before).to_multiset_ensures();
        }
    }
    let devices_label = if devices.len() == 0 {
        String::from_str("None")
    } else {
        devices.truncate(MAX_LISTED_DEVICES);
        let mut label = String::new();
        append_joined(&mut label, &devices, ", ");
        proof {
            let n: int = if sorted.len() < 5 { sorted.len() as int } else { 5 };
            assert(texts(devices@) =~= sorted.take(n));
        }
        label
    };
    BluetoothSnapshot { state, devices_label }
}

/// Where the Bluetooth watcher stands.
#[derive(Clone, Copy, Debug, PartialEq, Eq)]
pub enum LinkPhase {
    /// Looking for a Bluetooth manager with an adapter.
    Connecting,
    /// Scanning with the first adapter found.
    Scanning,
    /// Nobody listens for panels any more.
    Stopped,
}

/// What the watcher learnt from its last piece of outside work.
pub enum LinkEvent {
    /// No Bluetooth manager could be created.
    ManagerFailed,
    /// The manager lists no adapter.
    NoAdapter,
    /// The manager lists at least one adapter.
    AdapterReady,
    /// One scan: the adapter state if it could be read, and the names of the
    /// connected devices.
    Readout { state: Option<String>, devices: Vec<String> },
    /// The last panel reached the screen.
    Delivered,
    /// The last panel could not be delivered.
    Undelivered,
}

/// What the watcher does next.
pub enum LinkAction {
    /// Send this panel to the screen.
    Publish(BluetoothSnapshot),
    /// Wait this many seconds, then try to connect (while connecting) or
    /// scan again (while scanning).
    Wait(u64),
    /// Start scanning with the first adapter, then scan.
    StartScan,
    /// End the watcher.
    Stop,
}

/// Seconds before the watcher tries to connect again.
pub const RETRY_SECS: u64 = 3;

/// Seconds between two scans.
pub const SCAN_SECS: u64 = 2;

/// One step of the Bluetooth watcher. While connecting, a missing manager or
/// adapter publishes the absent panel and, delivered or not, retries after
/// three seconds; an adapter starts the scan. While scanning, each readout
/// publishes its panel; a delivered panel waits two seconds before the next
/// scan and an undelivered one stops the watcher. A stopped watcher stays
/// stopped, and an event that cannot occur in a phase stops it too.
pub fn bluetooth_step(phase: LinkPhase, event: LinkEvent) -> (r: (LinkPhase, LinkAction))
    ensures
        phase == LinkPhase::Connecting ==> match event {
            LinkEvent::ManagerFailed | LinkEvent::NoAdapter => r.0 == LinkPhase::Connecting && (
            r.1 matches LinkAction::Publish(s) && is_bluetooth_absent(s)),
            LinkEvent::Delivered | LinkEvent::Undelivered => r.0 == LinkPhase::Connecting && (
            r.1 matches LinkAction::Wait(n) && n == RETRY_SECS),
            LinkEvent::AdapterReady => r.0 == LinkPhase::Scanning && r.1 is StartScan,
            LinkEvent::Readout { .. } => r.0 == LinkPhase::Stopped && r.1 is Stop,
        },
        phase == LinkPhase::Scanning ==> match event {
            LinkEvent::Readout { state, devices } => r.0 == LinkPhase::Scanning && (
            r.1 matches LinkAction::Publish(s) && is_bluetooth_panel(s, state, devices@)),
            LinkEvent::Delivered => r.0 == LinkPhase::Scanning && (r.1 matches LinkAction::Wait(
                n,
            ) && n == SCAN_SECS),
            _ => r.0 == LinkPhase::Stopped && r.1 is Stop,
        },
        phase == LinkPhase::Stopped ==> r.0 == LinkPhase::Stopped && r.1 is Stop,
{
    match phase {
        LinkPhase::Connecting => match event {
            LinkEvent::ManagerFailed | LinkEvent::NoAdapter => {
                (LinkPhase::Connecting, LinkAction::Publish(BluetoothSnapshot::absent()))
            },
            LinkEvent::Delivered | LinkEvent::Undelivered => {
                (LinkPhase::Connecting, LinkAction::Wait(RETRY_SECS))
            },
            LinkEvent::AdapterReady => (LinkPhase::Scanning, LinkAction::StartScan),
            LinkEvent::Readout { .. } => (LinkPhase::Stopped, LinkAction::Stop),
        },
        LinkPhase::Scanning => match event {
            LinkEvent::Readout { state, devices } => {
                (LinkPhase::Scanning, LinkAction::Publish(bluetooth_snapshot(state, devices)))
            },
            LinkEvent::Delivered => (LinkPhase::Scanning, LinkAction::Wait(SCAN_SECS)),
            _ => (LinkPhase::Stopped, LinkAction::Stop),
        },
        LinkPhase::Stopped => (LinkPhase::Stopped, LinkAction::Stop),
    }
}

} // verus!
