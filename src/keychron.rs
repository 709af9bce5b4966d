//! Keychron (Q/V/K Pro) device matching and layout application via VIA Raw HID.

use std::time::Duration;
use vstd::prelude::*;

pub use crate::applied_keys::{key_views, AppliedKeys};
use crate::tick_laws::lemma_marked_grows;

use crate::via::{
    confirmed_layout, layout_code, layout_report, parse_layout_options_response,
    set_layout_options_report, Layout, ID_SET_KEYBOARD_VALUE, RAW_EPSIZE,
};

verus! {

/// Keychron USB vendor ID.
pub const KEYCHRON_VID: u16 = 0x3434;

/// QMK/VIA Raw HID usage page.
pub const RAW_HID_USAGE_PAGE: u16 = 0xFF60;

/// Lower-case hexadecimal digits, by value.
pub open spec fn hex_digits() -> Seq<char> {
    seq!['0', '1', '2', '3', '4', '5', '6', '7', '8', '9', 'a', 'b', 'c', 'd', 'e', 'f']
}

/// `v` as four lower-case hex digits, most significant first (`{:04x}`).
pub open spec fn hex4(v: u16) -> Seq<char> {
    seq![
        hex_digits()[(v as int / 4096) % 16],
        hex_digits()[(v as int / 256) % 16],
        hex_digits()[(v as int / 16) % 16],
        hex_digits()[v as int % 16],
    ]
}

/// The serial number as it stands in a key: absent is empty.
pub open spec fn serial_text(serial: Option<Seq<char>>) -> Seq<char> {
    match serial {
        Some(s) => s,
        None => Seq::empty(),
    }
}

/// The canonical key `"{vid:04x}:{pid:04x}:{serial-or-empty}"` of a device.
pub open spec fn device_key_text(vid: u16, pid: u16, serial: Option<Seq<char>>) -> Seq<char> {
    hex4(vid) + seq![':'] + hex4(pid) + seq![':'] + serial_text(serial)
}

/// The view of an optional string slice.
pub open spec fn opt_str_view(s: Option<&str>) -> Option<Seq<char>> {
    match s {
        Some(t) => Some(t@),
        None => None,
    }
}

/// One hex digit as a one-character string.
fn hex_digit_str(n: u16) -> (s: &'static str)
    requires
        n < 16,
    ensures
        s@ == seq![hex_digits()[n as int]],
{
    proof {
        reveal_strlit("0");
        reveal_strlit("1");
        reveal_strlit("2");
        reveal_strlit("3");
        reveal_strlit("4");
        reveal_strlit("5");
        reveal_strlit("6");
        reveal_strlit("7");
        reveal_strlit("8");
        reveal_strlit("9");
        reveal_strlit("a");
        reveal_strlit("b");
        reveal_strlit("c");
        reveal_strlit("d");
        reveal_strlit("e");
        reveal_strlit("f");
    }
    match n {
        0 => "0",
        1 => "1",
        2 => "2",
        3 => "3",
        4 => "4",
        5 => "5",
        6 => "6",
        7 => "7",
        8 => "8",
        9 => "9",
        10 => "a",
        11 => "b",
        12 => "c",
        13 => "d",
        14 => "e",
        _ => "f",
    }
}

/// Appends `v` as four lower-case hex digits.
fn push_hex4(out: &mut String, v: u16)
    ensures
        final(out)@ == old(out)@ + hex4(v),
{
    out.append(hex_digit_str(v / 4096));
    out.append(hex_digit_str((v / 256) % 16));
    out.append(hex_digit_str((v / 16) % 16));
    out.append(hex_digit_str(v % 16));
    assert(out@ =~= old(out)@ + hex4(v));
}

/// Unique key for a device (for tracking already-applied devices).
pub fn device_key(vid: u16, pid: u16, serial: Option<&str>) -> (key: String)
    ensures
        key@ == device_key_text(vid, pid, opt_str_view(serial)),
{
    proof {
        reveal_strlit(":");
    }
    let mut key = String::new();
    push_hex4(&mut key, vid);
    key.append(":");
    push_hex4(&mut key, pid);
    key.append(":");
    match serial {
        Some(s) => key.append(s),
        None => {},
    }
    assert(key@ =~= device_key_text(vid, pid, opt_str_view(serial)));
    key
}

/// One HID device of an enumeration, as the matcher reads it.
#[derive(Clone, Debug)]
pub struct DeviceInfo {
    pub vendor_id: u16,
    pub product_id: u16,
    pub usage_page: u16,
    pub serial_number: Option<String>,
}

/// The view of an optional string.
pub open spec fn opt_string_view(s: Option<String>) -> Option<Seq<char>> {
    match s {
        Some(t) => Some(t@),
        None => None,
    }
}

/// Whether a device is a Keychron Raw HID endpoint.
pub open spec fn is_target_device(d: DeviceInfo) -> bool {
    d.vendor_id == KEYCHRON_VID && d.usage_page == RAW_HID_USAGE_PAGE
}

/// The key of a device.
pub open spec fn key_of(d: DeviceInfo) -> Seq<char> {
    device_key_text(d.vendor_id, d.product_id, opt_string_view(d.serial_number))
}

/// Keys of the target devices of an enumeration.
pub open spec fn present_keys(devs: Seq<DeviceInfo>) -> Set<Seq<char>> {
    Set::new(
        |k: Seq<char>|
            exists|i: int| 0 <= i < devs.len() && is_target_device(devs[i]) && #[trigger] key_of(devs[i]) == k,
    )
}

impl DeviceInfo {
    /// Whether this is a Keychron Raw HID endpoint.
    pub fn is_target(&self) -> (r: bool)
        ensures
            r == is_target_device(*self),
    {
        self.vendor_id == KEYCHRON_VID && self.usage_page == RAW_HID_USAGE_PAGE
    }

    /// The key under which this device is tracked.
    pub fn key(&self) -> (k: String)
        ensures
            k@ == key_of(*self),
    {
        let serial: Option<&str> = match &self.serial_number {
            Some(s) => Some(s.as_str()),
            None => None,
        };
        device_key(self.vendor_id, self.product_id, serial)
    }
}

/// Keys of the target devices among `devices`.
pub fn current_keys(devices: &Vec<DeviceInfo>) -> (keys: Vec<String>)
    ensures
        key_views(keys@).to_set() == present_keys(devices@),
{
    let mut keys: Vec<String> = Vec::new();
    let mut i: usize = 0;
    while i < devices.len()
        invariant
            i <= devices.len(),
            key_views(keys@).to_set() == present_keys(devices@.take(i as int)),
        decreases devices.len() - i,
    {
        let d = &devices[i];
        let ghost before = key_views(keys@);
        if d.is_target() {
            let k = d.key();
            keys.push(k);
            assert(key_views(keys@) =~= before + seq![key_of(*d)]);
            proof {
                Seq::lemma_to_set_insert_commutes(before, key_of(*d));
            }
        }
        assert(devices@.take(i + 1)[i as int] == devices@[i as int]);
        assert(key_views(keys@).to_set() =~= present_keys(devices@.take(i + 1))) by {
            assert forall|k: Seq<char>| present_keys(devices@.take(i + 1)).contains(k)
                implies #[trigger] key_views(keys@).to_set().contains(k) by {
                let j = choose|j: int|
                    0 <= j < i + 1 && is_target_device(devices@.take(i + 1)[j])
                        && #[trigger] key_of(devices@.take(i + 1)[j]) == k;
                if j < i {
                    assert(devices@.take(i as int)[j] == devices@.take(i + 1)[j]);
                    assert(present_keys(devices@.take(i as int)).contains(k));
                }
            }
            assert forall|k: Seq<char>| #[trigger] key_views(keys@).to_set().contains(k)
                implies present_keys(devices@.take(i + 1)).contains(k) by {
                if before.to_set().contains(k) {
                    let j = choose|j: int|
                        0 <= j < i && is_target_device(devices@.take(i as int)[j])
                            && #[trigger] key_of(devices@.take(i as int)[j]) == k;
                    assert(devices@.take(i as int)[j] == devices@.take(i + 1)[j]);
                }
            }
        }
        i = i + 1;
    }
    assert(devices@.take(i as int) =~= devices@);
    keys
}

/// What the HID transport reported for one attempt to send a report.
#[derive(Clone, Debug)]
pub enum Exchange {
    /// The device could not be opened.
    OpenFailed(String),
    /// The write failed.
    WriteFailed(String),
    /// The write returned `written`; `echo` holds the bytes read back before
    /// the timeout, and is empty when nothing came.
    Written { written: usize, echo: Vec<u8> },
}

/// How one attempt to set the layout on a device ended.
#[derive(Clone, Debug)]
pub enum ApplyOutcome {
    /// The device could not be opened; it will be tried again.
    OpenFailed(String),
    /// The write failed; it will be tried again.
    WriteFailed(String),
    /// Fewer bytes than a report were written; it will be tried again.
    ShortWrite { written: usize },
    /// The keyboard echoed the layout that was sent.
    Confirmed,
    /// The keyboard echoed something else: another layout, or nothing readable.
    Mismatch(Option<Layout>),
    /// Nothing came back before the timeout.
    NoEcho,
}

/// The outcome that a transport report gives, for the layout that was sent.
pub open spec fn outcome_of(ex: Exchange, layout: Layout) -> ApplyOutcome {
    match ex {
        Exchange::OpenFailed(e) => ApplyOutcome::OpenFailed(e),
        Exchange::WriteFailed(e) => ApplyOutcome::WriteFailed(e),
        Exchange::Written { written, echo } => if written != RAW_EPSIZE {
            ApplyOutcome::ShortWrite { written }
        } else if echo@.len() == 0 {
            ApplyOutcome::NoEcho
        } else if confirmed_layout(echo@) == Some(layout) {
            ApplyOutcome::Confirmed
        } else {
            ApplyOutcome::Mismatch(confirmed_layout(echo@))
        },
    }
}

/// Whether an outcome counts as applied: the command reached the device.
pub open spec fn is_applied_outcome(o: ApplyOutcome) -> bool {
    o is Confirmed || o is Mismatch || o is NoEcho
}

impl ApplyOutcome {
    /// Whether the device is now taken as applied (no retry).
    pub fn is_applied(&self) -> (r: bool)
        ensures
            r == is_applied_outcome(*self),
    {
        match self {
            ApplyOutcome::Confirmed => true,
            ApplyOutcome::Mismatch(_) => true,
            ApplyOutcome::NoEcho => true,
            _ => false,
        }
    }
}

/// Reads what the transport reported for a SET report of `layout`.
pub fn interpret_exchange(ex: Exchange, layout: Layout) -> (r: ApplyOutcome)
    ensures
        r == outcome_of(ex, layout),
{
    match ex {
        Exchange::OpenFailed(e) => ApplyOutcome::OpenFailed(e),
        Exchange::WriteFailed(e) => ApplyOutcome::WriteFailed(e),
        Exchange::Written { written, echo } => {
            if written != RAW_EPSIZE {
                ApplyOutcome::ShortWrite { written }
            } else if echo.len() == 0 {
                ApplyOutcome::NoEcho
            } else {
                let confirmed = parse_layout_options_response(echo.as_slice());
                match confirmed {
                    Some(l) => {
                        if l == layout {
                            ApplyOutcome::Confirmed
                        } else {
                            ApplyOutcome::Mismatch(confirmed)
                        }
                    },
                    None => ApplyOutcome::Mismatch(None),
                }
            }
        },
    }
}

/// The applied set after the prune step: only keys still present stay.
pub open spec fn pruned(applied: Set<Seq<char>>, devs: Seq<DeviceInfo>) -> Set<Seq<char>> {
    applied.intersect(present_keys(devs))
}

/// The applied set after the first `n` devices of a tick were handled,
/// starting from `start`, where `outs[i]` is the outcome of device `i`
/// (`None`: not attempted).
pub open spec fn marked(
    start: Set<Seq<char>>,
    devs: Seq<DeviceInfo>,
    outs: Seq<Option<ApplyOutcome>>,
    n: nat,
) -> Set<Seq<char>>
    decreases n,
{
    if n == 0 {
        start
    } else {
        let prev = marked(start, devs, outs, (n - 1) as nat);
        if outs[n - 1] is Some && is_applied_outcome(outs[n - 1]->0) {
            prev.insert(key_of(devs[n - 1]))
        } else {
            prev
        }
    }
}

/// Whether the outcomes of the devices handled so far agree with a tick
/// from the applied set `applied`: device `i` was attempted exactly when it
/// is a target device whose key was not applied when its turn came.
pub open spec fn handled_rightly(
    applied: Set<Seq<char>>,
    devs: Seq<DeviceInfo>,
    outs: Seq<Option<ApplyOutcome>>,
) -> bool {
    forall|i: int|
        0 <= i < outs.len() ==> ((#[trigger] outs[i] is Some) == (is_target_device(devs[i])
            && !marked(pruned(applied, devs), devs, outs, i as nat).contains(key_of(devs[i]))))
}

/// Whether `outs` records a whole tick over `devs` from the applied set
/// `applied`.
pub open spec fn tick_outcomes(
    applied: Set<Seq<char>>,
    devs: Seq<DeviceInfo>,
    outs: Seq<Option<ApplyOutcome>>,
) -> bool {
    &&& outs.len() == devs.len()
    &&& handled_rightly(applied, devs, outs)
}

/// The applied set at the end of a tick recorded by `outs`.
pub open spec fn tick_result(
    applied: Set<Seq<char>>,
    devs: Seq<DeviceInfo>,
    outs: Seq<Option<ApplyOutcome>>,
) -> Set<Seq<char>> {
    marked(pruned(applied, devs), devs, outs, devs.len())
}

/// `marked` reads only the outcomes before `n`.
proof fn lemma_marked_prefix(
    start: Set<Seq<char>>,
    devs: Seq<DeviceInfo>,
    a: Seq<Option<ApplyOutcome>>,
    b: Seq<Option<ApplyOutcome>>,
    n: nat,
)
    requires
        n <= a.len(),
        n <= b.len(),
        forall|k: int| 0 <= k < n ==> a[k] == b[k],
    ensures
        marked(start, devs, a, n) == marked(start, devs, b, n),
    decreases n,
{
    if n > 0 {
        lemma_marked_prefix(start, devs, a, b, (n - 1) as nat);
    }
}

/// A copy of an outcome, field for field.
fn copy_outcome(o: &ApplyOutcome) -> (r: ApplyOutcome)
    ensures
        r == *o,
{
    match o {
        ApplyOutcome::OpenFailed(e) => ApplyOutcome::OpenFailed(e.clone()),
        ApplyOutcome::WriteFailed(e) => ApplyOutcome::WriteFailed(e.clone()),
        ApplyOutcome::ShortWrite { written } => ApplyOutcome::ShortWrite { written: *written },
        ApplyOutcome::Confirmed => ApplyOutcome::Confirmed,
        ApplyOutcome::Mismatch(l) => ApplyOutcome::Mismatch(*l),
        ApplyOutcome::NoEcho => ApplyOutcome::NoEcho,
    }
}

/// One poll tick over one enumeration, run step by step: `begin` forgets
/// the applied keys whose device is gone; `next_write` names the next device
/// to send the layout to, with the report to write; `record` takes what the
/// transport reported for that write; `finish` hands back the applied set.
/// The devices are visited once each, in order, so no device is written
/// twice in a tick.
pub struct Tick {
    devices: Vec<DeviceInfo>,
    layout: Layout,
    applied: AppliedKeys,
    initial: Ghost<Set<Seq<char>>>,
    outcomes: Vec<Option<ApplyOutcome>>,
    awaiting: bool,
}

impl Tick {
    /// The enumeration of this tick.
    pub closed spec fn devices(&self) -> Seq<DeviceInfo> {
        self.devices@
    }

    /// The layout sent in this tick.
    pub closed spec fn layout(&self) -> Layout {
        self.layout
    }

    /// The applied set as it was before the tick.
    pub closed spec fn initial(&self) -> Set<Seq<char>> {
        self.initial@
    }

    /// The applied set now.
    pub closed spec fn applied(&self) -> Set<Seq<char>> {
        self.applied@
    }

    /// The outcome of each device handled so far (`None`: not written).
    pub closed spec fn outcomes(&self) -> Seq<Option<ApplyOutcome>> {
        self.outcomes@
    }

    /// Whether a write was handed out and its result is not recorded yet.
    pub closed spec fn awaiting(&self) -> bool {
        self.awaiting
    }

    /// The state agrees with the tick model: the applied set is what the
    /// outcomes so far give, each handled device was written exactly when it
    /// was a target not applied at its turn, and a write handed out is for
    /// the next device, a target not applied.
    pub closed spec fn wf(&self) -> bool {
        let devs = self.devices@;
        let outs = self.outcomes@;
        let start = pruned(self.initial@, devs);
        &&& outs.len() <= devs.len()
        &&& self.applied.wf()
        &&& self.applied@ == marked(start, devs, outs, outs.len())
        &&& forall|j: int|
            0 <= j < outs.len() ==> ((#[trigger] outs[j] is Some) == (is_target_device(devs[j])
                && !marked(start, devs, outs, j as nat).contains(key_of(devs[j]))))
        &&& self.awaiting ==> {
            &&& outs.len() < devs.len()
            &&& is_target_device(devs[outs.len() as int])
            &&& !self.applied@.contains(key_of(devs[outs.len() as int]))
        }
    }

    /// Starts a tick over `devices`: drops from `applied` every key whose
    /// device is not among the target devices.
    pub fn begin(devices: Vec<DeviceInfo>, layout: Layout, applied: AppliedKeys) -> (t: Tick)
        requires
            applied.wf(),
        ensures
            t.wf(),
            t.devices() == devices@,
            t.layout() == layout,
            t.initial() == applied@,
            t.applied() == pruned(applied@, devices@),
            t.outcomes() == Seq::<Option<ApplyOutcome>>::empty(),
            !t.awaiting(),
    {
        let ghost initial = applied@;
        let present = current_keys(&devices);
        let mut applied = applied;
        applied.retain_present(&present);
        let t = Tick {
            devices,
            layout,
            applied,
            initial: Ghost(initial),
            outcomes: Vec::new(),
            awaiting: false,
        };
        assert(t.outcomes@ =~= Seq::<Option<ApplyOutcome>>::empty());
        t
    }

    /// Passes over the devices that need no write (not a target, or already
    /// applied) and names the next one that does, with the SET report of the
    /// tick's layout to write to it. `None`: every device is handled.
    pub fn next_write(&mut self) -> (r: Option<(usize, [u8; RAW_EPSIZE])>)
        requires
            old(self).wf(),
            !old(self).awaiting(),
        ensures
            final(self).wf(),
            final(self).devices() == old(self).devices(),
            final(self).layout() == old(self).layout(),
            final(self).initial() == old(self).initial(),
            final(self).applied() == old(self).applied(),
            old(self).outcomes().len() <= final(self).outcomes().len(),
            final(self).outcomes().take(old(self).outcomes().len() as int) == old(self).outcomes(),
            forall|j: int|
                old(self).outcomes().len() <= j < final(self).outcomes().len()
                    ==> #[trigger] final(self).outcomes()[j] is None,
            handled_rightly(final(self).initial(), final(self).devices(), final(self).outcomes()),
            match r {
                Some((i, report)) => {
                    &&& final(self).awaiting()
                    &&& i == final(self).outcomes().len()
                    &&& i < final(self).devices().len()
                    &&& is_target_device(final(self).devices()[i as int])
                    &&& !final(self).applied().contains(key_of(final(self).devices()[i as int]))
                    &&& !final(self).initial().contains(key_of(final(self).devices()[i as int]))
                    &&& report@ == layout_report(
                        ID_SET_KEYBOARD_VALUE,
                        layout_code(final(self).layout()),
                    )
                },
                None => {
                    &&& !final(self).awaiting()
                    &&& final(self).outcomes().len() == final(self).devices().len()
                },
            },
    {
        let ghost before = self.outcomes@;
        while self.outcomes.len() < self.devices.len()
            invariant
                self.wf(),
                !self.awaiting,
                self.devices@ == old(self).devices@,
                self.layout == old(self).layout,
                self.initial@ == old(self).initial@,
                self.applied@ == old(self).applied@,
                before == old(self).outcomes@,
                before.len() <= self.outcomes@.len(),
                self.outcomes@.take(before.len() as int) == before,
                forall|j: int|
                    before.len() <= j < self.outcomes@.len() ==> #[trigger] self.outcomes@[j] is None,
            decreases self.devices@.len() - self.outcomes@.len(),
        {
            let n = self.outcomes.len();
            let d = &self.devices[n];
            if d.is_target() {
                let key = d.key();
                if !self.applied.contains(&key) {
                    proof {
                        let start = pruned(self.initial@, self.devices@);
                        assert(present_keys(self.devices@).contains(key@));
                        lemma_marked_grows(start, self.devices@, self.outcomes@, 0, n as nat);
                    }
                    self.awaiting = true;
                    return Some((n, set_layout_options_report(self.layout)));
                }
            }
            let ghost prev = self.outcomes@;
            let ghost start = pruned(self.initial@, self.devices@);
            self.outcomes.push(None);
            proof {
                assert forall|j: int| 0 <= j <= n implies #[trigger] marked(
                    start,
                    self.devices@,
                    self.outcomes@,
                    j as nat,
                ) == marked(start, self.devices@, prev, j as nat) by {
                    lemma_marked_prefix(start, self.devices@, self.outcomes@, prev, j as nat);
                }
                lemma_marked_prefix(start, self.devices@, self.outcomes@, prev, n as nat);
                assert(self.outcomes@.take(before.len() as int) =~= before);
            }
        }
        None
    }

    /// Records what the transport reported for the write handed out last,
    /// and marks the device applied unless the open or the write failed.
    pub fn record(&mut self, ex: Exchange) -> (o: ApplyOutcome)
        requires
            old(self).wf(),
            old(self).awaiting(),
        ensures
            final(self).wf(),
            !final(self).awaiting(),
            final(self).devices() == old(self).devices(),
            final(self).layout() == old(self).layout(),
            final(self).initial() == old(self).initial(),
            o == outcome_of(ex, old(self).layout()),
            final(self).outcomes() == old(self).outcomes().push(Some(o)),
            final(self).applied() == if is_applied_outcome(o) {
                old(self).applied().insert(key_of(old(self).devices()[old(self).outcomes().len() as int]))
            } else {
                old(self).applied()
            },
    {
        let n = self.outcomes.len();
        let o = interpret_exchange(ex, self.layout);
        if o.is_applied() {
            let key = self.devices[n].key();
            self.applied.insert(key);
        }
        let ghost prev = self.outcomes@;
        let ghost start = pruned(self.initial@, self.devices@);
        self.outcomes.push(Some(copy_outcome(&o)));
        self.awaiting = false;
        proof {
            assert forall|j: int| 0 <= j <= n implies #[trigger] marked(
                start,
                self.devices@,
                self.outcomes@,
                j as nat,
            ) == marked(start, self.devices@, prev, j as nat) by {
                lemma_marked_prefix(start, self.devices@, self.outcomes@, prev, j as nat);
            }
            lemma_marked_prefix(start, self.devices@, self.outcomes@, prev, n as nat);
            assert(self.outcomes@[n as int] == Some(o));
        }
        o
    }

    /// Ends the tick: the applied set and the outcome of each device.
    pub fn finish(self) -> (r: (AppliedKeys, Vec<Option<ApplyOutcome>>))
        requires
            self.wf(),
            !self.awaiting(),
            self.outcomes().len() == self.devices().len(),
        ensures
            r.0.wf(),
            r.1@ == self.outcomes(),
            tick_outcomes(self.initial(), self.devices(), r.1@),
            r.0@ == tick_result(self.initial(), self.devices(), r.1@),
    {
        (self.applied, self.outcomes)
    }
}

/// Seconds between two poll ticks.
pub const POLL_INTERVAL_SECS: u64 = 2;

/// What `Duration::from_secs` returns for a number of whole seconds.
pub uninterp spec fn duration_of_secs(secs: u64) -> Duration;

/// Relies on `Duration::from_secs`: the duration depends on the seconds alone.
pub assume_specification[ Duration::from_secs ](secs: u64) -> (d: Duration)
    ensures
        d == duration_of_secs(secs),
;

/// Poll interval for device detection.
pub fn poll_interval() -> (d: Duration)
    ensures
        d == duration_of_secs(POLL_INTERVAL_SECS),
{
    Duration::from_secs(POLL_INTERVAL_SECS)
}

} // verus!
