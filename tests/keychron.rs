use std::cell::RefCell;

use keyswitch::keychron::{
    current_keys, device_key, interpret_exchange, poll_interval, AppliedKeys, ApplyOutcome,
    DeviceInfo, Exchange, Tick, KEYCHRON_VID, POLL_INTERVAL_SECS, RAW_HID_USAGE_PAGE,
};
use keyswitch::via::{set_layout_options_report, Layout, RAW_EPSIZE};

#[test]
fn test_device_key_format() {
    assert_eq!(device_key(0x3434, 0x1234, None), "3434:1234:");
    assert_eq!(device_key(0x3434, 0x1234, Some("ABC")), "3434:1234:ABC");
    assert_eq!(device_key(0x0001, 0x0002, Some("")), "0001:0002:");
}

#[test]
fn test_device_key_keychron_vid() {
    assert!(device_key(KEYCHRON_VID, 0x1234, None).starts_with("3434:"));
}

#[test]
fn test_poll_interval() {
    let d = poll_interval();
    assert_eq!(d.as_secs(), 2);
}

#[test]
fn test_send_layout_uses_via_report() {
    let report = set_layout_options_report(Layout::Mac);
    assert_eq!(report.len(), RAW_EPSIZE);
    assert_eq!(report[0], 0x00);
    assert_eq!(report[1], 0x03);
    assert_eq!(report[2], 0x02);
    assert_eq!(report[6], 1);
}

#[test]
fn device_key_hex_digits() {
    assert_eq!(device_key(0xABCD, 0xEF09, Some("x:y")), "abcd:ef09:x:y");
    assert_eq!(device_key(0, 0xFFFF, None), "0000:ffff:");
    assert_eq!(POLL_INTERVAL_SECS, 2);
}

/// Runs one tick through `transport`, the way the daemon does.
fn run_tick(
    devices: &Vec<DeviceInfo>,
    layout: Layout,
    applied: &mut AppliedKeys,
    transport: &impl Fn(usize, [u8; 32]) -> Exchange,
) -> Vec<Option<ApplyOutcome>> {
    let start = std::mem::replace(applied, AppliedKeys::new());
    let mut tick = Tick::begin(devices.clone(), layout, start);
    while let Some((index, report)) = tick.next_write() {
        tick.record(transport(index, report));
    }
    let (after, outcomes) = tick.finish();
    *applied = after;
    outcomes
}

fn keychron(pid: u16, serial: Option<&str>) -> DeviceInfo {
    DeviceInfo {
        vendor_id: KEYCHRON_VID,
        product_id: pid,
        usage_page: RAW_HID_USAGE_PAGE,
        serial_number: serial.map(|s| s.to_string()),
    }
}

fn other(vid: u16, usage_page: u16) -> DeviceInfo {
    DeviceInfo { vendor_id: vid, product_id: 0x0001, usage_page, serial_number: None }
}

/// A transport that echoes every report it is given and logs the device index.
struct EchoTransport {
    writes: RefCell<Vec<usize>>,
}

impl EchoTransport {
    fn new() -> Self {
        EchoTransport { writes: RefCell::new(Vec::new()) }
    }

    fn call(&self, index: usize, report: [u8; 32]) -> Exchange {
        self.writes.borrow_mut().push(index);
        Exchange::Written { written: report.len(), echo: report.to_vec() }
    }

    fn take(&self) -> Vec<usize> {
        std::mem::take(&mut *self.writes.borrow_mut())
    }
}

#[test]
fn interpret_each_exchange() {
    let mac = set_layout_options_report(Layout::Mac).to_vec();
    assert!(matches!(
        interpret_exchange(Exchange::Written { written: 32, echo: mac.clone() }, Layout::Mac),
        ApplyOutcome::Confirmed
    ));
    assert!(matches!(
        interpret_exchange(Exchange::Written { written: 32, echo: mac }, Layout::Windows),
        ApplyOutcome::Mismatch(Some(Layout::Mac))
    ));
    assert!(matches!(
        interpret_exchange(Exchange::Written { written: 32, echo: vec![0, 3, 2] }, Layout::Mac),
        ApplyOutcome::Mismatch(None)
    ));
    assert!(matches!(
        interpret_exchange(Exchange::Written { written: 32, echo: vec![] }, Layout::Mac),
        ApplyOutcome::NoEcho
    ));
    assert!(matches!(
        interpret_exchange(Exchange::Written { written: 5, echo: vec![] }, Layout::Mac),
        ApplyOutcome::ShortWrite { written: 5 }
    ));
    assert!(matches!(
        interpret_exchange(Exchange::WriteFailed("io".to_string()), Layout::Mac),
        ApplyOutcome::WriteFailed(_)
    ));
    assert!(matches!(
        interpret_exchange(Exchange::OpenFailed("busy".to_string()), Layout::Mac),
        ApplyOutcome::OpenFailed(_)
    ));
}

#[test]
fn next_write_hands_out_the_set_report_once_per_device() {
    let devices = vec![keychron(1, None), other(0x046d, 0xFF60), keychron(2, None)];
    let mut tick = Tick::begin(devices, Layout::Windows, AppliedKeys::new());
    let report = set_layout_options_report(Layout::Windows);
    assert_eq!(tick.next_write(), Some((0, report)));
    assert!(matches!(tick.record(Exchange::Written { written: 32, echo: vec![] }), ApplyOutcome::NoEcho));
    assert_eq!(tick.next_write(), Some((2, report)));
    assert!(matches!(tick.record(Exchange::OpenFailed("gone".to_string())), ApplyOutcome::OpenFailed(_)));
    assert_eq!(tick.next_write(), None);
    let (applied, outcomes) = tick.finish();
    assert_eq!(applied.len(), 1);
    assert!(applied.contains(&device_key(KEYCHRON_VID, 1, None)));
    assert!(outcomes[1].is_none());
}

#[test]
fn applied_keys_operations() {
    let mut a = AppliedKeys::new();
    assert_eq!(a.len(), 0);
    a.insert("k1".to_string());
    a.insert("k1".to_string());
    a.insert("k2".to_string());
    assert_eq!(a.len(), 2);
    assert!(a.contains(&"k1".to_string()));
    a.retain_present(&vec!["k2".to_string(), "k3".to_string()]);
    assert_eq!(a.len(), 1);
    assert!(!a.contains(&"k1".to_string()));
    assert!(a.contains(&"k2".to_string()));
}

#[test]
fn current_keys_only_targets() {
    let devices = vec![
        keychron(0x0a01, Some("S1")),
        other(0x046d, RAW_HID_USAGE_PAGE),
        other(KEYCHRON_VID, 0x0001),
    ];
    assert_eq!(current_keys(&devices), vec!["3434:0a01:S1".to_string()]);
}

#[test]
fn end_to_end_connect_stay_leave_return() {
    let t = EchoTransport::new();
    let transport = |i: usize, r: [u8; 32]| t.call(i, r);
    let mut applied = AppliedKeys::new();
    let a = keychron(0x0a50, Some("A"));
    let key_a = device_key(KEYCHRON_VID, 0x0a50, Some("A"));

    // Tick 1: A appears and is written once.
    let out = run_tick(&vec![a.clone()], Layout::Mac, &mut applied, &transport);
    assert_eq!(t.take(), vec![0]);
    assert!(matches!(out[0], Some(ApplyOutcome::Confirmed)));
    assert!(applied.contains(&key_a));

    // Tick 2: A still there, nothing written.
    let out = run_tick(&vec![a.clone()], Layout::Mac, &mut applied, &transport);
    assert!(t.take().is_empty());
    assert!(out[0].is_none());

    // Tick 3: A gone, key dropped, nothing written.
    run_tick(&vec![], Layout::Mac, &mut applied, &transport);
    assert!(t.take().is_empty());
    assert!(!applied.contains(&key_a));
    assert_eq!(applied.len(), 0);

    // Tick 4: A back, written exactly once again.
    run_tick(&vec![a], Layout::Mac, &mut applied, &transport);
    assert_eq!(t.take(), vec![0]);
    assert!(applied.contains(&key_a));
}

#[test]
fn repeat_tick_writes_nothing() {
    let t = EchoTransport::new();
    let transport = |i: usize, r: [u8; 32]| t.call(i, r);
    let mut applied = AppliedKeys::new();
    let devices = vec![keychron(1, Some("x")), other(0x046d, 0xFF60), keychron(2, None)];
    run_tick(&devices, Layout::Windows, &mut applied, &transport);
    assert_eq!(t.take(), vec![0, 2]);
    let out = run_tick(&devices, Layout::Windows, &mut applied, &transport);
    assert!(t.take().is_empty());
    assert!(out.iter().all(|o| o.is_none()));
    assert_eq!(applied.len(), 2);
}

#[test]
fn absent_key_is_pruned_and_others_kept() {
    let t = EchoTransport::new();
    let transport = |i: usize, r: [u8; 32]| t.call(i, r);
    let mut applied = AppliedKeys::new();
    let a = keychron(1, Some("a"));
    let b = keychron(2, Some("b"));
    run_tick(&vec![a.clone(), b.clone()], Layout::Mac, &mut applied, &transport);
    assert_eq!(t.take(), vec![0, 1]);
    run_tick(&vec![b], Layout::Mac, &mut applied, &transport);
    assert!(t.take().is_empty());
    assert!(!applied.contains(&device_key(KEYCHRON_VID, 1, Some("a"))));
    assert!(applied.contains(&device_key(KEYCHRON_VID, 2, Some("b"))));
}

#[test]
fn failed_write_is_retried_next_tick() {
    let calls = RefCell::new(0usize);
    let failing = |_i: usize, _r: [u8; 32]| {
        *calls.borrow_mut() += 1;
        Exchange::WriteFailed("pipe".to_string())
    };
    let mut applied = AppliedKeys::new();
    let devices = vec![keychron(7, None)];
    let out = run_tick(&devices, Layout::Mac, &mut applied, &failing);
    assert!(matches!(out[0], Some(ApplyOutcome::WriteFailed(_))));
    assert_eq!(applied.len(), 0);
    run_tick(&devices, Layout::Mac, &mut applied, &failing);
    assert_eq!(*calls.borrow(), 2);
}

#[test]
fn open_failure_and_short_write_stay_unapplied() {
    let mut applied = AppliedKeys::new();
    let devices = vec![keychron(7, None), keychron(8, None)];
    let transport = |i: usize, _r: [u8; 32]| {
        if i == 0 {
            Exchange::OpenFailed("denied".to_string())
        } else {
            Exchange::Written { written: 31, echo: vec![] }
        }
    };
    let out = run_tick(&devices, Layout::Mac, &mut applied, &transport);
    assert!(matches!(out[0], Some(ApplyOutcome::OpenFailed(_))));
    assert!(matches!(out[1], Some(ApplyOutcome::ShortWrite { written: 31 })));
    assert_eq!(applied.len(), 0);
}

#[test]
fn mismatch_and_silence_still_count_as_applied() {
    let mut applied = AppliedKeys::new();
    let devices = vec![keychron(7, None), keychron(8, None)];
    let transport = |i: usize, _r: [u8; 32]| {
        if i == 0 {
            Exchange::Written { written: 32, echo: set_layout_options_report(Layout::Windows).to_vec() }
        } else {
            Exchange::Written { written: 32, echo: vec![] }
        }
    };
    let out = run_tick(&devices, Layout::Mac, &mut applied, &transport);
    assert!(matches!(out[0], Some(ApplyOutcome::Mismatch(Some(Layout::Windows)))));
    assert!(matches!(out[1], Some(ApplyOutcome::NoEcho)));
    assert_eq!(applied.len(), 2);
}

#[test]
fn same_key_twice_in_one_tick_written_once() {
    let t = EchoTransport::new();
    let transport = |i: usize, r: [u8; 32]| t.call(i, r);
    let mut applied = AppliedKeys::new();
    let devices = vec![keychron(5, None), keychron(5, None)];
    let out = run_tick(&devices, Layout::Mac, &mut applied, &transport);
    assert_eq!(t.take(), vec![0]);
    assert!(out[1].is_none());
    assert_eq!(applied.len(), 1);
}

#[test]
fn non_target_devices_are_never_written() {
    let t = EchoTransport::new();
    let transport = |i: usize, r: [u8; 32]| t.call(i, r);
    let mut applied = AppliedKeys::new();
    let devices = vec![other(0x046d, RAW_HID_USAGE_PAGE), other(KEYCHRON_VID, 0x0001)];
    let out = run_tick(&devices, Layout::Mac, &mut applied, &transport);
    assert!(t.take().is_empty());
    assert_eq!(out.len(), 2);
    assert_eq!(applied.len(), 0);
}
