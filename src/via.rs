//! Minimal VIA Raw HID protocol for QMK keyboards.
//! Report format: 32 bytes; first byte 0x00 (command start), then command id + payload.

use vstd::prelude::*;

verus! {

/// Size of a Raw HID report, in bytes.
pub const RAW_EPSIZE: usize = 32;

/// Marker in byte 0 of every command.
pub const COMMAND_START: u8 = 0x00;

/// VIA command id "set keyboard value".
pub const ID_SET_KEYBOARD_VALUE: u8 = 0x03;

/// VIA command id "get keyboard value".
pub const ID_GET_KEYBOARD_VALUE: u8 = 0x02;

/// VIA value id "layout options".
pub const ID_LAYOUT_OPTIONS: u8 = 0x02;

/// Position of the payload's least significant byte.
pub const VALUE_LSB: usize = 6;

/// Layout option value: 0 = Windows, 1 = Mac (Keychron convention).
#[derive(Clone, Copy, Debug, PartialEq, Eq, Structural)]
pub enum Layout {
    Windows,
    Mac,
}

/// The firmware's numeric encoding of a layout.
pub open spec fn layout_code(layout: Layout) -> u8 {
    match layout {
        Layout::Windows => 0,
        Layout::Mac => 1,
    }
}

/// The layout that a payload byte encodes, if any.
pub open spec fn layout_of_code(b: u8) -> Option<Layout> {
    if b == 0 {
        Some(Layout::Windows)
    } else if b == 1 {
        Some(Layout::Mac)
    } else {
        None
    }
}

/// A layout-options report: header bytes, then the big-endian 32-bit value
/// in bytes 3..=6, of which only the low byte can be non-zero here.
pub open spec fn layout_report(command_id: u8, value: u8) -> Seq<u8> {
    Seq::new(
        RAW_EPSIZE as nat,
        |i: int|
            if i == 0 {
                COMMAND_START
            } else if i == 1 {
                command_id
            } else if i == 2 {
                ID_LAYOUT_OPTIONS
            } else if i == VALUE_LSB {
                value
            } else {
                0u8
            },
    )
}

/// What a response buffer confirms: the layout in byte 6, when the buffer
/// reaches that far and the byte is a known code.
pub open spec fn confirmed_layout(response: Seq<u8>) -> Option<Layout> {
    if response.len() > VALUE_LSB {
        layout_of_code(response[VALUE_LSB as int])
    } else {
        None
    }
}

impl Layout {
    /// The numeric value sent to the firmware.
    pub fn code(self) -> (r: u8)
        ensures
            r == layout_code(self),
    {
        match self {
            Layout::Windows => 0,
            Layout::Mac => 1,
        }
    }
}

/// Builds the 32-byte Raw HID report to set layout options (Mac/Windows).
/// Value is 32-bit in protocol; only the LSB is used (0 = Windows, 1 = Mac).
pub fn set_layout_options_report(layout: Layout) -> (report: [u8; RAW_EPSIZE])
    ensures
        report@ == layout_report(ID_SET_KEYBOARD_VALUE, layout_code(layout)),
{
    let mut report = [0u8; RAW_EPSIZE];
    report[0] = COMMAND_START;
    report[1] = ID_SET_KEYBOARD_VALUE;
    report[2] = ID_LAYOUT_OPTIONS;
    report[VALUE_LSB] = layout.code();
    assert(report@ =~= layout_report(ID_SET_KEYBOARD_VALUE, layout_code(layout)));
    report
}

/// Builds the 32-byte Raw HID report to get layout options (for discovery/debug).
pub fn get_layout_options_report() -> (report: [u8; RAW_EPSIZE])
    ensures
        report@ == layout_report(ID_GET_KEYBOARD_VALUE, 0),
{
    let mut report = [0u8; RAW_EPSIZE];
    report[0] = COMMAND_START;
    report[1] = ID_GET_KEYBOARD_VALUE;
    report[2] = ID_LAYOUT_OPTIONS;
    assert(report@ =~= layout_report(ID_GET_KEYBOARD_VALUE, 0));
    report
}

/// Reads the layout that an echoed SET report confirms. A buffer too short
/// to hold the value, or an unknown value, confirms nothing.
pub fn parse_layout_options_response(response: &[u8]) -> (r: Option<Layout>)
    ensures
        r == confirmed_layout(response@),
{
    if response.len() <= VALUE_LSB {
        None
    } else {
        let b = response[VALUE_LSB];
        if b == 0 {
            Some(Layout::Windows)
        } else if b == 1 {
            Some(Layout::Mac)
        } else {
            None
        }
    }
}

} // verus!
