//! HID keyboard wedge: maps barcode bytes to USB HID boot keyboard reports.
//!
//! Each mappable byte becomes a key press report followed by a release
//! report; a configurable terminator key (Enter, Tab or none) follows the
//! data. Key codes are those of the Keyboard/Keypad usage page (0x07) of the
//! USB HID Usage Tables; the report is the 8-byte boot keyboard report of
//! USB HID 1.11, Appendix B. Bytes outside printable ASCII (0x20..=0x7E) are
//! skipped. The layout is US English (QWERTY).

use vstd::prelude::*;

verus! {

/// USB HID boot keyboard report: modifier byte, reserved byte, one key code.
#[derive(Debug, Clone, Copy, PartialEq, Eq, Structural)]
pub struct HidKeyboardReport {
    /// Modifier key bitmask (bit 1: Left Shift).
    pub modifier: u8,
    /// Reserved, always 0.
    pub reserved: u8,
    /// Key code of the Keyboard/Keypad page; 0 = no key.
    pub keycode: u8,
}

/// The report with no key pressed.
pub open spec fn release_report() -> HidKeyboardReport {
    HidKeyboardReport { modifier: 0, reserved: 0, keycode: 0 }
}

/// The report that presses one key.
pub open spec fn press_report(modifier: u8, keycode: u8) -> HidKeyboardReport {
    HidKeyboardReport { modifier: modifier, reserved: 0, keycode: keycode }
}

impl HidKeyboardReport {
    /// The 8-byte boot keyboard report: modifier, reserved, key code, then
    /// five unused key slots.
    pub fn as_bytes(&self) -> (b: [u8; 8])
        ensures
            b@ == seq![self.modifier, self.reserved, self.keycode, 0u8, 0u8, 0u8, 0u8, 0u8],
    {
        let b = [self.modifier, self.reserved, self.keycode, 0x00, 0x00, 0x00, 0x00, 0x00];
        proof {
            assert(b@ =~= seq![self.modifier, self.reserved, self.keycode, 0u8, 0u8, 0u8, 0u8, 0u8]);
        }
        b
    }

    /// The "no keys pressed" report.
    pub fn release() -> (r: Self)
        ensures
            r == release_report(),
    {
        HidKeyboardReport { modifier: 0, reserved: 0, keycode: 0 }
    }

    /// A key press report.
    pub fn press(modifier: u8, keycode: u8) -> (r: Self)
        ensures
            r == press_report(modifier, keycode),
    {
        HidKeyboardReport { modifier, reserved: 0, keycode }
    }
}

/// Left Shift modifier bit.
pub const MOD_LEFT_SHIFT: u8 = 0x02;

/// Key code of Enter.
pub const KEY_ENTER: u8 = 0x28;

/// Key code of Tab.
pub const KEY_TAB: u8 = 0x2B;

/// Report descriptor of a boot-protocol keyboard (HID 1.11 appendix B.1):
/// eight modifier bits, a reserved byte, five LED outputs with padding, and
/// six key codes.
pub const BOOT_KEYBOARD_REPORT_DESCRIPTOR: [u8; 63] = [
    0x05, 0x01, // Usage Page (Generic Desktop)
    0x09, 0x06, // Usage (Keyboard)
    0xA1, 0x01, // Collection (Application)
    0x05, 0x07, //   Usage Page (Keyboard/Keypad)
    0x19, 0xE0, //   Usage Minimum (Left Control)
    0x29, 0xE7, //   Usage Maximum (Right GUI)
    0x15, 0x00, //   Logical Minimum (0)
    0x25, 0x01, //   Logical Maximum (1)
    0x75, 0x01, //   Report Size (1)
    0x95, 0x08, //   Report Count (8)
    0x81, 0x02, //   Input (Data, Variable, Absolute)
    0x95, 0x01, //   Report Count (1)
    0x75, 0x08, //   Report Size (8)
    0x81, 0x01, //   Input (Constant)
    0x95, 0x05, //   Report Count (5)
    0x75, 0x01, //   Report Size (1)
    0x05, 0x08, //   Usage Page (LEDs)
    0x19, 0x01, //   Usage Minimum (Num Lock)
    0x29, 0x05, //   Usage Maximum (Kana)
    0x91, 0x02, //   Output (Data, Variable, Absolute)
    0x95, 0x01, //   Report Count (1)
    0x75, 0x03, //   Report Size (3)
    0x91, 0x01, //   Output (Constant), padding
    0x95, 0x06, //   Report Count (6)
    0x75, 0x08, //   Report Size (8)
    0x15, 0x00, //   Logical Minimum (0)
    0x25, 0x65, //   Logical Maximum (101)
    0x05, 0x07, //   Usage Page (Keyboard/Keypad)
    0x19, 0x00, //   Usage Minimum (0)
    0x29, 0x65, //   Usage Maximum (101)
    0x81, 0x00, //   Input (Data, Array)
    0xC0, // End Collection
];

/// Key sent after the barcode data.
#[derive(Debug, Clone, Copy, PartialEq, Eq, Structural)]
pub enum Terminator {
    /// Enter after the data (the common point-of-sale default).
    Enter,
    /// Tab after the data (multi-field forms).
    Tab,
    /// No terminator key.
    NoKey,
}

/// The key code of a terminator, if any.
pub open spec fn terminator_key(t: Terminator) -> Option<u8> {
    match t {
        Terminator::Enter => Some(KEY_ENTER),
        Terminator::Tab => Some(KEY_TAB),
        Terminator::NoKey => Option::None,
    }
}

impl Terminator {
    /// The HID key code of this terminator, if any.
    pub fn keycode(&self) -> (k: Option<u8>)
        ensures
            k == terminator_key(*self),
    {
        match self {
            Terminator::Enter => Some(KEY_ENTER),
            Terminator::Tab => Some(KEY_TAB),
            Terminator::NoKey => Option::None,
        }
    }
}

/// Mapping of one ASCII character to a key code and Shift state.
#[derive(Debug, Clone, Copy, PartialEq, Eq, Structural)]
pub struct KeyMapping {
    /// Key code (0 = unmapped).
    pub keycode: u8,
    /// Whether Left Shift is needed.
    pub shifted: bool,
}

impl KeyMapping {
    /// A key mapping.
    pub fn new(keycode: u8, shifted: bool) -> (m: Self)
        ensures
            m == (KeyMapping { keycode, shifted }),
    {
        KeyMapping { keycode, shifted }
    }

    /// The unmapped entry.
    pub fn none() -> (m: Self)
        ensures
            m == (KeyMapping { keycode: 0, shifted: false }),
    {
        KeyMapping { keycode: 0, shifted: false }
    }
}

/// A keyboard layout: key mapping per ASCII value 0x00..=0x7F.
pub type KeyboardLayout = [KeyMapping; 128];

/// The US English (QWERTY) mapping of an ASCII value: letters use key codes
/// 0x04..=0x1D (uppercase with Shift), digits 1..9 use 0x1E..=0x26 and 0 uses
/// 0x27, the symbols below use their US keys; everything else is unmapped.
pub open spec fn us_english_entry(c: int) -> KeyMapping {
    if 0x41 <= c <= 0x5A {
        KeyMapping { keycode: (c - 0x41 + 0x04) as u8, shifted: true }
    } else if 0x61 <= c <= 0x7A {
        KeyMapping { keycode: (c - 0x61 + 0x04) as u8, shifted: false }
    } else if 0x31 <= c <= 0x39 {
        KeyMapping { keycode: (c - 0x31 + 0x1E) as u8, shifted: false }
    } else if c == 0x30 {
        KeyMapping { keycode: 0x27, shifted: false }
    } else {
        if c == 0x20 {
            KeyMapping { keycode: 0x2C, shifted: false } // ' '
        } else if c == 0x21 {
            KeyMapping { keycode: 0x1E, shifted: true } // '!'
        } else if c == 0x22 {
            KeyMapping { keycode: 0x34, shifted: true } // '"'
        } else if c == 0x23 {
            KeyMapping { keycode: 0x20, shifted: true } // '#'
        } else if c == 0x24 {
            KeyMapping { keycode: 0x21, shifted: true } // '$'
        } else if c == 0x25 {
            KeyMapping { keycode: 0x22, shifted: true } // '%'
        } else if c == 0x26 {
            KeyMapping { keycode: 0x24, shifted: true } // '&'
        } else if c == 0x27 {
            KeyMapping { keycode: 0x34, shifted: false } // '\''
        } else if c == 0x28 {
            KeyMapping { keycode: 0x26, shifted: true } // '('
        } else if c == 0x29 {
            KeyMapping { keycode: 0x27, shifted: true } // ')'
        } else if c == 0x2A {
            KeyMapping { keycode: 0x25, shifted: true } // '*'
        } else if c == 0x2B {
            KeyMapping { keycode: 0x2E, shifted: true } // '+'
        } else if c == 0x2C {
            KeyMapping { keycode: 0x36, shifted: false } // ','
        } else if c == 0x2D {
            KeyMapping { keycode: 0x2D, shifted: false } // '-'
        } else if c == 0x2E {
            KeyMapping { keycode: 0x37, shifted: false } // '.'
        } else if c == 0x2F {
            KeyMapping { keycode: 0x38, shifted: false } // '/'
        } else if c == 0x3A {
            KeyMapping { keycode: 0x33, shifted: true } // ':'
        } else if c == 0x3B {
            KeyMapping { keycode: 0x33, shifted: false } // ';'
        } else if c == 0x3C {
            KeyMapping { keycode: 0x36, shifted: true } // '<'
        } else if c == 0x3D {
            KeyMapping { keycode: 0x2E, shifted: false } // '='
        } else if c == 0x3E {
            KeyMapping { keycode: 0x37, shifted: true } // '>'
        } else if c == 0x3F {
            KeyMapping { keycode: 0x38, shifted: true } // '?'
        } else if c == 0x40 {
            KeyMapping { keycode: 0x1F, shifted: true } // '@'
        } else if c == 0x5B {
            KeyMapping { keycode: 0x2F, shifted: false } // '['
        } else if c == 0x5C {
            KeyMapping { keycode: 0x31, shifted: false } // '\\'
        } else if c == 0x5D {
            KeyMapping { keycode: 0x30, shifted: false } // ']'
        } else if c == 0x5E {
            KeyMapping { keycode: 0x23, shifted: true } // '^'
        } else if c == 0x5F {
            KeyMapping { keycode: 0x2D, shifted: true } // '_'
        } else if c == 0x60 {
            KeyMapping { keycode: 0x35, shifted: false } // '`'
        } else if c == 0x7B {
            KeyMapping { keycode: 0x2F, shifted: true } // '{'
        } else if c == 0x7C {
            KeyMapping { keycode: 0x31, shifted: true } // '|'
        } else if c == 0x7D {
            KeyMapping { keycode: 0x30, shifted: true } // '}'
        } else if c == 0x7E {
            KeyMapping { keycode: 0x35, shifted: true } // '~'
        } else {
            KeyMapping { keycode: 0, shifted: false }
        }
    }
}

/// The two characters a key of a US QWERTY keyboard types, without and with
/// Shift, by the key's HID usage (keyboard page); `None` for keys that type
/// no printable character.
pub open spec fn us_key_legend(keycode: u8) -> Option<(char, char)> {
    if 0x04 <= keycode <= 0x1D {
        Some((((keycode - 0x04) + 0x61) as char, ((keycode - 0x04) + 0x41) as char))
    } else {
        match keycode {
            0x1E => Some(('1', '!')),
            0x1F => Some(('2', '@')),
            0x20 => Some(('3', '#')),
            0x21 => Some(('4', '$')),
            0x22 => Some(('5', '%')),
            0x23 => Some(('6', '^')),
            0x24 => Some(('7', '&')),
            0x25 => Some(('8', '*')),
            0x26 => Some(('9', '(')),
            0x27 => Some(('0', ')')),
            0x2C => Some((' ', ' ')),
            0x2D => Some(('-', '_')),
            0x2E => Some(('=', '+')),
            0x2F => Some(('[', '{')),
            0x30 => Some((']', '}')),
            0x31 => Some(('\\', '|')),
            0x33 => Some((';', ':')),
            0x34 => Some(('\'', '"')),
            0x35 => Some(('`', '~')),
            0x36 => Some((',', '<')),
            0x37 => Some(('.', '>')),
            0x38 => Some(('/', '?')),
            _ => None,
        }
    }
}

/// The character a US QWERTY host types for a key press with or without
/// Shift.
pub open spec fn us_host_types(m: KeyMapping) -> Option<char> {
    match us_key_legend(m.keycode) {
        Some((plain, shifted)) => Some(
            if m.shifted {
                shifted
            } else {
                plain
            },
        ),
        None => None,
    }
}

/// The US layout types what it is given: for every printable ASCII
/// character, the key press it maps to is decoded by a US QWERTY host back
/// to that same character (so distinct characters get distinct presses,
/// and '-' is the unshifted key whose Shift gives '_'); control characters
/// and DEL have no key.
pub proof fn lemma_us_english_types_back()
    ensures
        forall|c: int|
            0x20 <= c <= 0x7E ==> us_host_types(#[trigger] us_english_entry(c)) == Some(c as char),
        forall|c: int| (0 <= c < 0x20 || c == 0x7F) ==> (#[trigger] us_english_entry(c)).keycode == 0,
{
    assert forall|c: int| 0x20 <= c <= 0x7E implies us_host_types(#[trigger] us_english_entry(c))
        == Some(c as char) by {
        if 0x41 <= c <= 0x5A {
        } else if 0x61 <= c <= 0x7A {
        } else {
        }
    }
}

/// The US English (QWERTY) layout covering printable ASCII.
pub fn us_english() -> (layout: KeyboardLayout)
    ensures
        forall|i: int| 0 <= i < 128 ==> #[trigger] layout@[i] == us_english_entry(i),
{
    let mut layout = [KeyMapping { keycode: 0, shifted: false }; 128];
    let mut c: usize = 0x41;
    while c <= 0x5A
        invariant
            0x41 <= c <= 0x5B,
            forall|i: int| 0 <= i < 128 ==> #[trigger] layout@[i] == (if (0x41 <= i < c) || (0x61 <= i
                < c + 0x20) {
                us_english_entry(i)
            } else {
                KeyMapping { keycode: 0, shifted: false }
            }),
        decreases 0x5B - c,
    {
        let code = (c - 0x41 + 0x04) as u8;
        layout[c] = KeyMapping::new(code, true);
        layout[c + 0x20] = KeyMapping::new(code, false);
        c += 1;
    }
    let mut d: usize = 0x31;
    while d <= 0x39
        invariant
            0x31 <= d <= 0x3A,
            forall|i: int| 0 <= i < 128 ==> #[trigger] layout@[i] == (if (0x41 <= i <= 0x5A) || (0x61
                <= i <= 0x7A) || (0x31 <= i < d) {
                us_english_entry(i)
            } else {
                KeyMapping { keycode: 0, shifted: false }
            }),
        decreases 0x3A - d,
    {
        layout[d] = KeyMapping::new((d - 0x31 + 0x1E) as u8, false);
        d += 1;
    }
    layout[0x30] = KeyMapping::new(0x27, false); // '0'
    layout[0x20] = KeyMapping::new(0x2C, false); // ' '
    layout[0x21] = KeyMapping::new(0x1E, true); // '!'
    layout[0x22] = KeyMapping::new(0x34, true); // '"'
    layout[0x23] = KeyMapping::new(0x20, true); // '#'
    layout[0x24] = KeyMapping::new(0x21, true); // '$'
    layout[0x25] = KeyMapping::new(0x22, true); // '%'
    layout[0x26] = KeyMapping::new(0x24, true); // '&'
    layout[0x27] = KeyMapping::new(0x34, false); // '\''
    layout[0x28] = KeyMapping::new(0x26, true); // '('
    layout[0x29] = KeyMapping::new(0x27, true); // ')'
    layout[0x2A] = KeyMapping::new(0x25, true); // '*'
    layout[0x2B] = KeyMapping::new(0x2E, true); // '+'
    layout[0x2C] = KeyMapping::new(0x36, false); // ','
    layout[0x2D] = KeyMapping::new(0x2D, false); // '-'
    layout[0x2E] = KeyMapping::new(0x37, false); // '.'
    layout[0x2F] = KeyMapping::new(0x38, false); // '/'
    layout[0x3A] = KeyMapping::new(0x33, true); // ':'
    layout[0x3B] = KeyMapping::new(0x33, false); // ';'
    layout[0x3C] = KeyMapping::new(0x36, true); // '<'
    layout[0x3D] = KeyMapping::new(0x2E, false); // '='
    layout[0x3E] = KeyMapping::new(0x37, true); // '>'
    layout[0x3F] = KeyMapping::new(0x38, true); // '?'
    layout[0x40] = KeyMapping::new(0x1F, true); // '@'
    layout[0x5B] = KeyMapping::new(0x2F, false); // '['
    layout[0x5C] = KeyMapping::new(0x31, false); // '\\'
    layout[0x5D] = KeyMapping::new(0x30, false); // ']'
    layout[0x5E] = KeyMapping::new(0x23, true); // '^'
    layout[0x5F] = KeyMapping::new(0x2D, true); // '_'
    layout[0x60] = KeyMapping::new(0x35, false); // '`'
    layout[0x7B] = KeyMapping::new(0x2F, true); // '{'
    layout[0x7C] = KeyMapping::new(0x31, true); // '|'
    layout[0x7D] = KeyMapping::new(0x30, true); // '}'
    layout[0x7E] = KeyMapping::new(0x35, true); // '~'
    proof {
        assert forall|i: int| 0 <= i < 128 implies #[trigger] layout@[i] == us_english_entry(i) by {
        }
    }
    layout
}

/// True when a byte has a key in the layout: printable ASCII (0x20 to 0x7E)
/// with a non-zero key code.
pub open spec fn mappable(layout: Seq<KeyMapping>, b: u8) -> bool {
    0x20 <= b <= 0x7E && layout[b as int].keycode != 0
}

/// The press report of a mappable byte.
pub open spec fn press_of(layout: Seq<KeyMapping>, b: u8) -> HidKeyboardReport {
    press_report(
        if layout[b as int].shifted {
            MOD_LEFT_SHIFT
        } else {
            0
        },
        layout[b as int].keycode,
    )
}

/// Press and release reports for each mappable byte, in order.
pub open spec fn char_reports(layout: Seq<KeyMapping>, data: Seq<u8>) -> Seq<HidKeyboardReport>
    decreases data.len(),
{
    if data.len() == 0 {
        Seq::empty()
    } else {
        (if mappable(layout, data[0]) {
            seq![press_of(layout, data[0]), release_report()]
        } else {
            Seq::empty()
        }) + char_reports(layout, data.drop_first())
    }
}

/// The terminator press and release, if a terminator is set.
pub open spec fn terminator_reports(t: Terminator) -> Seq<HidKeyboardReport> {
    match terminator_key(t) {
        Some(k) => seq![press_report(0, k), release_report()],
        None => Seq::empty(),
    }
}

/// Every report generated for `data`.
pub open spec fn all_reports(layout: Seq<KeyMapping>, t: Terminator, data: Seq<u8>) -> Seq<
    HidKeyboardReport,
> {
    char_reports(layout, data) + terminator_reports(t)
}

/// Number of mappable bytes.
pub open spec fn count_mappable(layout: Seq<KeyMapping>, data: Seq<u8>) -> nat
    decreases data.len(),
{
    if data.len() == 0 {
        0
    } else {
        (if mappable(layout, data[0]) {
            1nat
        } else {
            0nat
        }) + count_mappable(layout, data.drop_first())
    }
}

/// Two reports per mappable byte.
pub proof fn lemma_char_reports_len(layout: Seq<KeyMapping>, data: Seq<u8>)
    ensures
        char_reports(layout, data).len() == 2 * count_mappable(layout, data),
    decreases data.len(),
{
    if data.len() > 0 {
        lemma_char_reports_len(layout, data.drop_first());
    }
}

/// Converts byte sequences to keyboard reports.
pub struct KeyMapper<'a> {
    layout: &'a KeyboardLayout,
    terminator: Terminator,
}

impl<'a> KeyMapper<'a> {
    /// The layout table.
    pub closed spec fn layout_of(&self) -> Seq<KeyMapping> {
        self.layout@
    }

    /// The terminator key.
    pub closed spec fn terminator_of(&self) -> Terminator {
        self.terminator
    }

    /// A mapper with the given layout and terminator.
    pub fn new(layout: &'a KeyboardLayout, terminator: Terminator) -> (m: Self)
        ensures
            m.layout_of() == layout@,
            m.terminator_of() == terminator,
    {
        KeyMapper { layout, terminator }
    }

    /// Whether a byte can be mapped: printable ASCII (0x20 to 0x7E) with a
    /// non-zero key code.
    pub fn is_mappable(&self, byte: u8) -> (r: bool)
        ensures
            r == mappable(self.layout_of(), byte),
    {
        0x20 <= byte && byte <= 0x7E && self.layout[byte as usize].keycode != 0
    }

    /// The key press report of a byte, if it is mappable.
    pub fn map_byte(&self, byte: u8) -> (r: Option<HidKeyboardReport>)
        ensures
            r == (if mappable(self.layout_of(), byte) {
                Some(press_of(self.layout_of(), byte))
            } else {
                None
            }),
    {
        if !self.is_mappable(byte) {
            return None;
        }
        let mapping = self.layout[byte as usize];
        let modifier = if mapping.shifted {
            MOD_LEFT_SHIFT
        } else {
            0
        };
        Some(HidKeyboardReport::press(modifier, mapping.keycode))
    }

    /// The reports for `data`: press and release per mappable byte, then the
    /// terminator press and release if one is set.
    pub fn map_to_reports<'b>(&'b self, data: &'b [u8]) -> (it: ReportIterator<'b, 'a>)
        ensures
            it.remaining() == all_reports(self.layout_of(), self.terminator_of(), data@),
            it.wf(),
    {
        let it = ReportIterator { mapper: self, data, pos: 0, state: ReportState::NextChar };
        proof {
            assert(data@.subrange(0, data@.len() as int) =~= data@);
        }
        it
    }

    /// Number of reports `map_to_reports` generates for `data`.
    pub fn report_count(&self, data: &[u8]) -> (n: usize)
        requires
            data@.len() < usize::MAX / 2,
        ensures
            n == all_reports(self.layout_of(), self.terminator_of(), data@).len(),
    {
        let mut count: usize = 0;
        let mut i: usize = 0;
        proof {
            assert(data@.subrange(0, data@.len() as int) =~= data@);
        }
        while i < data.len()
            invariant
                i <= data.len(),
                data@.len() < usize::MAX / 2,
                count <= i,
                count + count_mappable(self.layout_of(), data@.subrange(i as int, data@.len() as int))
                    == count_mappable(self.layout_of(), data@),
            decreases data.len() - i,
        {
            proof {
                assert(data@.subrange(i as int, data@.len() as int).drop_first() =~= data@.subrange(
                    i + 1,
                    data@.len() as int,
                ));
            }
            if self.is_mappable(data[i]) {
                count += 1;
            }
            i += 1;
        }
        proof {
            assert(data@.subrange(0, data@.len() as int) =~= data@);
            lemma_char_reports_len(self.layout_of(), data@);
            assert(data@.subrange(data@.len() as int, data@.len() as int).len() == 0);
        }
        let terminator_reports: usize = if self.terminator.keycode().is_some() {
            2
        } else {
            0
        };
        count * 2 + terminator_reports
    }
}

/// Where report generation stands.
#[derive(Debug, Clone, Copy, PartialEq, Eq, Structural)]
enum ReportState {
    NextChar,
    Release,
    TerminatorRelease,
    Done,
}

/// Generates the keyboard reports for a byte sequence one at a time.
pub struct ReportIterator<'d, 'a> {
    mapper: &'d KeyMapper<'a>,
    data: &'d [u8],
    pos: usize,
    state: ReportState,
}

impl<'d, 'a> ReportIterator<'d, 'a> {
    /// The reports still to come.
    pub closed spec fn remaining(&self) -> Seq<HidKeyboardReport> {
        let layout = self.mapper.layout_of();
        let rest = char_reports(layout, self.data@.subrange(self.pos as int, self.data@.len() as int))
            + terminator_reports(self.mapper.terminator_of());
        match self.state {
            ReportState::NextChar => rest,
            ReportState::Release => seq![release_report()] + rest,
            ReportState::TerminatorRelease => seq![release_report()],
            ReportState::Done => Seq::empty(),
        }
    }

    /// Internal consistency of the iterator, kept by every value of it: the
    /// position lies within the data.
    pub closed spec fn wf(&self) -> bool {
        self.pos <= self.data@.len()
    }

    /// The position of every iterator lies within its data.
    #[verifier::type_invariant]
    spec fn position_in_data(self) -> bool {
        self.pos <= self.data@.len()
    }

    /// The next report, or `None` when all have been produced.
    pub fn next_report(&mut self) -> (r: Option<HidKeyboardReport>)
        ensures
            old(self).remaining().len() == 0 ==> r is None && final(self).remaining().len() == 0,
            old(self).remaining().len() > 0 ==> r == Some(old(self).remaining()[0])
                && final(self).remaining() == old(self).remaining().drop_first(),
    {
        proof {
            use_type_invariant(&*self);
        }
        match self.state {
            ReportState::NextChar => {
                let ghost layout = self.mapper.layout_of();
                let ghost term = terminator_reports(self.mapper.terminator_of());
                let ghost start = old(self).remaining();
                while self.pos < self.data.len()
                    invariant
                        self.pos <= self.data@.len(),
                        self.state == ReportState::NextChar,
                        self.mapper == old(self).mapper,
                        self.data == old(self).data,
                        layout == self.mapper.layout_of(),
                        term == terminator_reports(self.mapper.terminator_of()),
                        start == old(self).remaining(),
                        start == char_reports(layout, self.data@.subrange(self.pos as int, self.data@.len() as int)) + term,
                    decreases self.data.len() - self.pos,
                {
                    let byte = self.data[self.pos];
                    proof {
                        assert(self.data@.subrange(self.pos as int, self.data@.len() as int).drop_first()
                            =~= self.data@.subrange(self.pos + 1, self.data@.len() as int));
                    }
                    self.pos += 1;
                    if let Some(press) = self.mapper.map_byte(byte) {
                        self.state = ReportState::Release;
                        proof {
                            let rest = char_reports(layout, self.data@.subrange(self.pos as int, self.data@.len() as int)) + term;
                            assert(start =~= seq![press, release_report()] + rest);
                            assert(start.drop_first() =~= seq![release_report()] + rest);
                        }
                        return Some(press);
                    }
                }
                proof {
                    assert(self.data@.subrange(self.pos as int, self.data@.len() as int).len() == 0);
                }
                match self.mapper.terminator.keycode() {
                    Some(keycode) => {
                        self.state = ReportState::TerminatorRelease;
                        proof {
                            assert(start =~= seq![press_report(0, keycode), release_report()]);
                            assert(start.drop_first() =~= seq![release_report()]);
                        }
                        Some(HidKeyboardReport::press(0, keycode))
                    },
                    None => {
                        self.state = ReportState::Done;
                        None
                    },
                }
            },
            ReportState::Release => {
                self.state = ReportState::NextChar;
                proof {
                    let rest = old(self).remaining().drop_first();
                    assert(old(self).remaining() =~= seq![release_report()] + rest);
                    assert(seq![release_report()] + rest =~= old(self).remaining());
                }
                Some(HidKeyboardReport::release())
            },
            ReportState::TerminatorRelease => {
                self.state = ReportState::Done;
                proof {
                    assert(old(self).remaining().drop_first() =~= Seq::<HidKeyboardReport>::empty());
                }
                Some(HidKeyboardReport::release())
            },
            ReportState::Done => None,
        }
    }

    /// All remaining reports, in order.
    pub fn collect_reports(&mut self) -> (v: Vec<HidKeyboardReport>)
        ensures
            v@ == old(self).remaining(),
            final(self).remaining().len() == 0,
    {
        let mut v: Vec<HidKeyboardReport> = Vec::new();
        loop
            invariant
                v@ + self.remaining() == old(self).remaining(),
            decreases self.remaining().len(),
        {
            let ghost before = self.remaining();
            match self.next_report() {
                Some(r) => {
                    v.push(r);
                    proof {
                        assert(before =~= seq![r] + before.drop_first());
                        assert(v@ + self.remaining() =~= old(self).remaining());
                    }
                },
                None => {
                    proof {
                        assert(v@ + self.remaining() =~= v@);
                    }
                    return v;
                },
            }
        }
    }
}

/// The number of reports `report_count` computes is the number of reports
/// that `map_to_reports` generates: two per mappable byte, plus two for a
/// terminator.
pub proof fn lemma_report_count(layout: Seq<KeyMapping>, t: Terminator, data: Seq<u8>)
    ensures
        all_reports(layout, t, data).len() == 2 * count_mappable(layout, data) + (if terminator_key(
            t,
        ) is Some {
            2int
        } else {
            0int
        }),
{
    lemma_char_reports_len(layout, data);
}

/// A key mapper on the US layout types every printable ASCII byte: the
/// press report it gives is decoded by a US QWERTY host (Left Shift in the
/// modifier, the key code) back to that byte; other bytes give no report.
pub proof fn lemma_us_mapper_types_back(layout: Seq<KeyMapping>, b: u8)
    requires
        layout.len() == 128,
        forall|i: int| 0 <= i < 128 ==> #[trigger] layout[i] == us_english_entry(i),
    ensures
        0x20 <= b <= 0x7E ==> mappable(layout, b) && us_host_types(
            KeyMapping {
                keycode: press_of(layout, b).keycode,
                shifted: press_of(layout, b).modifier == MOD_LEFT_SHIFT,
            },
        ) == Some(b as char) && (press_of(layout, b).modifier == 0 || press_of(layout, b).modifier
            == MOD_LEFT_SHIFT),
        !(0x20 <= b <= 0x7E) ==> !mappable(layout, b),
{
    lemma_us_english_types_back();
    if 0x20 <= b <= 0x7E {
        assert(layout[b as int] == us_english_entry(b as int));
        assert(us_host_types(us_english_entry(b as int)) == Some((b as int) as char));
    }
}

} // verus!
