//! HID POS barcode scanner reports (usage page 0x8C), per the USB-IF HID
//! Point of Sale Usage Tables 1.02: up to 256 bytes of decoded data, the
//! data length and a three-byte AIM symbology identifier (ISO/IEC 15424).

use vstd::prelude::*;

verus! {

/// Report descriptor of a minimal HID POS barcode scanner interface.
pub const POS_BARCODE_SCANNER_REPORT_DESCRIPTOR: [u8; 48] = [
    0x06, 0x8C, 0x00, // Usage Page (Bar Code Scanner)
    0x09, 0x02, // Usage (Bar Code Scanner)
    0xA1, 0x01, // Collection (Application)
    0x09, 0x10, // Usage (Decoded Data)
    0x15, 0x00, // Logical Minimum (0)
    0x26, 0xFF, 0x00, // Logical Maximum (255)
    0x75, 0x08, // Report Size (8)
    0x96, 0x00, 0x01, // Report Count (256)
    0x81, 0x02, // Input (Data, Variable, Absolute)
    0x09, 0x12, // Usage (Decoded Data Length)
    0x15, 0x00, // Logical Minimum (0)
    0x26, 0xFF, 0x00, // Logical Maximum (255)
    0x75, 0x10, // Report Size (16)
    0x95, 0x01, // Report Count (1)
    0x81, 0x02, // Input (Data, Variable, Absolute)
    0x09, 0x30, // Usage (Symbology Identifier)
    0x15, 0x00, // Logical Minimum (0)
    0x26, 0xFF, 0x00, // Logical Maximum (255)
    0x75, 0x08, // Report Size (8)
    0x95, 0x03, // Report Count (3)
    0x81, 0x02, // Input (Data, Variable, Absolute)
    0xC0, // End Collection
];

/// Capacity of the decoded-data field.
pub const POS_DATA_CAPACITY: usize = 256;

/// HID POS barcode scanner report.
#[derive(Debug, Clone)]
pub struct HidPosReport {
    /// Decoded barcode data, zero-padded to 256 bytes.
    pub data: [u8; 256],
    /// Number of meaningful bytes in `data`.
    pub data_length: u16,
    /// AIM symbology identifier, e.g. `]Q3` for QR Code.
    pub symbology: [u8; 3],
}

/// The first 256 bytes of the scan data, zero-padded to 256 bytes.
pub open spec fn padded_data(scan: Seq<u8>) -> Seq<u8> {
    let n = if scan.len() < 256 {
        scan.len() as int
    } else {
        256int
    };
    scan.subrange(0, n) + Seq::new((256 - n) as nat, |i: int| 0u8)
}

impl HidPosReport {
    /// AIM identifier of QR Code (`]Q3`).
    pub const SYMBOLOGY_QR: [u8; 3] = [0x5D, 0x51, 0x33];
    /// AIM identifier of EAN-13 (`]E0`).
    pub const SYMBOLOGY_EAN13: [u8; 3] = [0x5D, 0x45, 0x30];
    /// AIM identifier of Code 128 (`]C0`).
    pub const SYMBOLOGY_CODE128: [u8; 3] = [0x5D, 0x43, 0x30];
    /// AIM identifier of Code 39 (`]A0`).
    pub const SYMBOLOGY_CODE39: [u8; 3] = [0x5D, 0x41, 0x30];
    /// AIM identifier of DataMatrix (`]d2`).
    pub const SYMBOLOGY_DATAMATRIX: [u8; 3] = [0x5D, 0x64, 0x32];
    /// Unknown symbology.
    pub const SYMBOLOGY_UNKNOWN: [u8; 3] = [0x00, 0x00, 0x00];

    /// A report carrying the first 256 bytes of `scan_data`.
    pub fn new(scan_data: &[u8], symbology: [u8; 3]) -> (r: Self)
        ensures
            r.data@ == padded_data(scan_data@),
            r.data_length as int == if scan_data@.len() < 256 {
                scan_data@.len() as int
            } else {
                256int
            },
            r.symbology == symbology,
    {
        let mut data = [0u8; 256];
        let len: usize = if scan_data.len() < 256 {
            scan_data.len()
        } else {
            256
        };
        let mut i: usize = 0;
        while i < len
            invariant
                len <= 256,
                len <= scan_data@.len(),
                i <= len,
                forall|j: int| 0 <= j < i ==> data@[j] == scan_data@[j],
                forall|j: int| i <= j < 256 ==> data@[j] == 0,
            decreases len - i,
        {
            data[i] = scan_data[i];
            i += 1;
        }
        proof {
            assert(data@ =~= padded_data(scan_data@));
        }
        HidPosReport { data, data_length: len as u16, symbology }
    }

    /// The 261-byte report: 256 data bytes, the length as little-endian
    /// 16-bit value, then the symbology.
    pub fn as_bytes(&self) -> (b: [u8; 261])
        ensures
            b@ == self.data@ + seq![(self.data_length % 256) as u8, (self.data_length / 256) as u8]
                + self.symbology@,
    {
        let mut buf = [0u8; 261];
        let mut i: usize = 0;
        while i < 256
            invariant
                i <= 256,
                forall|j: int| 0 <= j < i ==> buf@[j] == self.data@[j],
            decreases 256 - i,
        {
            buf[i] = self.data[i];
            i += 1;
        }
        buf[256] = (self.data_length % 256) as u8;
        buf[257] = (self.data_length / 256) as u8;
        buf[258] = self.symbology[0];
        buf[259] = self.symbology[1];
        buf[260] = self.symbology[2];
        proof {
            assert(buf@ =~= self.data@ + seq![(self.data_length % 256) as u8, (self.data_length / 256) as u8]
                + self.symbology@);
        }
        buf
    }
}

} // verus!
