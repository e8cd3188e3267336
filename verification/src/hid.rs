//! HID report primitives for barcode scanner output: a keyboard wedge that
//! maps barcode bytes to boot keyboard reports, and HID POS barcode scanner
//! reports. These build report data; they perform no USB I/O.

pub mod keyboard;
pub mod pos;
