//! GM65 serial protocol: command frames and response parsing.
//!
//! Every command frame has the shape
//! `[7E 00] [type] [len] [addr_hi] [addr_lo] [value..] [suffix:2]`,
//! where the type is `07` (get), `08` (set) or `09` (save) and the suffix is
//! the sentinel `AB CD` (`DE C8` for the save command).
//!
//! Responses are seven bytes: `02 00 00 01 [value] 33 31`.

use vstd::prelude::*;

pub mod commands;

verus! {

/// Frame header.
pub const HEADER: [u8; 2] = [0x7E, 0x00];

/// Sentinel suffix of get/set frames (not a checksum).
pub const CRC_NO_CHECKSUM: [u8; 2] = [0xAB, 0xCD];

/// Sentinel suffix of the save-settings frame.
pub const SAVE_SENTINEL: [u8; 2] = [0xDE, 0xC8];

/// First four bytes of every well-formed response.
pub const RESPONSE_PREFIX: [u8; 4] = [0x02, 0x00, 0x00, 0x01];

/// Length of a response frame.
pub const RESPONSE_LEN: usize = 7;

/// Command type: set a register.
pub const CMD_SET_PARAM: u8 = 0x08;

/// Command type: read a register.
pub const CMD_GET_PARAM: u8 = 0x07;

/// Command type: save settings to non-volatile memory.
pub const CMD_SAVE: u8 = 0x09;

/// GM65 configuration registers.
#[derive(Debug, Clone, Copy, PartialEq, Eq, Structural)]
pub enum Register {
    SerialOutput,
    Settings,
    BaudRate,
    ScanEnable,
    Timeout,
    ScanInterval,
    SameBarcodeDelay,
    Version,
    RawMode,
    /// Barcode type filter register. On firmware 0x87 a write is
    /// acknowledged but not persisted.
    BarType,
    QrEnable,
    FactoryReset,
}

/// The 16-bit address of a register.
pub open spec fn register_address(r: Register) -> u16 {
    match r {
        Register::SerialOutput => 0x000D,
        Register::Settings => 0x0000,
        Register::BaudRate => 0x002A,
        Register::ScanEnable => 0x0002,
        Register::Timeout => 0x0006,
        Register::ScanInterval => 0x0005,
        Register::SameBarcodeDelay => 0x0013,
        Register::Version => 0x00E2,
        Register::RawMode => 0x00BC,
        Register::BarType => 0x002C,
        Register::QrEnable => 0x003F,
        Register::FactoryReset => 0x00D9,
    }
}

/// The address of a register as two bytes, high byte first.
pub open spec fn address_bytes_of(r: Register) -> [u8; 2] {
    [(register_address(r) / 256) as u8, (register_address(r) % 256) as u8]
}

impl Register {
    /// The register address as `[high, low]`.
    pub fn address_bytes(&self) -> (a: [u8; 2])
        ensures
            a@ == seq![(register_address(*self) / 256) as u8, (register_address(*self) % 256) as u8],
            a == address_bytes_of(*self),
    {
        let addr: u16 = match self {
            Register::SerialOutput => 0x000D,
            Register::Settings => 0x0000,
            Register::BaudRate => 0x002A,
            Register::ScanEnable => 0x0002,
            Register::Timeout => 0x0006,
            Register::ScanInterval => 0x0005,
            Register::SameBarcodeDelay => 0x0013,
            Register::Version => 0x00E2,
            Register::RawMode => 0x00BC,
            Register::BarType => 0x002C,
            Register::QrEnable => 0x003F,
            Register::FactoryReset => 0x00D9,
        };
        let a = [(addr / 256) as u8, (addr % 256) as u8];
        proof {
            assert(a@ =~= seq![(register_address(*self) / 256) as u8, (register_address(*self) % 256) as u8]);
        }
        a
    }
}

/// Baud rates the module can be switched to.
#[derive(Debug, Clone, Copy, PartialEq, Eq, Structural)]
pub enum BaudRate {
    Bps9600,
    Bps19200,
    Bps38400,
    Bps57600,
    Bps115200,
}

/// The register value that selects a baud rate.
pub open spec fn baud_code(b: BaudRate) -> u8 {
    match b {
        BaudRate::Bps9600 => 0x00,
        BaudRate::Bps19200 => 0x01,
        BaudRate::Bps38400 => 0x02,
        BaudRate::Bps57600 => 0x03,
        BaudRate::Bps115200 => 0x1A,
    }
}

/// A baud rate in bits per second.
pub open spec fn baud_bps(b: BaudRate) -> u32 {
    match b {
        BaudRate::Bps9600 => 9600,
        BaudRate::Bps19200 => 19200,
        BaudRate::Bps38400 => 38400,
        BaudRate::Bps57600 => 57600,
        BaudRate::Bps115200 => 115200,
    }
}

impl BaudRate {
    /// The register value that selects this rate.
    pub fn value(&self) -> (v: u8)
        ensures
            v == baud_code(*self),
    {
        match self {
            BaudRate::Bps9600 => 0x00,
            BaudRate::Bps19200 => 0x01,
            BaudRate::Bps38400 => 0x02,
            BaudRate::Bps57600 => 0x03,
            BaudRate::Bps115200 => 0x1A,
        }
    }

    /// The rate in bits per second.
    pub fn as_u32(&self) -> (v: u32)
        ensures
            v == baud_bps(*self),
    {
        match self {
            BaudRate::Bps9600 => 9600,
            BaudRate::Bps19200 => 19200,
            BaudRate::Bps38400 => 38400,
            BaudRate::Bps57600 => 57600,
            BaudRate::Bps115200 => 115200,
        }
    }
}

/// The frame that reads the register at `addr`.
pub open spec fn get_setting_frame(addr: [u8; 2]) -> Seq<u8> {
    seq![0x7Eu8, 0x00, 0x07, 0x01, addr[0], addr[1], 0x01, 0xAB, 0xCD]
}

/// The frame that writes the one-byte `value` to the register at `addr`.
pub open spec fn set_setting_frame(addr: [u8; 2], value: u8) -> Seq<u8> {
    seq![0x7Eu8, 0x00, 0x08, 0x01, addr[0], addr[1], value, 0xAB, 0xCD]
}

/// The frame that writes the two-byte `value` to the register at `addr`.
pub open spec fn set_setting_2byte_frame(addr: [u8; 2], value: [u8; 2]) -> Seq<u8> {
    seq![0x7Eu8, 0x00, 0x08, 0x02, addr[0], addr[1], value[0], value[1], 0xAB, 0xCD]
}

/// The save-settings frame.
pub open spec fn save_settings_frame() -> Seq<u8> {
    seq![0x7Eu8, 0x00, 0x09, 0x01, 0x00, 0x00, 0x00, 0xDE, 0xC8]
}

/// The factory-reset frame.
pub open spec fn factory_reset_frame() -> Seq<u8> {
    seq![0x7Eu8, 0x00, 0x08, 0x01, 0x00, 0xD9, 0x55, 0xAB, 0xCD]
}

/// Builds the frame that reads a register.
pub fn build_get_setting(addr: [u8; 2]) -> (f: [u8; 9])
    ensures
        f@ == get_setting_frame(addr),
{
    let f = [
        HEADER[0],
        HEADER[1],
        CMD_GET_PARAM,
        0x01,
        addr[0],
        addr[1],
        0x01,
        CRC_NO_CHECKSUM[0],
        CRC_NO_CHECKSUM[1],
    ];
    proof {
        assert(f@ =~= get_setting_frame(addr));
    }
    f
}

/// Builds the frame that writes a one-byte register value.
pub fn build_set_setting(addr: [u8; 2], value: u8) -> (f: [u8; 9])
    ensures
        f@ == set_setting_frame(addr, value),
{
    let f = [
        HEADER[0],
        HEADER[1],
        CMD_SET_PARAM,
        0x01,
        addr[0],
        addr[1],
        value,
        CRC_NO_CHECKSUM[0],
        CRC_NO_CHECKSUM[1],
    ];
    proof {
        assert(f@ =~= set_setting_frame(addr, value));
    }
    f
}

/// Builds the frame that writes a two-byte register value.
pub fn build_set_setting_2byte(addr: [u8; 2], value: [u8; 2]) -> (f: [u8; 10])
    ensures
        f@ == set_setting_2byte_frame(addr, value),
{
    let f = [
        HEADER[0],
        HEADER[1],
        CMD_SET_PARAM,
        0x02,
        addr[0],
        addr[1],
        value[0],
        value[1],
        CRC_NO_CHECKSUM[0],
        CRC_NO_CHECKSUM[1],
    ];
    proof {
        assert(f@ =~= set_setting_2byte_frame(addr, value));
    }
    f
}

/// Builds the save-settings frame; its suffix is `DE C8`, not `AB CD`.
pub fn build_save_settings() -> (f: [u8; 9])
    ensures
        f@ == save_settings_frame(),
{
    let f = [0x7E, 0x00, 0x09, 0x01, 0x00, 0x00, 0x00, SAVE_SENTINEL[0], SAVE_SENTINEL[1]];
    proof {
        assert(f@ =~= save_settings_frame());
    }
    f
}

/// Builds the factory-reset frame.
pub fn build_factory_reset() -> (f: [u8; 9])
    ensures
        f@ == factory_reset_frame(),
{
    let f = [0x7E, 0x00, 0x08, 0x01, 0x00, 0xD9, 0x55, CRC_NO_CHECKSUM[0], CRC_NO_CHECKSUM[1]];
    proof {
        assert(f@ =~= factory_reset_frame());
    }
    f
}

/// Builds the frame that starts a scan (ScanEnable := 1).
pub fn build_trigger_scan() -> (f: [u8; 9])
    ensures
        f@ == set_setting_frame(address_bytes_of(Register::ScanEnable), 0x01),
{
    build_set_setting(Register::ScanEnable.address_bytes(), 0x01)
}

/// A parsed module response.
#[derive(Debug, Clone, PartialEq, Eq, Structural)]
pub enum Gm65Response {
    SuccessWithValue(u8),
    Success,
    Invalid,
}

/// True when `s` is a response frame: seven bytes starting `02 00 00 01`.
pub open spec fn is_response_frame(s: Seq<u8>) -> bool {
    &&& s.len() == 7
    &&& s[0] == 0x02
    &&& s[1] == 0x00
    &&& s[2] == 0x00
    &&& s[3] == 0x01
}

/// What `Gm65Response::parse` makes of a byte sequence.
pub open spec fn parse_response(s: Seq<u8>) -> Gm65Response {
    if is_response_frame(s) {
        Gm65Response::SuccessWithValue(s[4])
    } else {
        Gm65Response::Invalid
    }
}

/// What `Gm65Response::parse_set_response` makes of a byte sequence.
pub open spec fn parse_set_response_spec(s: Seq<u8>) -> Gm65Response {
    if is_response_frame(s) {
        Gm65Response::Success
    } else {
        Gm65Response::Invalid
    }
}

/// The response frame the module sends for a successful command.
pub open spec fn success_frame(value: u8) -> Seq<u8> {
    seq![0x02u8, 0x00, 0x00, 0x01, value, 0x33, 0x31]
}

fn has_response_shape(data: &[u8]) -> (r: bool)
    ensures
        r == is_response_frame(data@),
{
    data.len() == RESPONSE_LEN && data[0] == RESPONSE_PREFIX[0] && data[1] == RESPONSE_PREFIX[1]
        && data[2] == RESPONSE_PREFIX[2] && data[3] == RESPONSE_PREFIX[3]
}

impl Gm65Response {
    /// Parses a response that carries a register value.
    pub fn parse(data: &[u8]) -> (r: Self)
        ensures
            r == parse_response(data@),
    {
        if !has_response_shape(data) {
            return Gm65Response::Invalid;
        }
        Gm65Response::SuccessWithValue(data[4])
    }

    /// Parses the response to a get command.
    pub fn parse_get_response(data: &[u8]) -> (r: Self)
        ensures
            r == parse_response(data@),
    {
        Self::parse(data)
    }

    /// Parses the response to a set command.
    pub fn parse_set_response(data: &[u8]) -> (r: Self)
        ensures
            r == parse_set_response_spec(data@),
    {
        if !has_response_shape(data) {
            return Gm65Response::Invalid;
        }
        Gm65Response::Success
    }

    /// True unless the response is `Invalid`.
    pub fn is_success(&self) -> (b: bool)
        ensures
            b == !(*self is Invalid),
    {
        !matches!(self, Gm65Response::Invalid)
    }
}

/// Parsing a success frame gives back the value it carries, and a set
/// response parses to `Success`.
pub proof fn lemma_success_frame_roundtrip(value: u8)
    ensures
        parse_response(success_frame(value)) == Gm65Response::SuccessWithValue(value),
        parse_set_response_spec(success_frame(value)) == Gm65Response::Success,
{
}

/// Any sequence whose length is not seven parses as `Invalid`.
pub proof fn lemma_wrong_length_invalid(s: Seq<u8>)
    requires
        s.len() != 7,
    ensures
        parse_response(s) == Gm65Response::Invalid,
        parse_set_response_spec(s) == Gm65Response::Invalid,
{
}

/// Copies a frame into a vector.
pub fn frame_to_vec(frame: &[u8]) -> (v: Vec<u8>)
    ensures
        v@ == frame@,
{
    let mut v: Vec<u8> = Vec::new();
    let mut i: usize = 0;
    while i < frame.len()
        invariant
            i <= frame.len(),
            v@ == frame@.subrange(0, i as int),
        decreases frame.len() - i,
    {
        v.push(frame[i]);
        i += 1;
        proof {
            assert(v@ =~= frame@.subrange(0, i as int));
        }
    }
    proof {
        assert(frame@.subrange(0, frame@.len() as int) =~= frame@);
    }
    v
}

} // verus!
