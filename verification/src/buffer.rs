//! Scan buffer: accumulates incoming UART bytes and detects EOL-terminated payloads.

use vstd::prelude::*;

verus! {

/// Capacity of a scan buffer in bytes.
pub const MAX_SCAN_SIZE: usize = 2048;

/// True when the byte is a carriage return or a line feed.
pub open spec fn is_eol_byte(b: u8) -> bool {
    b == 0x0D || b == 0x0A
}

/// A buffer is complete when its last byte is CR or LF.
pub open spec fn ends_with_eol(s: Seq<u8>) -> bool {
    s.len() > 0 && is_eol_byte(s.last())
}

/// The payload with one trailing LF removed, then one trailing CR removed.
pub open spec fn strip_eol(s: Seq<u8>) -> Seq<u8> {
    let a = if s.len() > 0 && s.last() == 0x0A { s.drop_last() } else { s };
    if a.len() > 0 && a.last() == 0x0D { a.drop_last() } else { a }
}

/// Fixed-capacity byte buffer for scan data.
pub struct ScanBuffer {
    data: Vec<u8>,
}

impl View for ScanBuffer {
    type V = Seq<u8>;

    closed spec fn view(&self) -> Seq<u8> {
        self.data@
    }
}

impl ScanBuffer {
    /// The buffer never holds more than `MAX_SCAN_SIZE` bytes.
    pub open spec fn wf(&self) -> bool {
        self@.len() <= MAX_SCAN_SIZE
    }

    /// Every buffer holds at most `MAX_SCAN_SIZE` bytes.
    #[verifier::type_invariant]
    pub open spec fn bounded(self) -> bool {
        self@.len() <= MAX_SCAN_SIZE
    }

    /// An empty buffer.
    pub fn new() -> (b: Self)
        ensures
            b@ == Seq::<u8>::empty(),
            b.wf(),
    {
        ScanBuffer { data: Vec::new() }
    }

    /// Discards all buffered bytes.
    pub fn clear(&mut self)
        ensures
            final(self)@ == Seq::<u8>::empty(),
            final(self).wf(),
    {
        *self = ScanBuffer::new();
    }

    /// Appends a byte; refuses (and returns false) when the buffer is full.
    pub fn push(&mut self, byte: u8) -> (ok: bool)
        ensures
            ok == (old(self)@.len() < MAX_SCAN_SIZE),
            ok ==> final(self)@ == old(self)@.push(byte),
            !ok ==> final(self)@ == old(self)@,
            final(self).wf(),
    {
        proof {
            use_type_invariant(&*self);
        }
        if self.data.len() >= MAX_SCAN_SIZE {
            return false;
        }
        let mut taken = ScanBuffer::new();
        core::mem::swap(self, &mut taken);
        let ScanBuffer { data } = taken;
        let mut data = data;
        data.push(byte);
        *self = ScanBuffer { data };
        true
    }

    /// The buffered bytes.
    pub fn as_slice(&self) -> (s: &[u8])
        ensures
            s@ == self@,
    {
        self.data.as_slice()
    }

    /// Number of buffered bytes.
    pub fn len(&self) -> (n: usize)
        ensures
            n == self@.len(),
    {
        self.data.len()
    }

    /// True when nothing is buffered.
    pub fn is_empty(&self) -> (e: bool)
        ensures
            e == (self@.len() == 0),
    {
        self.data.len() == 0
    }

    /// True when the buffer ends with CR, LF or CR LF.
    pub fn has_eol(&self) -> (r: bool)
        ensures
            r == ends_with_eol(self@),
    {
        let len = self.data.len();
        if len == 0 {
            return false;
        }
        if len >= 2 && self.data[len - 2] == 0x0D && self.data[len - 1] == 0x0A {
            return true;
        }
        if self.data[len - 1] == 0x0D || self.data[len - 1] == 0x0A {
            return true;
        }
        false
    }

    /// The buffered bytes without a trailing LF and then without a trailing CR.
    pub fn data_without_eol(&self) -> (s: &[u8])
        ensures
            s@ == strip_eol(self@),
    {
        let mut end = self.data.len();
        if end > 0 && self.data[end - 1] == 0x0A {
            end -= 1;
        }
        if end > 0 && self.data[end - 1] == 0x0D {
            end -= 1;
        }
        let (head, _tail) = self.data.as_slice().split_at(end);
        proof {
            assert(head@ =~= strip_eol(self@));
        }
        head
    }
}

impl Default for ScanBuffer {
    fn default() -> (b: Self)
        ensures
            b@ == Seq::<u8>::empty(),
    {
        Self::new()
    }
}

} // verus!
