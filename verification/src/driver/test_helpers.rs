//! Helpers for exercising the drivers against a scripted UART.

use vstd::prelude::*;

verus! {

/// State shared by scripted UARTs: bytes waiting to be read, bytes written,
/// and responses released one at a time.
pub struct MockInner {
    pub read_queue: Vec<u8>,
    pub written: Vec<u8>,
    pub pending_responses: Vec<Vec<u8>>,
}

/// The seven-byte success response carrying `value`.
pub open spec fn success_frame(value: u8) -> Seq<u8> {
    seq![0x02u8, 0x00, 0x00, 0x01, value, 0x33, 0x31]
}

/// The success responses carrying `values`, one after another.
pub open spec fn response_stream(values: Seq<u8>) -> Seq<u8>
    decreases values.len(),
{
    if values.len() == 0 {
        Seq::empty()
    } else {
        response_stream(values.drop_last()) + success_frame(values.last())
    }
}

/// The values answered, in order, during a successful initialization whose
/// registers already hold their targets: the probe and the SerialOutput read
/// (0xA0, no fix needed), the Settings write, five current values, five
/// reads and five verifications of the targets, the firmware version (0x87,
/// no raw mode fix) and the save.
pub open spec fn init_response_values() -> Seq<u8> {
    seq![
        0xA0u8, 0xA0, 0x81, 0xFF, 0xFF, 0xFF, 0xFF, 0xFF, 0x00, 0x01, 0x85, 0x01, 0x01, 0x00,
        0x01, 0x85, 0x01, 0x01, 0x87, 0x00,
    ]
}

/// Builds the seven-byte success response carrying `value`.
pub fn success_response(value: u8) -> (r: [u8; 7])
    ensures
        r@ == success_frame(value),
{
    let r = [0x02, 0x00, 0x00, 0x01, value, 0x33, 0x31];
    proof {
        assert(r@ =~= success_frame(value));
    }
    r
}

/// The responses of a successful initialization, as one buffer of twenty
/// seven-byte frames, and its filled length.
pub fn init_response_sequence() -> (r: ([u8; 140], usize))
    ensures
        r.0@ == response_stream(init_response_values()),
        r.1 == 140,
{
    let values: [u8; 20] = [
        0xA0, 0xA0, 0x81, 0xFF, 0xFF, 0xFF, 0xFF, 0xFF, 0x00, 0x01, 0x85, 0x01, 0x01, 0x00, 0x01,
        0x85, 0x01, 0x01, 0x87, 0x00,
    ];
    proof {
        assert(values@ =~= init_response_values());
    }
    let mut buf = [0u8; 140];
    let mut idx: usize = 0;
    let mut i: usize = 0;
    while i < 20
        invariant
            i <= 20,
            idx == 7 * i,
            buf@.len() == 140,
            values@ == init_response_values(),
            buf@.subrange(0, idx as int) == response_stream(values@.subrange(0, i as int)),
        decreases 20 - i,
    {
        let resp = success_response(values[i]);
        let ghost before = buf@;
        let mut k: usize = 0;
        while k < 7
            invariant
                k <= 7,
                i < 20,
                idx == 7 * i,
                buf@.len() == 140,
                resp@ == success_frame(values@[i as int]),
                buf@.subrange(0, idx as int) == before.subrange(0, idx as int),
                forall|j: int| 0 <= j < k ==> buf@[idx + j] == resp@[j],
            decreases 7 - k,
        {
            buf[idx + k] = resp[k];
            k += 1;
        }
        proof {
            let vs = values@.subrange(0, i + 1);
            assert(vs.drop_last() =~= values@.subrange(0, i as int));
            assert(vs.last() == values@[i as int]);
            assert(buf@.subrange(0, idx + 7) =~= buf@.subrange(0, idx as int) + resp@);
        }
        idx += 7;
        i += 1;
    }
    proof {
        assert(values@.subrange(0, 20) =~= values@);
        assert(buf@.subrange(0, 140) =~= buf@);
    }
    (buf, idx)
}

} // verus!
