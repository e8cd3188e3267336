//! Payload classification and UR (Uniform Resources) fragment reassembly.

use vstd::prelude::*;
use vstd::utf8::{
    decode_utf8, encode_utf8, encode_utf8_decode_utf8, encode_utf8_valid_utf8, is_char_boundary,
    is_char_boundary_start_end_of_seq, valid_utf8, valid_utf8_split,
};
use vstd::string::StringSliceAdditionalSpecFns;

use crate::protocol::frame_to_vec;
use crate::text::{
    bytes_start_with, find_byte, find_byte_from, has_prefix, lemma_ascii_boundaries,
    lemma_find_byte, parse_u32, parse_u32_spec, sub_bytes,
};

verus! {

// ============================================================================
// UTF-8 and lowercase through std
// ============================================================================

/// Calls `core::str::from_utf8`: a string exactly when the bytes are valid
/// UTF-8, and then the string's bytes are the input bytes.
#[verifier::external_body]
fn str_from_utf8(bytes: &[u8]) -> (r: Option<&str>)
    ensures
        r is Some <==> valid_utf8(bytes@),
        r matches Some(s) ==> s.spec_bytes() == bytes@,
{
    core::str::from_utf8(bytes).ok()
}

/// The lowercase form of a text as `str::to_lowercase` computes it (Unicode
/// lowercase mapping).
pub uninterp spec fn lowercase_text(s: Seq<char>) -> Seq<char>;

/// ASCII text with its capital letters made small.
pub open spec fn ascii_lowercase(s: Seq<char>) -> Seq<char> {
    s.map_values(|c: char| if 'A' <= c && c <= 'Z' { ((c as u32) + 32) as char } else { c })
}

/// The lowercase form of a text: on ASCII text its capital letters made
/// small, otherwise the Unicode lowercase mapping.
pub open spec fn lowercase_of(t: Seq<char>) -> Seq<char> {
    if forall|i: int| 0 <= i < t.len() ==> (t[i] as u32) < 128 {
        ascii_lowercase(t)
    } else {
        lowercase_text(t)
    }
}

/// Calls `str::to_lowercase`; the result is `lowercase_text` of the input,
/// and on ASCII text it makes each capital letter small and keeps every other
/// character (the Unicode lowercase mapping of ASCII).
#[verifier::external_body]
fn str_to_lowercase(s: &str) -> (r: String)
    ensures
        r@ == lowercase_text(s@),
        (forall|i: int| 0 <= i < s@.len() ==> (s@[i] as u32) < 128) ==> r@ == ascii_lowercase(s@),
{
    s.to_lowercase()
}

/// The bytes of `s` between `from` and `to`, as a string slice; `from` must
/// be a character boundary and `to` the end or an ASCII byte.
fn sub_str(s: &str, from: usize, to: usize) -> (r: &str)
    requires
        from <= to <= s.spec_bytes().len(),
        is_char_boundary(s.spec_bytes(), from as int),
        to == s.spec_bytes().len() || s.spec_bytes()[to as int] < 0x80,
    ensures
        r.spec_bytes() == s.spec_bytes().subrange(from as int, to as int),
        r@ == decode_utf8(s.spec_bytes().subrange(from as int, to as int)),
{
    proof {
        encode_utf8_valid_utf8(s@);
    }
    let (_head, tail) = s.split_at(from);
    proof {
        let b = s.spec_bytes().subrange(from as int, s.spec_bytes().len() as int);
        valid_utf8_split(s.spec_bytes(), from as int);
        assert(tail.spec_bytes() == b);
        if to == s.spec_bytes().len() {
            is_char_boundary_start_end_of_seq(b);
            assert((to - from) as int == b.len());
        } else {
            assert(b[to - from] == s.spec_bytes()[to as int]);
            lemma_ascii_boundaries(b, (to - from) as int);
        }
    }
    let (mid, _rest) = tail.split_at(to - from);
    proof {
        assert(mid.spec_bytes() =~= s.spec_bytes().subrange(from as int, to as int));
        encode_utf8_decode_utf8(mid@);
    }
    mid
}

// ============================================================================
// Payload classification
// ============================================================================

/// Classification of a scanned payload.
#[derive(Debug, Clone, Copy, PartialEq, Eq, Structural)]
pub enum PayloadType {
    /// Cashu V4 token (starts with `cashuB`).
    CashuV4,
    /// Cashu V3 token (starts with `cashuA`).
    CashuV3,
    /// UR multi-part fragment (starts with `ur:`).
    UrFragment,
    /// HTTP or HTTPS URL.
    Url,
    /// UTF-8 text that is not a URL or known token.
    PlainText,
    /// Data that is not UTF-8.
    Binary,
}

impl PayloadType {
    /// Human-readable name of the payload type.
    pub fn display_name(&self) -> (s: &'static str)
        ensures
            *self is CashuV4 ==> s@ == "Cashu V4 Token"@,
            *self is CashuV3 ==> s@ == "Cashu V3 Token"@,
            *self is UrFragment ==> s@ == "UR Fragment"@,
            *self is Url ==> s@ == "URL"@,
            *self is PlainText ==> s@ == "Plain Text"@,
            *self is Binary ==> s@ == "Binary Data"@,
    {
        match self {
            PayloadType::CashuV4 => "Cashu V4 Token",
            PayloadType::CashuV3 => "Cashu V3 Token",
            PayloadType::UrFragment => "UR Fragment",
            PayloadType::Url => "URL",
            PayloadType::PlainText => "Plain Text",
            PayloadType::Binary => "Binary Data",
        }
    }
}

/// `cashuB`
pub open spec fn cashu_v4_prefix() -> Seq<u8> {
    seq![0x63u8, 0x61, 0x73, 0x68, 0x75, 0x42]
}

/// `cashuA`
pub open spec fn cashu_v3_prefix() -> Seq<u8> {
    seq![0x63u8, 0x61, 0x73, 0x68, 0x75, 0x41]
}

/// `ur:`
pub open spec fn ur_prefix() -> Seq<u8> {
    seq![0x75u8, 0x72, 0x3A]
}

/// `http://`
pub open spec fn http_prefix() -> Seq<u8> {
    seq![0x68u8, 0x74, 0x74, 0x70, 0x3A, 0x2F, 0x2F]
}

/// `https://`
pub open spec fn https_prefix() -> Seq<u8> {
    seq![0x68u8, 0x74, 0x74, 0x70, 0x73, 0x3A, 0x2F, 0x2F]
}

/// The classification of a payload, by prefix in priority order.
pub open spec fn classify_spec(data: Seq<u8>) -> PayloadType {
    if has_prefix(data, cashu_v4_prefix()) {
        PayloadType::CashuV4
    } else if has_prefix(data, cashu_v3_prefix()) {
        PayloadType::CashuV3
    } else if has_prefix(data, ur_prefix()) {
        PayloadType::UrFragment
    } else if valid_utf8(data) {
        if has_prefix(data, http_prefix()) || has_prefix(data, https_prefix()) {
            PayloadType::Url
        } else {
            PayloadType::PlainText
        }
    } else {
        PayloadType::Binary
    }
}

/// A payload without a Cashu or UR prefix is `Binary` exactly when it is
/// not valid UTF-8: valid UTF-8 text is a URL when it starts with `http://`
/// or `https://` and plain text otherwise, whatever characters it holds.
/// The prefixed payloads take their own kinds first.
pub proof fn lemma_classify_text_or_binary(data: Seq<u8>)
    ensures
        has_prefix(data, cashu_v4_prefix()) ==> classify_spec(data) == PayloadType::CashuV4,
        !has_prefix(data, cashu_v4_prefix()) && !has_prefix(data, cashu_v3_prefix())
            && !has_prefix(data, ur_prefix()) ==> {
            &&& (classify_spec(data) == PayloadType::Binary <==> !valid_utf8(data))
            &&& (classify_spec(data) == PayloadType::Url <==> valid_utf8(data) && (has_prefix(
                data,
                http_prefix(),
            ) || has_prefix(data, https_prefix())))
            &&& valid_utf8(data) ==> (classify_spec(data) == PayloadType::Url || classify_spec(data)
                == PayloadType::PlainText)
        },
{
}

/// The bytes of any text, whatever its characters (accents, symbols, any
/// script), are never classified as binary.
pub proof fn lemma_text_is_never_binary(text: Seq<char>)
    ensures
        classify_spec(encode_utf8(text)) != PayloadType::Binary,
{
    encode_utf8_valid_utf8(text);
}

/// Classifies a payload: Cashu tokens, UR fragments, URLs, UTF-8 text and
/// binary data, in that priority order.
pub fn classify_payload(data: &[u8]) -> (t: PayloadType)
    ensures
        t == classify_spec(data@),
{
    let v4: [u8; 6] = [0x63, 0x61, 0x73, 0x68, 0x75, 0x42];
    let v3: [u8; 6] = [0x63, 0x61, 0x73, 0x68, 0x75, 0x41];
    let ur: [u8; 3] = [0x75, 0x72, 0x3A];
    let http: [u8; 7] = [0x68, 0x74, 0x74, 0x70, 0x3A, 0x2F, 0x2F];
    let https: [u8; 8] = [0x68, 0x74, 0x74, 0x70, 0x73, 0x3A, 0x2F, 0x2F];
    proof {
        assert(v4@ =~= cashu_v4_prefix());
        assert(v3@ =~= cashu_v3_prefix());
        assert(ur@ =~= ur_prefix());
        assert(http@ =~= http_prefix());
        assert(https@ =~= https_prefix());
    }
    if bytes_start_with(data, v4.as_slice()) {
        return PayloadType::CashuV4;
    }
    if bytes_start_with(data, v3.as_slice()) {
        return PayloadType::CashuV3;
    }
    if bytes_start_with(data, ur.as_slice()) {
        return PayloadType::UrFragment;
    }
    if str_from_utf8(data).is_some() {
        if bytes_start_with(data, http.as_slice()) || bytes_start_with(data, https.as_slice()) {
            return PayloadType::Url;
        }
        return PayloadType::PlainText;
    }
    PayloadType::Binary
}

/// A scan payload with its classification.
#[derive(Debug, Clone)]
pub struct DecodedPayload {
    /// Raw bytes from the scanner.
    pub raw: Vec<u8>,
    /// Detected payload type.
    pub payload_type: PayloadType,
}

/// Copies and classifies a raw scan payload.
pub fn decode_payload(data: &[u8]) -> (p: DecodedPayload)
    ensures
        p.raw@ == data@,
        p.payload_type == classify_spec(data@),
{
    let payload_type = classify_payload(data);
    DecodedPayload { raw: frame_to_vec(data), payload_type }
}

impl DecodedPayload {
    /// The payload as text; `None` when it is not valid UTF-8.
    pub fn as_str(&self) -> (s: Option<&str>)
        ensures
            s is Some <==> valid_utf8(self.raw@),
            s matches Some(t) ==> t.spec_bytes() == self.raw@ && t@ == decode_utf8(self.raw@),
    {
        let r = str_from_utf8(self.raw.as_slice());
        proof {
            if let Some(t) = r {
                encode_utf8_decode_utf8(t@);
            }
        }
        r
    }
}

// ============================================================================
// UR fragments
// ============================================================================

/// A parsed UR fragment `ur:<type>/<index>-<total>/<hash>/<data>`.
#[derive(Debug, Clone)]
pub struct ParsedUrFragment {
    /// Fragment type, lowercased (e.g. "bytes", "crypto-psbt").
    pub ur_type: String,
    /// 1-based fragment index.
    pub index: u32,
    /// Number of fragments in the sequence.
    pub total: u32,
    /// Identifier of the multi-part sequence.
    pub hash: String,
    /// Fragment payload bytes.
    pub data: Vec<u8>,
}

/// A UR fragment as plain values.
pub struct UrFragmentModel {
    pub ur_type: Seq<char>,
    pub index: u32,
    pub total: u32,
    pub hash: Seq<char>,
    pub data: Seq<u8>,
}

impl View for ParsedUrFragment {
    type V = UrFragmentModel;

    open spec fn view(&self) -> UrFragmentModel {
        UrFragmentModel {
            ur_type: self.ur_type@,
            index: self.index,
            total: self.total,
            hash: self.hash@,
            data: self.data@,
        }
    }
}

/// The grammar of a UR fragment over bytes: valid UTF-8 starting with `ur:`,
/// at least three `/`; the type is between `ur:` and the first `/`, the
/// second segment holds exactly one `-` between two unsigned numbers, the
/// first of which (the 1-based index) is at least 1, the hash is the third
/// segment and the data is everything after the third `/`.
pub open spec fn ur_fragment_spec(data: Seq<u8>) -> Option<UrFragmentModel> {
    let p0 = find_byte(data, 0x2F, 0);
    let p1 = find_byte(data, 0x2F, p0 + 1);
    let p2 = find_byte(data, 0x2F, p1 + 1);
    let it = data.subrange(p0 + 1, p1);
    let q = find_byte(it, 0x2D, 0);
    if !valid_utf8(data) || !has_prefix(data, ur_prefix()) || p0 < 0 || p1 < 0 || p2 < 0 || q
        < 0 || find_byte(it, 0x2D, q + 1) >= 0 {
        None
    } else {
        match (parse_u32_spec(it.subrange(0, q)), parse_u32_spec(it.subrange(q + 1, it.len() as int))) {
            (Some(index), Some(total)) => if index == 0 {
                None
            } else {
                Some(
                UrFragmentModel {
                    ur_type: lowercase_of(decode_utf8(data.subrange(3, p0))),
                    index: index,
                    total: total,
                    hash: decode_utf8(data.subrange(p1 + 1, p2)),
                    data: data.subrange(p2 + 1, data.len() as int),
                },
            )
            },
            _ => None,
        }
    }
}

/// Parses a UR fragment; `None` when the data is not one (an index of 0
/// included).
pub fn parse_ur_fragment(data: &[u8]) -> (r: Option<ParsedUrFragment>)
    ensures
        match r {
            Some(f) => ur_fragment_spec(data@) == Some(f@),
            None => ur_fragment_spec(data@) is None,
        },
{
    let len = data.len();
    let text = match str_from_utf8(data) {
        Some(t) => t,
        None => {
            return None;
        },
    };
    let ur: [u8; 3] = [0x75, 0x72, 0x3A];
    proof {
        assert(ur@ =~= ur_prefix());
    }
    if !bytes_start_with(data, ur.as_slice()) {
        return None;
    }
    proof {
        lemma_find_byte(data@, 0x2F, 0);
    }
    let p0 = match find_byte_from(data, 0x2F, 0) {
        Some(p) => p,
        None => {
            return None;
        },
    };
    proof {
        assert(p0 < data@.len());
        assert(data@.subrange(0, 3)[0] == data@[0]);
        assert(data@.subrange(0, 3)[1] == data@[1]);
        assert(data@.subrange(0, 3)[2] == data@[2]);
        lemma_find_byte(data@, 0x2F, p0 + 1);
    }
    let p1 = match find_byte_from(data, 0x2F, p0 + 1) {
        Some(p) => p,
        None => {
            return None;
        },
    };
    proof {
        assert(p1 < data@.len());
        lemma_find_byte(data@, 0x2F, p1 + 1);
    }
    let p2 = match find_byte_from(data, 0x2F, p1 + 1) {
        Some(p) => p,
        None => {
            return None;
        },
    };
    let it = sub_bytes(data, p0 + 1, p1);
    proof {
        lemma_find_byte(it@, 0x2D, 0);
    }
    let q = match find_byte_from(it, 0x2D, 0) {
        Some(q) => q,
        None => {
            return None;
        },
    };
    if find_byte_from(it, 0x2D, q + 1).is_some() {
        return None;
    }
    let index = match parse_u32(sub_bytes(it, 0, q)) {
        Some(v) => v,
        None => {
            return None;
        },
    };
    let total = match parse_u32(sub_bytes(it, q + 1, it.len())) {
        Some(v) => v,
        None => {
            return None;
        },
    };
    if index == 0 {
        return None;
    }
    proof {
        assert(data@[2] == 0x3A);
        lemma_ascii_boundaries(data@, 2);
        lemma_ascii_boundaries(data@, p1 as int);
    }
    let type_str = sub_str(text, 3, p0);
    let hash_str = sub_str(text, p1 + 1, p2);
    let ur_type = str_to_lowercase(type_str);
    let hash = hash_str.to_owned();
    let payload = frame_to_vec(sub_bytes(data, p2 + 1, len));
    Some(ParsedUrFragment { ur_type, index, total, hash, data: payload })
}

// ============================================================================
// UR reassembly
// ============================================================================

/// A received fragment slot as plain values.
pub open spec fn slot_view(o: Option<Vec<u8>>) -> Option<Seq<u8>> {
    match o {
        Some(v) => Some(v@),
        None => None,
    }
}

/// Number of filled slots.
pub open spec fn count_filled(s: Seq<Option<Seq<u8>>>) -> nat
    decreases s.len(),
{
    if s.len() == 0 {
        0
    } else {
        count_filled(s.drop_last()) + if s.last() is Some {
            1nat
        } else {
            0nat
        }
    }
}

/// The slots concatenated in order; `None` when one is empty.
pub open spec fn concat_slots(s: Seq<Option<Seq<u8>>>) -> Option<Seq<u8>>
    decreases s.len(),
{
    if s.len() == 0 {
        Some(Seq::empty())
    } else {
        match (concat_slots(s.drop_last()), s.last()) {
            (Some(a), Some(b)) => Some(a + b),
            _ => None,
        }
    }
}

/// The state of a UR decoder as plain values.
pub struct UrDecoderModel {
    pub total: Option<u32>,
    pub hash: Option<Seq<char>>,
    pub fragments: Seq<Option<Seq<u8>>>,
    pub received: u32,
}

/// A fresh decoder.
pub open spec fn empty_decoder() -> UrDecoderModel {
    UrDecoderModel { total: None, hash: None, fragments: Seq::empty(), received: 0 }
}

/// Accepting one parsed fragment: the decoder after it and the payload, once
/// every fragment has arrived. Index 0 is ignored, the first fragment fixes
/// the total and the hash, a different hash is rejected and a fragment whose
/// slot is taken or out of range changes nothing.
pub open spec fn feed_fragment(d: UrDecoderModel, f: UrFragmentModel) -> (UrDecoderModel, Option<Seq<u8>>) {
    if f.index == 0 {
        (d, None)
    } else {
        let d1 = if d.total is None {
            UrDecoderModel {
                total: Some(f.total),
                hash: Some(f.hash),
                fragments: Seq::new(f.total as nat, |i: int| None),
                received: d.received,
            }
        } else {
            d
        };
        if d1.hash != Some(f.hash) {
            (d1, None)
        } else {
            let idx = f.index - 1;
            let d2 = if idx < d1.fragments.len() && d1.fragments[idx] is None {
                UrDecoderModel {
                    fragments: d1.fragments.update(idx, Some(f.data)),
                    received: (d1.received + 1) as u32,
                    ..d1
                }
            } else {
                d1
            };
            if d2.received == d2.total.unwrap() {
                (d2, concat_slots(d2.fragments))
            } else {
                (d2, None)
            }
        }
    }
}

/// Feeding raw scan data: data that is not a UR fragment changes nothing.
pub open spec fn feed_spec(d: UrDecoderModel, data: Seq<u8>) -> (UrDecoderModel, Option<Seq<u8>>) {
    match ur_fragment_spec(data) {
        None => (d, None),
        Some(f) => feed_fragment(d, f),
    }
}

/// Reassembles multi-part UR fragment sequences. Fragments may arrive in any
/// order; when every fragment has arrived, the concatenated payload is
/// returned.
#[derive(Debug)]
pub struct UrDecoder {
    total: Option<u32>,
    hash: Option<String>,
    fragments: Vec<Option<Vec<u8>>>,
    received: u32,
}

impl View for UrDecoder {
    type V = UrDecoderModel;

    closed spec fn view(&self) -> UrDecoderModel {
        decoder_model(self.total, self.hash, self.fragments@, self.received)
    }
}

/// The decoder state that the given field values stand for.
spec fn decoder_model(
    total: Option<u32>,
    hash: Option<String>,
    fragments: Seq<Option<Vec<u8>>>,
    received: u32,
) -> UrDecoderModel {
    UrDecoderModel {
        total: total,
        hash: match hash {
            Some(h) => Some(h@),
            None => None,
        },
        fragments: fragments.map_values(|o: Option<Vec<u8>>| slot_view(o)),
        received: received,
    }
}

/// The invariant of a decoder: before the first fragment it is empty;
/// afterwards it has one slot per fragment and counts the filled ones.
pub open spec fn decoder_wf(d: UrDecoderModel) -> bool {
    match d.total {
        None => d.hash is None && d.fragments.len() == 0 && d.received == 0,
        Some(t) => d.hash is Some && d.fragments.len() == t && d.received == count_filled(d.fragments),
    }
}

/// Filling an empty slot adds one to the count of filled slots.
pub proof fn lemma_count_fill(s: Seq<Option<Seq<u8>>>, i: int, x: Seq<u8>)
    requires
        0 <= i < s.len(),
        s[i] is None,
    ensures
        count_filled(s.update(i, Some(x))) == count_filled(s) + 1,
    decreases s.len(),
{
    if i == s.len() - 1 {
        assert(s.update(i, Some(x)).drop_last() =~= s.drop_last());
    } else {
        lemma_count_fill(s.drop_last(), i, x);
        assert(s.update(i, Some(x)).drop_last() =~= s.drop_last().update(i, Some(x)));
    }
}

/// The filled slots are at most all slots, and all of them when the count
/// reaches the length; then the concatenation exists.
pub proof fn lemma_count_bound(s: Seq<Option<Seq<u8>>>)
    ensures
        count_filled(s) <= s.len(),
        count_filled(s) == s.len() ==> concat_slots(s) is Some,
        count_filled(s) < s.len() ==> exists|i: int| 0 <= i < s.len() && #[trigger] s[i] is None,
    decreases s.len(),
{
    if s.len() > 0 {
        lemma_count_bound(s.drop_last());
        if count_filled(s.drop_last()) < s.drop_last().len() {
            let i = choose|i: int| 0 <= i < s.drop_last().len() && #[trigger] s.drop_last()[i] is None;
            assert(s[i] is None);
        }
        if !(s.last() is Some) {
            assert(s[s.len() - 1] is None);
        }
    }
}

/// A fresh list of `n` empty slots.
fn empty_slots(n: usize) -> (v: Vec<Option<Vec<u8>>>)
    ensures
        v@.map_values(|o: Option<Vec<u8>>| slot_view(o)) == Seq::new(n as nat, |i: int| None::<Seq<u8>>),
        count_filled(v@.map_values(|o: Option<Vec<u8>>| slot_view(o))) == 0,
{
    let mut v: Vec<Option<Vec<u8>>> = Vec::new();
    let mut i: usize = 0;
    while i < n
        invariant
            i <= n,
            v@.len() == i,
            forall|j: int| 0 <= j < i ==> #[trigger] v@[j] is None,
            count_filled(v@.map_values(|o: Option<Vec<u8>>| slot_view(o))) == 0,
        decreases n - i,
    {
        let ghost before = v@.map_values(|o: Option<Vec<u8>>| slot_view(o));
        v.push(None);
        proof {
            let after = v@.map_values(|o: Option<Vec<u8>>| slot_view(o));
            assert(after.drop_last() =~= before);
        }
        i += 1;
    }
    proof {
        assert(v@.map_values(|o: Option<Vec<u8>>| slot_view(o)) =~= Seq::new(n as nat, |i: int| None::<Seq<u8>>));
    }
    v
}

impl UrDecoder {
    /// Well-formedness of the decoder state, which every decoder keeps.
    pub open spec fn wf(&self) -> bool {
        decoder_wf(self@)
    }

    /// Every decoder is well formed.
    #[verifier::type_invariant]
    spec fn decoder_inv(self) -> bool {
        decoder_wf(self@)
    }

    /// A decoder with no fragments received.
    pub fn new() -> (d: Self)
        ensures
            d@ == empty_decoder(),
            d.wf(),
    {
        let d = UrDecoder { total: None, hash: None, fragments: Vec::new(), received: 0 };
        proof {
            assert(d@.fragments =~= Seq::<Option<Seq<u8>>>::empty());
        }
        d
    }

    /// Discards all received fragments.
    pub fn reset(&mut self)
        ensures
            final(self)@ == empty_decoder(),
            final(self).wf(),
    {
        *self = UrDecoder::new();
    }

    /// Feeds one fragment and returns the assembled payload once every
    /// fragment has arrived. Non-fragments and index 0 are ignored, a hash
    /// that differs from the first fragment's is rejected, duplicates are
    /// ignored, and the first fragment fixes the total.
    pub fn feed(&mut self, data: &[u8]) -> (r: Option<Vec<u8>>)
        ensures
            final(self).wf(),
            final(self)@ == feed_spec(old(self)@, data@).0,
            match r {
                Some(v) => feed_spec(old(self)@, data@).1 == Some(v@),
                None => feed_spec(old(self)@, data@).1 is None,
            },
    {
        proof {
            use_type_invariant(&*self);
        }
        let fragment = match parse_ur_fragment(data) {
            Some(f) => f,
            None => {
                return None;
            },
        };
        if fragment.index == 0 {
            return None;
        }
        let ghost d0 = self@;
        let mut cur = UrDecoder::new();
        core::mem::swap(self, &mut cur);
        proof {
            use_type_invariant(&cur);
        }
        let UrDecoder { total, hash, fragments, received } = cur;
        let mut total = total;
        let mut hash = hash;
        let mut fragments = fragments;
        let mut received = received;
        if total.is_none() {
            total = Some(fragment.total);
            hash = Some(fragment.hash.clone());
            fragments = empty_slots(fragment.total as usize);
        }
        let ghost d1 = decoder_model(total, hash, fragments@, received);
        proof {
            if d0.total is None {
                assert(d1.fragments =~= Seq::new(fragment@.total as nat, |i: int| None::<Seq<u8>>));
            } else {
                assert(d1 == d0);
            }
            assert(decoder_wf(d1));
        }
        let same_hash = match &hash {
            Some(h) => *h == fragment.hash,
            None => false,
        };
        if !same_hash {
            *self = UrDecoder { total, hash, fragments, received };
            return None;
        }
        let idx = (fragment.index - 1) as usize;
        if idx < fragments.len() && fragments[idx].is_none() {
            proof {
                lemma_count_bound(d1.fragments);
                lemma_count_fill(d1.fragments, idx as int, fragment.data@);
                lemma_count_drop(d1.fragments, idx as int);
            }
            fragments.set(idx, Some(fragment.data));
            received = received + 1;
            proof {
                assert(decoder_model(total, hash, fragments@, received).fragments =~= d1.fragments.update(
                    idx as int,
                    Some(fragment@.data),
                ));
            }
        }
        let ghost d2 = decoder_model(total, hash, fragments@, received);
        proof {
            assert(decoder_wf(d2));
        }
        let t = match total {
            Some(t) => t,
            None => {
                *self = UrDecoder { total, hash, fragments, received };
                return None;
            },
        };
        if received == t {
            let ghost slots = d2.fragments;
            proof {
                lemma_count_bound(slots);
            }
            let mut result: Vec<u8> = Vec::new();
            let mut i: usize = 0;
            while i < fragments.len()
                invariant
                    i <= fragments.len(),
                    slots == fragments@.map_values(|o: Option<Vec<u8>>| slot_view(o)),
                    concat_slots(slots.subrange(0, i as int)) == Some(result@),
                    concat_slots(slots) is Some,
                    count_filled(slots) == slots.len(),
                decreases fragments.len() - i,
            {
                proof {
                    assert(slots.subrange(0, i + 1).drop_last() =~= slots.subrange(0, i as int));
                    lemma_all_filled(slots, i as int);
                }
                match &fragments[i] {
                    Some(d) => {
                        let ghost before = result@;
                        let mut k: usize = 0;
                        while k < d.len()
                            invariant
                                k <= d.len(),
                                result@ == before + d@.subrange(0, k as int),
                            decreases d.len() - k,
                        {
                            result.push(d[k]);
                            k += 1;
                            proof {
                                assert(result@ =~= before + d@.subrange(0, k as int));
                            }
                        }
                        proof {
                            assert(d@.subrange(0, d@.len() as int) =~= d@);
                        }
                    },
                    None => {
                        *self = UrDecoder { total, hash, fragments, received };
                        return None;
                    },
                }
                i += 1;
            }
            proof {
                assert(slots.subrange(0, slots.len() as int) =~= slots);
            }
            *self = UrDecoder { total, hash, fragments, received };
            return Some(result);
        }
        *self = UrDecoder { total, hash, fragments, received };
        None
    }

    /// Fragments received and fragments expected (0 before the first).
    pub fn progress(&self) -> (p: (u32, u32))
        ensures
            p.0 == self@.received,
            p.1 == match self@.total {
                Some(t) => t,
                None => 0,
            },
    {
        let total = match self.total {
            Some(t) => t,
            None => 0,
        };
        (self.received, total)
    }

    /// True once a fragment has been accepted.
    pub fn is_active(&self) -> (b: bool)
        ensures
            b == self@.total is Some,
    {
        self.total.is_some()
    }

    /// True when every fragment has arrived.
    pub fn is_complete(&self) -> (b: bool)
        ensures
            b == match self@.total {
                Some(t) => self@.received == t,
                None => false,
            },
    {
        match self.total {
            Some(t) => self.received == t,
            None => false,
        }
    }
}

/// When every slot is filled, each one is.
pub proof fn lemma_all_filled(s: Seq<Option<Seq<u8>>>, i: int)
    requires
        count_filled(s) == s.len(),
        0 <= i < s.len(),
    ensures
        s[i] is Some,
{
    lemma_count_bound(s);
    if s[i] is None {
        lemma_count_drop(s, i);
    }
}

/// An empty slot keeps the count below the length.
proof fn lemma_count_drop(s: Seq<Option<Seq<u8>>>, i: int)
    requires
        0 <= i < s.len(),
        s[i] is None,
    ensures
        count_filled(s) < s.len(),
    decreases s.len(),
{
    lemma_count_bound(s.drop_last());
    if i < s.len() - 1 {
        lemma_count_drop(s.drop_last(), i);
    }
}

impl Default for UrDecoder {
    fn default() -> (d: Self)
        ensures
            d@ == empty_decoder(),
            d.wf(),
    {
        Self::new()
    }
}


// ============================================================================
// Reassembly of a complete fragment sequence
// ============================================================================

/// The decoder after accepting `fs` in order, with the result of the last.
pub open spec fn feed_all(d: UrDecoderModel, fs: Seq<UrFragmentModel>) -> (UrDecoderModel, Option<Seq<u8>>)
    decreases fs.len(),
{
    if fs.len() == 0 {
        (d, None)
    } else {
        feed_fragment(feed_all(d, fs.drop_last()).0, fs.last())
    }
}

/// The decoder after feeding each of `datas` in order, with the result of the
/// last.
pub open spec fn feed_data_all(d: UrDecoderModel, datas: Seq<Seq<u8>>) -> (UrDecoderModel, Option<Seq<u8>>)
    decreases datas.len(),
{
    if datas.len() == 0 {
        (d, None)
    } else {
        feed_spec(feed_data_all(d, datas.drop_last()).0, datas.last())
    }
}

/// The payload of the fragment of `fs` that carries index `i + 1`, if any.
pub open spec fn slot_of(fs: Seq<UrFragmentModel>, i: int) -> Option<Seq<u8>> {
    if exists|j: int| 0 <= j < fs.len() && #[trigger] fs[j].index == i + 1 {
        Some(fs[choose|j: int| 0 <= j < fs.len() && #[trigger] fs[j].index == i + 1].data)
    } else {
        None
    }
}

/// The `n` slots that the fragments `fs` fill.
pub open spec fn slots_of(fs: Seq<UrFragmentModel>, n: nat) -> Seq<Option<Seq<u8>>> {
    Seq::new(n, |i: int| slot_of(fs, i))
}

/// Fragments of one sequence of `n`: same total and hash, indices from 1 to
/// `n`, no index twice.
pub open spec fn fragments_of_sequence(fs: Seq<UrFragmentModel>, n: u32, h: Seq<char>) -> bool {
    &&& forall|k: int|
        0 <= k < fs.len() ==> (#[trigger] fs[k]).total == n && fs[k].hash == h && 1 <= fs[k].index
            <= n
    &&& forall|j: int, k: int| 0 <= j < k < fs.len() ==> (#[trigger] fs[j]).index != (#[trigger] fs[k]).index
}

/// A list of empty slots holds nothing.
proof fn lemma_count_none(n: nat)
    ensures
        count_filled(Seq::new(n, |i: int| None::<Seq<u8>>)) == 0,
    decreases n,
{
    if n > 0 {
        lemma_count_none((n - 1) as nat);
        assert(Seq::new(n, |i: int| None::<Seq<u8>>).drop_last() =~= Seq::new(
            (n - 1) as nat,
            |i: int| None::<Seq<u8>>,
        ));
    }
}

/// Appending a fragment with a new index fills exactly its slot.
proof fn lemma_slots_push(p: Seq<UrFragmentModel>, n: u32, h: Seq<char>)
    requires
        p.len() >= 1,
        fragments_of_sequence(p, n, h),
    ensures
        slots_of(p, n as nat) == slots_of(p.drop_last(), n as nat).update(
            p.last().index - 1,
            Some(p.last().data),
        ),
        slots_of(p.drop_last(), n as nat)[p.last().index - 1] is None,
{
    let q = p.drop_last();
    let f = p.last();
    let last = p.len() - 1;
    let idx = f.index - 1;
    assert(p[last] == f);
    assert forall|j: int| 0 <= j < q.len() implies #[trigger] q[j].index != f.index by {
        assert(q[j] == p[j]);
        assert(p[j].index != p[last].index);
    }
    assert(!(exists|j: int| 0 <= j < q.len() && #[trigger] q[j].index == idx + 1));
    assert forall|i: int| 0 <= i < n implies #[trigger] slots_of(p, n as nat)[i] == slots_of(
        q,
        n as nat,
    ).update(idx, Some(f.data))[i] by {
        if i == idx {
            assert(p[last].index == i + 1);
            let j = choose|j: int| 0 <= j < p.len() && #[trigger] p[j].index == i + 1;
            if j != last {
                assert(p[j].index != p[last].index);
            }
        } else {
            if exists|j: int| 0 <= j < p.len() && #[trigger] p[j].index == i + 1 {
                let j = choose|j: int| 0 <= j < p.len() && #[trigger] p[j].index == i + 1;
                assert(j != last);
                assert(q[j] == p[j]);
                let j2 = choose|j2: int| 0 <= j2 < q.len() && #[trigger] q[j2].index == i + 1;
                assert(q[j2] == p[j2]);
                if j2 < j {
                    assert(p[j2].index != p[j].index);
                } else if j < j2 {
                    assert(p[j].index != p[j2].index);
                }
            } else {
                assert forall|j: int| 0 <= j < q.len() implies #[trigger] q[j].index != i + 1 by {
                    assert(q[j] == p[j]);
                }
            }
        }
    }
    assert(slots_of(p, n as nat) =~= slots_of(q, n as nat).update(idx, Some(f.data)));
}

/// After the fragments `p` of one sequence of `n`, the decoder holds their
/// payloads in their slots and counts them, and it delivers a result exactly
/// when all `n` have arrived.
proof fn lemma_feed_prefix(p: Seq<UrFragmentModel>, n: u32, h: Seq<char>)
    requires
        1 <= p.len() <= n,
        fragments_of_sequence(p, n, h),
    ensures
        feed_all(empty_decoder(), p).0 == (UrDecoderModel {
            total: Some(n),
            hash: Some(h),
            fragments: slots_of(p, n as nat),
            received: p.len() as u32,
        }),
        count_filled(slots_of(p, n as nat)) == p.len(),
        feed_all(empty_decoder(), p).1 == if p.len() == n {
            concat_slots(slots_of(p, n as nat))
        } else {
            None
        },
    decreases p.len(),
{
    let q = p.drop_last();
    let f = p.last();
    assert(p[p.len() - 1] == f);
    lemma_slots_push(p, n, h);
    if q.len() == 0 {
        assert(feed_all(empty_decoder(), q).0 == empty_decoder());
        lemma_count_none(n as nat);
        assert(slots_of(q, n as nat) =~= Seq::new(n as nat, |i: int| None::<Seq<u8>>));
        lemma_count_fill(slots_of(q, n as nat), f.index - 1, f.data);
    } else {
        assert forall|k: int| 0 <= k < q.len() implies (#[trigger] q[k]).total == n && q[k].hash
            == h && 1 <= q[k].index <= n by {
            assert(q[k] == p[k]);
        }
        assert forall|j: int, k: int| 0 <= j < k < q.len() implies (#[trigger] q[j]).index != (
        #[trigger] q[k]).index by {
            assert(q[j] == p[j]);
            assert(q[k] == p[k]);
        }
        lemma_feed_prefix(q, n, h);
        lemma_count_fill(slots_of(q, n as nat), f.index - 1, f.data);
    }
}

/// Reassembly: fragments `1..=n` of one sequence, fed in any order, give no
/// result until the last of them, and then the payloads of all `n` joined in
/// index order. Every slot is filled at that point.
pub proof fn lemma_ur_reassembly(fs: Seq<UrFragmentModel>, h: Seq<char>)
    requires
        1 <= fs.len() <= u32::MAX,
        fragments_of_sequence(fs, fs.len() as u32, h),
    ensures
        forall|k: int|
            1 <= k < fs.len() ==> (#[trigger] feed_all(empty_decoder(), fs.subrange(0, k))).1 is None,
        forall|i: int| 0 <= i < fs.len() ==> (#[trigger] slot_of(fs, i)) is Some,
        feed_all(empty_decoder(), fs).1 == concat_slots(slots_of(fs, fs.len())),
        concat_slots(slots_of(fs, fs.len())) is Some,
{
    let n = fs.len() as u32;
    assert forall|k: int| 1 <= k < fs.len() implies (#[trigger] feed_all(
        empty_decoder(),
        fs.subrange(0, k),
    )).1 is None by {
        let p = fs.subrange(0, k);
        assert forall|m: int| 0 <= m < p.len() implies (#[trigger] p[m]).total == n && p[m].hash
            == h && 1 <= p[m].index <= n by {
            assert(p[m] == fs[m]);
        }
        assert forall|j: int, m: int| 0 <= j < m < p.len() implies (#[trigger] p[j]).index != (
        #[trigger] p[m]).index by {
            assert(p[j] == fs[j]);
            assert(p[m] == fs[m]);
        }
        lemma_feed_prefix(p, n, h);
    }
    lemma_feed_prefix(fs, n, h);
    let slots = slots_of(fs, fs.len());
    lemma_count_bound(slots);
    assert forall|i: int| 0 <= i < fs.len() implies (#[trigger] slot_of(fs, i)) is Some by {
        lemma_all_filled(slots, i);
    }
}

/// Feeding raw fragments is feeding what they parse to.
pub proof fn lemma_feed_data_parsed(d: UrDecoderModel, datas: Seq<Seq<u8>>, fs: Seq<UrFragmentModel>)
    requires
        datas.len() == fs.len(),
        forall|k: int| 0 <= k < datas.len() ==> ur_fragment_spec(#[trigger] datas[k]) == Some(fs[k]),
    ensures
        feed_data_all(d, datas) == feed_all(d, fs),
    decreases datas.len(),
{
    if datas.len() > 0 {
        let dq = datas.drop_last();
        let fq = fs.drop_last();
        assert forall|k: int| 0 <= k < dq.len() implies ur_fragment_spec(#[trigger] dq[k]) == Some(
            fq[k],
        ) by {
            assert(dq[k] == datas[k]);
            assert(fq[k] == fs[k]);
        }
        lemma_feed_data_parsed(d, dq, fq);
        assert(ur_fragment_spec(datas[datas.len() - 1]) == Some(fs[fs.len() - 1]));
    }
}


/// Reassembly over raw scans: scans that parse to fragments `1..=n` of one
/// sequence, fed to a fresh decoder in any order, give no result until the
/// last of them, and then the payloads joined in index order.
pub proof fn lemma_ur_reassembly_data(datas: Seq<Seq<u8>>, fs: Seq<UrFragmentModel>, h: Seq<char>)
    requires
        datas.len() == fs.len(),
        1 <= fs.len() <= u32::MAX,
        forall|k: int| 0 <= k < datas.len() ==> ur_fragment_spec(#[trigger] datas[k]) == Some(fs[k]),
        fragments_of_sequence(fs, fs.len() as u32, h),
    ensures
        forall|k: int|
            1 <= k < datas.len() ==> (#[trigger] feed_data_all(
                empty_decoder(),
                datas.subrange(0, k),
            )).1 is None,
        feed_data_all(empty_decoder(), datas).1 == concat_slots(slots_of(fs, fs.len())),
        concat_slots(slots_of(fs, fs.len())) is Some,
{
    lemma_ur_reassembly(fs, h);
    lemma_feed_data_parsed(empty_decoder(), datas, fs);
    assert forall|k: int| 1 <= k < datas.len() implies (#[trigger] feed_data_all(
        empty_decoder(),
        datas.subrange(0, k),
    )).1 is None by {
        let dk = datas.subrange(0, k);
        let fk = fs.subrange(0, k);
        assert forall|m: int| 0 <= m < dk.len() implies ur_fragment_spec(#[trigger] dk[m]) == Some(
            fk[m],
        ) by {
            assert(dk[m] == datas[m]);
            assert(fk[m] == fs[m]);
        }
        lemma_feed_data_parsed(empty_decoder(), dk, fk);
        assert(feed_all(empty_decoder(), fs.subrange(0, k)).1 is None);
    }
}

} // verus!
