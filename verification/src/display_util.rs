//! Text layout for fixed-width screens: wrapping into lines and working out
//! which characters of a centred label are visible.

use vstd::prelude::*;
use vstd::string::StringSliceAdditionalSpecFns;
use vstd::utf8::{encode_utf8_valid_utf8, is_char_boundary, is_char_boundary_start_end_of_seq, valid_utf8};

use crate::text::{
    chars_fit, floor_boundary, floor_char_boundary, lemma_ascii_boundaries, lemma_floor_boundary,
    lemma_floor_progress, lemma_rfind_byte, rfind_byte, rfind_byte_in, str_slice, sub_bytes,
};

verus! {

// ============================================================================
// Character wrapping
// ============================================================================

/// Where the line that starts at `offset` ends: the last character boundary
/// at most `n` bytes further on (or the end of the text).
pub open spec fn wrap_end(b: Seq<u8>, n: int, offset: int) -> int {
    floor_boundary(b, if n < b.len() - offset { offset + n } else { b.len() as int })
}

/// The lines, as byte ranges, of the text from `offset` on, each as long as
/// `n` bytes allow without splitting a character.
pub open spec fn wrap_from(b: Seq<u8>, n: int, offset: int) -> Seq<(usize, usize)>
    decreases b.len() - offset,
{
    if offset < 0 || offset >= b.len() {
        seq![]
    } else {
        let end = wrap_end(b, n, offset);
        if end <= offset || end > b.len() {
            seq![]
        } else {
            seq![(offset as usize, end as usize)] + wrap_from(b, n, end)
        }
    }
}

/// Splits `text` into lines of at most `chars_per_line` bytes, never inside a
/// character, and returns each line as a `(start, end)` byte range.
///
/// Every character of a non-empty text must fit in `chars_per_line` bytes:
/// with a smaller limit no line could make progress.
pub fn wrap_text_offsets(text: &str, chars_per_line: usize) -> (lines: Vec<(usize, usize)>)
    requires
        text.spec_bytes().len() == 0 || chars_fit(text.spec_bytes(), chars_per_line as int),
    ensures
        lines@ == wrap_from(text.spec_bytes(), chars_per_line as int, 0),
{
    let ghost b = text.spec_bytes();
    let ghost n = chars_per_line as int;
    proof {
        encode_utf8_valid_utf8(text@);
        is_char_boundary_start_end_of_seq(b);
    }
    let len = text.as_bytes().len();
    let mut lines: Vec<(usize, usize)> = Vec::new();
    let mut offset: usize = 0;
    while offset < len
        invariant
            b == text.spec_bytes(),
            len == b.len(),
            n == chars_per_line,
            valid_utf8(b),
            b.len() == 0 || chars_fit(b, n),
            offset <= b.len(),
            is_char_boundary(b, offset as int),
            lines@ + wrap_from(b, n, offset as int) == wrap_from(b, n, 0),
        decreases b.len() - offset,
    {
        let remaining = len - offset;
        let take = if chars_per_line < remaining {
            chars_per_line
        } else {
            remaining
        };
        let boundary = floor_char_boundary(text, offset + take);
        proof {
            lemma_floor_progress(b, offset as int, n);
            lemma_floor_boundary(b, offset + take, 0);
            assert(boundary as int == wrap_end(b, n, offset as int));
            let rest = wrap_from(b, n, boundary as int);
            assert(wrap_from(b, n, offset as int) == seq![(offset, boundary)] + rest);
            assert(lines@.push((offset, boundary)) + rest =~= lines@ + (seq![(offset, boundary)]
                + rest));
        }
        lines.push((offset, boundary));
        offset = boundary;
    }
    proof {
        assert(wrap_from(b, n, offset as int) == Seq::<(usize, usize)>::empty());
        assert(lines@ + wrap_from(b, n, offset as int) =~= lines@);
    }
    lines
}

/// The lines from `offset` on tile the rest of the text: the first starts at
/// `offset`, each ends where the next starts, the last ends at the end of the
/// text, and each is non-empty, at most `n` bytes long and bounded by
/// character boundaries.
pub proof fn lemma_wrap_from_tiles(b: Seq<u8>, n: int, offset: int)
    requires
        valid_utf8(b),
        b.len() <= usize::MAX,
        chars_fit(b, n),
        0 <= offset <= b.len(),
        is_char_boundary(b, offset),
    ensures
        ({
            let lines = wrap_from(b, n, offset);
            &&& (offset < b.len() ==> lines.len() > 0 && lines[0].0 == offset && lines.last().1
                == b.len())
            &&& (offset == b.len() ==> lines.len() == 0)
            &&& forall|i: int|
                0 <= i < lines.len() ==> offset <= #[trigger] lines[i].0 < lines[i].1 <= b.len()
                    && lines[i].1 - lines[i].0 <= n && is_char_boundary(b, lines[i].0 as int)
                    && is_char_boundary(b, lines[i].1 as int)
            &&& forall|i: int| 0 <= i < lines.len() - 1 ==> #[trigger] lines[i].1 == lines[i + 1].0
        }),
    decreases b.len() - offset,
{
    if offset < b.len() {
        lemma_floor_progress(b, offset, n);
        let x = if n < b.len() - offset {
            offset + n
        } else {
            b.len() as int
        };
        lemma_floor_boundary(b, x, 0);
        let end = wrap_end(b, n, offset);
        lemma_wrap_from_tiles(b, n, end);
        let rest = wrap_from(b, n, end);
        let lines = wrap_from(b, n, offset);
        assert(lines == seq![(offset as usize, end as usize)] + rest);
        assert forall|i: int| 0 <= i < lines.len() implies offset <= #[trigger] lines[i].0
            < lines[i].1 <= b.len() && lines[i].1 - lines[i].0 <= n && is_char_boundary(
            b,
            lines[i].0 as int,
        ) && is_char_boundary(b, lines[i].1 as int) by {
            if i > 0 {
                assert(lines[i] == rest[i - 1]);
            }
        }
        assert forall|i: int| 0 <= i < lines.len() - 1 implies #[trigger] lines[i].1 == lines[i
            + 1].0 by {
            assert(lines[i + 1] == rest[i]);
            if i > 0 {
                assert(lines[i] == rest[i - 1]);
            }
        }
    }
}

/// The lines of `wrap_text_offsets` tile the text.
pub proof fn lemma_wrap_text_tiles(b: Seq<u8>, n: int)
    requires
        valid_utf8(b),
        b.len() <= usize::MAX,
        chars_fit(b, n),
    ensures
        ({
            let lines = wrap_from(b, n, 0);
            &&& (b.len() > 0 ==> lines.len() > 0 && lines[0].0 == 0 && lines.last().1 == b.len())
            &&& (b.len() == 0 ==> lines.len() == 0)
            &&& forall|i: int|
                0 <= i < lines.len() ==> #[trigger] lines[i].0 < lines[i].1 && lines[i].1
                    - lines[i].0 <= n && is_char_boundary(b, lines[i].0 as int)
                    && is_char_boundary(b, lines[i].1 as int)
            &&& forall|i: int| 0 <= i < lines.len() - 1 ==> #[trigger] lines[i].1 == lines[i + 1].0
        }),
{
    is_char_boundary_start_end_of_seq(b);
    lemma_wrap_from_tiles(b, n, 0);
}

// ============================================================================
// Centred labels
// ============================================================================

/// The visible character range `(start, end)` of a label of `len`
/// characters, `fw` pixels each, centred on `cx` of a `dw` pixel wide
/// screen: the characters pushed off the left edge are skipped, and as many
/// as fit in the remaining width are shown.
pub open spec fn centered_range(len: int, fw: int, dw: int, cx: int) -> (int, int) {
    if len == 0 || fw == 0 {
        (0, 0)
    } else {
        let left = cx - (len * fw) / 2;
        let hidden = if left < 0 { (-left) / fw } else { 0 };
        let start_px = if left < 0 { 0 } else { left };
        let width_px = if dw > start_px { dw - start_px } else { 0 };
        let start = if hidden < len { hidden } else { len };
        let end = if start + width_px / fw < len { start + width_px / fw } else { len };
        (start, end)
    }
}

/// Which characters of a centred label are visible on the screen, as a
/// `(start, end)` character range.
pub fn centered_visible_range(
    text_len_chars: usize,
    font_width: usize,
    display_width: usize,
    center_x: usize,
) -> (r: (usize, usize))
    requires
        text_len_chars * font_width <= usize::MAX,
    ensures
        r.0 == centered_range(
            text_len_chars as int,
            font_width as int,
            display_width as int,
            center_x as int,
        ).0,
        r.1 == centered_range(
            text_len_chars as int,
            font_width as int,
            display_width as int,
            center_x as int,
        ).1,
        r.0 <= r.1 <= text_len_chars,
        font_width > 0 ==> r.1 - r.0 <= display_width / font_width,
{
    if text_len_chars == 0 || font_width == 0 {
        return (0, 0);
    }
    let text_width = text_len_chars * font_width;
    let half = text_width / 2;
    let (chars_hidden_left, visible_start_px) = if half > center_x {
        ((half - center_x) / font_width, 0)
    } else {
        (0, center_x - half)
    };
    let visible_width_px = if display_width > visible_start_px {
        display_width - visible_start_px
    } else {
        0
    };
    let chars_visible_in_width = visible_width_px / font_width;
    let start = if chars_hidden_left < text_len_chars {
        chars_hidden_left
    } else {
        text_len_chars
    };
    let end = if chars_visible_in_width < text_len_chars - start {
        start + chars_visible_in_width
    } else {
        text_len_chars
    };
    proof {
        assert(visible_width_px <= display_width);
        assert(visible_width_px / font_width <= display_width / font_width) by (nonlinear_arith)
            requires
                visible_width_px <= display_width,
                font_width > 0,
        ;
    }
    (start, end)
}

/// A label that fits between the screen's edges around its centre is shown
/// whole.
pub proof fn lemma_centered_fits(len: int, fw: int, dw: int, cx: int)
    requires
        len > 0,
        fw > 0,
        (len * fw) / 2 <= cx,
        cx - (len * fw) / 2 + len * fw <= dw,
    ensures
        centered_range(len, fw, dw, cx) == (0int, len),
{
    let w = len * fw;
    let left = cx - w / 2;
    assert((dw - left) / fw >= len) by (nonlinear_arith)
        requires
            dw - left >= len * fw,
            fw > 0,
            len > 0,
    ;
}

// ============================================================================
// Word wrapping
// ============================================================================

/// The lines, as byte ranges, of the text from `cur` on, broken at the last
/// space that fits in `n` bytes (the space itself is dropped), or else at
/// the last character boundary that fits.
pub open spec fn word_wrap_from(b: Seq<u8>, n: int, cur: int) -> Seq<(int, int)>
    decreases b.len() - cur,
{
    if cur < 0 || cur >= b.len() {
        seq![]
    } else if b.len() - cur <= n {
        seq![(cur, b.len() as int)]
    } else {
        let end = floor_boundary(b, cur + n);
        let k = rfind_byte(b.subrange(cur, end), 0x20);
        if 0 <= k && cur + k < end <= b.len() {
            seq![(cur, cur + k)] + word_wrap_from(b, n, cur + k + 1)
        } else if cur < end <= b.len() {
            seq![(cur, end)] + word_wrap_from(b, n, end)
        } else {
            seq![]
        }
    }
}

/// Splits `text` into lines of at most `chars_per_line` bytes, breaking at
/// spaces where it can and inside a word only where the word is longer than
/// a line.
///
/// Every character of a non-empty text must fit in `chars_per_line` bytes:
/// with a smaller limit no line could make progress.
pub fn word_wrap(text: &str, chars_per_line: usize) -> (lines: Vec<&str>)
    requires
        text.spec_bytes().len() == 0 || chars_fit(text.spec_bytes(), chars_per_line as int),
    ensures
        lines@.len() == word_wrap_from(text.spec_bytes(), chars_per_line as int, 0).len(),
        forall|i: int|
            0 <= i < lines@.len() ==> (#[trigger] lines@[i]).spec_bytes() == text.spec_bytes().subrange(
                word_wrap_from(text.spec_bytes(), chars_per_line as int, 0)[i].0,
                word_wrap_from(text.spec_bytes(), chars_per_line as int, 0)[i].1,
            ),
{
    let ghost b = text.spec_bytes();
    let ghost n = chars_per_line as int;
    let ghost all = word_wrap_from(b, n, 0);
    proof {
        encode_utf8_valid_utf8(text@);
        is_char_boundary_start_end_of_seq(b);
    }
    let bytes = text.as_bytes();
    let len = bytes.len();
    let mut lines: Vec<&str> = Vec::new();
    let ghost mut done: Seq<(int, int)> = seq![];
    let mut cur: usize = 0;
    while cur < len
        invariant
            b == text.spec_bytes(),
            bytes@ == b,
            len == b.len(),
            n == chars_per_line,
            all == word_wrap_from(b, n, 0),
            valid_utf8(b),
            b.len() == 0 || chars_fit(b, n),
            cur <= b.len(),
            is_char_boundary(b, cur as int),
            done + word_wrap_from(b, n, cur as int) == all,
            lines@.len() == done.len(),
            forall|i: int|
                0 <= i < lines@.len() ==> (#[trigger] lines@[i]).spec_bytes() == b.subrange(
                    done[i].0,
                    done[i].1,
                ),
        decreases b.len() - cur,
    {
        let ghost rest = word_wrap_from(b, n, cur as int);
        if len - cur <= chars_per_line {
            proof {
                is_char_boundary_start_end_of_seq(b);
                assert(rest == seq![(cur as int, b.len() as int)]);
                assert(word_wrap_from(b, n, len as int) == Seq::<(int, int)>::empty());
                assert(done.push((cur as int, len as int)) + word_wrap_from(b, n, len as int)
                    =~= done + rest);
            }
            lines.push(str_slice(text, cur, len));
            proof {
                done = done.push((cur as int, len as int));
            }
            cur = len;
        } else {
            let end = floor_char_boundary(text, cur + chars_per_line);
            proof {
                lemma_floor_progress(b, cur as int, n);
                lemma_floor_boundary(b, cur + chars_per_line, 0);
            }
            let chunk = sub_bytes(bytes, cur, end);
            proof {
                lemma_rfind_byte(chunk@, 0x20);
            }
            match rfind_byte_in(chunk, 0x20) {
                Some(k) => {
                    proof {
                        assert(chunk@[k as int] == b[cur + k]);
                        lemma_ascii_boundaries(b, cur + k);
                        assert(rest == seq![(cur as int, cur + k)] + word_wrap_from(
                            b,
                            n,
                            cur + k + 1,
                        ));
                        assert(done.push((cur as int, cur + k)) + word_wrap_from(b, n, cur + k + 1)
                            =~= done + rest);
                    }
                    lines.push(str_slice(text, cur, cur + k));
                    proof {
                        done = done.push((cur as int, cur + k));
                    }
                    cur = cur + k + 1;
                },
                None => {
                    proof {
                        assert(rest == seq![(cur as int, end as int)] + word_wrap_from(b, n, end as int));
                        assert(done.push((cur as int, end as int)) + word_wrap_from(b, n, end as int)
                            =~= done + rest);
                    }
                    lines.push(str_slice(text, cur, end));
                    proof {
                        done = done.push((cur as int, end as int));
                    }
                    cur = end;
                },
            }
        }
    }
    proof {
        assert(word_wrap_from(b, n, cur as int) == Seq::<(int, int)>::empty());
        assert(done + word_wrap_from(b, n, cur as int) =~= done);
    }
    lines
}

/// The word-wrapped lines from `cur` on cover the rest of the text in order:
/// the first starts at `cur`, the last ends at the end of the text, each is
/// at most `n` bytes long, and between two lines there is either nothing or
/// exactly one space.
pub proof fn lemma_word_wrap_from_covers(b: Seq<u8>, n: int, cur: int)
    requires
        valid_utf8(b),
        chars_fit(b, n),
        0 <= cur <= b.len(),
        is_char_boundary(b, cur),
    ensures
        ({
            let lines = word_wrap_from(b, n, cur);
            &&& (cur < b.len() ==> lines.len() > 0 && lines[0].0 == cur && lines.last().1
                == b.len())
            &&& (cur == b.len() ==> lines.len() == 0)
            &&& forall|i: int|
                0 <= i < lines.len() ==> cur <= #[trigger] lines[i].0 <= lines[i].1 <= b.len()
                    && lines[i].1 - lines[i].0 <= n
            &&& forall|i: int|
                0 < i < lines.len() ==> #[trigger] lines[i].0 == lines[i - 1].1 || (lines[i].0
                    == lines[i - 1].1 + 1 && b[lines[i - 1].1] == 0x20)
        }),
    decreases b.len() - cur,
{
    if cur < b.len() && b.len() - cur > n {
        lemma_floor_progress(b, cur, n);
        lemma_floor_boundary(b, cur + n, 0);
        let end = floor_boundary(b, cur + n);
        let chunk = b.subrange(cur, end);
        lemma_rfind_byte(chunk, 0x20);
        let k = rfind_byte(chunk, 0x20);
        let next = if k >= 0 {
            cur + k + 1
        } else {
            end
        };
        if k >= 0 {
            assert(chunk[k] == b[cur + k]);
            lemma_ascii_boundaries(b, cur + k);
        }
        lemma_word_wrap_from_covers(b, n, next);
        let rest = word_wrap_from(b, n, next);
        let lines = word_wrap_from(b, n, cur);
        let first = if k >= 0 {
            (cur, cur + k)
        } else {
            (cur, end)
        };
        assert(lines == seq![first] + rest);
        assert forall|i: int| 0 <= i < lines.len() implies cur <= #[trigger] lines[i].0
            <= lines[i].1 <= b.len() && lines[i].1 - lines[i].0 <= n by {
            if i > 0 {
                assert(lines[i] == rest[i - 1]);
            }
        }
        assert forall|i: int| 0 < i < lines.len() implies #[trigger] lines[i].0 == lines[i
            - 1].1 || (lines[i].0 == lines[i - 1].1 + 1 && b[lines[i - 1].1] == 0x20) by {
            assert(lines[i] == rest[i - 1]);
            if i > 1 {
                assert(lines[i - 1] == rest[i - 2]);
            } else {
                assert(lines[0] == first);
                assert(rest[0].0 == next);
                if k >= 0 {
                    assert(b[cur + k] == 0x20);
                }
            }
        }
    }
}

/// The lines of `word_wrap` cover the whole text in order, each at most
/// `n` bytes, with nothing or exactly one space between two lines.
pub proof fn lemma_word_wrap_covers(b: Seq<u8>, n: int)
    requires
        valid_utf8(b),
        chars_fit(b, n),
    ensures
        ({
            let lines = word_wrap_from(b, n, 0);
            &&& (b.len() > 0 ==> lines.len() > 0 && lines[0].0 == 0 && lines.last().1 == b.len())
            &&& (b.len() == 0 ==> lines.len() == 0)
            &&& forall|i: int|
                0 <= i < lines.len() ==> 0 <= #[trigger] lines[i].0 <= lines[i].1 <= b.len()
                    && lines[i].1 - lines[i].0 <= n
            &&& forall|i: int|
                0 < i < lines.len() ==> #[trigger] lines[i].0 == lines[i - 1].1 || (lines[i].0
                    == lines[i - 1].1 + 1 && b[lines[i - 1].1] == 0x20)
        }),
{
    is_char_boundary_start_end_of_seq(b);
    lemma_word_wrap_from_covers(b, n, 0);
}

/// Word wrapping fills each line: every line but the last was broken
/// because the rest of the text did not fit, and no space lies after its end
/// within `n` bytes of its start (it breaks at the last space that fits);
/// a line broken inside a word has no space at all within `n` bytes of its
/// start.
pub proof fn lemma_word_wrap_from_maximal(b: Seq<u8>, n: int, cur: int)
    requires
        valid_utf8(b),
        chars_fit(b, n),
        0 <= cur <= b.len(),
        is_char_boundary(b, cur),
    ensures
        ({
            let lines = word_wrap_from(b, n, cur);
            forall|i: int|
                0 <= i < lines.len() - 1 ==> {
                    &&& #[trigger] lines[i].0 + n < b.len()
                    &&& forall|p: int| lines[i].1 < p < lines[i].0 + n ==> b[p] != 0x20
                    &&& lines[i + 1].0 == lines[i].1 ==> forall|p: int|
                        lines[i].0 <= p < lines[i].0 + n ==> b[p] != 0x20
                }
        }),
    decreases b.len() - cur,
{
    if cur < b.len() && b.len() - cur > n {
        lemma_floor_progress(b, cur, n);
        lemma_floor_boundary(b, cur + n, 0);
        let end = floor_boundary(b, cur + n);
        let chunk = b.subrange(cur, end);
        lemma_rfind_byte(chunk, 0x20);
        let k = rfind_byte(chunk, 0x20);
        let next = if k >= 0 {
            cur + k + 1
        } else {
            end
        };
        if k >= 0 {
            assert(chunk[k] == b[cur + k]);
            lemma_ascii_boundaries(b, cur + k);
        }
        lemma_word_wrap_from_maximal(b, n, next);
        lemma_word_wrap_from_covers(b, n, next);
        let rest = word_wrap_from(b, n, next);
        let lines = word_wrap_from(b, n, cur);
        let first = if k >= 0 {
            (cur, cur + k)
        } else {
            (cur, end)
        };
        assert(lines == seq![first] + rest);
        assert forall|p: int| end <= p < cur + n implies b[p] != 0x20 by {
            if b[p] == 0x20 {
                lemma_ascii_boundaries(b, p);
                lemma_floor_boundary(b, cur + n, p + 1);
            }
        }
        assert forall|p: int| first.1 < p < cur + n implies b[p] != 0x20 by {
            if p < end {
                assert(chunk[p - cur] == b[p]);
            }
        }
        if k < 0 {
            assert forall|p: int| cur <= p < cur + n implies b[p] != 0x20 by {
                if p < end {
                    assert(chunk[p - cur] == b[p]);
                }
            }
        }
        assert forall|i: int| 0 <= i < lines.len() - 1 implies {
            &&& #[trigger] lines[i].0 + n < b.len()
            &&& forall|p: int| lines[i].1 < p < lines[i].0 + n ==> b[p] != 0x20
            &&& lines[i + 1].0 == lines[i].1 ==> forall|p: int|
                lines[i].0 <= p < lines[i].0 + n ==> b[p] != 0x20
        } by {
            if i > 0 {
                assert(lines[i] == rest[i - 1]);
                assert(lines[i + 1] == rest[i]);
            } else {
                assert(lines[0] == first);
                assert(lines[1] == rest[0]);
                assert(rest[0].0 == next);
            }
        }
    }
}

/// The lines of `word_wrap` are as full as the text allows: each line but
/// the last ends at the last space that fits in `n` bytes from its start,
/// or, when no space fits, is cut inside a word with no space within those
/// `n` bytes; and it is cut at all only because the rest did not fit.
pub proof fn lemma_word_wrap_maximal(b: Seq<u8>, n: int)
    requires
        valid_utf8(b),
        chars_fit(b, n),
    ensures
        ({
            let lines = word_wrap_from(b, n, 0);
            forall|i: int|
                0 <= i < lines.len() - 1 ==> {
                    &&& #[trigger] lines[i].0 + n < b.len()
                    &&& forall|p: int| lines[i].1 < p < lines[i].0 + n ==> b[p] != 0x20
                    &&& lines[i + 1].0 == lines[i].1 ==> forall|p: int|
                        lines[i].0 <= p < lines[i].0 + n ==> b[p] != 0x20
                }
        }),
{
    is_char_boundary_start_end_of_seq(b);
    lemma_word_wrap_from_maximal(b, n, 0);
}

} // verus!
