//! Laying values out as bytes and copying them into a caller's memory,
//! which arrives as a list of byte spans that need not be contiguous.

use vstd::prelude::*;

verus! {

/// 256 to the power `i`, for the eight byte positions of a word.
pub open spec fn byte_weight(i: int) -> int {
    if i <= 0 {
        1
    } else if i == 1 {
        0x100
    } else if i == 2 {
        0x1_0000
    } else if i == 3 {
        0x100_0000
    } else if i == 4 {
        0x1_0000_0000
    } else if i == 5 {
        0x100_0000_0000
    } else if i == 6 {
        0x1_0000_0000_0000
    } else {
        0x100_0000_0000_0000
    }
}

/// Byte `i` of `x`, counted from the least significant.
pub open spec fn le_byte(x: int, i: int) -> u8 {
    ((x / byte_weight(i)) % 256) as u8
}

/// The eight bytes of `x`, least significant first.
pub open spec fn le_bytes8(x: u64) -> Seq<u8> {
    Seq::new(8, |i: int| le_byte(x as int, i))
}

/// The bytes of `words`, four for each, least significant first.
pub open spec fn le_words(words: Seq<u32>) -> Seq<u8> {
    Seq::new(4 * words.len(), |t: int| le_byte(words[t / 4] as int, t % 4))
}

/// The number of bytes in the spans before span `k`.
pub open spec fn span_start(spans: Seq<Vec<u8>>, k: int) -> int
    decreases k,
{
    if k <= 0 {
        0
    } else {
        span_start(spans, k - 1) + spans[k - 1]@.len()
    }
}

/// What byte `j` of span `k` holds once `bytes` were copied across
/// `spans`: the byte of `bytes` that falls on it, or what it held where
/// `bytes` ends before it.
pub open spec fn copied_byte(bytes: Seq<u8>, spans: Seq<Vec<u8>>, k: int, j: int) -> u8 {
    let at = span_start(spans, k) + j;
    if at < bytes.len() {
        bytes[at]
    } else {
        spans[k]@[j]
    }
}

/// Whether `after` is `before` with `bytes` copied across it from its start.
pub open spec fn copied_across(bytes: Seq<u8>, before: Seq<Vec<u8>>, after: Seq<Vec<u8>>) -> bool {
    &&& after.len() == before.len()
    &&& forall|k: int| 0 <= k < before.len() ==> (#[trigger] after[k])@.len() == before[k]@.len()
    &&& forall|k: int, j: int|
        0 <= k < before.len() && 0 <= j < before[k]@.len() ==> #[trigger] after[k]@[j]
            == copied_byte(bytes, before, k, j)
}

/// The number of bytes that fit when `len` bytes are copied across `spans`.
pub open spec fn copied_count(len: int, spans: Seq<Vec<u8>>) -> int {
    if len <= span_start(spans, spans.len() as int) {
        len
    } else {
        span_start(spans, spans.len() as int)
    }
}

/// Appends the eight bytes of `x` to `out`, least significant first.
pub fn push_le_bytes8(out: &mut Vec<u8>, x: u64)
    ensures
        final(out)@ == old(out)@ + le_bytes8(x),
{
    out.push((x % 256) as u8);
    out.push(((x / 0x100) % 256) as u8);
    out.push(((x / 0x1_0000) % 256) as u8);
    out.push(((x / 0x100_0000) % 256) as u8);
    out.push(((x / 0x1_0000_0000) % 256) as u8);
    out.push(((x / 0x100_0000_0000) % 256) as u8);
    out.push(((x / 0x1_0000_0000_0000) % 256) as u8);
    out.push(((x / 0x100_0000_0000_0000) % 256) as u8);
    proof {
        assert(out@ =~= old(out)@ + le_bytes8(x));
    }
}

/// Appends the bytes of `words` to `out`, four for each, least significant
/// first.
pub fn push_le_words(out: &mut Vec<u8>, words: &Vec<u32>)
    ensures
        final(out)@ == old(out)@ + le_words(words@),
{
    let ghost head = out@;
    let mut i: usize = 0;
    while i < words.len()
        invariant
            0 <= i <= words.len(),
            out@ == head + le_words(words@.take(i as int)),
        decreases words.len() - i,
    {
        let ghost prev = out@;
        let w = words[i];
        out.push((w % 256) as u8);
        out.push(((w / 0x100) % 256) as u8);
        out.push(((w / 0x1_0000) % 256) as u8);
        out.push(((w / 0x100_0000) % 256) as u8);
        proof {
            let a = le_words(words@.take(i as int));
            let b = le_words(words@.take(i + 1));
            assert(b.len() == a.len() + 4);
            assert forall|t: int| 0 <= t < b.len() implies #[trigger] b[t] == out@[head.len()
                + t] by {
                if t < a.len() {
                    assert(words@.take(i + 1)[t / 4] == words@.take(i as int)[t / 4]);
                    assert(b[t] == a[t]);
                    assert(out@[head.len() + t] == prev[head.len() + t]);
                    assert(prev[head.len() + t] == a[t]);
                } else {
                    assert(t / 4 == i);
                    assert(words@.take(i + 1)[t / 4] == w);
                }
            }
            assert(out@ =~= head + b);
        }
        i += 1;
    }
    proof {
        assert(words@.take(i as int) =~= words@);
    }
}

/// Copies `bytes` across `spans` from their start, span after span, until
/// the bytes or the spans end. Returns how many bytes were copied.
pub fn copy_to_spans(bytes: &Vec<u8>, spans: &mut Vec<Vec<u8>>) -> (n: usize)
    ensures
        copied_across(bytes@, old(spans)@, final(spans)@),
        n == copied_count(bytes@.len() as int, old(spans)@),
{
    let ghost before = spans@;
    let total = bytes.len();
    let mut index: usize = 0;
    let mut k: usize = 0;
    while k < spans.len()
        invariant
            0 <= k <= spans@.len(),
            spans@.len() == before.len(),
            total == bytes@.len(),
            index <= total,
            index == if total <= span_start(before, k as int) {
                total as int
            } else {
                span_start(before, k as int)
            },
            forall|i: int| k <= i < before.len() ==> #[trigger] spans@[i] == before[i],
            forall|i: int| 0 <= i < k ==> (#[trigger] spans@[i])@.len() == before[i]@.len(),
            forall|i: int, j: int|
                0 <= i < k && 0 <= j < before[i]@.len() ==> #[trigger] spans@[i]@[j]
                    == copied_byte(bytes@, before, i, j),
        decreases spans@.len() - k,
    {
        let m = spans[k].len();
        let ghost start = span_start(before, k as int);
        let mut fresh: Vec<u8> = Vec::new();
        let mut j: usize = 0;
        while j < m
            invariant
                0 <= j <= m,
                0 <= k < spans@.len(),
                spans@.len() == before.len(),
                spans@[k as int] == before[k as int],
                m == before[k as int]@.len(),
                start == span_start(before, k as int),
                total == bytes@.len(),
                index <= total,
                index == if total <= start + j {
                    total as int
                } else {
                    start + j
                },
                fresh@.len() == j,
                forall|t: int|
                    0 <= t < j ==> #[trigger] fresh@[t] == copied_byte(bytes@, before, k as int, t),
            decreases m - j,
        {
            if index < total {
                fresh.push(bytes[index]);
                index += 1;
            } else {
                fresh.push(spans[k][j]);
            }
            j += 1;
        }
        spans.set(k, fresh);
        k += 1;
    }
    index
}

} // verus!
