//! Periodicity analyzer: a cheap repeat check on the leading header block,
//! and an autocorrelogram over the leading sample of the buffer. The
//! autocorrelogram is kept exact: per lag, the number of matching byte pairs
//! and the number of comparisons; the [0,1] fraction is their quotient.

use crate::spec_min;
use vstd::prelude::*;

verus! {

/// Bytes of the leading sample that both analyses look at.
pub const SAMPLE_LIMIT: usize = 4096;

/// Number of lags in the autocorrelogram.
pub const MAX_LAG: usize = 128;

/// Length of the header block the repeat check searches for.
pub const HEADER_SIZE: usize = 32;

/// Buffers shorter than this are never flagged as periodic.
pub const REPEAT_MIN_LEN: usize = 1024;

/// One point of the autocorrelogram: at some lag, `matches` of the
/// `comparisons` byte pairs were equal. The plotted value is
/// `matches / comparisons` (zero when there are no comparisons).
#[derive(Clone, Copy, Debug, PartialEq, Eq, Structural)]
pub struct AutocorrPoint {
    pub matches: usize,
    pub comparisons: usize,
}

/// Number of byte pairs compared at `lag` over a sample of `len` bytes.
pub open spec fn lag_comparisons(len: int, lag: int) -> int {
    let sample = spec_min(len, 4096);
    if sample > lag {
        sample - lag
    } else {
        0
    }
}

/// How many of the first `n` positions match their `lag`-shifted partner.
pub open spec fn match_count(data: Seq<u8>, lag: int, n: int) -> int
    decreases n,
{
    if n <= 0 {
        0
    } else {
        match_count(data, lag, n - 1) + if data[n - 1] == data[n - 1 + lag] {
            1int
        } else {
            0int
        }
    }
}

/// The match count never exceeds the number of positions counted.
pub proof fn lemma_match_count_le(data: Seq<u8>, lag: int, n: int)
    ensures
        0 <= match_count(data, lag, n) <= (if n >= 0 {
            n
        } else {
            0
        }),
    decreases n,
{
    if n > 0 {
        lemma_match_count_le(data, lag, n - 1);
    }
}

/// At lag zero every position matches itself.
pub proof fn lemma_match_count_lag_zero(data: Seq<u8>, n: int)
    ensures
        match_count(data, 0, n) == (if n >= 0 {
            n
        } else {
            0
        }),
    decreases n,
{
    if n > 0 {
        lemma_match_count_lag_zero(data, n - 1);
    }
}

/// The full autocorrelogram of a buffer: one point per lag in `0..128`.
pub open spec fn spec_autocorrelation_graph(data: Seq<u8>) -> Seq<AutocorrPoint> {
    Seq::new(
        128,
        |lag: int|
            (AutocorrPoint {
                matches: match_count(data, lag, lag_comparisons(data.len() as int, lag)) as usize,
                comparisons: lag_comparisons(data.len() as int, lag) as usize,
            }),
    )
}

/// Unit-range law: every autocorrelogram has exactly 128 points, each with
/// `matches <= comparisons`, so every plotted fraction lies in [0, 1]; and
/// on a nonempty buffer the lag-0 point matches fully, so its fraction is
/// exactly one.
pub proof fn lemma_autocorrelogram_unit_range(data: Seq<u8>)
    ensures
        spec_autocorrelation_graph(data).len() == 128,
        forall|lag: int|
            0 <= lag < 128 ==> (#[trigger] spec_autocorrelation_graph(data)[lag]).matches
                <= spec_autocorrelation_graph(data)[lag].comparisons,
        data.len() > 0 ==> spec_autocorrelation_graph(data)[0].matches
            == spec_autocorrelation_graph(data)[0].comparisons,
        data.len() > 0 ==> spec_autocorrelation_graph(data)[0].comparisons > 0,
{
    assert forall|lag: int|
        0 <= lag < 128 implies (#[trigger] spec_autocorrelation_graph(data)[lag]).matches
        <= spec_autocorrelation_graph(data)[lag].comparisons by {
        lemma_match_count_le(data, lag, lag_comparisons(data.len() as int, lag));
    }
    if data.len() > 0 {
        lemma_match_count_lag_zero(data, lag_comparisons(data.len() as int, 0));
    }
}

/// Autocorrelogram of the leading sample: for each lag in `0..128`, how many
/// of the `sample_len - lag` byte pairs at that shift agree. A lag with no
/// comparisons yields the zero point. At lag zero every byte matches itself,
/// so the plotted fraction there is one whenever the sample is nonempty.
pub fn calculate_autocorrelation_graph(data: &Vec<u8>) -> (graph: Vec<AutocorrPoint>)
    ensures
        graph@.len() == 128,
        graph@ == spec_autocorrelation_graph(data@),
        forall|lag: int|
            0 <= lag < 128 ==> (#[trigger] graph@[lag]).matches <= graph@[lag].comparisons,
        data@.len() > 0 ==> graph@[0].matches == graph@[0].comparisons
            && graph@[0].comparisons > 0,
{
    let len = crate::min_usize(data.len(), SAMPLE_LIMIT);
    let mut graph: Vec<AutocorrPoint> = Vec::new();
    let mut lag: usize = 0;
    while lag < MAX_LAG
        invariant
            len as int == spec_min(data@.len() as int, 4096),
            len <= data@.len(),
            lag <= 128,
            graph@.len() == lag,
            forall|l: int|
                0 <= l < lag ==> #[trigger] graph@[l] == spec_autocorrelation_graph(data@)[l],
        decreases 128 - lag,
    {
        let comparisons = if len > lag {
            len - lag
        } else {
            0
        };
        let mut matches: usize = 0;
        let mut i: usize = 0;
        proof {
            lemma_match_count_le(data@, lag as int, comparisons as int);
        }
        while i < comparisons
            invariant
                comparisons as int == lag_comparisons(data@.len() as int, lag as int),
                comparisons == 0 || comparisons + lag <= len,
                len <= data@.len(),
                i <= comparisons,
                matches as int == match_count(data@, lag as int, i as int),
                matches <= i,
            decreases comparisons - i,
        {
            if data[i] == data[i + lag] {
                matches = matches + 1;
            }
            i = i + 1;
        }
        let point = AutocorrPoint { matches, comparisons };
        proof {
            assert(point == spec_autocorrelation_graph(data@)[lag as int]);
        }
        graph.push(point);
        lag = lag + 1;
    }
    proof {
        assert(graph@ =~= spec_autocorrelation_graph(data@));
        assert forall|l: int| 0 <= l < 128 implies (#[trigger] graph@[l]).matches
            <= graph@[l].comparisons by {
            lemma_match_count_le(data@, l, lag_comparisons(data@.len() as int, l));
        }
        if data@.len() > 0 {
            lemma_match_count_lag_zero(data@, lag_comparisons(data@.len() as int, 0));
        }
    }
    graph
}

/// Does the header block recur at offset `i`? Near the end of the buffer the
/// compared block is truncated to the bytes that remain, and a truncated
/// match still counts.
pub open spec fn header_repeats_at(data: Seq<u8>, i: int) -> bool {
    let k = spec_min(32, data.len() - i);
    data.subrange(i, i + k) == data.subrange(0, k)
}

/// The repeat flag: a buffer of at least `REPEAT_MIN_LEN` bytes is flagged
/// when its leading 32-byte header block recurs at some offset in
/// `32..min(4096, len)`.
pub open spec fn spec_repeat_flag(data: Seq<u8>) -> bool {
    if data.len() < 1024 {
        false
    } else {
        exists|i: int| 32 <= i < spec_min(4096, data.len() as int) && header_repeats_at(data, i)
    }
}

/// Compare `k` bytes of `data` starting at `a` and at `b`.
fn ranges_equal(data: &Vec<u8>, a: usize, b: usize, k: usize) -> (r: bool)
    requires
        a + k <= data@.len(),
        b + k <= data@.len(),
    ensures
        r == (data@.subrange(a as int, a as int + k as int) == data@.subrange(
            b as int,
            b as int + k as int,
        )),
{
    let n = data.len();
    let mut j: usize = 0;
    while j < k
        invariant
            n == data@.len(),
            a + k <= n,
            b + k <= n,
            j <= k,
            forall|jj: int| 0 <= jj < j ==> #[trigger] data@[a + jj] == data@[b + jj],
        decreases k - j,
    {
        if data[a + j] != data[b + j] {
            proof {
                assert(data@.subrange(a as int, a as int + k as int)[j as int] != data@.subrange(
                    b as int,
                    b as int + k as int,
                )[j as int]);
            }
            return false;
        }
        j = j + 1;
    }
    proof {
        let sa = data@.subrange(a as int, a as int + k as int);
        let sb = data@.subrange(b as int, b as int + k as int);
        assert forall|jj: int| 0 <= jj < k implies sa[jj] == sb[jj] by {
            assert(data@[a + jj] == data@[b + jj]);
        }
        assert(sa =~= sb);
    }
    true
}

/// Repeat detection: scan offsets `32..min(4096, len)` for a recurrence of
/// the leading header block; buffers under 1024 bytes are never flagged.
pub fn detect_autocorrelation(data: &Vec<u8>) -> (r: bool)
    ensures
        r == spec_repeat_flag(data@),
        data@.len() < 1024 ==> r == false,
{
    if data.len() < REPEAT_MIN_LEN {
        return false;
    }
    let search_limit = crate::min_usize(SAMPLE_LIMIT, data.len());
    let mut i: usize = HEADER_SIZE;
    while i < search_limit
        invariant
            data@.len() >= 1024,
            search_limit as int == spec_min(4096, data@.len() as int),
            search_limit <= data@.len(),
            32 <= i,
            forall|ii: int| 32 <= ii < i ==> !header_repeats_at(data@, ii),
        decreases search_limit - i,
    {
        let k = if data.len() - i < HEADER_SIZE {
            data.len() - i
        } else {
            HEADER_SIZE
        };
        if ranges_equal(data, i, 0, k) {
            proof {
                assert(header_repeats_at(data@, i as int));
            }
            return true;
        }
        i = i + 1;
    }
    false
}

} // verus!
