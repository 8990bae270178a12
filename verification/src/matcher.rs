//! Finding a fixed symbol pattern in a stream, one symbol at a time.
//!
//! The matcher keeps how many symbols at the end of the stream agree with the
//! start of the pattern. On a mismatch it falls back to the longest shorter
//! agreement instead of starting over, so that a pattern which overlaps
//! itself is still found wherever it occurs.

use vstd::prelude::*;

verus! {

/// The last `n` symbols of `stream` are the first `n` symbols of `pattern`.
pub open spec fn is_overlap(stream: Seq<u8>, pattern: Seq<u8>, n: int) -> bool {
    &&& 0 <= n <= stream.len()
    &&& n <= pattern.len()
    &&& stream.skip(stream.len() - n) =~= pattern.take(n)
}

/// The largest `n` up to `bound` for which the end of `stream` overlaps the
/// start of `pattern` in `n` symbols.
pub open spec fn longest_overlap(stream: Seq<u8>, pattern: Seq<u8>, bound: int) -> int
    decreases bound,
{
    if bound <= 0 {
        0
    } else if is_overlap(stream, pattern, bound) {
        bound
    } else {
        longest_overlap(stream, pattern, bound - 1)
    }
}

/// How far `stream` has got into `pattern`: the length of the longest start
/// of the pattern that the stream ends with.
pub open spec fn overlap(stream: Seq<u8>, pattern: Seq<u8>) -> int {
    longest_overlap(stream, pattern, pattern.len() as int)
}

/// `stream` ends with the whole of `pattern`.
pub open spec fn ends_with(stream: Seq<u8>, pattern: Seq<u8>) -> bool {
    is_overlap(stream, pattern, pattern.len() as int)
}

/// The progress after one more symbol, from a progress of `k` symbols.
pub open spec fn advance(pattern: Seq<u8>, k: int, symbol: u8) -> int {
    overlap(pattern.take(k).push(symbol), pattern)
}

/// The longest start of the pattern, shorter than `k`, that its first `k`
/// symbols end with.
pub open spec fn fallback_of(pattern: Seq<u8>, k: int) -> int {
    longest_overlap(pattern.take(k), pattern, k - 1)
}

/// `longest_overlap` is an overlap, and no overlap up to the bound is longer.
pub proof fn lemma_longest_is_max(stream: Seq<u8>, pattern: Seq<u8>, bound: int)
    ensures
        0 <= longest_overlap(stream, pattern, bound),
        bound >= 0 ==> longest_overlap(stream, pattern, bound) <= bound,
        is_overlap(stream, pattern, longest_overlap(stream, pattern, bound)),
        forall|n: int|
            longest_overlap(stream, pattern, bound) < n <= bound ==> !is_overlap(
                stream,
                pattern,
                n,
            ),
    decreases bound,
{
    if bound > 0 && !is_overlap(stream, pattern, bound) {
        lemma_longest_is_max(stream, pattern, bound - 1);
    }
}

/// An overlap that no overlap up to the bound exceeds is the longest one.
pub proof fn lemma_longest_unique(stream: Seq<u8>, pattern: Seq<u8>, bound: int, m: int)
    requires
        0 <= m <= bound,
        is_overlap(stream, pattern, m),
        forall|n: int| m < n <= bound ==> !is_overlap(stream, pattern, n),
    ensures
        longest_overlap(stream, pattern, bound) == m,
    decreases bound,
{
    if bound > m {
        lemma_longest_unique(stream, pattern, bound - 1, m);
    }
}

/// Where no overlap lies between two bounds, both give the same longest overlap.
pub proof fn lemma_longest_shrink(stream: Seq<u8>, pattern: Seq<u8>, low: int, high: int)
    requires
        0 <= low <= high,
        forall|n: int| low < n <= high ==> !is_overlap(stream, pattern, n),
    ensures
        longest_overlap(stream, pattern, high) == longest_overlap(stream, pattern, low),
{
    lemma_longest_is_max(stream, pattern, low);
    lemma_longest_unique(stream, pattern, high, longest_overlap(stream, pattern, low));
}

/// A stream with one more symbol overlaps in `n >= 1` symbols exactly when it
/// overlapped in `n - 1` before and the symbol is the next of the pattern.
pub proof fn lemma_overlap_push(stream: Seq<u8>, pattern: Seq<u8>, symbol: u8, n: int)
    requires
        n >= 1,
    ensures
        is_overlap(stream.push(symbol), pattern, n) <==> (is_overlap(stream, pattern, n - 1) && n
            <= pattern.len() && pattern[n - 1] == symbol),
{
    let longer = stream.push(symbol);
    if is_overlap(longer, pattern, n) {
        let tail = longer.skip(longer.len() - n);
        assert(tail[n - 1] == pattern.take(n)[n - 1]);
    }
}

/// Below an overlap of `m` symbols, the stream overlaps exactly where the
/// first `m` symbols of the pattern do.
pub proof fn lemma_overlap_within(stream: Seq<u8>, pattern: Seq<u8>, m: int, n: int)
    requires
        is_overlap(stream, pattern, m),
        0 <= n <= m,
    ensures
        is_overlap(stream, pattern, n) <==> is_overlap(pattern.take(m), pattern, n),
{
}

/// The progress of a stream with one more symbol follows from the progress
/// before and that symbol alone.
pub proof fn lemma_advance_tracks(stream: Seq<u8>, pattern: Seq<u8>, symbol: u8)
    ensures
        overlap(stream.push(symbol), pattern) == advance(
            pattern,
            overlap(stream, pattern),
            symbol,
        ),
{
    let size = pattern.len() as int;
    let k = overlap(stream, pattern);
    let longer = stream.push(symbol);
    let model = pattern.take(k).push(symbol);
    lemma_longest_is_max(stream, pattern, size);
    assert forall|n: int| 0 <= n <= size implies (is_overlap(longer, pattern, n) <==> is_overlap(
        model,
        pattern,
        n,
    )) by {
        if n >= 1 {
            lemma_overlap_push(stream, pattern, symbol, n);
            lemma_overlap_push(pattern.take(k), pattern, symbol, n);
            if n - 1 <= k {
                lemma_overlap_within(stream, pattern, k, n - 1);
            }
        }
    }
    lemma_longest_is_max(longer, pattern, size);
    lemma_longest_unique(model, pattern, size, overlap(longer, pattern));
}

/// A stream shorter than the pattern has not got through it.
pub proof fn lemma_overlap_bounded(stream: Seq<u8>, pattern: Seq<u8>)
    ensures
        0 <= overlap(stream, pattern) <= stream.len(),
        overlap(stream, pattern) <= pattern.len(),
{
    lemma_longest_is_max(stream, pattern, pattern.len() as int);
}

/// A stream has got through the whole pattern exactly when it ends with it.
pub proof fn lemma_overlap_full(stream: Seq<u8>, pattern: Seq<u8>)
    ensures
        overlap(stream, pattern) == pattern.len() <==> ends_with(stream, pattern),
{
    lemma_longest_is_max(stream, pattern, pattern.len() as int);
}

/// A streaming matcher for one pattern.
pub struct Matcher {
    pattern: Vec<u8>,
    fallback: Vec<usize>,
    progress: usize,
}

/// Entries `1..=upto` of a fallback table hold the fallback of each progress.
pub open spec fn table_holds(pattern: Seq<u8>, table: Seq<usize>, upto: int) -> bool {
    &&& upto < table.len()
    &&& forall|j: int| 1 <= j <= upto ==> #[trigger] table[j] == fallback_of(pattern, j)
}

impl Matcher {
    /// The pattern being looked for.
    pub closed spec fn pattern(&self) -> Seq<u8> {
        self.pattern@
    }

    /// How many symbols of the pattern the stream has matched so far.
    pub closed spec fn progress(&self) -> int {
        self.progress as int
    }

    /// The pattern is not empty, the progress lies inside it, and the table
    /// holds the fallback of every progress.
    pub closed spec fn wf(&self) -> bool {
        &&& self.pattern@.len() > 0
        &&& self.fallback@.len() == self.pattern@.len()
        &&& self.progress < self.pattern@.len()
        &&& table_holds(self.pattern@, self.fallback@, self.pattern@.len() - 1)
    }

    /// What `wf` promises of the pattern and the progress.
    pub proof fn lemma_wf(&self)
        requires
            self.wf(),
        ensures
            self.pattern().len() > 0,
            0 <= self.progress() < self.pattern().len(),
    {
    }

    /// A matcher for `pattern` that has seen nothing yet.
    pub fn new(pattern: Vec<u8>) -> (matcher: Matcher)
        requires
            pattern@.len() > 0,
        ensures
            matcher.wf(),
            matcher.pattern() == pattern@,
            matcher.progress() == 0,
    {
        let size: usize = pattern.len();
        let mut fallback: Vec<usize> = Vec::with_capacity(size);
        fallback.push(0);
        if size > 1 {
            fallback.push(0);
            let mut k: usize = 1;
            while k + 1 < size
                invariant
                    1 <= k < size,
                    size == pattern@.len(),
                    fallback@.len() == k + 1,
                    table_holds(pattern@, fallback@, k as int),
                decreases size - k,
            {
                let shorter: usize = fallback[k];
                proof {
                    lemma_longest_is_max(pattern@.take(k as int), pattern@, k - 1);
                }
                let next: usize = extend(&pattern, &fallback, Ghost(k as int), shorter, pattern[k]);
                proof {
                    let upto = pattern@.take(k + 1);
                    assert(pattern@.take(k as int).push(pattern@[k as int]) =~= upto);
                    assert forall|n: int| shorter + 1 < n <= k implies !is_overlap(
                        upto,
                        pattern@,
                        n,
                    ) by {
                        lemma_overlap_push(
                            pattern@.take(k as int),
                            pattern@,
                            pattern@[k as int],
                            n,
                        );
                    }
                    lemma_longest_shrink(upto, pattern@, shorter + 1, k as int);
                }
                fallback.push(next);
                k = k + 1;
            }
        }
        Matcher { pattern, fallback, progress: 0 }
    }

    /// Forgets what has been matched.
    pub fn reset(&mut self)
        requires
            old(self).wf(),
        ensures
            final(self).wf(),
            final(self).pattern() == old(self).pattern(),
            final(self).progress() == 0,
    {
        self.progress = 0;
    }

    /// Takes the next symbol of the stream. Returns whether the stream now
    /// ends with the whole pattern; the matcher then starts over, and else
    /// keeps the new progress.
    pub fn push(&mut self, symbol: u8) -> (found: bool)
        requires
            old(self).wf(),
        ensures
            final(self).wf(),
            final(self).pattern() == old(self).pattern(),
            found == (advance(old(self).pattern(), old(self).progress(), symbol) == old(
                self,
            ).pattern().len()),
            final(self).progress() == (if found {
                0
            } else {
                advance(old(self).pattern(), old(self).progress(), symbol)
            }),
    {
        let k: usize = self.progress;
        let next: usize = extend(&self.pattern, &self.fallback, Ghost(k as int), k, symbol);
        proof {
            let model = self.pattern@.take(k as int).push(symbol);
            lemma_longest_shrink(model, self.pattern@, k + 1, self.pattern@.len() as int);
        }
        if next == self.pattern.len() {
            self.progress = 0;
            true
        } else {
            self.progress = next;
            false
        }
    }
}

/// The longest overlap, up to `start + 1` symbols, of the first `k` symbols of
/// the pattern followed by `symbol`. `start` is an overlap of those `k`
/// symbols; the shorter ones are walked through the fallback table.
fn extend(
    pattern: &Vec<u8>,
    fallback: &Vec<usize>,
    Ghost(k): Ghost<int>,
    start: usize,
    symbol: u8,
) -> (next: usize)
    requires
        0 <= start <= k < pattern@.len(),
        table_holds(pattern@, fallback@, start as int),
        is_overlap(pattern@.take(k), pattern@, start as int),
    ensures
        next == longest_overlap(pattern@.take(k).push(symbol), pattern@, start + 1),
        next <= start + 1,
{
    let ghost head = pattern@.take(k);
    let ghost model = head.push(symbol);
    let mut j: usize = start;
    assert(pattern@.len() == pattern.len());
    loop
        invariant
            0 <= j <= start <= k < pattern@.len() <= usize::MAX,
            head == pattern@.take(k),
            model == head.push(symbol),
            table_holds(pattern@, fallback@, start as int),
            is_overlap(head, pattern@, j as int),
            forall|n: int|
                j < n <= start && is_overlap(head, pattern@, n) ==> pattern@[n] != symbol,
        decreases j,
    {
        if pattern[j] == symbol {
            proof {
                lemma_overlap_push(head, pattern@, symbol, j + 1);
                assert forall|n: int| j + 1 < n <= start + 1 implies !is_overlap(
                    model,
                    pattern@,
                    n,
                ) by {
                    lemma_overlap_push(head, pattern@, symbol, n);
                }
                lemma_longest_unique(model, pattern@, start + 1, j + 1);
            }
            return j + 1;
        }
        if j == 0 {
            proof {
                assert forall|n: int| 0 < n <= start + 1 implies !is_overlap(
                    model,
                    pattern@,
                    n,
                ) by {
                    lemma_overlap_push(head, pattern@, symbol, n);
                }
                lemma_longest_unique(model, pattern@, start + 1, 0);
            }
            return 0;
        }
        let shorter: usize = fallback[j];
        proof {
            lemma_longest_is_max(pattern@.take(j as int), pattern@, j - 1);
            lemma_overlap_within(head, pattern@, j as int, shorter as int);
            assert forall|n: int|
                shorter < n <= start && is_overlap(head, pattern@, n) implies pattern@[n]
                != symbol by {
                if n < j {
                    lemma_overlap_within(head, pattern@, j as int, n);
                }
            }
        }
        j = shorter;
    }
}

} // verus!
