//! Memory access tracking: strides, streams and regions of recent accesses, and the addresses that
//! they suggest for prefetching.
use std::collections::VecDeque;

use vstd::prelude::*;

#[allow(unused_imports)]
use crate::recent::remembered;
use crate::recent::{contains_word, remember};
use crate::table::Table;

verus! {

/// The number of accesses that are remembered.
pub const ACCESS_HISTORY_SIZE: usize = 32;

/// The number of streams that are followed.
pub const STREAM_BUFFER_SIZE: usize = 8;

/// The number of words that a new stream looks ahead.
pub const STREAM_LENGTH: usize = 8;

/// The confidence from which on a stride is believed in.
pub const PATTERN_CONFIDENCE_THRESHOLD: usize = 5;

/// The size of a region, in bytes.
pub const SPATIAL_REGION_SIZE: u32 = 64;

/// The number of accesses after which a repeated access is no longer noticed.
pub const TEMPORAL_WINDOW_SIZE: usize = 256;

/// A stride between accesses.
#[derive(Clone, Copy, PartialEq, Eq, Structural, Debug)]
pub struct Pattern {
    pub stride: i32,
    pub confidence: usize,
    pub last_addr: u32,
    pub prefetch_distance: usize,
    pub hits: usize,
    pub misses: usize,
}

/// The accesses to a region.
#[derive(Clone, Copy, PartialEq, Eq, Structural, Debug)]
pub struct SpatialRegion {
    pub base_addr: u32,
    /// One bit for each word, set once the word has been accessed.
    pub access_bitmap: u64,
    pub access_count: usize,
    /// The number of the last access.
    pub last_access: u64,
}

/// Memory access statistics.
#[derive(Clone, Copy, PartialEq, Eq, Structural, Debug)]
pub struct MemoryStats {
    pub total_accesses: usize,
    pub pattern_hits: usize,
    pub spatial_hits: usize,
    pub temporal_hits: usize,
    pub stream_hits: usize,
}

impl MemoryStats {
    /// Nothing has been counted.
    pub open spec fn zero() -> MemoryStats {
        MemoryStats {
            total_accesses: 0,
            pattern_hits: 0,
            spatial_hits: 0,
            temporal_hits: 0,
            stream_hits: 0,
        }
    }
}

/// A stream of accesses.
#[verifier::ext_equal]
pub ghost struct StreamView {
    pub base_addr: u32,
    pub prefetch_addrs: Seq<u32>,
    pub valid: bool,
    pub hits: usize,
}

impl StreamView {
    /// A stream that follows nothing.
    pub open spec fn unused() -> StreamView {
        StreamView { base_addr: 0, prefetch_addrs: Seq::empty(), valid: false, hits: 0 }
    }
}

/// The words that follow an address.
pub open spec fn following(addr: u32) -> Seq<u32> {
    Seq::new(STREAM_LENGTH as nat, |i: int| addr.wrapping_add(((i + 1) * 4) as u32))
}

/// The first stream from `from` on that is unused or expects an access to `addr`.
pub open spec fn matching_stream(streams: Seq<StreamView>, addr: u32, from: int) -> Option<int>
    decreases streams.len() - from,
{
    if from >= streams.len() {
        None
    } else if !streams[from].valid || streams[from].prefetch_addrs.contains(addr) {
        Some(from)
    } else {
        matching_stream(streams, addr, from + 1)
    }
}

/// The least used of the streams before `count`, the first of them where several are.
pub open spec fn least_used(streams: Seq<StreamView>, count: int) -> int
    decreases count,
{
    if count <= 1 {
        0
    } else {
        let before = least_used(streams, count - 1);
        if streams[count - 1].hits < streams[before].hits {
            count - 1
        } else {
            before
        }
    }
}

/// The streams after the least used one has been given up for one that starts at `addr`.
pub open spec fn replaced(streams: Seq<StreamView>, addr: u32) -> Seq<StreamView> {
    if streams.len() == 0 {
        streams
    } else {
        let least = least_used(streams, streams.len() as int);
        streams.update(
            least,
            StreamView {
                base_addr: addr,
                prefetch_addrs: following(addr),
                hits: 0,
                ..streams[least]
            },
        )
    }
}

/// The start of the region of an address.
pub open spec fn region_of(addr: u32) -> u32 {
    (addr - addr % SPATIAL_REGION_SIZE) as u32
}

/// The key under which the stride from an address is kept: the address without its last four bits.
pub open spec fn stride_key(addr: u32) -> u32 {
    (addr - addr % 16) as u32
}

/// The bit of a word of a region.
pub open spec fn word_bit(word: u64) -> u64 {
    1u64 << word
}

/// The address after `count` strides.
pub open spec fn strides_from(addr: u32, stride: i32, count: nat) -> u32
    decreases count,
{
    if count == 0 {
        addr
    } else {
        strides_from(addr, stride, (count - 1) as nat).wrapping_add(stride as u32)
    }
}

/// The addresses of the accessed words of a region, among its first `count` words.
pub open spec fn accessed_words(region: SpatialRegion, base: u32, count: nat) -> Seq<u32>
    decreases count,
{
    if count == 0 {
        Seq::empty()
    } else {
        let before = accessed_words(region, base, (count - 1) as nat);
        if region.access_bitmap & word_bit((count - 1) as u64) != 0 {
            before.push((base + (count - 1) * 4) as u32)
        } else {
            before
        }
    }
}

/// The addresses that the first `count` streams expect, where they expect an access to `addr`.
pub open spec fn expected_by_streams(streams: Seq<StreamView>, addr: u32, count: nat) -> Seq<u32>
    decreases count,
{
    if count == 0 {
        Seq::empty()
    } else {
        let before = expected_by_streams(streams, addr, (count - 1) as nat);
        let stream = streams[count - 1];
        if stream.valid && stream.prefetch_addrs.contains(addr) {
            before + stream.prefetch_addrs
        } else {
            before
        }
    }
}

/// The state of the memory access tracker.
#[verifier::ext_equal]
pub ghost struct AccessView {
    /// The last accesses, the latest last.
    pub history: Seq<u32>,
    /// The strides from the neighbourhood of an address.
    pub patterns: Map<u32, Pattern>,
    pub streams: Seq<StreamView>,
    /// The accesses to regions by the start of the region.
    pub regions: Map<u32, SpatialRegion>,
    /// The accesses that a repetition is compared with.
    pub temporal: Seq<u32>,
    pub stats: MemoryStats,
}

impl AccessView {
    /// Nothing has been accessed.
    pub open spec fn initial() -> AccessView {
        AccessView {
            history: Seq::empty(),
            patterns: Map::empty(),
            streams: Seq::new(STREAM_BUFFER_SIZE as nat, |i: int| StreamView::unused()),
            regions: Map::empty(),
            temporal: Seq::empty(),
            stats: MemoryStats::zero(),
        }
    }

    /// The tracker after an access has been counted and remembered.
    pub open spec fn noted(self, addr: u32) -> AccessView {
        AccessView {
            history: remembered(self.history, ACCESS_HISTORY_SIZE as nat, addr),
            temporal: remembered(self.temporal, TEMPORAL_WINDOW_SIZE as nat, addr),
            stats: MemoryStats {
                total_accesses: self.stats.total_accesses.wrapping_add(1),
                temporal_hits: if self.temporal.contains(addr) {
                    self.stats.temporal_hits.wrapping_add(1)
                } else {
                    self.stats.temporal_hits
                },
                ..self.stats
            },
            ..self
        }
    }

    /// The region of an address after an access to it.
    pub open spec fn region_after(self, addr: u32) -> SpatialRegion {
        let base = region_of(addr);
        let region = if self.regions.contains_key(base) {
            self.regions[base]
        } else {
            SpatialRegion { base_addr: base, access_bitmap: 0, access_count: 0, last_access: 0 }
        };
        SpatialRegion {
            access_bitmap: region.access_bitmap | word_bit(
                ((addr % SPATIAL_REGION_SIZE) / 4) as u64,
            ),
            access_count: region.access_count.wrapping_add(1),
            last_access: self.stats.total_accesses as u64,
            ..region
        }
    }

    /// The tracker after an access has been marked in its region.
    pub open spec fn marked(self, addr: u32) -> AccessView {
        AccessView {
            regions: self.regions.insert(region_of(addr), self.region_after(addr)),
            ..self
        }
    }

    /// A stride after one more access with the given stride to `addr`.
    pub open spec fn pattern_after(pattern: Pattern, stride: i32, addr: u32) -> Pattern {
        if pattern.stride == stride {
            let confidence = pattern.confidence.wrapping_add(1);
            Pattern {
                confidence,
                hits: pattern.hits.wrapping_add(1),
                prefetch_distance: if confidence > PATTERN_CONFIDENCE_THRESHOLD
                    && pattern.prefetch_distance < usize::MAX {
                    (pattern.prefetch_distance + 1) as usize
                } else {
                    pattern.prefetch_distance
                },
                last_addr: addr,
                ..pattern
            }
        } else {
            let misses = pattern.misses.wrapping_add(1);
            Pattern {
                confidence: if pattern.confidence > 0 {
                    (pattern.confidence - 1) as usize
                } else {
                    0
                },
                misses,
                prefetch_distance: if misses > pattern.hits && pattern.prefetch_distance > 0 {
                    (pattern.prefetch_distance - 1) as usize
                } else {
                    pattern.prefetch_distance
                },
                last_addr: addr,
                ..pattern
            }
        }
    }

    /// The tracker after it has learned the stride between the last two accesses.
    pub open spec fn strided(self) -> AccessView {
        if self.history.len() >= 2 {
            let last = self.history.last();
            let prev = self.history[self.history.len() - 2];
            let stride = (last as i32).wrapping_sub(prev as i32);
            let key = stride_key(prev);
            let pattern = if self.patterns.contains_key(key) {
                AccessView::pattern_after(self.patterns[key], stride, last)
            } else {
                Pattern {
                    stride,
                    confidence: 1,
                    last_addr: last,
                    prefetch_distance: 1,
                    hits: 0,
                    misses: 0,
                }
            };
            AccessView { patterns: self.patterns.insert(key, pattern), ..self }
        } else {
            self
        }
    }

    /// The tracker after its streams have been told of an access. An unused stream starts at the
    /// address. Otherwise a stream that expects the access grows by one word, and the least used
    /// stream is given up for one that starts at the address.
    pub open spec fn streamed(self, addr: u32) -> AccessView {
        match matching_stream(self.streams, addr, 0) {
            Some(i) => if !self.streams[i].valid {
                AccessView {
                    streams: self.streams.update(
                        i,
                        StreamView {
                            base_addr: addr,
                            valid: true,
                            prefetch_addrs: following(addr),
                            ..self.streams[i]
                        },
                    ),
                    ..self
                }
            } else {
                let stream = self.streams[i];
                let grown = StreamView {
                    hits: stream.hits.wrapping_add(1),
                    prefetch_addrs: stream.prefetch_addrs.push(
                        stream.prefetch_addrs.last().wrapping_add(4),
                    ),
                    ..stream
                };
                AccessView {
                    streams: replaced(self.streams.update(i, grown), addr),
                    stats: MemoryStats {
                        stream_hits: self.stats.stream_hits.wrapping_add(1),
                        ..self.stats
                    },
                    ..self
                }
            },
            None => AccessView { streams: replaced(self.streams, addr), ..self },
        }
    }

    /// The tracker after an access.
    pub open spec fn recorded(self, addr: u32) -> AccessView {
        self.noted(addr).marked(addr).strided().streamed(addr)
    }

    /// The addresses that the stride from the neighbourhood of `addr` suggests.
    pub open spec fn suggested_by_stride(self, addr: u32) -> Seq<u32> {
        let key = stride_key(addr);
        if self.patterns.contains_key(key) && self.patterns[key].confidence
            >= PATTERN_CONFIDENCE_THRESHOLD {
            let pattern = self.patterns[key];
            Seq::new(
                pattern.prefetch_distance as nat,
                |i: int| strides_from(pattern.last_addr, pattern.stride, (i + 1) as nat),
            )
        } else {
            Seq::empty()
        }
    }

    /// The addresses that the region of `addr` suggests.
    pub open spec fn suggested_by_region(self, addr: u32) -> Seq<u32> {
        let base = region_of(addr);
        if self.regions.contains_key(base) {
            accessed_words(self.regions[base], base, 16)
        } else {
            Seq::empty()
        }
    }

    /// The addresses that are likely to be accessed after `addr`.
    pub open spec fn predictions(self, addr: u32) -> Seq<u32> {
        expected_by_streams(self.streams, addr, self.streams.len()) + self.suggested_by_stride(addr)
            + self.suggested_by_region(addr)
    }

    /// The histories are within their limits.
    pub open spec fn bounded(self) -> bool {
        self.history.len() <= ACCESS_HISTORY_SIZE && self.temporal.len() <= TEMPORAL_WINDOW_SIZE
    }

    /// The histories start and stay within their limits; each access is counted, and a repeated
    /// access is noticed.
    pub proof fn law_recorded(self, addr: u32)
        requires
            self.bounded(),
        ensures
            AccessView::initial().bounded(),
            self.recorded(addr).bounded(),
            self.recorded(addr).stats.total_accesses == self.stats.total_accesses.wrapping_add(1),
            self.recorded(addr).recorded(addr).stats.temporal_hits == self.recorded(
                addr,
            ).stats.temporal_hits.wrapping_add(1),
    {
        crate::recent::law_bounded(self.history, ACCESS_HISTORY_SIZE as nat, addr);
        crate::recent::law_bounded(self.temporal, TEMPORAL_WINDOW_SIZE as nat, addr);
        let after = self.recorded(addr);
        assert(after.temporal == remembered(self.temporal, TEMPORAL_WINDOW_SIZE as nat, addr));
        assert(after.temporal.contains(addr));
    }

    /// A word of a region has been accessed, as far as is remembered.
    pub open spec fn marked_word(self, base: u32, word: int) -> bool {
        self.regions.contains_key(base) && self.regions[base].access_bitmap & word_bit(word as u64)
            != 0
    }

    proof fn lemma_marked(self, addr: u32, base: u32, word: int)
        requires
            0 <= word < 16,
        ensures
            self.recorded(addr).marked_word(base, word) == (self.marked_word(base, word) || (base
                == region_of(addr) && word == (addr % SPATIAL_REGION_SIZE) / 4)),
    {
        let after = self.recorded(addr);
        assert(after.regions == self.regions.insert(
            region_of(addr),
            self.noted(addr).region_after(addr),
        ));
        if base == region_of(addr) {
            let x = ((addr % SPATIAL_REGION_SIZE) / 4) as u64;
            let w = word as u64;
            let bits: u64 = if self.regions.contains_key(base) {
                self.regions[base].access_bitmap
            } else {
                0
            };
            assert(((bits | (1u64 << x)) & (1u64 << w) != 0) == ((bits & (1u64 << w) != 0) || x
                == w)) by (bit_vector)
                requires
                    x < 16,
                    w < 16,
            ;
            if !self.regions.contains_key(base) {
                assert(0u64 & (1u64 << w) == 0) by (bit_vector);
            }
        }
    }

    /// The tracker after a list of accesses.
    #[verifier::opaque]
    pub open spec fn after_accesses(addrs: Seq<u32>) -> AccessView
        decreases addrs.len(),
    {
        if addrs.len() == 0 {
            AccessView::initial()
        } else {
            AccessView::after_accesses(addrs.drop_last()).recorded(addrs.last())
        }
    }

    proof fn lemma_accesses(addrs: Seq<u32>, base: u32, word: int)
        requires
            0 <= word < 16,
        ensures
            AccessView::after_accesses(addrs).marked_word(base, word) <==> exists|k: int|
                0 <= k < addrs.len() && region_of(#[trigger] addrs[k]) == base && (addrs[k]
                    % SPATIAL_REGION_SIZE) / 4 == word,
        decreases addrs.len(),
    {
        reveal_with_fuel(AccessView::after_accesses, 1);
        if addrs.len() > 0 {
            let before = addrs.drop_last();
            AccessView::lemma_accesses(before, base, word);
            AccessView::after_accesses(before).lemma_marked(addrs.last(), base, word);
            let n = addrs.len() - 1;
            assert(addrs.last() == addrs[n]);
            if AccessView::after_accesses(before).marked_word(base, word) {
                let k = choose|k: int|
                    0 <= k < before.len() && region_of(#[trigger] before[k]) == base && (before[k]
                        % SPATIAL_REGION_SIZE) / 4 == word;
                assert(addrs[k] == before[k]);
            }
            if exists|k: int|
                0 <= k < addrs.len() && region_of(#[trigger] addrs[k]) == base && (addrs[k]
                    % SPATIAL_REGION_SIZE) / 4 == word {
                let k = choose|k: int|
                    0 <= k < addrs.len() && region_of(#[trigger] addrs[k]) == base && (addrs[k]
                        % SPATIAL_REGION_SIZE) / 4 == word;
                if k < n {
                    assert(before[k] == addrs[k]);
                }
            }
        }
    }

    /// A word that has been accessed once is among the predictions for every address of its region,
    /// however many accesses there have been since.
    pub proof fn law_accessed_word_predicted(addrs: Seq<u32>, k: int, addr: u32)
        requires
            0 <= k < addrs.len(),
            region_of(addr) == region_of(addrs[k]),
        ensures
            AccessView::after_accesses(addrs).predictions(addr).contains(
                (addrs[k] - addrs[k] % 4) as u32,
            ),
    {
        let tracker = AccessView::after_accesses(addrs);
        let base = region_of(addr);
        let word = (addrs[k] % SPATIAL_REGION_SIZE) as int / 4;
        AccessView::lemma_accesses(addrs, base, word);
        assert(tracker.marked_word(base, word));
        lemma_accessed_word(tracker.regions[base], base, 16, word as nat);
        let words = accessed_words(tracker.regions[base], base, 16);
        assert(base + word * 4 == addrs[k] - addrs[k] % 4);
        let i = choose|i: int| 0 <= i < words.len() && words[i] == (base + word * 4) as u32;
        let before = expected_by_streams(tracker.streams, addr, tracker.streams.len())
            + tracker.suggested_by_stride(addr);
        assert(tracker.predictions(addr)[before.len() + i] == words[i]);
    }

    proof fn lemma_suggested(addrs: Seq<u32>, addr: u32, word: u32) -> (k: int)
        requires
            AccessView::after_accesses(addrs).suggested_by_region(addr).contains(word),
        ensures
            0 <= k < addrs.len(),
            region_of(addrs[k]) == region_of(addr),
            word == addrs[k] - addrs[k] % 4,
    {
        let tracker = AccessView::after_accesses(addrs);
        let base = region_of(addr);
        tracker.lemma_suggested_word(addr, word);
        let w = (word - base) / 4;
        AccessView::lemma_accesses(addrs, base, w);
        let k = choose|k: int|
            0 <= k < addrs.len() && region_of(#[trigger] addrs[k]) == base && (addrs[k]
                % SPATIAL_REGION_SIZE) / 4 == w;
        lemma_word_place(addrs[k], base, word);
        k
    }

    proof fn lemma_suggested_word(self, addr: u32, word: u32)
        requires
            self.suggested_by_region(addr).contains(word),
        ensures
            ({
                let base = region_of(addr);
                &&& base <= word < base + 64
                &&& (word - base) % 4 == 0
                &&& self.marked_word(base, (word - base) / 4)
            }),
    {
        let base = region_of(addr);
        let region = self.regions[base];
        lemma_ascending(region, base, 16);
        let words = accessed_words(region, base, 16);
        let i = choose|i: int| 0 <= i < words.len() && words[i] == word;
        assert(base <= words[i] < base + 64);
    }

    /// Where neither a stream nor a stride suggests anything, the predictions are exactly the accessed
    /// words of the region, each once, in ascending order.
    pub proof fn law_region_predicted(addrs: Seq<u32>, addr: u32)
        requires
            forall|i: int|
                0 <= i < AccessView::after_accesses(addrs).streams.len() ==> !(
                #[trigger] AccessView::after_accesses(addrs).streams[i]).valid
                    || !AccessView::after_accesses(addrs).streams[i].prefetch_addrs.contains(addr),
            AccessView::after_accesses(addrs).suggested_by_stride(addr).len() == 0,
        ensures
            ({
                let predictions = AccessView::after_accesses(addrs).predictions(addr);
                &&& forall|i: int, j: int|
                    0 <= i < j < predictions.len() ==> #[trigger] predictions[i]
                        < #[trigger] predictions[j]
                &&& forall|word: u32| #[trigger]
                    predictions.contains(word) <==> exists|k: int|
                        0 <= k < addrs.len() && region_of(#[trigger] addrs[k]) == region_of(addr)
                            && word == addrs[k] - addrs[k] % 4
            }),
    {
        let tracker = AccessView::after_accesses(addrs);
        let base = region_of(addr);
        let predictions = tracker.predictions(addr);
        lemma_no_stream(tracker.streams, addr, tracker.streams.len());
        assert(predictions =~= tracker.suggested_by_region(addr));
        if tracker.regions.contains_key(base) {
            lemma_ascending(tracker.regions[base], base, 16);
        }
        assert forall|word: u32| #[trigger] predictions.contains(word) implies exists|k: int|
            0 <= k < addrs.len() && region_of(#[trigger] addrs[k]) == base && word == addrs[k]
                - addrs[k] % 4 by {
            let k = AccessView::lemma_suggested(addrs, addr, word);
            assert(region_of(addrs[k]) == base);
        }
        assert forall|word: u32|
            (exists|k: int|
                0 <= k < addrs.len() && region_of(#[trigger] addrs[k]) == base && word == addrs[k]
                    - addrs[k] % 4) implies #[trigger] predictions.contains(word) by {
            let k = choose|k: int|
                0 <= k < addrs.len() && region_of(#[trigger] addrs[k]) == base && word == addrs[k]
                    - addrs[k] % 4;
            AccessView::law_accessed_word_predicted(addrs, k, addr);
        }
    }
}

proof fn lemma_word_place(addr: u32, base: u32, word: u32)
    requires
        region_of(addr) == base,
        base <= word < base + 64,
        (word - base) % 4 == 0,
        (addr % SPATIAL_REGION_SIZE) / 4 == (word - base) / 4,
    ensures
        word == addr - addr % 4,
{
}

proof fn lemma_no_stream(streams: Seq<StreamView>, addr: u32, count: nat)
    requires
        count <= streams.len(),
        forall|i: int|
            0 <= i < streams.len() ==> !(#[trigger] streams[i]).valid
                || !streams[i].prefetch_addrs.contains(addr),
    ensures
        expected_by_streams(streams, addr, count).len() == 0,
    decreases count,
{
    if count > 0 {
        lemma_no_stream(streams, addr, (count - 1) as nat);
    }
}

proof fn lemma_ascending(region: SpatialRegion, base: u32, count: nat)
    requires
        count <= 16,
        base % SPATIAL_REGION_SIZE == 0,
    ensures
        ({
            let words = accessed_words(region, base, count);
            &&& forall|i: int|
                0 <= i < words.len() ==> base <= #[trigger] words[i] < base + 4 * count && (words[i]
                    - base) % 4 == 0 && region.access_bitmap & word_bit(
                    ((words[i] - base) / 4) as u64,
                ) != 0
            &&& forall|i: int, j: int|
                0 <= i < j < words.len() ==> #[trigger] words[i] < #[trigger] words[j]
        }),
    decreases count,
{
    if count > 0 {
        lemma_ascending(region, base, (count - 1) as nat);
        let before = accessed_words(region, base, (count - 1) as nat);
        let words = accessed_words(region, base, count);
        assert(base <= u32::MAX - 63);
        if words.len() > before.len() {
            let last = words[words.len() - 1];
            assert(last == base + (count - 1) * 4);
            assert((last - base) / 4 == count - 1);
            assert forall|i: int| 0 <= i < before.len() implies words[i] == before[i] by {}
        }
    }
}

proof fn lemma_accessed_word(region: SpatialRegion, base: u32, count: nat, word: nat)
    requires
        word < count <= 16,
        region.access_bitmap & word_bit(word as u64) != 0,
    ensures
        accessed_words(region, base, count).contains((base + word * 4) as u32),
    decreases count,
{
    let before = accessed_words(region, base, (count - 1) as nat);
    let words = accessed_words(region, base, count);
    if word == count - 1 {
        assert(words[words.len() - 1] == (base + word * 4) as u32);
    } else {
        lemma_accessed_word(region, base, (count - 1) as nat, word);
        let i = choose|i: int| 0 <= i < before.len() && before[i] == (base + word * 4) as u32;
        assert(words[i] == before[i]);
    }
}

/// A stream of accesses.
pub struct StreamBuffer {
    base_addr: u32,
    prefetch_addrs: VecDeque<u32>,
    valid: bool,
    hits: usize,
}

impl View for StreamBuffer {
    type V = StreamView;

    closed spec fn view(&self) -> StreamView {
        StreamView {
            base_addr: self.base_addr,
            prefetch_addrs: self.prefetch_addrs@,
            valid: self.valid,
            hits: self.hits,
        }
    }
}

impl Default for StreamBuffer {
    fn default() -> (buffer: StreamBuffer)
        ensures
            buffer@ == StreamView::unused(),
    {
        StreamBuffer {
            base_addr: 0,
            prefetch_addrs: VecDeque::with_capacity(STREAM_LENGTH),
            valid: false,
            hits: 0,
        }
    }
}

impl Clone for StreamBuffer {
    fn clone(&self) -> (buffer: StreamBuffer)
        ensures
            buffer@ == self@,
    {
        let prefetch_addrs = self.prefetch_addrs.clone();
        assert(prefetch_addrs@ =~= self.prefetch_addrs@);
        StreamBuffer {
            base_addr: self.base_addr,
            prefetch_addrs,
            valid: self.valid,
            hits: self.hits,
        }
    }
}

/// The words that follow an address.
fn look_ahead(addr: u32) -> (words: VecDeque<u32>)
    ensures
        words@ == following(addr),
{
    let mut words: VecDeque<u32> = VecDeque::with_capacity(STREAM_LENGTH);
    let mut i: usize = 0;
    while i < STREAM_LENGTH
        invariant
            i <= STREAM_LENGTH,
            words@ == following(addr).take(i as int),
        decreases STREAM_LENGTH - i,
    {
        words.push_back(addr.wrapping_add(((i + 1) * 4) as u32));
        i = i + 1;
        assert(words@ =~= following(addr).take(i as int));
    }
    assert(words@ =~= following(addr));
    words
}

spec fn stream_views(buffers: Seq<StreamBuffer>) -> Seq<StreamView> {
    Seq::new(buffers.len(), |i: int| buffers[i]@)
}

/// Memory access tracker.
pub struct MemoryAccessTracker {
    history: VecDeque<u32>,
    patterns: Table<Pattern>,
    stream_buffers: Vec<StreamBuffer>,
    spatial_regions: Table<SpatialRegion>,
    temporal_locality: VecDeque<u32>,
    stats: MemoryStats,
}

impl View for MemoryAccessTracker {
    type V = AccessView;

    closed spec fn view(&self) -> AccessView {
        AccessView {
            history: self.history@,
            patterns: self.patterns@,
            streams: stream_views(self.stream_buffers@),
            regions: self.spatial_regions@,
            temporal: self.temporal_locality@,
            stats: self.stats,
        }
    }
}

impl Default for MemoryAccessTracker {
    fn default() -> (tracker: MemoryAccessTracker)
        ensures
            tracker@ == AccessView::initial(),
    {
        let mut stream_buffers: Vec<StreamBuffer> = Vec::new();
        let mut i: usize = 0;
        while i < STREAM_BUFFER_SIZE
            invariant
                i <= STREAM_BUFFER_SIZE,
                stream_buffers@.len() == i,
                forall|j: int| 0 <= j < i ==> (#[trigger] stream_buffers@[j])@
                    == StreamView::unused(),
            decreases STREAM_BUFFER_SIZE - i,
        {
            stream_buffers.push(StreamBuffer::default());
            i = i + 1;
        }
        let tracker = MemoryAccessTracker {
            history: VecDeque::with_capacity(ACCESS_HISTORY_SIZE),
            patterns: Table::new(),
            stream_buffers,
            spatial_regions: Table::new(),
            temporal_locality: VecDeque::with_capacity(TEMPORAL_WINDOW_SIZE),
            stats: MemoryStats {
                total_accesses: 0,
                pattern_hits: 0,
                spatial_hits: 0,
                temporal_hits: 0,
                stream_hits: 0,
            },
        };
        assert(tracker@ =~= AccessView::initial());
        tracker
    }
}

impl Clone for MemoryAccessTracker {
    fn clone(&self) -> (tracker: MemoryAccessTracker)
        ensures
            tracker@ == self@,
    {
        let history = self.history.clone();
        assert(history@ =~= self.history@);
        let temporal_locality = self.temporal_locality.clone();
        assert(temporal_locality@ =~= self.temporal_locality@);
        let mut stream_buffers: Vec<StreamBuffer> = Vec::new();
        let mut i: usize = 0;
        while i < self.stream_buffers.len()
            invariant
                i <= self.stream_buffers@.len(),
                stream_buffers@.len() == i,
                forall|j: int| 0 <= j < i ==> (#[trigger] stream_buffers@[j])@
                    == self.stream_buffers@[j]@,
            decreases self.stream_buffers@.len() - i,
        {
            stream_buffers.push(self.stream_buffers[i].clone());
            i = i + 1;
        }
        assert(stream_views(stream_buffers@) =~= stream_views(self.stream_buffers@));
        MemoryAccessTracker {
            history,
            patterns: self.patterns.duplicate(),
            stream_buffers,
            spatial_regions: self.spatial_regions.duplicate(),
            temporal_locality,
            stats: self.stats,
        }
    }
}

impl MemoryAccessTracker {
    /// Notes an access.
    pub fn record_access(&mut self, addr: u32)
        ensures
            final(self)@ == old(self)@.recorded(addr),
    {
        self.stats.total_accesses = self.stats.total_accesses.wrapping_add(1);
        remember(&mut self.history, ACCESS_HISTORY_SIZE, addr);
        if contains_word(&self.temporal_locality, addr) {
            self.stats.temporal_hits = self.stats.temporal_hits.wrapping_add(1);
        }
        remember(&mut self.temporal_locality, TEMPORAL_WINDOW_SIZE, addr);
        assert(self@ =~= old(self)@.noted(addr));
        self.mark_region(addr);
        self.learn_stride();
        self.update_stream_buffers(addr);
    }

    /// Marks an access in its region.
    fn mark_region(&mut self, addr: u32)
        ensures
            final(self)@ == old(self)@.marked(addr),
    {
        let base: u32 = addr - addr % SPATIAL_REGION_SIZE;
        let mut region = match self.spatial_regions.get(base) {
            Some(region) => *region,
            None => SpatialRegion {
                base_addr: base,
                access_bitmap: 0,
                access_count: 0,
                last_access: 0,
            },
        };
        let word: u64 = ((addr % SPATIAL_REGION_SIZE) / 4) as u64;
        region.access_bitmap = region.access_bitmap | (1u64 << word);
        region.access_count = region.access_count.wrapping_add(1);
        region.last_access = self.stats.total_accesses as u64;
        self.spatial_regions.insert(base, region);
        assert(self@ =~= old(self)@.marked(addr));
    }

    /// Learns the stride between the last two accesses.
    fn learn_stride(&mut self)
        ensures
            final(self)@ == old(self)@.strided(),
    {
        let count: usize = self.history.len();
        if count >= 2 {
            let last: u32 = self.history[count - 1];
            let prev: u32 = self.history[count - 2];
            let stride: i32 = (last as i32).wrapping_sub(prev as i32);
            let key: u32 = prev - prev % 16;
            let pattern = match self.patterns.get(key) {
                Some(known) => {
                    let mut pattern = *known;
                    if pattern.stride == stride {
                        pattern.confidence = pattern.confidence.wrapping_add(1);
                        pattern.hits = pattern.hits.wrapping_add(1);
                        if pattern.confidence > PATTERN_CONFIDENCE_THRESHOLD
                            && pattern.prefetch_distance < usize::MAX {
                            pattern.prefetch_distance = pattern.prefetch_distance + 1;
                        }
                    } else {
                        if pattern.confidence > 0 {
                            pattern.confidence = pattern.confidence - 1;
                        }
                        pattern.misses = pattern.misses.wrapping_add(1);
                        if pattern.misses > pattern.hits && pattern.prefetch_distance > 0 {
                            pattern.prefetch_distance = pattern.prefetch_distance - 1;
                        }
                    }
                    pattern.last_addr = last;
                    pattern
                },
                None => Pattern {
                    stride,
                    confidence: 1,
                    last_addr: last,
                    prefetch_distance: 1,
                    hits: 0,
                    misses: 0,
                },
            };
            self.patterns.insert(key, pattern);
        }
        assert(self@ =~= old(self)@.strided());
    }

    /// The addresses that are likely to be accessed after `addr`.
    pub fn predict_next_access(&self, addr: u32) -> (predictions: Vec<u32>)
        ensures
            predictions@ == self@.predictions(addr),
    {
        let mut predictions: Vec<u32> = Vec::new();
        let mut i: usize = 0;
        while i < self.stream_buffers.len()
            invariant
                i <= self.stream_buffers@.len(),
                predictions@ == expected_by_streams(self@.streams, addr, i as nat),
            decreases self.stream_buffers@.len() - i,
        {
            let buffer = &self.stream_buffers[i];
            assert(self@.streams[i as int] == buffer@);
            if buffer.valid && contains_word(&buffer.prefetch_addrs, addr) {
                append_words(&mut predictions, &buffer.prefetch_addrs);
            }
            i = i + 1;
        }
        self.append_strides(&mut predictions, addr);
        self.append_region(&mut predictions, addr);
        predictions
    }

    /// Appends the addresses that the stride from the neighbourhood of `addr` suggests.
    fn append_strides(&self, predictions: &mut Vec<u32>, addr: u32)
        ensures
            final(predictions)@ == old(predictions)@ + self@.suggested_by_stride(addr),
    {
        let ghost start = predictions@;
        let ghost suggested = self@.suggested_by_stride(addr);
        let key: u32 = addr - addr % 16;
        if let Some(pattern) = self.patterns.get(key) {
            if pattern.confidence >= PATTERN_CONFIDENCE_THRESHOLD {
                let mut next_addr: u32 = pattern.last_addr;
                let mut i: usize = 0;
                assert(start + suggested.take(0) =~= start);
                while i < pattern.prefetch_distance
                    invariant
                        i <= pattern.prefetch_distance,
                        suggested.len() == pattern.prefetch_distance,
                        forall|j: int|
                            0 <= j < suggested.len() ==> #[trigger] suggested[j] == strides_from(
                                pattern.last_addr,
                                pattern.stride,
                                (j + 1) as nat,
                            ),
                        next_addr == strides_from(pattern.last_addr, pattern.stride, i as nat),
                        predictions@ == start + suggested.take(i as int),
                    decreases pattern.prefetch_distance - i,
                {
                    next_addr = next_addr.wrapping_add(pattern.stride as u32);
                    assert(suggested[i as int] == next_addr);
                    predictions.push(next_addr);
                    i = i + 1;
                    assert(predictions@ =~= start + suggested.take(i as int));
                }
                assert(suggested.take(i as int) =~= suggested);
            }
        }
        assert(predictions@ =~= start + suggested);
    }

    /// Appends the addresses that the region of `addr` suggests.
    fn append_region(&self, predictions: &mut Vec<u32>, addr: u32)
        ensures
            final(predictions)@ == old(predictions)@ + self@.suggested_by_region(addr),
    {
        let ghost start = predictions@;
        let base: u32 = addr - addr % SPATIAL_REGION_SIZE;
        if let Some(region) = self.spatial_regions.get(base) {
            let mut i: u64 = 0;
            assert(start + accessed_words(*region, base, 0) =~= start);
            while i < 16
                invariant
                    i <= 16,
                    base <= u32::MAX - 63,
                    predictions@ == start + accessed_words(*region, base, i as nat),
                decreases 16 - i,
            {
                let ghost before = predictions@;
                if region.access_bitmap & (1u64 << i) != 0 {
                    predictions.push(base + (i as u32) * 4);
                }
                i = i + 1;
                assert(predictions@ =~= start + accessed_words(*region, base, i as nat));
            }
        }
        assert(predictions@ =~= start + self@.suggested_by_region(addr));
    }

    /// Tells the streams of an access.
    pub fn update_stream_buffers(&mut self, addr: u32)
        ensures
            final(self)@ == old(self)@.streamed(addr),
    {
        let count: usize = self.stream_buffers.len();
        let mut i: usize = 0;
        let mut hit = false;
        while i < count && !hit
            invariant
                i <= count,
                *self == *old(self),
                count == self@.streams.len(),
                hit ==> i < count && (!self@.streams[i as int].valid
                    || self@.streams[i as int].prefetch_addrs.contains(addr)),
                matching_stream(self@.streams, addr, 0) == if hit {
                    Some(i as int)
                } else {
                    matching_stream(self@.streams, addr, i as int)
                },
            decreases (count - i) + if hit { 0int } else { 1int },
        {
            let buffer = &self.stream_buffers[i];
            assert(self@.streams[i as int] == buffer@);
            if !buffer.valid || contains_word(&buffer.prefetch_addrs, addr) {
                hit = true;
            } else {
                i = i + 1;
            }
        }
        if hit && !self.stream_buffers[i].valid {
            self.stream_buffers[i].base_addr = addr;
            self.stream_buffers[i].valid = true;
            self.stream_buffers[i].prefetch_addrs = look_ahead(addr);
            assert(self@ =~= old(self)@.streamed(addr));
            return;
        }
        if hit {
            let words: usize = self.stream_buffers[i].prefetch_addrs.len();
            let hits: usize = self.stream_buffers[i].hits;
            let last: u32 = self.stream_buffers[i].prefetch_addrs[words - 1];
            self.stream_buffers[i].hits = hits.wrapping_add(1);
            self.stream_buffers[i].prefetch_addrs.push_back(last.wrapping_add(4));
            self.stats.stream_hits = self.stats.stream_hits.wrapping_add(1);
        }
        let ghost streams = self@.streams;
        self.replace_least_used(addr);
        assert(self@ =~= old(self)@.streamed(addr)) by {
            if hit {
                let stream = old(self)@.streams[i as int];
                let grown = StreamView {
                    hits: stream.hits.wrapping_add(1),
                    prefetch_addrs: stream.prefetch_addrs.push(
                        stream.prefetch_addrs.last().wrapping_add(4),
                    ),
                    ..stream
                };
                assert(streams =~= old(self)@.streams.update(i as int, grown));
            }
        }
    }

    /// Gives the least used stream up for one that starts at `addr`.
    fn replace_least_used(&mut self, addr: u32)
        ensures
            final(self)@ == (AccessView {
                streams: replaced(old(self)@.streams, addr),
                ..old(self)@
            }),
    {
        let count: usize = self.stream_buffers.len();
        if count > 0 {
            let mut least: usize = 0;
            let mut i: usize = 1;
            while i < count
                invariant
                    1 <= i <= count,
                    least < i,
                    *self == *old(self),
                    count == self.stream_buffers@.len(),
                    least == least_used(self@.streams, i as int),
                decreases count - i,
            {
                assert(self@.streams[i as int] == self.stream_buffers@[i as int]@);
                assert(self@.streams[least as int] == self.stream_buffers@[least as int]@);
                if self.stream_buffers[i].hits < self.stream_buffers[least].hits {
                    least = i;
                }
                i = i + 1;
            }
            self.stream_buffers[least].base_addr = addr;
            self.stream_buffers[least].prefetch_addrs = look_ahead(addr);
            self.stream_buffers[least].hits = 0;
        }
        assert(self@.streams =~= replaced(old(self)@.streams, addr));
    }

    /// The memory access statistics.
    pub fn get_stats(&self) -> (stats: &MemoryStats)
        ensures
            *stats == self@.stats,
    {
        &self.stats
    }
}

/// Appends words to words.
fn append_words(words: &mut Vec<u32>, more: &VecDeque<u32>)
    ensures
        final(words)@ == old(words)@ + more@,
{
    let ghost start = words@;
    let mut i: usize = 0;
    assert(start + more@.take(0) =~= start);
    while i < more.len()
        invariant
            i <= more@.len(),
            words@ == start + more@.take(i as int),
        decreases more@.len() - i,
    {
        words.push(more[i]);
        i = i + 1;
        assert(words@ =~= start + more@.take(i as int));
    }
    assert(more@.take(i as int) =~= more@);
}

/// A region is 64 bytes that start at a multiple of 64, strides are kept for 16 bytes that start at a
/// multiple of 16, and a stream looks eight words ahead.
pub proof fn law_units(addr: u32, i: int)
    requires
        0 <= i < 8,
    ensures
        region_of(addr) as int == 64 * (addr as int / 64),
        stride_key(addr) as int == 16 * (addr as int / 16),
        following(addr).len() == 8,
        following(addr)[i] == addr.wrapping_add((4 * i + 4) as u32),
{
}

impl AccessView {
    /// An access is counted and goes to the end of both histories, of 32 and of 256 accesses. Where the
    /// longer one has it already, it counts as a repetition.
    pub proof fn law_noted(self, addr: u32)
        requires
            self.history.len() <= 32,
            self.temporal.len() <= 256,
        ensures
            ({
                let after = self.recorded(addr);
                &&& after.history == if self.history.len() < 32 {
                    self.history.push(addr)
                } else {
                    self.history.subrange(1, 32).push(addr)
                }
                &&& after.temporal == if self.temporal.len() < 256 {
                    self.temporal.push(addr)
                } else {
                    self.temporal.subrange(1, 256).push(addr)
                }
                &&& after.stats.total_accesses == self.stats.total_accesses.wrapping_add(1)
                &&& after.stats.temporal_hits == if self.temporal.contains(addr) {
                    self.stats.temporal_hits.wrapping_add(1)
                } else {
                    self.stats.temporal_hits
                }
                &&& after.stats.pattern_hits == self.stats.pattern_hits
                &&& after.stats.spatial_hits == self.stats.spatial_hits
            }),
    {
        let after = self.recorded(addr);
        if self.history.len() == 32 {
            assert(self.history.subrange(1, 32).push(addr) =~= self.history.drop_first().push(addr));
        }
        if self.temporal.len() == 256 {
            assert(self.temporal.subrange(1, 256).push(addr) =~= self.temporal.drop_first().push(
                addr,
            ));
        }
    }

    /// An access marks its word in its region, once and for all, and counts there; all other regions
    /// stay.
    pub proof fn law_marked(self, addr: u32, other: u32)
        ensures
            ({
                let after = self.recorded(addr);
                let base = (addr - addr % 64) as u32;
                let region = after.regions[base];
                let word = (addr % 64 / 4) as u64;
                &&& after.regions.contains_key(base)
                &&& other != base ==> after.regions.get(other) == self.regions.get(other)
                &&& region.last_access == after.stats.total_accesses as u64
                &&& match self.regions.get(base) {
                    Some(before) => {
                        &&& region.base_addr == before.base_addr
                        &&& region.access_count == before.access_count.wrapping_add(1)
                        &&& region.access_bitmap == before.access_bitmap | (1u64 << word)
                    },
                    None => {
                        &&& region.base_addr == base
                        &&& region.access_count == 1
                        &&& region.access_bitmap == 0u64 | (1u64 << word)
                    },
                }
            }),
    {
    }

    /// The distance between the last two accesses is the stride from where the first of them was. A new
    /// one is believed in once; one that is confirmed is believed in once more, and looks one further
    /// ahead once it has been confirmed more than five times; one that is not is believed in once less,
    /// and looks one less ahead once it has failed more often than it has held. The strides from
    /// elsewhere stay.
    pub proof fn law_strided(self, addr: u32, other: u32)
        requires
            1 <= self.history.len() <= 32,
        ensures
            ({
                let after = self.recorded(addr);
                let prev = self.history[self.history.len() - 1];
                let key = (prev - prev % 16) as u32;
                let stride = (addr as i32).wrapping_sub(prev as i32);
                let pattern = after.patterns[key];
                &&& after.patterns.contains_key(key)
                &&& other != key ==> after.patterns.get(other) == self.patterns.get(other)
                &&& pattern.last_addr == addr
                &&& match self.patterns.get(key) {
                    None => {
                        &&& pattern.stride == stride
                        &&& pattern.confidence == 1
                        &&& pattern.prefetch_distance == 1
                        &&& pattern.hits == 0
                        &&& pattern.misses == 0
                    },
                    Some(before) => {
                        &&& pattern.stride == before.stride
                        &&& before.stride == stride ==> {
                            &&& pattern.confidence == before.confidence.wrapping_add(1)
                            &&& pattern.hits == before.hits.wrapping_add(1)
                            &&& pattern.misses == before.misses
                            &&& pattern.prefetch_distance == if pattern.confidence > 5
                                && before.prefetch_distance < usize::MAX {
                                before.prefetch_distance + 1
                            } else {
                                before.prefetch_distance as int
                            }
                        }
                        &&& before.stride != stride ==> {
                            &&& pattern.confidence == if before.confidence > 0 {
                                before.confidence - 1
                            } else {
                                0
                            }
                            &&& pattern.hits == before.hits
                            &&& pattern.misses == before.misses.wrapping_add(1)
                            &&& pattern.prefetch_distance == if pattern.misses > pattern.hits
                                && before.prefetch_distance > 0 {
                                before.prefetch_distance - 1
                            } else {
                                before.prefetch_distance as int
                            }
                        }
                    },
                }
            }),
    {
        let noted = self.noted(addr).marked(addr);
        let n = noted.history.len() as int;
        assert(noted.history[n - 1] == addr);
        assert(noted.history[n - 2] == self.history[self.history.len() - 1]);
        assert(noted.history.last() == addr);
    }

    /// The first stream that is unused or expects the access takes it. An unused one starts there. One
    /// that expects it is hit and looks one word further, and then the least used of all streams starts
    /// anew at the access; so it does where no stream takes it. The least used stream is the first of
    /// those with the fewest hits. All other streams stay.
    pub proof fn law_streamed(self, addr: u32, i: int, least: int)
        requires
            0 <= i < self.streams.len(),
            0 <= least < self.streams.len(),
        ensures
            ({
                let after = self.streamed(addr);
                let ahead = Seq::new(8, |k: int| addr.wrapping_add((4 * k + 4) as u32));
                let passed = forall|j: int|
                    0 <= j < i ==> (#[trigger] self.streams[j]).valid
                        && !self.streams[j].prefetch_addrs.contains(addr);
                let stream = self.streams[i];
                let grown = self.streams.update(
                    i,
                    StreamView {
                        hits: stream.hits.wrapping_add(1),
                        prefetch_addrs: stream.prefetch_addrs.push(
                            stream.prefetch_addrs[stream.prefetch_addrs.len() - 1].wrapping_add(4),
                        ),
                        ..stream
                    },
                );
                &&& after == (AccessView { streams: after.streams, stats: after.stats, ..self })
                &&& passed && !stream.valid ==> after.streams == self.streams.update(
                    i,
                    StreamView { base_addr: addr, valid: true, prefetch_addrs: ahead, ..stream },
                ) && after.stats == self.stats
                &&& passed && stream.valid && stream.prefetch_addrs.contains(addr) && fewest(
                    grown,
                    least,
                ) ==> after.streams == grown.update(
                    least,
                    StreamView {
                        base_addr: addr,
                        prefetch_addrs: ahead,
                        hits: 0,
                        ..grown[least]
                    },
                ) && after.stats == (MemoryStats {
                    stream_hits: self.stats.stream_hits.wrapping_add(1),
                    ..self.stats
                })
                &&& (forall|j: int|
                    0 <= j < self.streams.len() ==> (#[trigger] self.streams[j]).valid
                        && !self.streams[j].prefetch_addrs.contains(addr)) && fewest(
                    self.streams,
                    least,
                ) ==> after.streams == self.streams.update(
                    least,
                    StreamView {
                        base_addr: addr,
                        prefetch_addrs: ahead,
                        hits: 0,
                        ..self.streams[least]
                    },
                ) && after.stats == self.stats
            }),
    {
        let ahead = Seq::new(8, |k: int| addr.wrapping_add((4 * k + 4) as u32));
        assert(following(addr) =~= ahead);
        let stream = self.streams[i];
        let grown = self.streams.update(
            i,
            StreamView {
                hits: stream.hits.wrapping_add(1),
                prefetch_addrs: stream.prefetch_addrs.push(
                    stream.prefetch_addrs[stream.prefetch_addrs.len() - 1].wrapping_add(4),
                ),
                ..stream
            },
        );
        if (forall|j: int|
            0 <= j < i ==> (#[trigger] self.streams[j]).valid
                && !self.streams[j].prefetch_addrs.contains(addr)) && (!stream.valid
            || stream.prefetch_addrs.contains(addr)) {
            lemma_matching(self.streams, addr, 0, i);
        }
        if forall|j: int|
            0 <= j < self.streams.len() ==> (#[trigger] self.streams[j]).valid
                && !self.streams[j].prefetch_addrs.contains(addr) {
            lemma_matching_none(self.streams, addr, 0);
        }
        if fewest(grown, least) {
            lemma_least_used(grown, grown.len() as int, least);
        }
        if fewest(self.streams, least) {
            lemma_least_used(self.streams, self.streams.len() as int, least);
        }
    }

    /// The predictions are those of the streams that expect the access, stream after stream; then those
    /// of the stride from there, where it is believed in at least five times, one stride after the other
    /// from the last access on; then the words of the region that have been accessed.
    pub proof fn law_predictions(self, addr: u32)
        ensures
            ({
                let key = (addr - addr % 16) as u32;
                let base = (addr - addr % 64) as u32;
                &&& self.predictions(addr) == expected_by_streams(
                    self.streams,
                    addr,
                    self.streams.len(),
                ) + self.suggested_by_stride(addr) + self.suggested_by_region(addr)
                &&& match self.patterns.get(key) {
                    Some(pattern) => if pattern.confidence >= 5 {
                        &&& self.suggested_by_stride(addr).len() == pattern.prefetch_distance
                        &&& forall|i: int|
                            0 <= i < pattern.prefetch_distance ==> #[trigger] self.suggested_by_stride(
                                addr,
                            )[i] == if i == 0 {
                                pattern.last_addr.wrapping_add(pattern.stride as u32)
                            } else {
                                self.suggested_by_stride(addr)[i - 1].wrapping_add(
                                    pattern.stride as u32,
                                )
                            }
                    } else {
                        self.suggested_by_stride(addr).len() == 0
                    },
                    None => self.suggested_by_stride(addr).len() == 0,
                }
                &&& match self.regions.get(base) {
                    Some(region) => self.suggested_by_region(addr) == accessed_words(region, base, 16),
                    None => self.suggested_by_region(addr).len() == 0,
                }
            }),
    {
        let key = (addr - addr % 16) as u32;
        if self.patterns.contains_key(key) && self.patterns[key].confidence >= 5 {
            let pattern = self.patterns[key];
            assert forall|i: int|
                0 <= i < pattern.prefetch_distance implies #[trigger] self.suggested_by_stride(addr)[i]
                == if i == 0 {
                pattern.last_addr.wrapping_add(pattern.stride as u32)
            } else {
                self.suggested_by_stride(addr)[i - 1].wrapping_add(pattern.stride as u32)
            } by {
                reveal_with_fuel(strides_from, 2);
                assert(self.suggested_by_stride(addr)[i] == strides_from(
                    pattern.last_addr,
                    pattern.stride,
                    (i + 1) as nat,
                ));
                if i > 0 {
                    assert(self.suggested_by_stride(addr)[i - 1] == strides_from(
                        pattern.last_addr,
                        pattern.stride,
                        i as nat,
                    ));
                }
            }
        }
    }
}

/// The stream is the first of those with the fewest hits.
pub open spec fn fewest(streams: Seq<StreamView>, least: int) -> bool {
    &&& 0 <= least < streams.len()
    &&& forall|j: int| 0 <= j < streams.len() ==> streams[least].hits <= (#[trigger] streams[j]).hits
    &&& forall|j: int| 0 <= j < least ==> streams[least].hits < (#[trigger] streams[j]).hits
}

proof fn lemma_matching(streams: Seq<StreamView>, addr: u32, from: int, i: int)
    requires
        0 <= from <= i < streams.len(),
        forall|j: int|
            from <= j < i ==> (#[trigger] streams[j]).valid && !streams[j].prefetch_addrs.contains(
                addr,
            ),
        !streams[i].valid || streams[i].prefetch_addrs.contains(addr),
    ensures
        matching_stream(streams, addr, from) == Some(i),
    decreases i - from,
{
    if from < i {
        assert(streams[from].valid && !streams[from].prefetch_addrs.contains(addr));
        lemma_matching(streams, addr, from + 1, i);
    }
}

proof fn lemma_matching_none(streams: Seq<StreamView>, addr: u32, from: int)
    requires
        0 <= from,
        forall|j: int|
            from <= j < streams.len() ==> (#[trigger] streams[j]).valid
                && !streams[j].prefetch_addrs.contains(addr),
    ensures
        matching_stream(streams, addr, from) is None,
    decreases streams.len() - from,
{
    if from < streams.len() {
        assert(streams[from].valid && !streams[from].prefetch_addrs.contains(addr));
        lemma_matching_none(streams, addr, from + 1);
    }
}

proof fn lemma_least_used(streams: Seq<StreamView>, count: int, least: int)
    requires
        fewest(streams, least),
        1 <= count <= streams.len(),
    ensures
        least < count ==> least_used(streams, count) == least,
        0 <= least_used(streams, count) < count,
    decreases count,
{
    if count > 1 {
        lemma_least_used(streams, count - 1, least);
        let before = least_used(streams, count - 1);
        if least == count - 1 {
            assert(streams[least].hits < streams[before].hits);
        } else if least < count - 1 {
            assert(streams[least].hits <= streams[count - 1].hits);
        }
    }
}

/// The words of a region that are given are those whose bit is set, each at four times its number behind
/// the start of the region, in ascending order.
pub proof fn law_region_words(region: SpatialRegion, base: u32, word: int)
    requires
        base as int % 64 == 0,
        0 <= word < 16,
    ensures
        ({
            let words = accessed_words(region, base, 16);
            &&& words.contains((base + 4 * word) as u32) <==> region.access_bitmap & (1u64 << (
            word as u64)) != 0
            &&& forall|i: int|
                0 <= i < words.len() ==> base <= #[trigger] words[i] < base + 64 && (words[i] - base)
                    % 4 == 0
            &&& forall|i: int, j: int|
                0 <= i < j < words.len() ==> #[trigger] words[i] < #[trigger] words[j]
        }),
{
    let words = accessed_words(region, base, 16);
    lemma_ascending(region, base, 16);
    assert(base <= u32::MAX - 63);
    if region.access_bitmap & (1u64 << (word as u64)) != 0 {
        lemma_accessed_word(region, base, 16, word as nat);
    }
    if words.contains((base + 4 * word) as u32) {
        let i = choose|i: int| 0 <= i < words.len() && words[i] == (base + 4 * word) as u32;
        assert((words[i] - base) / 4 == word);
    }
}

/// A stream that is in use and expects the access adds all that it expects to what the streams before it
/// have added; another one adds nothing.
pub proof fn law_expected(streams: Seq<StreamView>, addr: u32, count: nat)
    requires
        count < streams.len(),
    ensures
        expected_by_streams(streams, addr, 0).len() == 0,
        expected_by_streams(streams, addr, count + 1) == if streams[count as int].valid
            && streams[count as int].prefetch_addrs.contains(addr) {
            expected_by_streams(streams, addr, count) + streams[count as int].prefetch_addrs
        } else {
            expected_by_streams(streams, addr, count)
        },
{
}

} // verus!
