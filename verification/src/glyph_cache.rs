//! A cache of shaped lines, swept of what was not used.

use crate::text::str_eq;
use vstd::prelude::*;

verus! {

/// Number of frames between sweeps.
pub const SWEEP_INTERVAL_FRAMES: u16 = 1024;

/// What a line looks like: its text, and the bit patterns of its color and font size.
#[derive(Debug, PartialEq, Eq)]
pub struct GlyphKey {
    pub text: String,
    pub color_bits: [u32; 4],
    pub font_size_bits: u32,
}

/// A key, with its text as characters.
#[verifier::ext_equal]
pub struct KeyView {
    pub text: Seq<char>,
    pub color_bits: Seq<u32>,
    pub font_size_bits: u32,
}

impl View for GlyphKey {
    type V = KeyView;

    open spec fn view(&self) -> KeyView {
        KeyView {
            text: self.text@,
            color_bits: self.color_bits@,
            font_size_bits: self.font_size_bits,
        }
    }
}

impl GlyphKey {
    /// The key of a text in a color and a font size.
    pub fn new(text: String, color_bits: [u32; 4], font_size_bits: u32) -> (r: GlyphKey)
        ensures
            r.text == text,
            r.color_bits == color_bits,
            r.font_size_bits == font_size_bits,
    {
        GlyphKey { text, color_bits, font_size_bits }
    }

    /// Whether two keys look the same.
    pub fn same(&self, other: &GlyphKey) -> (r: bool)
        ensures
            r == (self@ == other@),
    {
        let same: bool = self.font_size_bits == other.font_size_bits && self.color_bits[0]
            == other.color_bits[0] && self.color_bits[1] == other.color_bits[1]
            && self.color_bits[2] == other.color_bits[2] && self.color_bits[3]
            == other.color_bits[3] && str_eq(self.text.as_str(), other.text.as_str());
        proof {
            if same {
                assert(self.color_bits@ =~= other.color_bits@);
                assert(self@ == other@);
            } else if self@ == other@ {
                assert(self@.color_bits[0] == other@.color_bits[0]);
                assert(self@.color_bits[1] == other@.color_bits[1]);
                assert(self@.color_bits[2] == other@.color_bits[2]);
                assert(self@.color_bits[3] == other@.color_bits[3]);
            }
        }
        same
    }
}

/// A shaped line and when it was used last.
#[derive(Debug)]
pub struct CachedLine<L> {
    key: GlyphKey,
    line: L,
    last_used_generation: u64,
}

/// A line and the generation that it was used in last.
pub struct Used<L> {
    pub line: L,
    pub generation: u64,
}

/// A cache, by its contents and its counts.
pub struct CacheView<L> {
    pub lines: Map<KeyView, Used<L>>,
    pub generation: u64,
    pub frames_since_sweep: u16,
    pub hits: u64,
    pub misses: u64,
}

/// Shaped lines by what they look like. A sweep keeps the lines that were used since the sweep
/// before it; the first sweep, those used at all. The counts of hits and misses are never
/// reset.
#[derive(Debug)]
pub struct GlyphCache<L> {
    entries: Vec<CachedLine<L>>,
    generation: u64,
    frames_since_sweep: u16,
    hits: u64,
    misses: u64,
}

/// Whether no two entries have the same key.
spec fn distinct<L>(entries: Seq<CachedLine<L>>) -> bool {
    forall|i: int, j: int|
        0 <= i < j < entries.len() ==> (#[trigger] entries[i]).key@ != (#[trigger] entries[j]).key@
}

/// The contents of a list of entries.
spec fn contents<L>(entries: Seq<CachedLine<L>>) -> Map<KeyView, Used<L>>
    decreases entries.len(),
{
    if entries.len() == 0 {
        Map::empty()
    } else {
        contents(entries.drop_last()).insert(
            entries.last().key@,
            Used { line: entries.last().line, generation: entries.last().last_used_generation },
        )
    }
}

/// Whether an entry has the key.
spec fn has_key<L>(entries: Seq<CachedLine<L>>, k: KeyView) -> bool {
    exists|i: int| 0 <= i < entries.len() && (#[trigger] entries[i]).key@ == k
}

/// Whether the entry is one of the list.
spec fn member<L>(entries: Seq<CachedLine<L>>, entry: CachedLine<L>) -> bool {
    exists|i: int| 0 <= i < entries.len() && #[trigger] entries[i] == entry
}

/// What an entry holds.
spec fn used<L>(entry: CachedLine<L>) -> Used<L> {
    Used { line: entry.line, generation: entry.last_used_generation }
}

proof fn lemma_front_distinct<L>(entries: Seq<CachedLine<L>>)
    requires
        entries.len() > 0,
        distinct(entries),
    ensures
        distinct(entries.drop_last()),
        !has_key(entries.drop_last(), entries.last().key@),
{
    let front = entries.drop_last();
    let last = entries.len() - 1;
    assert forall|i: int, j: int| 0 <= i < j < front.len() implies (#[trigger] front[i]).key@ != (
    #[trigger] front[j]).key@ by {
        assert(front[i] == entries[i] && front[j] == entries[j]);
    }
    if has_key(front, entries.last().key@) {
        let i = choose|i: int|
            0 <= i < front.len() && (#[trigger] front[i]).key@ == entries.last().key@;
        assert(entries[i].key@ != entries[last].key@);
    }
}

proof fn lemma_has_key_front<L>(entries: Seq<CachedLine<L>>, k: KeyView)
    requires
        entries.len() > 0,
    ensures
        has_key(entries, k) <==> has_key(entries.drop_last(), k) || entries.last().key@ == k,
{
    let front = entries.drop_last();
    if has_key(front, k) {
        let i = choose|i: int| 0 <= i < front.len() && (#[trigger] front[i]).key@ == k;
        assert(entries[i].key@ == k);
    }
    if entries.last().key@ == k {
        assert(entries[entries.len() - 1].key@ == k);
    }
    if has_key(entries, k) && entries.last().key@ != k {
        let i = choose|i: int| 0 <= i < entries.len() && (#[trigger] entries[i]).key@ == k;
        assert(front[i].key@ == k);
    }
}

proof fn lemma_contents_dom<L>(entries: Seq<CachedLine<L>>, k: KeyView)
    ensures
        contents(entries).dom().contains(k) <==> has_key(entries, k),
    decreases entries.len(),
{
    if entries.len() > 0 {
        lemma_contents_dom(entries.drop_last(), k);
        lemma_has_key_front(entries, k);
    }
}

proof fn lemma_contents_at<L>(entries: Seq<CachedLine<L>>, i: int)
    requires
        distinct(entries),
        0 <= i < entries.len(),
    ensures
        contents(entries).dom().contains(entries[i].key@),
        contents(entries)[entries[i].key@] == used(entries[i]),
    decreases entries.len(),
{
    lemma_front_distinct(entries);
    if i < entries.len() - 1 {
        lemma_contents_at(entries.drop_last(), i);
        assert(entries[i].key@ != entries[entries.len() - 1].key@);
    }
}

proof fn lemma_contents_len<L>(entries: Seq<CachedLine<L>>)
    requires
        distinct(entries),
    ensures
        contents(entries).dom().finite(),
        contents(entries).dom().len() == entries.len(),
    decreases entries.len(),
{
    if entries.len() > 0 {
        lemma_front_distinct(entries);
        lemma_contents_len(entries.drop_last());
        lemma_contents_dom(entries.drop_last(), entries.last().key@);
    }
}

/// Keeps the entries that were used in the given generation.
fn retain<L>(entries: Vec<CachedLine<L>>, generation: u64) -> (r: Vec<CachedLine<L>>)
    requires
        distinct(entries@),
    ensures
        distinct(r@),
        forall|e: CachedLine<L>| #[trigger]
            member(r@, e) <==> member(entries@, e) && e.last_used_generation == generation,
{
    let ghost all = entries@;
    let mut rest: Vec<CachedLine<L>> = entries;
    let mut kept: Vec<CachedLine<L>> = Vec::new();
    let mut moved: Ghost<int> = Ghost(all.len() as int);
    assert(all.take(moved@) =~= all);
    assert(all.skip(moved@) =~= Seq::<CachedLine<L>>::empty());
    while rest.len() > 0
        invariant
            0 <= moved@ <= all.len(),
            rest@ == all.take(moved@),
            distinct(all),
            distinct(kept@),
            forall|e: CachedLine<L>| #[trigger]
                member(kept@, e) <==> member(all.skip(moved@), e) && e.last_used_generation
                    == generation,
        decreases rest.len(),
    {
        let ghost at = moved@ - 1;
        let ghost tail = all.skip(moved@);
        let popped: Option<CachedLine<L>> = rest.pop();
        if let Some(entry) = popped {
            let ghost before = kept@;
            assert(entry == all[at]);
            assert(rest@ =~= all.take(at));
            let keeps: bool = entry.last_used_generation == generation;
            if keeps {
                kept.push(entry);
                proof {
                    assert forall|i: int, j: int| 0 <= i < j < kept.len() implies (
                    #[trigger] kept@[i]).key@ != (#[trigger] kept@[j]).key@ by {
                        assert(kept@[i] == before[i]);
                        if j < before.len() {
                            assert(kept@[j] == before[j]);
                        } else {
                            assert(member(before, before[i]));
                            assert(member(tail, before[i]));
                            let k = choose|k: int|
                                0 <= k < tail.len() && #[trigger] tail[k] == before[i];
                            assert(tail[k] == all[moved@ + k]);
                            assert(all[at].key@ != all[moved@ + k].key@);
                        }
                    }
                }
            }
            proof {
                let longer = all.skip(at);
                assert(longer =~= seq![entry] + tail);
                assert forall|e: CachedLine<L>| #[trigger] member(kept@, e) <==> member(longer, e)
                    && e.last_used_generation == generation by {
                    if member(kept@, e) {
                        let i = choose|i: int| 0 <= i < kept.len() && #[trigger] kept@[i] == e;
                        if i < before.len() {
                            assert(before[i] == e);
                            assert(member(before, e));
                            let k = choose|k: int| 0 <= k < tail.len() && #[trigger] tail[k] == e;
                            assert(longer[k + 1] == e);
                        } else {
                            assert(longer[0] == e);
                        }
                    }
                    if member(longer, e) && e.last_used_generation == generation {
                        let k = choose|k: int| 0 <= k < longer.len() && #[trigger] longer[k] == e;
                        if k == 0 {
                            assert(kept@[before.len() as int] == e);
                        } else {
                            assert(tail[k - 1] == e);
                            assert(member(tail, e));
                            assert(member(before, e));
                            let i = choose|i: int|
                                0 <= i < before.len() && #[trigger] before[i] == e;
                            assert(kept@[i] == e);
                        }
                    }
                }
                moved@ = at;
            }
        }
    }
    assert(all.skip(moved@) =~= all);
    kept
}

proof fn lemma_retained<L>(all: Seq<CachedLine<L>>, kept: Seq<CachedLine<L>>, generation: u64)
    requires
        distinct(all),
        distinct(kept),
        forall|e: CachedLine<L>| #[trigger]
            member(kept, e) <==> member(all, e) && e.last_used_generation == generation,
    ensures
        contents(kept) == used_in(contents(all), generation),
{
    let want = used_in(contents(all), generation);
    assert forall|k: KeyView| #[trigger] contents(kept).dom().contains(k) == want.dom().contains(k)
        && (want.dom().contains(k) ==> contents(kept)[k] == want[k]) by {
        lemma_contents_dom(kept, k);
        lemma_contents_dom(all, k);
        if has_key(kept, k) {
            let i = choose|i: int| 0 <= i < kept.len() && (#[trigger] kept[i]).key@ == k;
            assert(member(kept, kept[i]));
            let j = choose|j: int| 0 <= j < all.len() && #[trigger] all[j] == kept[i];
            lemma_contents_at(all, j);
            lemma_contents_at(kept, i);
        }
        if has_key(all, k) && contents(all)[k].generation == generation {
            let j = choose|j: int| 0 <= j < all.len() && (#[trigger] all[j]).key@ == k;
            lemma_contents_at(all, j);
            assert(member(all, all[j]));
            assert(member(kept, all[j]));
            let i = choose|i: int| 0 <= i < kept.len() && #[trigger] kept[i] == all[j];
            assert(kept[i].key@ == k);
        }
    }
    assert(contents(kept) =~= want);
}

/// Using an entry again changes what the list holds under its key, and nothing else.
proof fn lemma_touched<L>(all: Seq<CachedLine<L>>, now: Seq<CachedLine<L>>, at: int, g: u64)
    requires
        distinct(all),
        0 <= at < all.len(),
        now == all.update(at, CachedLine { last_used_generation: g, ..all[at] }),
    ensures
        distinct(now),
        contents(now) == contents(all).insert(
            all[at].key@,
            Used { line: all[at].line, generation: g },
        ),
{
    assert forall|a: int, b: int| 0 <= a < b < now.len() implies (#[trigger] now[a]).key@ != (
    #[trigger] now[b]).key@ by {
        assert(now[a].key == all[a].key && now[b].key == all[b].key);
        assert(all[a].key@ != all[b].key@);
    }
    let want = contents(all).insert(all[at].key@, Used { line: all[at].line, generation: g });
    assert forall|k: KeyView| #[trigger] contents(now).dom().contains(k) == want.dom().contains(k)
        && (want.dom().contains(k) ==> contents(now)[k] == want[k]) by {
        lemma_contents_dom(now, k);
        lemma_contents_dom(all, k);
        if has_key(all, k) {
            let j = choose|j: int| 0 <= j < all.len() && (#[trigger] all[j]).key@ == k;
            assert(now[j].key@ == k);
            lemma_contents_at(all, j);
            lemma_contents_at(now, j);
            if j != at {
                if j < at {
                    assert(all[j].key@ != all[at].key@);
                } else {
                    assert(all[at].key@ != all[j].key@);
                }
            }
        }
        if has_key(now, k) {
            let j = choose|j: int| 0 <= j < now.len() && (#[trigger] now[j]).key@ == k;
            assert(all[j].key@ == k);
        }
        if k == all[at].key@ {
            assert(now[at].key@ == k);
            lemma_contents_at(now, at);
        }
    }
    assert(contents(now) =~= want);
}

impl<L> View for GlyphCache<L> {
    type V = CacheView<L>;

    closed spec fn view(&self) -> CacheView<L> {
        CacheView {
            lines: contents(self.entries@),
            generation: self.generation,
            frames_since_sweep: self.frames_since_sweep,
            hits: self.hits,
            misses: self.misses,
        }
    }
}

/// The lines that were used in the given generation.
pub open spec fn used_in<L>(lines: Map<KeyView, Used<L>>, generation: u64) -> Map<KeyView, Used<L>> {
    lines.restrict(
        Set::new(|k: KeyView| lines.dom().contains(k) && lines[k].generation == generation),
    )
}

impl<L> CacheView<L> {
    /// Whether the next frame sweeps.
    pub open spec fn sweeps_next(self) -> bool {
        self.frames_since_sweep + 1 == SWEEP_INTERVAL_FRAMES
    }

    /// The cache once a frame began.
    pub open spec fn after_begin(self) -> CacheView<L> {
        if self.sweeps_next() {
            CacheView {
                lines: used_in(self.lines, self.generation),
                generation: (self.generation + 1) as u64,
                frames_since_sweep: 0,
                ..self
            }
        } else {
            CacheView { frames_since_sweep: (self.frames_since_sweep + 1) as u16, ..self }
        }
    }

    /// The cache once a line was looked up and found.
    pub open spec fn after_hit(self, key: KeyView) -> CacheView<L> {
        CacheView {
            lines: self.lines.insert(
                key,
                Used { line: self.lines[key].line, generation: self.generation },
            ),
            hits: (self.hits + 1) as u64,
            ..self
        }
    }

    /// The cache once a line was looked up, missed and shaped.
    pub open spec fn after_miss(self, key: KeyView, line: L) -> CacheView<L> {
        CacheView {
            lines: self.lines.insert(key, Used { line, generation: self.generation }),
            misses: (self.misses + 1) as u64,
            ..self
        }
    }
}

impl<L: Clone> GlyphCache<L> {
    /// Whether no line is held twice.
    pub closed spec fn wf(self) -> bool {
        distinct(self.entries@) && self.frames_since_sweep < SWEEP_INTERVAL_FRAMES
    }

    /// An empty cache.
    pub fn new() -> (r: GlyphCache<L>)
        ensures
            r.wf(),
            r@.lines == Map::<KeyView, Used<L>>::empty(),
            r@.generation == 0,
            r@.frames_since_sweep == 0,
            r@.hits == 0,
            r@.misses == 0,
    {
        GlyphCache { entries: Vec::new(), generation: 0, frames_since_sweep: 0, hits: 0, misses: 0 }
    }

    /// Number of cached lines.
    pub fn len(&self) -> (r: usize)
        requires
            self.wf(),
        ensures
            r == self@.lines.dom().len(),
            self@.lines.dom().finite(),
    {
        proof {
            lemma_contents_len(self.entries@);
        }
        self.entries.len()
    }

    /// Whether no line is cached.
    pub fn is_empty(&self) -> (r: bool)
        requires
            self.wf(),
        ensures
            r == (self@.lines == Map::<KeyView, Used<L>>::empty()),
    {
        proof {
            if self.entries.len() > 0 {
                lemma_contents_at(self.entries@, 0);
            }
        }
        self.entries.len() == 0
    }

    /// Lookups that found their line.
    pub fn hits(&self) -> (r: u64)
        ensures
            r == self@.hits,
    {
        self.hits
    }

    /// Lookups that had their line shaped.
    pub fn misses(&self) -> (r: u64)
        ensures
            r == self@.misses,
    {
        self.misses
    }

    /// Marks the start of a frame; every so many frames, drops the lines that were not used
    /// since the last sweep.
    pub fn begin_frame(&mut self)
        requires
            old(self).wf(),
            old(self)@.sweeps_next() ==> old(self)@.generation < u64::MAX,
        ensures
            final(self).wf(),
            final(self)@ == old(self)@.after_begin(),
    {
        self.frames_since_sweep = self.frames_since_sweep + 1;
        if self.frames_since_sweep != SWEEP_INTERVAL_FRAMES {
            return;
        }
        self.frames_since_sweep = 0;
        let ghost all = self.entries@;
        let mut entries: Vec<CachedLine<L>> = Vec::new();
        core::mem::swap(&mut entries, &mut self.entries);
        let kept: Vec<CachedLine<L>> = retain(entries, self.generation);
        proof {
            lemma_retained(all, kept@, self.generation);
        }
        self.entries = kept;
        self.generation = self.generation + 1;
    }

    /// The line of a key, shaped only where it is not cached.
    pub fn lookup_or_insert_with<F: FnOnce() -> L>(&mut self, key: GlyphKey, shape: F) -> (r: L)
        requires
            old(self).wf(),
            old(self)@.hits < u64::MAX,
            old(self)@.misses < u64::MAX,
            call_requires(shape, ()),
        ensures
            final(self).wf(),
            old(self)@.lines.dom().contains(key@) ==> {
                &&& cloned(old(self)@.lines[key@].line, r)
                &&& final(self)@ == old(self)@.after_hit(key@)
            },
            !old(self)@.lines.dom().contains(key@) ==> {
                &&& call_ensures(shape, (), r)
                &&& exists|kept: L| #[trigger]
                    cloned(r, kept) && final(self)@ == old(self)@.after_miss(key@, kept)
            },
    {
        let ghost all = self.entries@;
        let mut i: usize = 0;
        while i < self.entries.len() && !self.entries[i].key.same(&key)
            invariant
                *self == *old(self),
                i <= self.entries.len(),
                all == self.entries@,
                forall|j: int| 0 <= j < i ==> (#[trigger] all[j]).key@ != key@,
            decreases self.entries.len() - i,
        {
            i += 1;
        }
        if i < self.entries.len() {
            assert(all[i as int].key@ == key@);
            self.hits = self.hits + 1;
            let generation: u64 = self.generation;
            let line: L = self.entries[i].line.clone();
            self.entries[i].last_used_generation = generation;
            proof {
                assert(self.entries@ =~= all.update(
                    i as int,
                    CachedLine { last_used_generation: generation, ..all[i as int] },
                ));
                lemma_touched(all, self.entries@, i as int, generation);
                lemma_contents_at(all, i as int);
            }
            line
        } else {
            proof {
                lemma_contents_dom(all, key@);
            }
            self.misses = self.misses + 1;
            let line: L = shape();
            let kept: L = line.clone();
            assert(cloned(line, kept));
            self.entries.push(
                CachedLine { key, line: kept, last_used_generation: self.generation },
            );
            proof {
                let now = self.entries@;
                assert(now.drop_last() =~= all);
                assert forall|a: int, b: int| 0 <= a < b < now.len() implies (
                #[trigger] now[a]).key@ != (#[trigger] now[b]).key@ by {
                    assert(now[a] == all[a]);
                    if b < all.len() {
                        assert(now[b] == all[b]);
                    }
                }
                assert(contents(now) =~= old(self)@.after_miss(key@, kept).lines);
            }
            line
        }
    }
}

/// A second lookup of a key in the same frame finds the line of the first: it counts as a hit,
/// and nothing else changes.
pub proof fn law_second_lookup_hits<L>(before: CacheView<L>, key: KeyView, line: L)
    requires
        !before.lines.dom().contains(key),
        before.hits < u64::MAX,
        before.misses < u64::MAX,
    ensures
        ({
            let first = before.after_miss(key, line);
            let second = first.after_hit(key);
            &&& first.lines.dom().contains(key)
            &&& first.lines[key].line == line
            &&& second.lines =~= first.lines
            &&& second.hits == before.hits + 1
            &&& second.misses == before.misses + 1
        }),
{
}

/// What happens to a cache: a frame begins, or a line is looked up, with the line that shaping
/// it would give.
pub enum Turn<L> {
    Frame,
    Lookup(KeyView, L),
}

/// The cache after some turns.
pub open spec fn after_turns<L>(cache: CacheView<L>, turns: Seq<Turn<L>>) -> CacheView<L>
    decreases turns.len(),
{
    if turns.len() == 0 {
        cache
    } else {
        let before = after_turns(cache, turns.drop_last());
        match turns.last() {
            Turn::Frame => before.after_begin(),
            Turn::Lookup(key, line) => if before.lines.dom().contains(key) {
                before.after_hit(key)
            } else {
                before.after_miss(key, line)
            },
        }
    }
}

/// How many frames begin in some turns.
pub open spec fn frames_in<L>(turns: Seq<Turn<L>>) -> nat
    decreases turns.len(),
{
    if turns.len() == 0 {
        0
    } else {
        frames_in(turns.drop_last()) + if turns.last() is Frame {
            1nat
        } else {
            0nat
        }
    }
}

/// Whether a line is looked up in some turns.
pub open spec fn looks_up<L>(turns: Seq<Turn<L>>, key: KeyView) -> bool {
    exists|i: int| 0 <= i < turns.len() && #[trigger] turns[i] is Lookup && turns[i]->0 == key
}

proof fn lemma_looks_up_last<L>(turns: Seq<Turn<L>>, key: KeyView)
    requires
        turns.len() > 0,
    ensures
        looks_up(turns, key) <==> looks_up(turns.drop_last(), key) || (turns.last() is Lookup
            && turns.last()->0 == key),
{
    let before = turns.drop_last();
    if looks_up(before, key) {
        let i = choose|i: int|
            0 <= i < before.len() && #[trigger] before[i] is Lookup && before[i]->0 == key;
        assert(turns[i] is Lookup && turns[i]->0 == key);
    }
    if turns.last() is Lookup && turns.last()->0 == key {
        assert(turns[turns.len() - 1] is Lookup);
    }
    if looks_up(turns, key) {
        let i = choose|i: int|
            0 <= i < turns.len() && #[trigger] turns[i] is Lookup && turns[i]->0 == key;
        if i < before.len() {
            assert(before[i] is Lookup && before[i]->0 == key);
        }
    }
}

/// Between two sweeps lines only come, and those that are looked up are marked as used.
proof fn lemma_between_sweeps<L>(cache: CacheView<L>, turns: Seq<Turn<L>>)
    requires
        cache.frames_since_sweep == 0,
        frames_in(turns) < SWEEP_INTERVAL_FRAMES,
    ensures
        ({
            let now = after_turns(cache, turns);
            &&& now.generation == cache.generation
            &&& now.frames_since_sweep == frames_in(turns)
            &&& forall|key: KeyView| #[trigger]
                now.lines.dom().contains(key) <==> cache.lines.dom().contains(key) || looks_up(
                    turns,
                    key,
                )
            &&& forall|key: KeyView| #[trigger]
                now.lines.dom().contains(key) ==> now.lines[key].generation == (if looks_up(
                    turns,
                    key,
                ) {
                    cache.generation
                } else {
                    cache.lines[key].generation
                })
            &&& forall|key: KeyView| #[trigger]
                cache.lines.dom().contains(key) ==> now.lines[key].line == cache.lines[key].line
        }),
    decreases turns.len(),
{
    if turns.len() > 0 {
        let before = turns.drop_last();
        lemma_between_sweeps(cache, before);
        assert forall|key: KeyView| true implies #[trigger] looks_up(turns, key) == (looks_up(
            before,
            key,
        ) || (turns.last() is Lookup && turns.last()->0 == key)) by {
            lemma_looks_up_last(turns, key);
        }
        let now = after_turns(cache, turns);
        let earlier = after_turns(cache, before);
        assert forall|key: KeyView| #[trigger] now.lines.dom().contains(key) implies now.lines[key].generation
            == (if looks_up(turns, key) {
            cache.generation
        } else {
            cache.lines[key].generation
        }) by {
            assert(looks_up(turns, key) == (looks_up(before, key) || (turns.last() is Lookup
                && turns.last()->0 == key)));
            assert(earlier.lines.dom().contains(key) || (turns.last() is Lookup && turns.last()->0
                == key));
        }
        assert forall|key: KeyView| #[trigger] cache.lines.dom().contains(key) implies now.lines[key].line
            == cache.lines[key].line by {
            assert(earlier.lines.dom().contains(key));
        }
        assert forall|key: KeyView| #[trigger]
            now.lines.dom().contains(key) <==> cache.lines.dom().contains(key) || looks_up(
                turns,
                key,
            ) by {
            assert(looks_up(turns, key) == (looks_up(before, key) || (turns.last() is Lookup
                && turns.last()->0 == key)));
            assert(earlier.lines.dom().contains(key) <==> cache.lines.dom().contains(key) || looks_up(
                before,
                key,
            ));
        }
    }
}

/// The frame that ends an interval keeps the lines that were looked up in it, or are marked as
/// used in it from the start, and no others; a line that was there before is the same line.
pub proof fn law_sweep_keeps_used<L>(cache: CacheView<L>, turns: Seq<Turn<L>>)
    requires
        cache.frames_since_sweep == 0,
        cache.generation < u64::MAX,
        frames_in(turns) + 1 == SWEEP_INTERVAL_FRAMES,
    ensures
        ({
            let swept = after_turns(cache, turns).after_begin();
            &&& swept.generation == cache.generation + 1
            &&& swept.frames_since_sweep == 0
            &&& forall|key: KeyView| #[trigger]
                swept.lines.dom().contains(key) <==> looks_up(turns, key)
                    || cache.lines.dom().contains(key) && cache.lines[key].generation
                    == cache.generation
            &&& forall|key: KeyView| #[trigger]
                swept.lines.dom().contains(key) ==> swept.lines[key].generation == cache.generation
            &&& forall|key: KeyView| #[trigger]
                swept.lines.dom().contains(key) && cache.lines.dom().contains(key)
                    ==> swept.lines[key].line == cache.lines[key].line
        }),
{
    lemma_between_sweeps(cache, turns);
    let now = after_turns(cache, turns);
    let swept = now.after_begin();
    assert forall|key: KeyView| #[trigger]
        swept.lines.dom().contains(key) <==> looks_up(turns, key) || cache.lines.dom().contains(key)
            && cache.lines[key].generation == cache.generation by {
        assert(now.lines.dom().contains(key) <==> cache.lines.dom().contains(key) || looks_up(
            turns,
            key,
        ));
    }
}

/// A line that is not looked up in a whole interval goes with the sweep at its end: after two
/// sweeps the cache holds the lines that were looked up between them.
pub proof fn law_unused_goes<L>(cache: CacheView<L>, turns: Seq<Turn<L>>, more: Seq<Turn<L>>)
    requires
        cache.frames_since_sweep == 0,
        cache.generation < u64::MAX - 1,
        frames_in(turns) + 1 == SWEEP_INTERVAL_FRAMES,
        frames_in(more) + 1 == SWEEP_INTERVAL_FRAMES,
    ensures
        ({
            let swept = after_turns(cache, turns).after_begin();
            let again = after_turns(swept, more).after_begin();
            forall|key: KeyView| #[trigger]
                again.lines.dom().contains(key) <==> looks_up(more, key)
        }),
{
    law_sweep_keeps_used(cache, turns);
    law_sweep_keeps_used(after_turns(cache, turns).after_begin(), more);
}

/// Two keys look the same exactly where their texts, all four components of their colors and their
/// font sizes are the same.
pub proof fn law_same_look(a: &GlyphKey, b: &GlyphKey, r: bool)
    requires
        call_ensures(GlyphKey::same, (a, b), r),
    ensures
        r <==> a.text@ == b.text@ && a.color_bits@[0] == b.color_bits@[0] && a.color_bits@[1]
            == b.color_bits@[1] && a.color_bits@[2] == b.color_bits@[2] && a.color_bits@[3]
            == b.color_bits@[3] && a.font_size_bits == b.font_size_bits,
{
    if a.color_bits@[0] == b.color_bits@[0] && a.color_bits@[1] == b.color_bits@[1]
        && a.color_bits@[2] == b.color_bits@[2] && a.color_bits@[3] == b.color_bits@[3] {
        assert(a.color_bits@ =~= b.color_bits@);
    }
}

/// A lookup counts as a hit where the line was held and as a miss where it was not; either way it is
/// held afterwards, as used now, and every other line stays as it was.
pub proof fn law_lookup_counts<L: Clone, F: FnOnce() -> L>(
    cache: &mut GlyphCache<L>,
    key: GlyphKey,
    shape: F,
    r: L,
    other: KeyView,
)
    requires
        old(cache).wf(),
        old(cache)@.hits < u64::MAX,
        old(cache)@.misses < u64::MAX,
        call_ensures(GlyphCache::<L>::lookup_or_insert_with::<F>, (cache, key, shape), r),
    ensures
        old(cache)@.lines.dom().contains(key@) ==> final(cache)@.hits == old(cache)@.hits + 1
            && final(cache)@.misses == old(cache)@.misses,
        !old(cache)@.lines.dom().contains(key@) ==> final(cache)@.misses == old(cache)@.misses + 1
            && final(cache)@.hits == old(cache)@.hits,
        final(cache)@.lines.dom().contains(key@),
        final(cache)@.lines[key@].generation == old(cache)@.generation,
        other != key@ ==> (final(cache)@.lines.dom().contains(other) <==> old(
            cache,
        )@.lines.dom().contains(other)),
        other != key@ && old(cache)@.lines.dom().contains(other) ==> final(cache)@.lines[other]
            == old(cache)@.lines[other],
{
}

/// Every thousand and twenty-fourth frame, and no other, drops the lines that were not used since the
/// sweep before; those that were used stay as they are.
pub proof fn law_frames_and_sweeps<L: Clone>(cache: &mut GlyphCache<L>, key: KeyView)
    requires
        old(cache).wf(),
        old(cache)@.generation < u64::MAX,
        old(cache)@.frames_since_sweep < 1_024,
        call_ensures(GlyphCache::<L>::begin_frame, (cache,), ()),
    ensures
        old(cache)@.frames_since_sweep + 1 < 1_024 ==> final(cache)@.lines == old(
            cache,
        )@.lines && final(cache)@.frames_since_sweep == old(cache)@.frames_since_sweep + 1
            && final(cache)@.generation == old(cache)@.generation,
        old(cache)@.frames_since_sweep + 1 == 1_024 ==> {
            &&& final(cache)@.frames_since_sweep == 0
            &&& final(cache)@.generation == old(cache)@.generation + 1
            &&& final(cache)@.lines.dom().contains(key) <==> old(cache)@.lines.dom().contains(key)
                && old(cache)@.lines[key].generation == old(cache)@.generation
            &&& final(cache)@.lines.dom().contains(key) ==> final(cache)@.lines[key] == old(
                cache,
            )@.lines[key]
        },
        final(cache)@.hits == old(cache)@.hits && final(cache)@.misses == old(cache)@.misses,
{
}

/// A line that is kept is handed out again and stays as it is; one that is not is shaped, handed
/// out and kept.
pub proof fn law_line_handed_out<L: Clone, F: FnOnce() -> L>(
    cache: &mut GlyphCache<L>,
    key: GlyphKey,
    shape: F,
    r: L,
)
    requires
        old(cache).wf(),
        old(cache)@.hits < u64::MAX,
        old(cache)@.misses < u64::MAX,
        call_ensures(GlyphCache::<L>::lookup_or_insert_with::<F>, (cache, key, shape), r),
    ensures
        old(cache)@.lines.dom().contains(key@) ==> cloned(old(cache)@.lines[key@].line, r)
            && final(cache)@.lines[key@].line == old(cache)@.lines[key@].line,
        !old(cache)@.lines.dom().contains(key@) ==> call_ensures(shape, (), r) && cloned(
            r,
            final(cache)@.lines[key@].line,
        ),
        final(cache)@.generation == old(cache)@.generation,
        final(cache)@.frames_since_sweep == old(cache)@.frames_since_sweep,
{
}

} // verus!
