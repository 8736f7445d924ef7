//! A census of native refreshes: what each order's refresh state adds up to over a day.

use crate::data_plane::apply::APPLY_BUDGET_NS;
use crate::event::EventKind;
use crate::text::{decimal, push_decimal};
use std::collections::{HashMap, HashSet};
use vstd::prelude::*;

verus! {

broadcast use vstd::std_specs::hash::group_hash_axioms;

/// What the book knows of an order's refreshes.
#[derive(Clone, Copy, Debug, PartialEq, Eq, Structural)]
pub enum RefreshState {
    Known { native: bool, reloads: u32, hidden_volume: u64 },
    Unavailable,
    NotResting,
}

/// What was seen of an order: its refreshes in its present life, and the most in any.
#[derive(Clone, Copy, Debug, PartialEq, Eq, Structural)]
pub struct Track {
    pub reloads: u32,
    pub hidden: u64,
    pub max_reloads: u32,
}

/// A census, by its counts and the orders it has seen.
#[verifier::ext_equal]
pub struct CensusView {
    pub total: nat,
    pub hidden: nat,
    pub max_reloads: u32,
    pub tracks: Map<u64, Track>,
    pub unavail: Set<u64>,
    pub sig_checked: nat,
    pub sig_ok: nat,
    pub inv_a: nat,
    pub gaps: u32,
}

/// A census of native refreshes.
pub struct Census {
    total: u64,
    hidden: u64,
    max_reloads: u32,
    tracks: Vec<(u64, Track)>,
    index: HashMap<u64, usize>,
    unavail: HashSet<u64>,
    sig_checked: u64,
    sig_ok: u64,
    inv_a: u64,
    gaps: u32,
}

/// Whether no order occurs twice.
pub open spec fn distinct(tracks: Seq<(u64, Track)>) -> bool {
    forall|i: int, j: int|
        0 <= i < j < tracks.len() ==> (#[trigger] tracks[i]).0 != (#[trigger] tracks[j]).0
}

/// The list as a map.
pub open spec fn track_map(tracks: Seq<(u64, Track)>) -> Map<u64, Track>
    decreases tracks.len(),
{
    if tracks.len() == 0 {
        Map::empty()
    } else {
        track_map(tracks.drop_last()).insert(tracks.last().0, tracks.last().1)
    }
}

/// Whether the list has the order.
pub open spec fn listed(tracks: Seq<(u64, Track)>, id: u64) -> bool {
    exists|i: int| 0 <= i < tracks.len() && (#[trigger] tracks[i]).0 == id
}

proof fn lemma_front(tracks: Seq<(u64, Track)>)
    requires
        tracks.len() > 0,
        distinct(tracks),
    ensures
        distinct(tracks.drop_last()),
        !listed(tracks.drop_last(), tracks.last().0),
{
    let front = tracks.drop_last();
    let last = tracks.len() - 1;
    assert forall|i: int, j: int| 0 <= i < j < front.len() implies (#[trigger] front[i]).0 != (
    #[trigger] front[j]).0 by {
        assert(front[i] == tracks[i] && front[j] == tracks[j]);
    }
    if listed(front, tracks.last().0) {
        let i = choose|i: int| 0 <= i < front.len() && (#[trigger] front[i]).0 == tracks.last().0;
        assert(tracks[i].0 != tracks[last].0);
    }
}

proof fn lemma_map_dom(tracks: Seq<(u64, Track)>, id: u64)
    ensures
        track_map(tracks).dom().contains(id) <==> listed(tracks, id),
    decreases tracks.len(),
{
    if tracks.len() > 0 {
        let front = tracks.drop_last();
        let last = tracks.len() - 1;
        lemma_map_dom(front, id);
        if listed(front, id) {
            let i = choose|i: int| 0 <= i < front.len() && (#[trigger] front[i]).0 == id;
            assert(tracks[i].0 == id);
        }
        if listed(tracks, id) && tracks[last].0 != id {
            let i = choose|i: int| 0 <= i < tracks.len() && (#[trigger] tracks[i]).0 == id;
            assert(front[i].0 == id);
        }
        if tracks[last].0 == id {
            assert(listed(tracks, id));
        }
    }
}

proof fn lemma_map_at(tracks: Seq<(u64, Track)>, i: int)
    requires
        distinct(tracks),
        0 <= i < tracks.len(),
    ensures
        track_map(tracks).dom().contains(tracks[i].0),
        track_map(tracks)[tracks[i].0] == tracks[i].1,
    decreases tracks.len(),
{
    lemma_front(tracks);
    if i < tracks.len() - 1 {
        lemma_map_at(tracks.drop_last(), i);
        assert(tracks[i].0 != tracks[tracks.len() - 1].0);
    }
}

proof fn lemma_map_update(tracks: Seq<(u64, Track)>, i: int, track: Track)
    requires
        distinct(tracks),
        0 <= i < tracks.len(),
    ensures
        distinct(tracks.update(i, (tracks[i].0, track))),
        track_map(tracks.update(i, (tracks[i].0, track))) == track_map(tracks).insert(
            tracks[i].0,
            track,
        ),
{
    let now = tracks.update(i, (tracks[i].0, track));
    assert forall|a: int, b: int| 0 <= a < b < now.len() implies (#[trigger] now[a]).0 != (
    #[trigger] now[b]).0 by {
        assert(tracks[a].0 != tracks[b].0);
    }
    let want = track_map(tracks).insert(tracks[i].0, track);
    assert forall|id: u64| #[trigger] track_map(now).dom().contains(id) == want.dom().contains(id)
        && (want.dom().contains(id) ==> track_map(now)[id] == want[id]) by {
        lemma_map_dom(now, id);
        lemma_map_dom(tracks, id);
        if listed(tracks, id) {
            let j = choose|j: int| 0 <= j < tracks.len() && (#[trigger] tracks[j]).0 == id;
            assert(now[j].0 == id);
            lemma_map_at(tracks, j);
            lemma_map_at(now, j);
            if j < i {
                assert(tracks[j].0 != tracks[i].0);
            } else if i < j {
                assert(tracks[i].0 != tracks[j].0);
            }
        }
        if listed(now, id) {
            let j = choose|j: int| 0 <= j < now.len() && (#[trigger] now[j]).0 == id;
            assert(tracks[j].0 == id);
        }
        if id == tracks[i].0 {
            assert(now[i].0 == id);
            lemma_map_at(now, i);
        }
    }
    assert(track_map(now) =~= want);
}

impl View for Census {
    type V = CensusView;

    closed spec fn view(&self) -> CensusView {
        CensusView {
            total: self.total as nat,
            hidden: self.hidden as nat,
            max_reloads: self.max_reloads,
            tracks: track_map(self.tracks@),
            unavail: self.unavail@,
            sig_checked: self.sig_checked as nat,
            sig_ok: self.sig_ok as nat,
            inv_a: self.inv_a as nat,
            gaps: self.gaps,
        }
    }
}

/// An order that has seen no refresh.
pub open spec fn no_track() -> Track {
    Track { reloads: 0, hidden: 0, max_reloads: 0 }
}

/// A track whose life ended: the counts of the next life start over, the most in any stays.
pub open spec fn ended(track: Track) -> Track {
    Track { reloads: 0, hidden: 0, ..track }
}

/// Whether hidden volume and reloads contradict each other: one without the other.
pub open spec fn contradicts(reloads: u32, hidden: u64) -> bool {
    (hidden > 0) != (reloads > 0)
}

impl CensusView {
    /// What was seen of an order before.
    pub open spec fn track(self, id: u64) -> Track {
        if self.tracks.dom().contains(id) {
            self.tracks[id]
        } else {
            no_track()
        }
    }

    /// The census once an order's life ended.
    pub open spec fn life_ended(self, id: u64) -> CensusView {
        if self.tracks.dom().contains(id) {
            CensusView { tracks: self.tracks.insert(id, ended(self.tracks[id])), ..self }
        } else {
            self
        }
    }

    /// The census once an order with refreshes was seen. More reloads than before add what is
    /// more of them; fewer, or another hidden volume, are a new life and add what it has.
    pub open spec fn refreshed(self, id: u64, native: bool, reloads: u32, volume: u64) -> CensusView {
        let before = self.track(id);
        let most = if reloads > before.max_reloads {
            reloads
        } else {
            before.max_reloads
        };
        let grew = reloads > before.reloads;
        let restarted = !grew && (reloads < before.reloads || volume != before.hidden);
        CensusView {
            total: self.total + if grew {
                (reloads - before.reloads) as nat
            } else if restarted {
                reloads as nat
            } else {
                0
            },
            hidden: self.hidden + if grew && volume >= before.hidden {
                (volume - before.hidden) as nat
            } else if grew || restarted {
                volume as nat
            } else {
                0
            },
            inv_a: self.inv_a + if grew && volume < before.hidden {
                1nat
            } else {
                0nat
            },
            sig_checked: self.sig_checked + 1,
            sig_ok: self.sig_ok + if native {
                1nat
            } else {
                0nat
            },
            max_reloads: if most > self.max_reloads {
                most
            } else {
                self.max_reloads
            },
            tracks: self.tracks.insert(id, Track { reloads, hidden: volume, max_reloads: most }),
            ..self
        }
    }

    /// The census once the book was asked about an order.
    pub open spec fn noted(self, id: u64, state: RefreshState, gaps_seen: u32) -> CensusView {
        match state {
            RefreshState::Known { native, reloads, hidden_volume } => {
                let checked = CensusView {
                    inv_a: self.inv_a + if contradicts(reloads, hidden_volume) {
                        1nat
                    } else {
                        0nat
                    },
                    ..self
                };
                if reloads == 0 {
                    checked.life_ended(id)
                } else {
                    checked.refreshed(id, native, reloads, hidden_volume)
                }
            },
            RefreshState::Unavailable => if gaps_seen > 0 {
                CensusView { unavail: self.unavail.insert(id), ..self }
            } else {
                self
            },
            RefreshState::NotResting => self.life_ended(id),
        }
    }

    /// The census once the whole book was cleared.
    pub open spec fn cleared(self) -> CensusView {
        CensusView { tracks: self.tracks.map_values(|track: Track| ended(track)), ..self }
    }

    /// The census once an event was applied. Snapshot events, and those of no order, tell it
    /// nothing; a gap sets the count of gaps to the book's.
    pub open spec fn after_event(
        self,
        kind: EventKind,
        snapshot: bool,
        id: u64,
        state: RefreshState,
        gaps_seen: u32,
    ) -> CensusView {
        match kind {
            EventKind::Gap => CensusView { gaps: gaps_seen, ..self },
            EventKind::Clear => if snapshot {
                self
            } else {
                self.cleared()
            },
            EventKind::Add | EventKind::Modify | EventKind::Cancel => if snapshot || id == 0 {
                self
            } else {
                self.noted(id, state, gaps_seen)
            },
            EventKind::Trade => self,
        }
    }

    /// Whether no count can overflow within one event.
    pub open spec fn has_room(self, state: RefreshState) -> bool {
        &&& self.sig_checked < u64::MAX
        &&& self.sig_ok < u64::MAX
        &&& self.inv_a < u64::MAX - 1
        &&& state matches RefreshState::Known { reloads, hidden_volume, .. } ==> self.total
            + reloads <= u64::MAX && self.hidden + hidden_volume <= u64::MAX
    }
}

impl Census {
    /// Whether the index finds every order.
    pub closed spec fn wf(self) -> bool {
        &&& distinct(self.tracks@)
        &&& forall|id: u64| #[trigger] self.index@.dom().contains(id) <==> listed(self.tracks@, id)
        &&& forall|i: int|
            0 <= i < self.tracks.len() ==> self.index@[(#[trigger] self.tracks@[i]).0] == i
    }

    /// An empty census.
    pub fn new() -> (r: Census)
        ensures
            r.wf(),
            r@ == (CensusView {
                total: 0,
                hidden: 0,
                max_reloads: 0,
                tracks: Map::empty(),
                unavail: Set::empty(),
                sig_checked: 0,
                sig_ok: 0,
                inv_a: 0,
                gaps: 0,
            }),
    {
        Census {
            total: 0,
            hidden: 0,
            max_reloads: 0,
            tracks: Vec::new(),
            index: HashMap::new(),
            unavail: HashSet::new(),
            sig_checked: 0,
            sig_ok: 0,
            inv_a: 0,
            gaps: 0,
        }
    }

    /// The place of an order.
    fn find(&self, id: u64) -> (r: Option<usize>)
        requires
            self.wf(),
        ensures
            match r {
                Some(i) => i < self.tracks.len() && self.tracks@[i as int].0 == id
                    && self@.tracks.dom().contains(id) && self@.tracks[id]
                    == self.tracks@[i as int].1,
                None => !self@.tracks.dom().contains(id) && !listed(self.tracks@, id),
            },
    {
        proof {
            lemma_map_dom(self.tracks@, id);
        }
        match self.index.get(&id) {
            Some(place) => {
                let i: usize = *place;
                proof {
                    let k = choose|k: int|
                        0 <= k < self.tracks.len() && (#[trigger] self.tracks@[k]).0 == id;
                    assert(self.index@[self.tracks@[k].0] == k);
                    lemma_map_at(self.tracks@, k);
                }
                Some(i)
            },
            None => None,
        }
    }

    /// Replaces what was seen of an order.
    fn put(&mut self, id: u64, track: Track)
        requires
            old(self).wf(),
        ensures
            final(self).wf(),
            final(self)@ == (CensusView {
                tracks: old(self)@.tracks.insert(id, track),
                ..old(self)@
            }),
    {
        let ghost before = self.tracks@;
        match self.find(id) {
            Some(i) => {
                self.tracks.set(i, (id, track));
                proof {
                    let now = self.tracks@;
                    lemma_map_update(before, i as int, track);
                    assert(now == before.update(i as int, (before[i as int].0, track)));
                    assert forall|k: u64| #[trigger]
                        self.index@.dom().contains(k) <==> listed(now, k) by {
                        if listed(before, k) {
                            let j = choose|j: int|
                                0 <= j < before.len() && (#[trigger] before[j]).0 == k;
                            assert(now[j].0 == k);
                        }
                        if listed(now, k) {
                            let j = choose|j: int|
                                0 <= j < now.len() && (#[trigger] now[j]).0 == k;
                            assert(before[j].0 == k);
                        }
                    }
                    assert forall|j: int| 0 <= j < now.len() implies self.index@[(
                    #[trigger] now[j]).0] == j by {
                        assert(now[j].0 == before[j].0);
                    }
                }
            },
            None => {
                let place: usize = self.tracks.len();
                self.tracks.push((id, track));
                self.index.insert(id, place);
                proof {
                    let now = self.tracks@;
                    assert(now.drop_last() =~= before);
                    assert forall|a: int, b: int| 0 <= a < b < now.len() implies (
                    #[trigger] now[a]).0 != (#[trigger] now[b]).0 by {
                        assert(now[a] == before[a]);
                        if b < before.len() {
                            assert(now[b] == before[b]);
                        }
                    }
                    assert forall|k: u64| #[trigger]
                        self.index@.dom().contains(k) <==> listed(now, k) by {
                        if listed(before, k) {
                            let j = choose|j: int|
                                0 <= j < before.len() && (#[trigger] before[j]).0 == k;
                            assert(now[j].0 == k);
                        }
                        if k == id {
                            assert(now[place as int].0 == k);
                        }
                        if listed(now, k) && k != id {
                            let j = choose|j: int|
                                0 <= j < now.len() && (#[trigger] now[j]).0 == k;
                            assert(before[j].0 == k);
                        }
                    }
                    assert forall|j: int| 0 <= j < now.len() implies self.index@[(
                    #[trigger] now[j]).0] == j by {
                        if j < before.len() {
                            assert(now[j] == before[j]);
                            assert(listed(before, now[j].0));
                        }
                    }
                }
            },
        }
    }

    fn end_life(&mut self, id: u64)
        requires
            old(self).wf(),
        ensures
            final(self).wf(),
            final(self)@ == old(self)@.life_ended(id),
    {
        if let Some(i) = self.find(id) {
            let most: u32 = self.tracks[i].1.max_reloads;
            self.put(id, Track { reloads: 0, hidden: 0, max_reloads: most });
        }
    }

    /// Takes note of what the book knows of an order.
    pub fn note(&mut self, id: u64, state: RefreshState, gaps_seen: u32)
        requires
            old(self).wf(),
            old(self)@.has_room(state),
        ensures
            final(self).wf(),
            final(self)@ == old(self)@.noted(id, state, gaps_seen),
    {
        match state {
            RefreshState::Known { native, reloads, hidden_volume } => {
                if (hidden_volume > 0) != (reloads > 0) {
                    self.inv_a = self.inv_a + 1;
                }
                if reloads == 0 {
                    self.end_life(id);
                    return;
                }
                self.sig_checked = self.sig_checked + 1;
                if native {
                    self.sig_ok = self.sig_ok + 1;
                }
                let before: Track = match self.find(id) {
                    Some(i) => self.tracks[i].1,
                    None => Track { reloads: 0, hidden: 0, max_reloads: 0 },
                };
                if reloads > before.reloads {
                    self.total = self.total + (reloads - before.reloads) as u64;
                    if hidden_volume >= before.hidden {
                        self.hidden = self.hidden + (hidden_volume - before.hidden);
                    } else {
                        self.inv_a = self.inv_a + 1;
                        self.hidden = self.hidden + hidden_volume;
                    }
                } else if reloads < before.reloads || hidden_volume != before.hidden {
                    self.total = self.total + reloads as u64;
                    self.hidden = self.hidden + hidden_volume;
                }
                let most: u32 = if reloads > before.max_reloads {
                    reloads
                } else {
                    before.max_reloads
                };
                if most > self.max_reloads {
                    self.max_reloads = most;
                }
                self.put(id, Track { reloads, hidden: hidden_volume, max_reloads: most });
            },
            RefreshState::Unavailable => {
                if gaps_seen > 0 {
                    self.unavail.insert(id);
                }
            },
            RefreshState::NotResting => {
                self.end_life(id);
            },
        }
    }

    /// Ends every order's life.
    fn clear(&mut self)
        requires
            old(self).wf(),
        ensures
            final(self).wf(),
            final(self)@ == old(self)@.cleared(),
    {
        let ghost before = self.tracks@;
        let mut i: usize = 0;
        while i < self.tracks.len()
            invariant
                i <= self.tracks.len(),
                self.tracks.len() == before.len(),
                before == old(self).tracks@,
                self.total == old(self).total,
                self.hidden == old(self).hidden,
                self.max_reloads == old(self).max_reloads,
                self.index == old(self).index,
                self.unavail == old(self).unavail,
                self.sig_checked == old(self).sig_checked,
                self.sig_ok == old(self).sig_ok,
                self.inv_a == old(self).inv_a,
                self.gaps == old(self).gaps,
                forall|j: int|
                    0 <= j < i ==> #[trigger] self.tracks@[j] == (before[j].0, ended(before[j].1)),
                forall|j: int| i <= j < before.len() ==> #[trigger] self.tracks@[j] == before[j],
            decreases self.tracks.len() - i,
        {
            let (id, track): (u64, Track) = self.tracks[i];
            self.tracks.set(i, (id, Track { reloads: 0, hidden: 0, max_reloads: track.max_reloads }));
            i += 1;
        }
        proof {
            let now = self.tracks@;
            assert forall|a: int, b: int| 0 <= a < b < now.len() implies (#[trigger] now[a]).0 != (
            #[trigger] now[b]).0 by {
                assert(before[a].0 != before[b].0);
            }
            let want = track_map(before).map_values(|track: Track| ended(track));
            assert forall|k: u64| #[trigger] track_map(now).dom().contains(k)
                == want.dom().contains(k) && (want.dom().contains(k) ==> track_map(now)[k]
                == want[k]) by {
                lemma_map_dom(now, k);
                lemma_map_dom(before, k);
                if listed(before, k) {
                    let j = choose|j: int| 0 <= j < before.len() && (#[trigger] before[j]).0 == k;
                    assert(now[j].0 == k);
                    lemma_map_at(before, j);
                    lemma_map_at(now, j);
                }
                if listed(now, k) {
                    let j = choose|j: int| 0 <= j < now.len() && (#[trigger] now[j]).0 == k;
                    assert(before[j].0 == k);
                }
            }
            assert(track_map(now) =~= want);
            assert forall|k: u64| #[trigger]
                self.index@.dom().contains(k) <==> listed(now, k) by {
                lemma_map_dom(now, k);
                lemma_map_dom(before, k);
            }
            assert forall|j: int| 0 <= j < now.len() implies self.index@[(#[trigger] now[j]).0]
                == j by {
                assert(now[j].0 == before[j].0);
            }
        }
    }

    /// Takes note of an event that was applied to the book. `state` is what the book knows of
    /// the event's order afterwards.
    pub fn on_event(
        &mut self,
        kind: EventKind,
        snapshot: bool,
        id: u64,
        state: RefreshState,
        gaps_seen: u32,
    )
        requires
            old(self).wf(),
            old(self)@.has_room(state),
        ensures
            final(self).wf(),
            final(self)@ == old(self)@.after_event(kind, snapshot, id, state, gaps_seen),
    {
        match kind {
            EventKind::Gap => {
                self.gaps = gaps_seen;
            },
            EventKind::Clear => {
                if !snapshot {
                    self.clear();
                }
            },
            EventKind::Add | EventKind::Modify | EventKind::Cancel => {
                if !snapshot && id != 0 {
                    self.note(id, state, gaps_seen);
                }
            },
            EventKind::Trade => {},
        }
    }
}

/// The orders whose most reloads in a life lie in the given range.
pub open spec fn in_class(tracks: Map<u64, Track>, low: u32, high: u32) -> Set<u64> {
    tracks.dom().filter(|id: u64| low <= tracks[id].max_reloads <= high)
}

/// How many of the list lie in the class.
spec fn class_count(tracks: Seq<(u64, Track)>, low: u32, high: u32) -> nat
    decreases tracks.len(),
{
    if tracks.len() == 0 {
        0
    } else {
        class_count(tracks.drop_last(), low, high) + if low <= tracks.last().1.max_reloads <= high {
            1nat
        } else {
            0nat
        }
    }
}

proof fn lemma_map_finite(tracks: Seq<(u64, Track)>)
    ensures
        track_map(tracks).dom().finite(),
    decreases tracks.len(),
{
    if tracks.len() > 0 {
        lemma_map_finite(tracks.drop_last());
    }
}

proof fn lemma_class_count(tracks: Seq<(u64, Track)>, low: u32, high: u32)
    requires
        distinct(tracks),
    ensures
        in_class(track_map(tracks), low, high).finite(),
        in_class(track_map(tracks), low, high).len() == class_count(tracks, low, high),
    decreases tracks.len(),
{
    lemma_map_finite(tracks);
    if tracks.len() == 0 {
        assert(in_class(track_map(tracks), low, high) =~= Set::empty());
    } else {
        let front = tracks.drop_last();
        let id = tracks.last().0;
        lemma_front(tracks);
        lemma_class_count(front, low, high);
        lemma_map_dom(front, id);
        let before = in_class(track_map(front), low, high);
        let after = in_class(track_map(tracks), low, high);
        if low <= tracks.last().1.max_reloads <= high {
            assert(after =~= before.insert(id));
            assert(!before.contains(id));
        } else {
            assert(after =~= before);
        }
    }
}

/// The reload histogram: how many orders had refreshes, and how many of them at most one, two
/// to four, five to nine, and ten or more in a life.
#[derive(Clone, Copy, Debug, PartialEq, Eq, Structural)]
pub struct Histogram {
    pub distinct: u64,
    pub one: u64,
    pub two_to_four: u64,
    pub five_to_nine: u64,
    pub ten_or_more: u64,
}

impl Census {
    /// Refreshes that were counted.
    pub fn total(&self) -> (r: u64)
        ensures
            r == self@.total,
    {
        self.total
    }

    /// Hidden volume that was counted.
    pub fn hidden(&self) -> (r: u64)
        ensures
            r == self@.hidden,
    {
        self.hidden
    }

    /// The most reloads of an order in one life.
    pub fn max_reloads(&self) -> (r: u32)
        ensures
            r == self@.max_reloads,
    {
        self.max_reloads
    }

    /// Orders whose refreshes a gap made unknowable.
    pub fn unavail_count(&self) -> (r: usize)
        ensures
            r == self@.unavail.len(),
    {
        self.unavail.len()
    }

    /// Refreshes whose order was checked.
    pub fn sig_checked(&self) -> (r: u64)
        ensures
            r == self@.sig_checked,
    {
        self.sig_checked
    }

    /// Refreshes whose order was found native.
    pub fn sig_ok(&self) -> (r: u64)
        ensures
            r == self@.sig_ok,
    {
        self.sig_ok
    }

    /// Contradictions that were met.
    pub fn inv_a(&self) -> (r: u64)
        ensures
            r == self@.inv_a,
    {
        self.inv_a
    }

    /// Gaps in the source.
    pub fn gaps(&self) -> (r: u32)
        ensures
            r == self@.gaps,
    {
        self.gaps
    }

    /// The reload histogram.
    pub fn hist(&self) -> (r: Histogram)
        requires
            self.wf(),
        ensures
            r.distinct == in_class(self@.tracks, 1, u32::MAX).len(),
            r.one == in_class(self@.tracks, 1, 1).len(),
            r.two_to_four == in_class(self@.tracks, 2, 4).len(),
            r.five_to_nine == in_class(self@.tracks, 5, 9).len(),
            r.ten_or_more == in_class(self@.tracks, 10, u32::MAX).len(),
    {
        let mut h: Histogram = Histogram {
            distinct: 0,
            one: 0,
            two_to_four: 0,
            five_to_nine: 0,
            ten_or_more: 0,
        };
        let ghost all = self.tracks@;
        let mut i: usize = 0;
        assert(all.take(0) =~= Seq::<(u64, Track)>::empty());
        while i < self.tracks.len()
            invariant
                i <= self.tracks.len(),
                all == self.tracks@,
                h.distinct == class_count(all.take(i as int), 1, u32::MAX),
                h.one == class_count(all.take(i as int), 1, 1),
                h.two_to_four == class_count(all.take(i as int), 2, 4),
                h.five_to_nine == class_count(all.take(i as int), 5, 9),
                h.ten_or_more == class_count(all.take(i as int), 10, u32::MAX),
                h.distinct <= i,
                h.one <= i,
                h.two_to_four <= i,
                h.five_to_nine <= i,
                h.ten_or_more <= i,
            decreases self.tracks.len() - i,
        {
            assert(all.take(i + 1).drop_last() =~= all.take(i as int));
            assert(all.take(i + 1).last() == all[i as int]);
            let most: u32 = self.tracks[i].1.max_reloads;
            if most > 0 {
                h.distinct = h.distinct + 1;
                if most == 1 {
                    h.one = h.one + 1;
                } else if most <= 4 {
                    h.two_to_four = h.two_to_four + 1;
                } else if most <= 9 {
                    h.five_to_nine = h.five_to_nine + 1;
                } else {
                    h.ten_or_more = h.ten_or_more + 1;
                }
            }
            i += 1;
        }
        proof {
            assert(all.take(i as int) =~= all);
            lemma_class_count(all, 1, u32::MAX);
            lemma_class_count(all, 1, 1);
            lemma_class_count(all, 2, 4);
            lemma_class_count(all, 5, 9);
            lemma_class_count(all, 10, u32::MAX);
        }
        h
    }
}

/// A census holds finitely many orders.
pub proof fn law_tracks_finite(census: Census)
    requires
        census.wf(),
    ensures
        census@.tracks.dom().finite(),
{
    lemma_map_finite(census.tracks@);
}

/// The four parts of the histogram are all the orders that had refreshes.
pub proof fn law_histogram_adds_up(census: Census)
    requires
        census.wf(),
    ensures
        ({
            let tracks = census@.tracks;
            in_class(tracks, 1, 1).len() + in_class(tracks, 2, 4).len() + in_class(
                tracks,
                5,
                9,
            ).len() + in_class(tracks, 10, u32::MAX).len() == in_class(tracks, 1, u32::MAX).len()
        }),
{
    let tracks = census@.tracks;
    let a = in_class(tracks, 1, 1);
    let b = in_class(tracks, 2, 4);
    let c = in_class(tracks, 5, 9);
    let d = in_class(tracks, 10, u32::MAX);
    law_tracks_finite(census);
    vstd::set_lib::lemma_set_disjoint_lens(a, b);
    vstd::set_lib::lemma_set_disjoint_lens(a + b, c);
    vstd::set_lib::lemma_set_disjoint_lens(a + b + c, d);
    assert(a + b + c + d =~= in_class(tracks, 1, u32::MAX));
}

/// The orders whose counts contradict each other.
pub open spec fn contradictory(tracks: Map<u64, Track>) -> Set<u64> {
    tracks.dom().filter(|id: u64| contradicts(tracks[id].reloads, tracks[id].hidden))
}

spec fn contradiction_count(tracks: Seq<(u64, Track)>) -> nat
    decreases tracks.len(),
{
    if tracks.len() == 0 {
        0
    } else {
        contradiction_count(tracks.drop_last()) + if contradicts(
            tracks.last().1.reloads,
            tracks.last().1.hidden,
        ) {
            1nat
        } else {
            0nat
        }
    }
}

proof fn lemma_contradiction_count(tracks: Seq<(u64, Track)>)
    requires
        distinct(tracks),
    ensures
        contradictory(track_map(tracks)).len() == contradiction_count(tracks),
        contradictory(track_map(tracks)).finite(),
    decreases tracks.len(),
{
    lemma_map_finite(tracks);
    if tracks.len() == 0 {
        assert(contradictory(track_map(tracks)) =~= Set::empty());
    } else {
        let front = tracks.drop_last();
        let id = tracks.last().0;
        lemma_front(tracks);
        lemma_contradiction_count(front);
        lemma_map_dom(front, id);
        let before = contradictory(track_map(front));
        let after = contradictory(track_map(tracks));
        if contradicts(tracks.last().1.reloads, tracks.last().1.hidden) {
            assert(after =~= before.insert(id));
            assert(!before.contains(id));
        } else {
            assert(after =~= before);
        }
    }
}

/// Live orders at the end of the day.
#[derive(Clone, Copy, Debug, PartialEq, Eq, Structural)]
pub struct Closing {
    pub native: u64,
    pub unavailable: u64,
}

impl CensusView {
    /// Whether a native order at the end of the day has more reloads than were ever seen of it.
    pub open spec fn outruns(self, id: u64, reloads: u32) -> bool {
        reloads > 0 && !(self.tracks.dom().contains(id) && reloads <= self.tracks[id].max_reloads)
    }

    /// The census once a live order was looked at, at the end of the day.
    pub open spec fn closed_order(self, id: u64, state: RefreshState, gaps_seen: u32) -> CensusView {
        match state {
            RefreshState::Known { native, reloads, hidden_volume } => CensusView {
                inv_a: self.inv_a + (if contradicts(reloads, hidden_volume) {
                    1nat
                } else {
                    0nat
                }) + (if native && self.outruns(id, reloads) {
                    1nat
                } else {
                    0nat
                }),
                ..self
            },
            RefreshState::Unavailable => if gaps_seen > 0 {
                CensusView { unavail: self.unavail.insert(id), ..self }
            } else {
                self
            },
            RefreshState::NotResting => self,
        }
    }
}

impl Census {
    /// Ends the day: takes over the book's count of gaps, and counts every order whose counts
    /// contradict each other.
    pub fn close(&mut self, gaps_seen: u32)
        requires
            old(self).wf(),
            old(self)@.inv_a + contradictory(old(self)@.tracks).len() <= u64::MAX,
        ensures
            final(self).wf(),
            final(self)@ == (CensusView {
                gaps: gaps_seen,
                inv_a: old(self)@.inv_a + contradictory(old(self)@.tracks).len(),
                ..old(self)@
            }),
    {
        self.gaps = gaps_seen;
        let ghost all = self.tracks@;
        let mut breaches: u64 = 0;
        let mut i: usize = 0;
        assert(all.take(0) =~= Seq::<(u64, Track)>::empty());
        while i < self.tracks.len()
            invariant
                i <= self.tracks.len(),
                all == self.tracks@,
                breaches == contradiction_count(all.take(i as int)),
                breaches <= i,
            decreases self.tracks.len() - i,
        {
            assert(all.take(i + 1).drop_last() =~= all.take(i as int));
            assert(all.take(i + 1).last() == all[i as int]);
            let track: Track = self.tracks[i].1;
            if (track.hidden > 0) != (track.reloads > 0) {
                breaches += 1;
            }
            i += 1;
        }
        proof {
            assert(all.take(i as int) =~= all);
            lemma_contradiction_count(all);
        }
        self.inv_a = self.inv_a + breaches;
    }

    /// Looks at a price level at the end of the day: no level can have more than the session.
    pub fn close_level(&mut self, count: u32, hidden: u64, session_count: u64, session_hidden: u64)
        requires
            old(self).wf(),
            old(self)@.inv_a < u64::MAX,
        ensures
            final(self).wf(),
            final(self)@ == (CensusView {
                inv_a: old(self)@.inv_a + if count > session_count || hidden > session_hidden {
                    1nat
                } else {
                    0nat
                },
                ..old(self)@
            }),
    {
        if count as u64 > session_count || hidden > session_hidden {
            self.inv_a = self.inv_a + 1;
        }
    }

    /// Looks at a live order at the end of the day.
    pub fn close_order(
        &mut self,
        id: u64,
        state: RefreshState,
        gaps_seen: u32,
        closing: &mut Closing,
    )
        requires
            old(self).wf(),
            old(self)@.inv_a < u64::MAX - 1,
            old(closing).native < u64::MAX,
            old(closing).unavailable < u64::MAX,
        ensures
            final(self).wf(),
            final(self)@ == old(self)@.closed_order(id, state, gaps_seen),
            *final(closing) == (Closing {
                native: (old(closing).native + if state matches RefreshState::Known { native, .. }
                    && native {
                    1int
                } else {
                    0int
                }) as u64,
                unavailable: (old(closing).unavailable + if state is Unavailable {
                    1int
                } else {
                    0int
                }) as u64,
            }),
    {
        match state {
            RefreshState::Known { native, reloads, hidden_volume } => {
                if (hidden_volume > 0) != (reloads > 0) {
                    self.inv_a = self.inv_a + 1;
                }
                if native {
                    closing.native = closing.native + 1;
                    let seen: bool = match self.find(id) {
                        Some(i) => reloads <= self.tracks[i].1.max_reloads,
                        None => false,
                    };
                    if reloads > 0 && !seen {
                        self.inv_a = self.inv_a + 1;
                    }
                }
            },
            RefreshState::Unavailable => {
                closing.unavailable = closing.unavailable + 1;
                if gaps_seen > 0 {
                    self.unavail.insert(id);
                }
            },
            RefreshState::NotResting => {},
        }
    }
}

/// Two counts with a stroke between them.
pub open spec fn pair_text(a: nat, b: nat) -> Seq<char> {
    decimal(a) + "/"@ + decimal(b)
}

fn push_pair(out: &mut String, a: u64, b: u64)
    ensures
        final(out)@ == old(out)@ + pair_text(a as nat, b as nat),
{
    push_decimal(out, a);
    out.append("/");
    push_decimal(out, b);
}

/// Holds the session's own aggregate against the census.
pub fn reconcile(
    census: &Census,
    section_count: u64,
    section_hidden: u64,
    live_count: u64,
    live_hidden: u64,
) -> (r: Result<(), String>)
    ensures
        r is Ok <==> section_count == census@.total && section_hidden == census@.hidden,
        r is Err ==> r->Err_0@ == "session aggregate vs place-path: section="@ + pair_text(
            section_count as nat,
            section_hidden as nat,
        ) + " census="@ + pair_text(census@.total, census@.hidden) + " live="@ + pair_text(
            live_count as nat,
            live_hidden as nat,
        ),
{
    if section_count != census.total || section_hidden != census.hidden {
        let mut out: String = "session aggregate vs place-path: section=".to_owned();
        push_pair(&mut out, section_count, section_hidden);
        out.append(" census=");
        push_pair(&mut out, census.total, census.hidden);
        out.append(" live=");
        push_pair(&mut out, live_count, live_hidden);
        return Err(out);
    }
    Ok(())
}

/// Whether a day's replay may go on: not once its budget is spent.
pub fn within_budget(spent_ns: u64, events: u64) -> (r: Result<(), String>)
    ensures
        r is Ok <==> spent_ns < APPLY_BUDGET_NS,
        r is Err ==> r->Err_0@ == "apply budget "@ + decimal(
            (APPLY_BUDGET_NS / 1_000_000_000) as nat,
        ) + "s after "@ + decimal(events as nat) + " events"@,
{
    if spent_ns >= APPLY_BUDGET_NS {
        let mut out: String = "apply budget ".to_owned();
        push_decimal(&mut out, APPLY_BUDGET_NS / 1_000_000_000);
        out.append("s after ");
        push_decimal(&mut out, events);
        out.append(" events");
        return Err(out);
    }
    Ok(())
}

/// What a day's run came to, as far as it is judged.
#[derive(Clone, Copy, Debug, PartialEq, Eq, Structural)]
pub struct Run {
    pub events: u64,
    pub eof: bool,
    pub section_count: u64,
    pub section_hidden: u64,
    pub book_gaps: u32,
    pub live_orders: u64,
}

/// How a day is judged, rule by rule.
#[derive(Clone, Copy, Debug, PartialEq, Eq, Structural)]
pub struct Checks {
    pub coverage: bool,
    pub hidden_implies_reload: bool,
    pub same_order: bool,
    pub zero_gap_unavailable: bool,
    pub aggregate: bool,
    pub gaps: bool,
    pub nonzero: bool,
}

/// How a day is judged: every event was applied; nothing contradicted; every refresh was of a
/// native order; nothing was unavailable without a gap; the session's aggregate and the count
/// of gaps agree; and a long day had at least one refresh.
pub open spec fn checks(c: CensusView, run: Run, expected: u64) -> Checks {
    Checks {
        coverage: run.events == expected && run.eof,
        hidden_implies_reload: c.inv_a == 0,
        same_order: c.sig_checked == c.sig_ok && (c.total == 0 || c.sig_checked > 0),
        zero_gap_unavailable: c.gaps > 0 || c.unavail.len() == 0,
        aggregate: run.section_count == c.total && run.section_hidden == c.hidden,
        gaps: c.gaps == run.book_gaps,
        nonzero: !(expected > 1_000_000 && c.total == 0),
    }
}

impl Checks {
    /// Whether every rule holds.
    pub open spec fn all(self) -> bool {
        self.coverage && self.hidden_implies_reload && self.same_order && self.zero_gap_unavailable
            && self.aggregate && self.gaps && self.nonzero
    }

    /// Whether every rule holds.
    pub fn pass(&self) -> (r: bool)
        ensures
            r == self.all(),
    {
        self.coverage && self.hidden_implies_reload && self.same_order && self.zero_gap_unavailable
            && self.aggregate && self.gaps && self.nonzero
    }
}

/// A truth value as it is written.
pub open spec fn bool_text(b: bool) -> Seq<char> {
    if b {
        "true"@
    } else {
        "false"@
    }
}

fn bool_name(b: bool) -> (r: &'static str)
    ensures
        r@ == bool_text(b),
{
    if b {
        "true"
    } else {
        "false"
    }
}

/// The note about the `i`th rule.
pub open spec fn note_text(c: CensusView, run: Run, expected: u64, i: int) -> Seq<char> {
    if i == 0 {
        "coverage FAIL: applied="@ + decimal(run.events as nat) + " expected="@ + decimal(
            expected as nat,
        ) + " eof="@ + bool_text(run.eof)
    } else if i == 1 {
        "check_a FAIL: "@ + decimal(c.inv_a) + " breaches"@
    } else if i == 2 {
        "check_b FAIL: ok="@ + decimal(c.sig_ok) + " checked="@ + decimal(c.sig_checked)
    } else if i == 3 {
        "check_c FAIL: gaps=0 unavail="@ + decimal(c.unavail.len())
    } else if i == 4 {
        "section agg mismatch: section="@ + pair_text(
            run.section_count as nat,
            run.section_hidden as nat,
        ) + " census="@ + pair_text(c.total, c.hidden)
    } else if i == 5 {
        "zero native refreshes on multi-million-event day"@
    } else {
        "gaps mismatch: census="@ + decimal(c.gaps as nat) + " book="@ + decimal(
            run.book_gaps as nat,
        )
    }
}

/// Whether the `i`th rule is broken.
pub open spec fn breaks(checks: Checks, i: int) -> bool {
    if i == 0 {
        !checks.coverage
    } else if i == 1 {
        !checks.hidden_implies_reload
    } else if i == 2 {
        !checks.same_order
    } else if i == 3 {
        !checks.zero_gap_unavailable
    } else if i == 4 {
        !checks.aggregate
    } else if i == 5 {
        !checks.nonzero
    } else {
        !checks.gaps
    }
}

/// The notes about the rules before the `k`th that are broken.
pub open spec fn notes(c: CensusView, run: Run, expected: u64, k: nat) -> Seq<Seq<char>>
    decreases k,
{
    if k == 0 {
        Seq::empty()
    } else if breaks(checks(c, run, expected), k - 1) {
        notes(c, run, expected, (k - 1) as nat).push(note_text(c, run, expected, k - 1))
    } else {
        notes(c, run, expected, (k - 1) as nat)
    }
}

/// What a day's evidence notes: the broken rules, or else what was counted over.
pub open spec fn evidence_notes(
    c: CensusView,
    run: Run,
    expected: u64,
    refresh_window_ns: u64,
) -> Seq<char> {
    let broken = notes(c, run, expected, 7);
    if broken.len() == 0 {
        "refresh_window_ns="@ + decimal(refresh_window_ns as nat)
            + "; book_apply only; live_orders_eod="@ + decimal(run.live_orders as nat)
    } else {
        crate::text::joined(broken, "; "@)
    }
}

/// The note about the `i`th rule.
fn note_about(census: &Census, run: &Run, expected: u64, i: usize) -> (r: String)
    requires
        i < 7,
    ensures
        r@ == note_text(census@, *run, expected, i as int),
{
    let mut out: String = String::new();
    if i == 0 {
        out.append("coverage FAIL: applied=");
        push_decimal(&mut out, run.events);
        out.append(" expected=");
        push_decimal(&mut out, expected);
        out.append(" eof=");
        out.append(bool_name(run.eof));
    } else if i == 1 {
        out.append("check_a FAIL: ");
        push_decimal(&mut out, census.inv_a);
        out.append(" breaches");
    } else if i == 2 {
        out.append("check_b FAIL: ok=");
        push_decimal(&mut out, census.sig_ok);
        out.append(" checked=");
        push_decimal(&mut out, census.sig_checked);
    } else if i == 3 {
        out.append("check_c FAIL: gaps=0 unavail=");
        push_decimal(&mut out, census.unavail.len() as u64);
    } else if i == 4 {
        out.append("section agg mismatch: section=");
        push_pair(&mut out, run.section_count, run.section_hidden);
        out.append(" census=");
        push_pair(&mut out, census.total, census.hidden);
    } else if i == 5 {
        out.append("zero native refreshes on multi-million-event day");
    } else {
        out.append("gaps mismatch: census=");
        push_decimal(&mut out, census.gaps as u64);
        out.append(" book=");
        push_decimal(&mut out, run.book_gaps as u64);
    }
    out
}

/// Judges a day: the rules, and what its evidence notes.
pub fn judge(census: &Census, run: &Run, expected: u64, refresh_window_ns: u64) -> (r: (
    Checks,
    String,
))
    ensures
        r.0 == checks(census@, *run, expected),
        r.1@ == evidence_notes(census@, *run, expected, refresh_window_ns),
{
    let checks: Checks = Checks {
        coverage: run.events == expected && run.eof,
        hidden_implies_reload: census.inv_a == 0,
        same_order: census.sig_checked == census.sig_ok && (census.total == 0
            || census.sig_checked > 0),
        zero_gap_unavailable: census.gaps > 0 || census.unavail.len() == 0,
        aggregate: run.section_count == census.total && run.section_hidden == census.hidden,
        gaps: census.gaps == run.book_gaps,
        nonzero: !(expected > 1_000_000 && census.total == 0),
    };
    let mut list: Vec<String> = Vec::new();
    let mut i: usize = 0;
    assert(crate::text::texts_of(list@) =~= Seq::<Seq<char>>::empty());
    while i < 7
        invariant
            i <= 7,
            checks == self::checks(census@, *run, expected),
            crate::text::texts_of(list@) == notes(census@, *run, expected, i as nat),
        decreases 7 - i,
    {
        let broken: bool = if i == 0 {
            !checks.coverage
        } else if i == 1 {
            !checks.hidden_implies_reload
        } else if i == 2 {
            !checks.same_order
        } else if i == 3 {
            !checks.zero_gap_unavailable
        } else if i == 4 {
            !checks.aggregate
        } else if i == 5 {
            !checks.nonzero
        } else {
            !checks.gaps
        };
        if broken {
            let ghost before = crate::text::texts_of(list@);
            let note: String = note_about(census, run, expected, i);
            list.push(note);
            assert(crate::text::texts_of(list@) =~= before.push(note@));
        }
        i += 1;
    }
    assert(list.len() == crate::text::texts_of(list@).len());
    let text: String = if list.len() == 0 {
        let mut out: String = "refresh_window_ns=".to_owned();
        push_decimal(&mut out, refresh_window_ns);
        out.append("; book_apply only; live_orders_eod=");
        push_decimal(&mut out, run.live_orders);
        out
    } else {
        crate::text::join(&list, "; ")
    };
    (checks, text)
}

/// A day passes exactly when there is nothing to note against it.
pub proof fn law_pass_without_notes(c: CensusView, run: Run, expected: u64)
    ensures
        checks(c, run, expected).all() <==> notes(c, run, expected, 7).len() == 0,
{
    reveal_with_fuel(notes, 8);
}

/// An order that is seen with more reloads than before adds what is more of them, and of its hidden
/// volume; with fewer, or with another volume, it is a new life and adds all it has; seen as it was,
/// it adds nothing. Every sight of reloads is checked for its origin, and no other order changes.
pub proof fn law_refreshes_counted(
    census: &mut Census,
    id: u64,
    native: bool,
    reloads: u32,
    volume: u64,
    gaps_seen: u32,
)
    requires
        old(census).wf(),
        reloads > 0,
        call_ensures(
            Census::note,
            (
                census,
                id,
                RefreshState::Known { native, reloads, hidden_volume: volume },
                gaps_seen,
            ),
            (),
        ),
    ensures
        ({
            let a = old(census)@;
            let b = final(census)@;
            let known = a.tracks.dom().contains(id);
            let had = if known {
                a.tracks[id].reloads
            } else {
                0
            };
            let held = if known {
                a.tracks[id].hidden
            } else {
                0
            };
            let most = if known {
                a.tracks[id].max_reloads
            } else {
                0
            };
            &&& reloads > had ==> b.total == a.total + reloads - had
            &&& reloads > had && volume >= held ==> b.hidden == a.hidden + volume - held
            &&& reloads > had && volume < held ==> b.hidden == a.hidden + volume
            &&& reloads == had && volume == held ==> b.total == a.total && b.hidden == a.hidden
            &&& reloads < had || reloads == had && volume != held ==> b.total == a.total + reloads
                && b.hidden == a.hidden + volume
            &&& b.inv_a == a.inv_a + (if volume == 0 {
                1int
            } else {
                0
            }) + (if reloads > had && volume < held {
                1int
            } else {
                0
            })
            &&& b.sig_checked == a.sig_checked + 1
            &&& native ==> b.sig_ok == a.sig_ok + 1
            &&& !native ==> b.sig_ok == a.sig_ok
            &&& b.tracks.dom() == a.tracks.dom().insert(id)
            &&& b.tracks[id].reloads == reloads && b.tracks[id].hidden == volume
            &&& b.tracks[id].max_reloads >= reloads && b.tracks[id].max_reloads >= most
            &&& b.tracks[id].max_reloads == reloads || b.tracks[id].max_reloads == most
            &&& b.max_reloads >= reloads && b.max_reloads >= a.max_reloads
            &&& forall|other: u64|
                other != id && a.tracks.dom().contains(other) ==> #[trigger] b.tracks[other]
                    == a.tracks[other]
            &&& b.unavail == a.unavail && b.gaps == a.gaps
        }),
{
}

/// Reloads that are seen in two steps add what they add when they are seen at once.
pub proof fn law_steps_add_up(
    first: &mut Census,
    second: &mut Census,
    once: &mut Census,
    id: u64,
    native: bool,
    reloads: u32,
    volume: u64,
    more: u32,
    more_volume: u64,
    gaps_seen: u32,
)
    requires
        old(first).wf(),
        old(once).wf(),
        old(first)@ == old(once)@,
        *old(second) == *final(first),
        !old(first)@.tracks.dom().contains(id),
        0 < reloads < more,
        0 < volume <= more_volume,
        call_ensures(
            Census::note,
            (
                first,
                id,
                RefreshState::Known { native, reloads, hidden_volume: volume },
                gaps_seen,
            ),
            (),
        ),
        call_ensures(
            Census::note,
            (
                second,
                id,
                RefreshState::Known { native, reloads: more, hidden_volume: more_volume },
                gaps_seen,
            ),
            (),
        ),
        call_ensures(
            Census::note,
            (
                once,
                id,
                RefreshState::Known { native, reloads: more, hidden_volume: more_volume },
                gaps_seen,
            ),
            (),
        ),
    ensures
        final(second)@.total == final(once)@.total,
        final(second)@.hidden == final(once)@.hidden,
        final(second)@.inv_a == final(once)@.inv_a,
        final(second)@.max_reloads == final(once)@.max_reloads,
        final(second)@.tracks[id] == final(once)@.tracks[id],
        final(once)@.total == old(once)@.total + more,
        final(once)@.hidden == old(once)@.hidden + more_volume,
{
}

/// An order that is gone, or is seen without reloads, ended its life: the most reloads of any life
/// stay, nothing is counted, and hidden volume without reloads is a breach.
pub proof fn law_end_of_a_life(
    gone: &mut Census,
    bare: &mut Census,
    id: u64,
    native: bool,
    volume: u64,
    gaps_seen: u32,
)
    requires
        old(gone).wf(),
        old(bare).wf(),
        call_ensures(Census::note, (gone, id, RefreshState::NotResting, gaps_seen), ()),
        call_ensures(
            Census::note,
            (
                bare,
                id,
                RefreshState::Known { native, reloads: 0, hidden_volume: volume },
                gaps_seen,
            ),
            (),
        ),
    ensures
        final(gone)@.total == old(gone)@.total && final(gone)@.hidden == old(gone)@.hidden,
        final(gone)@.inv_a == old(gone)@.inv_a,
        final(gone)@.sig_checked == old(gone)@.sig_checked,
        final(gone)@.tracks.dom() == old(gone)@.tracks.dom(),
        old(gone)@.tracks.dom().contains(id) ==> final(gone)@.tracks[id].reloads == 0
            && final(gone)@.tracks[id].hidden == 0 && final(gone)@.tracks[id].max_reloads == old(
            gone,
        )@.tracks[id].max_reloads,
        final(bare)@.total == old(bare)@.total && final(bare)@.hidden == old(bare)@.hidden,
        final(bare)@.sig_checked == old(bare)@.sig_checked,
        volume > 0 ==> final(bare)@.inv_a == old(bare)@.inv_a + 1,
        volume == 0 ==> final(bare)@.inv_a == old(bare)@.inv_a,
        old(bare)@.tracks.dom().contains(id) ==> final(bare)@.tracks[id].reloads == 0
            && final(bare)@.tracks[id].hidden == 0 && final(bare)@.tracks[id].max_reloads == old(
            bare,
        )@.tracks[id].max_reloads,
{
    if old(gone)@.tracks.dom().contains(id) {
        assert(final(gone)@.tracks.dom() =~= old(gone)@.tracks.dom());
    }
}

/// An order whose refreshes are unavailable is listed only behind a gap, and nothing else changes.
pub proof fn law_unavailable_behind_a_gap(census: &mut Census, id: u64, gaps_seen: u32)
    requires
        old(census).wf(),
        call_ensures(Census::note, (census, id, RefreshState::Unavailable, gaps_seen), ()),
    ensures
        gaps_seen > 0 ==> final(census)@.unavail == old(census)@.unavail.insert(id),
        gaps_seen == 0 ==> final(census)@.unavail == old(census)@.unavail,
        final(census)@.total == old(census)@.total,
        final(census)@.hidden == old(census)@.hidden,
        final(census)@.inv_a == old(census)@.inv_a,
        final(census)@.tracks == old(census)@.tracks,
{
}

/// Only what changes an order is looked at: trades, snapshots and events of no order tell the census
/// nothing; a gap takes over the book's count; a clear of the book ends every life.
pub proof fn law_events_that_count(
    census: &mut Census,
    kind: EventKind,
    snapshot: bool,
    id: u64,
    state: RefreshState,
    gaps_seen: u32,
)
    requires
        old(census).wf(),
        call_ensures(Census::on_event, (census, kind, snapshot, id, state, gaps_seen), ()),
    ensures
        kind == EventKind::Trade ==> final(census)@ == old(census)@,
        kind != EventKind::Gap && snapshot ==> final(census)@ == old(census)@,
        (kind == EventKind::Add || kind == EventKind::Modify || kind == EventKind::Cancel) && id
            == 0 ==> final(census)@ == old(census)@,
        kind == EventKind::Gap ==> final(census)@.gaps == gaps_seen && final(census)@.total == old(
            census,
        )@.total && final(census)@.tracks == old(census)@.tracks,
        kind != EventKind::Gap ==> final(census)@.gaps == old(census)@.gaps,
        kind == EventKind::Clear && !snapshot ==> {
            &&& final(census)@.total == old(census)@.total
            &&& final(census)@.inv_a == old(census)@.inv_a
            &&& final(census)@.tracks.dom() == old(census)@.tracks.dom()
            &&& forall|order: u64| #[trigger]
                old(census)@.tracks.dom().contains(order) ==> final(census)@.tracks[order].reloads
                    == 0 && final(census)@.tracks[order].hidden == 0
                    && final(census)@.tracks[order].max_reloads == old(
                    census,
                )@.tracks[order].max_reloads
        },
{
}

/// An event that changes an order says of the census what a note of the order's state says.
pub proof fn law_order_events_are_notes(
    event: &mut Census,
    note: &mut Census,
    kind: EventKind,
    id: u64,
    state: RefreshState,
    gaps_seen: u32,
)
    requires
        old(event)@ == old(note)@,
        kind == EventKind::Add || kind == EventKind::Modify || kind == EventKind::Cancel,
        id != 0,
        call_ensures(Census::on_event, (event, kind, false, id, state, gaps_seen), ()),
        call_ensures(Census::note, (note, id, state, gaps_seen), ()),
    ensures
        final(event)@ == final(note)@,
{
}

/// The histogram counts the orders by the most reloads of any of their lives.
pub proof fn law_histogram_classes(census: &Census, r: Histogram)
    requires
        census.wf(),
        call_ensures(Census::hist, (census,), r),
    ensures
        ({
            let t = census@.tracks;
            &&& r.distinct == t.dom().filter(|id: u64| t[id].max_reloads >= 1).len()
            &&& r.one == t.dom().filter(|id: u64| t[id].max_reloads == 1).len()
            &&& r.two_to_four == t.dom().filter(|id: u64| 2 <= t[id].max_reloads <= 4).len()
            &&& r.five_to_nine == t.dom().filter(|id: u64| 5 <= t[id].max_reloads <= 9).len()
            &&& r.ten_or_more == t.dom().filter(|id: u64| t[id].max_reloads >= 10).len()
            &&& r.one + r.two_to_four + r.five_to_nine + r.ten_or_more == r.distinct
        }),
{
    let t = census@.tracks;
    law_histogram_adds_up(*census);
    assert(in_class(t, 1, u32::MAX) =~= t.dom().filter(|id: u64| t[id].max_reloads >= 1));
    assert(in_class(t, 1, 1) =~= t.dom().filter(|id: u64| t[id].max_reloads == 1));
    assert(in_class(t, 2, 4) =~= t.dom().filter(|id: u64| 2 <= t[id].max_reloads <= 4));
    assert(in_class(t, 5, 9) =~= t.dom().filter(|id: u64| 5 <= t[id].max_reloads <= 9));
    assert(in_class(t, 10, u32::MAX) =~= t.dom().filter(|id: u64| t[id].max_reloads >= 10));
}

/// The end of the day takes over the book's count of gaps, and finds a breach in each order that
/// has hidden volume without reloads or reloads without hidden volume.
pub proof fn law_end_of_the_day(census: &mut Census, gaps_seen: u32)
    requires
        old(census).wf(),
        call_ensures(Census::close, (census, gaps_seen), ()),
    ensures
        final(census)@.gaps == gaps_seen,
        ({
            let t = old(census)@.tracks;
            final(census)@.inv_a == old(census)@.inv_a + t.dom().filter(
                |id: u64|
                    t[id].hidden > 0 && t[id].reloads == 0 || t[id].hidden == 0 && t[id].reloads
                        > 0,
            ).len()
        }),
        final(census)@.total == old(census)@.total,
        final(census)@.hidden == old(census)@.hidden,
        final(census)@.tracks == old(census)@.tracks,
{
    let t = old(census)@.tracks;
    assert(contradictory(t) =~= t.dom().filter(
        |id: u64|
            t[id].hidden > 0 && t[id].reloads == 0 || t[id].hidden == 0 && t[id].reloads > 0,
    ));
}

/// At the end of the day a level with more reloads or more hidden volume than the session is a
/// breach; so is an order whose volume and reloads contradict each other, and a native one with
/// more reloads than were seen of it.
pub proof fn law_closing_breaches(
    level: &mut Census,
    order: &mut Census,
    closing: &mut Closing,
    count: u32,
    hidden: u64,
    session_count: u64,
    session_hidden: u64,
    id: u64,
    native: bool,
    reloads: u32,
    volume: u64,
    gaps_seen: u32,
)
    requires
        old(level).wf(),
        old(order).wf(),
        old(closing).native < u64::MAX,
        call_ensures(
            Census::close_level,
            (level, count, hidden, session_count, session_hidden),
            (),
        ),
        call_ensures(
            Census::close_order,
            (
                order,
                id,
                RefreshState::Known { native, reloads, hidden_volume: volume },
                gaps_seen,
                closing,
            ),
            (),
        ),
    ensures
        count > session_count || hidden > session_hidden ==> final(level)@.inv_a == old(
            level,
        )@.inv_a + 1,
        count <= session_count && hidden <= session_hidden ==> final(level)@.inv_a == old(
            level,
        )@.inv_a,
        ({
            let t = old(order)@.tracks;
            let lone = (volume > 0 && reloads == 0) || (volume == 0 && reloads > 0);
            let beyond = native && reloads > 0 && (!t.dom().contains(id) || reloads
                > t[id].max_reloads);
            final(order)@.inv_a == old(order)@.inv_a + (if lone {
                1int
            } else {
                0
            }) + (if beyond {
                1int
            } else {
                0
            })
        }),
        native ==> final(closing).native == old(closing).native + 1,
        !native ==> final(closing).native == old(closing).native,
        final(closing).unavailable == old(closing).unavailable,
        final(order)@.total == old(order)@.total && final(order)@.hidden == old(order)@.hidden,
{
}

/// The session's aggregate agrees with the census exactly where both counts do.
pub proof fn law_reconciled(
    census: &Census,
    section_count: u64,
    section_hidden: u64,
    live_count: u64,
    live_hidden: u64,
    total: u64,
    hidden: u64,
    r: Result<(), String>,
)
    requires
        call_ensures(Census::total, (census,), total),
        call_ensures(Census::hidden, (census,), hidden),
        call_ensures(
            reconcile,
            (census, section_count, section_hidden, live_count, live_hidden),
            r,
        ),
    ensures
        r is Ok <==> section_count == total && section_hidden == hidden,
{
}

/// A day passes when every event was applied up to the end, no breach was found, every refresh that
/// was checked is native, nothing is unavailable without a gap, the session's aggregate and the
/// gaps agree, and a day of more than a million events had a refresh.
pub proof fn law_day_passes(
    census: &Census,
    run: &Run,
    expected: u64,
    window_ns: u64,
    judged: (Checks, String),
    r: bool,
)
    requires
        call_ensures(judge, (census, run, expected, window_ns), judged),
        call_ensures(Checks::pass, (&judged.0,), r),
    ensures
        judged.0.coverage <==> run.events == expected && run.eof,
        judged.0.hidden_implies_reload <==> census@.inv_a == 0,
        judged.0.same_order <==> census@.sig_ok == census@.sig_checked && (census@.total > 0
            ==> census@.sig_checked > 0),
        judged.0.zero_gap_unavailable <==> (census@.gaps == 0 ==> census@.unavail.len() == 0),
        judged.0.aggregate <==> census@.total == run.section_count && census@.hidden
            == run.section_hidden,
        judged.0.gaps <==> run.book_gaps == census@.gaps,
        judged.0.nonzero <==> (census@.total == 0 ==> expected <= 1_000_000),
        r <==> {
            &&& judged.0.coverage
            &&& judged.0.hidden_implies_reload
            &&& judged.0.same_order
            &&& judged.0.zero_gap_unavailable
            &&& judged.0.aggregate
            &&& judged.0.gaps
            &&& judged.0.nonzero
        },
        r ==> judged.1@ == "refresh_window_ns="@ + decimal(window_ns as nat)
            + "; book_apply only; live_orders_eod="@ + decimal(run.live_orders as nat),
{
    law_pass_without_notes(census@, *run, expected);
}

/// A day's replay goes on for one hour.
pub proof fn law_hour_of_replay(spent_ns: u64, events: u64, r: Result<(), String>)
    requires
        call_ensures(within_budget, (spent_ns, events), r),
    ensures
        r is Ok <==> spent_ns < 3_600 * 1_000_000_000,
        r is Err ==> r->Err_0@ == "apply budget 3600s after "@ + decimal(events as nat)
            + " events"@,
{
    reveal_with_fuel(decimal, 5);
    reveal_strlit("apply budget ");
    reveal_strlit("s after ");
    reveal_strlit("apply budget 3600s after ");
    assert(decimal(3600) =~= seq!['3', '6', '0', '0']);
    assert("apply budget "@ + decimal(3600) + "s after "@ =~= "apply budget 3600s after "@);
}

/// A day that breaks one rule notes that one, with the counts that broke it; one that breaks two
/// notes both, in the order of the rules.
#[verifier::rlimit(40)]
pub proof fn law_notes_of_a_day(
    census: &Census,
    run: &Run,
    expected: u64,
    window_ns: u64,
    judged: (Checks, String),
)
    requires
        call_ensures(judge, (census, run, expected, window_ns), judged),
    ensures
        ({
            let c = judged.0;
            let coverage = "coverage FAIL: applied="@ + decimal(run.events as nat) + " expected="@
                + decimal(expected as nat) + " eof="@ + (if run.eof {
                "true"@
            } else {
                "false"@
            });
            let gaps = "gaps mismatch: census="@ + decimal(census@.gaps as nat) + " book="@ + decimal(
                run.book_gaps as nat,
            );
            let inner = c.hidden_implies_reload && c.same_order && c.zero_gap_unavailable
                && c.aggregate && c.nonzero;
            &&& inner && !c.coverage && c.gaps ==> judged.1@ == coverage
            &&& inner && c.coverage && !c.gaps ==> judged.1@ == gaps
            &&& inner && !c.coverage && !c.gaps ==> judged.1@ == coverage + "; "@ + gaps
            &&& !c.hidden_implies_reload && c.coverage && c.same_order && c.zero_gap_unavailable
                && c.aggregate && c.nonzero && c.gaps ==> judged.1@ == "check_a FAIL: "@ + decimal(
                census@.inv_a,
            ) + " breaches"@
            &&& !c.same_order && c.coverage && c.hidden_implies_reload && c.zero_gap_unavailable
                && c.aggregate && c.nonzero && c.gaps ==> judged.1@ == "check_b FAIL: ok="@
                + decimal(census@.sig_ok) + " checked="@ + decimal(census@.sig_checked)
            &&& !c.zero_gap_unavailable && c.coverage && c.hidden_implies_reload && c.same_order
                && c.aggregate && c.nonzero && c.gaps ==> judged.1@
                == "check_c FAIL: gaps=0 unavail="@ + decimal(census@.unavail.len())
            &&& !c.aggregate && c.coverage && c.hidden_implies_reload && c.same_order
                && c.zero_gap_unavailable && c.nonzero && c.gaps ==> judged.1@
                == "section agg mismatch: section="@ + (decimal(run.section_count as nat) + "/"@
                + decimal(run.section_hidden as nat)) + " census="@ + (decimal(census@.total) + "/"@
                + decimal(census@.hidden))
            &&& !c.nonzero && c.coverage && c.hidden_implies_reload && c.same_order
                && c.zero_gap_unavailable && c.aggregate && c.gaps ==> judged.1@
                == "zero native refreshes on multi-million-event day"@
        }),
{
    let all = notes(census@, *run, expected, 7);
    reveal_with_fuel(notes, 8);
    reveal_with_fuel(crate::text::joined, 3);
    if all.len() == 1 {
        assert(all =~= seq![all[0]]);
        assert(crate::text::joined(all, "; "@) =~= all[0]);
    }
    if all.len() == 2 {
        assert(all =~= seq![all[0], all[1]]);
        assert(crate::text::joined(all, "; "@) =~= all[0] + "; "@ + all[1]);
    }
}

} // verus!
