//! Recording of per-turn actions and their playback.

use vstd::prelude::*;
use vstd::set_lib::{lemma_int_range, lemma_len_subset, set_int_range};
use crate::actions::Action;
use crate::units::Team;
use crate::victory::GameOutcome;

verus! {

/// One recorded decision: the unit's replay id, its team and its action.
#[derive(Clone, Copy, Debug, PartialEq, Eq, Structural)]
pub struct ReplayAction {
    pub entity_id: u32,
    pub team: Team,
    pub action: Action,
}

/// The decisions of one turn.
#[derive(Clone, Debug)]
pub struct ReplayFrame {
    pub turn: u32,
    pub actions: Vec<ReplayAction>,
    pub rng_seed: u64,
}

impl View for ReplayFrame {
    type V = (u32, Seq<ReplayAction>, u64);

    open spec fn view(&self) -> (u32, Seq<ReplayAction>, u64) {
        (self.turn, self.actions@, self.rng_seed)
    }
}

/// The map a replay was recorded on.
#[derive(Clone, Copy, Debug, PartialEq, Eq, Structural)]
pub struct ReplayMapConfig {
    pub width: i32,
    pub height: i32,
    pub units_per_team: usize,
}

/// A whole recorded game.
#[derive(Debug)]
pub struct ReplayFile {
    pub initial_seed: u64,
    pub map_config: ReplayMapConfig,
    pub frames: Vec<ReplayFrame>,
    pub final_outcome: Option<GameOutcome>,
}

/// The views of a sequence of frames.
pub open spec fn frames_view(frames: Seq<ReplayFrame>) -> Seq<(u32, Seq<ReplayAction>, u64)> {
    frames.map_values(|f: ReplayFrame| f@)
}

/// A recorder's state: finished frames, the actions of the turn under way,
/// and the handles seen so far, each handle's replay id being its index.
pub type RecorderView = (Seq<(u32, Seq<ReplayAction>, u64)>, Seq<ReplayAction>, Seq<u32>);

/// The index of `e` in `table`.
pub open spec fn index_in(table: Seq<u32>, e: u32) -> int {
    choose|i: int| 0 <= i < table.len() && table[i] == e
}

/// The table after looking up `e`, and the replay id of `e`: its index if
/// seen before, else the next index.
pub open spec fn assign_id(table: Seq<u32>, e: u32) -> (Seq<u32>, int) {
    if table.contains(e) {
        (table, index_in(table, e))
    } else {
        (table.push(e), table.len() as int)
    }
}

/// The recorder state after recording that handle `e` of `team` does `action`.
pub open spec fn spec_record(v: RecorderView, e: u32, team: Team, action: Action) -> RecorderView {
    let (table, id) = assign_id(v.2, e);
    (v.0, v.1.push(ReplayAction { entity_id: id as u32, team, action }), table)
}

/// The recorder state after closing turn `turn`: a turn with no action
/// leaves no frame.
pub open spec fn spec_end_turn(v: RecorderView, turn: u32, seed: u64) -> RecorderView {
    if v.1.len() == 0 {
        v
    } else {
        (v.0.push((turn, v.1, seed)), Seq::empty(), v.2)
    }
}

proof fn lemma_distinct_u32_len(table: Seq<u32>)
    requires
        table.no_duplicates(),
    ensures
        table.len() <= 0x1_0000_0000,
{
    let t = table.map_values(|v: u32| v as int);
    assert forall|i: int, j: int| 0 <= i < t.len() && 0 <= j < t.len() && i != j implies t[i]
        != t[j] by {
        assert(table[i] != table[j]);
    }
    assert(t.no_duplicates());
    t.unique_seq_to_set();
    lemma_int_range(0, 0x1_0000_0000);
    assert(t.to_set().subset_of(set_int_range(0, 0x1_0000_0000)));
    lemma_len_subset(t.to_set(), set_int_range(0, 0x1_0000_0000));
}

proof fn lemma_push_distinct(table: Seq<u32>, e: u32)
    requires
        table.no_duplicates(),
        !table.contains(e),
    ensures
        table.push(e).no_duplicates(),
{
    let t = table.push(e);
    assert forall|a: int, b: int| 0 <= a < t.len() && 0 <= b < t.len() && a != b implies t[a]
        != t[b] by {
        if a < table.len() && b < table.len() {
            assert(t[a] == table[a] && t[b] == table[b]);
        } else if a < table.len() {
            assert(t[a] == table[a]);
            assert(table.contains(table[a]));
        } else {
            assert(t[b] == table[b]);
            assert(table.contains(table[b]));
        }
    }
}

/// Collects the decisions of each turn into frames.
pub struct ReplayRecorder {
    initial_seed: u64,
    frames: Vec<ReplayFrame>,
    current_frame: Vec<ReplayAction>,
    recording: bool,
    entity_ids: Vec<u32>,
}

impl ReplayRecorder {
    /// The recorder's state.
    pub closed spec fn view_state(&self) -> RecorderView {
        (frames_view(self.frames@), self.current_frame@, self.entity_ids@)
    }

    /// The seed the recorded game started from.
    pub closed spec fn seed(&self) -> u64 {
        self.initial_seed
    }

    /// Handles are listed once each, and recording is on.
    pub closed spec fn wf(&self) -> bool {
        self.entity_ids@.no_duplicates() && self.recording
    }

    /// An empty recorder for a game started from `seed`.
    pub fn new(seed: u64) -> (r: ReplayRecorder)
        ensures
            r.wf(),
            r.seed() == seed,
            r.view_state() == (
                Seq::<(u32, Seq<ReplayAction>, u64)>::empty(),
                Seq::<ReplayAction>::empty(),
                Seq::<u32>::empty(),
            ),
    {
        let r = ReplayRecorder {
            initial_seed: seed,
            frames: Vec::new(),
            current_frame: Vec::new(),
            recording: true,
            entity_ids: Vec::new(),
        };
        assert(frames_view(r.frames@) =~= Seq::empty());
        r
    }

    /// The replay id of handle `entity`: the one it was given before, or
    /// else the next free one, in order of first appearance from 0.
    pub fn get_or_assign_id(&mut self, entity: u32) -> (id: u32)
        requires
            old(self).wf(),
        ensures
            final(self).wf(),
            final(self).seed() == old(self).seed(),
            final(self).view_state() == (
                old(self).view_state().0,
                old(self).view_state().1,
                assign_id(old(self).view_state().2, entity).0,
            ),
            id as int == assign_id(old(self).view_state().2, entity).1,
    {
        proof {
            lemma_distinct_u32_len(self.entity_ids@);
        }
        let mut i: usize = 0;
        while i < self.entity_ids.len()
            invariant
                i <= self.entity_ids@.len(),
                self.entity_ids@.len() <= 0x1_0000_0000,
                forall|k: int| 0 <= k < i ==> self.entity_ids@[k] != entity,
                self.wf(),
                *self == *old(self),
            decreases self.entity_ids@.len() - i,
        {
            if self.entity_ids[i] == entity {
                assert(self.entity_ids@.contains(entity));
                let ghost j = index_in(self.entity_ids@, entity);
                assert(self.entity_ids@[j] == entity);
                assert(j == i);
                return i as u32;
            }
            i = i + 1;
        }
        let ghost before = self.entity_ids@;
        assert(!before.contains(entity));
        proof {
            lemma_push_distinct(before, entity);
            lemma_distinct_u32_len(before.push(entity));
        }
        let id = self.entity_ids.len() as u32;
        self.entity_ids.push(entity);
        id
    }

    /// Records that handle `entity` of `team` takes `action` this turn.
    pub fn record_action(&mut self, entity: u32, team: Team, action: Action)
        requires
            old(self).wf(),
        ensures
            final(self).wf(),
            final(self).seed() == old(self).seed(),
            final(self).view_state() == spec_record(old(self).view_state(), entity, team, action),
    {
        if !self.recording {
            return;
        }
        let entity_id = self.get_or_assign_id(entity);
        self.current_frame.push(ReplayAction { entity_id, team, action });
    }

    /// Closes turn `turn`: the actions recorded since the last close become
    /// a frame; a turn without actions leaves none.
    pub fn end_turn(&mut self, turn: u32, rng_seed: u64)
        requires
            old(self).wf(),
        ensures
            final(self).wf(),
            final(self).seed() == old(self).seed(),
            final(self).view_state() == spec_end_turn(old(self).view_state(), turn, rng_seed),
    {
        if !self.recording || self.current_frame.len() == 0 {
            return;
        }
        let mut actions: Vec<ReplayAction> = Vec::new();
        std::mem::swap(&mut actions, &mut self.current_frame);
        let ghost before = self.frames@;
        let f = ReplayFrame { turn, actions, rng_seed };
        self.frames.push(f);
        assert(frames_view(self.frames@) =~= frames_view(before).push(f@));
        assert(self.current_frame@ =~= Seq::<ReplayAction>::empty());
    }

    /// The replay file of what was recorded, on map `map_config`, with the
    /// outcome `outcome`.
    pub fn replay_file(&self, map_config: ReplayMapConfig, outcome: Option<GameOutcome>) -> (f:
        ReplayFile)
        ensures
            f.initial_seed == self.seed(),
            f.map_config == map_config,
            f.final_outcome == outcome,
            frames_view(f.frames@) == self.view_state().0,
    {
        let mut frames: Vec<ReplayFrame> = Vec::new();
        let mut i: usize = 0;
        while i < self.frames.len()
            invariant
                i <= self.frames@.len(),
                frames_view(frames@) == frames_view(self.frames@.take(i as int)),
            decreases self.frames@.len() - i,
        {
            let f = copy_frame(&self.frames[i]);
            let ghost prev = frames@;
            frames.push(f);
            assert(self.frames@.take(i + 1) == self.frames@.take(i as int).push(self.frames@[i as int]));
            assert(frames@ == prev.push(f));
            assert(frames_view(frames@) =~= frames_view(prev).push(f@));
            assert(frames_view(self.frames@.take(i + 1)) =~= frames_view(self.frames@.take(i as int)).push(
                self.frames@[i as int]@,
            ));
            i = i + 1;
        }
        assert(self.frames@.take(self.frames@.len() as int) == self.frames@);
        ReplayFile {
            initial_seed: self.initial_seed,
            map_config,
            frames,
            final_outcome: outcome,
        }
    }
}

/// A copy of `f`.
pub fn copy_frame(f: &ReplayFrame) -> (c: ReplayFrame)
    ensures
        c@ == f@,
{
    let mut actions: Vec<ReplayAction> = Vec::new();
    let mut i: usize = 0;
    while i < f.actions.len()
        invariant
            i <= f.actions@.len(),
            actions@ == f.actions@.take(i as int),
        decreases f.actions@.len() - i,
    {
        actions.push(f.actions[i]);
        assert(f.actions@.take(i + 1) == f.actions@.take(i as int).push(f.actions@[i as int]));
        i = i + 1;
    }
    assert(f.actions@.take(f.actions@.len() as int) == f.actions@);
    ReplayFrame { turn: f.turn, actions, rng_seed: f.rng_seed }
}

/// What one step of a player does at `pos` over `frames`: the frame there
/// and the next position, or nothing and the same position at the end.
pub open spec fn spec_next_frame(frames: Seq<(u32, Seq<ReplayAction>, u64)>, pos: int) -> (Option<
    (u32, Seq<ReplayAction>, u64),
>, int) {
    if 0 <= pos < frames.len() {
        (Some(frames[pos]), pos + 1)
    } else {
        (None, pos)
    }
}

/// The view of an optional frame.
pub open spec fn frame_opt_view(f: Option<ReplayFrame>) -> Option<(u32, Seq<ReplayAction>, u64)> {
    match f {
        Some(fr) => Some(fr@),
        None => None,
    }
}

/// The results of `k` steps of a player started at the first frame of
/// `frames`, and its position afterwards.
pub open spec fn playback(frames: Seq<(u32, Seq<ReplayAction>, u64)>, k: nat) -> (Seq<
    Option<(u32, Seq<ReplayAction>, u64)>,
>, int)
    decreases k,
{
    if k == 0 {
        (Seq::empty(), 0)
    } else {
        let prev = playback(frames, (k - 1) as nat);
        let step = spec_next_frame(frames, prev.1);
        (prev.0.push(step.0), step.1)
    }
}

/// Playing a replay back: from its first frame, `k` steps over `frames`
/// hand out the frames in order, one per step, then nothing, and the player
/// stops at the end.
pub proof fn lemma_playback_in_order(frames: Seq<(u32, Seq<ReplayAction>, u64)>, k: nat)
    ensures
        playback(frames, k).0.len() == k,
        playback(frames, k).1 == if k <= frames.len() {
            k as int
        } else {
            frames.len() as int
        },
        forall|i: int|
            0 <= i < k ==> #[trigger] playback(frames, k).0[i] == if i < frames.len() {
                Some(frames[i])
            } else {
                None
            },
    decreases k,
{
    if k > 0 {
        lemma_playback_in_order(frames, (k - 1) as nat);
        let prev = playback(frames, (k - 1) as nat);
        let cur = playback(frames, k);
        assert forall|i: int| 0 <= i < k implies #[trigger] cur.0[i] == if i < frames.len() {
            Some(frames[i])
        } else {
            None
        } by {
            if i < k - 1 {
                assert(cur.0[i] == prev.0[i]);
            }
        }
    }
}

/// Plays a replay file back frame by frame.
pub struct ReplayPlayer {
    replay: ReplayFile,
    current_frame_index: usize,
}

impl ReplayPlayer {
    /// The frames of the file being played.
    pub closed spec fn frames(&self) -> Seq<(u32, Seq<ReplayAction>, u64)> {
        frames_view(self.replay.frames@)
    }

    /// How many frames have been handed out since the start.
    pub closed spec fn position(&self) -> int {
        self.current_frame_index as int
    }

    /// A player at the start of `replay`.
    pub fn from_file(replay: ReplayFile) -> (p: ReplayPlayer)
        ensures
            p.frames() == frames_view(replay.frames@),
            p.position() == 0,
    {
        ReplayPlayer { replay, current_frame_index: 0 }
    }

    /// The next frame, if any is left; the player moves past it.
    pub fn get_next_frame(&mut self) -> (f: Option<ReplayFrame>)
        requires
            old(self).position() <= old(self).frames().len(),
        ensures
            final(self).frames() == old(self).frames(),
            final(self).position() <= final(self).frames().len(),
            old(self).position() < old(self).frames().len() ==> f is Some && f.unwrap()@ == old(
                self,
            ).frames()[old(self).position()] && final(self).position() == old(self).position() + 1,
            old(self).position() == old(self).frames().len() ==> f is None && final(self).position()
                == old(self).position(),
            (frame_opt_view(f), final(self).position()) == spec_next_frame(
                old(self).frames(),
                old(self).position(),
            ),
    {
        if self.current_frame_index < self.replay.frames.len() {
            let f = copy_frame(&self.replay.frames[self.current_frame_index]);
            self.current_frame_index = self.current_frame_index + 1;
            Some(f)
        } else {
            None
        }
    }

    /// Goes back to the first frame.
    pub fn reset(&mut self)
        ensures
            final(self).frames() == old(self).frames(),
            final(self).position() == 0,
    {
        self.current_frame_index = 0;
    }
}

/// The recorder state after recording the first `k` decisions of `acts`,
/// each `(handle, team, action)`.
pub open spec fn record_decisions(v: RecorderView, acts: Seq<(u32, Team, Action)>, k: nat) -> RecorderView
    decreases k,
{
    if k == 0 {
        v
    } else {
        let prev = record_decisions(v, acts, (k - 1) as nat);
        spec_record(prev, acts[k - 1].0, acts[k - 1].1, acts[k - 1].2)
    }
}

/// The recorder state after the first `n` turns of `turns`, each a turn
/// number and its decisions, every turn closed with seed 0.
pub open spec fn record_turns(
    v: RecorderView,
    turns: Seq<(u32, Seq<(u32, Team, Action)>)>,
    n: nat,
) -> RecorderView
    decreases n,
{
    if n == 0 {
        v
    } else {
        let prev = record_turns(v, turns, (n - 1) as nat);
        let t = turns[n - 1];
        spec_end_turn(record_decisions(prev, t.1, t.1.len()), t.0, 0)
    }
}

/// Recorded action `a` gives back decision `d` through the handle table.
pub open spec fn action_matches(a: ReplayAction, d: (u32, Team, Action), table: Seq<u32>) -> bool {
    &&& a.entity_id < table.len()
    &&& table[a.entity_id as int] == d.0
    &&& a.team == d.1
    &&& a.action == d.2
}

/// Frame `f` gives back the turn `t`, decision for decision.
pub open spec fn frame_matches(
    f: (u32, Seq<ReplayAction>, u64),
    t: (u32, Seq<(u32, Team, Action)>),
    table: Seq<u32>,
) -> bool {
    &&& f.0 == t.0
    &&& f.1.len() == t.1.len()
    &&& forall|i: int| 0 <= i < t.1.len() ==> action_matches(#[trigger] f.1[i], t.1[i], table)
}

/// `a` is a prefix of `b`.
pub open spec fn table_prefix(a: Seq<u32>, b: Seq<u32>) -> bool {
    a.len() <= b.len() && forall|i: int| 0 <= i < a.len() ==> #[trigger] b[i] == a[i]
}

proof fn lemma_record_decisions(v: RecorderView, acts: Seq<(u32, Team, Action)>, k: nat)
    requires
        k <= acts.len(),
        v.1.len() == 0,
        v.2.no_duplicates(),
    ensures
        record_decisions(v, acts, k).0 == v.0,
        record_decisions(v, acts, k).1.len() == k,
        record_decisions(v, acts, k).2.no_duplicates(),
        table_prefix(v.2, record_decisions(v, acts, k).2),
        forall|i: int|
            0 <= i < k ==> action_matches(
                #[trigger] record_decisions(v, acts, k).1[i],
                acts[i],
                record_decisions(v, acts, k).2,
            ),
    decreases k,
{
    if k > 0 {
        let prev = record_decisions(v, acts, (k - 1) as nat);
        lemma_record_decisions(v, acts, (k - 1) as nat);
        let e = acts[k - 1].0;
        let cur = record_decisions(v, acts, k);
        let (table, id) = assign_id(prev.2, e);
        if prev.2.contains(e) {
            let j = index_in(prev.2, e);
            assert(0 <= j < prev.2.len() && prev.2[j] == e);
            lemma_distinct_u32_len(prev.2);
        } else {
            lemma_push_distinct(prev.2, e);
            lemma_distinct_u32_len(prev.2.push(e));
        }
        assert(table_prefix(prev.2, cur.2));
        assert forall|i: int| 0 <= i < k implies action_matches(
            #[trigger] cur.1[i],
            acts[i],
            cur.2,
        ) by {
            if i < k - 1 {
                assert(cur.1[i] == prev.1[i]);
                assert(action_matches(prev.1[i], acts[i], prev.2));
                assert(cur.2[cur.1[i].entity_id as int] == prev.2[cur.1[i].entity_id as int]);
            } else {
                assert(cur.1[i] == ReplayAction {
                    entity_id: id as u32,
                    team: acts[k - 1].1,
                    action: acts[k - 1].2,
                });
                assert(0 <= id < table.len() && table[id] == e);
            }
        }
    }
}

/// Replay round trip: recording `turns`, each a turn number and its
/// non-empty list of `(handle, team, action)` decisions, into a fresh
/// recorder yields one frame per turn, in order, each giving back its turn
/// number and its decisions in order, the handle through the recorder's id
/// table.
pub proof fn lemma_replay_round_trip(v: RecorderView, turns: Seq<(u32, Seq<(u32, Team, Action)>)>)
    requires
        v.0.len() == 0,
        v.1.len() == 0,
        v.2.no_duplicates(),
        forall|k: int| 0 <= k < turns.len() ==> (#[trigger] turns[k]).1.len() > 0,
    ensures
        record_turns(v, turns, turns.len()).0.len() == turns.len(),
        forall|k: int|
            0 <= k < turns.len() ==> frame_matches(
                #[trigger] record_turns(v, turns, turns.len()).0[k],
                turns[k],
                record_turns(v, turns, turns.len()).2,
            ),
{
    lemma_record_turns(v, turns, turns.len());
}

proof fn lemma_record_turns(v: RecorderView, turns: Seq<(u32, Seq<(u32, Team, Action)>)>, n: nat)
    requires
        n <= turns.len(),
        v.0.len() == 0,
        v.1.len() == 0,
        v.2.no_duplicates(),
        forall|k: int| 0 <= k < turns.len() ==> (#[trigger] turns[k]).1.len() > 0,
    ensures
        record_turns(v, turns, n).0.len() == n,
        record_turns(v, turns, n).1.len() == 0,
        record_turns(v, turns, n).2.no_duplicates(),
        forall|k: int|
            0 <= k < n ==> frame_matches(
                #[trigger] record_turns(v, turns, n).0[k],
                turns[k],
                record_turns(v, turns, n).2,
            ),
    decreases n,
{
    if n > 0 {
        let prev = record_turns(v, turns, (n - 1) as nat);
        lemma_record_turns(v, turns, (n - 1) as nat);
        let t = turns[n - 1];
        assert(t.1.len() > 0);
        let mid = record_decisions(prev, t.1, t.1.len());
        lemma_record_decisions(prev, t.1, t.1.len());
        let cur = record_turns(v, turns, n);
        assert(cur == spec_end_turn(mid, t.0, 0));
        assert(cur.0 == prev.0.push((t.0, mid.1, 0u64)));
        assert forall|k: int| 0 <= k < n implies frame_matches(
            #[trigger] cur.0[k],
            turns[k],
            cur.2,
        ) by {
            if k < n - 1 {
                assert(cur.0[k] == prev.0[k]);
                assert(frame_matches(prev.0[k], turns[k], prev.2));
                assert forall|i: int| 0 <= i < turns[k].1.len() implies action_matches(
                    #[trigger] cur.0[k].1[i],
                    turns[k].1[i],
                    cur.2,
                ) by {
                    assert(action_matches(prev.0[k].1[i], turns[k].1[i], prev.2));
                    let id = cur.0[k].1[i].entity_id as int;
                    assert(cur.2[id] == prev.2[id]);
                }
            } else {
                assert(cur.0[k] == (t.0, mid.1, 0u64));
            }
        }
    }
}

} // verus!
