//! Tracking of supervised children and their termination sequence.
//!
//! Every child (actor or task) belongs to a group. Groups are terminated one
//! after another: the prioritized groups first, in the order given, then the
//! other groups in the order in which they appeared. A group is interrupted
//! only when every group before it in that sequence has finished.

use crate::id_map::{other_than, IdMap};
use crate::ids::Id;
use crate::lite_runtime::StopSender;
use vstd::prelude::*;

verus! {

/// The abstract state of one group of children.
pub struct StageView {
    /// The group of the stage.
    pub group: u64,
    /// The interruption signal was sent to the stage.
    pub terminating: bool,
    /// The children of the stage, in the order they were added.
    pub ids: Seq<Id>,
}

impl StageView {
    /// A stage is finished when it is terminating and has no children left.
    pub open spec fn is_finished(self) -> bool {
        self.terminating && self.ids.len() == 0
    }
}

/// The abstract state of a `LifetimeTracker`.
pub struct TrackerView {
    /// The termination of the owner has started.
    pub terminating: bool,
    /// The groups to terminate first, in that order.
    pub prioritized: Seq<u64>,
    /// The stages, in the order their groups first appeared.
    pub stages: Seq<StageView>,
    /// The group of each tracked child.
    pub records: Map<Id, u64>,
}

/// Is there a stage for `group`?
pub open spec fn has_stage(stages: Seq<StageView>, group: u64) -> bool {
    exists|i: int| 0 <= i < stages.len() && stages[i].group == group
}

/// The position of the stage of `group` (meaningful when `has_stage`).
pub open spec fn stage_index(stages: Seq<StageView>, group: u64) -> int {
    choose|i: int| 0 <= i < stages.len() && stages[i].group == group
}

/// The groups of the stages, in order.
pub open spec fn groups_of(stages: Seq<StageView>) -> Seq<u64> {
    stages.map_values(|s: StageView| s.group)
}

/// No two stages share a group.
pub open spec fn distinct_groups(stages: Seq<StageView>) -> bool {
    forall|i: int, j: int|
        0 <= i < stages.len() && 0 <= j < stages.len() && i != j ==> #[trigger] stages[i].group
            != #[trigger] stages[j].group
}

/// The order in which groups are terminated: the prioritized groups, then
/// the remaining groups in the order their stages were created.
pub open spec fn termination_order(v: TrackerView) -> Seq<u64> {
    v.prioritized + groups_of(v.stages).filter(|g: u64| !v.prioritized.contains(g))
}

/// Every stage is finished.
pub open spec fn all_finished(stages: Seq<StageView>) -> bool {
    forall|i: int| 0 <= i < stages.len() ==> #[trigger] stages[i].is_finished()
}

/// The children of a stage that still have a record (those that get notified).
pub open spec fn recorded(ids: Seq<Id>, records: Map<Id, u64>) -> Seq<Id> {
    ids.filter(|id: Id| records.contains_key(id))
}

/// The stage marked terminating.
pub open spec fn mark_terminating(s: StageView) -> StageView {
    StageView { group: s.group, terminating: true, ids: s.ids }
}

/// Walks the groups in `order`: each stage met that is not terminating yet is
/// marked terminating and its recorded children are notified; the walk goes on
/// past a stage only when that stage is finished. Returns the new stages and
/// the notified children, in order.
pub open spec fn termination_walk(
    stages: Seq<StageView>,
    order: Seq<u64>,
    records: Map<Id, u64>,
) -> (Seq<StageView>, Seq<Id>)
    decreases order.len(),
{
    if order.len() == 0 {
        (stages, Seq::empty())
    } else {
        let g = order[0];
        let rest = order.subrange(1, order.len() as int);
        if !has_stage(stages, g) {
            termination_walk(stages, rest, records)
        } else {
            let i = stage_index(stages, g);
            let st = stages[i];
            let notified = if st.terminating {
                Seq::<Id>::empty()
            } else {
                recorded(st.ids, records)
            };
            let stages2 = stages.update(i, mark_terminating(st));
            if st.ids.len() == 0 {
                let (s3, n3) = termination_walk(stages2, rest, records);
                (s3, notified + n3)
            } else {
                (stages2, notified)
            }
        }
    }
}

/// The stages after `id` left the stage of `group`.
pub open spec fn without_child(stages: Seq<StageView>, group: u64, id: Id) -> Seq<StageView> {
    if has_stage(stages, group) {
        let i = stage_index(stages, group);
        let st = stages[i];
        stages.update(
            i,
            StageView { group: st.group, terminating: st.terminating, ids: st.ids.filter(other_than(id)) },
        )
    } else {
        stages
    }
}

/// The stages after `id` joined the stage of `group` (created if missing).
pub open spec fn with_child(stages: Seq<StageView>, group: u64, id: Id) -> Seq<StageView> {
    if has_stage(stages, group) {
        let i = stage_index(stages, group);
        let st = stages[i];
        if st.ids.contains(id) {
            stages
        } else {
            stages.update(i, StageView { group: st.group, terminating: st.terminating, ids: st.ids.push(id) })
        }
    } else {
        stages.push(StageView { group, terminating: false, ids: seq![id] })
    }
}

/// The tracker after the termination is started (or moved on): it is marked
/// terminating and the termination order is walked. Also returns the children
/// to interrupt.
pub open spec fn started(v: TrackerView) -> (TrackerView, Seq<Id>) {
    let (s2, n) = termination_walk(v.stages, termination_order(v), v.records);
    (TrackerView { terminating: true, stages: s2, ..v }, n)
}

/// The tracker after only the stage of `group` is interrupted; also returns
/// the children to interrupt.
pub open spec fn group_interrupted(v: TrackerView, group: u64) -> (TrackerView, Seq<Id>) {
    let (s2, n) = termination_walk(v.stages, seq![group], v.records);
    (TrackerView { stages: s2, ..v }, n)
}

/// The tracker after the child `id` joined `group`.
pub open spec fn inserted(v: TrackerView, id: Id, group: u64) -> TrackerView {
    TrackerView { stages: with_child(v.stages, group, id), records: v.records.insert(id, group), ..v }
}

/// A child that joins `group` is interrupted at once: its stage is already
/// terminating.
pub open spec fn joins_terminating(v: TrackerView, group: u64) -> bool {
    has_stage(v.stages, group) && v.stages[stage_index(v.stages, group)].terminating
}

/// The tracker after the child `id` finished: its record and its place in its
/// stage are gone and, when the termination is in progress, the walk goes on.
/// Also returns the children to interrupt.
pub open spec fn removed(v: TrackerView, id: Id) -> (TrackerView, Seq<Id>) {
    let stages1 = if v.records.contains_key(id) {
        without_child(v.stages, v.records[id], id)
    } else {
        v.stages
    };
    let v1 = TrackerView { stages: stages1, records: v.records.remove(id), ..v };
    if v.terminating {
        let (s2, n) = termination_walk(stages1, termination_order(v1), v1.records);
        (TrackerView { stages: s2, ..v1 }, n)
    } else {
        (v1, Seq::empty())
    }
}

/// A walk over no groups changes nothing.
pub proof fn lemma_walk_empty(stages: Seq<StageView>, records: Map<Id, u64>)
    ensures
        termination_walk(stages, Seq::empty(), records) == (stages, Seq::<Id>::empty()),
{
}

/// With distinct groups, `stage_index` finds the only stage of the group.
pub proof fn lemma_stage_index(stages: Seq<StageView>, i: int)
    requires
        distinct_groups(stages),
        0 <= i < stages.len(),
    ensures
        has_stage(stages, stages[i].group),
        stage_index(stages, stages[i].group) == i,
{
    let g = stages[i].group;
    assert(stages[i].group == g);
    let j = stage_index(stages, g);
    assert(0 <= j < stages.len() && stages[j].group == g);
}

/// One group of children, with its termination flag.
struct Stage {
    group: u64,
    terminating: bool,
    ids: IdMap<()>,
}

impl Stage {
    closed spec fn view(&self) -> StageView {
        StageView { group: self.group, terminating: self.terminating, ids: self.ids.key_seq() }
    }

    fn is_finished(&self) -> (b: bool)
        requires
            self.ids.wf(),
        ensures
            b == self.view().is_finished(),
    {
        self.terminating && self.ids.len() == 0
    }
}

/// Tracks supervised children by group and drives their termination sequence.
pub struct LifetimeTracker {
    terminating: bool,
    prioritized: Vec<u64>,
    stages: Vec<Stage>,
    records: IdMap<u64>,
}

impl View for LifetimeTracker {
    type V = TrackerView;

    closed spec fn view(&self) -> TrackerView {
        TrackerView {
            terminating: self.terminating,
            prioritized: self.prioritized@,
            stages: self.stages@.map_values(|s: Stage| s.view()),
            records: self.records@,
        }
    }
}

impl LifetimeTracker {
    /// Well-formedness of the tracker.
    pub closed spec fn wf(&self) -> bool {
        &&& self.records.wf()
        &&& forall|i: int| 0 <= i < self.stages@.len() ==> (#[trigger] self.stages@[i]).ids.wf()
        &&& distinct_groups(self@.stages)
    }

    /// The stages of a well-formed tracker have distinct groups.
    pub proof fn lemma_distinct_groups(&self)
        requires
            self.wf(),
        ensures
            distinct_groups(self@.stages),
    {
    }

    /// Creates an empty tracker.
    pub fn new() -> (t: Self)
        ensures
            t.wf(),
            t@.terminating == false,
            t@.prioritized == Seq::<u64>::empty(),
            t@.stages == Seq::<StageView>::empty(),
            t@.records == Map::<Id, u64>::empty(),
    {
        let t = LifetimeTracker {
            terminating: false,
            prioritized: Vec::new(),
            stages: Vec::new(),
            records: IdMap::new(),
        };
        proof {
            assert(t@.stages =~= Seq::<StageView>::empty());
        }
        t
    }

    /// Has the termination started?
    pub fn is_terminating(&self) -> (b: bool)
        ensures
            b == self@.terminating,
    {
        self.terminating
    }

    /// Sets the groups that are terminated first, in that order.
    pub fn prioritize_termination_by(&mut self, groups: Vec<u64>)
        requires
            old(self).wf(),
        ensures
            final(self).wf(),
            final(self)@ == (TrackerView { prioritized: groups@, ..old(self)@ }),
    {
        self.prioritized = groups;
    }

    /// Are all stages finished (terminating and empty)?
    pub fn is_finished(&self) -> (b: bool)
        requires
            self.wf(),
        ensures
            b == all_finished(self@.stages),
    {
        let mut i: usize = 0;
        while i < self.stages.len()
            invariant
                self.wf(),
                i <= self.stages@.len(),
                forall|j: int| 0 <= j < i ==> (#[trigger] self@.stages[j]).is_finished(),
            decreases self.stages@.len() - i,
        {
            assert(self.stages@[i as int].ids.wf());
            if !self.stages[i].is_finished() {
                assert(!self@.stages[i as int].is_finished());
                return false;
            }
            i = i + 1;
        }
        true
    }

    /// Position of the stage of `group`.
    fn find_stage(&self, group: u64) -> (r: Option<usize>)
        requires
            self.wf(),
        ensures
            match r {
                Some(i) => i < self@.stages.len() && self@.stages[i as int].group == group
                    && has_stage(self@.stages, group) && stage_index(self@.stages, group) == i,
                None => !has_stage(self@.stages, group),
            },
    {
        let mut i: usize = 0;
        while i < self.stages.len()
            invariant
                self.wf(),
                i <= self.stages@.len(),
                forall|j: int| 0 <= j < i ==> (#[trigger] self@.stages[j]).group != group,
            decreases self.stages@.len() - i,
        {
            if self.stages[i].group == group {
                proof {
                    lemma_stage_index(self@.stages, i as int);
                }
                return Some(i);
            }
            i = i + 1;
        }
        None
    }

    /// The termination order: the prioritized groups, then the other groups
    /// in the order their stages were created.
    pub fn stage_sequence(&self) -> (order: Vec<u64>)
        requires
            self.wf(),
        ensures
            order@ == termination_order(self@),
    {
        let ghost pred = |g: u64| !self@.prioritized.contains(g);
        let mut order: Vec<u64> = Vec::new();
        let mut p: usize = 0;
        while p < self.prioritized.len()
            invariant
                p <= self.prioritized@.len(),
                order@ == self.prioritized@.take(p as int),
            decreases self.prioritized@.len() - p,
        {
            order.push(self.prioritized[p]);
            p = p + 1;
            proof {
                assert(order@ =~= self.prioritized@.take(p as int));
            }
        }
        proof {
            assert(order@ =~= self.prioritized@);
        }
        let mut i: usize = 0;
        while i < self.stages.len()
            invariant
                i <= self.stages@.len(),
                order@ == self@.prioritized + groups_of(self@.stages).take(i as int).filter(pred),
                pred == (|g: u64| !self@.prioritized.contains(g)),
            decreases self.stages@.len() - i,
        {
            let g = self.stages[i].group;
            let listed = contains_group(&self.prioritized, g);
            proof {
                let gs = groups_of(self@.stages);
                assert(gs.take(i + 1) =~= gs.take(i as int).push(g));
                gs.take(i as int).lemma_filter_push(g, pred);
            }
            if !listed {
                order.push(g);
            }
            i = i + 1;
        }
        proof {
            assert(groups_of(self@.stages).take(i as int) =~= groups_of(self@.stages));
        }
        order
    }

    /// Removes the stage at `i` for an update.
    fn take_stage(&mut self, i: usize) -> (st: Stage)
        requires
            old(self).wf(),
            i < old(self)@.stages.len(),
        ensures
            st.ids.wf(),
            st.view() == old(self)@.stages[i as int],
            final(self).stages@ == old(self).stages@.remove(i as int),
            final(self).terminating == old(self).terminating,
            final(self).prioritized@ == old(self).prioritized@,
            final(self).records == old(self).records,
    {
        self.stages.remove(i)
    }

    /// Puts an updated stage back at `i`.
    fn put_stage(&mut self, i: usize, st: Stage, Ghost(before): Ghost<Seq<Stage>>)
        requires
            i <= old(self).stages@.len(),
            old(self).stages@ == before.remove(i as int),
            i < before.len(),
            st.ids.wf(),
            st.group == before[i as int].group,
            old(self).records.wf(),
            forall|j: int| 0 <= j < before.len() ==> (#[trigger] before[j]).ids.wf(),
            distinct_groups(before.map_values(|s: Stage| s.view())),
        ensures
            final(self).wf(),
            final(self).stages@ == before.update(i as int, st),
            final(self)@.stages == before.map_values(|s: Stage| s.view()).update(i as int, st.view()),
            final(self).terminating == old(self).terminating,
            final(self).prioritized@ == old(self).prioritized@,
            final(self).records == old(self).records,
    {
        self.stages.insert(i, st);
        proof {
            assert(self.stages@ =~= before.update(i as int, st));
            assert(self@.stages =~= before.map_values(|s: Stage| s.view()).update(i as int, st.view()));
            let bv = before.map_values(|s: Stage| s.view());
            assert forall|a: int, b: int|
                0 <= a < self@.stages.len() && 0 <= b < self@.stages.len() && a != b implies
                #[trigger] self@.stages[a].group != #[trigger] self@.stages[b].group by {
                assert(self@.stages[a].group == bv[a].group);
                assert(self@.stages[b].group == bv[b].group);
            }
            assert forall|j: int| 0 <= j < self.stages@.len() implies (#[trigger] self.stages@[j]).ids.wf() by {
                if j != i {
                    assert(self.stages@[j] == before[j]);
                }
            }
        }
    }

    /// Marks the stage at `i` terminating and returns its recorded children.
    fn terminate_stage_at(&mut self, i: usize) -> (notified: Vec<Id>)
        requires
            old(self).wf(),
            i < old(self)@.stages.len(),
        ensures
            final(self).wf(),
            final(self)@ == (TrackerView {
                stages: old(self)@.stages.update(i as int, mark_terminating(old(self)@.stages[i as int])),
                ..old(self)@
            }),
            notified@ == recorded(old(self)@.stages[i as int].ids, old(self)@.records),
    {
        let ghost before = self.stages@;
        let mut st = self.take_stage(i);
        st.terminating = true;
        let keys = st.ids.keys();
        let ghost pred = |id: Id| self.records@.contains_key(id);
        let mut notified: Vec<Id> = Vec::new();
        let mut j: usize = 0;
        while j < keys.len()
            invariant
                self.records.wf(),
                j <= keys@.len(),
                notified@ == keys@.take(j as int).filter(pred),
                pred == (|id: Id| self.records@.contains_key(id)),
            decreases keys@.len() - j,
        {
            let id = keys[j];
            let known = self.records.contains(&id);
            proof {
                assert(keys@.take(j + 1) =~= keys@.take(j as int).push(id));
                keys@.take(j as int).lemma_filter_push(id, pred);
            }
            if known {
                notified.push(id);
            }
            j = j + 1;
        }
        proof {
            assert(keys@.take(j as int) =~= keys@);
            assert(before.map_values(|s: Stage| s.view()) == old(self)@.stages);
        }
        self.put_stage(i, st, Ghost(before));
        proof {
            assert(self@.stages =~= old(self)@.stages.update(
                i as int,
                mark_terminating(old(self)@.stages[i as int]),
            ));
        }
        notified
    }

    /// Moves the termination on: marks the tracker terminating and walks the
    /// termination order, interrupting each stage that is not terminating yet
    /// and stopping at the first stage that has not finished. Returns the
    /// children to interrupt, in order.
    fn try_terminate_next(&mut self) -> (notified: Vec<Id>)
        requires
            old(self).wf(),
        ensures
            final(self).wf(),
            final(self)@.terminating,
            final(self)@.prioritized == old(self)@.prioritized,
            final(self)@.records == old(self)@.records,
            (final(self)@.stages, notified@) == termination_walk(
                old(self)@.stages,
                termination_order(old(self)@),
                old(self)@.records,
            ),
    {
        let order = self.stage_sequence();
        self.terminating = true;
        self.walk(&order)
    }

    /// Starts the termination of the owner and returns the children to
    /// interrupt first.
    pub fn start_termination(&mut self) -> (notified: Vec<Id>)
        requires
            old(self).wf(),
        ensures
            final(self).wf(),
            (final(self)@, notified@) == started(old(self)@),
    {
        self.try_terminate_next()
    }

    /// Sends the interruption to one group only: if its stage exists and is
    /// not terminating yet, it becomes terminating and its recorded children
    /// are returned.
    pub fn terminate_group(&mut self, group: u64) -> (notified: Vec<Id>)
        requires
            old(self).wf(),
        ensures
            final(self).wf(),
            (final(self)@, notified@) == group_interrupted(old(self)@, group),
    {
        proof {
            let order = seq![group];
            assert(order.subrange(1, 1) =~= Seq::<u64>::empty());
            let st = old(self)@.stages;
            let i = stage_index(st, group);
            lemma_walk_empty(st, old(self)@.records);
            lemma_walk_empty(st.update(i, mark_terminating(st[i])), old(self)@.records);
        }
        match self.find_stage(group) {
            None => Vec::new(),
            Some(i) => {
                if !self.stages[i].terminating {
                    let notified = self.terminate_stage_at(i);
                    proof {
                        assert(notified@ + Seq::<Id>::empty() =~= notified@);
                    }
                    notified
                } else {
                    proof {
                        let st = old(self)@.stages[i as int];
                        assert(mark_terminating(st) == st);
                        assert(old(self)@.stages.update(i as int, mark_terminating(st)) =~= old(self)@.stages);
                        assert(Seq::<Id>::empty() + Seq::<Id>::empty() =~= Seq::<Id>::empty());
                    }
                    Vec::new()
                }
            },
        }
    }

    /// Adds the child `id` to the stage of `group` (creating the stage, not
    /// terminating, when it is missing) and records its group. Returns `true`
    /// when the stage is already terminating: the child has to be
    /// interrupted at once.
    pub fn insert(&mut self, id: Id, group: u64) -> (interrupt_now: bool)
        requires
            old(self).wf(),
        ensures
            final(self).wf(),
            final(self)@ == inserted(old(self)@, id, group),
            interrupt_now == joins_terminating(old(self)@, group),
    {
        let ghost before = self.stages@;
        let now = match self.find_stage(group) {
            Some(i) => {
                let mut st = self.take_stage(i);
                proof {
                    st.ids.lemma_key_seq();
                }
                st.ids.insert(id, ());
                let now = st.terminating;
                self.put_stage(i, st, Ghost(before));
                proof {
                    let ost = old(self)@.stages[i as int];
                    if ost.ids.contains(id) {
                        assert(self@.stages =~= old(self)@.stages);
                    } else {
                        assert(self@.stages =~= old(self)@.stages.update(
                            i as int,
                            StageView { group: ost.group, terminating: ost.terminating, ids: ost.ids.push(id) },
                        ));
                    }
                }
                now
            },
            None => {
                let mut ids: IdMap<()> = IdMap::new();
                ids.insert(id, ());
                let st = Stage { group, terminating: false, ids };
                proof {
                    assert(st.view().ids =~= seq![id]);
                }
                self.stages.push(st);
                proof {
                    assert(self@.stages =~= old(self)@.stages.push(st.view()));
                    assert forall|a: int, b: int|
                        0 <= a < self@.stages.len() && 0 <= b < self@.stages.len() && a != b implies
                        #[trigger] self@.stages[a].group != #[trigger] self@.stages[b].group by {
                        if a < old(self)@.stages.len() && b < old(self)@.stages.len() {
                            assert(self@.stages[a] == old(self)@.stages[a]);
                            assert(self@.stages[b] == old(self)@.stages[b]);
                        } else if a < old(self)@.stages.len() {
                            assert(self@.stages[a] == old(self)@.stages[a]);
                        } else {
                            assert(self@.stages[b] == old(self)@.stages[b]);
                        }
                    }
                    assert forall|j: int| 0 <= j < self.stages@.len() implies (#[trigger] self.stages@[j]).ids.wf() by {
                        if j < old(self).stages@.len() {
                            assert(self.stages@[j] == old(self).stages@[j]);
                        }
                    }
                }
                false
            },
        };
        self.records.insert(id, group);
        now
    }

    /// Forgets the child `id` (it has finished). When the termination is in
    /// progress the walk goes on, and the children to interrupt next are
    /// returned.
    pub fn remove(&mut self, id: &Id) -> (notified: Vec<Id>)
        requires
            old(self).wf(),
        ensures
            final(self).wf(),
            (final(self)@, notified@) == removed(old(self)@, *id),
    {
        let ghost before = self.stages@;
        match self.records.remove(id) {
            Some(group) => {
                match self.find_stage(group) {
                    Some(i) => {
                        let mut st = self.take_stage(i);
                        st.ids.remove(id);
                        self.put_stage(i, st, Ghost(before));
                        proof {
                            let ost = old(self)@.stages[i as int];
                            assert(self@.stages =~= old(self)@.stages.update(
                                i as int,
                                StageView {
                                    group: ost.group,
                                    terminating: ost.terminating,
                                    ids: ost.ids.filter(other_than(*id)),
                                },
                            ));
                        }
                    },
                    None => {},
                }
            },
            None => {},
        }
        proof {
            let stages1 = if old(self)@.records.contains_key(*id) {
                without_child(old(self)@.stages, old(self)@.records[*id], *id)
            } else {
                old(self)@.stages
            };
            assert(self@.stages == stages1);
            assert(termination_order(self@) == termination_order(TrackerView { stages: stages1, ..old(self)@ }));
        }
        if self.terminating {
            self.try_terminate_next()
        } else {
            Vec::new()
        }
    }

    /// Has the stage at `i` no children?
    fn stage_is_empty(&self, i: usize) -> (b: bool)
        requires
            self.wf(),
            i < self@.stages.len(),
        ensures
            b == (self@.stages[i as int].ids.len() == 0),
    {
        assert(self.stages@[i as int].ids.wf());
        self.stages[i].ids.len() == 0
    }

    /// Walks the termination order from position `k` on, as `termination_walk` does.
    fn walk(&mut self, order: &Vec<u64>) -> (notified: Vec<Id>)
        requires
            old(self).wf(),
        ensures
            final(self).wf(),
            (final(self)@.stages, notified@) == termination_walk(old(self)@.stages, order@, old(self)@.records),
            final(self)@.terminating == old(self)@.terminating,
            final(self)@.prioritized == old(self)@.prioritized,
            final(self)@.records == old(self)@.records,
    {
        let ghost records = self@.records;
        let ghost target = termination_walk(self@.stages, order@, records);
        let mut notified: Vec<Id> = Vec::new();
        let mut k: usize = 0;
        proof {
            assert(order@.skip(0) =~= order@);
            let (s, n) = termination_walk(self@.stages, order@, records);
            assert(notified@ + n =~= n);
        }
        while k < order.len()
            invariant_except_break
                self.wf(),
                k <= order@.len(),
                self@.records == records,
                self@.terminating == old(self)@.terminating,
                self@.prioritized == old(self)@.prioritized,
                ({
                    let (s, n) = termination_walk(self@.stages, order@.skip(k as int), records);
                    target == (s, notified@ + n)
                }),
            ensures
                self.wf(),
                self@.records == records,
                self@.terminating == old(self)@.terminating,
                self@.prioritized == old(self)@.prioritized,
                target == (self@.stages, notified@),
            decreases order@.len() - k,
        {
            let g = order[k];
            let ghost rest = order@.skip(k as int);
            proof {
                assert(rest[0] == g);
                assert(rest.subrange(1, rest.len() as int) =~= order@.skip(k + 1));
            }
            match self.find_stage(g) {
                None => {},
                Some(i) => {
                    let ghost st = self@.stages[i as int];
                    if !self.stages[i].terminating {
                        let more = self.terminate_stage_at(i);
                        proof {
                            assert(more@ == recorded(st.ids, records));
                        }
                        let mut more = more;
                        notified.append(&mut more);
                    } else {
                        proof {
                            let s2 = self@.stages;
                            assert(mark_terminating(st) == st);
                            assert(s2.update(i as int, mark_terminating(st)) =~= s2);
                        }
                    }
                    if !self.stage_is_empty(i) {
                        proof {
                            assert(notified@ =~= notified@ + Seq::<Id>::empty());
                        }
                        break;
                    }
                },
            }
            proof {
                let (s, n) = termination_walk(self@.stages, order@.skip(k + 1), records);
                assert(target == (s, notified@ + n));
            }
            k = k + 1;
        }
        proof {
            if k == order.len() {
                assert(order@.skip(k as int).len() == 0);
                assert(notified@ + Seq::<Id>::empty() =~= notified@);
            }
        }
        notified
    }
}

/// Is `group` one of `groups`?
fn contains_group(groups: &Vec<u64>, group: u64) -> (b: bool)
    ensures
        b == groups@.contains(group),
{
    let mut i: usize = 0;
    while i < groups.len()
        invariant
            i <= groups@.len(),
            forall|j: int| 0 <= j < i ==> groups@[j] != group,
        decreases groups@.len() - i,
    {
        if groups[i] == group {
            assert(groups@[i as int] == group);
            return true;
        }
        i = i + 1;
    }
    false
}

} // verus!

verus! {

/// The walk keeps every stage in place with its group and children, and
/// never clears a terminating flag.
pub proof fn lemma_walk_frame(stages: Seq<StageView>, order: Seq<u64>, records: Map<Id, u64>)
    requires
        distinct_groups(stages),
    ensures
        ({
            let (s2, _n) = termination_walk(stages, order, records);
            &&& s2.len() == stages.len()
            &&& distinct_groups(s2)
            &&& forall|k: int|
                0 <= k < stages.len() ==> (#[trigger] s2[k]).group == stages[k].group && s2[k].ids
                    == stages[k].ids && (stages[k].terminating ==> s2[k].terminating)
        }),
    decreases order.len(),
{
    if order.len() > 0 {
        let g = order[0];
        let rest = order.subrange(1, order.len() as int);
        if !has_stage(stages, g) {
            lemma_walk_frame(stages, rest, records);
        } else {
            let i = stage_index(stages, g);
            let stages2 = stages.update(i, mark_terminating(stages[i]));
            assert(distinct_groups(stages2)) by {
                assert forall|a: int, b: int|
                    0 <= a < stages2.len() && 0 <= b < stages2.len() && a != b implies
                    #[trigger] stages2[a].group != #[trigger] stages2[b].group by {
                    assert(stages2[a].group == stages[a].group);
                    assert(stages2[b].group == stages[b].group);
                }
            }
            if stages[i].ids.len() == 0 {
                lemma_walk_frame(stages2, rest, records);
            }
        }
    }
}

/// **Law (finished stages).** The stages are all finished exactly when every
/// stage is terminating and has no children: a stage that was never told to
/// terminate is not finished, however empty it is.
pub proof fn law_finished_means_terminating_and_empty(stages: Seq<StageView>)
    ensures
        all_finished(stages) <==> forall|i: int|
            0 <= i < stages.len() ==> (#[trigger] stages[i]).terminating && stages[i].ids.len() == 0,
{
    if all_finished(stages) {
        assert forall|i: int| 0 <= i < stages.len() implies (#[trigger] stages[i]).terminating
            && stages[i].ids.len() == 0 by {
            assert(stages[i].is_finished());
        }
    }
}

/// **Law (a child ends on its own).** When no termination was started and some
/// stage is not terminating, the end of a child leaves the tracker
/// unfinished, so the owner keeps running (`Context::child_done` keeps the
/// loop alive exactly while the tracker is unfinished).
pub proof fn law_child_end_without_termination_keeps_running(v: TrackerView, id: Id)
    requires
        !v.terminating,
        exists|i: int| 0 <= i < v.stages.len() && !(#[trigger] v.stages[i]).terminating,
    ensures
        removed(v, id).1.len() == 0,
        removed(v, id).0.stages.len() == v.stages.len(),
        !all_finished(removed(v, id).0.stages),
{
    let i = choose|i: int| 0 <= i < v.stages.len() && !(#[trigger] v.stages[i]).terminating;
    let s2 = removed(v, id).0.stages;
    if v.records.contains_key(id) {
        let g = v.records[id];
        if has_stage(v.stages, g) {
            let k = stage_index(v.stages, g);
            assert(0 <= k < v.stages.len());
            assert(s2[i].terminating == v.stages[i].terminating);
        }
    }
    assert(!s2[i].terminating);
    assert(!s2[i].is_finished());
}

/// **Law (interrupting one group).** Interrupting a group whose stage exists
/// and is not terminating yet marks exactly that stage terminating and
/// interrupts its recorded children, whether or not the owner's own
/// termination has started; nothing else changes.
pub proof fn law_group_interrupt_marks_its_stage(v: TrackerView, group: u64)
    requires
        distinct_groups(v.stages),
        has_stage(v.stages, group),
        !v.stages[stage_index(v.stages, group)].terminating,
    ensures
        ({
            let i = stage_index(v.stages, group);
            let (t2, n) = group_interrupted(v, group);
            &&& t2.stages == v.stages.update(i, StageView { terminating: true, ..v.stages[i] })
            &&& n == recorded(v.stages[i].ids, v.records)
            &&& t2.terminating == v.terminating
            &&& t2.prioritized == v.prioritized
            &&& t2.records == v.records
        }),
{
    let i = stage_index(v.stages, group);
    lemma_walk_single(v.stages, group, v.records);
    assert(mark_terminating(v.stages[i]) == StageView { terminating: true, ..v.stages[i] });
}

/// A walk over one group that has a stage marks that stage terminating and
/// notifies its recorded children when it was not terminating yet.
proof fn lemma_walk_single(stages: Seq<StageView>, group: u64, records: Map<Id, u64>)
    requires
        has_stage(stages, group),
    ensures
        ({
            let i = stage_index(stages, group);
            termination_walk(stages, seq![group], records) == (
                stages.update(i, mark_terminating(stages[i])),
                if stages[i].terminating {
                    Seq::<Id>::empty()
                } else {
                    recorded(stages[i].ids, records)
                },
            )
        }),
{
    let order = seq![group];
    let i = stage_index(stages, group);
    let st = stages[i];
    let stages2 = stages.update(i, mark_terminating(st));
    let rest = order.subrange(1, order.len() as int);
    assert(order[0] == group);
    assert(rest =~= Seq::<u64>::empty());
    lemma_walk_empty(stages2, records);
    let notified = if st.terminating {
        Seq::<Id>::empty()
    } else {
        recorded(st.ids, records)
    };
    assert(notified + Seq::<Id>::empty() =~= notified);
}

/// **Law (newcomers of an interrupted group).** Once a group has been
/// interrupted, a child that joins it is interrupted at once, even when the
/// group had no children left.
pub proof fn law_interrupted_group_interrupts_newcomers(v: TrackerView, group: u64)
    requires
        distinct_groups(v.stages),
        has_stage(v.stages, group),
    ensures
        joins_terminating(group_interrupted(v, group).0, group),
        joins_terminating(started(group_interrupted(v, group).0).0, group),
{
    let i = stage_index(v.stages, group);
    let order = seq![group];
    let t2 = group_interrupted(v, group).0;
    lemma_walk_single(v.stages, group, v.records);
    lemma_walk_frame(v.stages, order, v.records);
    assert(t2.stages[i].terminating);
    assert(t2.stages[i].group == group);
    lemma_stage_index(t2.stages, i);
    let t3 = started(t2).0;
    lemma_walk_frame(t2.stages, termination_order(t2), t2.records);
    assert(t3.stages[i].group == group && t3.stages[i].terminating);
    lemma_stage_index(t3.stages, i);
}

/// **Law (settled walk).** Walking the same order again over the stages
/// that a walk left changes nothing and interrupts nobody.
pub proof fn law_walk_again_changes_nothing(stages: Seq<StageView>, order: Seq<u64>, records: Map<Id, u64>)
    requires
        distinct_groups(stages),
    ensures
        termination_walk(termination_walk(stages, order, records).0, order, records) == (
            termination_walk(stages, order, records).0,
            Seq::<Id>::empty(),
        ),
    decreases order.len(),
{
    if order.len() > 0 {
        let g = order[0];
        let rest = order.subrange(1, order.len() as int);
        lemma_walk_frame(stages, order, records);
        let s2 = termination_walk(stages, order, records).0;
        if !has_stage(stages, g) {
            law_walk_again_changes_nothing(stages, rest, records);
            if has_stage(s2, g) {
                let j = choose|j: int| 0 <= j < s2.len() && s2[j].group == g;
                assert(stages[j].group == g);
            }
        } else {
            let i = stage_index(stages, g);
            let st = stages[i];
            let stages2 = stages.update(i, mark_terminating(st));
            assert(distinct_groups(stages2)) by {
                assert forall|a: int, b: int|
                    0 <= a < stages2.len() && 0 <= b < stages2.len() && a != b implies
                    #[trigger] stages2[a].group != #[trigger] stages2[b].group by {
                    assert(stages2[a].group == stages[a].group);
                    assert(stages2[b].group == stages[b].group);
                }
            }
            lemma_stage_index(stages, i);
            assert(s2[i].group == g);
            lemma_stage_index(s2, i);
            if st.ids.len() == 0 {
                law_walk_again_changes_nothing(stages2, rest, records);
                lemma_walk_frame(stages2, rest, records);
                assert(s2[i].terminating && s2[i].ids.len() == 0);
                assert(s2.update(i, mark_terminating(s2[i])) =~= s2);
                assert(Seq::<Id>::empty() + Seq::<Id>::empty() =~= Seq::<Id>::empty());
            } else {
                assert(s2 == stages2);
                assert(stages2.update(i, mark_terminating(stages2[i])) =~= stages2);
            }
        }
    }
}

/// A started (or moved on) termination is settled: walking its order again
/// over the tracker it left changes nothing and interrupts nobody.
pub proof fn law_started_is_settled(v: TrackerView)
    requires
        distinct_groups(v.stages),
    ensures
        ({
            let t2 = started(v).0;
            termination_walk(t2.stages, termination_order(t2), t2.records) == (t2.stages, Seq::<Id>::empty())
        }),
{
    let t2 = started(v).0;
    lemma_walk_frame(v.stages, termination_order(v), v.records);
    assert(groups_of(t2.stages) =~= groups_of(v.stages));
    assert(termination_order(t2) =~= termination_order(v));
    law_walk_again_changes_nothing(v.stages, termination_order(v), v.records);
}

/// **Law (unknown child).** On a settled tracker (not terminating, or with
/// its stages where the walk leaves them), the end of a child that the
/// tracker does not know changes nothing and interrupts nobody.
pub proof fn law_remove_unknown_changes_nothing(v: TrackerView, id: Id)
    requires
        distinct_groups(v.stages),
        !v.records.contains_key(id),
        v.terminating ==> termination_walk(v.stages, termination_order(v), v.records).0 == v.stages,
    ensures
        removed(v, id) == (v, Seq::<Id>::empty()),
{
    assert(v.records.remove(id) =~= v.records);
    let v1 = TrackerView { stages: v.stages, records: v.records.remove(id), ..v };
    assert(v1 == v);
    if v.terminating {
        law_walk_again_changes_nothing(v.stages, termination_order(v), v.records);
    }
}

/// **Law (termination order).** A walk interrupts a group only after every
/// group met before it in the order has finished: if the stage of group `a`
/// becomes terminating during the walk, then the stage of every group `b`
/// that comes before the first occurrence of `a` in the order is finished
/// (terminating, with no children) afterwards.
pub proof fn law_walk_respects_order(
    stages: Seq<StageView>,
    order: Seq<u64>,
    records: Map<Id, u64>,
    p: int,
    q: int,
)
    requires
        distinct_groups(stages),
        0 <= p < q < order.len(),
        forall|j: int| 0 <= j <= p ==> #[trigger] order[j] != order[q],
        has_stage(stages, order[p]),
        has_stage(stages, order[q]),
        !stages[stage_index(stages, order[q])].terminating,
        termination_walk(stages, order, records).0[stage_index(stages, order[q])].terminating,
    ensures
        termination_walk(stages, order, records).0[stage_index(stages, order[p])].is_finished(),
    decreases order.len(),
{
    let g = order[0];
    let rest = order.subrange(1, order.len() as int);
    let a = order[q];
    let b = order[p];
    let ia = stage_index(stages, a);
    let ib = stage_index(stages, b);
    if !has_stage(stages, g) {
        assert(p > 0);
        assert(rest[p - 1] == b && rest[q - 1] == a);
        assert forall|j: int| 0 <= j <= p - 1 implies #[trigger] rest[j] != rest[q - 1] by {
            assert(rest[j] == order[j + 1]);
        }
        law_walk_respects_order(stages, rest, records, p - 1, q - 1);
    } else {
        let i = stage_index(stages, g);
        let stages2 = stages.update(i, mark_terminating(stages[i]));
        assert(a != g);
        assert(stages[i].group == g && stages[ia].group == a);
        assert(ia != i);
        if stages[i].ids.len() == 0 {
            lemma_walk_frame(stages, order, records);
            lemma_walk_frame(stages2, rest, records);
            assert(distinct_groups(stages2)) by {
                assert forall|x: int, y: int|
                    0 <= x < stages2.len() && 0 <= y < stages2.len() && x != y implies
                    #[trigger] stages2[x].group != #[trigger] stages2[y].group by {
                    assert(stages2[x].group == stages[x].group);
                    assert(stages2[y].group == stages[y].group);
                }
            }
            if p == 0 {
                assert(ib == i);
                let s3 = termination_walk(stages2, rest, records).0;
                assert(s3[i].ids == stages2[i].ids);
                assert(stages2[i].terminating);
            } else {
                assert(rest[p - 1] == b && rest[q - 1] == a);
                assert forall|j: int| 0 <= j <= p - 1 implies #[trigger] rest[j] != rest[q - 1] by {
                    assert(rest[j] == order[j + 1]);
                }
                assert(stages2[ia] == stages[ia]);
                assert(stages2[ia].group == a && stages2[ib].group == b);
                lemma_stage_index(stages2, ia);
                lemma_stage_index(stages2, ib);
                assert(has_stage(stages2, b));
                law_walk_respects_order(stages2, rest, records, p - 1, q - 1);
            }
        } else {
            assert(termination_walk(stages, order, records).0 == stages2);
            assert(stages2[ia] == stages[ia]);
        }
    }
}

/// **Law (interrupted once).** The walk notifies only recorded children of
/// stages that were not terminating before it and are terminating after it,
/// so a stage's children are never interrupted a second time by the walk.
pub proof fn law_walk_notifies_new_stages_only(
    stages: Seq<StageView>,
    order: Seq<u64>,
    records: Map<Id, u64>,
    n: int,
)
    requires
        distinct_groups(stages),
        0 <= n < termination_walk(stages, order, records).1.len(),
    ensures
        ({
            let (s2, notified) = termination_walk(stages, order, records);
            &&& records.contains_key(notified[n])
            &&& exists|k: int|
                0 <= k < stages.len() && !stages[k].terminating && s2[k].terminating
                    && #[trigger] stages[k].ids.contains(notified[n])
        }),
    decreases order.len(),
{
    let g = order[0];
    let rest = order.subrange(1, order.len() as int);
    let (s2, notified) = termination_walk(stages, order, records);
    if !has_stage(stages, g) {
        law_walk_notifies_new_stages_only(stages, rest, records, n);
    } else {
        let i = stage_index(stages, g);
        let st = stages[i];
        let stages2 = stages.update(i, mark_terminating(st));
        let first = if st.terminating {
            Seq::<Id>::empty()
        } else {
            recorded(st.ids, records)
        };
        let pred = |id: Id| records.contains_key(id);
        assert(distinct_groups(stages2)) by {
            assert forall|x: int, y: int|
                0 <= x < stages2.len() && 0 <= y < stages2.len() && x != y implies
                #[trigger] stages2[x].group != #[trigger] stages2[y].group by {
                assert(stages2[x].group == stages[x].group);
                assert(stages2[y].group == stages[y].group);
            }
        }
        if n < first.len() {
            assert(notified[n] == first[n]);
            st.ids.lemma_filter_pred(pred, n);
            assert(st.ids.filter(pred)[n] == first[n]);
            assert(st.ids.filter(pred).contains(first[n]));
            st.ids.lemma_filter_contains_rev(pred, first[n]);
            assert(st.ids.contains(first[n]));
            if st.ids.len() == 0 {
                lemma_walk_frame(stages2, rest, records);
                assert(s2[i].terminating);
            } else {
                assert(s2 == stages2);
            }
            assert(!stages[i].terminating && s2[i].terminating && stages[i].ids.contains(notified[n]));
        } else {
            assert(st.ids.len() == 0);
            let m = n - first.len();
            let (s3, n3) = termination_walk(stages2, rest, records);
            assert(notified == first + n3);
            assert(notified[n] == n3[m]);
            law_walk_notifies_new_stages_only(stages2, rest, records, m);
            let k = choose|k: int|
                0 <= k < stages2.len() && !stages2[k].terminating && s3[k].terminating
                    && #[trigger] stages2[k].ids.contains(n3[m]);
            assert(k != i);
            assert(stages2[k] == stages[k]);
            assert(!stages[k].terminating && s2[k].terminating && stages[k].ids.contains(notified[n]));
        }
    }
}

/// A walk over an order that names every group of stages that have no
/// children leaves every stage terminating.
proof fn lemma_walk_covers(stages: Seq<StageView>, order: Seq<u64>, records: Map<Id, u64>)
    requires
        distinct_groups(stages),
        forall|k: int| 0 <= k < stages.len() ==> (#[trigger] stages[k]).ids.len() == 0,
        forall|k: int|
            0 <= k < stages.len() && !stages[k].terminating ==> order.contains(#[trigger] stages[k].group),
    ensures
        all_finished(termination_walk(stages, order, records).0),
    decreases order.len(),
{
    if order.len() == 0 {
        assert forall|k: int| 0 <= k < stages.len() implies (#[trigger] stages[k]).is_finished() by {
            if !stages[k].terminating {
                assert(order.contains(stages[k].group));
            }
        }
    } else {
        let g = order[0];
        let rest = order.subrange(1, order.len() as int);
        if !has_stage(stages, g) {
            assert forall|k: int|
                0 <= k < stages.len() && !stages[k].terminating implies rest.contains(
                #[trigger] stages[k].group,
            ) by {
                let j = choose|j: int| 0 <= j < order.len() && order[j] == stages[k].group;
                assert(j != 0);
                assert(rest[j - 1] == stages[k].group);
            }
            lemma_walk_covers(stages, rest, records);
        } else {
            let i = stage_index(stages, g);
            let stages2 = stages.update(i, mark_terminating(stages[i]));
            assert(distinct_groups(stages2)) by {
                assert forall|x: int, y: int|
                    0 <= x < stages2.len() && 0 <= y < stages2.len() && x != y implies
                    #[trigger] stages2[x].group != #[trigger] stages2[y].group by {
                    assert(stages2[x].group == stages[x].group);
                    assert(stages2[y].group == stages[y].group);
                }
            }
            assert forall|k: int|
                0 <= k < stages2.len() && !stages2[k].terminating implies rest.contains(
                #[trigger] stages2[k].group,
            ) by {
                assert(k != i);
                let j = choose|j: int| 0 <= j < order.len() && order[j] == stages[k].group;
                assert(j != 0);
                assert(rest[j - 1] == stages[k].group);
            }
            assert forall|k: int| 0 <= k < stages2.len() implies (#[trigger] stages2[k]).ids.len() == 0 by {
                assert(stages2[k].ids == stages[k].ids);
            }
            lemma_walk_covers(stages2, rest, records);
        }
    }
}

/// **Law (empty owner finishes at once).** When no stage has children left,
/// starting the termination leaves every stage finished.
pub proof fn law_start_without_children_finishes(v: TrackerView)
    requires
        distinct_groups(v.stages),
        forall|k: int| 0 <= k < v.stages.len() ==> (#[trigger] v.stages[k]).ids.len() == 0,
    ensures
        all_finished(termination_walk(v.stages, termination_order(v), v.records).0),
{
    let order = termination_order(v);
    let pred = |g: u64| !v.prioritized.contains(g);
    let gs = groups_of(v.stages);
    assert forall|k: int| 0 <= k < v.stages.len() && !v.stages[k].terminating implies order.contains(
        #[trigger] v.stages[k].group,
    ) by {
        let g = v.stages[k].group;
        if v.prioritized.contains(g) {
            let j = choose|j: int| 0 <= j < v.prioritized.len() && v.prioritized[j] == g;
            assert(order[j] == g);
        } else {
            assert(gs[k] == g);
            gs.lemma_filter_contains(pred, k);
            let f = gs.filter(pred);
            let j = choose|j: int| 0 <= j < f.len() && f[j] == g;
            assert(order[v.prioritized.len() + j] == g);
        }
    }
    lemma_walk_covers(v.stages, order, v.records);
}

} // verus!

verus! {

/// An error of the lifecycle of an actor.
#[derive(Debug, Clone, Copy, PartialEq, Eq, Structural)]
pub enum LifecycleError {
    /// A notifier that notifies once was asked a second time.
    SecondNotification,
    /// The actor is terminating.
    Terminating,
}

impl LifecycleError {
    /// The message of the error.
    pub open spec fn text(self) -> Seq<char> {
        match self {
            LifecycleError::SecondNotification => "Attempt to send the second notification that can be sent once only."@,
            LifecycleError::Terminating => "Actor is terminating..."@,
        }
    }

    /// Describes the error.
    pub fn to_string(&self) -> (s: String)
        ensures
            s@ == self.text(),
    {
        match self {
            LifecycleError::SecondNotification => String::from_str(
                "Attempt to send the second notification that can be sent once only.",
            ),
            LifecycleError::Terminating => String::from_str("Actor is terminating..."),
        }
    }
}

/// What a notifier hands out, for the caller to carry out.
pub enum Notice<M> {
    /// Deliver this message.
    Deliver(M),
    /// Send the stop signal through this sender.
    Stop(StopSender),
}

/// Notifies the other side of a lifecycle event: the supervisor about a
/// finished child, a child actor about its interruption, or a task about its
/// stop.
pub enum LifecycleNotifier<M> {
    /// Notifies nobody.
    Ignore,
    /// Hands out its message once; the message is gone after the first notification.
    Once(Option<M>),
    /// Hands out the stop sender of a task, every time it is notified.
    Stop(StopSender),
}

/// Has the notifier a message to hand out?
pub open spec fn pending<M>(n: LifecycleNotifier<M>) -> bool {
    n matches LifecycleNotifier::Once(Some(_))
}

impl<M> LifecycleNotifier<M> {
    /// A notifier that notifies nobody.
    pub fn ignore() -> (n: Self)
        ensures
            n is Ignore,
    {
        LifecycleNotifier::Ignore
    }

    /// A notifier that hands out `msg` once.
    pub fn once(msg: M) -> (n: Self)
        ensures
            n == LifecycleNotifier::Once(Some(msg)),
    {
        LifecycleNotifier::Once(Some(msg))
    }

    /// A notifier that hands out the stop sender of a task.
    pub fn stop(stopper: StopSender) -> (n: Self)
        ensures
            n == LifecycleNotifier::<M>::Stop(stopper),
    {
        LifecycleNotifier::Stop(stopper)
    }

    /// Notifies: a once-notifier hands out its message the first time
    /// (`Deliver`, to be delivered by the caller) and fails every time after;
    /// a stopping notifier hands out its stop sender every time (`Stop`, the
    /// caller sends the signal); an ignoring notifier hands out nothing.
    pub fn notify(&mut self) -> (r: Result<Option<Notice<M>>, LifecycleError>)
        ensures
            match *old(self) {
                LifecycleNotifier::Ignore => r matches Ok(None) && *final(self) == *old(self),
                LifecycleNotifier::Once(Some(msg)) => r == Ok::<Option<Notice<M>>, LifecycleError>(
                    Some(Notice::Deliver(msg)),
                ) && *final(self) == LifecycleNotifier::<M>::Once(None),
                LifecycleNotifier::Once(None) => r == Err::<Option<Notice<M>>, LifecycleError>(
                    LifecycleError::SecondNotification,
                ) && *final(self) == *old(self),
                LifecycleNotifier::Stop(stopper) => r == Ok::<Option<Notice<M>>, LifecycleError>(
                    Some(Notice::Stop(stopper)),
                ) && *final(self) == *old(self),
            },
    {
        match self {
            LifecycleNotifier::Ignore => Ok(None),
            LifecycleNotifier::Once(slot) => {
                match slot.take() {
                    Some(msg) => Ok(Some(Notice::Deliver(msg))),
                    None => Err(LifecycleError::SecondNotification),
                }
            },
            LifecycleNotifier::Stop(stopper) => Ok(Some(Notice::Stop(stopper.clone()))),
        }
    }
}

/// Notifies, in order, the notifiers of `ids` that are in `table`: returns the
/// table afterwards and what the notifiers handed out.
pub open spec fn notify_all<M>(
    table: Map<Id, LifecycleNotifier<M>>,
    ids: Seq<Id>,
) -> (Map<Id, LifecycleNotifier<M>>, Seq<Notice<M>>)
    decreases ids.len(),
{
    if ids.len() == 0 {
        (table, Seq::empty())
    } else {
        let (t, ns) = notify_all(table, ids.drop_last());
        let id = ids.last();
        if t.contains_key(id) {
            match t[id] {
                LifecycleNotifier::Once(Some(m)) => (t.insert(id, LifecycleNotifier::Once(None)), ns.push(Notice::Deliver(m))),
                LifecycleNotifier::Stop(s) => (t, ns.push(Notice::Stop(s))),
                _ => (t, ns),
            }
        } else {
            (t, ns)
        }
    }
}

/// Notifying keeps the set of notifiers and leaves every notifier of `ids`
/// without a message to hand out.
pub proof fn lemma_notify_all_spends<M>(table: Map<Id, LifecycleNotifier<M>>, ids: Seq<Id>)
    ensures
        notify_all(table, ids).0.dom() == table.dom(),
        forall|k: Id|
            #[trigger] ids.contains(k) && table.contains_key(k) ==> !pending(notify_all(table, ids).0[k]),
    decreases ids.len(),
{
    if ids.len() > 0 {
        let front = ids.drop_last();
        lemma_notify_all_spends(table, front);
        let t = notify_all(table, front).0;
        let id = ids.last();
        assert forall|k: Id| #[trigger] ids.contains(k) && table.contains_key(k) implies !pending(
            notify_all(table, ids).0[k],
        ) by {
            if k != id {
                let i = choose|i: int| 0 <= i < ids.len() && ids[i] == k;
                assert(front[i] == k);
                assert(front.contains(k));
            }
        }
        if t.contains_key(id) {
            assert(t.insert(id, LifecycleNotifier::Once(None)).dom() =~= t.dom());
        }
    }
}

/// Notifiers without a message stay as they are and hand out stop senders only.
proof fn lemma_notify_all_spent<M>(table: Map<Id, LifecycleNotifier<M>>, ids: Seq<Id>)
    requires
        forall|k: Id| #[trigger] ids.contains(k) && table.contains_key(k) ==> !pending(table[k]),
    ensures
        notify_all(table, ids).0 == table,
        forall|i: int| 0 <= i < notify_all(table, ids).1.len() ==> (#[trigger] notify_all(table, ids).1[i]) is Stop,
    decreases ids.len(),
{
    if ids.len() > 0 {
        let front = ids.drop_last();
        assert forall|k: Id| #[trigger] front.contains(k) && table.contains_key(k) implies !pending(
            table[k],
        ) by {
            let i = choose|i: int| 0 <= i < front.len() && front[i] == k;
            assert(ids[i] == k);
            assert(ids.contains(k));
        }
        lemma_notify_all_spent(table, front);
        assert(ids[ids.len() - 1] == ids.last());
        assert(ids.contains(ids.last()));
    }
}

/// **Law (one interruption per child).** Notifying the same children a
/// second time changes nothing and hands out no message: an actor child's
/// interruption is delivered at most once (tasks are only told to stop again).
pub proof fn law_notify_again_hands_out_nothing<M>(table: Map<Id, LifecycleNotifier<M>>, ids: Seq<Id>)
    ensures
        notify_all(notify_all(table, ids).0, ids).0 == notify_all(table, ids).0,
        forall|i: int|
            0 <= i < notify_all(notify_all(table, ids).0, ids).1.len() ==> (#[trigger] notify_all(
                notify_all(table, ids).0,
                ids,
            ).1[i]) is Stop,
{
    lemma_notify_all_spends(table, ids);
    lemma_notify_all_spent(notify_all(table, ids).0, ids);
}

/// Notifies the notifiers of `ids` found in `table`, in order, and returns
/// what they handed out.
pub fn notify_each<M>(table: &mut IdMap<LifecycleNotifier<M>>, ids: &Vec<Id>) -> (notices: Vec<Notice<M>>)
    requires
        old(table).wf(),
    ensures
        final(table).wf(),
        (final(table)@, notices@) == notify_all(old(table)@, ids@),
{
    let mut notices: Vec<Notice<M>> = Vec::new();
    let mut i: usize = 0;
    while i < ids.len()
        invariant
            table.wf(),
            i <= ids@.len(),
            (table@, notices@) == notify_all(old(table)@, ids@.take(i as int)),
        decreases ids@.len() - i,
    {
        let id = ids[i];
        proof {
            assert(ids@.take(i + 1).drop_last() =~= ids@.take(i as int));
            assert(ids@.take(i + 1).last() == id);
        }
        match table.remove(&id) {
            None => {},
            Some(notifier) => {
                let mut notifier = notifier;
                let ghost before = notifier;
                let res = notifier.notify();
                table.insert(id, notifier);
                match res {
                    Ok(Some(notice)) => {
                        notices.push(notice);
                    },
                    _ => {},
                }
                proof {
                    let t = old(table)@;
                    let prev = notify_all(t, ids@.take(i as int)).0;
                    assert(prev.contains_key(id) && prev[id] == before);
                    match before {
                        LifecycleNotifier::Once(Some(m)) => {
                            assert(table@ =~= prev.insert(id, LifecycleNotifier::Once(None)));
                        },
                        _ => {
                            assert(table@ =~= prev);
                        },
                    }
                }
            },
        }
        i = i + 1;
    }
    proof {
        assert(ids@.take(i as int) =~= ids@);
    }
    notices
}

} // verus!
