//! Minimising an inductive core by dropping literals.

use vstd::prelude::*;

use crate::code_set::{empty_set, members, set_contains, set_insert, CodeSet};
use crate::double::{Double, FORTY, TEN, THIRTY, TWENTY};
use crate::ic3::IC3;
use crate::lit::{copy_cube, literals_among, Lit};
use crate::statistic::{bump, bumped, Statistic};
use crate::tally::DropTallyView;

verus! {

/// The effort of a minimisation.
#[derive(Clone, Copy, PartialEq, Eq, Structural, Debug)]
pub struct DropVarParameter {
    /// How many counterexamples to generalisation may be blocked.
    pub limit: usize,
    /// How many counterexamples to generalisation may be tried per literal.
    pub max: usize,
    /// How deep they may nest.
    pub level: usize,
}

/// How the effort of a minimisation is determined.
#[derive(Clone, Copy, PartialEq, Eq, Structural, Debug)]
pub enum MicChoice {
    /// By the configuration.
    Configured,
    /// By default.
    Default,
    /// By the activity of the obligation.
    ByActivity(DropVarParameter),
}

/// The highest of the activities of the next obligations, of which the first
/// three count.
pub open spec fn peak_activity(next: Seq<Double>) -> Option<Double> {
    if next.len() == 0 {
        None
    } else if next.len() == 1 {
        Some(next[0])
    } else if next.len() == 2 {
        Some(next[0].spec_max(next[1]))
    } else {
        Some(next[0].spec_max(next[1]).spec_max(next[2]))
    }
}

/// The effort for an obligation with the given peak activity. Up to 10 there
/// is none beyond dropping literals; up to 40 the counterexamples per literal
/// rise by one with each 10 of activity; beyond that `exctg_limit` of them
/// may be blocked.
pub open spec fn effort(act: Double, exctg_limit: usize) -> DropVarParameter {
    if (Double { bits: FORTY }).spec_le(act) {
        DropVarParameter { limit: exctg_limit, max: 5, level: 1 }
    } else if (Double { bits: THIRTY }).spec_le(act) {
        DropVarParameter { limit: 1, max: 4, level: 1 }
    } else if (Double { bits: TWENTY }).spec_le(act) {
        DropVarParameter { limit: 1, max: 3, level: 1 }
    } else if (Double { bits: TEN }).spec_le(act) {
        DropVarParameter { limit: 1, max: 2, level: 1 }
    } else {
        DropVarParameter { limit: 0, max: 0, level: 0 }
    }
}

impl IC3 {
    /// The highest of the activities of the next obligations, of which the
    /// first three count.
    pub fn peak_activity(next: &Vec<Double>) -> (r: Option<Double>)
        ensures
            r == peak_activity(next@),
    {
        if next.len() == 0 {
            return None;
        }
        let mut act = next[0];
        if next.len() > 1 {
            act = act.max(&next[1]);
        }
        if next.len() > 2 {
            act = act.max(&next[2]);
        }
        Some(act)
    }

    /// How much effort the minimisation for an obligation is to take, where
    /// the next obligations have the peak activity `peak`. `exctg_limit` is
    /// the limit for that activity where it is 40 or more.
    pub fn get_mic_type(&self, peak: Option<Double>, exctg_limit: usize) -> (r: MicChoice)
        requires
            self.cfg.dynamic ==> (peak matches Some(act) ==> !act.is_nan()),
        ensures
            r == if !self.cfg.dynamic {
                MicChoice::Configured
            } else {
                match peak {
                    Some(act) => MicChoice::ByActivity(effort(act, exctg_limit)),
                    None => MicChoice::Default,
                }
            },
    {
        if !self.cfg.dynamic {
            return MicChoice::Configured;
        }
        match peak {
            Some(act) => MicChoice::ByActivity(effort_for(&act, exctg_limit)),
            None => MicChoice::Default,
        }
    }

    /// How much effort the refinement over a short horizon is to take for an
    /// obligation. Without activities to go by it takes the default.
    pub fn get_drop_var_parameter(&self, peak: Option<Double>, exctg_limit: usize) -> (r: MicChoice)
        requires
            self.cfg.dynamic ==> (peak matches Some(act) ==> !act.is_nan()),
        ensures
            r == match peak {
                Some(act) if self.cfg.dynamic => MicChoice::ByActivity(effort(act, exctg_limit)),
                _ => MicChoice::Default,
            },
    {
        if !self.cfg.dynamic {
            return MicChoice::Default;
        }
        match peak {
            Some(act) => MicChoice::ByActivity(effort_for(&act, exctg_limit)),
            None => MicChoice::Default,
        }
    }
}

/// The effort for an obligation with the given peak activity.
fn effort_for(act: &Double, exctg_limit: usize) -> (r: DropVarParameter)
    requires
        !act.is_nan(),
    ensures
        r == effort(*act, exctg_limit),
{
    if Double::new(FORTY).le(act) {
        DropVarParameter { limit: exctg_limit, max: 5, level: 1 }
    } else if Double::new(TEN).le(act) {
        let max: usize = if Double::new(THIRTY).le(act) {
            4
        } else if Double::new(TWENTY).le(act) {
            3
        } else {
            2
        };
        DropVarParameter { limit: 1, max, level: 1 }
    } else {
        DropVarParameter { limit: 0, max: 0, level: 0 }
    }
}

/// A more active obligation never gets less effort, as long as the limit
/// beyond 40 is at least one.
pub proof fn law_effort_grows_with_activity(
    act: Double,
    limit: usize,
    higher: Double,
    higher_limit: usize,
)
    requires
        act.spec_le(higher),
        1 <= limit <= higher_limit,
    ensures
        effort(act, limit).limit <= effort(higher, higher_limit).limit,
        effort(act, limit).max <= effort(higher, higher_limit).max,
        effort(act, limit).level <= effort(higher, higher_limit).level,
{
}

/// The efforts of a minimisation and of a refinement for one obligation differ
/// in the limit alone, and that only from an activity of 40 on; there the one
/// with the lower limit is allowed no more than the other.
pub proof fn law_efforts_differ_in_the_limit_alone(act: Double, lower: usize, higher: usize)
    requires
        lower <= higher,
    ensures
        effort(act, lower).max == effort(act, higher).max,
        effort(act, lower).level == effort(act, higher).level,
        effort(act, lower).limit <= effort(act, higher).limit,
        !(Double { bits: FORTY }).spec_le(act) ==> effort(act, lower) == effort(act, higher),
        lower == higher ==> effort(act, lower) == effort(act, higher),
{
}

/// The peak is no less than any of the three activities.
pub proof fn law_peak_is_the_highest(next: Seq<Double>, i: int)
    requires
        0 <= i < next.len(),
        i < 3,
        forall|j: int| 0 <= j < next.len() ==> !(#[trigger] next[j]).is_nan(),
    ensures
        peak_activity(next) is Some,
        next[i].spec_le(peak_activity(next)->0),
{
}

/// What an attempt to drop a literal waits for.
#[derive(Clone, Copy, PartialEq, Eq, Structural, Debug)]
pub enum DownStage {
    /// Whether the cube meets the initial states.
    Init,
    /// Whether the cube is blocked.
    Blocked,
    /// The inductive core of the query that blocked it.
    Core,
    /// The value of the literal in hand in the counterexample.
    Value,
    /// Whether the counterexample can do without the literal in hand.
    Flip,
    /// Nothing: the attempt failed.
    Failed,
    /// Nothing: the cube is the result.
    Done,
}

/// An answer that an attempt waited for.
pub enum DownEvent {
    /// Whether the cube meets the initial states.
    Init(bool),
    /// Whether the cube is blocked.
    Blocked(bool),
    /// The inductive core, where the solver has one.
    Core(Option<Vec<Lit>>),
    /// The value of the literal in hand, where it has one.
    Value(Option<bool>),
    /// Whether the literal in hand was taken out of the counterexample.
    Flip(bool),
}

/// An attempt to block a cube, each failure of which shrinks the cube to the
/// literals that the counterexample needs.
pub struct DownRun {
    /// The cube that is tried.
    pub cube: Vec<Lit>,
    /// The literals of it that the counterexample needs, as far as it was
    /// looked through.
    pub shrunk: Vec<Lit>,
    /// The literal in hand.
    pub i: usize,
    pub stage: DownStage,
}

/// The mathematical view of an attempt.
#[verifier::ext_equal]
pub struct DownView {
    pub cube: Seq<Lit>,
    pub shrunk: Seq<Lit>,
    pub i: nat,
    pub stage: DownStage,
}

impl View for DownRun {
    type V = DownView;

    open spec fn view(&self) -> DownView {
        DownView {
            cube: self.cube@,
            shrunk: self.shrunk@,
            i: self.i as nat,
            stage: self.stage,
        }
    }
}

impl DownView {
    /// The attempt to block `cube`.
    pub open spec fn start(cube: Seq<Lit>) -> DownView {
        DownView { cube, shrunk: Seq::empty(), i: 0, stage: DownStage::Init }
    }

    /// The literal in hand is one of the cube's.
    pub open spec fn wf(self) -> bool {
        self.stage == DownStage::Value || self.stage == DownStage::Flip ==> self.i
            < self.cube.len()
    }

    /// The attempt waits for this answer.
    pub open spec fn accepts(self, event: DownEvent) -> bool {
        match event {
            DownEvent::Init(_) => self.stage == DownStage::Init,
            DownEvent::Blocked(_) => self.stage == DownStage::Blocked,
            DownEvent::Core(_) => self.stage == DownStage::Core,
            DownEvent::Value(_) => self.stage == DownStage::Value,
            DownEvent::Flip(_) => self.stage == DownStage::Flip,
        }
    }

    /// The attempt at the literal with number `i`, or, past the last, at the
    /// shrunken cube.
    pub open spec fn looking_at(self, shrunk: Seq<Lit>, i: nat) -> DownView {
        if i < self.cube.len() {
            DownView { shrunk, i, stage: DownStage::Value, ..self }
        } else {
            DownView { cube: shrunk, shrunk: Seq::empty(), i: 0, stage: DownStage::Init }
        }
    }

    /// The attempt after an answer. A cube that meets the initial states
    /// fails. A cube that is blocked succeeds with the core. Otherwise a
    /// literal that is to be kept must hold in the counterexample, and any
    /// other stays only where it holds and cannot be taken out.
    pub open spec fn after(self, keep: Set<u32>, event: DownEvent) -> DownView {
        match event {
            DownEvent::Init(true) => DownView { stage: DownStage::Failed, ..self },
            DownEvent::Init(false) => DownView { stage: DownStage::Blocked, ..self },
            DownEvent::Blocked(true) => DownView { stage: DownStage::Core, ..self },
            DownEvent::Blocked(false) => self.looking_at(Seq::empty(), 0),
            DownEvent::Core(None) => DownView { stage: DownStage::Failed, ..self },
            DownEvent::Core(Some(core)) => DownView {
                cube: core@,
                stage: DownStage::Done,
                ..self
            },
            DownEvent::Value(value) => {
                let lit = self.cube[self.i as int];
                if keep.contains(lit.code) {
                    if value == Some(true) {
                        self.looking_at(self.shrunk.push(lit), self.i + 1)
                    } else {
                        DownView { stage: DownStage::Failed, ..self }
                    }
                } else if value == Some(true) {
                    DownView { stage: DownStage::Flip, ..self }
                } else {
                    self.looking_at(self.shrunk, self.i + 1)
                }
            },
            DownEvent::Flip(true) => self.looking_at(self.shrunk, self.i + 1),
            DownEvent::Flip(false) => self.looking_at(
                self.shrunk.push(self.cube[self.i as int]),
                self.i + 1,
            ),
        }
    }
}

impl DownView {
    /// The attempt after a row of answers.
    pub open spec fn after_all(self, keep: Set<u32>, events: Seq<DownEvent>) -> DownView
        decreases events.len(),
    {
        if events.len() == 0 {
            self
        } else {
            self.after_all(keep, events.drop_last()).after(keep, events.last())
        }
    }

    /// Every answer of the row came when the attempt waited for it.
    pub open spec fn accepts_all(self, keep: Set<u32>, events: Seq<DownEvent>) -> bool
        decreases events.len(),
    {
        events.len() > 0 ==> {
            &&& self.accepts_all(keep, events.drop_last())
            &&& self.after_all(keep, events.drop_last()).accepts(events.last())
        }
    }
}

/// The counters after an answer: a cube that does not meet the initial states
/// leads to a solver query.
pub open spec fn counted_down(statistic: Statistic, event: DownEvent) -> Statistic {
    match event {
        DownEvent::Init(false) => Statistic {
            num_down_sat: bumped(statistic.num_down_sat),
            ..statistic
        },
        _ => statistic,
    }
}

impl DownRun {
    /// The literal in hand is one of the cube's.
    pub open spec fn wf(self) -> bool {
        self@.wf()
    }

    /// Starts an attempt to block `cube`.
    pub fn mt_down(cube: &Vec<Lit>, statistic: &mut Statistic) -> (r: DownRun)
        ensures
            r.wf(),
            r@ == DownView::start(cube@),
            r.cube@ == cube@,
            r.stage == DownStage::Init,
            *final(statistic) == (Statistic {
                num_down: bumped(old(statistic).num_down),
                ..*old(statistic)
            }),
    {
        statistic.num_down = bump(statistic.num_down);
        DownRun { cube: copy_cube(cube), shrunk: Vec::new(), i: 0, stage: DownStage::Init }
    }

    /// Whether the attempt waits for this answer.
    pub fn accepts(&self, event: &DownEvent) -> (r: bool)
        ensures
            r == self@.accepts(*event),
    {
        match event {
            DownEvent::Init(_) => self.stage == DownStage::Init,
            DownEvent::Blocked(_) => self.stage == DownStage::Blocked,
            DownEvent::Core(_) => self.stage == DownStage::Core,
            DownEvent::Value(_) => self.stage == DownStage::Value,
            DownEvent::Flip(_) => self.stage == DownStage::Flip,
        }
    }

    /// The literal in hand.
    pub fn lit(&self) -> (r: Lit)
        requires
            self.wf(),
            self.stage == DownStage::Value || self.stage == DownStage::Flip,
        ensures
            r == self@.cube[self@.i as int],
    {
        self.cube[self.i]
    }

    /// Goes on to the next literal, or to the shrunken cube.
    fn advance(&mut self)
        requires
            old(self).i < old(self).cube.len(),
        ensures
            final(self).wf(),
            final(self)@ == old(self)@.looking_at(old(self)@.shrunk, old(self)@.i + 1),
    {
        self.i = self.i + 1;
        self.settle();
    }

    /// Waits for the literal in hand, or, past the last, tries the shrunken
    /// cube.
    fn settle(&mut self)
        ensures
            final(self).wf(),
            final(self)@ == old(self)@.looking_at(old(self)@.shrunk, old(self)@.i),
    {
        if self.i < self.cube.len() {
            self.stage = DownStage::Value;
        } else {
            let mut shrunk: Vec<Lit> = Vec::new();
            std::mem::swap(&mut shrunk, &mut self.shrunk);
            self.cube = shrunk;
            self.i = 0;
            self.stage = DownStage::Init;
        }
    }

    /// Takes an answer. `keep` holds the codes of the literals that are to be
    /// kept.
    pub fn step(&mut self, keep: &CodeSet, statistic: &mut Statistic, event: DownEvent)
        requires
            old(self).wf(),
            old(self)@.accepts(event),
        ensures
            final(self).wf(),
            final(self)@ == old(self)@.after(members(*keep), event),
            *final(statistic) == counted_down(*old(statistic), event),
    {
        match event {
            DownEvent::Init(meets) => {
                if meets {
                    self.stage = DownStage::Failed;
                } else {
                    statistic.num_down_sat = bump(statistic.num_down_sat);
                    self.stage = DownStage::Blocked;
                }
            },
            DownEvent::Blocked(blocked) => {
                if blocked {
                    self.stage = DownStage::Core;
                } else {
                    self.shrunk = Vec::new();
                    self.i = 0;
                    self.settle();
                }
            },
            DownEvent::Core(core) => match core {
                Some(c) => {
                    self.cube = c;
                    self.stage = DownStage::Done;
                },
                None => {
                    self.stage = DownStage::Failed;
                },
            },
            DownEvent::Value(value) => {
                let lit = self.cube[self.i];
                let holds: bool = match value {
                    Some(v) => v,
                    None => false,
                };
                if set_contains(keep, lit.code) {
                    if holds {
                        self.shrunk.push(lit);
                        self.advance();
                    } else {
                        self.stage = DownStage::Failed;
                    }
                } else if holds {
                    self.stage = DownStage::Flip;
                } else {
                    self.advance();
                }
            },
            DownEvent::Flip(flipped) => {
                if !flipped {
                    let lit = self.cube[self.i];
                    self.shrunk.push(lit);
                }
                self.advance();
            },
        }
    }
}

/// `part` holds the literals of `whole` with the given numbers, in their
/// order.
pub open spec fn picks(part: Seq<Lit>, whole: Seq<Lit>, picked: Seq<int>) -> bool {
    &&& picked.len() == part.len()
    &&& forall|i: int|
        0 <= i < picked.len() ==> 0 <= #[trigger] picked[i] < whole.len() && part[i]
            == whole[picked[i]]
    &&& forall|i: int, j: int| 0 <= i < j < picked.len() ==> picked[i] < picked[j]
}

/// `part` is what is left of `whole` when some literals are left out.
pub open spec fn is_part(part: Seq<Lit>, whole: Seq<Lit>) -> bool {
    exists|picked: Seq<int>| #[trigger] picks(part, whole, picked)
}

/// One more literal of the whole may be picked, or left out.
proof fn lemma_part_grows(part: Seq<Lit>, whole: Seq<Lit>, k: int)
    requires
        0 <= k < whole.len(),
        is_part(part, whole.take(k)),
    ensures
        is_part(part, whole.take(k + 1)),
        is_part(part.push(whole[k]), whole.take(k + 1)),
{
    let before = whole.take(k);
    let after = whole.take(k + 1);
    let picked = choose|picked: Seq<int>| #[trigger] picks(part, before, picked);
    assert forall|i: int| 0 <= i < picked.len() implies 0 <= #[trigger] picked[i] < after.len()
        && part[i] == after[picked[i]] by {
        assert(before[picked[i]] == after[picked[i]]);
    }
    assert(picks(part, after, picked));
    let longer = picked.push(k);
    assert forall|i: int| 0 <= i < longer.len() implies 0 <= #[trigger] longer[i] < after.len()
        && part.push(whole[k])[i] == after[longer[i]] by {
        if i < picked.len() {
            assert(longer[i] == picked[i]);
        }
    }
    assert(picks(part.push(whole[k]), after, longer));
}

proof fn lemma_part_of_itself(whole: Seq<Lit>)
    ensures
        is_part(whole, whole),
{
    assert(picks(whole, whole, Seq::new(whole.len(), |i: int| i)));
}

/// A part of a part is a part.
proof fn lemma_part_of_part(small: Seq<Lit>, middle: Seq<Lit>, whole: Seq<Lit>)
    requires
        is_part(small, middle),
        is_part(middle, whole),
    ensures
        is_part(small, whole),
{
    let outer = choose|picked: Seq<int>| #[trigger] picks(middle, whole, picked);
    let inner = choose|picked: Seq<int>| #[trigger] picks(small, middle, picked);
    let both = Seq::new(inner.len(), |i: int| outer[inner[i]]);
    assert forall|i: int| 0 <= i < both.len() implies 0 <= #[trigger] both[i] < whole.len()
        && small[i] == whole[both[i]] by {
        assert(0 <= inner[i] < middle.len());
        assert(0 <= outer[inner[i]] < whole.len());
    }
    assert(picks(small, whole, both));
}

impl DownView {
    /// What the counterexample was found to need is part of what was looked
    /// through.
    spec fn shrinks(self) -> bool {
        (self.stage == DownStage::Value || self.stage == DownStage::Flip) ==> is_part(
            self.shrunk,
            self.cube.take(self.i as int),
        )
    }
}

proof fn lemma_looking_at_shrinks(view: DownView, shrunk: Seq<Lit>, i: nat)
    requires
        i <= view.cube.len(),
        is_part(shrunk, view.cube.take(i as int)),
    ensures
        view.looking_at(shrunk, i).shrinks(),
        i == view.cube.len() ==> is_part(view.looking_at(shrunk, i).cube, view.cube),
{
    assert(view.cube.take(view.cube.len() as int) == view.cube);
}

proof fn lemma_step_shrinks(view: DownView, keep: Set<u32>, event: DownEvent)
    requires
        view.wf(),
        view.shrinks(),
        view.accepts(event),
    ensures
        view.after(keep, event).wf(),
        view.after(keep, event).shrinks(),
        view.after(keep, event).stage != DownStage::Done ==> is_part(
            view.after(keep, event).cube,
            view.cube,
        ),
{
    lemma_part_of_itself(view.cube);
    match event {
        DownEvent::Blocked(false) => {
            assert(picks(Seq::<Lit>::empty(), view.cube.take(0), Seq::empty()));
            lemma_looking_at_shrinks(view, Seq::empty(), 0);
        },
        DownEvent::Value(_) | DownEvent::Flip(_) => {
            lemma_part_grows(view.shrunk, view.cube, view.i as int);
            lemma_looking_at_shrinks(view, view.shrunk, view.i + 1);
            lemma_looking_at_shrinks(
                view,
                view.shrunk.push(view.cube[view.i as int]),
                view.i + 1,
            );
        },
        _ => {},
    }
}

proof fn lemma_rows_shrink(cube: Seq<Lit>, keep: Set<u32>, events: Seq<DownEvent>)
    requires
        DownView::start(cube).accepts_all(keep, events),
    ensures
        DownView::start(cube).after_all(keep, events).wf(),
        DownView::start(cube).after_all(keep, events).shrinks(),
        DownView::start(cube).after_all(keep, events).stage != DownStage::Done ==> is_part(
            DownView::start(cube).after_all(keep, events).cube,
            cube,
        ),
    decreases events.len(),
{
    let start = DownView::start(cube);
    if events.len() == 0 {
        lemma_part_of_itself(cube);
    } else {
        let before = start.after_all(keep, events.drop_last());
        lemma_rows_shrink(cube, keep, events.drop_last());
        lemma_step_shrinks(before, keep, events.last());
        if start.after_all(keep, events).stage != DownStage::Done {
            lemma_part_of_part(start.after_all(keep, events).cube, before.cube, cube);
        }
    }
}

/// An attempt only ever leaves literals out: until a core is found, every
/// cube that it tries is part of the cube that it began with.
pub proof fn law_attempts_only_shrink(cube: Seq<Lit>, keep: Set<u32>, events: Seq<DownEvent>)
    requires
        DownView::start(cube).accepts_all(keep, events),
        DownView::start(cube).after_all(keep, events).stage != DownStage::Done,
    ensures
        is_part(DownView::start(cube).after_all(keep, events).cube, cube),
{
    lemma_rows_shrink(cube, keep, events);
}

/// An attempt succeeds only with the core of a cube that does not meet the
/// initial states and is blocked.
pub proof fn law_success_is_blocked_outside_the_initial_states(
    cube: Seq<Lit>,
    keep: Set<u32>,
    events: Seq<DownEvent>,
)
    requires
        DownView::start(cube).accepts_all(keep, events),
        DownView::start(cube).after_all(keep, events).stage == DownStage::Done,
    ensures
        ({
            let start = DownView::start(cube);
            let n = events.len() as int;
            let tried = start.after_all(keep, events.take(n - 3));
            &&& n >= 3
            &&& is_part(tried.cube, cube)
            &&& events[n - 3] == DownEvent::Init(false)
            &&& start.after_all(keep, events.take(n - 2)).cube == tried.cube
            &&& events[n - 2] == DownEvent::Blocked(true)
            &&& events[n - 1] matches DownEvent::Core(Some(core))
            &&& start.after_all(keep, events).cube == core@
        }),
{
    let start = DownView::start(cube);
    let n = events.len() as int;
    let e1 = events.drop_last();
    let e2 = e1.drop_last();
    let e3 = e2.drop_last();
    assert(start.accepts_all(keep, e1));
    assert(start.after_all(keep, e1).accepts(events.last()));
    assert(start.after_all(keep, e1).stage == DownStage::Core);
    assert(start.accepts_all(keep, e2));
    assert(start.after_all(keep, e2).accepts(e1.last()));
    assert(start.after_all(keep, e1) == start.after_all(keep, e2).after(keep, e1.last()));
    assert(start.after_all(keep, e2).stage == DownStage::Blocked);
    assert(start.accepts_all(keep, e3));
    assert(start.after_all(keep, e3).accepts(e2.last()));
    assert(start.after_all(keep, e2) == start.after_all(keep, e3).after(keep, e2.last()));
    lemma_rows_shrink(cube, keep, e3);
    assert(e2 =~= events.take(n - 2));
    assert(e3 =~= events.take(n - 3));
}

/// The cube that an attempt succeeds with has no new literal: where the core
/// that ends it has its literals among those of the cube that was tried, the
/// result has its literals among those of the cube that it began with.
pub proof fn law_successful_attempt_adds_nothing(
    cube: Seq<Lit>,
    keep: Set<u32>,
    events: Seq<DownEvent>,
)
    requires
        DownView::start(cube).accepts_all(keep, events),
        DownView::start(cube).after_all(keep, events).stage == DownStage::Done,
        events.last() matches DownEvent::Core(Some(core)) ==> literals_among(
            core@,
            DownView::start(cube).after_all(keep, events.drop_last()).cube,
        ),
    ensures
        literals_among(DownView::start(cube).after_all(keep, events).cube, cube),
{
    let start = DownView::start(cube);
    law_success_is_blocked_outside_the_initial_states(cube, keep, events);
    let front = events.drop_last();
    let tried = start.after_all(keep, front);
    assert(start.accepts_all(keep, front));
    lemma_rows_shrink(cube, keep, front);
    assert(start.after_all(keep, front).accepts(events.last()));
    lemma_part_is_among(tried.cube, cube);
}

/// Leaving literals out adds none.
proof fn lemma_part_is_among(part: Seq<Lit>, whole: Seq<Lit>)
    requires
        is_part(part, whole),
    ensures
        literals_among(part, whole),
{
    let picked = choose|picked: Seq<int>| #[trigger] picks(part, whole, picked);
    assert forall|l: Lit| #[trigger] part.contains(l) implies whole.contains(l) by {
        let i = choose|i: int| 0 <= i < part.len() && part[i] == l;
        assert(0 <= picked[i] < whole.len());
        assert(whole[picked[i]] == l);
    }
}

/// A literal that is to be kept is never left out: where the counterexample
/// can do without it, the attempt fails instead.
pub proof fn law_kept_literals_stay(view: DownView, keep: Set<u32>, value: Option<bool>)
    requires
        view.wf(),
        view.stage == DownStage::Value,
        keep.contains(view.cube[view.i as int].code),
    ensures
        ({
            let lit = view.cube[view.i as int];
            let next = view.after(keep, DownEvent::Value(value));
            if value == Some(true) {
                next == view.looking_at(view.shrunk.push(lit), view.i + 1)
            } else {
                next.stage == DownStage::Failed
            }
        }),
{
}

/// What a minimisation waits for.
#[derive(Clone, Copy, PartialEq, Eq, Structural, Debug)]
pub enum DropVarStage {
    /// The cube, sorted by activity.
    Sort,
    /// Whether the literal in hand can be dropped.
    Try,
    /// Nothing: the cube is minimal.
    Done,
}

/// An answer that a minimisation waited for.
pub enum DropVarEvent {
    /// The cube, sorted by activity.
    Sorted(Vec<Lit>),
    /// The blocked cube that came of dropping the literal in hand, if one did.
    Dropped(Option<Vec<Lit>>),
}

/// Minimising a cube by dropping one literal after the other.
pub struct DropVarRun {
    pub cube: Vec<Lit>,
    /// The codes of the literals that could not be dropped.
    pub keep: CodeSet,
    /// The literal in hand.
    pub i: usize,
    pub stage: DropVarStage,
}

/// The mathematical view of a minimisation.
#[verifier::ext_equal]
pub struct DropVarView {
    pub cube: Seq<Lit>,
    pub keep: Set<u32>,
    pub i: nat,
    pub stage: DropVarStage,
}

impl View for DropVarRun {
    type V = DropVarView;

    open spec fn view(&self) -> DropVarView {
        DropVarView {
            cube: self.cube@,
            keep: members(self.keep),
            i: self.i as nat,
            stage: self.stage,
        }
    }
}

/// The first literal from number `i` on that is not to be kept, or the length
/// of the cube.
pub open spec fn first_open(cube: Seq<Lit>, keep: Set<u32>, i: nat) -> nat
    decreases cube.len() - i,
{
    if i < cube.len() && keep.contains(cube[i as int].code) {
        first_open(cube, keep, i + 1)
    } else {
        i
    }
}

impl DropVarView {
    /// The minimisation of `cube`.
    pub open spec fn start(cube: Seq<Lit>) -> DropVarView {
        DropVarView { cube, keep: Set::empty(), i: 0, stage: DropVarStage::Sort }
    }

    /// The literal in hand is one of the cube's.
    pub open spec fn wf(self) -> bool {
        &&& self.i <= self.cube.len()
        &&& self.stage == DropVarStage::Try ==> self.i < self.cube.len()
    }

    /// The minimisation waits for this answer.
    pub open spec fn accepts(self, event: DropVarEvent) -> bool {
        match event {
            DropVarEvent::Sorted(_) => self.stage == DropVarStage::Sort,
            DropVarEvent::Dropped(_) => self.stage == DropVarStage::Try,
        }
    }

    /// The minimisation at the first literal from number `i` on that is not
    /// to be kept; past the last it has ended.
    pub open spec fn trying(self, i: nat) -> DropVarView {
        let open = first_open(self.cube, self.keep, i);
        DropVarView {
            i: open,
            stage: if open < self.cube.len() {
                DropVarStage::Try
            } else {
                DropVarStage::Done
            },
            ..self
        }
    }

    /// The minimisation after an answer. A literal that can be dropped starts
    /// it over with the smaller cube; one that cannot is kept for good.
    pub open spec fn after(self, event: DropVarEvent) -> DropVarView {
        match event {
            DropVarEvent::Sorted(cube) => DropVarView { cube: cube@, ..self }.trying(0),
            DropVarEvent::Dropped(Some(cube)) => DropVarView {
                cube: cube@,
                i: 0,
                stage: DropVarStage::Sort,
                ..self
            },
            DropVarEvent::Dropped(None) => DropVarView {
                keep: self.keep.insert(self.cube[self.i as int].code),
                ..self
            }.trying(self.i + 1),
        }
    }

    /// The minimisation after a row of answers.
    pub open spec fn after_all(self, events: Seq<DropVarEvent>) -> DropVarView
        decreases events.len(),
    {
        if events.len() == 0 {
            self
        } else {
            self.after_all(events.drop_last()).after(events.last())
        }
    }

    /// Every answer of the row came when the minimisation waited for it.
    pub open spec fn accepts_all(self, events: Seq<DropVarEvent>) -> bool
        decreases events.len(),
    {
        events.len() > 0 ==> {
            &&& self.accepts_all(events.drop_last())
            &&& self.after_all(events.drop_last()).accepts(events.last())
        }
    }

    /// Every literal before the one in hand could not be dropped.
    spec fn passed_are_kept(self) -> bool {
        forall|j: int| 0 <= j < self.i ==> self.keep.contains((#[trigger] self.cube[j]).code)
    }
}

impl DropVarRun {
    /// The literal in hand is one of the cube's.
    pub open spec fn wf(self) -> bool {
        self@.wf()
    }

    /// Starts minimising `cube`; with `no_mic` it stays as it is.
    pub fn mt_mic(cube: Vec<Lit>, no_mic: bool, statistic: &mut Statistic) -> (r: DropVarRun)
        ensures
            r.wf(),
            r.cube@ == cube@,
            no_mic <==> r.stage == DropVarStage::Done,
            no_mic ==> r@ == (DropVarView {
                stage: DropVarStage::Done,
                ..DropVarView::start(cube@)
            }) && *final(statistic) == *old(statistic),
            !no_mic ==> r@ == DropVarView::start(cube@) && *final(statistic) == (Statistic {
                num_mic: bumped(old(statistic).num_mic),
                ..*old(statistic)
            }),
    {
        if no_mic {
            return DropVarRun { cube, keep: empty_set(), i: 0, stage: DropVarStage::Done };
        }
        statistic.num_mic = bump(statistic.num_mic);
        DropVarRun { cube, keep: empty_set(), i: 0, stage: DropVarStage::Sort }
    }

    /// Whether the minimisation waits for this answer.
    pub fn accepts(&self, event: &DropVarEvent) -> (r: bool)
        ensures
            r == self@.accepts(*event),
    {
        match event {
            DropVarEvent::Sorted(_) => self.stage == DropVarStage::Sort,
            DropVarEvent::Dropped(_) => self.stage == DropVarStage::Try,
        }
    }

    /// The cube without the literal in hand.
    pub fn candidate(&self) -> (r: Vec<Lit>)
        requires
            self.wf(),
            self.stage == DropVarStage::Try,
        ensures
            r@ == self@.cube.remove(self@.i as int),
    {
        let mut r = copy_cube(&self.cube);
        let _ = r.remove(self.i);
        r
    }

    /// Passes over the literals that are to be kept.
    fn settle(&mut self)
        requires
            old(self).i <= old(self).cube.len(),
        ensures
            final(self).wf(),
            final(self)@ == old(self)@.trying(old(self)@.i),
    {
        let ghost start = self@;
        while self.i < self.cube.len() && set_contains(&self.keep, self.cube[self.i].code)
            invariant
                self.i <= self.cube.len(),
                self@ == (DropVarView { i: self@.i, ..start }),
                first_open(start.cube, start.keep, start.i) == first_open(
                    start.cube,
                    start.keep,
                    self@.i,
                ),
            decreases self.cube.len() - self.i,
        {
            self.i = self.i + 1;
        }
        if self.i < self.cube.len() {
            self.stage = DropVarStage::Try;
        } else {
            self.stage = DropVarStage::Done;
        }
    }

    /// Takes an answer, and counts the literal that was tried.
    pub fn step(&mut self, statistic: &mut Statistic, event: DropVarEvent)
        requires
            old(self).wf(),
            old(self)@.accepts(event),
        ensures
            final(self).wf(),
            final(self)@ == old(self)@.after(event),
            final(statistic).mic_drop@ == tallied(old(statistic).mic_drop@, event),
            *final(statistic) == (Statistic {
                mic_drop: final(statistic).mic_drop,
                ..*old(statistic)
            }),
    {
        match event {
            DropVarEvent::Sorted(cube) => {
                self.cube = cube;
                self.i = 0;
                self.settle();
            },
            DropVarEvent::Dropped(dropped) => match dropped {
                Some(cube) => {
                    statistic.mic_drop.count(true);
                    self.cube = cube;
                    self.i = 0;
                    self.stage = DropVarStage::Sort;
                },
                None => {
                    statistic.mic_drop.count(false);
                    assert(self.i < self.cube.len());
                    let code: u32 = self.cube[self.i].code;
                    let _ = set_insert(&mut self.keep, code);
                    self.i = self.i + 1;
                    self.settle();
                },
            },
        }
    }
}

/// The tally after an answer: a literal that could be dropped is one success,
/// one that could not is one failure.
pub open spec fn tallied(tally: DropTallyView, event: DropVarEvent) -> DropTallyView {
    match event {
        DropVarEvent::Sorted(_) => tally,
        DropVarEvent::Dropped(dropped) => tally.counted(dropped is Some),
    }
}

proof fn lemma_first_open(cube: Seq<Lit>, keep: Set<u32>, i: nat)
    requires
        i <= cube.len(),
    ensures
        i <= first_open(cube, keep, i) <= cube.len(),
        forall|j: int|
            i <= j < first_open(cube, keep, i) ==> keep.contains((#[trigger] cube[j]).code),
        first_open(cube, keep, i) < cube.len() ==> !keep.contains(
            cube[first_open(cube, keep, i) as int].code,
        ),
    decreases cube.len() - i,
{
    if i < cube.len() && keep.contains(cube[i as int].code) {
        lemma_first_open(cube, keep, i + 1);
    }
}

proof fn lemma_passed_are_kept(view: DropVarView, event: DropVarEvent)
    requires
        view.wf(),
        view.passed_are_kept(),
        view.accepts(event),
    ensures
        view.after(event).wf(),
        view.after(event).passed_are_kept(),
        view.after(event).stage == DropVarStage::Done ==> view.after(event).i == view.after(
            event,
        ).cube.len(),
        view.after(event).stage == DropVarStage::Try ==> !view.after(event).keep.contains(
            view.after(event).cube[view.after(event).i as int].code,
        ),
{
    match event {
        DropVarEvent::Sorted(cube) => lemma_first_open(cube@, view.keep, 0),
        DropVarEvent::Dropped(None) => {
            lemma_first_open(
                view.cube,
                view.keep.insert(view.cube[view.i as int].code),
                view.i + 1,
            );
        },
        _ => {},
    }
}

/// The literal with the given code was tried with answer number `k` of the
/// row, and could not be dropped.
pub open spec fn refused_at(
    start: DropVarView,
    events: Seq<DropVarEvent>,
    code: u32,
    k: int,
) -> bool {
    let before = start.after_all(events.take(k));
    &&& events[k] == DropVarEvent::Dropped(None)
    &&& before.cube[before.i as int].code == code
}

/// A minimisation ends only when every literal that is left was tried and
/// could not be dropped; a literal that was refused once is not tried again.
pub proof fn law_minimisation_tries_every_literal(cube: Seq<Lit>, events: Seq<DropVarEvent>)
    requires
        DropVarView::start(cube).accepts_all(events),
    ensures
        ({
            let start = DropVarView::start(cube);
            let end = start.after_all(events);
            &&& forall|code: u32| #[trigger]
                end.keep.contains(code) <==> exists|k: int|
                    0 <= k < events.len() && #[trigger] refused_at(start, events, code, k)
            &&& end.stage == DropVarStage::Done ==> forall|j: int|
                0 <= j < end.cube.len() ==> end.keep.contains((#[trigger] end.cube[j]).code)
            &&& end.stage == DropVarStage::Try ==> !end.keep.contains(
                end.cube[end.i as int].code,
            )
        }),
{
    let start = DropVarView::start(cube);
    lemma_rows_keep(cube, events);
    lemma_kept_are_refused(start, events);
}

proof fn lemma_rows_keep(cube: Seq<Lit>, events: Seq<DropVarEvent>)
    requires
        DropVarView::start(cube).accepts_all(events),
    ensures
        ({
            let end = DropVarView::start(cube).after_all(events);
            &&& end.wf()
            &&& end.passed_are_kept()
            &&& end.stage == DropVarStage::Done ==> end.i == end.cube.len()
            &&& end.stage == DropVarStage::Try ==> !end.keep.contains(
                end.cube[end.i as int].code,
            )
        }),
    decreases events.len(),
{
    if events.len() > 0 {
        lemma_rows_keep(cube, events.drop_last());
        lemma_passed_are_kept(
            DropVarView::start(cube).after_all(events.drop_last()),
            events.last(),
        );
    }
}

proof fn lemma_kept_are_refused(start: DropVarView, events: Seq<DropVarEvent>)
    requires
        start.keep == Set::<u32>::empty(),
    ensures
        forall|code: u32| #[trigger]
            start.after_all(events).keep.contains(code) <==> exists|k: int|
                0 <= k < events.len() && #[trigger] refused_at(start, events, code, k),
    decreases events.len(),
{
    if events.len() > 0 {
        let front = events.drop_last();
        let before = start.after_all(front);
        let last = events.len() - 1;
        lemma_kept_are_refused(start, front);
        assert(front =~= events.take(last));
        assert forall|code: u32| #[trigger]
            start.after_all(events).keep.contains(code) <==> exists|k: int|
                0 <= k < events.len() && #[trigger] refused_at(start, events, code, k) by {
            assert forall|k: int| 0 <= k < last implies refused_at(start, events, code, k)
                == refused_at(start, front, code, k) by {
                assert(front.take(k) =~= events.take(k));
                assert(front[k] == events[k]);
            }
            if before.keep.contains(code) {
                let k = choose|k: int|
                    0 <= k < front.len() && #[trigger] refused_at(start, front, code, k);
                assert(refused_at(start, events, code, k));
            }
            if start.after_all(events).keep.contains(code) && !before.keep.contains(code) {
                assert(refused_at(start, events, code, last));
            }
            if exists|k: int|
                0 <= k < events.len() && #[trigger] refused_at(start, events, code, k) {
                let k = choose|k: int|
                    0 <= k < events.len() && #[trigger] refused_at(start, events, code, k);
                if k < last {
                    assert(refused_at(start, front, code, k));
                }
            }
        }
    }
}

/// The cube that comes with an answer, where one does, has no literal that
/// the cube in hand does not have.
pub open spec fn answer_adds_nothing(view: DropVarView, event: DropVarEvent) -> bool {
    match event {
        DropVarEvent::Sorted(cube) => literals_among(cube@, view.cube),
        DropVarEvent::Dropped(Some(cube)) => literals_among(cube@, view.cube),
        DropVarEvent::Dropped(None) => true,
    }
}

/// A minimisation only ever shrinks the cube: where no answer adds a literal,
/// what is left has its literals among those of the cube that it began with.
pub proof fn law_minimisation_only_shrinks(cube: Seq<Lit>, events: Seq<DropVarEvent>)
    requires
        forall|k: int|
            0 <= k < events.len() ==> answer_adds_nothing(
                DropVarView::start(cube).after_all(events.take(k)),
                #[trigger] events[k],
            ),
    ensures
        literals_among(DropVarView::start(cube).after_all(events).cube, cube),
    decreases events.len(),
{
    let start = DropVarView::start(cube);
    if events.len() > 0 {
        let front = events.drop_last();
        let last = events.len() - 1;
        assert forall|k: int| 0 <= k < front.len() implies answer_adds_nothing(
            start.after_all(front.take(k)),
            #[trigger] front[k],
        ) by {
            assert(front.take(k) =~= events.take(k));
            assert(front[k] == events[k]);
        }
        law_minimisation_only_shrinks(cube, front);
        assert(events.take(last) =~= front);
        assert(events.last() == events[last]);
        assert(answer_adds_nothing(start.after_all(front), events[last]));
    }
}

/// What comes of dropping the literal in hand adds nothing to the cube: the
/// attempt begins with the cube without that literal, and where the core that
/// ends it has its literals among those of the cube that was tried, its result
/// is an answer that adds nothing.
pub proof fn law_dropping_adds_nothing(
    view: DropVarView,
    events: Seq<DownEvent>,
    dropped: Vec<Lit>,
)
    requires
        view.wf(),
        view.stage == DropVarStage::Try,
        ({
            let start = DownView::start(view.cube.remove(view.i as int));
            &&& start.accepts_all(view.keep, events)
            &&& start.after_all(view.keep, events).stage == DownStage::Done
            &&& start.after_all(view.keep, events).cube == dropped@
            &&& events.last() matches DownEvent::Core(Some(core)) ==> literals_among(
                core@,
                start.after_all(view.keep, events.drop_last()).cube,
            )
        }),
    ensures
        answer_adds_nothing(view, DropVarEvent::Dropped(Some(dropped))),
{
    let candidate = view.cube.remove(view.i as int);
    law_successful_attempt_adds_nothing(candidate, view.keep, events);
    assert forall|l: Lit| #[trigger] dropped@.contains(l) implies view.cube.contains(l) by {
        assert(candidate.contains(l));
        let k = choose|k: int| 0 <= k < candidate.len() && candidate[k] == l;
        if k < view.i {
            assert(view.cube[k] == l);
        } else {
            assert(view.cube[k + 1] == l);
        }
    }
}

/// Sorting keeps the length, and dropping a literal makes the cube shorter.
pub open spec fn answer_is_plausible(view: DropVarView, event: DropVarEvent) -> bool {
    match event {
        DropVarEvent::Sorted(cube) => cube@.len() == view.cube.len(),
        DropVarEvent::Dropped(Some(cube)) => cube@.len() < view.cube.len(),
        DropVarEvent::Dropped(None) => true,
    }
}

/// Every minimisation ends: with each answer either the cube gets shorter, or
/// fewer literals of it are left to try, or only the sorting is over.
pub proof fn law_minimisation_ends(view: DropVarView, event: DropVarEvent)
    requires
        view.wf(),
        view.accepts(event),
        view.stage == DropVarStage::Sort ==> view.i == 0,
        answer_is_plausible(view, event),
    ensures
        ({
            let next = view.after(event);
            let left = view.cube.len() - view.i;
            let next_left = next.cube.len() - next.i;
            &&& next.stage == DropVarStage::Sort ==> next.i == 0
            &&& next.cube.len() <= view.cube.len()
            &&& next.cube.len() == view.cube.len() ==> next_left <= left
            &&& next.cube.len() == view.cube.len() && next_left == left ==> view.stage
                == DropVarStage::Sort && next.stage != DropVarStage::Sort
        }),
{
    match event {
        DropVarEvent::Sorted(cube) => lemma_first_open(cube@, view.keep, 0),
        DropVarEvent::Dropped(None) => {
            lemma_first_open(
                view.cube,
                view.keep.insert(view.cube[view.i as int].code),
                view.i + 1,
            );
        },
        _ => {},
    }
}

/// The effort in steps: counterexamples count from an activity of 10 on, one
/// more of them per literal with each further 10 up to 30, and from 40 on five
/// of them and a limit of their own.
pub proof fn law_effort_rises_in_steps(act: Double, exctg_limit: usize)
    requires
        !act.is_nan(),
    ensures
        ({
            let p = effort(act, exctg_limit);
            &&& p.max <= 5 && p.max != 1
            &&& p.max >= 2 <==> (Double { bits: TEN }).spec_le(act)
            &&& p.max >= 3 <==> (Double { bits: TWENTY }).spec_le(act)
            &&& p.max >= 4 <==> (Double { bits: THIRTY }).spec_le(act)
            &&& p.max >= 5 <==> (Double { bits: FORTY }).spec_le(act)
            &&& p.level == 1 <==> (Double { bits: TEN }).spec_le(act)
            &&& p.level <= 1
            &&& (Double { bits: FORTY }).spec_le(act) ==> p.limit == exctg_limit
            &&& act.spec_lt(Double { bits: FORTY }) && (Double { bits: TEN }).spec_le(act)
                ==> p.limit == 1
            &&& act.spec_lt(Double { bits: TEN }) ==> p.limit == 0
        }),
{
}

/// The peak is one of the first three activities, and the others do not count.
pub proof fn law_peak_is_of_the_first_three(next: Seq<Double>)
    ensures
        next.len() == 0 <==> peak_activity(next) is None,
        next.len() > 0 ==> {
            let peak = peak_activity(next)->0;
            ||| peak == next[0]
            ||| next.len() > 1 && peak == next[1]
            ||| next.len() > 2 && peak == next[2]
        },
        next.len() > 3 ==> peak_activity(next) == peak_activity(next.take(3)),
{
}

/// A cube that meets the initial states fails an attempt, whatever it is; any
/// other is asked about. A blocked cube succeeds with its core and fails
/// without one.
pub proof fn law_attempt_goes_by_the_answers(
    view: DownView,
    keep: Set<u32>,
    answer: bool,
    core: Option<Vec<Lit>>,
)
    ensures
        view.stage == DownStage::Init ==> {
            let next = view.after(keep, DownEvent::Init(answer));
            &&& view.accepts(DownEvent::Init(answer))
            &&& next.cube == view.cube
            &&& answer <==> next.stage == DownStage::Failed
            &&& !answer <==> next.stage == DownStage::Blocked
        },
        view.stage == DownStage::Blocked ==> {
            let next = view.after(keep, DownEvent::Blocked(answer));
            &&& view.accepts(DownEvent::Blocked(answer))
            &&& answer ==> next.stage == DownStage::Core && next.cube == view.cube
            &&& !answer && view.cube.len() > 0 ==> next.stage == DownStage::Value && next.i == 0
                && next.shrunk.len() == 0 && next.cube == view.cube
            &&& !answer && view.cube.len() == 0 ==> next.stage == DownStage::Init
                && next.cube.len() == 0
        },
        view.stage == DownStage::Core ==> {
            let next = view.after(keep, DownEvent::Core(core));
            &&& view.accepts(DownEvent::Core(core))
            &&& core is None <==> next.stage == DownStage::Failed
            &&& core is Some <==> next.stage == DownStage::Done
            &&& core matches Some(c) ==> next.cube == c@
        },
{
}

/// A literal stays exactly where it holds in the counterexample and is either
/// to be kept or cannot be taken out; a literal to be kept that does not hold
/// fails the attempt. The literals are looked at in turn, and after the last
/// one the attempt goes on with those that stayed.
pub proof fn law_literal_stays_where_it_is_needed(
    view: DownView,
    keep: Set<u32>,
    value: Option<bool>,
    taken_out: bool,
)
    requires
        view.wf(),
    ensures
        view.stage == DownStage::Value ==> {
            let lit = view.cube[view.i as int];
            let next = view.after(keep, DownEvent::Value(value));
            &&& view.accepts(DownEvent::Value(value))
            &&& keep.contains(lit.code) && value != Some(true) <==> next.stage == DownStage::Failed
            &&& !keep.contains(lit.code) && value == Some(true) <==> next.stage == DownStage::Flip
            &&& next.stage == DownStage::Flip ==> next.cube == view.cube && next.i == view.i
                && next.shrunk == view.shrunk
            &&& keep.contains(lit.code) && value == Some(true) ==> moved_on(
                view,
                view.shrunk.push(lit),
                next,
            )
            &&& !keep.contains(lit.code) && value != Some(true) ==> moved_on(
                view,
                view.shrunk,
                next,
            )
        },
        view.stage == DownStage::Flip ==> {
            let lit = view.cube[view.i as int];
            let next = view.after(keep, DownEvent::Flip(taken_out));
            &&& view.accepts(DownEvent::Flip(taken_out))
            &&& taken_out ==> moved_on(view, view.shrunk, next)
            &&& !taken_out ==> moved_on(view, view.shrunk.push(lit), next)
        },
{
}

/// `next` has gone past the literal in hand of `view` with the given literals
/// left: to the next literal of the same cube, or, past the last, to the cube
/// of what is left.
pub open spec fn moved_on(view: DownView, left: Seq<Lit>, next: DownView) -> bool {
    &&& view.i + 1 < view.cube.len() ==> next.stage == DownStage::Value && next.i == view.i + 1
        && next.cube == view.cube && next.shrunk == left
    &&& view.i + 1 >= view.cube.len() ==> next.stage == DownStage::Init && next.cube == left
}

/// An attempt begins with its cube and the question about the initial states,
/// and waits for nothing once it has ended.
pub proof fn law_attempt_begins_with_its_cube(cube: Seq<Lit>, view: DownView, event: DownEvent)
    ensures
        DownView::start(cube).cube == cube,
        DownView::start(cube).stage == DownStage::Init,
        view.stage == DownStage::Failed || view.stage == DownStage::Done ==> !view.accepts(event),
        view.accepts(event) ==> {
            &&& event is Init <==> view.stage == DownStage::Init
            &&& event is Blocked <==> view.stage == DownStage::Blocked
            &&& event is Core <==> view.stage == DownStage::Core
            &&& event is Value <==> view.stage == DownStage::Value
            &&& event is Flip <==> view.stage == DownStage::Flip
        },
{
}

/// Only a cube that does not meet the initial states is counted as a query.
pub proof fn law_queries_are_counted(statistic: Statistic, event: DownEvent)
    ensures
        ({
            let after = counted_down(statistic, event);
            &&& event == DownEvent::Init(false) && statistic.num_down_sat < usize::MAX
                ==> after.num_down_sat == statistic.num_down_sat + 1
            &&& event != DownEvent::Init(false) ==> after.num_down_sat == statistic.num_down_sat
            &&& after.num_mic == statistic.num_mic && after.num_down == statistic.num_down
            &&& after.mic_drop == statistic.mic_drop && after.mt == statistic.mt
            &&& after.num_auxiliary_var == statistic.num_auxiliary_var
        }),
{
}

/// A literal that can be dropped starts the minimisation over with the smaller
/// cube, and what was refused before stays refused; one that cannot is refused
/// for good, and the cube stays.
pub proof fn law_minimisation_goes_by_the_answers(view: DropVarView, cube: Vec<Lit>)
    requires
        view.wf(),
    ensures
        view.stage == DropVarStage::Try ==> {
            let smaller = view.after(DropVarEvent::Dropped(Some(cube)));
            let refused = view.after(DropVarEvent::Dropped(None));
            let code = view.cube[view.i as int].code;
            &&& view.accepts(DropVarEvent::Dropped(Some(cube)))
            &&& view.accepts(DropVarEvent::Dropped(None))
            &&& smaller.cube == cube@ && smaller.keep == view.keep
            &&& smaller.stage == DropVarStage::Sort
            &&& refused.cube == view.cube
            &&& forall|c: u32| #[trigger]
                refused.keep.contains(c) <==> view.keep.contains(c) || c == code
            &&& refused.i > view.i && at_first_open(refused, view.i + 1)
        },
        view.stage == DropVarStage::Sort ==> {
            let sorted = view.after(DropVarEvent::Sorted(cube));
            &&& view.accepts(DropVarEvent::Sorted(cube))
            &&& sorted.cube == cube@ && sorted.keep == view.keep
            &&& at_first_open(sorted, 0)
        },
        view.stage == DropVarStage::Done ==> !view.accepts(DropVarEvent::Sorted(cube))
            && !view.accepts(DropVarEvent::Dropped(None)) && !view.accepts(
            DropVarEvent::Dropped(Some(cube)),
        ),
{
    if view.stage == DropVarStage::Try {
        lemma_first_open(
            view.cube,
            view.keep.insert(view.cube[view.i as int].code),
            view.i + 1,
        );
    }
    lemma_first_open(cube@, view.keep, 0);
}

/// The minimisation is at the first literal from number `from` on that was not
/// refused, and has ended where there is none.
pub open spec fn at_first_open(view: DropVarView, from: nat) -> bool {
    &&& from <= view.i <= view.cube.len()
    &&& forall|j: int| from <= j < view.i ==> view.keep.contains((#[trigger] view.cube[j]).code)
    &&& view.i < view.cube.len() <==> view.stage == DropVarStage::Try
    &&& view.i == view.cube.len() <==> view.stage == DropVarStage::Done
    &&& view.i < view.cube.len() ==> !view.keep.contains(view.cube[view.i as int].code)
}

/// A minimisation begins with its cube, nothing refused, and the sorting.
pub proof fn law_minimisation_begins_with_its_cube(cube: Seq<Lit>)
    ensures
        DropVarView::start(cube).cube == cube,
        DropVarView::start(cube).keep == Set::<u32>::empty(),
        DropVarView::start(cube).i == 0,
        DropVarView::start(cube).stage == DropVarStage::Sort,
{
}

/// Each literal that was tried is tallied once, as dropped or as refused, and
/// sorting is not.
pub proof fn law_tries_are_tallied(tally: DropTallyView, event: DropVarEvent)
    requires
        tally.dropped + tally.refused < usize::MAX,
    ensures
        ({
            let after = tallied(tally, event);
            match event {
                DropVarEvent::Sorted(_) => after == tally,
                DropVarEvent::Dropped(Some(_)) => after.dropped == tally.dropped + 1
                    && after.refused == tally.refused,
                DropVarEvent::Dropped(None) => after.dropped == tally.dropped && after.refused
                    == tally.refused + 1,
            }
        }),
{
}

} // verus!
