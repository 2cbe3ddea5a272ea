//! Predecessors over several timeframes: which latches matter for reaching
//! the target, and how few of them do.

use vstd::prelude::*;

use crate::code_set::{empty_set, members, set_contains, set_insert, CodeSet};
use crate::ic3::{assigned, assigned_lits, packable, positive, IC3};
use crate::lit::{copy_cube, negate_cube, negation, Lit};
use crate::rng::{position_of, seed_of, shuffled};
use crate::unroll::{contents, inputs_at};

verus! {

/// The variables of `cube`.
pub open spec fn vars_of(cube: Seq<Lit>) -> Set<u32> {
    cube.map_values(|l: Lit| l.spec_var()).to_set()
}

/// Collects the variables of a cube.
fn collect_vars(cube: &Vec<Lit>) -> (r: CodeSet)
    ensures
        members(r) == vars_of(cube@),
{
    let mut r = empty_set();
    assert(vars_of(cube@.take(0)) =~= Set::<u32>::empty());
    for i in 0..cube.len()
        invariant
            members(r) == vars_of(cube@.take(i as int)),
    {
        proof {
            lemma_vars_of_push(cube@.take(i as int), cube@[i as int]);
            assert(cube@.take(i + 1) == cube@.take(i as int).push(cube@[i as int]));
        }
        let _ = set_insert(&mut r, cube[i].var());
    }
    assert(cube@.take(cube.len() as int) == cube@);
    r
}

proof fn lemma_vars_of_push(cube: Seq<Lit>, l: Lit)
    ensures
        vars_of(cube.push(l)) == vars_of(cube).insert(l.spec_var()),
{
    let before = cube.map_values(|l: Lit| l.spec_var());
    let after = cube.push(l).map_values(|l: Lit| l.spec_var());
    assert(after =~= before.push(l.spec_var()));
    assert forall|v: u32| vars_of(cube.push(l)).contains(v) == vars_of(cube).insert(
        l.spec_var(),
    ).contains(v) by {
        if before.contains(v) {
            let i = choose|i: int| 0 <= i < before.len() && before[i] == v;
            assert(after[i] == v);
        }
        assert(after[before.len() as int] == l.spec_var());
        if after.contains(v) && v != l.spec_var() {
            let i = choose|i: int| 0 <= i < after.len() && after[i] == v;
            assert(before[i] == v);
        }
    }
    assert(vars_of(cube.push(l)) =~= vars_of(cube).insert(l.spec_var()));
}

/// What the search for a predecessor waits for.
#[derive(Clone, Copy, PartialEq, Eq, Structural, Debug)]
pub enum PredStage {
    /// The values of the latches and the inputs at all timeframes.
    Model,
    /// Whether the latch in hand is in the domain of the target.
    Domain,
    /// The value of the latch in hand.
    Value,
    /// Whether the value of the latch in hand could be taken back.
    Flip,
    /// A minimal premise among the chosen literals.
    Premise,
    /// Nothing: the predecessor is found.
    Done,
}

/// An answer that the search for a predecessor waited for.
pub enum PredEvent {
    /// The values of the system's latches at each timeframe after the first,
    /// and the values of the unrolled system's inputs.
    Model { latches: Vec<Vec<Option<bool>>>, inputs: Vec<Option<bool>> },
    /// Whether the latch is in the domain of the target.
    Domain(bool),
    /// The value of the latch, where it has one.
    Value(Option<bool>),
    /// Whether the value could be taken back.
    Flip(bool),
    /// The literals that are enough to reach the target.
    Premise(Vec<Lit>),
}

/// The variables of the system and of the unrolled system.
pub struct Signals {
    /// The latches of the system.
    pub latches: Vec<u32>,
    /// The inputs of the system.
    pub inputs: Vec<u32>,
    /// The latches of the unrolled system.
    pub unrolled_latches: Vec<u32>,
    /// The inputs of the unrolled system, one timeframe after the other.
    pub unrolled_inputs: Vec<u32>,
    /// The number of timeframes.
    pub timeframes: usize,
}

/// The mathematical view of the variables.
#[verifier::ext_equal]
pub struct SignalsView {
    pub latches: Seq<u32>,
    pub inputs: Seq<u32>,
    pub unrolled_latches: Seq<u32>,
    pub unrolled_inputs: Seq<u32>,
    pub timeframes: nat,
}

impl View for Signals {
    type V = SignalsView;

    open spec fn view(&self) -> SignalsView {
        SignalsView {
            latches: self.latches@,
            inputs: self.inputs@,
            unrolled_latches: self.unrolled_latches@,
            unrolled_inputs: self.unrolled_inputs@,
            timeframes: self.timeframes as nat,
        }
    }
}

impl SignalsView {
    /// All variables can be packed into literals.
    pub open spec fn wf(self) -> bool {
        &&& packable(self.latches)
        &&& packable(self.inputs)
        &&& packable(self.unrolled_latches)
        &&& packable(self.unrolled_inputs)
    }

    /// There is a value, or the lack of one, for each latch at each timeframe
    /// after the first and for each input. Without inputs none has a value.
    pub open spec fn fits(
        self,
        latches: Seq<Vec<Option<bool>>>,
        inputs: Seq<Option<bool>>,
    ) -> bool {
        &&& latches.len() + 1 == self.timeframes
        &&& forall|j: int|
            0 <= j < latches.len() ==> (#[trigger] latches[j])@.len() == self.latches.len()
        &&& inputs.len() == self.unrolled_inputs.len()
        &&& self.inputs.len() > 0 || forall|i: int|
            0 <= i < inputs.len() ==> (#[trigger] inputs[i]) is None
    }
}

/// The search for a predecessor.
pub struct PredRun {
    pub signals: Signals,
    /// The states at the timeframes after the first, in the variables of the
    /// system.
    pub mid_states: Vec<Vec<Lit>>,
    /// The inputs of each timeframe, in the variables of the system.
    pub inputs: Vec<Vec<Lit>>,
    /// The inputs of all timeframes, in the variables of the unrolled system.
    pub all_inputs: Vec<Lit>,
    /// The negation of the target: what must be excluded for the literals to
    /// be enough.
    pub target: Vec<Lit>,
    /// The variables of the target.
    pub in_target: CodeSet,
    /// The latch in hand.
    pub i: usize,
    /// The value of the latch in hand.
    pub value: bool,
    /// The literals chosen so far.
    pub cube: Vec<Lit>,
    /// Whether to look for a minimal premise until nothing is gained.
    pub strengthen: bool,
    pub stage: PredStage,
}

/// The mathematical view of the search for a predecessor.
#[verifier::ext_equal]
pub struct PredView {
    pub signals: SignalsView,
    pub mid_states: Seq<Seq<Lit>>,
    pub inputs: Seq<Seq<Lit>>,
    pub all_inputs: Seq<Lit>,
    pub target: Seq<Lit>,
    pub in_target: Set<u32>,
    pub i: nat,
    pub value: bool,
    pub cube: Seq<Lit>,
    pub strengthen: bool,
    pub stage: PredStage,
}

impl View for PredRun {
    type V = PredView;

    open spec fn view(&self) -> PredView {
        PredView {
            signals: self.signals@,
            mid_states: contents(self.mid_states@),
            inputs: contents(self.inputs@),
            all_inputs: self.all_inputs@,
            target: self.target@,
            in_target: members(self.in_target),
            i: self.i as nat,
            value: self.value,
            cube: self.cube@,
            strengthen: self.strengthen,
            stage: self.stage,
        }
    }
}

impl PredView {
    /// The search at the latch with number `i`; past the last, the chosen
    /// literals are minimised, unless there are none.
    pub open spec fn looking_at(self, cube: Seq<Lit>, i: nat) -> PredView {
        PredView {
            cube,
            i,
            stage: if i < self.signals.unrolled_latches.len() {
                PredStage::Domain
            } else if cube.len() > 0 {
                PredStage::Premise
            } else {
                PredStage::Done
            },
            ..self
        }
    }

    /// The search for a predecessor from which `target` is reached. An empty
    /// target is reached from everywhere.
    pub open spec fn start(target: Seq<Lit>, signals: SignalsView, strengthen: bool) -> PredView {
        PredView {
            signals,
            mid_states: Seq::empty(),
            inputs: Seq::empty(),
            all_inputs: Seq::empty(),
            target: negation(target),
            in_target: vars_of(target),
            i: 0,
            value: false,
            cube: Seq::empty(),
            strengthen,
            stage: if target.len() == 0 {
                PredStage::Done
            } else {
                PredStage::Model
            },
        }
    }

    /// The latch in hand is one of the latches, nothing is chosen before the
    /// model is read, and all variables can be packed.
    pub open spec fn wf(self) -> bool {
        &&& self.signals.wf()
        &&& self.stage == PredStage::Model ==> self.cube.len() == 0
        &&& (self.stage == PredStage::Domain || self.stage == PredStage::Value || self.stage
            == PredStage::Flip) ==> self.i < self.signals.unrolled_latches.len()
    }

    /// The search waits for this answer.
    pub open spec fn accepts(self, event: PredEvent) -> bool {
        match event {
            PredEvent::Model { latches, inputs } => self.stage == PredStage::Model
                && self.signals.fits(latches@, inputs@),
            PredEvent::Domain(_) => self.stage == PredStage::Domain,
            PredEvent::Value(_) => self.stage == PredStage::Value,
            PredEvent::Flip(_) => self.stage == PredStage::Flip,
            PredEvent::Premise(_) => self.stage == PredStage::Premise,
        }
    }

    /// The literal of the latch in hand that holds where the latch has the
    /// given value.
    pub open spec fn chosen(self, value: bool) -> Lit {
        positive(self.signals.unrolled_latches[self.i as int]).spec_not_if(!value)
    }

    /// The search after an answer, up to the order of the literals that are to
    /// be minimised. The states and inputs are read off the model before any
    /// of its values is taken back. A latch outside the domain, or without a value, does not
    /// matter; one of the target always does; any other does where its value
    /// cannot be taken back. The minimisation goes on while it gains
    /// something, and only where the predecessor is to be strengthened.
    pub open spec fn after(self, event: PredEvent) -> PredView {
        match event {
            PredEvent::Model { latches, inputs } => PredView {
                mid_states: Seq::new(
                    latches@.len(),
                    |j: int| assigned(self.signals.latches, latches@[j]@),
                ),
                inputs: Seq::new(
                    self.signals.timeframes,
                    |t: int| inputs_at(self.signals.inputs, inputs@, t),
                ),
                all_inputs: assigned(self.signals.unrolled_inputs, inputs@),
                ..self
            }.looking_at(self.cube, 0),
            PredEvent::Domain(false) => self.looking_at(self.cube, self.i + 1),
            PredEvent::Domain(true) => PredView { stage: PredStage::Value, ..self },
            PredEvent::Value(None) => self.looking_at(self.cube, self.i + 1),
            PredEvent::Value(Some(value)) => {
                if self.in_target.contains(self.signals.unrolled_latches[self.i as int]) {
                    self.looking_at(self.cube.push(self.chosen(value)), self.i + 1)
                } else {
                    PredView { value, stage: PredStage::Flip, ..self }
                }
            },
            PredEvent::Flip(true) => self.looking_at(self.cube, self.i + 1),
            PredEvent::Flip(false) => self.looking_at(
                self.cube.push(self.chosen(self.value)),
                self.i + 1,
            ),
            PredEvent::Premise(premise) => {
                if premise@.len() == self.cube.len() || !self.strengthen || premise@.len() == 0 {
                    PredView { cube: premise@, stage: PredStage::Done, ..self }
                } else {
                    PredView { cube: premise@, ..self }
                }
            },
        }
    }

    /// The search after a row of answers, up to the order of the literals that
    /// are to be minimised.
    pub open spec fn after_all(self, events: Seq<PredEvent>) -> PredView
        decreases events.len(),
    {
        if events.len() == 0 {
            self
        } else {
            self.after_all(events.drop_last()).after(events.last())
        }
    }

    /// Every answer of the row came when the search waited for it.
    pub open spec fn accepts_all(self, events: Seq<PredEvent>) -> bool
        decreases events.len(),
    {
        events.len() > 0 ==> {
            &&& self.accepts_all(events.drop_last())
            &&& self.after_all(events.drop_last()).accepts(events.last())
        }
    }

    /// The two agree, but for the order of the literals that are to be
    /// minimised.
    pub open spec fn agrees(self, other: PredView) -> bool {
        &&& self == (PredView { cube: self.cube, ..other })
        &&& self.cube.to_multiset() == other.cube.to_multiset()
        &&& other.stage != PredStage::Premise ==> self.cube == other.cube
    }
}

/// Literals that are to be minimised, those of `expected`, were put in the
/// order that the checker's generator gives them; where there are none, the
/// checker is as it was.
pub open spec fn order_is_drawn(
    expected: PredView,
    before: IC3,
    actual: PredView,
    after: IC3,
) -> bool {
    if expected.stage == PredStage::Premise {
        (actual.cube, position_of(after.rng)) == shuffled(
            expected.cube,
            seed_of(before.rng),
            position_of(before.rng),
        )
    } else {
        after == before
    }
}

impl PredRun {
    /// The latch in hand is one of the latches, nothing is chosen before the
    /// model is read, and all variables can be packed.
    pub open spec fn wf(self) -> bool {
        self@.wf()
    }

    /// Starts the search for a predecessor of what was assumed under the
    /// constraints. Where both are empty there is nothing to reach.
    pub fn mt_get_pred(
        assumptions: &Vec<Lit>,
        constraints: &Vec<Lit>,
        signals: Signals,
        strengthen: bool,
    ) -> (r: PredRun)
        requires
            signals@.wf(),
        ensures
            r.wf(),
            r@ == PredView::start(assumptions@ + constraints@, signals@, strengthen),
    {
        let mut target = copy_cube(assumptions);
        let mut more = copy_cube(constraints);
        target.append(&mut more);
        let stage = if target.len() == 0 {
            PredStage::Done
        } else {
            PredStage::Model
        };
        let r = PredRun {
            signals,
            mid_states: Vec::new(),
            inputs: Vec::new(),
            all_inputs: Vec::new(),
            in_target: collect_vars(&target),
            target: negate_cube(&target),
            i: 0,
            value: false,
            cube: Vec::new(),
            strengthen,
            stage,
        };
        assert(r@.mid_states =~= Seq::<Seq<Lit>>::empty());
        r
    }

    /// Whether there is a value, or the lack of one, for each latch at each
    /// timeframe after the first and for each input.
    fn fits(&self, latches: &Vec<Vec<Option<bool>>>, inputs: &Vec<Option<bool>>) -> (r: bool)
        ensures
            r == self@.signals.fits(latches@, inputs@),
    {
        if self.signals.timeframes == 0 || latches.len() != self.signals.timeframes - 1
            || inputs.len() != self.signals.unrolled_inputs.len() {
            return false;
        }
        for j in 0..latches.len()
            invariant
                forall|k: int|
                    0 <= k < j ==> (#[trigger] latches@[k])@.len() == self@.signals.latches.len(),
        {
            if latches[j].len() != self.signals.latches.len() {
                assert(latches@[j as int]@.len() != self@.signals.latches.len());
                return false;
            }
        }
        if self.signals.inputs.len() > 0 {
            return true;
        }
        for i in 0..inputs.len()
            invariant
                self.signals.inputs.len() == 0,
                forall|k: int| 0 <= k < i ==> (#[trigger] inputs@[k]) is None,
        {
            if inputs[i].is_some() {
                assert(!(inputs@[i as int] is None));
                return false;
            }
        }
        true
    }

    /// Whether the search waits for this answer.
    pub fn accepts(&self, event: &PredEvent) -> (r: bool)
        ensures
            r == self@.accepts(*event),
    {
        match event {
            PredEvent::Model { latches, inputs } => self.stage == PredStage::Model && self.fits(
                latches,
                inputs,
            ),
            PredEvent::Domain(_) => self.stage == PredStage::Domain,
            PredEvent::Value(_) => self.stage == PredStage::Value,
            PredEvent::Flip(_) => self.stage == PredStage::Flip,
            PredEvent::Premise(_) => self.stage == PredStage::Premise,
        }
    }

    /// The latch in hand.
    pub fn latch(&self) -> (r: u32)
        requires
            self.wf(),
            self.stage == PredStage::Domain || self.stage == PredStage::Value || self.stage
                == PredStage::Flip,
        ensures
            r == self@.signals.unrolled_latches[self@.i as int],
    {
        self.signals.unrolled_latches[self.i]
    }

    /// Goes on to the next latch, or to the minimisation.
    fn advance(&mut self, ic3: &mut IC3)
        requires
            old(self).wf(),
            old(self).i < old(self).signals.unrolled_latches.len(),
        ensures
            final(self).wf(),
            final(self)@.agrees(old(self)@.looking_at(old(self)@.cube, old(self)@.i + 1)),
            order_is_drawn(
                old(self)@.looking_at(old(self)@.cube, old(self)@.i + 1),
                *old(ic3),
                final(self)@,
                *final(ic3),
            ),
            final(ic3).same_but_rng(*old(ic3)),
    {
        self.i = self.i + 1;
        if self.i < self.signals.unrolled_latches.len() {
            self.stage = PredStage::Domain;
        } else if self.cube.len() > 0 {
            self.stage = PredStage::Premise;
            ic3.shuffle(&mut self.cube);
        } else {
            self.stage = PredStage::Done;
        }
    }

    /// Takes an answer. Literals that are to be minimised are put in the order
    /// that the checker's generator gives them first.
    pub fn step(&mut self, ic3: &mut IC3, event: PredEvent)
        requires
            old(self).wf(),
            old(self)@.accepts(event),
        ensures
            final(self).wf(),
            final(self)@.agrees(old(self)@.after(event)),
            order_is_drawn(old(self)@.after(event), *old(ic3), final(self)@, *final(ic3)),
            final(ic3).same_but_rng(*old(ic3)),
            final(self)@ == (PredView { cube: final(self)@.cube, ..old(self)@.after(event) }),
            final(self)@.cube.to_multiset() == old(self)@.after(event).cube.to_multiset(),
            old(self)@.after(event).stage != PredStage::Premise ==> final(self)@.cube
                == old(self)@.after(event).cube && *final(ic3) == *old(ic3),
            forall|l: Lit| #[trigger]
                final(self)@.cube.contains(l) ==> old(self)@.cube.contains(l) || may_add(
                    old(self)@,
                    event,
                    l,
                ),
    {
        proof {
            lemma_answer_adds(self@, event);
        }
        let ghost expected = self@.after(event);
        match event {
            PredEvent::Model { latches, inputs } => {
                self.mid_states = IC3::mid_states(&self.signals.latches, &latches);
                self.inputs =
                IC3::timeframe_inputs(&self.signals.inputs, &inputs, self.signals.timeframes);
                self.all_inputs = assigned_lits(&self.signals.unrolled_inputs, &inputs);
                self.i = 0;
                self.stage = if self.signals.unrolled_latches.len() > 0 {
                    PredStage::Domain
                } else {
                    PredStage::Done
                };
                assert(self@.mid_states =~= old(self)@.after(event).mid_states);
                assert(self@.inputs =~= old(self)@.after(event).inputs);
            },
            PredEvent::Domain(inside) => {
                if inside {
                    self.stage = PredStage::Value;
                } else {
                    self.advance(ic3);
                }
            },
            PredEvent::Value(value) => match value {
                Some(v) => {
                    let latch: u32 = self.signals.unrolled_latches[self.i];
                    if set_contains(&self.in_target, latch) {
                        self.cube.push(Lit::new(latch, true).not_if(!v));
                        self.advance(ic3);
                    } else {
                        self.value = v;
                        self.stage = PredStage::Flip;
                    }
                },
                None => {
                    self.advance(ic3);
                },
            },
            PredEvent::Flip(flipped) => {
                if !flipped {
                    let latch: u32 = self.signals.unrolled_latches[self.i];
                    self.cube.push(Lit::new(latch, true).not_if(!self.value));
                }
                self.advance(ic3);
            },
            PredEvent::Premise(premise) => {
                let gained: bool = premise.len() != self.cube.len();
                self.cube = premise;
                if !gained || !self.strengthen || self.cube.len() == 0 {
                    self.stage = PredStage::Done;
                } else {
                    ic3.shuffle(&mut self.cube);
                }
            },
        }
        proof {
            lemma_same_literals(self@.cube, expected.cube);
        }
    }
}

/// A latch of the target that has a value is never left out, and any other is
/// left out only where its value could be taken back.
pub proof fn law_needed_latches_are_chosen(view: PredView, value: bool)
    requires
        view.wf(),
        view.stage == PredStage::Value,
    ensures
        ({
            let next = view.after(PredEvent::Value(Some(value)));
            let with = view.looking_at(view.cube.push(view.chosen(value)), view.i + 1);
            if view.in_target.contains(view.signals.unrolled_latches[view.i as int]) {
                next == with
            } else {
                &&& next.stage == PredStage::Flip
                &&& next.after(PredEvent::Flip(false)).cube == with.cube
                &&& next.after(PredEvent::Flip(true)).cube == view.cube
            }
        }),
{
}

/// The chosen literals are of the latches with the given numbers: latches
/// that were looked at, in their order.
pub open spec fn picks(view: PredView, picked: Seq<int>) -> bool {
    &&& picked.len() == view.cube.len()
    &&& forall|k: int|
        0 <= k < picked.len() ==> 0 <= #[trigger] picked[k] < view.i && picked[k]
            < view.signals.unrolled_latches.len() && view.cube[k].spec_var()
            == view.signals.unrolled_latches[picked[k]]
    &&& forall|k: int, l: int| 0 <= k < l < picked.len() ==> picked[k] < picked[l]
}

proof fn lemma_step_picks(view: PredView, event: PredEvent)
    requires
        view.wf(),
        view.accepts(event),
        view.stage != PredStage::Premise,
        exists|picked: Seq<int>| #[trigger] picks(view, picked),
    ensures
        view.after(event).wf(),
        view.after(event).stage != PredStage::Model,
        exists|picked: Seq<int>| #[trigger] picks(view.after(event), picked),
{
    let next = view.after(event);
    let picked = choose|picked: Seq<int>| #[trigger] picks(view, picked);
    if next.cube.len() == view.cube.len() {
        assert(picks(next, picked));
    } else {
        let longer = picked.push(view.i as int);
        let latch = view.signals.unrolled_latches[view.i as int];
        let l = positive(latch);
        assert(l.spec_var() == latch);
        crate::lit::law_negation_is_an_involution(l);
        assert(picks(next, longer));
    }
}

/// Until they are minimised, the chosen literals are of latches that were
/// looked at, in their order, with at most one literal of each latch.
pub proof fn law_one_literal_per_latch(
    target: Seq<Lit>,
    signals: SignalsView,
    strengthen: bool,
    events: Seq<PredEvent>,
)
    requires
        signals.wf(),
        PredView::start(target, signals, strengthen).accepts_all(events),
        forall|k: int|
            0 <= k < events.len() ==> !((#[trigger] events[k]) matches PredEvent::Premise(_)),
    ensures
        PredView::start(target, signals, strengthen).after_all(events).wf(),
        PredView::start(target, signals, strengthen).after_all(events).stage == PredStage::Model
            ==> events.len() == 0,
        exists|picked: Seq<int>| #[trigger]
            picks(PredView::start(target, signals, strengthen).after_all(events), picked),
    decreases events.len(),
{
    let start = PredView::start(target, signals, strengthen);
    if events.len() == 0 {
        assert(picks(start, Seq::empty()));
    } else {
        let front = events.drop_last();
        assert forall|k: int| 0 <= k < front.len() implies !((
        #[trigger] front[k]) matches PredEvent::Premise(_)) by {
            assert(front[k] == events[k]);
        }
        law_one_literal_per_latch(target, signals, strengthen, front);
        assert(events.last() == events[events.len() - 1]);
        lemma_step_picks(start.after_all(front), events.last());
    }
}

/// The states and inputs are those of the model as it was found: they are
/// read first, and nothing changes them later.
pub proof fn law_model_is_read_first(
    target: Seq<Lit>,
    signals: SignalsView,
    strengthen: bool,
    events: Seq<PredEvent>,
)
    requires
        events.len() > 0,
        PredView::start(target, signals, strengthen).accepts_all(events),
    ensures
        ({
            let start = PredView::start(target, signals, strengthen);
            let end = start.after_all(events);
            let read = start.after(events[0]);
            &&& events[0] matches PredEvent::Model { .. }
            &&& end.stage != PredStage::Model
            &&& end.mid_states == read.mid_states
            &&& end.inputs == read.inputs
            &&& end.all_inputs == read.all_inputs
        }),
    decreases events.len(),
{
    let start = PredView::start(target, signals, strengthen);
    let front = events.drop_last();
    if front.len() > 0 {
        law_model_is_read_first(target, signals, strengthen, front);
        assert(front[0] == events[0]);
    } else {
        assert(start.after_all(front) == start);
        assert(events.last() == events[0]);
    }
}

/// The minimisation ends: where a premise has no more literals than were
/// asked about, either it is the result or it has fewer.
pub proof fn law_each_premise_gains_or_ends(view: PredView, premise: Vec<Lit>)
    requires
        view.stage == PredStage::Premise,
        premise@.len() <= view.cube.len(),
    ensures
        ({
            let next = view.after(PredEvent::Premise(premise));
            &&& next.cube == premise@
            &&& next.stage == PredStage::Done || (next.stage == PredStage::Premise
                && next.cube.len() < view.cube.len())
            &&& !view.strengthen ==> next.stage == PredStage::Done
        }),
{
}

/// Every chosen literal holds in the model: what is chosen of a latch with
/// value `value` is that latch with that value as its polarity, whether the
/// latch is in the target or not. A latch of the target is chosen at once; any
/// other is chosen exactly where its value cannot be taken back.
pub proof fn law_chosen_literals_hold_in_the_model(view: PredView, value: bool)
    requires
        view.wf(),
        view.stage == PredStage::Value,
    ensures
        ({
            let latch = view.signals.unrolled_latches[view.i as int];
            let next = view.after(PredEvent::Value(Some(value)));
            &&& view.accepts(PredEvent::Value(Some(value)))
            &&& view.in_target.contains(latch) ==> {
                &&& next.cube.len() == view.cube.len() + 1
                &&& forall|k: int| 0 <= k < view.cube.len() ==> next.cube[k] == view.cube[k]
                &&& next.cube[view.cube.len() as int].spec_var() == latch
                &&& next.cube[view.cube.len() as int].spec_polarity() == value
                &&& next.i == view.i + 1
            }
            &&& !view.in_target.contains(latch) ==> {
                let kept = next.after(PredEvent::Flip(false));
                let taken_back = next.after(PredEvent::Flip(true));
                &&& next.stage == PredStage::Flip
                &&& next.cube == view.cube
                &&& next.i == view.i
                &&& kept.cube.len() == view.cube.len() + 1
                &&& forall|k: int| 0 <= k < view.cube.len() ==> kept.cube[k] == view.cube[k]
                &&& kept.cube[view.cube.len() as int].spec_var() == latch
                &&& kept.cube[view.cube.len() as int].spec_polarity() == value
                &&& kept.i == view.i + 1
                &&& taken_back.cube == view.cube
                &&& taken_back.i == view.i + 1
            }
        }),
{
    let latch = view.signals.unrolled_latches[view.i as int];
    assert(positive(latch).spec_var() == latch && positive(latch).spec_polarity());
    crate::lit::law_negation_is_an_involution(positive(latch));
}

/// A literal that is waiting for whether its value can be taken back keeps the
/// polarity of the value that was found, whatever else is known.
pub proof fn law_value_is_kept_for_the_question(view: PredView)
    requires
        view.wf(),
        view.stage == PredStage::Flip,
    ensures
        ({
            let latch = view.signals.unrolled_latches[view.i as int];
            let kept = view.after(PredEvent::Flip(false));
            &&& view.accepts(PredEvent::Flip(true)) && view.accepts(PredEvent::Flip(false))
            &&& kept.cube.len() == view.cube.len() + 1
            &&& kept.cube[view.cube.len() as int].spec_var() == latch
            &&& kept.cube[view.cube.len() as int].spec_polarity() == view.value
            &&& view.after(PredEvent::Flip(true)).cube == view.cube
        }),
{
    let latch = view.signals.unrolled_latches[view.i as int];
    assert(positive(latch).spec_var() == latch && positive(latch).spec_polarity());
    crate::lit::law_negation_is_an_involution(positive(latch));
}

/// Only a latch in the domain that has a value can be chosen; every latch is
/// looked at, one after the other, and after the last one the chosen literals
/// are minimised, unless there are none.
pub proof fn law_latches_are_looked_at_in_turn(view: PredView, event: PredEvent)
    requires
        view.wf(),
        view.accepts(event),
        view.stage == PredStage::Domain || view.stage == PredStage::Value || view.stage
            == PredStage::Flip,
    ensures
        ({
            let next = view.after(event);
            let n = view.signals.unrolled_latches.len();
            &&& next.signals == view.signals && next.target == view.target
            &&& next.in_target == view.in_target && next.strengthen == view.strengthen
            &&& next.mid_states == view.mid_states && next.inputs == view.inputs
            &&& next.all_inputs == view.all_inputs
            &&& event is Domain <==> view.stage == PredStage::Domain
            &&& event is Value <==> view.stage == PredStage::Value
            &&& event is Flip <==> view.stage == PredStage::Flip
            &&& event == PredEvent::Domain(true) ==> next.stage == PredStage::Value && next.i
                == view.i && next.cube == view.cube
            &&& event == PredEvent::Domain(false) || event == PredEvent::Value(None) ==> next.cube
                == view.cube && next.i == view.i + 1
            &&& next.i == view.i || next.i == view.i + 1
            &&& next.i == view.i + 1 ==> {
                &&& next.i < n <==> next.stage == PredStage::Domain
                &&& next.i >= n && next.cube.len() > 0 <==> next.stage == PredStage::Premise
                &&& next.i >= n && next.cube.len() == 0 <==> next.stage == PredStage::Done
            }
        }),
{
}

/// The result of the minimisation is the latest premise; it is final where it
/// gained nothing, where it is empty, and where the predecessor is not to be
/// strengthened, and only there.
pub proof fn law_latest_premise_is_the_result(view: PredView, premise: Vec<Lit>)
    requires
        view.stage == PredStage::Premise,
    ensures
        view.accepts(PredEvent::Premise(premise)),
        ({
            let next = view.after(PredEvent::Premise(premise));
            &&& next.cube == premise@
            &&& next.signals == view.signals && next.target == view.target
            &&& next.mid_states == view.mid_states && next.inputs == view.inputs
            &&& premise@.len() == view.cube.len() || premise@.len() == 0 || !view.strengthen
                <==> next.stage == PredStage::Done
            &&& next.stage == PredStage::Done || next.stage == PredStage::Premise
        }),
{
}

/// The search begins with nothing chosen. What must be excluded is the
/// negation of the target, literal by literal, and a variable counts as one of
/// the target exactly where a literal of the target has it. An empty target
/// needs no search.
pub proof fn law_search_begins_with_the_target(
    target: Seq<Lit>,
    signals: SignalsView,
    strengthen: bool,
    var: u32,
)
    ensures
        ({
            let start = PredView::start(target, signals, strengthen);
            &&& start.cube.len() == 0
            &&& start.signals == signals
            &&& start.strengthen == strengthen
            &&& target.len() == 0 <==> start.stage == PredStage::Done
            &&& target.len() > 0 <==> start.stage == PredStage::Model
            &&& start.target.len() == target.len()
            &&& forall|k: int|
                0 <= k < target.len() ==> (#[trigger] start.target[k]).spec_var()
                    == target[k].spec_var() && start.target[k].spec_polarity()
                    == !target[k].spec_polarity()
            &&& start.in_target.contains(var) <==> exists|k: int|
                0 <= k < target.len() && (#[trigger] target[k]).spec_var() == var
        }),
{
    let start = PredView::start(target, signals, strengthen);
    assert forall|k: int| 0 <= k < target.len() implies (#[trigger] start.target[k]).spec_var()
        == target[k].spec_var() && start.target[k].spec_polarity()
        == !target[k].spec_polarity() by {
        crate::lit::law_negation_is_an_involution(target[k]);
    }
    let vars = target.map_values(|l: Lit| l.spec_var());
    if vars.contains(var) {
        let k = choose|k: int| 0 <= k < vars.len() && vars[k] == var;
        assert(target[k].spec_var() == var);
    }
    if exists|k: int| 0 <= k < target.len() && (#[trigger] target[k]).spec_var() == var {
        let k = choose|k: int| 0 <= k < target.len() && (#[trigger] target[k]).spec_var() == var;
        assert(vars[k] == var);
    }
}

/// The model gives the states and inputs of all timeframes before the first
/// latch is looked at, and nothing is chosen by it.
pub proof fn law_model_is_taken_whole(
    view: PredView,
    latches: Vec<Vec<Option<bool>>>,
    inputs: Vec<Option<bool>>,
)
    requires
        view.wf(),
        view.stage == PredStage::Model,
        latches@.len() + 1 == view.signals.timeframes,
        forall|j: int|
            0 <= j < latches@.len() ==> (#[trigger] latches@[j])@.len()
                == view.signals.latches.len(),
        inputs@.len() == view.signals.unrolled_inputs.len(),
        view.signals.inputs.len() > 0,
    ensures
        view.accepts(PredEvent::Model { latches, inputs }),
        ({
            let next = view.after(PredEvent::Model { latches, inputs });
            &&& next.cube.len() == 0
            &&& next.i == 0
            &&& next.mid_states.len() + 1 == view.signals.timeframes
            &&& next.inputs.len() == view.signals.timeframes
            &&& forall|j: int|
                0 <= j < latches@.len() ==> #[trigger] next.mid_states[j] == assigned(
                    view.signals.latches,
                    latches@[j]@,
                )
            &&& next.all_inputs == assigned(view.signals.unrolled_inputs, inputs@)
            &&& view.signals.unrolled_latches.len() > 0 <==> next.stage == PredStage::Domain
            &&& view.signals.unrolled_latches.len() == 0 <==> next.stage == PredStage::Done
        }),
{
}

/// The answer may add the literal: it is the latch in hand with the value that
/// it has, told now or before, or a literal of the premise.
pub open spec fn may_add(view: PredView, event: PredEvent, l: Lit) -> bool {
    match event {
        PredEvent::Value(Some(value)) => l.spec_var()
            == view.signals.unrolled_latches[view.i as int] && l.spec_polarity() == value,
        PredEvent::Flip(false) => l.spec_var() == view.signals.unrolled_latches[view.i as int]
            && l.spec_polarity() == view.value,
        PredEvent::Premise(premise) => premise@.contains(l),
        _ => false,
    }
}

proof fn lemma_answer_adds(view: PredView, event: PredEvent)
    requires
        view.wf(),
        view.accepts(event),
    ensures
        forall|l: Lit| #[trigger]
            view.after(event).cube.contains(l) ==> view.cube.contains(l) || may_add(
                view,
                event,
                l,
            ),
{
    let after = view.after(event);
    assert forall|l: Lit| #[trigger] after.cube.contains(l) implies view.cube.contains(l)
        || may_add(view, event, l) by {
        let at = choose|at: int| 0 <= at < after.cube.len() && after.cube[at] == l;
        if at < view.cube.len() && after.cube[at] == view.cube[at] {
            assert(view.cube.contains(l));
        }
        if let PredEvent::Premise(premise) = event {
            assert(premise@[at] == l);
        }
        if view.i < view.signals.unrolled_latches.len() {
            assert(view.signals.unrolled_latches[view.i as int] <= u32::MAX / 2);
        }
    }
}

proof fn lemma_same_literals(a: Seq<Lit>, b: Seq<Lit>)
    requires
        a.to_multiset() == b.to_multiset(),
    ensures
        forall|l: Lit| #[trigger] a.contains(l) ==> b.contains(l),
{
    broadcast use vstd::seq_lib::group_to_multiset_ensures;

    assert forall|l: Lit| #[trigger] a.contains(l) implies b.contains(l) by {
        assert(a.to_multiset().count(l) > 0);
        assert(b.to_multiset().count(l) > 0);
    }
}

} // verus!
