//! Blocking an obligation over several timeframes at once.

use std::collections::BTreeSet;
use vstd::prelude::*;

use crate::block::MtBlockResult;
use crate::ic3::IC3;
use crate::lemma::{core_or, Link, LinkView};
use crate::lit::{consistent, copy_cube, in_order, order_cube, ordered, Lit};
use crate::refine::{RefineStage, RefineView};
use crate::statistic::{attempts, bump, bumped, bumped_if, Mt, Statistic};
use crate::unroll::{contents, copyable, frame_contents, unrolled_clauses};

verus! {

/// The literals of `mic`, then those of `core` that are not among them yet.
pub open spec fn merged(mic: Seq<Lit>, core: Seq<Lit>) -> Seq<Lit>
    decreases core.len(),
{
    if core.len() == 0 {
        mic
    } else {
        let rest = merged(mic, core.drop_last());
        if rest.contains(core.last()) {
            rest
        } else {
            rest.push(core.last())
        }
    }
}

/// The cube that both a minimised core and a refinement ask for: the literals
/// of `mic`, then those of `core` that are not among them yet.
pub fn mt_get_blocking_cube(mic: &Vec<Lit>, core: &Vec<Lit>) -> (r: Vec<Lit>)
    ensures
        r@ == merged(mic@, core@),
{
    broadcast use vstd::std_specs::btree::group_btree_axioms;

    let mut seen: BTreeSet<u32> = BTreeSet::new();
    let mut r: Vec<Lit> = Vec::new();
    for i in 0..mic.len()
        invariant
            r@ == mic@.take(i as int),
            forall|code: u32| seen@.contains(code) <==> r@.contains(Lit { code }),
    {
        broadcast use vstd::std_specs::btree::group_btree_axioms;

        let ghost before = r@;
        let l = mic[i];
        let _ = seen.insert(l.code);
        r.push(l);
        assert(mic@.take(i + 1) =~= before.push(l));
        proof {
            lemma_contains_push(before, l);
        }
    }
    assert(mic@.take(mic.len() as int) =~= mic@);
    assert(core@.take(0) =~= Seq::<Lit>::empty());
    for i in 0..core.len()
        invariant
            r@ == merged(mic@, core@.take(i as int)),
            forall|code: u32| seen@.contains(code) <==> r@.contains(Lit { code }),
    {
        broadcast use vstd::std_specs::btree::group_btree_axioms;

        let ghost before = r@;
        let l = core[i];
        assert(core@.take(i + 1).drop_last() =~= core@.take(i as int));
        assert(l == Lit { code: l.code });
        if seen.insert(l.code) {
            r.push(l);
            proof {
                lemma_contains_push(before, l);
            }
        }
    }
    assert(core@.take(core.len() as int) =~= core@);
    r
}

proof fn lemma_contains_push(cube: Seq<Lit>, l: Lit)
    ensures
        forall|m: Lit| #[trigger] cube.push(l).contains(m) <==> cube.contains(m) || m == l,
{
    assert forall|m: Lit| #[trigger] cube.push(l).contains(m) <==> cube.contains(m) || m == l by {
        assert(cube.push(l)[cube.len() as int] == l);
        if cube.contains(m) {
            let i = choose|i: int| 0 <= i < cube.len() && cube[i] == m;
            assert(cube.push(l)[i] == m);
        }
    }
}

/// The blocking cube starts with the minimised core, holds every literal of
/// both cubes and no other, and holds none twice that the minimised core does
/// not.
pub proof fn law_blocking_cube_is_the_union(mic: Seq<Lit>, core: Seq<Lit>)
    ensures
        merged(mic, core).len() >= mic.len(),
        merged(mic, core).take(mic.len() as int) == mic,
        forall|l: Lit|
            #[trigger] merged(mic, core).contains(l) <==> mic.contains(l) || core.contains(l),
        mic.no_duplicates() ==> merged(mic, core).no_duplicates(),
    decreases core.len(),
{
    if core.len() == 0 {
        assert(mic.take(mic.len() as int) =~= mic);
    } else {
        let rest = merged(mic, core.drop_last());
        law_blocking_cube_is_the_union(mic, core.drop_last());
        lemma_contains_push(core.drop_last(), core.last());
        assert(core =~= core.drop_last().push(core.last()));
        if !rest.contains(core.last()) {
            lemma_contains_push(rest, core.last());
            assert(rest.push(core.last()).take(mic.len() as int) =~= mic);
        }
    }
}

/// Where the two cubes do not contradict each other or themselves, the
/// blocking cube does not contradict itself.
pub proof fn law_blocking_cube_is_consistent(mic: Seq<Lit>, core: Seq<Lit>)
    requires
        consistent(mic + core),
    ensures
        consistent(merged(mic, core)),
{
    let all = mic + core;
    let both = merged(mic, core);
    law_blocking_cube_is_the_union(mic, core);
    assert forall|i: int, j: int| 0 <= i < both.len() && 0 <= j < both.len() implies #[trigger]
    both[i] != (#[trigger] both[j]).spec_negated() by {
        lemma_of_both(mic, core, i);
        lemma_of_both(mic, core, j);
        let k = choose|k: int| 0 <= k < all.len() && all[k] == both[i];
        let l = choose|l: int| 0 <= l < all.len() && all[l] == both[j];
        assert(all[k] != all[l].spec_negated());
    }
}

proof fn lemma_of_both(mic: Seq<Lit>, core: Seq<Lit>, i: int)
    requires
        0 <= i < merged(mic, core).len(),
    ensures
        (mic + core).contains(merged(mic, core)[i]),
{
    let l = merged(mic, core)[i];
    law_blocking_cube_is_the_union(mic, core);
    assert(merged(mic, core).contains(l));
    if mic.contains(l) {
        let k = choose|k: int| 0 <= k < mic.len() && mic[k] == l;
        assert((mic + core)[k] == l);
    } else {
        let k = choose|k: int| 0 <= k < core.len() && core[k] == l;
        assert((mic + core)[mic.len() + k] == l);
    }
}

/// The element with number `i`, or an empty one where there is none.
pub open spec fn nth_or_empty(cubes: Seq<Seq<Lit>>, i: int) -> Seq<Lit> {
    if 0 <= i < cubes.len() {
        cubes[i]
    } else {
        Seq::empty()
    }
}

/// The obligations that lead from a predecessor `expansion` steps back to the
/// obligation in `frame`, one per timeframe, the deepest first.
pub open spec fn chain(
    frame: nat,
    depth: nat,
    expansion: nat,
    model: Seq<Lit>,
    inputs: Seq<Seq<Lit>>,
    mid_states: Seq<Seq<Lit>>,
) -> Seq<LinkView> {
    Seq::new(
        expansion,
        |j: int|
            LinkView::of(
                (frame - expansion + j) as nat,
                if j == 0 {
                    model
                } else {
                    nth_or_empty(mid_states, j - 1)
                },
                nth_or_empty(inputs, j),
                (depth + expansion - j) as nat,
            ),
    )
}

/// The views of `links`, in their order.
pub open spec fn link_views(links: Seq<Link>) -> Seq<LinkView> {
    links.map_values(|l: Link| l@)
}

fn nth_cube(cubes: &Vec<Vec<Lit>>, i: usize) -> (r: Vec<Lit>)
    ensures
        r@ == nth_or_empty(contents(cubes@), i as int),
{
    if i < cubes.len() {
        copy_cube(&cubes[i])
    } else {
        Vec::new()
    }
}

/// The obligations that lead from the predecessor `model` to the obligation
/// in `frame`, one per timeframe, the deepest first. Only the first of them
/// is to be blocked; the others tell how it leads to the obligation.
pub fn link_chain(
    frame: usize,
    depth: usize,
    expansion: usize,
    model: Vec<Lit>,
    inputs: &Vec<Vec<Lit>>,
    mid_states: &Vec<Vec<Lit>>,
) -> (r: Vec<Link>)
    requires
        1 <= expansion <= frame,
        depth + expansion <= usize::MAX,
    ensures
        link_views(r@) == chain(
            frame as nat,
            depth as nat,
            expansion as nat,
            model@,
            contents(inputs@),
            contents(mid_states@),
        ),
{
    let ghost all = chain(
        frame as nat,
        depth as nat,
        expansion as nat,
        model@,
        contents(inputs@),
        contents(mid_states@),
    );
    let mut r: Vec<Link> = Vec::new();
    r.push(Link::new(frame - expansion, model, nth_cube(inputs, 0), depth + expansion));
    assert(link_views(r@) =~= all.take(1));
    for j in 1..expansion
        invariant
            1 <= expansion <= frame,
            depth + expansion <= usize::MAX,
            all == chain(
                frame as nat,
                depth as nat,
                expansion as nat,
                model@,
                contents(inputs@),
                contents(mid_states@),
            ),
            link_views(r@) == all.take(j as int),
    {
        let ghost before = r@;
        let link = Link::new(
            frame - expansion + j,
            nth_cube(mid_states, j - 1),
            nth_cube(inputs, j),
            depth + (expansion - j),
        );
        r.push(link);
        assert(link_views(r@) =~= link_views(before).push(link@));
        assert(all.take(j + 1) =~= all.take(j as int).push(all[j as int]));
    }
    assert(all.take(expansion as int) =~= all);
    r
}

/// The chain is made of single steps: each obligation is one frame below the
/// next and one step further from the bad state, and the last is one step
/// before the obligation it was made for.
pub proof fn law_chain_is_made_of_single_steps(
    frame: nat,
    depth: nat,
    expansion: nat,
    model: Seq<Lit>,
    inputs: Seq<Seq<Lit>>,
    mid_states: Seq<Seq<Lit>>,
    j: int,
)
    requires
        1 <= expansion <= frame,
        0 <= j < expansion,
    ensures
        ({
            let links = chain(frame, depth, expansion, model, inputs, mid_states);
            &&& links.len() == expansion
            &&& links[0].frame == frame - expansion
            &&& links[0].depth == depth + expansion
            &&& links[0].lemma == in_order(model)
            &&& j + 1 < expansion ==> links[j + 1].frame == links[j].frame + 1 && links[j].depth
                == links[j + 1].depth + 1
            &&& links[expansion - 1].frame + 1 == frame
            &&& links[expansion - 1].depth == depth + 1
        }),
{
}

/// What a multi-timeframe attempt waits for.
#[derive(Clone, Copy, PartialEq, Eq, Structural, Debug)]
pub enum MtStage {
    /// Whether the obligation is blocked in the unrolled system.
    Blocked,
    /// The inductive core of that query.
    Core,
    /// The minimised core.
    Mic,
    /// The lemma that blocks the obligation within the short horizon.
    Refine,
    /// Whether the blocking cube is inductive relative to the frame below.
    OneStep,
    /// The inductive core of that query.
    OneStepCore,
    /// The frame to which the core was pushed.
    Push,
    /// Whether adding the lemma closed a fixpoint.
    Add,
    /// A predecessor over all timeframes.
    Pred,
    /// Nothing: how the attempt ended.
    Done(MtBlockResult),
}

/// An answer that a multi-timeframe attempt waited for.
pub enum MtEvent {
    /// Whether the obligation is blocked in the unrolled system.
    Blocked(bool),
    /// The inductive core, where the solver has one.
    Core(Option<Vec<Lit>>),
    /// The minimised core.
    Mic(Vec<Lit>),
    /// The lemma that blocks the obligation within the short horizon, where
    /// one does.
    Refined(Option<Vec<Lit>>),
    /// Whether the blocking cube is inductive relative to the frame below.
    OneStep(bool),
    /// The inductive core, where the solver has one.
    OneStepCore(Option<Vec<Lit>>),
    /// The frame to which the cube was pushed, and what is left of it.
    Pushed { frame: usize, cube: Vec<Lit> },
    /// Whether adding the lemma closed a fixpoint.
    Added(bool),
    /// A predecessor: its state, the inputs of each timeframe, and the states
    /// in between.
    Pred { model: Vec<Lit>, inputs: Vec<Vec<Lit>>, mid_states: Vec<Vec<Lit>> },
}

/// An attempt to block an obligation over several timeframes.
pub struct MtBlockRun {
    /// The frame of the obligation.
    pub frame: usize,
    /// The obligation's distance from the bad state.
    pub depth: usize,
    /// The last frame.
    pub level: usize,
    /// The number of timeframes.
    pub expansion: usize,
    /// What the solver of the unrolled system starts with.
    pub clauses: Vec<Vec<Lit>>,
    /// The cube that becomes the lemma.
    pub cube: Vec<Lit>,
    /// The frame to which the obligation goes up. The lemma belongs to the
    /// frame below.
    pub target: usize,
    /// The obligations that lead from a predecessor to this one.
    pub links: Vec<Link>,
    pub stage: MtStage,
}

/// The mathematical view of a multi-timeframe attempt.
#[verifier::ext_equal]
pub struct MtView {
    pub frame: nat,
    pub depth: nat,
    pub level: nat,
    pub expansion: nat,
    pub clauses: Seq<Seq<Lit>>,
    pub cube: Seq<Lit>,
    pub target: nat,
    pub links: Seq<LinkView>,
    pub stage: MtStage,
}

impl View for MtBlockRun {
    type V = MtView;

    open spec fn view(&self) -> MtView {
        MtView {
            frame: self.frame as nat,
            depth: self.depth as nat,
            level: self.level as nat,
            expansion: self.expansion as nat,
            clauses: contents(self.clauses@),
            cube: self.cube@,
            target: self.target as nat,
            links: link_views(self.links@),
            stage: self.stage,
        }
    }
}

impl MtView {
    /// The attempt on the obligation for `lemma` in `frame`.
    pub open spec fn start(
        frame: nat,
        depth: nat,
        level: nat,
        expansion: nat,
        lemma: Seq<Lit>,
        clauses: Seq<Seq<Lit>>,
    ) -> MtView {
        MtView {
            frame,
            depth,
            level,
            expansion,
            clauses,
            cube: lemma,
            target: frame,
            links: Seq::empty(),
            stage: MtStage::Blocked,
        }
    }

    /// The attempt waits for this answer.
    pub open spec fn accepts(self, event: MtEvent) -> bool {
        match event {
            MtEvent::Blocked(_) => self.stage == MtStage::Blocked,
            MtEvent::Core(_) => self.stage == MtStage::Core,
            MtEvent::Mic(_) => self.stage == MtStage::Mic,
            MtEvent::Refined(_) => self.stage == MtStage::Refine,
            MtEvent::OneStep(_) => self.stage == MtStage::OneStep,
            MtEvent::OneStepCore(_) => self.stage == MtStage::OneStepCore,
            MtEvent::Pushed { frame, .. } => self.stage == MtStage::Push && self.frame < frame
                <= self.level + 1,
            MtEvent::Added(_) => self.stage == MtStage::Add,
            MtEvent::Pred { .. } => self.stage == MtStage::Pred,
        }
    }

    /// The attempt with another cube in hand.
    pub open spec fn with_cube(self, cube: Seq<Lit>, stage: MtStage) -> MtView {
        MtView { cube, stage, ..self }
    }

    /// The attempt at its end.
    pub open spec fn ended(self, result: MtBlockResult) -> MtView {
        MtView { stage: MtStage::Done(result), ..self }
    }

    /// The attempt after an answer. Blocked in the unrolled system, the
    /// obligation's core is minimised and merged with what refutes it within
    /// the short horizon; the result becomes a lemma only where it is
    /// inductive relative to the frame below. Where any of this fails, the
    /// attempt falls back. Not blocked, the obligation gets a chain of
    /// obligations that lead to it.
    pub open spec fn after(self, event: MtEvent) -> MtView {
        match event {
            MtEvent::Blocked(blocked) => MtView {
                stage: if blocked {
                    MtStage::Core
                } else {
                    MtStage::Pred
                },
                ..self
            },
            MtEvent::Core(Some(core)) => self.with_cube(core@, MtStage::Mic),
            MtEvent::Core(None) => self.ended(MtBlockResult::Fallback),
            MtEvent::Mic(mic) => self.with_cube(mic@, MtStage::Refine),
            MtEvent::Refined(Some(core)) => self.with_cube(
                in_order(merged(self.cube, core@)),
                MtStage::OneStep,
            ),
            MtEvent::Refined(None) => self.ended(MtBlockResult::Fallback),
            MtEvent::OneStep(true) => MtView { stage: MtStage::OneStepCore, ..self },
            MtEvent::OneStep(false) => self.ended(MtBlockResult::Fallback),
            MtEvent::OneStepCore(core) => self.with_cube(core_or(core, self.cube), MtStage::Push),
            MtEvent::Pushed { frame, cube } => MtView {
                target: frame as nat,
                ..self.with_cube(cube@, MtStage::Add)
            },
            MtEvent::Added(true) => self.ended(MtBlockResult::Proved),
            MtEvent::Added(false) => self.ended(MtBlockResult::Handled),
            MtEvent::Pred { model, inputs, mid_states } => MtView {
                links: chain(
                    self.frame,
                    self.depth,
                    self.expansion,
                    model@,
                    contents(inputs@),
                    contents(mid_states@),
                ),
                ..self.ended(MtBlockResult::Handled)
            },
        }
    }

    /// The attempt after a row of answers.
    pub open spec fn after_all(self, events: Seq<MtEvent>) -> MtView
        decreases events.len(),
    {
        if events.len() == 0 {
            self
        } else {
            self.after_all(events.drop_last()).after(events.last())
        }
    }

    /// Every answer of the row came when the attempt waited for it.
    pub open spec fn accepts_all(self, events: Seq<MtEvent>) -> bool
        decreases events.len(),
    {
        events.len() > 0 ==> {
            &&& self.accepts_all(events.drop_last())
            &&& self.after_all(events.drop_last()).accepts(events.last())
        }
    }
}

/// The counters after an answer: each reason to fall back has its own, and a
/// lemma is counted when it is about to be added.
pub open spec fn counted_mt(mt: Mt, event: MtEvent) -> Mt {
    match event {
        MtEvent::Core(None) => Mt { fb_no_core: bumped(mt.fb_no_core), ..mt },
        MtEvent::Refined(None) => Mt { fb_rec_refine: bumped(mt.fb_rec_refine), ..mt },
        MtEvent::OneStep(false) => Mt { fb_gate_reject: bumped(mt.fb_gate_reject), ..mt },
        MtEvent::Pushed { .. } => Mt { mt_lemma_added: bumped(mt.mt_lemma_added), ..mt },
        _ => mt,
    }
}

impl IC3 {
    /// Starts an attempt to block the obligation for `lemma` in `frame` over
    /// `timeframe_expansion` timeframes, and counts it. `clauses` is what the
    /// solver of the unrolled system is to start with.
    pub fn mt_block(
        &mut self,
        frame: usize,
        depth: usize,
        lemma: &Vec<Lit>,
        timeframe_expansion: usize,
        frames: &Vec<Vec<Vec<Lit>>>,
        copies: &Vec<Vec<Lit>>,
        init: &Vec<Vec<Lit>>,
    ) -> (r: MtBlockRun)
        requires
            old(self).num_solvers > 0,
            1 <= timeframe_expansion <= frame <= old(self).spec_level(),
            depth + timeframe_expansion <= usize::MAX,
            copies.len() == timeframe_expansion,
            copyable(frame_contents(frames@), contents(copies@)),
        ensures
            r.wf(),
            r@ == MtView::start(
                frame as nat,
                depth as nat,
                old(self).spec_level(),
                timeframe_expansion as nat,
                lemma@,
                unrolled_clauses(
                    frame as nat,
                    timeframe_expansion as nat,
                    frame_contents(frames@),
                    contents(copies@),
                    contents(init@),
                ),
            ),
            *final(self) == (IC3 {
                timeframe_expansion,
                statistic: Statistic { mt: final(self).statistic.mt, ..old(self).statistic },
                ..*old(self)
            }),
            final(self).statistic.mt.same_but_attempts(old(self).statistic.mt),
            final(self).statistic.mt.mt_block_by_expansion@ == old(
                self,
            ).statistic.mt.mt_block_by_expansion@.insert(
                timeframe_expansion,
                bumped(
                    attempts(old(self).statistic.mt.mt_block_by_expansion@, timeframe_expansion),
                ),
            ),
    {
        self.statistic.mt.count_attempt(timeframe_expansion);
        let clauses = self.mt_init_solver(frame, timeframe_expansion, frames, copies, init);
        let r = MtBlockRun {
            frame,
            depth,
            level: self.level(),
            expansion: timeframe_expansion,
            clauses,
            cube: copy_cube(lemma),
            target: frame,
            links: Vec::new(),
            stage: MtStage::Blocked,
        };
        assert(r@.links =~= Seq::<LinkView>::empty());
        r
    }
}

impl MtBlockRun {
    /// The timeframes fit below the obligation's frame, and where a lemma is
    /// to be added, its frame is at least the obligation's.
    pub open spec fn wf(self) -> bool {
        &&& 1 <= self.expansion <= self.frame <= self.level < usize::MAX
        &&& self.depth + self.expansion <= usize::MAX
        &&& self.stage == MtStage::Add ==> self.frame < self.target <= self.level + 1
    }

    /// Whether the attempt waits for this answer.
    pub fn accepts(&self, event: &MtEvent) -> (r: bool)
        requires
            self.wf(),
        ensures
            r == self@.accepts(*event),
    {
        match event {
            MtEvent::Blocked(_) => self.stage == MtStage::Blocked,
            MtEvent::Core(_) => self.stage == MtStage::Core,
            MtEvent::Mic(_) => self.stage == MtStage::Mic,
            MtEvent::Refined(_) => self.stage == MtStage::Refine,
            MtEvent::OneStep(_) => self.stage == MtStage::OneStep,
            MtEvent::OneStepCore(_) => self.stage == MtStage::OneStepCore,
            MtEvent::Pushed { frame, .. } => self.stage == MtStage::Push && self.frame < *frame
                && *frame <= self.level + 1,
            MtEvent::Added(_) => self.stage == MtStage::Add,
            MtEvent::Pred { .. } => self.stage == MtStage::Pred,
        }
    }

    /// The short horizon within which the obligation must be refuted: the
    /// steps that the unrolled system does not see.
    pub fn horizon(&self) -> (r: usize)
        requires
            self.wf(),
        ensures
            r == self@.expansion - 1,
    {
        self.expansion - 1
    }

    /// The frame to which the lemma is to be added.
    pub fn lemma_frame(&self) -> (r: usize)
        requires
            self.wf(),
            self.stage == MtStage::Add,
        ensures
            r == self@.target - 1,
            self.frame <= r <= self.level,
    {
        self.target - 1
    }

    /// Takes an answer and counts what it means.
    pub fn step(&mut self, mt: &mut Mt, event: MtEvent)
        requires
            old(self).wf(),
            old(self)@.accepts(event),
        ensures
            final(self).wf(),
            final(self)@ == old(self)@.after(event),
            *final(mt) == counted_mt(*old(mt), event),
    {
        match event {
            MtEvent::Blocked(blocked) => {
                self.stage = if blocked {
                    MtStage::Core
                } else {
                    MtStage::Pred
                };
            },
            MtEvent::Core(core) => match core {
                Some(c) => {
                    self.cube = c;
                    self.stage = MtStage::Mic;
                },
                None => {
                    mt.fb_no_core = bump(mt.fb_no_core);
                    self.stage = MtStage::Done(MtBlockResult::Fallback);
                },
            },
            MtEvent::Mic(mic) => {
                self.cube = mic;
                self.stage = MtStage::Refine;
            },
            MtEvent::Refined(refined) => match refined {
                Some(core) => {
                    let blocking = mt_get_blocking_cube(&self.cube, &core);
                    self.cube = order_cube(blocking);
                    self.stage = MtStage::OneStep;
                },
                None => {
                    mt.fb_rec_refine = bump(mt.fb_rec_refine);
                    self.stage = MtStage::Done(MtBlockResult::Fallback);
                },
            },
            MtEvent::OneStep(passed) => {
                if passed {
                    self.stage = MtStage::OneStepCore;
                } else {
                    mt.fb_gate_reject = bump(mt.fb_gate_reject);
                    self.stage = MtStage::Done(MtBlockResult::Fallback);
                }
            },
            MtEvent::OneStepCore(core) => {
                if let Some(c) = core {
                    self.cube = c;
                }
                self.stage = MtStage::Push;
            },
            MtEvent::Pushed { frame, cube } => {
                self.cube = cube;
                self.target = frame;
                mt.mt_lemma_added = bump(mt.mt_lemma_added);
                self.stage = MtStage::Add;
            },
            MtEvent::Added(fixpoint) => {
                self.stage = if fixpoint {
                    MtStage::Done(MtBlockResult::Proved)
                } else {
                    MtStage::Done(MtBlockResult::Handled)
                };
            },
            MtEvent::Pred { model, inputs, mid_states } => {
                self.links =
                link_chain(self.frame, self.depth, self.expansion, model, &inputs, &mid_states);
                self.stage = MtStage::Done(MtBlockResult::Handled);
            },
        }
    }
}

proof fn lemma_row_unfolds(start: MtView, events: Seq<MtEvent>)
    requires
        events.len() > 0,
        start.accepts_all(events),
    ensures
        start.accepts_all(events.drop_last()),
        start.after_all(events.drop_last()).accepts(events.last()),
        start.after_all(events) == start.after_all(events.drop_last()).after(events.last()),
{
}

/// The number of answers before an attempt on a blocked obligation is at the
/// given stage.
spec fn answers_before(stage: MtStage) -> int {
    match stage {
        MtStage::Blocked => 0,
        MtStage::Core | MtStage::Pred => 1,
        MtStage::Mic => 2,
        MtStage::Refine => 3,
        MtStage::OneStep => 4,
        MtStage::OneStepCore => 5,
        MtStage::Push => 6,
        MtStage::Add => 7,
        MtStage::Done(_) => 8,
    }
}

proof fn lemma_stages_in_order(start: MtView, events: Seq<MtEvent>)
    requires
        start.stage == MtStage::Blocked,
        start.accepts_all(events),
        !(start.after_all(events).stage is Done),
    ensures
        events.len() == answers_before(start.after_all(events).stage),
    decreases events.len(),
{
    if events.len() > 0 {
        lemma_row_unfolds(start, events);
        lemma_stages_in_order(start, events.drop_last());
    }
}

/// An attempt adds a lemma only where the unrolled system blocks the
/// obligation, the short horizon refutes it too, and the merged cube is
/// inductive relative to the frame below: that cube, put in order, is what
/// the one-step query was about, and the lemma is what the push left of its
/// core.
pub proof fn law_lemma_is_one_step_inductive(start: MtView, events: Seq<MtEvent>)
    requires
        start.stage == MtStage::Blocked,
        start.accepts_all(events),
        start.after_all(events).stage == MtStage::Add,
    ensures
        events.len() == 7,
        events[0] == MtEvent::Blocked(true),
        events[1] matches MtEvent::Core(Some(_)),
        events[4] == MtEvent::OneStep(true),
        ({
            let asked = start.after_all(events.take(4));
            let pushed = start.after_all(events.take(6));
            &&& events[2] matches MtEvent::Mic(mic)
            &&& events[3] matches MtEvent::Refined(Some(core))
            &&& asked.stage == MtStage::OneStep
            &&& asked.cube == in_order(merged(mic@, core@))
            &&& events[5] matches MtEvent::OneStepCore(step_core)
            &&& pushed.cube == core_or(step_core, asked.cube)
            &&& events[6] matches MtEvent::Pushed { frame, cube }
            &&& start.after_all(events).cube == cube@
            &&& start.after_all(events).target == frame
        }),
{
    lemma_stages_in_order(start, events);
    let e6 = events.drop_last();
    let e5 = e6.drop_last();
    let e4 = e5.drop_last();
    let e3 = e4.drop_last();
    let e2 = e3.drop_last();
    let e1 = e2.drop_last();
    lemma_row_unfolds(start, events);
    lemma_row_unfolds(start, e6);
    lemma_row_unfolds(start, e5);
    lemma_row_unfolds(start, e4);
    lemma_row_unfolds(start, e3);
    lemma_row_unfolds(start, e2);
    lemma_row_unfolds(start, e1);
    assert(e6 =~= events.take(6));
    assert(e4 =~= events.take(4));
    assert(start.after_all(e1.drop_last()) == start);
}

/// What the one-step query is about covers both what the unrolled system
/// blocks and what the short horizon refutes: the cube holds the literals of
/// both and no other.
pub proof fn law_one_step_query_covers_both(view: MtView, core: Vec<Lit>, l: Lit)
    requires
        view.stage == MtStage::Refine,
    ensures
        ({
            let next = view.after(MtEvent::Refined(Some(core)));
            &&& next.stage == MtStage::OneStep
            &&& next.cube.contains(l) <==> view.cube.contains(l) || core@.contains(l)
        }),
{
    broadcast use vstd::seq_lib::group_to_multiset_ensures;

    let both = merged(view.cube, core@);
    law_blocking_cube_is_the_union(view.cube, core@);
    crate::lit::law_ordering_keeps_the_literals(both);
    assert(both.contains(l) <==> both.to_multiset().count(l) > 0);
    assert(in_order(both).contains(l) <==> in_order(both).to_multiset().count(l) > 0);
}

/// An attempt falls back for one of three reasons, each with its own counter:
/// the unrolled system gave no core, the short horizon did not refute the
/// obligation, or the merged cube is not one-step inductive. Nothing else is
/// counted then.
pub proof fn law_fallback_has_its_reason(view: MtView, event: MtEvent, mt: Mt)
    requires
        view.accepts(event),
        view.after(event).stage == MtStage::Done(MtBlockResult::Fallback),
    ensures
        ({
            let after = counted_mt(mt, event);
            ||| event == MtEvent::Core(None) && after == (Mt {
                fb_no_core: bumped(mt.fb_no_core),
                ..mt
            })
            ||| event == MtEvent::Refined(None) && after == (Mt {
                fb_rec_refine: bumped(mt.fb_rec_refine),
                ..mt
            })
            ||| event == MtEvent::OneStep(false) && after == (Mt {
                fb_gate_reject: bumped(mt.fb_gate_reject),
                ..mt
            })
        }),
{
}

/// A single timeframe leaves no horizon to refute the obligation in, so an
/// attempt over one timeframe never gets a lemma from it.
pub proof fn law_one_timeframe_has_no_horizon(view: MtView, lemma: Seq<Lit>)
    requires
        view.expansion == 1,
    ensures
        RefineView::start((view.expansion - 1) as nat, lemma, view.level, None).stage
            == RefineStage::Done(false),
{
}

/// An attempt reports a fixpoint exactly where adding the lemma closed one, a
/// lemma or a predecessor handles the obligation, and nothing but a missing
/// core, a refinement that failed or a cube that is not one-step inductive
/// makes it fall back.
pub proof fn law_attempt_result_has_its_answer(view: MtView, event: MtEvent)
    requires
        view.accepts(event),
    ensures
        ({
            let stage = view.after(event).stage;
            &&& event == MtEvent::Added(true) <==> stage == MtStage::Done(MtBlockResult::Proved)
            &&& event == MtEvent::Added(false) || event is Pred <==> stage == MtStage::Done(
                MtBlockResult::Handled,
            )
            &&& event == MtEvent::Core(None) || event == MtEvent::Refined(None) || event
                == MtEvent::OneStep(false) <==> stage == MtStage::Done(MtBlockResult::Fallback)
            &&& event == MtEvent::Blocked(true) <==> stage == MtStage::Core
            &&& event == MtEvent::Blocked(false) <==> stage == MtStage::Pred
            &&& (event matches MtEvent::Core(Some(_))) <==> stage == MtStage::Mic
            &&& event is Mic <==> stage == MtStage::Refine
            &&& (event matches MtEvent::Refined(Some(_))) <==> stage == MtStage::OneStep
            &&& event == MtEvent::OneStep(true) <==> stage == MtStage::OneStepCore
            &&& event is OneStepCore <==> stage == MtStage::Push
            &&& event is Pushed <==> stage == MtStage::Add
        }),
{
}

/// What an attempt has in hand after an answer: the core, the minimised core,
/// what the push left; without a core of the one-step query, what it was
/// about. The other answers leave it as it was, and nothing changes the
/// obligation that it is about.
pub proof fn law_attempt_hand_has_its_answer(view: MtView, event: MtEvent)
    requires
        view.accepts(event),
    ensures
        ({
            let next = view.after(event);
            &&& next.frame == view.frame && next.depth == view.depth && next.level == view.level
            &&& next.expansion == view.expansion && next.clauses == view.clauses
            &&& event matches MtEvent::Core(Some(core)) ==> next.cube == core@
            &&& event matches MtEvent::Mic(mic) ==> next.cube == mic@
            &&& event matches MtEvent::OneStepCore(Some(core)) ==> next.cube == core@
            &&& event == MtEvent::OneStepCore(None) ==> next.cube == view.cube
            &&& event matches MtEvent::Pushed { frame, cube } ==> next.cube == cube@ && next.target
                == frame && view.frame < frame <= view.level + 1
            &&& event is Blocked || event is OneStep || event is Added || event is Pred
                ==> next.cube == view.cube
            &&& !(event is Pushed) ==> next.target == view.target
            &&& !(event is Pred) ==> next.links == view.links
        }),
{
}

/// An attempt waits for one kind of answer at a time, takes every answer of
/// that kind, and waits for none once it has ended.
pub proof fn law_attempt_takes_every_answer(view: MtView, event: MtEvent)
    ensures
        view.stage is Done ==> !view.accepts(event),
        event is Blocked ==> (view.accepts(event) <==> view.stage == MtStage::Blocked),
        event is Core ==> (view.accepts(event) <==> view.stage == MtStage::Core),
        event is Mic ==> (view.accepts(event) <==> view.stage == MtStage::Mic),
        event is Refined ==> (view.accepts(event) <==> view.stage == MtStage::Refine),
        event is OneStep ==> (view.accepts(event) <==> view.stage == MtStage::OneStep),
        event is OneStepCore ==> (view.accepts(event) <==> view.stage == MtStage::OneStepCore),
        event is Added ==> (view.accepts(event) <==> view.stage == MtStage::Add),
        event is Pred ==> (view.accepts(event) <==> view.stage == MtStage::Pred),
        event matches MtEvent::Pushed { frame, .. } ==> (view.accepts(event) <==> view.stage
            == MtStage::Push && view.frame < frame <= view.level + 1),
{
}

/// The links of a predecessor carry what was found at their timeframe: the
/// model at the first, the states in between after it, each with the inputs of
/// its own timeframe, and nothing where nothing was found.
pub proof fn law_links_carry_their_timeframe(
    view: MtView,
    model: Vec<Lit>,
    inputs: Vec<Vec<Lit>>,
    mid_states: Vec<Vec<Lit>>,
    j: int,
)
    requires
        view.stage == MtStage::Pred,
        1 <= view.expansion <= view.frame,
        0 <= j < view.expansion,
    ensures
        ({
            let links = view.after(MtEvent::Pred { model, inputs, mid_states }).links;
            &&& links.len() == view.expansion
            &&& links[j].frame + view.expansion == view.frame + j
            &&& links[j].depth + j == view.depth + view.expansion
            &&& j < inputs@.len() ==> links[j].input == inputs@[j]@
            &&& j >= inputs@.len() ==> links[j].input.len() == 0
            &&& ordered(links[j].lemma)
            &&& j == 0 ==> links[j].lemma.to_multiset() == model@.to_multiset()
            &&& 0 < j <= mid_states@.len() ==> links[j].lemma.to_multiset()
                == mid_states@[j - 1]@.to_multiset()
            &&& j > mid_states@.len() ==> links[j].lemma.len() == 0
        }),
{
    broadcast use vstd::seq_lib::group_to_multiset_ensures;

    let links = view.after(MtEvent::Pred { model, inputs, mid_states }).links;
    let cube = if j == 0 {
        model@
    } else {
        nth_or_empty(contents(mid_states@), j - 1)
    };
    crate::lit::law_ordering_keeps_the_literals(cube);
    assert(links[j].lemma == in_order(cube));
    assert(in_order(cube).len() == in_order(cube).to_multiset().len());
    assert(cube.len() == cube.to_multiset().len());
}

/// Each reason to fall back and each lemma is counted once, and nothing else
/// is counted.
pub proof fn law_attempt_counts_what_happened(mt: Mt, event: MtEvent)
    ensures
        ({
            let after = counted_mt(mt, event);
            &&& after.fb_no_core == bumped_if(mt.fb_no_core, event == MtEvent::Core(None))
            &&& after.fb_rec_refine == bumped_if(mt.fb_rec_refine, event == MtEvent::Refined(None))
            &&& after.fb_gate_reject == bumped_if(
                mt.fb_gate_reject,
                event == MtEvent::OneStep(false),
            )
            &&& after.mt_lemma_added == bumped_if(mt.mt_lemma_added, event is Pushed)
            &&& after.restart_checks == mt.restart_checks && after.abs_only == mt.abs_only
            &&& after.rel_only == mt.rel_only && after.num_restart == mt.num_restart
            &&& after.mt_block_by_expansion == mt.mt_block_by_expansion
            &&& after.final_median == mt.final_median && after.median_samples == mt.median_samples
        }),
{
}

/// An attempt begins with the obligation's own cube and its frame, and with
/// the question whether it is blocked.
pub proof fn law_attempt_begins_with_the_obligation(
    frame: nat,
    depth: nat,
    level: nat,
    expansion: nat,
    lemma: Seq<Lit>,
    clauses: Seq<Seq<Lit>>,
)
    ensures
        ({
            let start = MtView::start(frame, depth, level, expansion, lemma, clauses);
            &&& start.stage == MtStage::Blocked
            &&& start.cube == lemma
            &&& start.clauses == clauses
            &&& start.frame == frame && start.depth == depth && start.level == level
            &&& start.expansion == expansion
            &&& start.target == frame
            &&& start.links.len() == 0
        }),
{
}

} // verus!
