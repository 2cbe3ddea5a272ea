//! Blocking a cube with its predecessors, one step at a time, without the
//! obligation queue.

use vstd::prelude::*;

use crate::ic3::IC3;
use crate::lemma::core_or;
use crate::lit::{copy_cube, in_order, literals_among, order_cube, ordered, Lit};
use crate::mic::DropVarParameter;

verus! {

/// A cube that is to be blocked in a frame.
pub struct Call {
    pub frame: usize,
    /// The cube, its literals in the order of their codes.
    pub lemma: Vec<Lit>,
}

/// The mathematical view of a call.
#[verifier::ext_equal]
pub struct CallView {
    pub frame: nat,
    pub lemma: Seq<Lit>,
}

impl View for Call {
    type V = CallView;

    open spec fn view(&self) -> CallView {
        CallView { frame: self.frame as nat, lemma: self.lemma@ }
    }
}

/// What a refinement waits for.
#[derive(Clone, Copy, PartialEq, Eq, Structural, Debug)]
pub enum RefineStage {
    /// Whether the innermost cube meets the initial states.
    Init,
    /// Whether the innermost cube is blocked.
    Blocked,
    /// The inductive core of the query that blocked it.
    Core,
    /// The minimised core.
    Mic,
    /// The frame to which the minimised core was pushed.
    Push,
    /// That the lemma was added.
    Add,
    /// A predecessor of the innermost cube.
    Pred,
    /// Nothing: whether the outermost cube was blocked.
    Done(bool),
}

/// An answer that a refinement waited for.
pub enum RefineEvent {
    /// Whether the cube meets the initial states.
    Init(bool),
    /// Whether the cube is blocked.
    Blocked(bool),
    /// The inductive core, where the solver has one.
    Core(Option<Vec<Lit>>),
    /// The minimised core.
    Mic(Vec<Lit>),
    /// The frame to which the cube was pushed, and what is left of it.
    Pushed { frame: usize, cube: Vec<Lit> },
    /// The lemma was added.
    Added,
    /// A predecessor of the cube.
    Pred(Vec<Lit>),
}

/// Blocking a cube by blocking its predecessors first.
pub struct RefineRun {
    /// The cubes that are being blocked, each a predecessor of the one
    /// before.
    pub calls: Vec<Call>,
    /// How many more cubes may be taken on, where there is a limit.
    pub limit: Option<usize>,
    /// The last frame.
    pub level: usize,
    /// The cube that becomes the next lemma, or the lemma that was added
    /// last.
    pub cube: Vec<Lit>,
    /// The first frame to which the lemma does not belong.
    pub target: usize,
    pub stage: RefineStage,
}

/// The mathematical view of a refinement.
#[verifier::ext_equal]
pub struct RefineView {
    pub calls: Seq<CallView>,
    pub limit: Option<nat>,
    pub level: nat,
    pub cube: Seq<Lit>,
    pub target: nat,
    pub stage: RefineStage,
}

/// The views of `calls`, in their order.
pub open spec fn views(calls: Seq<Call>) -> Seq<CallView> {
    calls.map_values(|c: Call| c@)
}

impl View for RefineRun {
    type V = RefineView;

    open spec fn view(&self) -> RefineView {
        RefineView {
            calls: views(self.calls@),
            limit: match self.limit {
                Some(n) => Some(n as nat),
                None => None,
            },
            level: self.level as nat,
            cube: self.cube@,
            target: self.target as nat,
            stage: self.stage,
        }
    }
}

impl RefineView {
    /// The refinement that takes on one more cube. Nothing can be blocked in
    /// frame 0.
    pub open spec fn calling(self, frame: nat, lemma: Seq<Lit>) -> RefineView {
        RefineView {
            calls: self.calls.push(CallView { frame, lemma }),
            stage: if frame == 0 {
                RefineStage::Done(false)
            } else {
                RefineStage::Init
            },
            ..self
        }
    }

    /// The refinement of `lemma` in `frame`.
    pub open spec fn start(
        frame: nat,
        lemma: Seq<Lit>,
        level: nat,
        limit: Option<nat>,
    ) -> RefineView {
        RefineView {
            calls: Seq::empty(),
            limit,
            level,
            cube: Seq::empty(),
            target: 0,
            stage: RefineStage::Init,
        }.calling(frame, lemma)
    }

    /// There is a cube to block, in a frame above frame 0.
    pub open spec fn wf(self) -> bool {
        self.stage is Done || {
            &&& self.calls.len() > 0
            &&& self.calls.last().frame > 0
            &&& self.stage == RefineStage::Add ==> self.calls.last().frame < self.target
                <= self.level + 1
            &&& forall|i: int| 0 <= i < self.calls.len() ==> (#[trigger] self.calls[i]).frame > 0
        }
    }

    /// The refinement waits for this answer. A limited refinement needs a core
    /// for each cube.
    pub open spec fn accepts(self, event: RefineEvent) -> bool {
        match event {
            RefineEvent::Init(_) => self.stage == RefineStage::Init,
            RefineEvent::Blocked(_) => self.stage == RefineStage::Blocked,
            RefineEvent::Core(core) => self.stage == RefineStage::Core && (self.limit is None
                || core is Some),
            RefineEvent::Mic(_) => self.stage == RefineStage::Mic,
            RefineEvent::Pushed { frame, .. } => self.stage == RefineStage::Push
                && self.calls.last().frame < frame <= self.level + 1,
            RefineEvent::Added => self.stage == RefineStage::Add,
            RefineEvent::Pred(_) => self.stage == RefineStage::Pred,
        }
    }

    /// The refinement after an answer. A blocked cube is turned into a lemma,
    /// and the one before it is tried again. A cube that is not blocked gives
    /// way to a predecessor. The refinement fails where a cube meets the
    /// initial states, where a predecessor reaches frame 0, and where the
    /// limit is used up.
    pub open spec fn after(self, event: RefineEvent) -> RefineView {
        match event {
            RefineEvent::Init(true) => RefineView { stage: RefineStage::Done(false), ..self },
            RefineEvent::Init(false) => match self.limit {
                Some(n) => if n == 0 {
                    RefineView { stage: RefineStage::Done(false), ..self }
                } else {
                    RefineView {
                        limit: Some((n - 1) as nat),
                        stage: RefineStage::Blocked,
                        ..self
                    }
                },
                None => RefineView { stage: RefineStage::Blocked, ..self },
            },
            RefineEvent::Blocked(true) => RefineView { stage: RefineStage::Core, ..self },
            RefineEvent::Blocked(false) => RefineView {
                stage: if self.limit == Some(0nat) {
                    RefineStage::Done(false)
                } else {
                    RefineStage::Pred
                },
                ..self
            },
            RefineEvent::Core(core) => RefineView {
                cube: core_or(core, self.calls.last().lemma),
                stage: RefineStage::Mic,
                ..self
            },
            RefineEvent::Mic(mic) => RefineView { cube: mic@, stage: RefineStage::Push, ..self },
            RefineEvent::Pushed { frame, cube } => RefineView {
                cube: cube@,
                target: frame as nat,
                stage: RefineStage::Add,
                ..self
            },
            RefineEvent::Added => RefineView {
                calls: self.calls.drop_last(),
                stage: if self.calls.len() == 1 {
                    RefineStage::Done(true)
                } else {
                    RefineStage::Blocked
                },
                ..self
            },
            RefineEvent::Pred(model) => self.calling(
                (self.calls.last().frame - 1) as nat,
                in_order(model@),
            ),
        }
    }

    /// The refinement after a row of answers.
    pub open spec fn after_all(self, events: Seq<RefineEvent>) -> RefineView
        decreases events.len(),
    {
        if events.len() == 0 {
            self
        } else {
            self.after_all(events.drop_last()).after(events.last())
        }
    }

    /// Every answer of the row came when the refinement waited for it.
    pub open spec fn accepts_all(self, events: Seq<RefineEvent>) -> bool
        decreases events.len(),
    {
        events.len() > 0 ==> {
            &&& self.accepts_all(events.drop_last())
            &&& self.after_all(events.drop_last()).accepts(events.last())
        }
    }

    /// Each cube is to be blocked one frame below the one before.
    pub open spec fn descends_from(self, frame: nat) -> bool {
        forall|i: int|
            0 <= i < self.calls.len() ==> (#[trigger] self.calls[i]).frame == frame - i
    }
}

impl RefineRun {
    /// There is a cube to block, in a frame above frame 0.
    pub open spec fn wf(self) -> bool {
        self@.wf() && self.level < usize::MAX
    }

    fn start(frame: usize, lemma: &Vec<Lit>, level: usize, limit: Option<usize>) -> (r: RefineRun)
        requires
            level < usize::MAX,
        ensures
            r.wf(),
            r@ == RefineView::start(
                frame as nat,
                lemma@,
                level as nat,
                match limit {
                    Some(n) => Some(n as nat),
                    None => None,
                },
            ),
    {
        let mut calls: Vec<Call> = Vec::new();
        calls.push(Call { frame, lemma: copy_cube(lemma) });
        let stage = if frame == 0 {
            RefineStage::Done(false)
        } else {
            RefineStage::Init
        };
        let r = RefineRun { calls, limit, level, cube: Vec::new(), target: 0, stage };
        assert(r@.calls =~= Seq::<CallView>::empty().push(
            CallView { frame: frame as nat, lemma: lemma@ },
        ));
        r
    }

    /// Whether the refinement waits for this answer.
    pub fn accepts(&self, event: &RefineEvent) -> (r: bool)
        requires
            self.wf(),
        ensures
            r == self@.accepts(*event),
    {
        match event {
            RefineEvent::Init(_) => self.stage == RefineStage::Init,
            RefineEvent::Blocked(_) => self.stage == RefineStage::Blocked,
            RefineEvent::Core(core) => self.stage == RefineStage::Core && (self.limit.is_none()
                || core.is_some()),
            RefineEvent::Mic(_) => self.stage == RefineStage::Mic,
            RefineEvent::Pushed { frame, .. } => {
                if self.stage == RefineStage::Push {
                    assert(self@.calls.last() == self.calls@.last()@);
                    let n: usize = self.calls.len();
                    self.calls[n - 1].frame < *frame && *frame <= self.level + 1
                } else {
                    false
                }
            },
            RefineEvent::Added => self.stage == RefineStage::Add,
            RefineEvent::Pred(_) => self.stage == RefineStage::Pred,
        }
    }

    /// The frame in which the innermost cube is to be blocked.
    pub fn frame(&self) -> (r: usize)
        requires
            self.wf(),
            !(self.stage is Done),
        ensures
            r == self@.calls.last().frame,
            r > 0,
    {
        assert(self@.calls.last() == self.calls@.last()@);
        let n: usize = self.calls.len();
        self.calls[n - 1].frame
    }

    /// The innermost cube.
    pub fn lemma(&self) -> (r: Vec<Lit>)
        requires
            self.wf(),
            !(self.stage is Done),
        ensures
            r@ == self@.calls.last().lemma,
    {
        assert(self@.calls.last() == self.calls@.last()@);
        let n: usize = self.calls.len();
        copy_cube(&self.calls[n - 1].lemma)
    }

    /// The frame to which the lemma is to be added.
    pub fn lemma_frame(&self) -> (r: usize)
        requires
            self.wf(),
            self.stage == RefineStage::Add,
        ensures
            r == self@.target - 1,
            self@.calls.last().frame <= r <= self.level,
    {
        self.target - 1
    }

    /// Takes an answer.
    pub fn step(&mut self, event: RefineEvent)
        requires
            old(self).wf(),
            old(self)@.accepts(event),
        ensures
            final(self).wf(),
            final(self)@ == old(self)@.after(event),
            event == RefineEvent::Init(true) ==> final(self).stage == RefineStage::Done(false),
    {
        match event {
            RefineEvent::Init(meets) => {
                if meets {
                    self.stage = RefineStage::Done(false);
                } else {
                    match self.limit {
                        Some(n) => {
                            if n == 0 {
                                self.stage = RefineStage::Done(false);
                            } else {
                                self.limit = Some(n - 1);
                                self.stage = RefineStage::Blocked;
                            }
                        },
                        None => {
                            self.stage = RefineStage::Blocked;
                        },
                    }
                }
            },
            RefineEvent::Blocked(blocked) => {
                if blocked {
                    self.stage = RefineStage::Core;
                } else {
                    self.stage = match self.limit {
                        Some(n) => if n == 0 {
                            RefineStage::Done(false)
                        } else {
                            RefineStage::Pred
                        },
                        None => RefineStage::Pred,
                    };
                }
            },
            RefineEvent::Core(core) => {
                self.cube = match core {
                    Some(c) => c,
                    None => self.lemma(),
                };
                self.stage = RefineStage::Mic;
            },
            RefineEvent::Mic(mic) => {
                self.cube = mic;
                self.stage = RefineStage::Push;
            },
            RefineEvent::Pushed { frame, cube } => {
                self.cube = cube;
                self.target = frame;
                self.stage = RefineStage::Add;
            },
            RefineEvent::Added => {
                let ghost before = self.calls@;
                let _ = self.calls.pop();
                assert(views(self.calls@) =~= views(before).drop_last());
                self.stage = if self.calls.len() == 0 {
                    RefineStage::Done(true)
                } else {
                    RefineStage::Blocked
                };
            },
            RefineEvent::Pred(model) => {
                let frame: usize = self.frame() - 1;
                let ghost before = self.calls@;
                self.calls.push(Call { frame, lemma: order_cube(model) });
                assert(views(self.calls@) =~= views(before).push(
                    CallView { frame: frame as nat, lemma: in_order(model@) },
                ));
                self.stage = if frame == 0 {
                    RefineStage::Done(false)
                } else {
                    RefineStage::Init
                };
            },
        }
    }
}

impl IC3 {
    /// Starts blocking `lemma` at the short horizon `frame`, without a limit.
    /// Where it ends well, `cube` is the lemma that blocks it.
    pub fn mt_rec_refine(&self, frame: usize, lemma: &Vec<Lit>) -> (r: RefineRun)
        requires
            self.num_solvers > 0,
        ensures
            r.wf(),
            r@ == RefineView::start(frame as nat, lemma@, self.spec_level(), None),
    {
        RefineRun::start(frame, lemma, self.level(), None)
    }

    /// Starts blocking `lemma` in `frame`, taking on as many cubes at most as
    /// the effort allows.
    pub fn trivial_block(
        &self,
        frame: usize,
        lemma: &Vec<Lit>,
        parameter: DropVarParameter,
    ) -> (r: RefineRun)
        requires
            self.num_solvers > 0,
        ensures
            r.wf(),
            r@ == RefineView::start(
                frame as nat,
                lemma@,
                self.spec_level(),
                Some(parameter.limit as nat),
            ),
    {
        RefineRun::start(frame, lemma, self.level(), Some(parameter.limit))
    }
}

/// A refinement goes down one frame with each predecessor, so it is never
/// more cubes deep than there are frames below the one it started in.
pub proof fn law_refinement_descends(
    frame: nat,
    lemma: Seq<Lit>,
    level: nat,
    limit: Option<nat>,
    events: Seq<RefineEvent>,
)
    requires
        RefineView::start(frame, lemma, level, limit).accepts_all(events),
    ensures
        ({
            let end = RefineView::start(frame, lemma, level, limit).after_all(events);
            &&& end.wf()
            &&& end.descends_from(frame)
            &&& end.calls.len() <= frame + 1
            &&& !(end.stage is Done) ==> 0 < end.calls.len() <= frame && end.calls[0]
                == (CallView { frame, lemma })
        }),
    decreases events.len(),
{
    let start = RefineView::start(frame, lemma, level, limit);
    if events.len() > 0 {
        law_refinement_descends(frame, lemma, level, limit, events.drop_last());
        let before = start.after_all(events.drop_last());
        let end = before.after(events.last());
        assert(before.calls.last() == before.calls[before.calls.len() - 1]);
        if end.calls.len() > 0 {
            assert(end.calls.last() == end.calls[end.calls.len() - 1]);
        }
    }
}

/// The cubes that a refinement took on: those that did not meet the initial
/// states while the limit allowed for one more.
pub open spec fn num_taken_on(start: RefineView, events: Seq<RefineEvent>) -> nat
    decreases events.len(),
{
    if events.len() == 0 {
        0
    } else {
        let before = start.after_all(events.drop_last());
        num_taken_on(start, events.drop_last()) + if (events.last() matches RefineEvent::Init(_))
            && before.after(events.last()).stage == RefineStage::Blocked {
            1nat
        } else {
            0
        }
    }
}

/// A limited refinement pays for each cube that it takes on, and for nothing
/// else; it never takes on more than the limit.
pub proof fn law_limit_pays_for_cubes(start: RefineView, limit: nat, events: Seq<RefineEvent>)
    requires
        start.limit == Some(limit),
        start.accepts_all(events),
    ensures
        num_taken_on(start, events) <= limit,
        start.after_all(events).limit == Some((limit - num_taken_on(start, events)) as nat),
    decreases events.len(),
{
    if events.len() > 0 {
        law_limit_pays_for_cubes(start, limit, events.drop_last());
    }
}

/// A refinement without a limit keeps none.
pub proof fn law_no_limit_stays_none(start: RefineView, events: Seq<RefineEvent>)
    requires
        start.limit is None,
    ensures
        start.after_all(events).limit is None,
    decreases events.len(),
{
    if events.len() > 0 {
        law_no_limit_stays_none(start, events.drop_last());
    }
}

/// A refinement fails only where the innermost cube meets the initial states,
/// where its predecessor would have to be blocked in frame 0, or where the
/// limit is used up.
pub proof fn law_failure_has_its_reason(view: RefineView, event: RefineEvent)
    requires
        view.wf(),
        view.accepts(event),
        view.after(event).stage == RefineStage::Done(false),
    ensures
        ({
            ||| event matches RefineEvent::Init(true)
            ||| (event matches RefineEvent::Pred(_)) && view.calls.last().frame == 1
            ||| view.limit == Some(0nat)
        }),
{
}

/// A refinement succeeds only with the lemma that blocks its outermost cube:
/// that cube was found blocked, and the lemma was minimised, pushed and added
/// to a frame that is at least the cube's.
pub proof fn law_success_adds_the_outermost_lemma(
    frame: nat,
    lemma: Seq<Lit>,
    level: nat,
    limit: Option<nat>,
    events: Seq<RefineEvent>,
)
    requires
        RefineView::start(frame, lemma, level, limit).accepts_all(events),
        RefineView::start(frame, lemma, level, limit).after_all(events).stage == RefineStage::Done(
            true,
        ),
    ensures
        ({
            let start = RefineView::start(frame, lemma, level, limit);
            let end = start.after_all(events);
            let n = events.len() as int;
            &&& n >= 5
            &&& events[n - 5] == RefineEvent::Blocked(true)
            &&& start.after_all(events.take(n - 5)).calls == seq![CallView { frame, lemma }]
            &&& events[n - 4] matches RefineEvent::Core(_)
            &&& events[n - 3] matches RefineEvent::Mic(_)
            &&& events[n - 2] matches RefineEvent::Pushed { frame: f, cube } && f == end.target
                && cube@ == end.cube
            &&& events[n - 1] == RefineEvent::Added
            &&& frame <= end.target - 1 <= level
            &&& end.calls.len() == 0
        }),
{
    let start = RefineView::start(frame, lemma, level, limit);
    let n = events.len() as int;
    assert(n > 0);
    let e1 = events.drop_last();
    lemma_level_stays(start, e1);
    law_refinement_descends(frame, lemma, level, limit, e1);
    let v1 = start.after_all(e1);
    assert(start.accepts_all(e1));
    assert(v1.stage == RefineStage::Add);
    assert(e1.len() > 0);
    let e2 = e1.drop_last();
    let v2 = start.after_all(e2);
    assert(start.accepts_all(e2));
    assert(v2.accepts(e1.last()));
    assert(v1 == v2.after(e1.last()));
    assert(v2.stage == RefineStage::Push);
    assert(e2.len() > 0);
    let e3 = e2.drop_last();
    let v3 = start.after_all(e3);
    assert(start.accepts_all(e3));
    assert(v3.accepts(e2.last()));
    assert(v2 == v3.after(e2.last()));
    assert(v3.stage == RefineStage::Mic);
    assert(e3.len() > 0);
    let e4 = e3.drop_last();
    let v4 = start.after_all(e4);
    assert(start.accepts_all(e4));
    assert(v4.accepts(e3.last()));
    assert(v3 == v4.after(e3.last()));
    assert(v4.stage == RefineStage::Core);
    assert(e4.len() > 0);
    let e5 = e4.drop_last();
    let v5 = start.after_all(e5);
    assert(start.accepts_all(e5));
    assert(v5.accepts(e4.last()));
    assert(v4 == v5.after(e4.last()));
    assert(v5.stage == RefineStage::Blocked);
    assert(e5 =~= events.take(n - 5));
    assert(v5.calls =~= seq![CallView { frame, lemma }]);
}

/// A core, a minimised core and what a push leaves have no literal that what
/// was handed out for them does not have.
pub open spec fn answer_adds_nothing(view: RefineView, event: RefineEvent) -> bool {
    match event {
        RefineEvent::Core(Some(core)) => literals_among(core@, view.calls.last().lemma),
        RefineEvent::Mic(mic) => literals_among(mic@, view.cube),
        RefineEvent::Pushed { cube, .. } => literals_among(cube@, view.cube),
        _ => true,
    }
}

/// The cube that a refinement returns covers the states of the cube that it
/// was to block: where no answer adds a literal, its literals are among those
/// of that cube.
pub proof fn law_refined_cube_covers_the_lemma(
    frame: nat,
    lemma: Seq<Lit>,
    level: nat,
    limit: Option<nat>,
    events: Seq<RefineEvent>,
)
    requires
        RefineView::start(frame, lemma, level, limit).accepts_all(events),
        RefineView::start(frame, lemma, level, limit).after_all(events).stage == RefineStage::Done(
            true,
        ),
        forall|k: int|
            0 <= k < events.len() ==> answer_adds_nothing(
                RefineView::start(frame, lemma, level, limit).after_all(events.take(k)),
                #[trigger] events[k],
            ),
    ensures
        literals_among(
            RefineView::start(frame, lemma, level, limit).after_all(events).cube,
            lemma,
        ),
{
    law_success_adds_the_outermost_lemma(frame, lemma, level, limit, events);
    let start = RefineView::start(frame, lemma, level, limit);
    let n = events.len() as int;
    let blocked = start.after_all(events.take(n - 5));
    let core = start.after_all(events.take(n - 4));
    let mic = start.after_all(events.take(n - 3));
    let push = start.after_all(events.take(n - 2));
    assert(events.take(n - 4).drop_last() =~= events.take(n - 5));
    assert(core == blocked.after(events[n - 5]));
    assert(core.calls.last() == CallView { frame, lemma });
    assert(events.take(n - 3).drop_last() =~= events.take(n - 4));
    assert(mic == core.after(events[n - 4]));
    assert(answer_adds_nothing(core, events[n - 4]));
    assert(literals_among(mic.cube, lemma));
    assert(events.take(n - 2).drop_last() =~= events.take(n - 3));
    assert(push == mic.after(events[n - 3]));
    assert(answer_adds_nothing(mic, events[n - 3]));
    assert(literals_among(push.cube, lemma));
    assert(answer_adds_nothing(push, events[n - 2]));
}

proof fn lemma_level_stays(start: RefineView, events: Seq<RefineEvent>)
    ensures
        start.after_all(events).level == start.level,
    decreases events.len(),
{
    if events.len() > 0 {
        lemma_level_stays(start, events.drop_last());
    }
}

/// No cube that meets the initial states is ever taken on, however many are
/// being blocked: the refinement fails there and then. Any other cube is
/// asked about, unless the limit is used up, and costs one of the limit.
pub proof fn law_initial_states_end_a_refinement(view: RefineView, meets: bool)
    requires
        view.stage == RefineStage::Init,
    ensures
        view.accepts(RefineEvent::Init(meets)),
        ({
            let next = view.after(RefineEvent::Init(meets));
            &&& next.calls == view.calls
            &&& next.cube == view.cube
            &&& meets ==> next.stage == RefineStage::Done(false) && next.limit == view.limit
            &&& !meets && view.limit is None ==> next.stage == RefineStage::Blocked
                && next.limit is None
            &&& !meets && view.limit == Some(0nat) ==> next.stage == RefineStage::Done(false)
            &&& !meets ==> (view.limit matches Some(n) ==> n > 0 ==> next.stage
                == RefineStage::Blocked && next.limit is Some && next.limit->0 + 1 == n)
        }),
{
}

/// A blocked cube is turned into a lemma. One that is not blocked leads to a
/// predecessor, unless the limit is used up.
pub proof fn law_query_decides_a_refinement(view: RefineView, blocked: bool)
    requires
        view.stage == RefineStage::Blocked,
    ensures
        view.accepts(RefineEvent::Blocked(blocked)),
        ({
            let next = view.after(RefineEvent::Blocked(blocked));
            &&& next.calls == view.calls
            &&& next.limit == view.limit
            &&& blocked <==> next.stage == RefineStage::Core
            &&& !blocked && view.limit == Some(0nat) <==> next.stage == RefineStage::Done(false)
            &&& !blocked && view.limit != Some(0nat) <==> next.stage == RefineStage::Pred
        }),
{
}

/// The lemma of a blocked cube is what the push leaves of its minimised core;
/// without a core it is made of the cube itself.
pub proof fn law_refined_lemma_comes_from_the_core(view: RefineView, event: RefineEvent)
    requires
        view.accepts(event),
    ensures
        ({
            let next = view.after(event);
            &&& event matches RefineEvent::Core(core) ==> {
                &&& next.stage == RefineStage::Mic
                &&& next.calls == view.calls && next.limit == view.limit
                &&& core matches Some(c) ==> next.cube == c@
                &&& core is None ==> next.cube == view.calls.last().lemma && view.limit is None
            }
            &&& event matches RefineEvent::Mic(mic) ==> {
                &&& next.stage == RefineStage::Push
                &&& next.calls == view.calls && next.limit == view.limit
                &&& next.cube == mic@
            }
            &&& event matches RefineEvent::Pushed { frame, cube } ==> {
                &&& next.stage == RefineStage::Add
                &&& next.calls == view.calls && next.limit == view.limit
                &&& next.cube == cube@
                &&& next.target == frame
                &&& view.calls.last().frame < frame <= view.level + 1
            }
            &&& event is Core <==> view.stage == RefineStage::Core
            &&& event is Mic <==> view.stage == RefineStage::Mic
            &&& event is Pushed <==> view.stage == RefineStage::Push
        }),
{
}

/// A lemma settles the innermost cube alone: the cube that it is a predecessor
/// of is asked about again, and the outermost one ends the refinement in
/// success.
pub proof fn law_lemma_settles_the_innermost_cube(view: RefineView)
    requires
        view.stage == RefineStage::Add,
        view.calls.len() > 0,
    ensures
        view.accepts(RefineEvent::Added),
        ({
            let next = view.after(RefineEvent::Added);
            &&& next.cube == view.cube
            &&& next.limit == view.limit
            &&& next.calls.len() + 1 == view.calls.len()
            &&& forall|i: int| 0 <= i < next.calls.len() ==> next.calls[i] == view.calls[i]
            &&& view.calls.len() == 1 <==> next.stage == RefineStage::Done(true)
            &&& view.calls.len() > 1 <==> next.stage == RefineStage::Blocked
        }),
{
}

/// A predecessor is to be blocked one frame below the cube that it leads to,
/// with the same literals in order; where that would be frame 0 the refinement
/// fails.
pub proof fn law_predecessor_goes_one_frame_down(view: RefineView, model: Vec<Lit>)
    requires
        view.wf(),
        view.stage == RefineStage::Pred,
    ensures
        view.accepts(RefineEvent::Pred(model)),
        ({
            let next = view.after(RefineEvent::Pred(model));
            let n = view.calls.len() as int;
            &&& next.limit == view.limit
            &&& next.calls.len() == n + 1
            &&& forall|i: int| 0 <= i < n ==> next.calls[i] == view.calls[i]
            &&& next.calls[n].frame + 1 == view.calls[n - 1].frame
            &&& ordered(next.calls[n].lemma)
            &&& next.calls[n].lemma.to_multiset() == model@.to_multiset()
            &&& next.calls[n].frame == 0 <==> next.stage == RefineStage::Done(false)
            &&& next.calls[n].frame > 0 <==> next.stage == RefineStage::Init
        }),
{
    crate::lit::law_ordering_keeps_the_literals(model@);
}

/// A refinement begins with the one cube that it is to block, which cannot be
/// done in frame 0, and waits for nothing once it has ended.
pub proof fn law_refinement_begins_with_its_cube(
    frame: nat,
    lemma: Seq<Lit>,
    level: nat,
    limit: Option<nat>,
    event: RefineEvent,
)
    ensures
        ({
            let start = RefineView::start(frame, lemma, level, limit);
            &&& start.calls.len() == 1
            &&& start.calls[0].frame == frame
            &&& start.calls[0].lemma == lemma
            &&& start.level == level
            &&& start.limit == limit
            &&& frame == 0 <==> start.stage == RefineStage::Done(false)
            &&& frame > 0 <==> start.stage == RefineStage::Init
            &&& frame == 0 ==> !start.accepts(event)
        }),
{
}

/// A lemma goes to a frame above that of the cube it blocks, the one after the
/// last at most; the refinement takes any such frame and no other.
pub proof fn law_lemma_goes_above_its_cube(view: RefineView, event: RefineEvent)
    ensures
        event matches RefineEvent::Pushed { frame, .. } ==> (view.accepts(event) <==> view.stage
            == RefineStage::Push && view.calls.last().frame < frame && frame <= view.level + 1),
{
}

/// A core is always taken; the lack of one only where the refinement has no
/// limit.
pub proof fn law_limited_refinement_needs_a_core(view: RefineView, core: Option<Vec<Lit>>)
    requires
        view.stage == RefineStage::Core,
    ensures
        core is Some ==> view.accepts(RefineEvent::Core(core)),
        core is None ==> (view.accepts(RefineEvent::Core(core)) <==> view.limit is None),
{
}

} // verus!
