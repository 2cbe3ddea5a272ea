//! From a blocked obligation to a lemma: generalising it and pushing it to
//! the highest frame that supports it.

use vstd::prelude::*;

use crate::lit::{copy_cube, in_order, literals_among, order_cube, ordered, Lit};

verus! {

/// A proof obligation: the cube that is to be blocked in a frame, the inputs
/// that lead from it to the next obligation, and its distance from the bad
/// state.
pub struct Link {
    pub frame: usize,
    /// The cube, its literals in the order of their codes.
    pub lemma: Vec<Lit>,
    pub input: Vec<Lit>,
    pub depth: usize,
}

/// The mathematical view of an obligation.
#[verifier::ext_equal]
pub struct LinkView {
    pub frame: nat,
    pub lemma: Seq<Lit>,
    pub input: Seq<Lit>,
    pub depth: nat,
}

impl View for Link {
    type V = LinkView;

    open spec fn view(&self) -> LinkView {
        LinkView {
            frame: self.frame as nat,
            lemma: self.lemma@,
            input: self.input@,
            depth: self.depth as nat,
        }
    }
}

impl LinkView {
    /// The obligation for `cube`, its literals put in order.
    pub open spec fn of(frame: nat, cube: Seq<Lit>, input: Seq<Lit>, depth: nat) -> LinkView {
        LinkView { frame, lemma: in_order(cube), input, depth }
    }
}

impl Link {
    /// The obligation to block `cube` in `frame`.
    pub fn new(frame: usize, cube: Vec<Lit>, input: Vec<Lit>, depth: usize) -> (r: Link)
        ensures
            r@ == LinkView::of(frame as nat, cube@, input@, depth as nat),
            r.frame == frame,
            r.depth == depth,
            r.input@ == input@,
            ordered(r.lemma@),
            r.lemma@.to_multiset() == cube@.to_multiset(),
    {
        Link { frame, lemma: order_cube(cube), input, depth }
    }

    /// The obligation to block a predecessor of the obligation at `frame` and
    /// `depth`: one frame below, one step further from the bad state.
    pub fn predecessor(frame: usize, depth: usize, model: Vec<Lit>, input: Vec<Lit>) -> (r: Link)
        requires
            frame > 0,
            depth < usize::MAX,
        ensures
            r@ == LinkView::of((frame - 1) as nat, model@, input@, (depth + 1) as nat),
            r.frame + 1 == frame,
            r.depth == depth + 1,
            r.input@ == input@,
            ordered(r.lemma@),
            r.lemma@.to_multiset() == model@.to_multiset(),
    {
        Link::new(frame - 1, model, input, depth + 1)
    }

    /// The obligation to block a bad state in the last frame.
    pub fn bad_state(level: usize, bad: Vec<Lit>, input: Vec<Lit>) -> (r: Link)
        ensures
            r@ == LinkView::of(level as nat, bad@, input@, 0),
            r.frame == level,
            r.depth == 0,
            r.input@ == input@,
            ordered(r.lemma@),
            r.lemma@.to_multiset() == bad@.to_multiset(),
    {
        Link::new(level, bad, input, 0)
    }
}

/// What a push waits for.
#[derive(Clone, Copy, PartialEq, Eq, Structural, Debug)]
pub enum PushStage {
    /// Whether the cube is inductive relative to the frame below the next one.
    Ask,
    /// The core of the query that was just answered.
    Core,
    /// Nothing: the highest frame is known.
    Done,
}

/// An answer that a push waited for.
pub enum PushEvent {
    /// Whether the cube is inductive there.
    Inductive(bool),
    /// The inductive core, where the solver has one.
    Core(Option<Vec<Lit>>),
}

/// Pushing a cube up the frames.
pub struct PushRun {
    /// The last frame.
    pub level: usize,
    /// The frame that is tried next; at the end, the first frame to which the
    /// cube does not belong.
    pub next: usize,
    /// The cube, reduced to the cores found on the way.
    pub cube: Vec<Lit>,
    pub stage: PushStage,
}

/// The mathematical view of a push.
#[verifier::ext_equal]
pub struct PushView {
    pub level: nat,
    pub next: nat,
    pub cube: Seq<Lit>,
    pub stage: PushStage,
}

impl View for PushRun {
    type V = PushView;

    open spec fn view(&self) -> PushView {
        PushView {
            level: self.level as nat,
            next: self.next as nat,
            cube: self.cube@,
            stage: self.stage,
        }
    }
}

/// The cube that a core leaves: the core, or what was there without one.
pub open spec fn core_or(core: Option<Vec<Lit>>, cube: Seq<Lit>) -> Seq<Lit> {
    match core {
        Some(c) => c@,
        None => cube,
    }
}

impl PushView {
    /// The push of a cube that is blocked in `frame`.
    pub open spec fn start(frame: nat, level: nat, cube: Seq<Lit>) -> PushView {
        if frame < level {
            PushView { level, next: frame + 1, cube, stage: PushStage::Ask }
        } else {
            PushView { level, next: level + 1, cube, stage: PushStage::Done }
        }
    }

    /// The push waits for this answer.
    pub open spec fn accepts(self, event: PushEvent) -> bool {
        match event {
            PushEvent::Inductive(_) => self.stage == PushStage::Ask,
            PushEvent::Core(_) => self.stage == PushStage::Core,
        }
    }

    /// The push after an answer. A cube that is inductive goes on, reduced to
    /// its core; the first frame where it is not, or the frame past the last,
    /// ends the push.
    pub open spec fn after(self, event: PushEvent) -> PushView {
        match event {
            PushEvent::Inductive(true) => PushView { stage: PushStage::Core, ..self },
            PushEvent::Inductive(false) => PushView { stage: PushStage::Done, ..self },
            PushEvent::Core(core) => PushView {
                next: self.next + 1,
                cube: core_or(core, self.cube),
                stage: if self.next < self.level {
                    PushStage::Ask
                } else {
                    PushStage::Done
                },
                ..self
            },
        }
    }

    /// The push after a row of answers.
    pub open spec fn after_all(self, events: Seq<PushEvent>) -> PushView
        decreases events.len(),
    {
        if events.len() == 0 {
            self
        } else {
            self.after_all(events.drop_last()).after(events.last())
        }
    }

    /// Every answer of the row came when the push waited for it.
    pub open spec fn accepts_all(self, events: Seq<PushEvent>) -> bool
        decreases events.len(),
    {
        events.len() > 0 ==> {
            &&& self.accepts_all(events.drop_last())
            &&& self.after_all(events.drop_last()).accepts(events.last())
        }
    }
}

impl PushRun {
    /// The next frame is no further than one past the last.
    pub open spec fn wf(self) -> bool {
        &&& self.level < usize::MAX
        &&& self.stage != PushStage::Done ==> 0 < self.next <= self.level
        &&& 0 < self.next <= self.level + 1
    }

    /// Starts pushing `cube`, which is blocked in `frame`, up to `level`.
    pub fn push_lemma(frame: usize, level: usize, cube: Vec<Lit>) -> (r: PushRun)
        requires
            level < usize::MAX,
        ensures
            r.wf(),
            r@ == PushView::start(frame as nat, level as nat, cube@),
    {
        if frame < level {
            PushRun { level, next: frame + 1, cube, stage: PushStage::Ask }
        } else {
            PushRun { level, next: level + 1, cube, stage: PushStage::Done }
        }
    }

    /// Whether the push waits for this answer.
    pub fn accepts(&self, event: &PushEvent) -> (r: bool)
        ensures
            r == self@.accepts(*event),
    {
        match event {
            PushEvent::Inductive(_) => self.stage == PushStage::Ask,
            PushEvent::Core(_) => self.stage == PushStage::Core,
        }
    }

    /// The frame solver that is to be asked about the cube.
    pub fn solver(&self) -> (r: usize)
        requires
            self.wf(),
        ensures
            r == self@.next - 1,
    {
        self.next - 1
    }

    /// Takes an answer.
    pub fn step(&mut self, event: PushEvent)
        requires
            old(self).wf(),
            old(self)@.accepts(event),
        ensures
            final(self).wf(),
            final(self)@ == old(self)@.after(event),
    {
        match event {
            PushEvent::Inductive(inductive) => {
                if inductive {
                    self.stage = PushStage::Core;
                } else {
                    self.stage = PushStage::Done;
                }
            },
            PushEvent::Core(core) => {
                if let Some(c) = core {
                    self.cube = c;
                }
                self.stage = if self.next < self.level {
                    PushStage::Ask
                } else {
                    PushStage::Done
                };
                self.next = self.next + 1;
            },
        }
    }
}

/// How often a cube was found inductive.
pub open spec fn num_inductive(events: Seq<PushEvent>) -> nat
    decreases events.len(),
{
    if events.len() == 0 {
        0
    } else {
        num_inductive(events.drop_last()) + if events.last() matches PushEvent::Inductive(
            true,
        ) {
            1nat
        } else {
            0
        }
    }
}

proof fn lemma_push_progress(frame: nat, level: nat, cube: Seq<Lit>, events: Seq<PushEvent>)
    requires
        frame <= level,
        PushView::start(frame, level, cube).accepts_all(events),
    ensures
        ({
            let end = PushView::start(frame, level, cube).after_all(events);
            &&& end.level == level
            &&& frame < end.next <= level + 1
            &&& end.stage != PushStage::Done ==> end.next <= level
            &&& end.next == frame + 1 + num_inductive(events) - if end.stage == PushStage::Core {
                1int
            } else {
                0
            }
        }),
    decreases events.len(),
{
    if events.len() > 0 {
        lemma_push_progress(frame, level, cube, events.drop_last());
    }
}

/// A push ends one frame past the last frame in which the cube was found
/// inductive, frame after frame without a gap: between the frame after the
/// one it started in and the frame past the last. It ends early only because
/// the cube is not inductive there.
pub proof fn law_push_stops_at_the_first_refusal(
    frame: nat,
    level: nat,
    cube: Seq<Lit>,
    events: Seq<PushEvent>,
)
    requires
        frame <= level,
        PushView::start(frame, level, cube).accepts_all(events),
        PushView::start(frame, level, cube).after_all(events).stage == PushStage::Done,
    ensures
        ({
            let end = PushView::start(frame, level, cube).after_all(events);
            &&& frame < end.next <= level + 1
            &&& end.next == frame + 1 + num_inductive(events)
            &&& end.next <= level ==> events.len() > 0 && (
            events.last() matches PushEvent::Inductive(false))
        }),
{
    lemma_push_progress(frame, level, cube, events);
    if events.len() > 0 {
        lemma_push_progress(frame, level, cube, events.drop_last());
    }
}

/// A push without a core leaves the cube as it is.
pub proof fn law_push_without_cores_keeps_the_cube(start: PushView, events: Seq<PushEvent>)
    requires
        forall|i: int|
            0 <= i < events.len() ==> !((#[trigger] events[i]) matches PushEvent::Core(Some(_))),
    ensures
        start.after_all(events).cube == start.cube,
    decreases events.len(),
{
    if events.len() > 0 {
        assert forall|i: int| 0 <= i < events.drop_last().len() implies !((
        #[trigger] events.drop_last()[i]) matches PushEvent::Core(Some(_))) by {
            assert(events.drop_last()[i] == events[i]);
        }
        law_push_without_cores_keeps_the_cube(start, events.drop_last());
        assert(events.last() == events[events.len() - 1]);
    }
}

/// A push adds nothing to the cube: where each core has its literals among
/// those of the cube in hand, what the push leaves has its literals among
/// those of the cube that was given.
pub proof fn law_push_adds_nothing(start: PushView, events: Seq<PushEvent>)
    requires
        forall|k: int|
            0 <= k < events.len() ==> ((#[trigger] events[k]) matches PushEvent::Core(Some(core))
                ==> literals_among(core@, start.after_all(events.take(k)).cube)),
    ensures
        literals_among(start.after_all(events).cube, start.cube),
    decreases events.len(),
{
    if events.len() > 0 {
        let front = events.drop_last();
        let last = events.len() - 1;
        assert forall|k: int| 0 <= k < front.len() implies ((
        #[trigger] front[k]) matches PushEvent::Core(Some(core)) ==> literals_among(
            core@,
            start.after_all(front.take(k)).cube,
        )) by {
            assert(front.take(k) =~= events.take(k));
            assert(front[k] == events[k]);
        }
        law_push_adds_nothing(start, front);
        assert(events.take(last) =~= front);
        assert(events.last() == events[last]);
    }
}

/// What a generalisation waits for.
#[derive(Clone, Copy, PartialEq, Eq, Structural, Debug)]
pub enum GeneralizeStage {
    /// The inductive core of the query that blocked the obligation.
    Core,
    /// The minimised core.
    Mic,
    /// The frame to which the minimised core was pushed.
    Push,
    /// Whether adding the lemma closed a fixpoint. `bumped` where the
    /// obligation goes up by one frame for want of a core.
    Add { bumped: bool },
    /// Nothing: the lemma was added; whether that closed a fixpoint.
    Done(bool),
}

/// An answer that a generalisation waited for.
pub enum GeneralizeEvent {
    /// The inductive core, where the solver has one.
    Core(Option<Vec<Lit>>),
    /// The minimised core.
    Mic(Vec<Lit>),
    /// The frame to which the cube was pushed, and what is left of it.
    Pushed { frame: usize, cube: Vec<Lit> },
    /// Whether adding the lemma closed a fixpoint.
    Added(bool),
}

/// Turning a blocked obligation into a lemma.
pub struct GeneralizeRun {
    /// The frame in which the obligation is blocked.
    pub frame: usize,
    /// The last frame.
    pub level: usize,
    /// The cube that becomes the lemma.
    pub cube: Vec<Lit>,
    /// The frame to which the obligation goes up. The lemma belongs to the
    /// frame below.
    pub target: usize,
    pub stage: GeneralizeStage,
}

/// The mathematical view of a generalisation.
#[verifier::ext_equal]
pub struct GeneralizeView {
    pub frame: nat,
    pub level: nat,
    pub cube: Seq<Lit>,
    pub target: nat,
    pub stage: GeneralizeStage,
}

impl View for GeneralizeRun {
    type V = GeneralizeView;

    open spec fn view(&self) -> GeneralizeView {
        GeneralizeView {
            frame: self.frame as nat,
            level: self.level as nat,
            cube: self.cube@,
            target: self.target as nat,
            stage: self.stage,
        }
    }
}

impl GeneralizeView {
    /// The generalisation of an obligation for `lemma` in `frame`.
    pub open spec fn start(frame: nat, level: nat, lemma: Seq<Lit>) -> GeneralizeView {
        GeneralizeView { frame, level, cube: lemma, target: frame, stage: GeneralizeStage::Core }
    }

    /// The generalisation waits for this answer.
    pub open spec fn accepts(self, event: GeneralizeEvent) -> bool {
        match event {
            GeneralizeEvent::Core(_) => self.stage == GeneralizeStage::Core,
            GeneralizeEvent::Mic(_) => self.stage == GeneralizeStage::Mic,
            GeneralizeEvent::Pushed { frame, .. } => self.stage == GeneralizeStage::Push
                && self.frame < frame <= self.level + 1,
            GeneralizeEvent::Added(_) => self.stage is Add,
        }
    }

    /// The generalisation after an answer. Without a core the lemma is the
    /// obligation's own cube, in the obligation's own frame.
    pub open spec fn after(self, event: GeneralizeEvent) -> GeneralizeView {
        match event {
            GeneralizeEvent::Core(None) => GeneralizeView {
                target: self.frame + 1,
                stage: GeneralizeStage::Add { bumped: true },
                ..self
            },
            GeneralizeEvent::Core(Some(core)) => GeneralizeView {
                cube: core@,
                stage: GeneralizeStage::Mic,
                ..self
            },
            GeneralizeEvent::Mic(mic) => GeneralizeView {
                cube: mic@,
                stage: GeneralizeStage::Push,
                ..self
            },
            GeneralizeEvent::Pushed { frame, cube } => GeneralizeView {
                cube: cube@,
                target: frame as nat,
                stage: GeneralizeStage::Add { bumped: false },
                ..self
            },
            GeneralizeEvent::Added(fixpoint) => GeneralizeView {
                stage: GeneralizeStage::Done(fixpoint),
                ..self
            },
        }
    }
}

impl GeneralizeRun {
    /// Where a lemma is to be added, its frame is at least the obligation's.
    pub open spec fn wf(self) -> bool {
        &&& self.frame <= self.level < usize::MAX
        &&& self.stage is Add ==> self.frame < self.target <= self.level + 1
    }

    /// Starts generalising the obligation for `lemma` that is blocked in
    /// `frame`.
    pub fn generalize(frame: usize, level: usize, lemma: &Vec<Lit>) -> (r: GeneralizeRun)
        requires
            frame <= level < usize::MAX,
        ensures
            r.wf(),
            r@ == GeneralizeView::start(frame as nat, level as nat, lemma@),
    {
        GeneralizeRun {
            frame,
            level,
            cube: copy_cube(lemma),
            target: frame,
            stage: GeneralizeStage::Core,
        }
    }

    /// Whether the generalisation waits for this answer.
    pub fn accepts(&self, event: &GeneralizeEvent) -> (r: bool)
        requires
            self.wf(),
        ensures
            r == self@.accepts(*event),
    {
        match event {
            GeneralizeEvent::Core(_) => self.stage == GeneralizeStage::Core,
            GeneralizeEvent::Mic(_) => self.stage == GeneralizeStage::Mic,
            GeneralizeEvent::Pushed { frame, .. } => self.stage == GeneralizeStage::Push
                && self.frame < *frame && *frame <= self.level + 1,
            GeneralizeEvent::Added(_) => match self.stage {
                GeneralizeStage::Add { .. } => true,
                _ => false,
            },
        }
    }

    /// Takes an answer.
    pub fn step(&mut self, event: GeneralizeEvent)
        requires
            old(self).wf(),
            old(self)@.accepts(event),
        ensures
            final(self).wf(),
            final(self)@ == old(self)@.after(event),
            event == GeneralizeEvent::Added(true) ==> final(self).stage == GeneralizeStage::Done(
                true,
            ),
            event == GeneralizeEvent::Added(false) ==> final(self).stage == GeneralizeStage::Done(
                false,
            ),
    {
        match event {
            GeneralizeEvent::Core(core) => match core {
                Some(c) => {
                    self.cube = c;
                    self.stage = GeneralizeStage::Mic;
                },
                None => {
                    self.target = self.frame + 1;
                    self.stage = GeneralizeStage::Add { bumped: true };
                },
            },
            GeneralizeEvent::Mic(mic) => {
                self.cube = mic;
                self.stage = GeneralizeStage::Push;
            },
            GeneralizeEvent::Pushed { frame, cube } => {
                self.cube = cube;
                self.target = frame;
                self.stage = GeneralizeStage::Add { bumped: false };
            },
            GeneralizeEvent::Added(fixpoint) => {
                self.stage = GeneralizeStage::Done(fixpoint);
            },
        }
    }

    /// The frame to which the lemma is to be added.
    pub fn lemma_frame(&self) -> (r: usize)
        requires
            self.wf(),
            self.stage is Add,
        ensures
            r == self@.target - 1,
            self.frame <= r <= self.level,
    {
        self.target - 1
    }
}

/// Without a core the lemma is the obligation's own cube, and it enters the
/// frame in which the obligation was blocked; the obligation goes up by one.
pub proof fn law_no_core_adds_the_obligation_itself(start: GeneralizeView)
    requires
        start.stage == GeneralizeStage::Core,
    ensures
        ({
            let end = start.after(GeneralizeEvent::Core(None));
            &&& end.cube == start.cube
            &&& end.target - 1 == start.frame
            &&& end.stage == GeneralizeStage::Add { bumped: true }
        }),
{
}

/// With a core, the lemma is what the push left of the minimised core, and it
/// enters the frame below the one to which the obligation goes up.
pub proof fn law_core_is_minimised_and_pushed(
    start: GeneralizeView,
    core: Vec<Lit>,
    mic: Vec<Lit>,
    frame: usize,
    cube: Vec<Lit>,
)
    requires
        start.stage == GeneralizeStage::Core,
        start.frame < frame <= start.level + 1,
    ensures
        ({
            let with_core = start.after(GeneralizeEvent::Core(Some(core)));
            let minimised = with_core.after(GeneralizeEvent::Mic(mic));
            let end = minimised.after(GeneralizeEvent::Pushed { frame, cube });
            &&& with_core.accepts(GeneralizeEvent::Mic(mic)) && with_core.cube == core@
            &&& minimised.accepts(GeneralizeEvent::Pushed { frame, cube }) && minimised.cube == mic@
            &&& end.cube == cube@
            &&& end.target == frame
            &&& start.frame <= end.target - 1 <= start.level
        }),
{
}

/// A push starts with the frame above the one that the cube is blocked in, and
/// with the cube as it was given; from the last frame on there is nothing to
/// ask.
pub proof fn law_push_starts_one_frame_up(frame: nat, level: nat, cube: Seq<Lit>)
    ensures
        ({
            let start = PushView::start(frame, level, cube);
            &&& start.cube == cube
            &&& start.level == level
            &&& frame < level ==> start.stage == PushStage::Ask && start.next == frame + 1
            &&& frame >= level ==> start.stage == PushStage::Done && start.next == level + 1
        }),
{
}

/// A cube that is not inductive stays where it is; one that is gives way to
/// its core, where there is one, and goes up by exactly one frame, to be asked
/// about there unless that is past the last.
pub proof fn law_push_goes_by_the_answers(view: PushView, inductive: bool, core: Option<Vec<Lit>>)
    ensures
        view.stage == PushStage::Ask ==> {
            let next = view.after(PushEvent::Inductive(inductive));
            &&& view.accepts(PushEvent::Inductive(inductive))
            &&& next.cube == view.cube && next.next == view.next && next.level == view.level
            &&& inductive <==> next.stage == PushStage::Core
            &&& !inductive <==> next.stage == PushStage::Done
        },
        view.stage == PushStage::Core ==> {
            let next = view.after(PushEvent::Core(core));
            &&& view.accepts(PushEvent::Core(core))
            &&& core matches Some(c) ==> next.cube == c@
            &&& core is None ==> next.cube == view.cube
            &&& next.next == view.next + 1 && next.level == view.level
            &&& next.next <= view.level <==> next.stage == PushStage::Ask
            &&& next.next > view.level <==> next.stage == PushStage::Done
        },
        view.stage == PushStage::Done ==> !view.accepts(PushEvent::Inductive(inductive))
            && !view.accepts(PushEvent::Core(core)),
{
}

/// A generalisation reports a fixpoint exactly where adding the lemma closed
/// one, with or without a core, and adding changes neither the lemma nor its
/// frame.
pub proof fn law_fixpoint_is_reported_as_found(view: GeneralizeView, fixpoint: bool)
    requires
        view.stage is Add,
    ensures
        view.accepts(GeneralizeEvent::Added(fixpoint)),
        ({
            let next = view.after(GeneralizeEvent::Added(fixpoint));
            &&& next.stage == GeneralizeStage::Done(fixpoint)
            &&& next.cube == view.cube
            &&& next.target == view.target
        }),
{
}

/// Until the lemma is added, no fixpoint is reported: a generalisation ends
/// only with the answer to that, and waits for one kind of answer at a time.
pub proof fn law_generalisation_ends_with_the_lemma(view: GeneralizeView, event: GeneralizeEvent)
    requires
        view.accepts(event),
    ensures
        view.after(event).frame == view.frame,
        view.after(event).level == view.level,
        view.after(event).stage is Done <==> event is Added,
        event is Core <==> view.stage == GeneralizeStage::Core,
        event is Mic <==> view.stage == GeneralizeStage::Mic,
        event is Pushed <==> view.stage == GeneralizeStage::Push,
        event is Added <==> view.stage is Add,
        event matches GeneralizeEvent::Core(Some(core)) ==> view.after(event).stage
            == GeneralizeStage::Mic && view.after(event).cube == core@,
        event matches GeneralizeEvent::Mic(mic) ==> view.after(event).stage == GeneralizeStage::Push
            && view.after(event).cube == mic@,
        event matches GeneralizeEvent::Pushed { frame, cube } ==> view.after(event).stage
            == (GeneralizeStage::Add { bumped: false }) && view.after(event).cube == cube@
            && view.after(event).target == frame && view.frame < frame <= view.level + 1,
{
}

/// A generalisation begins with the obligation's own cube and asks for the
/// core; every core, or the lack of one, is taken.
pub proof fn law_generalisation_begins_with_the_core(
    frame: nat,
    level: nat,
    lemma: Seq<Lit>,
    core: Option<Vec<Lit>>,
)
    ensures
        ({
            let start = GeneralizeView::start(frame, level, lemma);
            &&& start.stage == GeneralizeStage::Core
            &&& start.cube == lemma
            &&& start.frame == frame
            &&& start.level == level
            &&& start.accepts(GeneralizeEvent::Core(core))
            &&& core is None ==> {
                let next = start.after(GeneralizeEvent::Core(core));
                &&& next.cube == lemma
                &&& next.target == frame + 1
                &&& next.stage == (GeneralizeStage::Add { bumped: true })
            }
        }),
{
}

} // verus!
