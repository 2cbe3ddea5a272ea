//! The state of the checker and what it derives from the transition system.

use rand::rngs::StdRng;
use vstd::prelude::*;

use crate::lit::{negate_cube, negation, Lit};
use crate::params::MtParams;
use crate::percentile::BoundedMedianCalculator;
use crate::rng;
use crate::statistic::Statistic;

verus! {

/// The number of blocking times that the median window holds.
pub const MEDIAN_WINDOW: usize = 1000;

/// The number of blocking times that leave a full median window: a fifth.
pub const MEDIAN_REMOVED: usize = 200;

/// What the checker was configured to do.
#[derive(Clone, Copy)]
pub struct Config {
    /// The expansion to use throughout, where it is fixed.
    pub multi_fixed: Option<usize>,
    /// Whether the expansion grows with the difficulty of an obligation.
    pub multi_timeframe: bool,
    /// Whether obligations are blocked over several timeframes at all.
    pub multi_enabled: bool,
    /// Whether constraints are abstracted.
    pub abs_cst: bool,
    /// Whether the transition relation is abstracted.
    pub abs_trans: bool,
    /// Whether overly active obligations are dropped.
    pub drop_po: bool,
    /// Whether the effort of a minimisation follows the activity of the
    /// obligation.
    pub dynamic: bool,
    /// The seed of the random number generator.
    pub rseed: u64,
}

/// The checker.
pub struct IC3 {
    /// The configuration.
    pub cfg: Config,
    /// The multi-timeframe parameters.
    pub params: MtParams,
    /// The number of frame solvers, one per frame.
    pub num_solvers: usize,
    /// The current timeframe expansion factor.
    pub timeframe_expansion: usize,
    /// How often the expansion was raised in the current blocking phase. The
    /// absolute threshold is scaled once for each.
    pub mt_escalations: usize,
    /// Earned ceiling doublings.
    pub mt_overshoot_used: usize,
    /// The level at which the doublings were earned, `usize::MAX` where there
    /// are none. The allowance survives a new blocking phase at that level.
    pub mt_overshoot_level: usize,
    /// A restart cleared the obligation queue: the next call continues the
    /// same blocking phase and keeps the expansion.
    pub mt_restart_pending: bool,
    /// The times of the latest blocking phases.
    pub blocking_time_median: BoundedMedianCalculator,
    /// Counters.
    pub statistic: Statistic,
    /// The random number generator.
    pub rng: StdRng,
}

/// The literals of `vars` that hold under `values`, where a value is known.
pub open spec fn assigned(vars: Seq<u32>, values: Seq<Option<bool>>) -> Seq<Lit>
    recommends
        vars.len() == values.len(),
    decreases vars.len(),
{
    if vars.len() == 0 {
        Seq::empty()
    } else {
        let rest = assigned(vars.drop_last(), values.drop_last());
        match values.last() {
            Some(v) => rest.push(positive(vars.last()).spec_not_if(!v)),
            None => rest,
        }
    }
}

/// The literal of `var` that is not negated.
pub open spec fn positive(var: u32) -> Lit {
    Lit { code: (2 * var) as u32 }
}

/// All of `vars` can be packed into a literal.
pub open spec fn packable(vars: Seq<u32>) -> bool {
    forall|i: int| 0 <= i < vars.len() ==> #[trigger] vars[i] <= u32::MAX / 2
}

/// The literals that hold under `values`, where a value is known.
pub fn assigned_lits(vars: &Vec<u32>, values: &Vec<Option<bool>>) -> (r: Vec<Lit>)
    requires
        vars.len() == values.len(),
        packable(vars@),
    ensures
        r@ == assigned(vars@, values@),
{
    let mut r: Vec<Lit> = Vec::new();
    for i in 0..vars.len()
        invariant
            vars.len() == values.len(),
            packable(vars@),
            r@ == assigned(vars@.take(i as int), values@.take(i as int)),
    {
        assert(vars@.take(i + 1).drop_last() == vars@.take(i as int));
        assert(values@.take(i + 1).drop_last() == values@.take(i as int));
        if let Some(v) = values[i] {
            r.push(Lit::new(vars[i], true).not_if(!v));
        }
    }
    assert(vars@.take(vars.len() as int) == vars@);
    assert(values@.take(values.len() as int) == values@);
    r
}

/// The image of a literal under a map of variables to literals.
pub open spec fn image(l: Lit, images: Seq<Lit>) -> Lit {
    images[l.spec_var() as int].spec_not_if(!l.spec_polarity())
}

/// `to` is the literal that the variable of `from` is mapped to, with the
/// other polarity where `from` is negated.
pub open spec fn is_image(to: Lit, from: Lit, images: Seq<Lit>) -> bool {
    &&& to.spec_var() == images[from.spec_var() as int].spec_var()
    &&& to.spec_polarity() == (images[from.spec_var() as int].spec_polarity()
        == from.spec_polarity())
}

/// The image of a cube, literal by literal.
pub open spec fn cube_image(cube: Seq<Lit>, images: Seq<Lit>) -> Seq<Lit> {
    cube.map_values(|l: Lit| image(l, images))
}

/// Every variable of `cube` has an image.
pub open spec fn mapped(cube: Seq<Lit>, images: Seq<Lit>) -> bool {
    forall|i: int| 0 <= i < cube.len() ==> (#[trigger] cube[i]).spec_var() < images.len()
}

/// Maps every literal of a cube. `images` holds the image of each variable's
/// positive literal.
pub fn map_cube(cube: &Vec<Lit>, images: &Vec<Lit>) -> (r: Vec<Lit>)
    requires
        mapped(cube@, images@),
    ensures
        r@ == cube_image(cube@, images@),
        r.len() == cube.len(),
        forall|i: int|
            0 <= i < cube.len() ==> is_image(#[trigger] r@[i], cube@[i], images@),
{
    let mut r: Vec<Lit> = Vec::new();
    for i in 0..cube.len()
        invariant
            mapped(cube@, images@),
            r@ == cube_image(cube@.take(i as int), images@),
    {
        let l = cube[i];
        r.push(images[l.var() as usize].not_if(!l.polarity()));
        assert(r@ =~= cube_image(cube@.take(i + 1), images@));
    }
    assert(cube@.take(cube.len() as int) == cube@);
    r
}

/// Every variable of every cube has an image.
pub open spec fn all_mapped(cubes: Seq<Vec<Lit>>, images: Seq<Lit>) -> bool {
    forall|i: int| 0 <= i < cubes.len() ==> mapped((#[trigger] cubes[i])@, images)
}

/// `mapped` holds the images of `cubes`, in their order.
pub open spec fn are_images(mapped: Seq<Vec<Lit>>, cubes: Seq<Vec<Lit>>, images: Seq<Lit>) -> bool {
    &&& mapped.len() == cubes.len()
    &&& forall|i: int|
        0 <= i < cubes.len() ==> (#[trigger] mapped[i])@ == cube_image(cubes[i]@, images)
}

impl IC3 {
    /// The level: the number of the last frame.
    pub open spec fn spec_level(self) -> nat
        recommends
            self.num_solvers > 0,
    {
        (self.num_solvers - 1) as nat
    }

    /// The state before the first frame.
    pub open spec fn is_fresh(self, cfg: Config, params: MtParams) -> bool {
        &&& self.cfg == cfg
        &&& self.params == params
        &&& self.num_solvers == 0
        &&& self.timeframe_expansion == 1
        &&& self.mt_escalations == 0
        &&& self.mt_overshoot_used == 0
        &&& self.mt_overshoot_level == usize::MAX
        &&& !self.mt_restart_pending
        &&& self.blocking_time_median@.len() == 0
        &&& self.blocking_time_median.spec_max_size() == 1000
        &&& self.blocking_time_median.spec_remove_per_side() == 100
        &&& self.statistic.is_zero()
        &&& rng::seed_of(self.rng) == cfg.rseed
        &&& rng::position_of(self.rng) == 0
    }

    /// A checker without frames.
    pub fn new(cfg: Config, params: MtParams) -> (r: Self)
        ensures
            r.is_fresh(cfg, params),
            r.cfg == cfg,
            r.params == params,
            r.num_solvers == 0,
            r.timeframe_expansion == 1,
            r.mt_escalations == 0,
            r.mt_overshoot_used == 0,
            r.mt_overshoot_level == usize::MAX,
            !r.mt_restart_pending,
            r.blocking_time_median@ == Seq::<crate::duration::Duration>::empty(),
            r.blocking_time_median.spec_max_size() == 1000,
            r.blocking_time_median.spec_remove_per_side() == 100,
            r.statistic.num_mic == 0,
            r.statistic.num_down == 0,
            r.statistic.num_down_sat == 0,
            r.statistic.num_auxiliary_var == 0,
            rng::seed_of(r.rng) == cfg.rseed,
            rng::position_of(r.rng) == 0,
    {
        IC3 {
            cfg,
            params,
            num_solvers: 0,
            timeframe_expansion: 1,
            mt_escalations: 0,
            mt_overshoot_used: 0,
            mt_overshoot_level: usize::MAX,
            mt_restart_pending: false,
            blocking_time_median: BoundedMedianCalculator::new(MEDIAN_WINDOW, MEDIAN_REMOVED),
            statistic: Statistic::new(),
            rng: rng::seeded(cfg.rseed),
        }
    }

    /// Draws a seed for a solver: the next number of the generator, which
    /// moves on by that number.
    pub fn solver_seed(&mut self) -> (r: u64)
        ensures
            r == rng::stream_number(
                rng::seed_of(old(self).rng),
                rng::position_of(old(self).rng),
            ),
            rng::position_of(final(self).rng) == rng::past_number(
                rng::position_of(old(self).rng),
            ),
            final(self).same_but_rng(*old(self)),
            *final(self) == (IC3 { rng: final(self).rng, ..*old(self) }),
            rng::seed_of(final(self).rng) == rng::seed_of(old(self).rng),
    {
        rng::draw(&mut self.rng)
    }

    /// Puts the literals in the order that the generator gives them, which
    /// moves on by what that takes.
    pub fn shuffle(&mut self, lits: &mut Vec<Lit>)
        ensures
            (final(lits)@, rng::position_of(final(self).rng)) == rng::shuffled(
                old(lits)@,
                rng::seed_of(old(self).rng),
                rng::position_of(old(self).rng),
            ),
            final(lits)@.to_multiset() == old(lits)@.to_multiset(),
            final(self).same_but_rng(*old(self)),
            *final(self) == (IC3 { rng: final(self).rng, ..*old(self) }),
            rng::seed_of(final(self).rng) == rng::seed_of(old(self).rng),
    {
        rng::shuffle(lits, &mut self.rng);
    }

    /// The two differ at most in how far the random number generator went.
    pub open spec fn same_but_rng(self, other: IC3) -> bool {
        &&& self == (IC3 { rng: self.rng, ..other })
        &&& rng::seed_of(self.rng) == rng::seed_of(other.rng)
    }

    /// The level: the number of the last frame.
    pub fn level(&self) -> (r: usize)
        requires
            self.num_solvers > 0,
        ensures
            r == self.spec_level(),
            r + 1 == self.num_solvers,
    {
        self.num_solvers - 1
    }

    /// Adds a frame. The level rises by one; the first frame is frame 0.
    pub fn extend(&mut self)
        requires
            old(self).num_solvers < usize::MAX,
        ensures
            *final(self) == (IC3 {
                num_solvers: (old(self).num_solvers + 1) as usize,
                ..*old(self)
            }),
            final(self).spec_level() == old(self).num_solvers,
    {
        self.num_solvers = self.num_solvers + 1;
    }

    /// Adds the first frame; `true` where the checker can go on.
    pub fn base(&mut self) -> (r: bool)
        requires
            old(self).num_solvers == 0,
        ensures
            r,
            *final(self) == (IC3 { num_solvers: 1, ..*old(self) }),
            final(self).spec_level() == 0,
    {
        self.extend();
        true
    }

    /// Records the number of auxiliary variables.
    pub fn record_auxiliary_vars(&mut self, num: usize)
        ensures
            *final(self) == (IC3 {
                statistic: Statistic { num_auxiliary_var: num, ..old(self).statistic },
                ..*old(self)
            }),
    {
        self.statistic.num_auxiliary_var = num;
    }

    /// The lemmas of frame 0: the negation of each clause of the initial
    /// states is a cube that no initial state is in.
    pub fn initial_lemmas(init: &Vec<Vec<Lit>>) -> (r: Vec<Vec<Lit>>)
        ensures
            r.len() == init.len(),
            forall|i: int| 0 <= i < init.len() ==> (#[trigger] r@[i])@ == negation(init@[i]@),
    {
        let mut r: Vec<Vec<Lit>> = Vec::new();
        for i in 0..init.len()
            invariant
                r.len() == i,
                forall|j: int| 0 <= j < i ==> (#[trigger] r@[j])@ == negation(init@[j]@),
        {
            r.push(negate_cube(&init[i]));
        }
        r
    }

    /// The values that `values` gives to the latches without an initial value
    /// of their own; those with one are passed over.
    pub open spec fn open_values(
        initialised: Seq<bool>,
        values: Seq<Option<bool>>,
    ) -> Seq<Option<bool>> {
        Seq::new(
            initialised.len(),
            |i: int|
                if initialised[i] {
                    None
                } else {
                    values[i]
                },
        )
    }

    /// The literals to which frame 0 forces the latches that have no initial
    /// value of their own.
    pub fn inferred_initial_values(
        latches: &Vec<u32>,
        initialised: &Vec<bool>,
        values: &Vec<Option<bool>>,
    ) -> (r: Vec<Lit>)
        requires
            packable(latches@),
            latches.len() == initialised.len(),
            latches.len() == values.len(),
        ensures
            r@ == assigned(latches@, Self::open_values(initialised@, values@)),
    {
        let mut open: Vec<Option<bool>> = Vec::new();
        for i in 0..latches.len()
            invariant
                latches.len() == initialised.len(),
                latches.len() == values.len(),
                open.len() == i,
                forall|j: int|
                    0 <= j < i ==> open@[j] == #[trigger] Self::open_values(
                        initialised@,
                        values@,
                    )[j],
        {
            if initialised[i] {
                open.push(None);
            } else {
                open.push(values[i]);
            }
        }
        assert(open@ =~= Self::open_values(initialised@, values@));
        assigned_lits(latches, &open)
    }

    /// The initial value that a forced literal stands for: its variable, and
    /// the constant that the variable equals.
    pub fn initial_value(l: Lit) -> (r: (u32, Lit))
        ensures
            r.0 == l.spec_var(),
            r.1.spec_var() == 0,
            r.1.spec_polarity() == !l.spec_polarity(),
    {
        (l.var(), Lit::constant(l.polarity()))
    }

    /// The constraints of the unrolled system: those of the system itself,
    /// and the negation of each bad literal.
    pub fn mt_constraints(constraint: &Vec<Lit>, bad: &Vec<Lit>) -> (r: Vec<Lit>)
        ensures
            r@ == constraint@ + negation(bad@),
            r.len() == constraint.len() + bad.len(),
            forall|i: int| 0 <= i < constraint.len() ==> r@[i] == constraint@[i],
            forall|i: int|
                0 <= i < bad.len() ==> (#[trigger] r@[constraint.len() + i]).spec_var()
                    == bad@[i].spec_var() && r@[constraint.len() + i].spec_polarity()
                    != bad@[i].spec_polarity(),
    {
        let mut r = crate::lit::copy_cube(constraint);
        let mut negated = negate_cube(bad);
        r.append(&mut negated);
        r
    }

    /// The inductive invariant in the variables of the system that was given:
    /// the lemmas of the last frame, each variable mapped back.
    pub fn inductive_invariant(lemmas: &Vec<Vec<Lit>>, images: &Vec<Lit>) -> (r: Vec<Vec<Lit>>)
        requires
            all_mapped(lemmas@, images@),
        ensures
            are_images(r@, lemmas@, images@),
            r.len() == lemmas.len(),
            forall|i: int| 0 <= i < lemmas.len() ==> (#[trigger] r@[i]).len() == lemmas@[i].len(),
            forall|i: int, k: int|
                0 <= i < lemmas.len() && 0 <= k < lemmas@[i].len() ==> is_image(
                    #[trigger] r@[i]@[k],
                    lemmas@[i]@[k],
                    images@,
                ),
    {
        let mut r: Vec<Vec<Lit>> = Vec::new();
        for i in 0..lemmas.len()
            invariant
                all_mapped(lemmas@, images@),
                r.len() == i,
                forall|j: int|
                    0 <= j < i ==> (#[trigger] r@[j])@ == cube_image(lemmas@[j]@, images@),
        {
            assert(mapped(lemmas@[i as int]@, images@));
            r.push(map_cube(&lemmas[i], images));
        }
        proof {
            assert forall|i: int| 0 <= i < lemmas.len() implies (#[trigger] r@[i]).len()
                == lemmas@[i].len() by {
                assert(r@[i]@ == cube_image(lemmas@[i]@, images@));
            }
            assert forall|i: int, k: int|
                0 <= i < lemmas.len() && 0 <= k < lemmas@[i].len() implies is_image(
                #[trigger] r@[i]@[k],
                lemmas@[i]@[k],
                images@,
            ) by {
                assert(r@[i]@ == cube_image(lemmas@[i]@, images@));
                law_images_respect_negation(lemmas@[i]@[k], images@);
            }
        }
        r
    }

    /// The cubes whose union, with the bad states, the certificate excludes:
    /// the lemmas, then the negation of each constraint, all mapped back, then
    /// the equivalences that preprocessing found.
    pub fn certificate_cubes(
        lemmas: &Vec<Vec<Lit>>,
        constraints: &Vec<Lit>,
        images: &Vec<Lit>,
        equivalences: Vec<Vec<Lit>>,
    ) -> (r: Vec<Vec<Lit>>)
        requires
            all_mapped(lemmas@, images@),
            mapped(constraints@, images@),
        ensures
            r.len() == lemmas.len() + constraints.len() + equivalences.len(),
            forall|i: int|
                0 <= i < lemmas.len() ==> (#[trigger] r@[i])@ == cube_image(lemmas@[i]@, images@),
            forall|i: int|
                0 <= i < constraints.len() ==> (#[trigger] r@[lemmas.len() + i])@ == seq![
                    image(constraints@[i].spec_negated(), images@),
                ],
            forall|i: int|
                0 <= i < equivalences.len() ==> #[trigger] r@[lemmas.len() + constraints.len() + i]
                    == equivalences@[i],
    {
        let mut r = Self::inductive_invariant(lemmas, images);
        for i in 0..constraints.len()
            invariant
                mapped(constraints@, images@),
                r.len() == lemmas.len() + i,
                forall|j: int|
                    0 <= j < lemmas.len() ==> (#[trigger] r@[j])@ == cube_image(
                        lemmas@[j]@,
                        images@,
                    ),
                forall|j: int|
                    0 <= j < i ==> (#[trigger] r@[lemmas.len() + j])@ == seq![
                        image(constraints@[j].spec_negated(), images@),
                    ],
        {
            let c = constraints[i].negated();
            proof {
                crate::lit::law_negation_is_an_involution(constraints@[i as int]);
            }
            let mut single: Vec<Lit> = Vec::new();
            single.push(images[c.var() as usize].not_if(!c.polarity()));
            assert(single@ =~= seq![image(constraints@[i as int].spec_negated(), images@)]);
            r.push(single);
        }
        let mut equivalences = equivalences;
        r.append(&mut equivalences);
        r
    }
}

/// A literal of a variable whose value is known holds under that value, and
/// there are no others: what is read off a model is what the model says.
pub proof fn law_read_literals_are_the_known_values(
    vars: Seq<u32>,
    values: Seq<Option<bool>>,
    l: Lit,
)
    requires
        vars.len() == values.len(),
        packable(vars),
    ensures
        assigned(vars, values).contains(l) <==> exists|i: int|
            0 <= i < vars.len() && #[trigger] vars[i] == l.spec_var() && values[i] == Some(
                l.spec_polarity(),
            ),
        assigned(vars, values).len() <= vars.len(),
    decreases vars.len(),
{
    if vars.len() > 0 {
        let front = vars.drop_last();
        let known = values.drop_last();
        let last = vars.len() - 1;
        assert(packable(front)) by {
            assert forall|i: int| 0 <= i < front.len() implies #[trigger] front[i] <= u32::MAX
                / 2 by {
                assert(front[i] == vars[i]);
            }
        }
        law_read_literals_are_the_known_values(front, known, l);
        let rest = assigned(front, known);
        let all = assigned(vars, values);
        assert(vars[last] <= u32::MAX / 2);
        assert forall|i: int| 0 <= i < last implies front[i] == #[trigger] vars[i] && known[i]
            == values[i] by {}
        if all.contains(l) {
            let at = choose|at: int| 0 <= at < all.len() && all[at] == l;
            if at < rest.len() {
                assert(rest[at] == l);
                let i = choose|i: int|
                    0 <= i < front.len() && #[trigger] front[i] == l.spec_var() && known[i]
                        == Some(l.spec_polarity());
                assert(vars[i] == l.spec_var());
            } else {
                assert(vars[last] == l.spec_var());
            }
        }
        if exists|i: int|
            0 <= i < vars.len() && #[trigger] vars[i] == l.spec_var() && values[i] == Some(
                l.spec_polarity(),
            ) {
            let i = choose|i: int|
                0 <= i < vars.len() && #[trigger] vars[i] == l.spec_var() && values[i] == Some(
                    l.spec_polarity(),
                );
            if i < last {
                assert(front[i] == l.spec_var());
                let at = choose|at: int| 0 <= at < rest.len() && rest[at] == l;
                assert(all[at] == l);
            } else {
                let read = positive(vars[last]).spec_not_if(!l.spec_polarity());
                crate::lit::law_literal_by_var_and_polarity(read, l);
                assert(all[rest.len() as int] == l);
            }
        }
    }
}

/// Literals are read off in the order of their variables: those of two rows
/// of variables, one after the other, are those of the first, then those of
/// the second.
pub proof fn law_literals_are_read_in_order(
    vars: Seq<u32>,
    values: Seq<Option<bool>>,
    more: Seq<u32>,
    known: Seq<Option<bool>>,
)
    requires
        vars.len() == values.len(),
        more.len() == known.len(),
    ensures
        assigned(vars + more, values + known) == assigned(vars, values) + assigned(more, known),
    decreases more.len(),
{
    if more.len() == 0 {
        assert(vars + more =~= vars);
        assert(values + known =~= values);
        assert(assigned(vars, values) + assigned(more, known) =~= assigned(vars, values));
    } else {
        law_literals_are_read_in_order(vars, values, more.drop_last(), known.drop_last());
        assert((vars + more).drop_last() =~= vars + more.drop_last());
        assert((values + known).drop_last() =~= values + known.drop_last());
        assert(assigned(vars + more, values + known) =~= assigned(vars, values) + assigned(
            more,
            known,
        ));
    }
}

/// The initial values that are inferred are those of the latches without one
/// of their own that frame 0 forces, each to the value that it forces.
pub proof fn law_inferred_values_are_forced(
    latches: Seq<u32>,
    initialised: Seq<bool>,
    values: Seq<Option<bool>>,
    l: Lit,
)
    requires
        packable(latches),
        latches.len() == initialised.len(),
        latches.len() == values.len(),
    ensures
        assigned(latches, IC3::open_values(initialised, values)).contains(l) <==> exists|i: int|
            0 <= i < latches.len() && #[trigger] latches[i] == l.spec_var() && !initialised[i]
                && values[i] == Some(l.spec_polarity()),
{
    let open = IC3::open_values(initialised, values);
    law_read_literals_are_the_known_values(latches, open, l);
    if exists|i: int|
        0 <= i < latches.len() && #[trigger] latches[i] == l.spec_var() && open[i] == Some(
            l.spec_polarity(),
        ) {
        let i = choose|i: int|
            0 <= i < latches.len() && #[trigger] latches[i] == l.spec_var() && open[i] == Some(
                l.spec_polarity(),
            );
        assert(!initialised[i] && values[i] == Some(l.spec_polarity()));
    }
    if exists|i: int|
        0 <= i < latches.len() && #[trigger] latches[i] == l.spec_var() && !initialised[i]
            && values[i] == Some(l.spec_polarity()) {
        let i = choose|i: int|
            0 <= i < latches.len() && #[trigger] latches[i] == l.spec_var() && !initialised[i]
                && values[i] == Some(l.spec_polarity());
        assert(open[i] == Some(l.spec_polarity()));
    }
}

/// The image of a literal is that of its variable, negated where the literal
/// is; so the image of a negation is the negation of the image.
pub proof fn law_images_respect_negation(l: Lit, images: Seq<Lit>)
    ensures
        is_image(image(l, images), l, images),
        image(l.spec_negated(), images) == image(l, images).spec_negated(),
{
    crate::lit::law_negation_is_an_involution(l);
    crate::lit::law_negation_is_an_involution(images[l.spec_var() as int]);
}

/// The image of a cube has one literal for each of its literals, in their
/// order, and the image of its negation is the negation of its image.
pub proof fn law_cubes_are_mapped_literal_by_literal(cube: Seq<Lit>, images: Seq<Lit>)
    ensures
        cube_image(cube, images).len() == cube.len(),
        forall|i: int|
            0 <= i < cube.len() ==> is_image(
                #[trigger] cube_image(cube, images)[i],
                cube[i],
                images,
            ),
        cube_image(negation(cube), images) == negation(cube_image(cube, images)),
{
    assert forall|i: int| 0 <= i < cube.len() implies is_image(
        #[trigger] cube_image(cube, images)[i],
        cube[i],
        images,
    ) && cube_image(negation(cube), images)[i] == negation(cube_image(cube, images))[i] by {
        law_images_respect_negation(cube[i], images);
    }
    assert(cube_image(negation(cube), images) =~= negation(cube_image(cube, images)));
}

} // verus!
