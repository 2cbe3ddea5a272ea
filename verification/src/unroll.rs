//! The unrolled transition system: copies of a cube at a timeframe, and what
//! the frames say about each timeframe.

use vstd::prelude::*;

use crate::ic3::{assigned, assigned_lits, cube_image, map_cube, mapped, packable, IC3};
use crate::lit::{copy_cube, negate_cube, negation, Lit};

verus! {

/// The contents of each vector, in their order.
pub open spec fn contents(cubes: Seq<Vec<Lit>>) -> Seq<Seq<Lit>> {
    cubes.map_values(|c: Vec<Lit>| c@)
}

/// The contents of each vector of each frame, in their order.
pub open spec fn frame_contents(frames: Seq<Vec<Vec<Lit>>>) -> Seq<Seq<Seq<Lit>>> {
    frames.map_values(|f: Vec<Vec<Lit>>| contents(f@))
}

/// The clause that excludes `cube` at timeframe `lift`. `copies` holds, for
/// each timeframe, the copy of each variable's positive literal.
pub open spec fn excluded_at(cube: Seq<Lit>, copies: Seq<Seq<Lit>>, lift: int) -> Seq<Lit> {
    negation(cube_image(cube, copies[lift]))
}

/// The clauses that exclude `cube` at each of the first `num` timeframes.
pub open spec fn excluded_at_first(cube: Seq<Lit>, copies: Seq<Seq<Lit>>, num: nat) -> Seq<
    Seq<Lit>,
> {
    Seq::new(num, |lift: int| excluded_at(cube, copies, lift))
}

/// The clauses that exclude each of `cubes` at each of the first `num`
/// timeframes.
pub open spec fn cubes_excluded(cubes: Seq<Seq<Lit>>, copies: Seq<Seq<Lit>>, num: nat) -> Seq<
    Seq<Lit>,
>
    decreases cubes.len(),
{
    if cubes.len() == 0 {
        Seq::empty()
    } else {
        cubes_excluded(cubes.drop_last(), copies, num) + excluded_at_first(
            cubes.last(),
            copies,
            num,
        )
    }
}

/// The number of timeframes that stand for a frame up to `i`, where the first
/// stands for frame `start` and there are `expansion` of them.
pub open spec fn timeframes_up_to(i: int, start: int, expansion: nat) -> nat {
    if i < start {
        0
    } else if i - start + 1 < expansion {
        (i - start + 1) as nat
    } else {
        expansion
    }
}

/// What the first `n` frames say about the timeframes: the lemmas of a frame
/// hold in that frame and in those before it.
pub open spec fn frames_asserted(
    frames: Seq<Seq<Seq<Lit>>>,
    copies: Seq<Seq<Lit>>,
    start: int,
    expansion: nat,
    n: nat,
) -> Seq<Seq<Lit>>
    decreases n,
{
    if n == 0 {
        Seq::empty()
    } else {
        frames_asserted(frames, copies, start, expansion, (n - 1) as nat) + cubes_excluded(
            frames[n - 1],
            copies,
            timeframes_up_to(n - 1, start, expansion),
        )
    }
}

/// The clauses that the solver of the unrolled system starts with, for
/// blocking in `frame`: what the frames say about the timeframes, and, where
/// the first stands for frame 0, the clauses of the initial states.
pub open spec fn unrolled_clauses(
    frame: nat,
    expansion: nat,
    frames: Seq<Seq<Seq<Lit>>>,
    copies: Seq<Seq<Lit>>,
    init: Seq<Seq<Lit>>,
) -> Seq<Seq<Lit>> {
    frames_asserted(frames, copies, frame - expansion, expansion, frames.len()) + if frame
        == expansion {
        init
    } else {
        Seq::empty()
    }
}

/// Every cube can be copied to every timeframe.
pub open spec fn copyable(frames: Seq<Seq<Seq<Lit>>>, copies: Seq<Seq<Lit>>) -> bool {
    forall|i: int, j: int, k: int|
        0 <= i < frames.len() && 0 <= j < frames[i].len() && 0 <= k < copies.len() ==> mapped(
            #[trigger] frames[i][j],
            #[trigger] copies[k],
        )
}

/// The copy of a cube at the given timeframe.
pub fn mt_get_lemma_at_frame(cube: &Vec<Lit>, copies: &Vec<Vec<Lit>>, lift: usize) -> (r: Vec<Lit>)
    requires
        lift < copies.len(),
        mapped(cube@, copies@[lift as int]@),
    ensures
        r@ == cube_image(cube@, copies@[lift as int]@),
{
    map_cube(cube, &copies[lift])
}

/// Appends the clauses that exclude `cube` at each of the first `num`
/// timeframes.
fn exclude_cube(cube: &Vec<Lit>, copies: &Vec<Vec<Lit>>, num: usize, clauses: &mut Vec<Vec<Lit>>)
    requires
        num <= copies.len(),
        forall|k: int| 0 <= k < copies.len() ==> mapped(cube@, #[trigger] contents(copies@)[k]),
    ensures
        contents(final(clauses)@) == contents(old(clauses)@) + excluded_at_first(
            cube@,
            contents(copies@),
            num as nat,
        ),
{
    let ghost before = contents(clauses@);
    assert(contents(clauses@) =~= before + excluded_at_first(cube@, contents(copies@), 0));
    for lift in 0..num
        invariant
            num <= copies.len(),
            forall|k: int|
                0 <= k < copies.len() ==> mapped(cube@, #[trigger] contents(copies@)[k]),
            contents(clauses@) == before + excluded_at_first(
                cube@,
                contents(copies@),
                lift as nat,
            ),
    {
        assert(contents(copies@)[lift as int] == copies@[lift as int]@);
        let copy = mt_get_lemma_at_frame(cube, copies, lift);
        let clause = negate_cube(&copy);
        let ghost so_far = clauses@;
        clauses.push(clause);
        assert(contents(clauses@) =~= contents(so_far).push(clause@));
        assert(contents(clauses@) =~= before + excluded_at_first(
            cube@,
            contents(copies@),
            (lift + 1) as nat,
        ));
    }
}

/// Appends the clauses that exclude each of `cubes` at each of the first
/// `num` timeframes.
fn exclude_cubes(
    cubes: &Vec<Vec<Lit>>,
    copies: &Vec<Vec<Lit>>,
    num: usize,
    clauses: &mut Vec<Vec<Lit>>,
)
    requires
        num <= copies.len(),
        forall|j: int, k: int|
            0 <= j < cubes.len() && 0 <= k < copies.len() ==> mapped(
                #[trigger] contents(cubes@)[j],
                #[trigger] contents(copies@)[k],
            ),
    ensures
        contents(final(clauses)@) == contents(old(clauses)@) + cubes_excluded(
            contents(cubes@),
            contents(copies@),
            num as nat,
        ),
{
    let ghost before = contents(clauses@);
    let ghost all = contents(cubes@);
    assert(all.take(0).len() == 0);
    assert(before =~= before + cubes_excluded(all.take(0), contents(copies@), num as nat));
    for j in 0..cubes.len()
        invariant
            num <= copies.len(),
            all == contents(cubes@),
            forall|j: int, k: int|
                0 <= j < cubes.len() && 0 <= k < copies.len() ==> mapped(
                    #[trigger] contents(cubes@)[j],
                    #[trigger] contents(copies@)[k],
                ),
            contents(clauses@) == before + cubes_excluded(
                all.take(j as int),
                contents(copies@),
                num as nat,
            ),
    {
        assert(all[j as int] == cubes@[j as int]@);
        assert(all.take(j + 1).drop_last() =~= all.take(j as int));
        assert(all.take(j + 1).last() == cubes@[j as int]@);
        exclude_cube(&cubes[j], copies, num, clauses);
        assert(contents(clauses@) =~= before + cubes_excluded(
            all.take(j + 1),
            contents(copies@),
            num as nat,
        ));
    }
    assert(all.take(cubes.len() as int) =~= all);
}

impl IC3 {
    /// Sets the expansion and gives the clauses that the solver of the
    /// unrolled system starts with, for blocking in `frame`. Its timeframes
    /// stand for the frames from `frame - expansion` to `frame - 1`, and each
    /// of them gets the lemmas of its frame and of those above. Where the
    /// first stands for frame 0, the clauses of the initial states come last.
    pub fn mt_init_solver(
        &mut self,
        frame: usize,
        timeframe_expansion: usize,
        frames: &Vec<Vec<Vec<Lit>>>,
        copies: &Vec<Vec<Lit>>,
        init: &Vec<Vec<Lit>>,
    ) -> (r: Vec<Vec<Lit>>)
        requires
            1 <= timeframe_expansion <= frame,
            copies.len() == timeframe_expansion,
            copyable(frame_contents(frames@), contents(copies@)),
        ensures
            *final(self) == (IC3 { timeframe_expansion, ..*old(self) }),
            contents(r@) == unrolled_clauses(
                frame as nat,
                timeframe_expansion as nat,
                frame_contents(frames@),
                contents(copies@),
                contents(init@),
            ),
    {
        self.timeframe_expansion = timeframe_expansion;
        let start: usize = frame - timeframe_expansion;
        let ghost all = frame_contents(frames@);
        let mut r: Vec<Vec<Lit>> = Vec::new();
        assert(contents(r@) =~= Seq::<Seq<Lit>>::empty());
        for i in 0..frames.len()
            invariant
                1 <= timeframe_expansion <= frame,
                start == frame - timeframe_expansion,
                copies.len() == timeframe_expansion,
                all == frame_contents(frames@),
                copyable(all, contents(copies@)),
                contents(r@) == frames_asserted(
                    all,
                    contents(copies@),
                    start as int,
                    timeframe_expansion as nat,
                    i as nat,
                ),
        {
            let num: usize = if i < start {
                0
            } else if i - start < timeframe_expansion - 1 {
                i - start + 1
            } else {
                timeframe_expansion
            };
            assert(all[i as int] == contents(frames@[i as int]@));
            assert forall|j: int, k: int|
                0 <= j < frames@[i as int]@.len() && 0 <= k < copies.len() implies mapped(
                #[trigger] contents(frames@[i as int]@)[j],
                #[trigger] contents(copies@)[k],
            ) by {
                assert(mapped(all[i as int][j], contents(copies@)[k]));
            }
            exclude_cubes(&frames[i], copies, num, &mut r);
        }
        if start == 0 {
            let ghost asserted = contents(r@);
            assert(contents(init@).take(0) =~= Seq::<Seq<Lit>>::empty());
            for i in 0..init.len()
                invariant
                    contents(r@) =~= asserted + contents(init@).take(i as int),
            {
                let ghost so_far = r@;
                let clause = copy_cube(&init[i]);
                r.push(clause);
                assert(contents(r@) =~= contents(so_far).push(init@[i as int]@));
                assert(contents(init@).take(i + 1) =~= contents(init@).take(i as int).push(
                    init@[i as int]@,
                ));
            }
            assert(contents(init@).take(init.len() as int) =~= contents(init@));
        }
        r
    }

    /// The states at the timeframes in between: for each of them, the
    /// literals that hold where `values` gives the values of the latches
    /// there.
    pub fn mid_states(latches: &Vec<u32>, values: &Vec<Vec<Option<bool>>>) -> (r: Vec<Vec<Lit>>)
        requires
            packable(latches@),
            forall|j: int| 0 <= j < values.len() ==> (#[trigger] values@[j]).len() == latches.len(),
        ensures
            r.len() == values.len(),
            forall|j: int|
                0 <= j < values.len() ==> (#[trigger] r@[j])@ == assigned(latches@, values@[j]@),
    {
        let mut r: Vec<Vec<Lit>> = Vec::new();
        for j in 0..values.len()
            invariant
                packable(latches@),
                forall|j: int|
                    0 <= j < values.len() ==> (#[trigger] values@[j]).len() == latches.len(),
                r.len() == j,
                forall|k: int|
                    0 <= k < j ==> (#[trigger] r@[k])@ == assigned(latches@, values@[k]@),
        {
            r.push(assigned_lits(latches, &values[j]));
        }
        r
    }

    /// The inputs of each timeframe, in the variables of the system itself.
    /// `values` holds the values of the inputs of the unrolled system, one
    /// timeframe after the other; what goes past the last timeframe is not
    /// used.
    pub fn timeframe_inputs(
        inputs: &Vec<u32>,
        values: &Vec<Option<bool>>,
        timeframe_expansion: usize,
    ) -> (r: Vec<Vec<Lit>>)
        requires
            packable(inputs@),
            inputs.len() > 0 || forall|i: int|
                0 <= i < values.len() ==> (#[trigger] values@[i]) is None,
        ensures
            r.len() == timeframe_expansion,
            forall|t: int|
                0 <= t < timeframe_expansion ==> (#[trigger] r@[t])@ == inputs_at(
                    inputs@,
                    values@,
                    t,
                ),
    {
        let n: usize = inputs.len();
        let len: usize = values.len();
        let mut base: usize = 0;
        let mut r: Vec<Vec<Lit>> = Vec::new();
        for t in 0..timeframe_expansion
            invariant
                n == inputs.len(),
                len == values.len(),
                packable(inputs@),
                base == first_input(n as nat, len as nat, t as int),
                r.len() == t,
                forall|k: int|
                    0 <= k < t ==> (#[trigger] r@[k])@ == inputs_at(inputs@, values@, k),
        {
            proof {
                lemma_first_input_steps(n as nat, len as nat, t as int);
            }
            let end: usize = if len - base < n {
                len
            } else {
                base + n
            };
            let mut vars: Vec<u32> = Vec::new();
            let mut known: Vec<Option<bool>> = Vec::new();
            for k in base..end
                invariant
                    base <= end <= len,
                    end - base <= n,
                    n == inputs.len(),
                    len == values.len(),
                    packable(inputs@),
                    packable(vars@),
                    vars@ == inputs@.take(k - base),
                    known@ == values@.subrange(base as int, k as int),
            {
                vars.push(inputs[k - base]);
                known.push(values[k]);
                assert(inputs@.take(k + 1 - base) =~= inputs@.take(k - base).push(
                    inputs@[k - base],
                ));
                assert(values@.subrange(base as int, k + 1) =~= values@.subrange(
                    base as int,
                    k as int,
                ).push(values@[k as int]));
            }
            r.push(assigned_lits(&vars, &known));
            base = end;
        }
        r
    }
}

/// The number of the first input of timeframe `t` in the unrolled system,
/// where the system has `n` inputs and the unrolled system `len`.
pub open spec fn first_input(n: nat, len: nat, t: int) -> nat {
    if t * n < len {
        (t * n) as nat
    } else {
        len
    }
}

/// The inputs of timeframe `t` in the variables of the system itself.
pub open spec fn inputs_at(inputs: Seq<u32>, values: Seq<Option<bool>>, t: int) -> Seq<Lit> {
    let first = first_input(inputs.len(), values.len(), t);
    let end = first_input(inputs.len(), values.len(), t + 1);
    assigned(inputs.take(end - first), values.subrange(first as int, end as int))
}

proof fn lemma_first_input_steps(n: nat, len: nat, t: int)
    requires
        0 <= t,
    ensures
        first_input(n, len, 0) == 0,
        first_input(n, len, t) <= first_input(n, len, t + 1) <= len,
        first_input(n, len, t + 1) == if len - first_input(n, len, t) < n {
            len
        } else {
            first_input(n, len, t) + n
        },
{
    assert((t + 1) * n == t * n + n) by (nonlinear_arith);
    assert(0 <= t * n) by (nonlinear_arith)
        requires
            0 <= t,
            0 <= n,
    ;
}

/// Where every timeframe has its inputs, the inputs of timeframe `t` are the
/// values number `t * n` to `(t + 1) * n - 1`.
pub proof fn law_timeframes_have_their_own_inputs(
    inputs: Seq<u32>,
    values: Seq<Option<bool>>,
    expansion: nat,
    t: int,
)
    requires
        values.len() == expansion * inputs.len(),
        0 <= t < expansion,
    ensures
        0 <= t * inputs.len() <= (t + 1) * inputs.len() <= values.len(),
        inputs_at(inputs, values, t) == assigned(
            inputs,
            values.subrange(t * inputs.len(), (t + 1) * inputs.len()),
        ),
{
    let n = inputs.len();
    assert((t + 1) * n == t * n + n) by (nonlinear_arith);
    assert(0 <= t * n && (t + 1) * n <= expansion * n) by (nonlinear_arith)
        requires
            0 <= t < expansion,
            0 <= n,
    ;
    assert(inputs.take(n as int) =~= inputs);
    if n == 0 {
        assert(t * n == 0) by (nonlinear_arith)
            requires
                n == 0,
        ;
    }
}

/// `clause` excludes `cube` at timeframe `lift`.
pub open spec fn excludes(
    clause: Seq<Lit>,
    cube: Seq<Lit>,
    copies: Seq<Seq<Lit>>,
    lift: int,
) -> bool {
    clause == excluded_at(cube, copies, lift)
}

proof fn lemma_cubes_excluded_are_copies(
    cubes: Seq<Seq<Lit>>,
    copies: Seq<Seq<Lit>>,
    num: nat,
    at: int,
)
    requires
        0 <= at < cubes_excluded(cubes, copies, num).len(),
    ensures
        exists|j: int, k: int|
            0 <= j < cubes.len() && 0 <= k < num && #[trigger] excludes(
                cubes_excluded(cubes, copies, num)[at],
                cubes[j],
                copies,
                k,
            ),
    decreases cubes.len(),
{
    let clause = cubes_excluded(cubes, copies, num)[at];
    let rest = cubes.drop_last();
    let front = cubes_excluded(rest, copies, num);
    if at < front.len() {
        lemma_cubes_excluded_are_copies(rest, copies, num, at);
        let (j, k) = choose|j: int, k: int|
            0 <= j < rest.len() && 0 <= k < num && #[trigger] excludes(
                front[at],
                rest[j],
                copies,
                k,
            );
        assert(excludes(clause, cubes[j], copies, k));
    } else {
        assert(excludes(clause, cubes[cubes.len() - 1], copies, at - front.len()));
    }
}

proof fn lemma_copies_are_excluded(
    cubes: Seq<Seq<Lit>>,
    copies: Seq<Seq<Lit>>,
    num: nat,
    j: int,
    k: int,
)
    requires
        0 <= j < cubes.len(),
        0 <= k < num,
    ensures
        cubes_excluded(cubes, copies, num).contains(excluded_at(cubes[j], copies, k)),
    decreases cubes.len(),
{
    let all = cubes_excluded(cubes, copies, num);
    let rest = cubes.drop_last();
    let front = cubes_excluded(rest, copies, num);
    if j < rest.len() {
        lemma_copies_are_excluded(rest, copies, num, j, k);
        let at = choose|at: int|
            0 <= at < front.len() && front[at] == excluded_at(rest[j], copies, k);
        assert(all[at] == front[at]);
    } else {
        assert(all[front.len() + k] == excluded_at_first(cubes.last(), copies, num)[k]);
    }
}

/// The solver of the unrolled system is told of a lemma only at timeframes
/// that stand for its frame or for one before it: each clause excludes the
/// copy of a lemma at such a timeframe.
pub proof fn law_lemmas_hold_up_to_their_frame(
    frames: Seq<Seq<Seq<Lit>>>,
    copies: Seq<Seq<Lit>>,
    start: nat,
    expansion: nat,
    n: nat,
    at: int,
)
    requires
        n <= frames.len(),
        0 <= at < frames_asserted(frames, copies, start as int, expansion, n).len(),
    ensures
        exists|i: int, j: int, k: int|
            0 <= i < n && 0 <= j < frames[i].len() && 0 <= k < expansion && start + k <= i
                && #[trigger] excludes(
                frames_asserted(frames, copies, start as int, expansion, n)[at],
                frames[i][j],
                copies,
                k,
            ),
    decreases n,
{
    let clause = frames_asserted(frames, copies, start as int, expansion, n)[at];
    let last = n - 1;
    let front = frames_asserted(frames, copies, start as int, expansion, (n - 1) as nat);
    if at < front.len() {
        law_lemmas_hold_up_to_their_frame(frames, copies, start, expansion, (n - 1) as nat, at);
        assert(clause == front[at]);
    } else {
        let num = timeframes_up_to(last, start as int, expansion);
        let back = cubes_excluded(frames[last], copies, num);
        lemma_cubes_excluded_are_copies(frames[last], copies, num, at - front.len());
        let (j, k) = choose|j: int, k: int|
            0 <= j < frames[last].len() && 0 <= k < num && #[trigger] excludes(
                back[at - front.len()],
                frames[last][j],
                copies,
                k,
            );
        assert(excludes(clause, frames[last][j], copies, k));
    }
}

/// The solver of the unrolled system is told of a lemma at every timeframe
/// that stands for its frame or for one before it.
pub proof fn law_no_lemma_is_forgotten(
    frames: Seq<Seq<Seq<Lit>>>,
    copies: Seq<Seq<Lit>>,
    start: nat,
    expansion: nat,
    n: nat,
    i: int,
    j: int,
    k: int,
)
    requires
        0 <= i < n <= frames.len(),
        0 <= j < frames[i].len(),
        0 <= k < expansion,
        start + k <= i,
    ensures
        frames_asserted(frames, copies, start as int, expansion, n).contains(
            excluded_at(frames[i][j], copies, k),
        ),
    decreases n,
{
    let clause = excluded_at(frames[i][j], copies, k);
    let all = frames_asserted(frames, copies, start as int, expansion, n);
    let last = n - 1;
    let front = frames_asserted(frames, copies, start as int, expansion, (n - 1) as nat);
    if i < last {
        law_no_lemma_is_forgotten(frames, copies, start, expansion, (n - 1) as nat, i, j, k);
        let at = choose|at: int| 0 <= at < front.len() && front[at] == clause;
        assert(all[at] == front[at]);
    } else {
        let num = timeframes_up_to(last, start as int, expansion);
        let back = cubes_excluded(frames[last], copies, num);
        lemma_copies_are_excluded(frames[last], copies, num, j, k);
        let at = choose|at: int| 0 <= at < back.len() && back[at] == clause;
        assert(all[front.len() + at] == back[at]);
    }
}

/// The clause that excludes a cube at a timeframe has one literal for each of
/// the cube's: the copy of its variable at that timeframe, so that the clause
/// holds exactly where the copy of one of the cube's literals does not.
pub proof fn law_clause_denies_the_copy(cube: Seq<Lit>, copies: Seq<Seq<Lit>>, lift: int)
    ensures
        excluded_at(cube, copies, lift).len() == cube.len(),
        forall|i: int|
            0 <= i < cube.len() ==> {
                let copy = copies[lift][cube[i].spec_var() as int];
                &&& (#[trigger] excluded_at(cube, copies, lift)[i]).spec_var() == copy.spec_var()
                &&& excluded_at(cube, copies, lift)[i].spec_polarity() == (copy.spec_polarity()
                    != cube[i].spec_polarity())
            },
{
    crate::ic3::law_cubes_are_mapped_literal_by_literal(cube, copies[lift]);
    crate::lit::law_negation_flips_every_literal(cube_image(cube, copies[lift]));
    assert forall|i: int| 0 <= i < cube.len() implies {
        let copy = copies[lift][cube[i].spec_var() as int];
        &&& (#[trigger] excluded_at(cube, copies, lift)[i]).spec_var() == copy.spec_var()
        &&& excluded_at(cube, copies, lift)[i].spec_polarity() == (copy.spec_polarity()
            != cube[i].spec_polarity())
    } by {
        assert(crate::ic3::is_image(
            cube_image(cube, copies[lift])[i],
            cube[i],
            copies[lift],
        ));
    }
}

/// The solver of the unrolled system, for blocking in `frame`, starts with
/// nothing but the lemmas at the timeframes that stand for their frame or for
/// one before it, the first timeframe standing for `frame - expansion`, and,
/// exactly where that is frame 0, the clauses of the initial states.
pub proof fn law_unrolled_system_starts_with_the_frames(
    frame: nat,
    expansion: nat,
    frames: Seq<Seq<Seq<Lit>>>,
    copies: Seq<Seq<Lit>>,
    init: Seq<Seq<Lit>>,
    clause: Seq<Lit>,
)
    requires
        1 <= expansion <= frame,
    ensures
        unrolled_clauses(frame, expansion, frames, copies, init).contains(clause) <==> (frame
            == expansion && init.contains(clause)) || exists|i: int, j: int, k: int|
            0 <= i < frames.len() && 0 <= j < frames[i].len() && 0 <= k < expansion && frame
                - expansion + k <= i && #[trigger] excludes(clause, frames[i][j], copies, k),
{
    let all = unrolled_clauses(frame, expansion, frames, copies, init);
    let start = (frame - expansion) as nat;
    let n = frames.len();
    let asserted = frames_asserted(frames, copies, start as int, expansion, n);
    if all.contains(clause) {
        let at = choose|at: int| 0 <= at < all.len() && all[at] == clause;
        if at < asserted.len() {
            law_lemmas_hold_up_to_their_frame(frames, copies, start, expansion, n, at);
            let (i, j, k) = choose|i: int, j: int, k: int|
                0 <= i < n && 0 <= j < frames[i].len() && 0 <= k < expansion && start + k <= i
                    && #[trigger] excludes(asserted[at], frames[i][j], copies, k);
            assert(excludes(clause, frames[i][j], copies, k));
        } else {
            assert(init[at - asserted.len()] == clause);
        }
    }
    if frame == expansion && init.contains(clause) {
        let at = choose|at: int| 0 <= at < init.len() && init[at] == clause;
        assert(all[asserted.len() + at] == clause);
    }
    if exists|i: int, j: int, k: int|
        0 <= i < frames.len() && 0 <= j < frames[i].len() && 0 <= k < expansion && frame
            - expansion + k <= i && #[trigger] excludes(clause, frames[i][j], copies, k) {
        let (i, j, k) = choose|i: int, j: int, k: int|
            0 <= i < frames.len() && 0 <= j < frames[i].len() && 0 <= k < expansion && frame
                - expansion + k <= i && #[trigger] excludes(clause, frames[i][j], copies, k);
        law_no_lemma_is_forgotten(frames, copies, start, expansion, n, i, j, k);
        let at = choose|at: int| 0 <= at < asserted.len() && asserted[at] == clause;
        assert(all[at] == clause);
    }
}

/// The inputs of a timeframe are the known values among those numbered from
/// the timeframe times the number of inputs on, one for each input, in the
/// variables of the system itself.
pub proof fn law_inputs_are_those_of_the_timeframe(
    inputs: Seq<u32>,
    values: Seq<Option<bool>>,
    t: int,
    l: Lit,
)
    requires
        packable(inputs),
        0 <= t,
    ensures
        inputs_at(inputs, values, t).contains(l) <==> exists|i: int|
            0 <= i < inputs.len() && t * inputs.len() + i < values.len() && #[trigger] inputs[i]
                == l.spec_var() && values[t * inputs.len() + i] == Some(l.spec_polarity()),
{
    let n = inputs.len();
    let first = first_input(n, values.len(), t);
    let end = first_input(n, values.len(), t + 1);
    lemma_first_input_steps(n, values.len(), t);
    assert(0 <= t * n) by (nonlinear_arith)
        requires
            0 <= t,
            0 <= n,
    ;
    let vars = inputs.take(end - first);
    let known = values.subrange(first as int, end as int);
    assert(packable(vars)) by {
        assert forall|i: int| 0 <= i < vars.len() implies #[trigger] vars[i] <= u32::MAX / 2 by {
            assert(vars[i] == inputs[i]);
        }
    }
    crate::ic3::law_read_literals_are_the_known_values(vars, known, l);
    if inputs_at(inputs, values, t).contains(l) {
        let i = choose|i: int|
            0 <= i < vars.len() && #[trigger] vars[i] == l.spec_var() && known[i] == Some(
                l.spec_polarity(),
            );
        assert(inputs[i] == l.spec_var());
    }
    if exists|i: int|
        0 <= i < n && t * n + i < values.len() && #[trigger] inputs[i] == l.spec_var()
            && values[t * n + i] == Some(l.spec_polarity()) {
        let i = choose|i: int|
            0 <= i < n && t * n + i < values.len() && #[trigger] inputs[i] == l.spec_var()
                && values[t * n + i] == Some(l.spec_polarity());
        assert(vars[i] == l.spec_var());
        assert(known[i] == Some(l.spec_polarity()));
    }
}

} // verus!
