//! The counterexample that a chain of obligations stands for.

use vstd::prelude::*;

use crate::ic3::{cube_image, is_image, map_cube, mapped};
use crate::lemma::Link;
use crate::lit::Lit;

verus! {

/// A counterexample: the states that it goes through and the inputs that lead
/// from each to the next.
pub struct Witness {
    pub state: Vec<Vec<Lit>>,
    pub input: Vec<Vec<Lit>>,
}

/// The literals of `cube` whose variable is not `var`.
pub open spec fn without_var(cube: Seq<Lit>, var: Option<u32>) -> Seq<Lit>
    decreases cube.len(),
{
    if cube.len() == 0 {
        Seq::empty()
    } else {
        let rest = without_var(cube.drop_last(), var);
        if var == Some(cube.last().spec_var()) {
            rest
        } else {
            rest.push(cube.last())
        }
    }
}

/// Leaves out the literals of a variable.
pub fn drop_var(cube: &Vec<Lit>, var: Option<u32>) -> (r: Vec<Lit>)
    ensures
        r@ == without_var(cube@, var),
{
    let mut r: Vec<Lit> = Vec::new();
    for i in 0..cube.len()
        invariant
            r@ == without_var(cube@.take(i as int), var),
    {
        assert(cube@.take(i + 1).drop_last() =~= cube@.take(i as int));
        let keep: bool = match var {
            Some(v) => cube[i].var() != v,
            None => true,
        };
        if keep {
            r.push(cube[i]);
        }
    }
    assert(cube@.take(cube.len() as int) =~= cube@);
    r
}

/// A cube in the variables of the system that was given: without the variable
/// that marks the initial state, and each other variable mapped back.
pub open spec fn restored(cube: Seq<Lit>, init_var: Option<u32>, images: Seq<Lit>) -> Seq<Lit> {
    cube_image(without_var(cube, init_var), images)
}

/// Every variable of the obligation has an image, but for the one that marks
/// the initial state.
pub open spec fn restorable(link: Link, init_var: Option<u32>, images: Seq<Lit>) -> bool {
    &&& mapped(without_var(link.lemma@, init_var), images)
    &&& mapped(without_var(link.input@, init_var), images)
}

/// The counterexample of a chain of obligations that starts in frame 0:
/// for each of them, its state and its inputs, mapped back.
pub fn witness(links: &Vec<Link>, init_var: Option<u32>, images: &Vec<Lit>) -> (r: Witness)
    requires
        links.len() > 0,
        links@[0].frame == 0,
        forall|i: int|
            0 <= i < links.len() ==> restorable(#[trigger] links@[i], init_var, images@),
    ensures
        r.state.len() == links.len(),
        r.input.len() == links.len(),
        forall|i: int|
            0 <= i < links.len() ==> (#[trigger] r.state@[i])@ == restored(
                links@[i].lemma@,
                init_var,
                images@,
            ),
        forall|i: int|
            0 <= i < links.len() ==> (#[trigger] r.input@[i])@ == restored(
                links@[i].input@,
                init_var,
                images@,
            ),
{
    let mut state: Vec<Vec<Lit>> = Vec::new();
    let mut input: Vec<Vec<Lit>> = Vec::new();
    for i in 0..links.len()
        invariant
            state.len() == i,
            input.len() == i,
            forall|j: int|
                0 <= j < links.len() ==> restorable(#[trigger] links@[j], init_var, images@),
            forall|j: int|
                0 <= j < i ==> (#[trigger] state@[j])@ == restored(
                    links@[j].lemma@,
                    init_var,
                    images@,
                ),
            forall|j: int|
                0 <= j < i ==> (#[trigger] input@[j])@ == restored(
                    links@[j].input@,
                    init_var,
                    images@,
                ),
    {
        assert(restorable(links@[i as int], init_var, images@));
        let lemma = drop_var(&links[i].lemma, init_var);
        let inputs = drop_var(&links[i].input, init_var);
        state.push(map_cube(&lemma, images));
        input.push(map_cube(&inputs, images));
    }
    Witness { state, input }
}

/// What is left of a cube has no literal of the variable that was left out,
/// and every other literal of the cube is still there.
pub proof fn law_only_the_variable_is_left_out(cube: Seq<Lit>, var: Option<u32>, l: Lit)
    ensures
        without_var(cube, var).contains(l) <==> cube.contains(l) && var != Some(l.spec_var()),
    decreases cube.len(),
{
    if cube.len() > 0 {
        let front = cube.drop_last();
        let rest = without_var(front, var);
        law_only_the_variable_is_left_out(front, var, l);
        assert(cube =~= front.push(cube.last()));
        assert(cube.contains(l) <==> front.contains(l) || l == cube.last()) by {
            assert(cube[cube.len() - 1] == cube.last());
            if front.contains(l) {
                let i = choose|i: int| 0 <= i < front.len() && front[i] == l;
                assert(cube[i] == l);
            }
            if cube.contains(l) && l != cube.last() {
                let i = choose|i: int| 0 <= i < cube.len() && cube[i] == l;
                assert(front[i] == l);
            }
        }
        assert(rest.push(cube.last()).contains(l) <==> rest.contains(l) || l == cube.last()) by {
            let more = rest.push(cube.last());
            assert(more[rest.len() as int] == cube.last());
            if rest.contains(l) {
                let i = choose|i: int| 0 <= i < rest.len() && rest[i] == l;
                assert(more[i] == l);
            }
        }
    }
}

/// Without a variable that marks the initial state, nothing is left out.
pub proof fn law_without_marker_all_is_kept(cube: Seq<Lit>)
    ensures
        without_var(cube, None) == cube,
    decreases cube.len(),
{
    if cube.len() > 0 {
        law_without_marker_all_is_kept(cube.drop_last());
        assert(cube =~= cube.drop_last().push(cube.last()));
    }
}

/// A literal of a restored cube is the image of a literal of the cube that is
/// not of the variable that was left out, and every such literal has its image
/// there.
pub proof fn law_restored_literals_are_images(
    cube: Seq<Lit>,
    init_var: Option<u32>,
    images: Seq<Lit>,
    l: Lit,
)
    ensures
        restored(cube, init_var, images).contains(l) ==> exists|from: Lit|
            #[trigger] cube.contains(from) && init_var != Some(from.spec_var()) && is_image(
                l,
                from,
                images,
            ),
        forall|from: Lit|
            #[trigger] cube.contains(from) && init_var != Some(from.spec_var()) && is_image(
                l,
                from,
                images,
            ) ==> restored(cube, init_var, images).contains(l),
{
    let kept = without_var(cube, init_var);
    let there = restored(cube, init_var, images);
    if there.contains(l) {
        let at = choose|at: int| 0 <= at < there.len() && there[at] == l;
        assert(kept.contains(kept[at]));
        law_only_the_variable_is_left_out(cube, init_var, kept[at]);
        crate::ic3::law_images_respect_negation(kept[at], images);
        assert(cube.contains(kept[at]));
    }
    assert forall|from: Lit|
        #[trigger] cube.contains(from) && init_var != Some(from.spec_var()) && is_image(
            l,
            from,
            images,
        ) implies there.contains(l) by {
        law_only_the_variable_is_left_out(cube, init_var, from);
        let at = choose|at: int| 0 <= at < kept.len() && kept[at] == from;
        crate::ic3::law_images_respect_negation(from, images);
        crate::lit::law_literal_by_var_and_polarity(there[at], l);
        assert(there[at] == l);
    }
}

/// Restoring keeps the order: a cube in two parts is restored part by part.
pub proof fn law_restoring_keeps_the_order(
    front: Seq<Lit>,
    back: Seq<Lit>,
    init_var: Option<u32>,
    images: Seq<Lit>,
)
    ensures
        restored(front + back, init_var, images) == restored(front, init_var, images) + restored(
            back,
            init_var,
            images,
        ),
{
    lemma_without_var_splits(front, back, init_var);
    assert(restored(front + back, init_var, images) =~= restored(front, init_var, images)
        + restored(back, init_var, images));
}

proof fn lemma_without_var_splits(front: Seq<Lit>, back: Seq<Lit>, var: Option<u32>)
    ensures
        without_var(front + back, var) == without_var(front, var) + without_var(back, var),
    decreases back.len(),
{
    if back.len() == 0 {
        assert(front + back =~= front);
        assert(without_var(front, var) + without_var(back, var) =~= without_var(front, var));
    } else {
        lemma_without_var_splits(front, back.drop_last(), var);
        assert((front + back).drop_last() =~= front + back.drop_last());
        assert(without_var(front + back, var) =~= without_var(front, var) + without_var(
            back,
            var,
        ));
    }
}

} // verus!
