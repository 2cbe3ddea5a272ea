//! Literals, cubes and the sequence of restart limits.

use ric3::ic3::{assigned_lits, map_cube, IC3};
use ric3::lit::{copy_cube, negate_cube, order_cube, Lit};
use ric3::luby::{luby, restart_limit};

fn lit(var: u32, polarity: bool) -> Lit {
    Lit::new(var, polarity)
}

#[test]
fn a_literal_packs_variable_and_polarity() {
    let positive = lit(21, true);
    let negative = lit(21, false);
    assert_eq!(positive.code, 42);
    assert_eq!(negative.code, 43);
    assert_eq!(negative.var(), 21);
    assert!(positive.polarity());
    assert!(!negative.polarity());
    assert_eq!(positive.negated(), negative);
    assert_eq!(negative.negated(), positive);
    assert_eq!(positive.not_if(true), negative);
    assert_eq!(positive.not_if(false), positive);
}

#[test]
fn variable_zero_is_the_constant_false() {
    assert_eq!(Lit::constant(false), lit(0, true));
    assert_eq!(Lit::constant(true), lit(0, false));
}

#[test]
fn negating_a_cube_twice_gives_it_back() {
    let cube = vec![lit(3, true), lit(1, false), lit(2, true)];
    let negated = negate_cube(&cube);
    assert_eq!(negated, vec![lit(3, false), lit(1, true), lit(2, false)]);
    assert_eq!(negate_cube(&negated), cube);
    assert_eq!(copy_cube(&cube), cube);
}

#[test]
fn ordering_does_not_depend_on_the_order_of_arrival() {
    let a = order_cube(vec![lit(3, true), lit(1, false), lit(2, true), lit(1, true)]);
    let b = order_cube(vec![lit(1, true), lit(2, true), lit(1, false), lit(3, true)]);
    assert_eq!(a, vec![lit(1, true), lit(1, false), lit(2, true), lit(3, true)]);
    assert_eq!(a, b);
    assert_eq!(order_cube(vec![lit(2, true), lit(2, true)]).len(), 2);
}

#[test]
fn only_known_values_become_literals() {
    let vars = vec![4, 5, 6];
    let values = vec![Some(true), None, Some(false)];
    assert_eq!(assigned_lits(&vars, &values), vec![lit(4, true), lit(6, false)]);
}

#[test]
fn a_cube_is_mapped_with_its_polarities() {
    // Variable 1 maps to the negation of variable 5, variable 2 to itself.
    let images = vec![lit(0, true), lit(5, false), lit(2, true)];
    let cube = vec![lit(1, true), lit(1, false), lit(2, false)];
    assert_eq!(map_cube(&cube, &images), vec![lit(5, false), lit(5, true), lit(2, false)]);
}

#[test]
fn frame_zero_excludes_what_the_initial_clauses_do() {
    let init = vec![vec![lit(1, true), lit(2, false)], vec![lit(3, true)]];
    let lemmas = IC3::initial_lemmas(&init);
    assert_eq!(lemmas, vec![vec![lit(1, false), lit(2, true)], vec![lit(3, false)]]);
}

#[test]
fn forced_latches_without_a_value_get_one() {
    let latches = vec![1, 2, 3, 4];
    let initialised = vec![true, false, false, false];
    let values = vec![Some(true), Some(false), None, Some(true)];
    let forced = IC3::inferred_initial_values(&latches, &initialised, &values);
    assert_eq!(forced, vec![lit(2, false), lit(4, true)]);
    assert_eq!(IC3::initial_value(forced[0]), (2, Lit::constant(false)));
    assert_eq!(IC3::initial_value(forced[1]), (4, Lit::constant(true)));
}

#[test]
fn the_unrolled_system_must_avoid_bad_states() {
    let constraints = IC3::mt_constraints(&vec![lit(7, true)], &vec![lit(8, true), lit(9, false)]);
    assert_eq!(constraints, vec![lit(7, true), lit(8, false), lit(9, true)]);
}

#[test]
fn the_invariant_is_mapped_back() {
    let images = vec![lit(0, true), lit(5, false), lit(2, true)];
    let lemmas = vec![vec![lit(1, true)], vec![lit(2, false), lit(1, false)]];
    assert_eq!(
        IC3::inductive_invariant(&lemmas, &images),
        vec![vec![lit(5, false)], vec![lit(2, false), lit(5, true)]]
    );
}

#[test]
fn the_certificate_lists_lemmas_constraints_and_equivalences() {
    let images = vec![lit(0, true), lit(5, false), lit(2, true)];
    let lemmas = vec![vec![lit(1, true)]];
    let constraints = vec![lit(2, true), lit(1, false)];
    let equivalences = vec![vec![lit(6, true), lit(7, false)]];
    assert_eq!(
        IC3::certificate_cubes(&lemmas, &constraints, &images, equivalences),
        vec![
            vec![lit(5, false)],
            vec![lit(2, false)],
            vec![lit(5, false)],
            vec![lit(6, true), lit(7, false)],
        ]
    );
}

#[test]
fn luby_numbers_follow_the_sequence() {
    let exponents: Vec<u32> = (0..15).map(luby).collect();
    assert_eq!(exponents, vec![0, 0, 1, 0, 0, 1, 2, 0, 0, 1, 0, 0, 1, 2, 3]);
    // Each row is two copies of the row before, then one more.
    for x in 0..7 {
        assert_eq!(luby(x), luby(x + 7));
    }
}

#[test]
fn restart_limits_are_hundreds_of_luby_numbers() {
    let limits: Vec<u128> = (0..7).map(restart_limit).collect();
    assert_eq!(limits, vec![100, 100, 200, 100, 100, 200, 400]);
    assert_eq!(restart_limit(62), 3200);
}
