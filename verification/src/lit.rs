//! Literals and cubes.

use vstd::prelude::*;

verus! {

/// A literal: a variable or its negation, packed as twice the variable's
/// index, plus one where the literal is negated.
#[derive(Clone, Copy, PartialEq, Eq, Structural, Debug)]
pub struct Lit {
    pub code: u32,
}

impl Lit {
    /// The index of the literal's variable.
    pub open spec fn spec_var(self) -> u32 {
        self.code / 2
    }

    /// Whether the literal is its variable, not the variable's negation.
    pub open spec fn spec_polarity(self) -> bool {
        self.code % 2 == 0
    }

    /// The literal of the same variable with the other polarity.
    pub open spec fn spec_negated(self) -> Lit {
        Lit {
            code: if self.code % 2 == 0 {
                (self.code + 1) as u32
            } else {
                (self.code - 1) as u32
            },
        }
    }

    /// The literal itself, negated where `c` holds.
    pub open spec fn spec_not_if(self, c: bool) -> Lit {
        if c {
            self.spec_negated()
        } else {
            self
        }
    }

    /// The literal of variable `var` with the given polarity.
    pub fn new(var: u32, polarity: bool) -> (r: Lit)
        requires
            var <= u32::MAX / 2,
        ensures
            r.spec_var() == var,
            r.spec_polarity() == polarity,
    {
        Lit {
            code: if polarity {
                var * 2
            } else {
                var * 2 + 1
            },
        }
    }

    /// The literal that is constantly `polarity`. Variable 0 is the constant
    /// false, so the constant true is its negation.
    pub fn constant(polarity: bool) -> (r: Lit)
        ensures
            r.spec_var() == 0,
            r.spec_polarity() == !polarity,
    {
        Lit::new(0, !polarity)
    }

    /// The index of the literal's variable.
    pub fn var(&self) -> (r: u32)
        ensures
            r == self.spec_var(),
    {
        self.code / 2
    }

    /// Whether the literal is its variable, not the variable's negation.
    pub fn polarity(&self) -> (r: bool)
        ensures
            r == self.spec_polarity(),
    {
        self.code % 2 == 0
    }

    /// The literal of the same variable with the other polarity.
    pub fn negated(&self) -> (r: Lit)
        ensures
            r == self.spec_negated(),
            r.spec_var() == self.spec_var(),
            r.spec_polarity() != self.spec_polarity(),
    {
        if self.code % 2 == 0 {
            Lit { code: self.code + 1 }
        } else {
            Lit { code: self.code - 1 }
        }
    }

    /// The literal itself, negated where `c` holds.
    pub fn not_if(&self, c: bool) -> (r: Lit)
        ensures
            r == self.spec_not_if(c),
            r.spec_var() == self.spec_var(),
            r.spec_polarity() == (self.spec_polarity() != c),
    {
        if c {
            self.negated()
        } else {
            *self
        }
    }
}

/// Negating twice gives the literal back; negating once keeps the variable
/// and flips the polarity.
pub proof fn law_negation_is_an_involution(l: Lit)
    ensures
        l.spec_negated().spec_negated() == l,
        l.spec_negated() != l,
        l.spec_negated().spec_var() == l.spec_var(),
        l.spec_negated().spec_polarity() == !l.spec_polarity(),
{
}

/// A literal is determined by its variable and its polarity.
pub proof fn law_literal_by_var_and_polarity(a: Lit, b: Lit)
    requires
        a.spec_var() == b.spec_var(),
        a.spec_polarity() == b.spec_polarity(),
    ensures
        a == b,
{
}

/// The literals of `cube`, each negated: read as a clause, the negation of
/// the cube.
pub open spec fn negation(cube: Seq<Lit>) -> Seq<Lit> {
    cube.map_values(|l: Lit| l.spec_negated())
}

/// No variable occurs in `cube` with both polarities.
pub open spec fn consistent(cube: Seq<Lit>) -> bool {
    forall|i: int, j: int|
        0 <= i < cube.len() && 0 <= j < cube.len() ==> #[trigger] cube[i] != (
        #[trigger] cube[j]).spec_negated()
}

/// Every literal of `part` is one of `whole`.
pub open spec fn literals_among(part: Seq<Lit>, whole: Seq<Lit>) -> bool {
    forall|l: Lit| #[trigger] part.contains(l) ==> whole.contains(l)
}

/// The literals of `cube` stand in the order of their codes.
pub open spec fn ordered(cube: Seq<Lit>) -> bool {
    forall|i: int, j: int| 0 <= i <= j < cube.len() ==> cube[i].code <= cube[j].code
}

/// The literals of `cube`, in the order of their codes.
pub open spec fn in_order(cube: Seq<Lit>) -> Seq<Lit> {
    cube.sort_by(|x: Lit, y: Lit| x.code <= y.code)
}

/// Copies a cube.
pub fn copy_cube(cube: &Vec<Lit>) -> (r: Vec<Lit>)
    ensures
        r@ == cube@,
{
    let mut r: Vec<Lit> = Vec::new();
    for i in 0..cube.len()
        invariant
            r@ == cube@.take(i as int),
    {
        r.push(cube[i]);
        assert(cube@.take(i + 1) == cube@.take(i as int).push(cube@[i as int]));
    }
    assert(cube@.take(cube.len() as int) == cube@);
    r
}

/// Negates every literal of a cube.
pub fn negate_cube(cube: &Vec<Lit>) -> (r: Vec<Lit>)
    ensures
        r@ == negation(cube@),
        r.len() == cube.len(),
        forall|i: int|
            0 <= i < cube.len() ==> (#[trigger] r@[i]).spec_var() == cube@[i].spec_var()
                && r@[i].spec_polarity() != cube@[i].spec_polarity(),
{
    let mut r: Vec<Lit> = Vec::new();
    for i in 0..cube.len()
        invariant
            r@ == negation(cube@.take(i as int)),
    {
        r.push(cube[i].negated());
        assert(r@ =~= negation(cube@.take(i + 1)));
    }
    assert(cube@.take(cube.len() as int) == cube@);
    r
}

/// Negating the negation of a cube gives the cube back.
pub proof fn law_double_negation(cube: Seq<Lit>)
    ensures
        negation(negation(cube)) == cube,
{
    assert forall|i: int| 0 <= i < cube.len() implies negation(negation(cube))[i] == cube[i] by {
        law_negation_is_an_involution(cube[i]);
    }
    assert(negation(negation(cube)) =~= cube);
}

/// Puts the literals of a cube in the order of their codes.
pub fn order_cube(cube: Vec<Lit>) -> (r: Vec<Lit>)
    ensures
        r@ == in_order(cube@),
        ordered(r@),
        r@.to_multiset() == cube@.to_multiset(),
{
    let mut r: Vec<Lit> = Vec::new();
    assert(cube@.take(0) == r@);
    for i in 0..cube.len()
        invariant
            ordered(r@),
            r@.to_multiset() == cube@.take(i as int).to_multiset(),
    {
        let l = cube[i];
        let mut pos: usize = r.len();
        while pos > 0 && r[pos - 1].code > l.code
            invariant
                pos <= r.len(),
                ordered(r@),
                forall|j: int| pos <= j < r.len() ==> r@[j].code > l.code,
            decreases pos,
        {
            pos = pos - 1;
        }
        proof {
            broadcast use vstd::seq_lib::group_to_multiset_ensures;

            assert(cube@.take(i + 1) == cube@.take(i as int).push(l));
            r@.insert_ensures(pos as int, l);
        }
        let ghost before = r@;
        r.insert(pos, l);
        proof {
            broadcast use vstd::seq_lib::group_to_multiset_ensures;

            before.insert_ensures(pos as int, l);
            assert(before.insert(pos as int, l).to_multiset() == before.to_multiset().insert(l));
        }
    }
    assert(cube@.take(cube.len() as int) == cube@);
    proof {
        law_ordering_keeps_the_literals(cube@);
        law_ordered_form_is_unique(r@, in_order(cube@));
    }
    r
}

/// Putting a cube in order neither adds a literal nor loses one.
pub proof fn law_ordering_keeps_the_literals(cube: Seq<Lit>)
    ensures
        ordered(in_order(cube)),
        in_order(cube).to_multiset() == cube.to_multiset(),
{
    let leq = |x: Lit, y: Lit| x.code <= y.code;
    assert(vstd::relations::total_ordering(leq)) by {
        assert(forall|x: Lit, y: Lit| #[trigger] leq(x, y) && #[trigger] leq(y, x) ==> x == y);
    }
    cube.lemma_sort_by_ensures(leq);
    assert forall|i: int, j: int| 0 <= i <= j < in_order(cube).len() implies in_order(cube)[i].code
        <= in_order(cube)[j].code by {
        if i < j {
            assert(leq(in_order(cube)[i], in_order(cube)[j]));
        }
    }
}

/// The ordered form of a cube depends on its literals alone, not on the order
/// in which they came.
pub proof fn law_ordered_form_is_unique(a: Seq<Lit>, b: Seq<Lit>)
    requires
        ordered(a),
        ordered(b),
        a.to_multiset() == b.to_multiset(),
    ensures
        a == b,
{
    let leq = |x: Lit, y: Lit| x.code <= y.code;
    assert(vstd::relations::total_ordering(leq)) by {
        assert(forall|x: Lit, y: Lit| #[trigger] leq(x, y) && #[trigger] leq(y, x) ==> x == y);
    }
    assert(vstd::relations::sorted_by(a, leq));
    assert(vstd::relations::sorted_by(b, leq));
    vstd::seq_lib::lemma_sorted_unique(a, b, leq);
}

/// A literal is packed as twice its variable, plus one where it is negated.
pub proof fn law_literal_is_packed(l: Lit)
    ensures
        l.code == 2 * l.spec_var() + if l.spec_polarity() {
            0int
        } else {
            1
        },
{
}

/// The negation of a cube has the same variables, in the same order, each with
/// the other polarity.
pub proof fn law_negation_flips_every_literal(cube: Seq<Lit>)
    ensures
        negation(cube).len() == cube.len(),
        forall|i: int|
            0 <= i < cube.len() ==> (#[trigger] negation(cube)[i]).spec_var()
                == cube[i].spec_var() && negation(cube)[i].spec_polarity()
                != cube[i].spec_polarity(),
{
}

} // verus!
