//! Named unknowns, and the dense square system of linear equations over them.
//!
//! A [`Builder`] hands out a column to every unknown the first time its name is asked for,
//! and a row to every equation. The [`System`] it builds keeps the names in column order.
//! A [`Solver`] is the dense matrix `A` and the vector `b` of `A x = b`. Its cells do not
//! hold numbers but say which quantity stands there: the numbers are put in by whoever
//! solves the system, once per time step.

use crate::text::texts_of;
use vstd::prelude::*;

verus! {

/// The row of an equation.
#[derive(Clone, Copy, Debug)]
pub struct EquationIndex(usize);

/// The column of an unknown.
#[derive(Clone, Copy, Debug)]
pub struct VariableIndex(usize);

impl View for EquationIndex {
    type V = nat;

    closed spec fn view(&self) -> nat {
        self.0 as nat
    }
}

impl View for VariableIndex {
    type V = nat;

    closed spec fn view(&self) -> nat {
        self.0 as nat
    }
}

impl EquationIndex {
    /// The index of row `i`.
    pub fn from_index(i: usize) -> (r: Self)
        ensures
            r@ == i,
    {
        EquationIndex(i)
    }

    /// The row, as a number.
    pub fn into_index(self) -> (r: usize)
        ensures
            r == self@,
    {
        self.0
    }
}

impl VariableIndex {
    /// The index of column `i`.
    pub fn from_index(i: usize) -> (r: Self)
        ensures
            r@ == i,
    {
        VariableIndex(i)
    }

    /// The column, as a number.
    pub fn into_index(self) -> (r: usize)
        ensures
            r == self@,
    {
        self.0
    }
}

/// The sign of a term.
#[derive(Clone, Copy, PartialEq, Eq, Debug, Structural)]
pub enum Sign {
    Plus,
    Minus,
}

/// What stands in one cell of the matrix `A`. The conductance and the gain are those of
/// the device whose equation fills the row.
#[derive(Clone, Copy, PartialEq, Eq, Debug, Structural)]
pub enum Coefficient {
    /// Nothing was written: 0.
    Zero,
    /// +1 or -1.
    Unit(Sign),
    /// The conductance of the row's device, or its negative.
    Conductance(Sign),
    /// The gain of the row's device, or its negative.
    Gain(Sign),
}

/// What stands in one entry of the vector `b`.
#[derive(Clone, Copy, PartialEq, Eq, Debug, Structural)]
pub enum Constant {
    /// Nothing was written: 0.
    Zero,
    /// The voltage of the row's source at the time of the step.
    SourceVoltage,
    /// The voltage stored in the row's capacitor.
    StoredVoltage,
    /// The current of the row's diode at zero volts, were the diode the straight line
    /// that stands for it in this step: minus its conductance times its offset voltage.
    OffsetCurrent,
}

/// The table after `name` was asked for: a name that is new goes to the end.
pub open spec fn intern(table: Seq<Seq<char>>, name: Seq<char>) -> Seq<Seq<char>> {
    if table.contains(name) {
        table
    } else {
        table.push(name)
    }
}

/// The table after the names `requests` were asked for in turn, starting from `table`.
pub open spec fn intern_all(table: Seq<Seq<char>>, requests: Seq<Seq<char>>) -> Seq<Seq<char>>
    decreases requests.len(),
{
    if requests.len() == 0 {
        table
    } else {
        intern(intern_all(table, requests.drop_last()), requests.last())
    }
}

/// The names of `requests` in the order in which each is first seen.
pub open spec fn interned(requests: Seq<Seq<char>>) -> Seq<Seq<char>> {
    intern_all(Seq::empty(), requests)
}

/// The column of `name` in `table`.
pub open spec fn position(table: Seq<Seq<char>>, name: Seq<char>) -> nat
    recommends
        table.contains(name),
{
    table.index_of(name) as nat
}

/// In a table without repetition a name stands at one place only.
pub proof fn lemma_position(table: Seq<Seq<char>>, i: int)
    requires
        table.no_duplicates(),
        0 <= i < table.len(),
    ensures
        position(table, table[i]) == i,
{
    let j = table.index_of(table[i]);
    assert(0 <= j < table.len() && table[j] == table[i]);
}

/// Asking for a name keeps the table free of repetition, leaves every name where it was,
/// and leaves the name asked for in the table.
pub proof fn lemma_intern(table: Seq<Seq<char>>, name: Seq<char>)
    requires
        table.no_duplicates(),
    ensures
        intern(table, name).no_duplicates(),
        intern(table, name).contains(name),
        table.len() <= intern(table, name).len() <= table.len() + 1,
        forall|i: int| 0 <= i < table.len() ==> intern(table, name)[i] == #[trigger] table[i],
        forall|other: Seq<char>| #[trigger]
            table.contains(other) ==> intern(table, name).contains(other) && position(
                intern(table, name),
                other,
            ) == position(table, other),
{
    let after = intern(table, name);
    if !table.contains(name) {
        assert(after[table.len() as int] == name);
        assert forall|i: int, j: int|
            0 <= i < after.len() && 0 <= j < after.len() && i != j implies after[i] != after[j] by {
            if i == table.len() {
                assert(table.contains(after[j])) by { assert(table[j] == after[j]); }
            } else if j == table.len() {
                assert(table.contains(after[i])) by { assert(table[i] == after[i]); }
            }
        }
    }
    assert forall|other: Seq<char>| #[trigger] table.contains(other) implies after.contains(other)
        && position(after, other) == position(table, other) by {
        let i = table.index_of(other);
        assert(0 <= i < table.len() && table[i] == other);
        assert(after[i] == other);
        lemma_position(after, i);
    }
}

/// Asking for names in turn keeps the table free of repetition and only lengthens it.
pub proof fn lemma_intern_all(table: Seq<Seq<char>>, requests: Seq<Seq<char>>)
    requires
        table.no_duplicates(),
    ensures
        intern_all(table, requests).no_duplicates(),
        table.len() <= intern_all(table, requests).len(),
        forall|i: int| 0 <= i < table.len() ==> intern_all(table, requests)[i] == #[trigger] table[i],
    decreases requests.len(),
{
    if requests.len() > 0 {
        lemma_intern_all(table, requests.drop_last());
        lemma_intern(intern_all(table, requests.drop_last()), requests.last());
    }
}

/// Asking for one more name after `requests` is asking for it in the table they left.
pub proof fn lemma_intern_all_push(table: Seq<Seq<char>>, requests: Seq<Seq<char>>, name: Seq<char>)
    ensures
        intern_all(table, requests.push(name)) == intern(intern_all(table, requests), name),
{
    assert(requests.push(name).drop_last() =~= requests);
}

/// Asking for `first` and then for `second` is asking for `second` in the table that
/// `first` left.
pub proof fn lemma_intern_all_concat(
    table: Seq<Seq<char>>,
    first: Seq<Seq<char>>,
    second: Seq<Seq<char>>,
)
    ensures
        intern_all(table, first + second) == intern_all(intern_all(table, first), second),
    decreases second.len(),
{
    if second.len() == 0 {
        assert(first + second =~= first);
    } else {
        lemma_intern_all_concat(table, first, second.drop_last());
        assert((first + second).drop_last() =~= first + second.drop_last());
    }
}

/// The unknowns of a system, by name, in the order of their columns.
pub struct System {
    variables_in_order: Vec<String>,
}

impl System {
    /// The names of the unknowns in column order.
    pub closed spec fn names(&self) -> Seq<Seq<char>> {
        texts_of(self.variables_in_order@)
    }

    /// No name stands in two columns.
    pub open spec fn wf(&self) -> bool {
        self.names().no_duplicates()
    }

    /// An empty solver with one row and one column for each unknown.
    pub fn new_solver(&self) -> (r: Solver)
        ensures
            r.wf(),
            r.dim_spec() == self.names().len(),
            r.is_zero(),
    {
        Solver::new(self.variables_in_order.len())
    }

    /// The number of unknowns.
    pub fn dim(&self) -> (r: usize)
        ensures
            r == self.names().len(),
    {
        self.variables_in_order.len()
    }

    /// The names of the unknowns in column order.
    pub fn variables(&self) -> (r: &Vec<String>)
        ensures
            texts_of(r@) == self.names(),
    {
        &self.variables_in_order
    }

    /// Pairs each value of a solution with the name of its unknown, in column order.
    /// A missing solution stays missing.
    pub fn solution_to_named_vars<T>(&self, solution: Option<Vec<T>>) -> (r: Option<
        Vec<(String, T)>,
    >)
        requires
            solution matches Some(values) ==> values.len() == self.names().len(),
        ensures
            solution is None ==> r is None,
            solution matches Some(values) ==> r matches Some(named) && named.len()
                == values.len() && forall|i: int|
                0 <= i < named.len() ==> (#[trigger] named[i]).0@ == self.names()[i] && named[i].1
                    == values[i],
    {
        match solution {
            None => None,
            Some(values) => {
                let mut named: Vec<(String, T)> = Vec::new();
                let ghost all = values@;
                for value in iter: values
                    invariant
                        iter.seq() == all,
                        all.len() == self.names().len(),
                        named.len() == iter.index(),
                        forall|i: int|
                            0 <= i < named.len() ==> (#[trigger] named[i]).0@ == self.names()[i]
                                && named[i].1 == all[i],
                {
                    let i: usize = named.len();
                    let name = self.variables_in_order[i].clone();
                    named.push((name, value));
                }
                Some(named)
            },
        }
    }
}

/// The dense matrix `A` and the vector `b` of a square system `A x = b`.
pub struct Solver {
    a: Vec<Vec<Coefficient>>,
    b: Vec<Constant>,
}

impl Solver {
    /// The number of rows, which is the number of columns.
    pub closed spec fn dim_spec(&self) -> nat {
        self.b@.len()
    }

    /// `A` is square and as high as `b`.
    pub closed spec fn wf(&self) -> bool {
        &&& self.a@.len() == self.b@.len()
        &&& forall|i: int| 0 <= i < self.a@.len() ==> (#[trigger] self.a@[i])@.len() == self.b@.len()
    }

    /// What stands in row `row` and column `col` of `A`.
    pub closed spec fn coefficient(&self, row: int, col: int) -> Coefficient {
        self.a@[row]@[col]
    }

    /// What stands in row `row` of `b`.
    pub closed spec fn constant_term(&self, row: int) -> Constant {
        self.b@[row]
    }

    /// Nothing was written yet.
    pub open spec fn is_zero(&self) -> bool {
        &&& forall|i: int, j: int|
            0 <= i < self.dim_spec() && 0 <= j < self.dim_spec() ==> #[trigger] self.coefficient(i, j)
                == Coefficient::Zero
        &&& forall|i: int| 0 <= i < self.dim_spec() ==> #[trigger] self.constant_term(i) == Constant::Zero
    }

    /// A system of `dim` equations in `dim` unknowns in which nothing was written yet.
    pub fn new(dim: usize) -> (r: Self)
        ensures
            r.wf(),
            r.dim_spec() == dim,
            r.is_zero(),
    {
        let mut a: Vec<Vec<Coefficient>> = Vec::new();
        let mut b: Vec<Constant> = Vec::new();
        let mut i: usize = 0;
        while i < dim
            invariant
                i <= dim,
                a.len() == i,
                b.len() == i,
                forall|k: int| 0 <= k < i ==> (#[trigger] a[k]).len() == dim,
                forall|k: int, j: int| 0 <= k < i && 0 <= j < dim ==> #[trigger] a[k][j] == Coefficient::Zero,
                forall|k: int| 0 <= k < i ==> #[trigger] b[k] == Constant::Zero,
            decreases dim - i,
        {
            let mut row: Vec<Coefficient> = Vec::new();
            let mut j: usize = 0;
            while j < dim
                invariant
                    j <= dim,
                    row.len() == j,
                    forall|k: int| 0 <= k < j ==> #[trigger] row[k] == Coefficient::Zero,
                decreases dim - j,
            {
                row.push(Coefficient::Zero);
                j += 1;
            }
            a.push(row);
            b.push(Constant::Zero);
            i += 1;
        }
        Solver { a, b }
    }

    /// The number of rows, which is the number of columns.
    pub fn dim(&self) -> (r: usize)
        ensures
            r == self.dim_spec(),
    {
        self.b.len()
    }

    /// The cell of `A` in row `eq` and column `var`, to be written.
    pub fn coef(&mut self, eq: EquationIndex, var: VariableIndex) -> (r: &mut Coefficient)
        requires
            old(self).wf(),
            eq@ < old(self).dim_spec(),
            var@ < old(self).dim_spec(),
        ensures
            *r == old(self).coefficient(eq@ as int, var@ as int),
            final(self).wf(),
            final(self).dim_spec() == old(self).dim_spec(),
            final(self).coefficient(eq@ as int, var@ as int) == *final(r),
            forall|i: int, j: int|
                0 <= i < old(self).dim_spec() && 0 <= j < old(self).dim_spec() && !(i == eq@ && j
                    == var@) ==> #[trigger] final(self).coefficient(i, j) == old(self).coefficient(i, j),
            forall|i: int|
                0 <= i < old(self).dim_spec() ==> #[trigger] final(self).constant_term(i)
                    == old(self).constant_term(i),
    {
        &mut self.a[eq.0][var.0]
    }

    /// The entry of `b` in row `eq`, to be written.
    pub fn constant(&mut self, eq: EquationIndex) -> (r: &mut Constant)
        requires
            old(self).wf(),
            eq@ < old(self).dim_spec(),
        ensures
            *r == old(self).constant_term(eq@ as int),
            final(self).wf(),
            final(self).dim_spec() == old(self).dim_spec(),
            final(self).constant_term(eq@ as int) == *final(r),
            forall|i: int|
                0 <= i < old(self).dim_spec() && i != eq@ ==> #[trigger] final(self).constant_term(i)
                    == old(self).constant_term(i),
            forall|i: int, j: int|
                0 <= i < old(self).dim_spec() && 0 <= j < old(self).dim_spec()
                    ==> #[trigger] final(self).coefficient(i, j) == old(self).coefficient(i, j),
    {
        &mut self.b[eq.0]
    }

    /// What stands in row `eq` and column `var` of `A`.
    pub fn coefficient_at(&self, eq: EquationIndex, var: VariableIndex) -> (r: Coefficient)
        requires
            self.wf(),
            eq@ < self.dim_spec(),
            var@ < self.dim_spec(),
        ensures
            r == self.coefficient(eq@ as int, var@ as int),
    {
        self.a[eq.0][var.0]
    }

    /// What stands in row `eq` of `b`.
    pub fn constant_at(&self, eq: EquationIndex) -> (r: Constant)
        requires
            self.wf(),
            eq@ < self.dim_spec(),
        ensures
            r == self.constant_term(eq@ as int),
    {
        self.b[eq.0]
    }
}

/// Hands out columns to unknowns and rows to equations.
pub struct Builder {
    vars_in_order: Vec<String>,
    equation_count: usize,
}

impl Builder {
    /// The names that were asked for, in the order in which each was first seen.
    pub closed spec fn names(&self) -> Seq<Seq<char>> {
        texts_of(self.vars_in_order@)
    }

    /// The number of rows handed out.
    pub closed spec fn rows(&self) -> nat {
        self.equation_count as nat
    }

    /// No name stands in two columns.
    pub open spec fn wf(&self) -> bool {
        self.names().no_duplicates()
    }

    /// A builder that has handed out nothing.
    pub fn new() -> (r: Self)
        ensures
            r.wf(),
            r.names() == Seq::<Seq<char>>::empty(),
            r.rows() == 0,
    {
        let r = Builder { vars_in_order: Vec::new(), equation_count: 0 };
        assert(r.names() =~= Seq::<Seq<char>>::empty());
        r
    }

    /// Hands out the next row.
    pub fn new_equation(&mut self) -> (r: EquationIndex)
        requires
            old(self).rows() < usize::MAX,
        ensures
            r@ == old(self).rows(),
            final(self).rows() == old(self).rows() + 1,
            final(self).names() == old(self).names(),
    {
        let result = self.equation_count;
        self.equation_count += 1;
        EquationIndex(result)
    }

    /// The column of the unknown `name`; a name not seen before gets the next free column.
    pub fn find_var(&mut self, name: &str) -> (r: VariableIndex)
        requires
            old(self).wf(),
        ensures
            final(self).wf(),
            final(self).names() == intern(old(self).names(), name@),
            final(self).rows() == old(self).rows(),
            r@ < final(self).names().len(),
            final(self).names()[r@ as int] == name@,
            r@ == position(final(self).names(), name@),
    {
        let wanted: String = name.to_owned();
        let mut i: usize = 0;
        while i < self.vars_in_order.len()
            invariant
                *self == *old(self),
                self.wf(),
                i <= self.vars_in_order.len(),
                wanted@ == name@,
                forall|k: int| 0 <= k < i ==> self.names()[k] != name@,
            decreases self.vars_in_order.len() - i,
        {
            if self.vars_in_order[i] == wanted {
                proof {
                    assert(self.names()[i as int] == name@);
                    lemma_position(self.names(), i as int);
                }
                return VariableIndex(i);
            }
            i += 1;
        }
        let new_index: usize = self.vars_in_order.len();
        proof {
            lemma_intern(old(self).names(), name@);
        }
        self.vars_in_order.push(wanted);
        proof {
            assert(self.names() =~= old(self).names().push(name@));
            lemma_position(self.names(), new_index as int);
        }
        VariableIndex(new_index)
    }

    /// The system of the unknowns seen so far.
    pub fn build(self) -> (r: System)
        ensures
            r.names() == self.names(),
    {
        System { variables_in_order: self.vars_in_order }
    }
}

} // verus!
