//! The course of one run of a simulation, step by step.
//!
//! A run is a number of steps. Whoever solves the systems asks the run what to do next,
//! solves the system of the step that it names, and hands the solution back, or the news
//! that there is none. The run keeps the solutions as one series for each unknown, and
//! ends at the first step that has no solution.

use crate::la::System;
use vstd::prelude::*;

verus! {

/// What to do next in a run.
#[derive(Clone, Copy, PartialEq, Eq, Debug, Structural)]
pub enum Action {
    /// Solve the system of step `step`, and hand the solution to the run.
    Solve { step: usize },
    /// Every step is solved: take the series.
    Finish,
    /// The system of step `step` had no solution, and the run is over.
    Fail { step: usize },
}

/// A run of `steps` steps for `dim` unknowns, with the solutions of the steps so far.
pub struct Run<T> {
    dim: usize,
    steps: usize,
    done: usize,
    failed: bool,
    series: Vec<Vec<T>>,
}

/// The contents of a list of series.
pub open spec fn series_of<T>(series: Seq<Vec<T>>) -> Seq<Seq<T>> {
    series.map_values(|s: Vec<T>| s@)
}

impl<T> Run<T> {
    /// The number of unknowns.
    pub closed spec fn dim(&self) -> nat {
        self.dim as nat
    }

    /// The number of steps of the run.
    pub closed spec fn steps(&self) -> nat {
        self.steps as nat
    }

    /// The number of steps solved.
    pub closed spec fn done(&self) -> nat {
        self.done as nat
    }

    /// Whether a step had no solution.
    pub closed spec fn failed(&self) -> bool {
        self.failed
    }

    /// For each unknown, its values in the steps solved.
    pub closed spec fn series(&self) -> Seq<Seq<T>> {
        series_of(self.series@)
    }

    /// There is one series for each unknown, with one value for each step solved, and no
    /// more steps are solved than the run has.
    pub open spec fn wf(&self) -> bool {
        &&& self.done() <= self.steps()
        &&& self.series().len() == self.dim()
        &&& forall|v: int| 0 <= v < self.dim() ==> (#[trigger] self.series()[v]).len() == self.done()
    }

    /// What is to be done in this state: nothing more after a step without solution;
    /// else the next step, if one is left.
    pub open spec fn action(&self) -> Action {
        if self.failed() {
            Action::Fail { step: self.done() as usize }
        } else if self.done() < self.steps() {
            Action::Solve { step: self.done() as usize }
        } else {
            Action::Finish
        }
    }

    /// A run of `steps` steps for `dim` unknowns, of which none is solved.
    pub fn new(dim: usize, steps: usize) -> (r: Self)
        ensures
            r.wf(),
            r.dim() == dim,
            r.steps() == steps,
            r.done() == 0,
            !r.failed(),
    {
        let mut series: Vec<Vec<T>> = Vec::new();
        let mut v: usize = 0;
        while v < dim
            invariant
                v <= dim,
                series.len() == v,
                forall|u: int| 0 <= u < v ==> (#[trigger] series[u]).len() == 0,
            decreases dim - v,
        {
            series.push(Vec::new());
            v += 1;
        }
        Run { dim, steps, done: 0, failed: false, series }
    }

    /// What to do next.
    pub fn next(&self) -> (r: Action)
        requires
            self.wf(),
        ensures
            r == self.action(),
    {
        if self.failed {
            Action::Fail { step: self.done }
        } else if self.done < self.steps {
            Action::Solve { step: self.done }
        } else {
            Action::Finish
        }
    }

    /// Takes what the solver gave for the step that was to be solved: a solution, whose
    /// values go to the ends of the series, or none, which ends the run. The answer is
    /// what to do next.
    pub fn handle(&mut self, solution: Option<Vec<T>>) -> (r: Action)
        requires
            old(self).wf(),
            old(self).action() is Solve,
            solution matches Some(x) ==> x.len() == old(self).dim(),
        ensures
            final(self).wf(),
            final(self).dim() == old(self).dim(),
            final(self).steps() == old(self).steps(),
            r == final(self).action(),
            match solution {
                Some(x) => !final(self).failed() && final(self).done() == old(self).done() + 1
                    && forall|v: int|
                    0 <= v < old(self).dim() ==> #[trigger] final(self).series()[v]
                        == old(self).series()[v].push(x[v]),
                None => final(self).failed() && final(self).done() == old(self).done()
                    && final(self).series() == old(self).series(),
            },
    {
        match solution {
            None => {
                self.failed = true;
            },
            Some(x) => {
                let ghost values = x@;
                let ghost before = self.series();
                let dim: usize = self.dim;
                let mut v: usize = 0;
                assert(forall|u: int| 0 <= u < dim ==> (#[trigger] self.series[u])@ == before[u]);
                for value in iter: x
                    invariant
                        v == iter.index(),
                        iter.seq() == values,
                        values.len() == dim,
                        dim == self.dim,
                        self.done == old(self).done,
                        self.steps == old(self).steps,
                        self.failed == old(self).failed,
                        self.series.len() == dim,
                        before == old(self).series(),
                        before.len() == dim,
                        forall|v: int|
                            0 <= v < iter.index() ==> (#[trigger] self.series[v])@ == before[v].push(
                                values[v],
                            ),
                        forall|v: int|
                            iter.index() <= v < dim ==> (#[trigger] self.series[v])@ == before[v],
                {
                    self.series[v].push(value);
                    v += 1;
                }
                self.done += 1;
            },
        }
        self.next()
    }

    /// The series of a run in which every step is solved, each with the name of its
    /// unknown; none of a run that failed or is not over.
    pub fn finish(self, system: &System) -> (r: Option<Vec<(String, Vec<T>)>>)
        requires
            self.wf(),
            system.names().len() == self.dim(),
        ensures
            r is Some <==> self.action() is Finish,
            r matches Some(named) ==> named.len() == self.dim() && forall|v: int|
                0 <= v < named.len() ==> (#[trigger] named[v]).0@ == system.names()[v] && named[v].1@
                    == self.series()[v],
    {
        if self.failed || self.done < self.steps {
            return None;
        }
        let ghost series = self.series();
        let named = system.solution_to_named_vars(Some(self.series));
        named
    }
}

} // verus!
