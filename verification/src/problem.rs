//! The first problem of a list of items.

use vstd::prelude::*;

verus! {

/// The first problem among `n` items, in order.
pub open spec fn first_problem(problem: spec_fn(int) -> Option<Seq<char>>, n: nat) -> Option<
    Seq<char>,
>
    decreases n,
{
    if n == 0 {
        None
    } else {
        match first_problem(problem, (n - 1) as nat) {
            Some(m) => Some(m),
            None => problem(n - 1),
        }
    }
}

/// A check: the text of the first problem, if there is one.
pub open spec fn reports(r: Option<String>, problem: Option<Seq<char>>) -> bool {
    match r {
        Some(m) => problem == Some(m@),
        None => problem is None,
    }
}

/// A problem among the first items is the first problem of all.
pub proof fn lemma_first_problem_stays(
    problem: spec_fn(int) -> Option<Seq<char>>,
    n: nat,
    k: nat,
)
    requires
        k <= n,
        first_problem(problem, k) is Some,
    ensures
        first_problem(problem, n) == first_problem(problem, k),
    decreases n,
{
    if k < n {
        lemma_first_problem_stays(problem, (n - 1) as nat, k);
    }
}

/// Items without a first problem have no problem at all.
pub proof fn lemma_no_first_problem(
    problem: spec_fn(int) -> Option<Seq<char>>,
    n: nat,
    i: int,
)
    requires
        first_problem(problem, n) is None,
        0 <= i < n,
    ensures
        problem(i) is None,
    decreases n,
{
    if i < n - 1 {
        lemma_no_first_problem(problem, (n - 1) as nat, i);
    }
}

/// Items without any problem have no first problem.
pub proof fn lemma_all_fine(problem: spec_fn(int) -> Option<Seq<char>>, n: nat)
    requires
        forall|i: int| 0 <= i < n ==> (#[trigger] problem(i)) is None,
    ensures
        first_problem(problem, n) is None,
    decreases n,
{
    if n > 0 {
        lemma_all_fine(problem, (n - 1) as nat);
    }
}

/// The first problem is that of an item all of whose predecessors are fine.
pub proof fn law_first_problem_is_first(
    problem: spec_fn(int) -> Option<Seq<char>>,
    n: nat,
    i: int,
)
    requires
        0 <= i < n,
        problem(i) is Some,
        forall|j: int| 0 <= j < i ==> (#[trigger] problem(j)) is None,
    ensures
        first_problem(problem, n) == problem(i),
    decreases n,
{
    if i < n - 1 {
        law_first_problem_is_first(problem, (n - 1) as nat, i);
    } else {
        lemma_all_fine(problem, i as nat);
    }
}

}
