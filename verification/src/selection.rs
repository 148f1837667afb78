//! Choosing parents: tournament selection, and an elitism wrapper that
//! first emits the fittest individuals unchanged.

use vstd::prelude::*;
use crate::rng::random_below;
use crate::population::Population;
use crate::population::Individual;

verus! {

/// Picks the fittest of `tournament_size` uniform draws.
#[derive(Debug)]
pub struct TournamentSelection {
    pub tournament_size: usize,
}

/// The fitness an individual sorts by: unset sorts as zero.
pub open spec fn fitness_key(p: &Population, idx: int) -> u64 {
    match p.individuals@[idx].fitness {
        Some(f) => f,
        None => 0u64,
    }
}

impl TournamentSelection {
    pub fn new(tournament_size: usize) -> (r: TournamentSelection)
        ensures
            r.tournament_size == tournament_size,
    {
        TournamentSelection { tournament_size }
    }

    fn select_one<'a>(&self, population: &'a Population) -> (r: &'a Individual)
        requires
            population.individuals@.len() > 0,
        ensures
            exists|i: int|
                0 <= i < population.individuals@.len() && *r == population.individuals@[i],
    {
        population.get_individual(random_below(0, population.size()))
    }

    /// One tournament: the best of `tournament_size` draws with
    /// replacement, ties broken by draw order.
    pub fn select_from<'a>(&self, population: &'a Population) -> (r: &'a Individual)
        requires
            population.individuals@.len() > 0,
        ensures
            exists|i: int|
                0 <= i < population.individuals@.len() && *r == population.individuals@[i],
    {
        let mut best = self.select_one(population);
        let mut round: usize = 1;
        while round < self.tournament_size
            invariant
                exists|i: int|
                    0 <= i < population.individuals@.len() && *best == population.individuals@[i],
            decreases self.tournament_size - round,
        {
            let other = self.select_one(population);
            let better = match (other.fitness, best.fitness) {
                (Some(of), Some(bf)) => of > bf,
                (Some(_), None) => true,
                _ => false,
            };
            if better {
                best = other;
            }
            round += 1;
        }
        best
    }
}

/// Emits the `elite_size` fittest individuals unchanged before
/// delegating to the wrapped selection.
#[derive(Debug)]
pub struct ElitismSelection {
    pub elite_size: usize,
    pub wrapped_selection: TournamentSelection,
    pub ranking: Vec<usize>,
    pub num_selected_elites: usize,
}

impl ElitismSelection {
    /// Every ranking entry indexes into a population of `n` individuals.
    pub open spec fn ranked_below(&self, n: int) -> bool {
        forall|j: int| 0 <= j < self.ranking@.len() ==> #[trigger] self.ranking@[j] < n
    }

    /// No population index appears twice in the ranking.
    pub open spec fn ranking_distinct(&self) -> bool {
        forall|a: int, b: int|
            0 <= a < b < self.ranking@.len() ==> #[trigger] self.ranking@[a] != #[trigger] self.ranking@[b]
    }

    /// The ranking is a permutation of the indices of `n` individuals:
    /// `n` in-range entries, none repeated.
    pub open spec fn ranking_permutation(&self, n: int) -> bool {
        self.ranking@.len() == n && self.ranked_below(n) && self.ranking_distinct()
    }

    pub fn new(elite_size: usize, wrapped_selection: TournamentSelection) -> (r: ElitismSelection)
        ensures
            r.elite_size == elite_size,
            r.wrapped_selection == wrapped_selection,
            r.ranking@.len() == 0,
            r.num_selected_elites == 0,
    {
        ElitismSelection { elite_size, wrapped_selection, ranking: Vec::new(), num_selected_elites: 0 }
    }

    /// Sort the individuals' indices by fitness, fittest first, and
    /// reset the elite counter.
    #[verifier::loop_isolation(false)]
    pub fn start_selection(&mut self, population: &Population)
        requires
            old(self).ranking@.len() == population.individuals@.len() ==> old(self).ranked_below(
                population.individuals@.len() as int,
            ) && old(self).ranking_distinct(),
        ensures
            final(self).elite_size == old(self).elite_size,
            final(self).wrapped_selection == old(self).wrapped_selection,
            final(self).num_selected_elites == 0,
            final(self).ranking_permutation(population.individuals@.len() as int),
            forall|a: int, b: int|
                0 <= a < b < final(self).ranking@.len() ==> fitness_key(
                    population,
                    final(self).ranking@[a] as int,
                ) >= fitness_key(population, final(self).ranking@[b] as int),
    {
        let n = population.size();
        if self.ranking.len() != n {
            self.ranking = Vec::new();
            let mut k: usize = 0;
            while k < n
                invariant
                    k <= n,
                    self.ranking@.len() == k,
                    forall|j: int| 0 <= j < k ==> #[trigger] self.ranking@[j] == j,
                    self.elite_size == old(self).elite_size,
                    self.wrapped_selection == old(self).wrapped_selection,
                decreases n - k,
            {
                self.ranking.push(k);
                k += 1;
            }
        }
        let mut i: usize = 1;
        while i < n
            invariant
                1 <= i <= n || n == 0,
                self.ranking@.len() == n,
                self.elite_size == old(self).elite_size,
                self.wrapped_selection == old(self).wrapped_selection,
                forall|j: int| 0 <= j < n ==> #[trigger] self.ranking@[j] < n,
                self.ranking_distinct(),
                forall|a: int, b: int|
                    0 <= a < b < i ==> fitness_key(population, self.ranking@[a] as int)
                        >= fitness_key(population, self.ranking@[b] as int),
            decreases n - i,
        {
            let mut j = i;
            while j >= 1 && key_of(population, self.ranking[j - 1]) < key_of(
                population,
                self.ranking[j],
            )
                invariant
                    0 <= j <= i < n,
                    self.ranking@.len() == n,
                    self.elite_size == old(self).elite_size,
                    self.wrapped_selection == old(self).wrapped_selection,
                    forall|jj: int| 0 <= jj < n ==> #[trigger] self.ranking@[jj] < n,
                    self.ranking_distinct(),
                    forall|a: int, b: int|
                        0 <= a < b <= i && b != j ==> fitness_key(
                            population,
                            self.ranking@[a] as int,
                        ) >= fitness_key(population, self.ranking@[b] as int),
                decreases j,
            {
                let x = self.ranking[j - 1];
                let y = self.ranking[j];
                self.ranking[j - 1] = y;
                self.ranking[j] = x;
                j -= 1;
            }
            i += 1;
        }
        self.num_selected_elites = 0;
    }

    /// Whether the next bred slot must carry an individual forward
    /// unchanged.
    pub fn preserve_next(&self) -> (r: bool)
        ensures
            r == (self.num_selected_elites < self.elite_size),
    {
        self.num_selected_elites < self.elite_size
    }

    /// The next elite while any are owed, then whatever the wrapped
    /// selection picks.
    pub fn select_from<'a>(&mut self, population: &'a Population) -> (r: &'a Individual)
        requires
            population.individuals@.len() > 0,
            old(self).num_selected_elites < old(self).elite_size ==> old(self).elite_size <= old(self).ranking@.len()
                && old(self).ranked_below(population.individuals@.len() as int),
        ensures
            exists|i: int|
                0 <= i < population.individuals@.len() && *r == population.individuals@[i],
            final(self).elite_size == old(self).elite_size,
            final(self).wrapped_selection == old(self).wrapped_selection,
            final(self).ranking == old(self).ranking,
            old(self).num_selected_elites < old(self).elite_size ==> {
                &&& *r == population.individuals@[old(self).ranking@[old(
                    self,
                ).num_selected_elites as int] as int]
                &&& final(self).num_selected_elites == old(self).num_selected_elites + 1
            },
            old(self).num_selected_elites >= old(self).elite_size ==> final(self).num_selected_elites
                == old(self).num_selected_elites,
    {
        if self.num_selected_elites < self.elite_size {
            let idx = self.ranking[self.num_selected_elites];
            let individual = population.get_individual(idx);
            self.num_selected_elites = self.num_selected_elites + 1;
            individual
        } else {
            self.wrapped_selection.select_from(population)
        }
    }
}

/// The selection strategies the driver can hold, as tagged variants.
#[derive(Debug)]
pub enum SelectionStrategy {
    Tournament(TournamentSelection),
    Elitism(ElitismSelection),
}

impl SelectionStrategy {
    /// How many slots of a breeding round are preserved unchanged.
    pub open spec fn spec_elite_size(&self) -> int {
        match self {
            SelectionStrategy::Tournament(_) => 0,
            SelectionStrategy::Elitism(e) => e.elite_size as int,
        }
    }

    /// Whether a selection round over `n` individuals can begin: any
    /// kept ranking of the same size indexes into the population.
    pub open spec fn ready_for(&self, n: int) -> bool {
        match self {
            SelectionStrategy::Tournament(_) => true,
            SelectionStrategy::Elitism(e) => e.ranking@.len() == n ==> e.ranked_below(n)
                && e.ranking_distinct(),
        }
    }

    /// Whether selecting from `n` individuals is permitted in the
    /// current state.
    pub open spec fn can_select(&self, n: int) -> bool {
        match self {
            SelectionStrategy::Tournament(_) => true,
            SelectionStrategy::Elitism(e) => e.num_selected_elites < e.elite_size ==> e.elite_size
                <= e.ranking@.len() && e.ranked_below(n),
        }
    }

    /// Prepare a selection round over the given population.
    pub fn start_selection(&mut self, population: &Population)
        requires
            old(self).ready_for(population.individuals@.len() as int),
        ensures
            final(self).spec_elite_size() == old(self).spec_elite_size(),
            final(self).spec_elite_size() <= population.individuals@.len() ==> final(self).can_select(
                population.individuals@.len() as int,
            ),
            (*final(self)) matches SelectionStrategy::Elitism(e) ==> e.num_selected_elites == 0
                && e.ranking_permutation(population.individuals@.len() as int) && (forall|
                a: int,
                b: int,
            |
                0 <= a < b < e.ranking@.len() ==> fitness_key(population, e.ranking@[a] as int)
                    >= fitness_key(population, e.ranking@[b] as int)),
    {
        match self {
            SelectionStrategy::Tournament(_) => {},
            SelectionStrategy::Elitism(e) => e.start_selection(population),
        }
    }

    /// Whether the next bred slot is carried forward unchanged.
    pub fn preserve_next(&self) -> (r: bool)
        ensures
            r == match self {
                SelectionStrategy::Tournament(_) => false,
                SelectionStrategy::Elitism(e) => e.num_selected_elites < e.elite_size,
            },
    {
        match self {
            SelectionStrategy::Tournament(_) => false,
            SelectionStrategy::Elitism(e) => e.preserve_next(),
        }
    }

    /// Pick one individual from the population.
    pub fn select_from<'a>(&mut self, population: &'a Population) -> (r: &'a Individual)
        requires
            population.individuals@.len() > 0,
            old(self).can_select(population.individuals@.len() as int),
        ensures
            exists|i: int|
                0 <= i < population.individuals@.len() && *r == population.individuals@[i],
            final(self).spec_elite_size() == old(self).spec_elite_size(),
            final(self).can_select(population.individuals@.len() as int),
            (*old(self)) matches SelectionStrategy::Tournament(t) ==> *final(self)
                == SelectionStrategy::Tournament(t),
            (*old(self)) matches SelectionStrategy::Elitism(e) ==> ((*final(self)) matches
                SelectionStrategy::Elitism(e2) && e2.ranking == e.ranking && e2.elite_size
                == e.elite_size && e2.wrapped_selection == e.wrapped_selection && (
            e.num_selected_elites < e.elite_size ==> *r == population.individuals@[e.ranking@[e.num_selected_elites as int] as int]
                && e2.num_selected_elites == e.num_selected_elites + 1)),
    {
        match self {
            SelectionStrategy::Tournament(t) => t.select_from(population),
            SelectionStrategy::Elitism(e) => e.select_from(population),
        }
    }
}

/// The sort key of the individual a ranking entry points to.
fn key_of(population: &Population, idx: usize) -> (r: u64)
    requires
        idx < population.individuals@.len(),
    ensures
        r == fitness_key(population, idx as int),
{
    match population.get_individual(idx).fitness {
        Some(f) => f,
        None => 0,
    }
}

} // verus!
