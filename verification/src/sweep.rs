use vstd::prelude::*;

verus! {

/// The abstract state of a sweep over the population during one frame.
pub struct SweepModel {
    /// How many steps have been taken.
    pub steps: nat,
    /// How many boids died, and were swap-removed, so far.
    pub deaths: nat,
    /// How many boids were born, and pushed at the end, so far.
    pub births: nat,
    /// The population size when the frame began; the sweep takes this many steps.
    pub total: nat,
    /// The current population size.
    pub population: nat,
}

/// One frame's walk over the boids. At each step the boid at slot
/// `steps - deaths` is looked at: a dead boid is swap-removed, so the boid
/// moved into its slot is looked at next; a living boid may give birth to a
/// new boid pushed at the end. The walk takes as many steps as there were
/// boids when the frame began.
pub struct Sweep {
    steps: usize,
    deaths: usize,
    births: usize,
    total: usize,
    population: usize,
}

/// What the walk asks for next.
#[derive(Clone, Copy, Debug, PartialEq, Eq, Structural)]
pub enum SweepStep {
    /// Look at the boid in this slot.
    Visit(usize),
    /// The frame's walk is over.
    Finished,
}

impl View for Sweep {
    type V = SweepModel;

    closed spec fn view(&self) -> SweepModel {
        SweepModel {
            steps: self.steps as nat,
            deaths: self.deaths as nat,
            births: self.births as nat,
            total: self.total as nat,
            population: self.population as nat,
        }
    }
}

impl SweepModel {
    /// The population only changes by deaths and births, and no more boids
    /// died than were looked at.
    pub open spec fn wf(self) -> bool {
        &&& self.deaths <= self.steps <= self.total
        &&& self.population + self.deaths == self.total + self.births
    }

    /// The slot looked at next, or nothing when the walk is over.
    pub open spec fn next_step(self) -> SweepStep {
        if self.steps < self.total {
            SweepStep::Visit((self.steps - self.deaths) as usize)
        } else {
            SweepStep::Finished
        }
    }

    /// A slot the walk visits always holds a boid: deaths shrink the
    /// population exactly as they hold the visited slot back.
    pub proof fn lemma_visit_in_bounds(self)
        requires
            self.wf(),
        ensures
            self.next_step() matches SweepStep::Visit(k) ==> k < self.population,
            self.steps < self.total <==> self.next_step() is Visit,
    {
    }

    /// Once as many steps were taken as there were boids at the start, the
    /// walk is over, and the population is the starting one less the deaths
    /// plus the births.
    pub proof fn lemma_walk_ends(self)
        requires
            self.wf(),
            self.steps == self.total,
        ensures
            self.next_step() == SweepStep::Finished,
            self.population == self.total - self.deaths + self.births,
    {
    }

    /// A fresh walk over a non-empty population starts at the first slot.
    pub proof fn lemma_walk_starts_at_first_slot(total: nat)
        requires
            total > 0,
        ensures
            (SweepModel { steps: 0, deaths: 0, births: 0, total, population: total }).next_step()
                == SweepStep::Visit(0),
    {
    }

    /// After a boid lives, with or without a child pushed at the end, the walk
    /// moves on to the very next slot: a birth never shifts the slots.
    pub proof fn lemma_life_moves_to_next_slot(self, born: bool)
        requires
            self.wf(),
            self.steps + 1 < self.total,
            self.total <= usize::MAX,
        ensures
            ({
                let after = SweepModel {
                    steps: self.steps + 1,
                    births: if born { self.births + 1 } else { self.births },
                    population: if born { self.population + 1 } else { self.population },
                    ..self
                };
                &&& self.next_step() matches SweepStep::Visit(k)
                &&& after.next_step() == SweepStep::Visit((k + 1) as usize)
            }),
    {
    }

    /// After a boid dies and is swap-removed, the walk looks at the same slot
    /// again, which now holds the boid moved there.
    pub proof fn lemma_death_revisits_slot(self)
        requires
            self.wf(),
            self.steps + 1 < self.total,
        ensures
            ({
                let after = SweepModel {
                    steps: self.steps + 1,
                    deaths: self.deaths + 1,
                    population: (self.population - 1) as nat,
                    ..self
                };
                &&& self.next_step() is Visit
                &&& after.next_step() == self.next_step()
            }),
    {
    }

    /// While no boid has died, the walk visits the slot numbered by the steps
    /// taken, however many boids were born.
    pub proof fn lemma_no_deaths_visits_in_order(self)
        requires
            self.wf(),
            self.deaths == 0,
            self.steps < self.total,
            self.total <= usize::MAX,
        ensures
            self.next_step() == SweepStep::Visit(self.steps as usize),
    {
    }
}

impl Sweep {
    #[verifier::type_invariant]
    spec fn balanced(self) -> bool {
        self@.wf()
    }

    /// Starts a frame over a population of `population` boids.
    pub fn new(population: usize) -> (s: Sweep)
        ensures
            s@.wf(),
            s@ == (SweepModel {
                steps: 0,
                deaths: 0,
                births: 0,
                total: population as nat,
                population: population as nat,
            }),
    {
        Sweep { steps: 0, deaths: 0, births: 0, total: population, population }
    }

    /// The slot to look at next; a visited slot always holds a boid.
    pub fn next(&self) -> (r: SweepStep)
        ensures
            self@.wf(),
            r == self@.next_step(),
            self@.steps < self@.total ==> r == SweepStep::Visit(
                (self@.steps - self@.deaths) as usize,
            ),
            self@.steps >= self@.total ==> r == SweepStep::Finished,
            r matches SweepStep::Visit(k) ==> k < self@.population,
    {
        proof {
            use_type_invariant(self);
            self@.lemma_visit_in_bounds();
        }
        if self.steps < self.total {
            SweepStep::Visit(self.steps - self.deaths)
        } else {
            SweepStep::Finished
        }
    }

    /// The boid just visited was dead and has been swap-removed.
    pub fn died(&mut self)
        requires
            old(self)@.steps < old(self)@.total,
        ensures
            final(self)@.wf(),
            final(self)@ == (SweepModel {
                steps: old(self)@.steps + 1,
                deaths: old(self)@.deaths + 1,
                population: (old(self)@.population - 1) as nat,
                ..old(self)@
            }),
    {
        proof {
            use_type_invariant(&*self);
        }
        *self = Sweep {
            steps: self.steps + 1,
            deaths: self.deaths + 1,
            births: self.births,
            total: self.total,
            population: self.population - 1,
        };
    }

    /// The boid just visited lived; when `born`, it had a child pushed at the end.
    pub fn lived(&mut self, born: bool)
        requires
            old(self)@.steps < old(self)@.total,
            born ==> old(self)@.population < usize::MAX,
        ensures
            final(self)@.wf(),
            final(self)@ == (SweepModel {
                steps: old(self)@.steps + 1,
                births: if born { old(self)@.births + 1 } else { old(self)@.births },
                population: if born { old(self)@.population + 1 } else { old(self)@.population },
                ..old(self)@
            }),
    {
        proof {
            use_type_invariant(&*self);
        }
        let (births, population) = if born {
            (self.births + 1, self.population + 1)
        } else {
            (self.births, self.population)
        };
        *self = Sweep {
            steps: self.steps + 1,
            deaths: self.deaths,
            births,
            total: self.total,
            population,
        };
    }

    /// The current population size.
    pub fn population(&self) -> (n: usize)
        ensures
            self@.wf(),
            n == self@.population,
    {
        proof {
            use_type_invariant(self);
        }
        self.population
    }
}

} // verus!
