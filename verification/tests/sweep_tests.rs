use boids::{Sweep, SweepStep};

#[test]
fn empty_population_finishes_at_once() {
    let s = Sweep::new(0);
    assert_eq!(s.next(), SweepStep::Finished);
}

#[test]
fn all_living_visits_each_slot() {
    let mut s = Sweep::new(3);
    let mut seen = Vec::new();
    while let SweepStep::Visit(k) = s.next() {
        seen.push(k);
        s.lived(false);
    }
    assert_eq!(seen, vec![0, 1, 2]);
    assert_eq!(s.population(), 3);
}

#[test]
fn death_revisits_same_slot() {
    let mut s = Sweep::new(3);
    assert_eq!(s.next(), SweepStep::Visit(0));
    s.died();
    assert_eq!(s.population(), 2);
    assert_eq!(s.next(), SweepStep::Visit(0));
    s.lived(false);
    assert_eq!(s.next(), SweepStep::Visit(1));
    s.lived(false);
    assert_eq!(s.next(), SweepStep::Finished);
}

#[test]
fn all_dead_empties_population() {
    let mut s = Sweep::new(4);
    let mut steps = 0;
    while let SweepStep::Visit(k) = s.next() {
        assert_eq!(k, 0);
        s.died();
        steps += 1;
    }
    assert_eq!(steps, 4);
    assert_eq!(s.population(), 0);
}

#[test]
fn births_extend_population_not_the_walk() {
    let mut s = Sweep::new(2);
    let mut steps = 0;
    while let SweepStep::Visit(_) = s.next() {
        s.lived(true);
        steps += 1;
    }
    assert_eq!(steps, 2);
    assert_eq!(s.population(), 4);
}

#[test]
fn sweep_follows_a_vec() {
    // mirrors the frame loop: odd boids die, the boid at slot 0 breeds once
    let mut boids: Vec<u32> = vec![1, 2, 3, 4, 5];
    let mut s = Sweep::new(boids.len());
    let mut bred = false;
    while let SweepStep::Visit(k) = s.next() {
        if boids[k] % 2 == 1 {
            boids.swap_remove(k);
            s.died();
        } else {
            let born = !bred;
            if born {
                boids.push(boids[k] + 100);
                bred = true;
            }
            s.lived(born);
        }
        assert_eq!(s.population(), boids.len());
    }
    assert_eq!(boids, vec![4, 2, 104]);
}
