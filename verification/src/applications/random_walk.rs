use vstd::prelude::*;

use crate::rng::{coin_flip, RngSource};

verus! {

/// A symmetric one-dimensional random walk: a fixed number of steps, each a
/// fair coin flip moving the position one unit up or down.
#[derive(Debug)]
pub struct RandomWalk {
    pub steps: usize,
    pub position: i32,
}

impl RandomWalk {
    /// A fresh walk of `steps` steps, starting at the origin.
    pub fn new(steps: usize) -> (r: Self)
        ensures
            r.steps == steps,
            r.position == 0,
    {
        Self { steps, position: 0 }
    }

    /// Runs the walk: flips a fair coin `steps` times, moving the position by
    /// one unit each flip. Whatever the flips, the position moves by at most
    /// `steps` units in either direction.
    pub fn simulate(&mut self, rng: &mut RngSource)
        requires
            old(self).position as int - old(self).steps as int >= i32::MIN as int,
            old(self).position as int + old(self).steps as int <= i32::MAX as int,
        ensures
            final(self).steps == old(self).steps,
            old(self).position as int - old(self).steps as int <= final(self).position as int
                <= old(self).position as int + old(self).steps as int,
    {
        let n = self.steps;
        let ghost start = self.position as int;
        let mut k: usize = 0;
        while k < n
            invariant
                0 <= k <= n,
                self.steps == n,
                start - k <= self.position as int <= start + k,
                start - n >= i32::MIN as int,
                start + n <= i32::MAX as int,
            decreases n - k,
        {
            if coin_flip(rng) {
                self.position = self.position + 1;
            } else {
                self.position = self.position - 1;
            }
            k = k + 1;
        }
    }

    /// The current position of the walk.
    pub fn get_position(&self) -> (r: i32)
        ensures
            r == self.position,
    {
        self.position
    }
}

} // verus!
