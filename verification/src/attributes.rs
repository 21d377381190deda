//! Combatant attributes: size categories and hit points.

use vstd::prelude::*;

verus! {

/// Creature size categories.
#[derive(Debug, Copy, Clone)]
pub enum Size {
    Tiny,
    Small,
    Medium,
    Large,
    Huge,
    Gargantuan,
}

/// Hit points with a temporary buffer: damage drains the buffer first.
#[derive(Debug)]
pub struct Hp {
    pub current: u16,
    pub max: u16,
    pub temporary: u16,
}

/// The smaller of two values.
pub open spec fn min_u16(a: u16, b: u16) -> u16 {
    if a <= b {
        a
    } else {
        b
    }
}

impl Hp {
    /// Full hit points with no temporary buffer.
    pub fn new(max: u16) -> (r: Hp)
        ensures
            r.current == max,
            r.max == max,
            r.temporary == 0,
    {
        Hp { current: max, max, temporary: 0 }
    }

    /// Applies damage: the temporary buffer absorbs what it can, the rest
    /// drains the current hit points to no less than zero.  Returns whether
    /// the combatant dropped to zero.
    pub fn damage(&mut self, amount: u16) -> (down: bool)
        ensures
            ({
                let absorbed = min_u16(amount, old(self).temporary);
                let through = amount - absorbed;
                &&& final(self).temporary == old(self).temporary - absorbed
                &&& final(self).current == (if old(self).current >= through {
                    old(self).current - through
                } else {
                    0
                })
                &&& final(self).max == old(self).max
                &&& down == (final(self).current == 0)
            }),
    {
        let new_amount = if amount >= self.temporary {
            amount - self.temporary
        } else {
            0
        };
        self.temporary = self.temporary - (amount - new_amount);
        if self.current >= new_amount {
            self.current = self.current - new_amount;
            self.current == 0
        } else {
            self.current = 0;
            true
        }
    }

    /// Heals up to the maximum.
    pub fn heal(&mut self, amount: u16)
        requires
            old(self).current + amount <= u16::MAX,
        ensures
            final(self).current == min_u16(old(self).max, (old(self).current + amount) as u16),
            final(self).max == old(self).max,
            final(self).temporary == old(self).temporary,
    {
        let healed = self.current + amount;
        self.current = if self.max <= healed {
            self.max
        } else {
            healed
        };
    }

    /// Sets the temporary buffer.
    pub fn set_temporary(&mut self, amount: u16)
        ensures
            final(self).temporary == amount,
            final(self).current == old(self).current,
            final(self).max == old(self).max,
    {
        self.temporary = amount;
    }
}

} // verus!
