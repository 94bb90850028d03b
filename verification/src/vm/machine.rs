use std::collections::HashMap;

use vstd::prelude::*;

verus! {

broadcast use vstd::std_specs::hash::group_hash_axioms;

/// Where the virtual machine stands in a byte-code file: the number of the
/// file line last read, the instruction it waits for after a jump, and
/// where in the file each instruction seen so far was read.
pub struct VmState {
    pub current_line: u128,
    pub current_go_to_line: Option<u128>,
    pub lines: HashMap<u128, u64>,
}

impl VmState {
    /// The state after the first line of the file, the header, was read:
    /// no jump waits and no instruction was seen.
    pub fn new() -> (r: Self)
        ensures
            r.current_line == 1,
            r.current_go_to_line is None,
            r.lines@ == Map::<u128, u64>::empty(),
    {
        VmState { current_line: 1, current_go_to_line: None, lines: HashMap::new() }
    }

    /// One more file line was read.
    pub fn next_line(&mut self)
        requires
            old(self).current_line < u128::MAX,
        ensures
            final(self).current_line == old(self).current_line + 1,
            final(self).current_go_to_line == old(self).current_go_to_line,
            final(self).lines@ == old(self).lines@,
    {
        self.current_line = self.current_line + 1;
    }

    /// The instruction numbered `number` was read at `position`: its place
    /// is recorded, and it runs unless a jump waits for another
    /// instruction; the jump stops waiting once its instruction comes.
    pub fn take_line(&mut self, number: u128, position: u64) -> (run: bool)
        ensures
            final(self).lines@ == old(self).lines@.insert(number, position),
            final(self).current_line == old(self).current_line,
            match old(self).current_go_to_line {
                None => run && final(self).current_go_to_line is None,
                Some(target) => if target == number {
                    run && final(self).current_go_to_line is None
                } else {
                    !run && final(self).current_go_to_line == old(self).current_go_to_line
                },
            },
    {
        self.lines.insert(number, position);
        match self.current_go_to_line {
            Some(target) => {
                if target != number {
                    return false;
                }
                self.current_go_to_line = None;
                true
            },
            None => true,
        }
    }

    /// The instruction numbered `number` ran with `outcome`: where it says
    /// not to go on with the next one, the machine waits for the
    /// instruction `outcome.1`, and a jump back returns the place where that
    /// instruction was read, to read on from there.
    pub fn land(&mut self, number: u128, outcome: (bool, u128)) -> (seek: Option<u64>)
        requires
            !outcome.0 && outcome.1 < number ==> old(self).lines@.contains_key(outcome.1),
        ensures
            final(self).lines@ == old(self).lines@,
            final(self).current_line == old(self).current_line,
            outcome.0 ==> seek is None && final(self).current_go_to_line == old(self).current_go_to_line,
            !outcome.0 ==> final(self).current_go_to_line == Some(outcome.1) && seek == (if outcome.1 < number {
                Some(old(self).lines@[outcome.1])
            } else {
                None
            }),
    {
        if outcome.0 {
            return None;
        }
        let mut seek = None;
        if outcome.1 < number {
            match self.lines.get(&outcome.1) {
                Some(p) => {
                    seek = Some(*p);
                },
                None => {},
            }
        }
        self.current_go_to_line = Some(outcome.1);
        seek
    }
}

} // verus!
