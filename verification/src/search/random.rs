//! A move chooser that picks a legal move with a xorshift generator.
use vstd::prelude::*;

use crate::{Board, Eval, Move, Search};

verus! {

/// One step of the 64-bit xorshift generator (shifts 13, 7, 17).
pub open spec fn xorshift(x: u64) -> u64 {
    let a = x ^ (x << 13u64);
    let b = a ^ (a >> 7u64);
    b ^ (b << 17u64)
}

/// Picks a uniformly drawn legal move, driven by a xorshift generator.
pub struct RandomSearch {
    state: u64,
}

impl RandomSearch {
    /// The generator's state.
    pub closed spec fn state(&self) -> u64 {
        self.state
    }

    /// A chooser seeded with `seed`; a zero seed, which xorshift would never
    /// leave, is replaced by 1.
    pub fn new(seed: u64) -> (r: Self)
        ensures
            r.state() == if seed == 0 {
                1
            } else {
                seed
            },
    {
        RandomSearch {
            state: if seed == 0 {
                1
            } else {
                seed
            },
        }
    }

    /// Advances the generator and returns its new state.
    fn next_u64(&mut self) -> (x: u64)
        ensures
            x == xorshift(old(self).state()),
            final(self).state() == x,
    {
        let mut x = self.state;
        x ^= x << 13u64;
        x ^= x >> 7u64;
        x ^= x << 17u64;
        self.state = x;
        x
    }
}

impl Default for RandomSearch {
    fn default() -> (r: Self)
        ensures
            r.state() == 1,
    {
        RandomSearch { state: 1 }
    }
}

impl Search for RandomSearch {
    /// No move when there is no legal move; else the legal move at the index
    /// the next generator value gives, modulo the number of legal moves.
    open spec fn pick(&self, legal: Seq<Move>) -> Option<Move> {
        if legal.len() == 0 {
            None
        } else {
            Some(legal[((xorshift(self.state()) as usize) as int) % (legal.len() as int)])
        }
    }

    /// The generator only advances when there is a legal move to pick from.
    closed spec fn after_pick(&self, legal: Seq<Move>) -> Self {
        if legal.len() == 0 {
            *self
        } else {
            RandomSearch { state: xorshift(self.state) }
        }
    }

    fn search<B: Board, E: Eval>(&mut self, board: &B, _eval: &E) -> (r: Option<Move>)
        ensures
            board.legal_move_seq().len() == 0 ==> r is None && final(self).state() == old(
                self,
            ).state(),
            board.legal_move_seq().len() > 0 ==> {
                let x = xorshift(old(self).state());
                &&& final(self).state() == x
                &&& r == Some(
                    board.legal_move_seq()[((x as usize) as int) % (board.legal_move_seq().len() as int)],
                )
            },
    {
        let moves: Vec<Move> = board.move_iter();
        if moves.len() == 0 {
            return None;
        }
        let idx = (self.next_u64() as usize) % moves.len();
        assert(moves@.contains(moves@[idx as int]));
        Some(moves[idx])
    }
}

/// What a pick leaves of the generator: its state advanced by one step when
/// there was a legal move, unchanged otherwise.
pub proof fn lemma_after_pick_state(s: RandomSearch, legal: Seq<Move>)
    ensures
        s.after_pick(legal).state() == if legal.len() == 0 {
            s.state()
        } else {
            xorshift(s.state())
        },
{
}

} // verus!
