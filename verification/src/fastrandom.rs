//! The four-word shift-register generator that makes the reference block.

use crate::bytes::{u32_le_bytes, write_u32_le};
use vstd::prelude::*;

verus! {

/// The generator: four words of state, of which the last is the output.
#[derive(Clone, Copy, Debug)]
pub struct FastRandom {
    x: u32,
    y: u32,
    z: u32,
    w: u32,
}

/// The state of a generator that was just seeded with `seed`.
pub open spec fn seeded(seed: u32) -> (u32, u32, u32, u32) {
    (seed, 842502087u32, 3579807591u32, 273326509u32)
}

/// The state after one step from the state `(x, y, z, w)`.
pub open spec fn next_state(s: (u32, u32, u32, u32)) -> (u32, u32, u32, u32) {
    let t = s.0 ^ (s.0 << 11);
    (s.1, s.2, s.3, (s.3 ^ (s.3 >> 19)) ^ (t ^ (t >> 8)))
}

/// The state after `k` steps from `s`.
pub open spec fn advance(s: (u32, u32, u32, u32), k: nat) -> (u32, u32, u32, u32)
    decreases k,
{
    if k == 0 {
        s
    } else {
        next_state(advance(s, (k - 1) as nat))
    }
}

/// The first `n` bytes that a generator in state `s` gives: the output words
/// of the following states, each stored low byte first.
pub open spec fn output_bytes(s: (u32, u32, u32, u32), n: nat) -> Seq<u8> {
    Seq::new(n, |i: int| u32_le_bytes(advance(s, (i / 4 + 1) as nat).3)[i % 4])
}

/// How many steps `n` bytes of output take: one for each word begun.
pub open spec fn steps_for(n: nat) -> nat {
    (n + 3) / 4
}

impl View for FastRandom {
    type V = (u32, u32, u32, u32);

    closed spec fn view(&self) -> (u32, u32, u32, u32) {
        (self.x, self.y, self.z, self.w)
    }
}

impl FastRandom {
    /// A generator seeded with `seed`.
    pub fn new(seed: u32) -> (r: Self)
        ensures
            r@ == seeded(seed),
    {
        FastRandom { x: seed, y: 842502087, z: 3579807591, w: 273326509 }
    }

    /// Advances the generator by one step and returns the output word.
    fn next_word(&mut self) -> (w: u32)
        ensures
            final(self)@ == next_state(old(self)@),
            w == final(self)@.3,
    {
        let t = self.x ^ (self.x << 11);
        self.x = self.y;
        self.y = self.z;
        self.z = self.w;
        self.w = (self.w ^ (self.w >> 19)) ^ (t ^ (t >> 8));
        self.w
    }

    /// The next `N` bytes of output. A last word that is only partly needed
    /// gives its low bytes and is then spent.
    pub fn next_bytes<const N: usize>(&mut self) -> (out: [u8; N])
        ensures
            out@ == output_bytes(old(self)@, N as nat),
            final(self)@ == advance(old(self)@, steps_for(N as nat)),
    {
        let mut out = [0u8; N];
        let mut filled: usize = 0;
        while N - filled >= 4
            invariant
                filled <= N,
                filled % 4 == 0,
                self@ == advance(old(self)@, (filled / 4) as nat),
                forall|k: int| 0 <= k < filled ==> out@[k] == output_bytes(old(self)@, N as nat)[k],
            decreases N - filled,
        {
            let word = write_u32_le(self.next_word());
            out[filled] = word[0];
            out[filled + 1] = word[1];
            out[filled + 2] = word[2];
            out[filled + 3] = word[3];
            filled += 4;
        }
        if filled < N {
            let word = write_u32_le(self.next_word());
            let ghost whole = filled;
            while filled < N
                invariant
                    whole <= filled <= N,
                    whole % 4 == 0,
                    N - whole < 4,
                    word@ == u32_le_bytes(advance(old(self)@, (whole / 4 + 1) as nat).3),
                    forall|k: int|
                        0 <= k < filled ==> out@[k] == output_bytes(old(self)@, N as nat)[k],
                decreases N - filled,
            {
                out[filled] = word[filled % 4];
                filled += 1;
            }
        }
        assert(out@ =~= output_bytes(old(self)@, N as nat));
        out
    }
}

} // verus!
