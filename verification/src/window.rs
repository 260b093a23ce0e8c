//! The window tapers, an earlier surface of the same closed set of
//! kinds; see also [`crate::window_kind`].

use vstd::prelude::*;

verus! {

use crate::types::GROWTH_ONE;
use crate::trig::{
    cosine_window_at, cosine_window_spec, sine_window_at, sine_window_spec, triangular_window_at,
    triangular_window_spec,
};

/// A window taper kind.
#[derive(Clone, Copy, Debug)]
pub enum Window {
    Blackman,
    Hamming,
    Hanning,
    Rectangular,
    Sine,
    Triangular,
}

impl Window {
    /// The value at position `i` of this window of length `len`, in
    /// Q32.32.
    pub open spec fn window_spec(self, len: int, i: int) -> int {
        match self {
            Window::Blackman => cosine_window_spec(358750, 488290, 141280, 11680, len, i),
            Window::Hamming => cosine_window_spec(540000, 460000, 0, 0, len, i),
            Window::Hanning => cosine_window_spec(500000, 500000, 0, 0, len, i),
            Window::Rectangular => GROWTH_ONE as int,
            Window::Sine => sine_window_spec(len, i),
            Window::Triangular => triangular_window_spec(len, i),
        }
    }

    /// Generates the window envelope: one multiplier per position, each
    /// in `[0, 1]` (Q32.32).
    pub fn generate(&self, len: usize) -> (out: Vec<u64>)
        requires
            len >= 1,
        ensures
            out@.len() == len,
            forall|i: int|
                0 <= i < len ==> (#[trigger] out@[i]) as int == self.window_spec(
                    len as int,
                    i,
                ) && out@[i] <= GROWTH_ONE,
    {
        let mut out: Vec<u64> = Vec::new();
        let mut i: usize = 0;
        while i < len
            invariant
                i <= len,
                out@.len() == i,
                forall|j: int|
                    0 <= j < i ==> (#[trigger] out@[j]) as int == self.window_spec(
                        len as int,
                        j,
                    ) && out@[j] <= GROWTH_ONE,
            decreases len - i,
        {
            let v: u64 = match *self {
                Window::Blackman => cosine_window_at(358750, 488290, 141280, 11680, len, i),
                Window::Hamming => cosine_window_at(540000, 460000, 0, 0, len, i),
                Window::Hanning => cosine_window_at(500000, 500000, 0, 0, len, i),
                Window::Rectangular => GROWTH_ONE,
                Window::Sine => sine_window_at(len, i),
                Window::Triangular => triangular_window_at(len, i),
            };
            out.push(v);
            i = i + 1;
        }
        out
    }
}

impl Default for Window {
    /// The identity window: no taper.
    fn default() -> (out: Self)
        ensures
            out == Window::Rectangular,
    {
        Window::Rectangular
    }
}

} // verus!
