//! Pattern parameters: the spacing and the two seeded selector sequences
//! that determine a rectangular hitomezashi pattern.

use vstd::prelude::*;
use crate::selectors::generate;
use crate::selectors::selector_seq;

verus! {

/// The parameters of a rectangular pattern. The spacing doubles as the dash
/// length and is kept in tenths of a pixel, so that the usual slider values
/// (one fractional decimal digit) are carried exactly without floating
/// point; the selector sequences give the starting phase of each sweep
/// line, cyclically, and are regenerated from their seeds on every change.
pub struct RectSettings {
    pub spacing_tenths: u32,
    pub horz_selectors: Vec<bool>,
    pub vert_selectors: Vec<bool>,
    pub horz_seed: u8,
    pub vert_seed: u8,
}

impl RectSettings {
    /// Well-formed parameters: positive spacing and non-empty selector
    /// sequences (sweep lines index the sequences modulo their length).
    pub open spec fn wf(self) -> bool {
        &&& self.spacing_tenths >= 1
        &&& self.horz_selectors@.len() >= 1
        &&& self.vert_selectors@.len() >= 1
    }

    /// The parameters an interactive session starts from: spacing of 25
    /// pixels and ten all-false selectors per axis, both seeds zero.
    pub fn initial() -> (r: RectSettings)
        ensures
            r.wf(),
            r.spacing_tenths == 250,
            r.horz_seed == 0,
            r.vert_seed == 0,
            r.horz_selectors@ == Seq::new(10, |i: int| false),
            r.vert_selectors@ == Seq::new(10, |i: int| false),
    {
        let mut horz: Vec<bool> = Vec::new();
        let mut vert: Vec<bool> = Vec::new();
        let mut i: usize = 0;
        while i < 10
            invariant
                i <= 10,
                horz@.len() == i,
                vert@.len() == i,
                forall|j: int| 0 <= j < i ==> !horz@[j] && !vert@[j],
            decreases 10 - i,
        {
            horz.push(false);
            vert.push(false);
            i = i + 1;
        }
        let r = RectSettings {
            spacing_tenths: 250,
            horz_selectors: horz,
            vert_selectors: vert,
            horz_seed: 0,
            vert_seed: 0,
        };
        proof {
            assert(r.horz_selectors@ =~= Seq::new(10, |i: int| false));
            assert(r.vert_selectors@ =~= Seq::new(10, |i: int| false));
        }
        r
    }

    /// Regenerate both selector sequences from the current seeds, keeping
    /// their lengths. Same seeds give byte-identical sequences, whatever
    /// was in them before.
    pub fn regenerate_selectors(&mut self)
        ensures
            final(self).spacing_tenths == old(self).spacing_tenths,
            final(self).horz_seed == old(self).horz_seed,
            final(self).vert_seed == old(self).vert_seed,
            final(self).horz_selectors@ == selector_seq(
                old(self).horz_seed,
                old(self).horz_selectors@.len(),
            ),
            final(self).vert_selectors@ == selector_seq(
                old(self).vert_seed,
                old(self).vert_selectors@.len(),
            ),
    {
        let horz_len = self.horz_selectors.len();
        let vert_len = self.vert_selectors.len();
        self.horz_selectors = generate(self.horz_seed, horz_len);
        self.vert_selectors = generate(self.vert_seed, vert_len);
    }

    /// Take new slider values (spacing and the two seeds) and regenerate
    /// both selector sequences from the new seeds, keeping their lengths.
    /// This is the whole effect of a control change on the parameters.
    pub fn apply_controls(&mut self, spacing_tenths: u32, horz_seed: u8, vert_seed: u8)
        requires
            spacing_tenths >= 1,
        ensures
            final(self).spacing_tenths == spacing_tenths,
            final(self).horz_seed == horz_seed,
            final(self).vert_seed == vert_seed,
            final(self).horz_selectors@ == selector_seq(
                horz_seed,
                old(self).horz_selectors@.len(),
            ),
            final(self).vert_selectors@ == selector_seq(
                vert_seed,
                old(self).vert_selectors@.len(),
            ),
            old(self).wf() ==> final(self).wf(),
    {
        self.spacing_tenths = spacing_tenths;
        self.horz_seed = horz_seed;
        self.vert_seed = vert_seed;
        self.regenerate_selectors();
    }

    /// The dash length in whole pixels used by the pixel rasterizer: the
    /// spacing rounded down to whole pixels, and at least one pixel.
    pub open spec fn dash_px_spec(self) -> int {
        if self.spacing_tenths / 10 >= 1 {
            (self.spacing_tenths / 10) as int
        } else {
            1
        }
    }

    /// The dash length in whole pixels used by the pixel rasterizer: the
    /// spacing rounded down, and at least one pixel.
    pub fn dash_px(&self) -> (r: u32)
        ensures
            r == self.dash_px_spec(),
            r >= 1,
    {
        let px = self.spacing_tenths / 10;
        if px >= 1 {
            px
        } else {
            1
        }
    }
}

} // verus!
