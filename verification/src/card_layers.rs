use vstd::prelude::*;

use crate::occlusion::Rect;

verus! {

/// Element-wise equality of two `u32` arrays.
pub fn same_words<const N: usize>(a: &[u32; N], b: &[u32; N]) -> (r: bool)
    ensures
        r == (a@ == b@),
{
    let mut i: usize = 0;
    while i < N
        invariant
            i <= N,
            a@.len() == N && b@.len() == N,
            forall|j: int| 0 <= j < i ==> a@[j] == b@[j],
        decreases N - i,
    {
        if a[i] != b[i] {
            return false;
        }
        i += 1;
    }
    assert(a@ =~= b@);
    true
}

/// One shader layer of a card draw: the atlas image and region it samples, its transform
/// (as `f32` bit patterns), its effect and shader inputs, its clip and its blend mode.
#[derive(Clone, Copy, PartialEq, Eq)]
pub struct Layer {
    pub image: usize,
    pub region: [u32; 4],
    pub transform: [u32; 6],
    pub effect: u8,
    pub inputs: [u32; 5],
    pub clip: Rect,
    pub blend: u8,
}

impl Layer {
    /// `self` draws the same effect over the same geometry and state as `earlier`, from a
    /// different image or region.
    pub open spec fn spec_follows(self, earlier: Layer) -> bool {
        &&& self.transform@ == earlier.transform@
        &&& self.region@.subrange(2, 4) == earlier.region@.subrange(2, 4)
        &&& self.effect == earlier.effect
        &&& self.inputs@ == earlier.inputs@
        &&& self.clip.0@ == earlier.clip.0@
        &&& self.blend == earlier.blend
        &&& (self.image != earlier.image || self.region@ != earlier.region@)
    }

    /// Whether this layer can be drawn together with the layer drawn just before it.
    pub fn follows(self, earlier: Self) -> (r: bool)
        ensures
            r == self.spec_follows(earlier),
    {
        let same_size = self.region[2] == earlier.region[2] && self.region[3] == earlier.region[3];
        proof {
            if same_size {
                assert(self.region@.subrange(2, 4) =~= earlier.region@.subrange(2, 4));
            } else {
                assert(self.region@.subrange(2, 4)[0] == self.region@[2]);
                assert(self.region@.subrange(2, 4)[1] == self.region@[3]);
            }
        }
        same_words(&self.transform, &earlier.transform) && same_size && self.effect == earlier.effect
            && same_words(&self.inputs, &earlier.inputs) && self.clip == earlier.clip
            && self.blend == earlier.blend && (self.image != earlier.image || !same_words(
            &self.region,
            &earlier.region,
        ))
    }
}

/// Counts, over a sequence of draws, how many carry a layer and how many adjacent layer pairs
/// could be combined, without letting a pair overlap another pair or cross a boundary.
pub struct Probe {
    previous: Option<Layer>,
    eligible: u64,
    pairs: u64,
    pair_bounds: u64,
}

impl Default for Probe {
    fn default() -> (probe: Self)
        ensures
            probe.spec_previous() is None,
            probe.spec_eligible() == 0,
            probe.spec_pairs() == 0,
            probe.spec_pair_bounds() == 0,
    {
        Probe { previous: None, eligible: 0, pairs: 0, pair_bounds: 0 }
    }
}

impl Probe {
    pub closed spec fn spec_previous(self) -> Option<Layer> {
        self.previous
    }

    pub closed spec fn spec_eligible(self) -> u64 {
        self.eligible
    }

    pub closed spec fn spec_pairs(self) -> u64 {
        self.pairs
    }

    pub closed spec fn spec_pair_bounds(self) -> u64 {
        self.pair_bounds
    }

    /// Draws seen so far that carried a layer.
    pub fn eligible(&self) -> (n: u64)
        ensures
            n == self.spec_eligible(),
    {
        self.eligible
    }

    /// Adjacent layer pairs found so far.
    pub fn pairs(&self) -> (n: u64)
        ensures
            n == self.spec_pairs(),
    {
        self.pairs
    }

    /// Total bounds area of the pairs found so far.
    pub fn pair_bounds(&self) -> (n: u64)
        ensures
            n == self.spec_pair_bounds(),
    {
        self.pair_bounds
    }

    /// Whether observing `layer` completes a pair with the previous unpaired layer.
    pub open spec fn pairs_with(self, layer: Option<Layer>) -> bool {
        match (self.spec_previous(), layer) {
            (Some(earlier), Some(current)) => current.spec_follows(earlier),
            _ => false,
        }
    }

    /// Records the next draw: a layer pairs with the previous unpaired layer when it follows
    /// it, and the pair's bounds area is added; otherwise it becomes the previous layer.
    pub fn observe(&mut self, layer: Option<Layer>, bounds: Option<Rect>)
        requires
            old(self).spec_eligible() < u64::MAX,
            old(self).spec_pairs() < u64::MAX,
            bounds matches Some(rect) ==> rect.measurable() && old(self).spec_pair_bounds() + (
            rect.spec_area() as u64) <= u64::MAX,
        ensures
            final(self).spec_eligible() == old(self).spec_eligible() + (if layer is Some { 1int } else { 0 }),
            old(self).pairs_with(layer) ==> {
                &&& final(self).spec_pairs() == old(self).spec_pairs() + 1
                &&& final(self).spec_pair_bounds() == old(self).spec_pair_bounds() + match bounds {
                    Some(rect) => rect.spec_area() as u64,
                    None => 0u64,
                }
                &&& final(self).spec_previous() is None
            },
            !old(self).pairs_with(layer) ==> {
                &&& final(self).spec_pairs() == old(self).spec_pairs()
                &&& final(self).spec_pair_bounds() == old(self).spec_pair_bounds()
                &&& final(self).spec_previous() == layer
            },
    {
        if layer.is_some() {
            self.eligible += 1;
        }
        if let (Some(earlier), Some(current)) = (self.previous, layer) {
            if current.follows(earlier) {
                self.pairs += 1;
                let added = match bounds {
                    Some(rect) => rect.area() as u64,
                    None => 0,
                };
                self.pair_bounds += added;
                self.previous = None;
                return;
            }
        }
        self.previous = layer;
    }

    /// Marks a boundary that no pair may cross.
    pub fn boundary(&mut self)
        ensures
            final(self).spec_previous() is None,
            final(self).spec_eligible() == old(self).spec_eligible(),
            final(self).spec_pairs() == old(self).spec_pairs(),
            final(self).spec_pair_bounds() == old(self).spec_pair_bounds(),
    {
        self.previous = None;
    }
}

/// No pair crosses a boundary: after `boundary`, the next draw pairs with nothing, whatever
/// its layer, so (by `observe`) it leaves the pairs and their bounds as they were.
pub proof fn law_no_pair_crosses_a_boundary(after_boundary: Probe, layer: Option<Layer>)
    requires
        after_boundary.spec_previous() is None,
    ensures
        !after_boundary.pairs_with(layer),
{
}

} // verus!
