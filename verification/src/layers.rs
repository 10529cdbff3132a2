//! Per-camera visibility masks for 2d entities.
//!
//! Several cameras usually view one world, so an entity needs a way to say
//! which of them should see it. A camera draws an entity when their masks
//! share a layer, and since both default to layer 0, an app that never
//! touches layers gets everything seeing everything.

use vstd::prelude::*;

verus! {

/// The number of layers a mask can hold.
pub const LAYER_COUNT: u8 = 64;

/// Whether bit `k` of `mask` is set.
pub open spec fn bit_set(mask: u64, k: u64) -> bool {
    (mask >> k) & 1 == 1
}

/// Camera-to-entity visibility mask: a camera draws an entity iff their
/// masks intersect. Entities and cameras without a mask are on layer 0; an
/// explicit [`RenderLayers::none`] entity is invisible to every camera.
/// Layers `0..=63`.
#[derive(Clone, Copy, Debug, PartialEq, Eq, Structural)]
pub struct RenderLayers(u64);

impl RenderLayers {
    /// The layers in the mask.
    pub closed spec fn layers(self) -> Set<u64> {
        Set::new(|k: u64| k < 64 && bit_set(self.0, k))
    }

    /// The mask containing only layer `n`. Layers above 63 do not exist,
    /// so `n` must be below 64.
    pub fn layer(n: u8) -> (r: RenderLayers)
        requires
            n < LAYER_COUNT,
        ensures
            r.layers() == set![n as u64],
    {
        let m: u64 = 1u64 << n;
        let nn: u64 = n as u64;
        assert forall|k: u64| k < 64 implies (bit_set(m, k) <==> k == nn) by {
            assert(nn < 64 && m == 1u64 << nn ==> ((m >> k) & 1 == 1 <==> k == nn))
                by (bit_vector);
        }
        let r = RenderLayers(m);
        assert(r.layers() =~= set![nn]);
        r
    }

    /// The empty mask; entities carrying it are drawn by no camera.
    pub fn none() -> (r: RenderLayers)
        ensures
            r.layers() == Set::<u64>::empty(),
    {
        let r = RenderLayers(0);
        assert forall|k: u64| k < 64 implies !bit_set(0, k) by {
            assert((0u64 >> k) & 1 == 0) by (bit_vector);
        }
        assert(r.layers() =~= Set::<u64>::empty());
        r
    }

    /// This mask with layer `n` added.
    pub fn with(self, n: u8) -> (r: RenderLayers)
        requires
            n < LAYER_COUNT,
        ensures
            r.layers() == self.layers().insert(n as u64),
    {
        let a = self.0;
        let b: u64 = 1u64 << n;
        let m: u64 = a | b;
        let nn: u64 = n as u64;
        assert(b == 1u64 << nn);
        assert forall|k: u64| k < 64 implies (bit_set(m, k) <==> (bit_set(a, k) || k == nn)) by {
            assert(nn < 64 && b == 1u64 << nn && m == a | b ==> ((m >> k) & 1 == 1 <==> ((a >> k)
                & 1 == 1 || k == nn))) by (bit_vector);
        }
        let r = RenderLayers(m);
        assert(r.layers() =~= self.layers().insert(nn));
        r
    }

    /// This mask with layer `n` removed.
    pub fn without(self, n: u8) -> (r: RenderLayers)
        requires
            n < LAYER_COUNT,
        ensures
            r.layers() == self.layers().remove(n as u64),
    {
        let a = self.0;
        let b: u64 = 1u64 << n;
        let m: u64 = a & !b;
        let nn: u64 = n as u64;
        assert(b == 1u64 << nn);
        assert forall|k: u64| k < 64 implies (bit_set(m, k) <==> (bit_set(a, k) && k != nn)) by {
            assert(nn < 64 && b == 1u64 << nn && m == a & !b ==> ((m >> k) & 1 == 1 <==> ((a >> k)
                & 1 == 1 && k != nn))) by (bit_vector);
        }
        let r = RenderLayers(m);
        assert(r.layers() =~= self.layers().remove(nn));
        r
    }

    /// Whether any layer is in both masks.
    pub fn intersects(self, other: RenderLayers) -> (b: bool)
        ensures
            b == !self.layers().intersect(other.layers()).is_empty(),
    {
        let a = self.0;
        let c = other.0;
        let m: u64 = a & c;
        assert forall|k: u64| k < 64 implies (bit_set(m, k) <==> (bit_set(a, k) && bit_set(c, k)))
            by {
            assert(m == a & c ==> ((m >> k) & 1 == 1 <==> ((a >> k) & 1 == 1 && (c >> k) & 1 == 1)))
                by (bit_vector);
        }
        let ghost shared = self.layers().intersect(other.layers());
        if m != 0 {
            proof {
                lemma_nonzero_has_bit(m);
                let k = choose|k: u64| k < 64 && bit_set(m, k);
                assert(shared.contains(k));
            }
        } else {
            assert forall|k: u64| k < 64 implies !bit_set(m, k) by {
                assert(m == 0 ==> (m >> k) & 1 == 0) by (bit_vector);
            }
            assert(shared =~= Set::<u64>::empty());
        }
        m != 0
    }
}

impl Default for RenderLayers {
    /// Layer 0, the mask of anything that names no layers.
    fn default() -> (r: RenderLayers)
        ensures
            r.layers() == set![0u64],
    {
        RenderLayers::layer(0)
    }
}

/// A nonzero mask has a set bit below 64.
proof fn lemma_nonzero_has_bit(x: u64)
    requires
        x != 0,
    ensures
        exists|k: u64| k < 64 && bit_set(x, k),
    decreases x,
{
    if x & 1 == 1 {
        assert(x & 1 == 1 ==> (x >> 0u64) & 1 == 1) by (bit_vector);
        assert(bit_set(x, 0));
    } else {
        let y: u64 = x >> 1;
        assert(x != 0 && x & 1 != 1 && y == x >> 1 ==> y != 0 && y < x) by (bit_vector);
        lemma_nonzero_has_bit(y);
        let k = choose|k: u64| k < 64 && bit_set(y, k);
        let k1: u64 = (k + 1) as u64;
        assert(y == x >> 1 && k < 64 && (y >> k) & 1 == 1 && k1 == k + 1 ==> k1 < 64 && (x >> k1)
            & 1 == 1) by (bit_vector);
        assert(bit_set(x, k1));
    }
}

/// Masks share a layer symmetrically: if `a` meets `b` then `b` meets `a`.
pub proof fn lemma_intersects_symmetric(a: RenderLayers, b: RenderLayers)
    ensures
        a.layers().intersect(b.layers()) == b.layers().intersect(a.layers()),
{
    assert(a.layers().intersect(b.layers()) =~= b.layers().intersect(a.layers()));
}

/// Two single-layer masks meet exactly when they name the same layer.
pub proof fn lemma_single_layers_meet_iff_equal(m: u64, n: u64)
    ensures
        !set![m].intersect(set![n]).is_empty() <==> m == n,
{
    if m == n {
        assert(set![m].intersect(set![n]).contains(m));
    } else {
        assert(set![m].intersect(set![n]) =~= Set::<u64>::empty());
    }
}

/// A mask is determined by its layers: two masks holding the same layers
/// are the same mask. So [`RenderLayers::default`] and
/// [`RenderLayers::layer`]`(0)` are one mask, and [`RenderLayers::none`]
/// is the only mask without layers.
pub proof fn lemma_layers_determine_mask(a: RenderLayers, b: RenderLayers)
    requires
        a.layers() == b.layers(),
    ensures
        a == b,
{
    let x = a.0;
    let y = b.0;
    let d: u64 = x ^ y;
    if d != 0 {
        lemma_nonzero_has_bit(d);
        let k = choose|k: u64| k < 64 && bit_set(d, k);
        assert(d == x ^ y ==> ((d >> k) & 1 == 1 <==> ((x >> k) & 1 == 1) != ((y >> k) & 1 == 1)))
            by (bit_vector);
        assert(bit_set(d, k));
        assert(bit_set(x, k) != bit_set(y, k));
        assert(a.layers().contains(k) == bit_set(x, k));
        assert(b.layers().contains(k) == bit_set(y, k));
        assert(false);
    }
    assert(x ^ y == 0 ==> x == y) by (bit_vector);
}

/// Every layer of a mask is below 64.
pub proof fn lemma_layers_below_64(a: RenderLayers, k: u64)
    requires
        a.layers().contains(k),
    ensures
        k < 64,
{
}

/// A mask meets the single-layer mask of `m` exactly when it holds `m`:
/// the layers a mask meets one by one are its own layers, and two masks
/// meet exactly when those share a layer.
pub proof fn lemma_meets_single_layer(a: RenderLayers, m: u64)
    ensures
        !a.layers().intersect(set![m]).is_empty() <==> a.layers().contains(m),
{
    if a.layers().contains(m) {
        assert(a.layers().intersect(set![m]).contains(m));
    } else {
        assert(a.layers().intersect(set![m]) =~= Set::<u64>::empty());
    }
}

/// A mask meets itself exactly when it holds a layer, that is exactly
/// when it is not the empty mask: `empty` is any mask without layers,
/// which by [`lemma_layers_determine_mask`] is [`RenderLayers::none`].
pub proof fn lemma_meets_itself_iff_not_empty(a: RenderLayers, empty: RenderLayers)
    requires
        empty.layers() == Set::<u64>::empty(),
    ensures
        !a.layers().intersect(a.layers()).is_empty() <==> a != empty,
{
    assert(a.layers().intersect(a.layers()) =~= a.layers());
    if a == empty {
    } else {
        if a.layers().is_empty() {
            assert(a.layers() =~= Set::<u64>::empty());
            lemma_layers_determine_mask(a, empty);
        }
    }
}

} // verus!
