//! Collision layers: which volumes may report an overlap with which.
//!
//! Every collision volume sits on one of three layers. Attack volumes sit on
//! `Hit` and look for `Hurt`; vulnerability volumes sit on `Hurt` and look for
//! `Hit`; solid bodies sit on `Physics` and look for each other.

use vstd::prelude::*;
use avian2d::collision::CollisionLayers;

verus! {

/// `avian2d::collision::CollisionLayers`, the physics engine's pair of layer
/// masks: the layers that a volume belongs to, and the layers that it may
/// interact with. Its inside is reached through `memberships_of` and
/// `filters_of` alone.
#[verifier::external_type_specification]
#[verifier::external_body]
pub struct ExCollisionLayers(avian2d::collision::CollisionLayers);

/// The bits of the field `memberships` of a `CollisionLayers` value: the
/// layers that the volume belongs to.
pub uninterp spec fn memberships_of(layers: CollisionLayers) -> u32;

/// The bits of the field `filters` of a `CollisionLayers` value: the layers
/// that the volume may interact with.
pub uninterp spec fn filters_of(layers: CollisionLayers) -> u32;

/// `avian2d::collision::CollisionLayers::from_bits`. Not proved here: it
/// stores its two arguments, unchanged, as the memberships mask and the
/// filters mask.
pub assume_specification[ CollisionLayers::from_bits ](memberships: u32, filters: u32) -> (layers:
    CollisionLayers)
    ensures
        memberships_of(layers) == memberships,
        filters_of(layers) == filters,
;

/// `avian2d::collision::CollisionLayers::interacts_with`. Not proved here: it
/// answers `true` exactly when each side has a membership bit that is also set
/// in the other side's filters.
pub assume_specification[ CollisionLayers::interacts_with ](
    this: CollisionLayers,
    other: CollisionLayers,
) -> (yes: bool)
    ensures
        yes == masks_interact(
            memberships_of(this),
            filters_of(this),
            memberships_of(other),
            filters_of(other),
        ),
;

/// Whether two volumes, each given by its memberships and filters, may report
/// an overlap with each other.
pub open spec fn masks_interact(m1: u32, f1: u32, m2: u32, f2: u32) -> bool {
    (m1 & f2) != 0 && (m2 & f1) != 0
}

/// The three layers of this game, in the order of their bits.
#[derive(Clone, Copy, Debug, PartialEq, Eq, Structural, Default)]
pub enum AvianLayers {
    #[default]
    Physics,
    Hurt,
    Hit,
}

impl AvianLayers {
    /// The single bit that stands for this layer in a mask.
    pub open spec fn bit(self) -> u32 {
        match self {
            AvianLayers::Physics => 1,
            AvianLayers::Hurt => 2,
            AvianLayers::Hit => 4,
        }
    }

    /// The layer whose volumes a volume on this layer looks for.
    pub open spec fn spec_counterpart(self) -> AvianLayers {
        match self {
            AvianLayers::Physics => AvianLayers::Physics,
            AvianLayers::Hurt => AvianLayers::Hit,
            AvianLayers::Hit => AvianLayers::Hurt,
        }
    }

    /// The layer's bit in a mask: bit 0 for `Physics`, bit 1 for `Hurt`, bit 2
    /// for `Hit`.
    pub fn to_bits(&self) -> (bits: u32)
        ensures
            bits == self.bit(),
    {
        match self {
            AvianLayers::Physics => 1,
            AvianLayers::Hurt => 2,
            AvianLayers::Hit => 4,
        }
    }

    /// A mask with the bit of every layer set.
    pub fn all_bits() -> (bits: u32)
        ensures
            bits == 7,
    {
        7
    }

    /// The layer that a volume on this layer may overlap.
    #[verifier::when_used_as_spec(spec_counterpart)]
    pub fn counterpart(self) -> (other: AvianLayers)
        ensures
            other == self.spec_counterpart(),
    {
        match self {
            AvianLayers::Physics => AvianLayers::Physics,
            AvianLayers::Hurt => AvianLayers::Hit,
            AvianLayers::Hit => AvianLayers::Hurt,
        }
    }
}

/// Whether `layers` is the configuration of a volume on layer `own`: it belongs
/// to `own` alone and looks for the counterpart of `own` alone.
pub open spec fn is_layers_of(layers: CollisionLayers, own: AvianLayers) -> bool {
    &&& memberships_of(layers) == own.bit()
    &&& filters_of(layers) == own.spec_counterpart().bit()
}

/// The layer configuration of a volume on layer `own`.
pub fn layers_of(own: AvianLayers) -> (layers: CollisionLayers)
    ensures
        is_layers_of(layers, own),
{
    CollisionLayers::from_bits(own.to_bits(), own.counterpart().to_bits())
}

/// The configuration of an attack volume: on `Hit`, looking for `Hurt`.
pub fn hitbox() -> (layers: CollisionLayers)
    ensures
        is_layers_of(layers, AvianLayers::Hit),
        memberships_of(layers) == 4,
        filters_of(layers) == 2,
{
    layers_of(AvianLayers::Hit)
}

/// The configuration of a vulnerability volume: on `Hurt`, looking for `Hit`.
pub fn hurtbox() -> (layers: CollisionLayers)
    ensures
        is_layers_of(layers, AvianLayers::Hurt),
        memberships_of(layers) == 2,
        filters_of(layers) == 4,
{
    layers_of(AvianLayers::Hurt)
}

/// The configuration of a solid body: on `Physics`, looking for `Physics`.
pub fn physics() -> (layers: CollisionLayers)
    ensures
        is_layers_of(layers, AvianLayers::Physics),
        memberships_of(layers) == 1,
        filters_of(layers) == 1,
{
    layers_of(AvianLayers::Physics)
}

/// Whether a volume on layer `a` and a volume on layer `b` may report an
/// overlap with each other.
pub fn may_overlap(a: AvianLayers, b: AvianLayers) -> (yes: bool)
    ensures
        yes == (b == a.spec_counterpart()),
        yes == masks_interact(a.bit(), a.spec_counterpart().bit(), b.bit(), b.spec_counterpart().bit()),
{
    proof {
        lemma_overlap_is_counterpart(a, b);
    }
    layers_of(a).interacts_with(layers_of(b))
}

/// Layer isolation: two volumes of this game may overlap exactly when each
/// sits on the layer that the other looks for. So an attack volume and a
/// vulnerability volume overlap, and neither overlaps a solid body.
pub proof fn lemma_layers_overlap_iff_counterparts(
    a: CollisionLayers,
    on_a: AvianLayers,
    b: CollisionLayers,
    on_b: AvianLayers,
)
    requires
        is_layers_of(a, on_a),
        is_layers_of(b, on_b),
    ensures
        masks_interact(memberships_of(a), filters_of(a), memberships_of(b), filters_of(b)) <==> on_b
            == on_a.spec_counterpart(),
        on_a == AvianLayers::Hit && on_b == AvianLayers::Physics ==> !masks_interact(
            memberships_of(a),
            filters_of(a),
            memberships_of(b),
            filters_of(b),
        ),
        on_a == AvianLayers::Hurt && on_b == AvianLayers::Hit ==> masks_interact(
            memberships_of(a),
            filters_of(a),
            memberships_of(b),
            filters_of(b),
        ),
{
    lemma_overlap_is_counterpart(on_a, on_b);
}

/// The same over the layers' bits: the masks of a volume on `a` and of one on
/// `b` interact exactly when `b` is the counterpart of `a`.
pub proof fn lemma_overlap_is_counterpart(a: AvianLayers, b: AvianLayers)
    ensures
        masks_interact(a.bit(), a.spec_counterpart().bit(), b.bit(), b.spec_counterpart().bit()) <==> b
            == a.spec_counterpart(),
{
    assert(1u32 & 1u32 != 0) by (bit_vector);
    assert(1u32 & 2u32 == 0) by (bit_vector);
    assert(1u32 & 4u32 == 0) by (bit_vector);
    assert(2u32 & 1u32 == 0) by (bit_vector);
    assert(2u32 & 2u32 != 0) by (bit_vector);
    assert(2u32 & 4u32 == 0) by (bit_vector);
    assert(4u32 & 1u32 == 0) by (bit_vector);
    assert(4u32 & 2u32 == 0) by (bit_vector);
    assert(4u32 & 4u32 != 0) by (bit_vector);
}

} // verus!
