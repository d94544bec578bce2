//! The decisions of the shading engine: which primitive a ray sees, whether a
//! light is occluded, how much light reaches a point, and the colour that
//! results.
//!
//! The host casts the rays. Of each cast it reports one entry per primitive,
//! in scene order: `None` for a miss, or the distance of the hit as a code
//! that orders as the distances do (a smaller code is a nearer hit). The
//! cosine between the surface normal and the direction to a light is a
//! fixed-point number in units of 2^-32, as every intensity is.

use vstd::prelude::*;
use crate::color::{darken, lemma_scaling_saturates, Color};

verus! {

/// The ambient floor, a tenth: the least factor that a surface is shaded
/// with, however little light reaches it.
pub const AMBIENT_FLOOR: i64 = 429_496_730;

/// Whether entry `k` is a hit and the nearest of the first `end` entries,
/// the first of them being taken where several are equally near.
pub open spec fn is_nearest_of_first(distances: Seq<Option<u32>>, end: int, k: int) -> bool {
    &&& 0 <= k < end <= distances.len()
    &&& distances[k] is Some
    &&& forall|i: int|
        0 <= i < end && distances[i] is Some ==> {
            &&& distances[k]->0 <= (#[trigger] distances[i])->0
            &&& i < k ==> distances[k]->0 < distances[i]->0
        }
}

/// Whether entry `k` is the hit that the ray sees: the nearest one, and the
/// first in scene order among equally near ones.
pub open spec fn is_nearest(distances: Seq<Option<u32>>, k: int) -> bool {
    is_nearest_of_first(distances, distances.len() as int, k)
}

/// Whether the ray meets no primitive.
pub open spec fn all_miss(distances: Seq<Option<u32>>) -> bool {
    forall|i: int| 0 <= i < distances.len() ==> (#[trigger] distances[i]) is None
}

/// The primitive that a ray sees, by its index in the scene, or `None` where
/// the ray meets no primitive and the background shows.
pub fn nearest_hit(distances: &Vec<Option<u32>>) -> (hit: Option<usize>)
    ensures
        match hit {
            Some(k) => is_nearest(distances@, k as int),
            None => all_miss(distances@),
        },
{
    let mut best: Option<usize> = None;
    let mut least: u32 = 0;
    let mut i: usize = 0;
    while i < distances.len()
        invariant
            i <= distances@.len(),
            match best {
                Some(k) => is_nearest_of_first(distances@, i as int, k as int) && distances@[k as int]
                    == Some(least),
                None => forall|j: int| 0 <= j < i ==> (#[trigger] distances@[j]) is None,
            },
        decreases distances@.len() - i,
    {
        match distances[i] {
            Some(t) => {
                if best.is_none() || t < least {
                    best = Some(i);
                    least = t;
                }
            },
            None => {},
        }
        i += 1;
    }
    best
}

/// Where some of the first `end` entries is a hit, one of them is the
/// nearest.
proof fn lemma_nearest_of_first_exists(distances: Seq<Option<u32>>, end: int)
    requires
        0 <= end <= distances.len(),
        exists|i: int| 0 <= i < end && (#[trigger] distances[i]) is Some,
    ensures
        exists|k: int| is_nearest_of_first(distances, end, k),
    decreases end,
{
    let last = end - 1;
    if exists|i: int| 0 <= i < last && (#[trigger] distances[i]) is Some {
        lemma_nearest_of_first_exists(distances, last);
        let k = choose|k: int| is_nearest_of_first(distances, last, k);
        if distances[last] is Some && distances[last]->0 < distances[k]->0 {
            assert(is_nearest_of_first(distances, end, last));
        } else {
            assert(is_nearest_of_first(distances, end, k));
        }
    } else {
        assert(is_nearest_of_first(distances, end, last));
    }
}

/// A ray that meets some primitive sees one: either every entry is a miss or
/// one entry is the hit that the ray sees.
pub proof fn lemma_some_hit_is_seen(distances: Seq<Option<u32>>)
    requires
        !all_miss(distances),
    ensures
        exists|k: int| is_nearest(distances, k),
{
    let i = choose|i: int| 0 <= i < distances.len() && !((#[trigger] distances[i]) is None);
    assert(distances[i] is Some);
    lemma_nearest_of_first_exists(distances, distances.len() as int);
    let k = choose|k: int| is_nearest_of_first(distances, distances.len() as int, k);
    assert(is_nearest(distances, k));
}

/// At most one entry is the hit that the ray sees.
pub proof fn lemma_nearest_is_unique(distances: Seq<Option<u32>>, j: int, k: int)
    requires
        is_nearest(distances, j),
        is_nearest(distances, k),
    ensures
        j == k,
{
}

/// Of two primitives hit at different distances the nearer one is seen,
/// whichever comes first in the scene.
pub proof fn lemma_nearer_of_two_is_seen(near: u32, far: u32)
    requires
        near < far,
    ensures
        is_nearest(seq![Some(near), Some(far)], 0),
        is_nearest(seq![Some(far), Some(near)], 1),
{
}

/// Among any number of primitives, one that is hit is never seen where
/// another is hit strictly nearer: the hit that the ray sees is no farther
/// than the nearer of the two, and where the scene holds these two alone, it
/// is the nearer one.
pub proof fn lemma_nearer_hit_wins(distances: Seq<Option<u32>>, near: int, far: int, k: int)
    requires
        0 <= near < distances.len(),
        0 <= far < distances.len(),
        distances[near] is Some,
        distances[far] is Some,
        distances[near]->0 < distances[far]->0,
        is_nearest(distances, k),
    ensures
        k != far,
        distances[k]->0 <= distances[near]->0,
        distances.len() == 2 ==> k == near,
{
}

/// Whether a hit at `distance` on a shadow ray keeps the light off. A light
/// at a finite distance `reach` is blocked by a hit strictly nearer than the
/// light; a directional light, which has no `reach`, by any hit.
pub open spec fn blocks(distance: Option<u32>, reach: Option<u32>) -> bool {
    match distance {
        Some(t) => match reach {
            Some(limit) => t < limit,
            None => true,
        },
        None => false,
    }
}

/// Whether some primitive keeps the light off.
pub open spec fn occluded(distances: Seq<Option<u32>>, reach: Option<u32>) -> bool {
    exists|i: int| 0 <= i < distances.len() && blocks(#[trigger] distances[i], reach)
}

/// Whether a point is in shadow with respect to one light, given what the
/// shadow ray towards the light meets.
pub fn in_shadow(distances: &Vec<Option<u32>>, reach: Option<u32>) -> (shadowed: bool)
    ensures
        shadowed == occluded(distances@, reach),
{
    let mut i: usize = 0;
    while i < distances.len()
        invariant
            i <= distances@.len(),
            forall|j: int| 0 <= j < i ==> !blocks(#[trigger] distances@[j], reach),
        decreases distances@.len() - i,
    {
        let blocked = match distances[i] {
            Some(t) => match reach {
                Some(limit) => t < limit,
                None => true,
            },
            None => false,
        };
        if blocked {
            return true;
        }
        i += 1;
    }
    false
}

/// What the host found out about one light at the point to shade.
pub struct LightProbe {
    /// The cosine between the surface normal and the direction to the light.
    pub lambert: i64,
    /// The distance from the point to the light; `None` for a directional
    /// light.
    pub reach: Option<u32>,
    /// What the shadow ray towards the light meets, one entry per primitive.
    pub blockers: Vec<Option<u32>>,
}

impl LightProbe {
    /// What the light adds to the intensity: nothing if it is occluded or
    /// shines on the back of the surface, else the cosine.
    pub open spec fn contribution(self) -> int {
        if occluded(self.blockers@, self.reach) || self.lambert <= 0 {
            0
        } else {
            self.lambert as int
        }
    }
}

/// The light that reaches a point: the contributions of all lights, added
/// up.
pub open spec fn total_light(probes: Seq<LightProbe>) -> int
    decreases probes.len(),
{
    if probes.len() == 0 {
        0
    } else {
        total_light(probes.drop_last()) + probes.last().contribution()
    }
}

/// The factor that a surface is shaded with under the given intensity: the
/// intensity, or the ambient floor if that is more.
pub open spec fn shading_factor(intensity: int) -> int {
    if intensity < AMBIENT_FLOOR {
        AMBIENT_FLOOR as int
    } else {
        intensity
    }
}

/// `value`, or the largest `i64` if that is less.
pub open spec fn capped(value: int) -> int {
    if value > i64::MAX {
        i64::MAX as int
    } else {
        value
    }
}

/// No light takes intensity away.
pub proof fn lemma_total_light_is_nonnegative(probes: Seq<LightProbe>)
    ensures
        total_light(probes) >= 0,
    decreases probes.len(),
{
    if probes.len() > 0 {
        lemma_total_light_is_nonnegative(probes.drop_last());
    }
}

/// One light that nothing occludes and that does not shine from behind
/// gives exactly its cosine, with no floor added.
pub proof fn lemma_lone_unoccluded_light(probe: LightProbe)
    requires
        all_miss(probe.blockers@),
        probe.lambert >= 0,
    ensures
        total_light(seq![probe]) == probe.lambert,
{
    assert(seq![probe].drop_last() =~= Seq::<LightProbe>::empty());
    assert(total_light(seq![probe].drop_last()) == 0);
    assert(seq![probe].last() == probe);
}

/// The light that reaches a point, capped at the largest `i64`.
pub fn illumination(probes: &Vec<LightProbe>) -> (intensity: i64)
    ensures
        intensity == capped(total_light(probes@)),
{
    let mut intensity: i64 = 0;
    let mut i: usize = 0;
    while i < probes.len()
        invariant
            i <= probes@.len(),
            intensity == capped(total_light(probes@.subrange(0, i as int))),
        decreases probes@.len() - i,
    {
        let probe = &probes[i];
        proof {
            assert(probes@.subrange(0, i + 1).drop_last() =~= probes@.subrange(0, i as int));
            lemma_total_light_is_nonnegative(probes@.subrange(0, i as int));
        }
        if probe.lambert > 0 && !in_shadow(&probe.blockers, probe.reach) {
            intensity = if intensity > i64::MAX - probe.lambert {
                i64::MAX
            } else {
                intensity + probe.lambert
            };
        }
        i += 1;
    }
    assert(probes@.subrange(0, i as int) =~= probes@);
    intensity
}

/// The colour of a surface of colour `base` under the given lights: `base`
/// scaled by the light that reaches the point, or by the ambient floor if
/// that is more.
pub fn shade(base: Color, probes: &Vec<LightProbe>) -> (out: Color)
    ensures
        out == base.darkened(shading_factor(total_light(probes@))),
{
    let intensity: i64 = illumination(probes);
    let factor: i64 = if intensity < AMBIENT_FLOOR {
        AMBIENT_FLOOR
    } else {
        intensity
    };
    proof {
        let exact = shading_factor(total_light(probes@));
        if exact != factor {
            lemma_scaling_saturates(base.r as int, exact);
            lemma_scaling_saturates(base.g as int, exact);
            lemma_scaling_saturates(base.b as int, exact);
            lemma_scaling_saturates(base.r as int, factor as int);
            lemma_scaling_saturates(base.g as int, factor as int);
            lemma_scaling_saturates(base.b as int, factor as int);
        }
    }
    darken(base, factor)
}

/// The colour that a ray sees. `distances` tells where the ray meets each
/// primitive and `colors` what colour each primitive has; `probes` holds what
/// the host found out about each light at the point that the ray sees. The
/// colour is that of the nearest primitive hit, the first in the scene among
/// equally near ones, or the background where nothing is hit, scaled by the
/// light that reaches the point, or by the ambient floor if that is more.
pub fn raytracer(
    distances: &Vec<Option<u32>>,
    colors: &Vec<Color>,
    background: Color,
    probes: &Vec<LightProbe>,
) -> (out: Color)
    requires
        distances@.len() == colors@.len(),
    ensures
        all_miss(distances@) ==> out == background.darkened(shading_factor(total_light(probes@))),
        forall|k: int|
            is_nearest(distances@, k) ==> out == colors@[k].darkened(
                shading_factor(total_light(probes@)),
            ),
{
    let base: Color = match nearest_hit(distances) {
        Some(k) => colors[k],
        None => background,
    };
    proof {
        assert forall|k: int| is_nearest(distances@, k) implies base == colors@[k] by {
            if all_miss(distances@) {
                assert(distances@[k] is None);
            }
        }
    }
    shade(base, probes)
}

} // verus!
