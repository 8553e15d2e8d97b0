//! The path integrator: follows a ray from surface to surface and gathers
//! the light that arrives along it.
//!
//! The integrator knows neither rays nor colours. It asks the caller what a
//! ray meets, and combines the answers: a ray that leaves the scene brings
//! the background's radiance, an absorbed ray brings none, and a scattered
//! ray brings what arrives along the ray that goes on, attenuated by the
//! surface. A path that has used up its depth brings none either.

use vstd::prelude::*;

verus! {

/// What a ray meets in a scene.
pub enum Encounter<Ray, Radiance> {
    /// Nothing: the ray leaves the scene and brings the background's
    /// radiance along its direction.
    Escaped(Radiance),
    /// A surface that absorbs the ray.
    Absorbed,
    /// A surface that scatters the ray: the surface's attenuation, and the
    /// ray that goes on.
    Scattered(Radiance, Ray),
}

/// What `meet` may answer: the pairs of a ray and what it meets.
pub open spec fn answers<Ray, Radiance, M>(meet: M) -> spec_fn(Ray, Encounter<Ray, Radiance>) -> bool where
    M: Fn(&Ray) -> Encounter<Ray, Radiance>,
 {
    |ray: Ray, met: Encounter<Ray, Radiance>| call_ensures(meet, (&ray,), met)
}

/// What `attenuate` may give: the triples of an attenuation, a radiance and
/// the attenuated radiance.
pub open spec fn products<Radiance, A>(attenuate: A) -> spec_fn(Radiance, Radiance, Radiance) -> bool where
    A: Fn(Radiance, Radiance) -> Radiance,
 {
    |attenuation: Radiance, radiance: Radiance, out: Radiance|
        call_ensures(attenuate, (attenuation, radiance), out)
}

/// Whether `out` is a radiance that may arrive along `ray` on a path of at
/// most `depth` encounters, where `meets` relates a ray to what it meets,
/// `attenuates` relates a surface's attenuation and a radiance to the
/// attenuated radiance, and `black` is no light.
pub open spec fn arrives<Ray, Radiance>(
    meets: spec_fn(Ray, Encounter<Ray, Radiance>) -> bool,
    attenuates: spec_fn(Radiance, Radiance, Radiance) -> bool,
    black: Radiance,
    ray: Ray,
    depth: nat,
    out: Radiance,
) -> bool
    decreases depth,
{
    if depth == 0 {
        out == black
    } else {
        exists|met: Encounter<Ray, Radiance>|
            #[trigger] meets(ray, met) && match met {
                Encounter::Escaped(sky) => out == sky,
                Encounter::Absorbed => out == black,
                Encounter::Scattered(attenuation, next) => exists|inner: Radiance|
                    arrives(meets, attenuates, black, next, (depth - 1) as nat, inner)
                        && #[trigger] attenuates(attenuation, inner, out),
            }
    }
}

/// A ray that leaves the scene brings the background's radiance, whatever
/// the depth that is left to it.
pub proof fn lemma_escaped_ray_brings_background<Ray, Radiance>(
    meets: spec_fn(Ray, Encounter<Ray, Radiance>) -> bool,
    attenuates: spec_fn(Radiance, Radiance, Radiance) -> bool,
    black: Radiance,
    ray: Ray,
    depth: nat,
    sky: Radiance,
    out: Radiance,
)
    requires
        depth > 0,
        forall|met: Encounter<Ray, Radiance>| #[trigger]
            meets(ray, met) ==> met == Encounter::<Ray, Radiance>::Escaped(sky),
        arrives(meets, attenuates, black, ray, depth, out),
    ensures
        out == sky,
{
}

/// An absorbed ray brings no light.
pub proof fn lemma_absorbed_ray_brings_black<Ray, Radiance>(
    meets: spec_fn(Ray, Encounter<Ray, Radiance>) -> bool,
    attenuates: spec_fn(Radiance, Radiance, Radiance) -> bool,
    black: Radiance,
    ray: Ray,
    depth: nat,
    out: Radiance,
)
    requires
        forall|met: Encounter<Ray, Radiance>| #[trigger]
            meets(ray, met) ==> met == Encounter::<Ray, Radiance>::Absorbed,
        arrives(meets, attenuates, black, ray, depth, out),
    ensures
        out == black,
{
}

/// The radiance that arrives along `ray` on a path of at most `depth`
/// encounters.
pub fn ray_color<Ray, Radiance, M, A>(
    ray: &Ray,
    depth: u32,
    black: Radiance,
    meet: &M,
    attenuate: &A,
) -> (out: Radiance) where
    M: Fn(&Ray) -> Encounter<Ray, Radiance>,
    A: Fn(Radiance, Radiance) -> Radiance,

    requires
        forall|r: Ray| #[trigger] call_requires(*meet, (&r,)),
        forall|a: Radiance, b: Radiance| #[trigger] call_requires(*attenuate, (a, b)),
    ensures
        arrives(answers(*meet), products(*attenuate), black, *ray, depth as nat, out),
        depth == 0 ==> out == black,
    decreases depth,
{
    if depth == 0 {
        return black;
    }
    let met = meet(ray);
    proof {
        assert(answers(*meet)(*ray, met));
    }
    match met {
        Encounter::Escaped(sky) => sky,
        Encounter::Absorbed => black,
        Encounter::Scattered(attenuation, next) => {
            let inner = ray_color(&next, depth - 1, black, meet, attenuate);
            let out = attenuate(attenuation, inner);
            proof {
                assert(products(*attenuate)(attenuation, inner, out));
            }
            out
        },
    }
}

} // verus!
