//! The integrator: a ray is followed from bounce to bounce until it leaves
//! the scene, is absorbed, or reaches the depth limit, and the attenuations
//! along its path are applied to what it ends in.
//!
//! Rays and colours are the caller's; the scene and the product of two
//! colours come in as functions.

use vstd::prelude::*;

verus! {

/// The depth at which a light path is cut off.
pub const MAX_DEPTH: i32 = 50;

/// What the scene did to a ray.
#[derive(Clone, Copy, Debug, PartialEq, Eq, Structural)]
pub enum Encounter {
    /// The ray met no object.
    Miss,
    /// The ray met an object whose material scattered nothing.
    Absorbed,
    /// The ray met an object whose material sent a scattered ray on.
    Scattered,
}

/// What the integrator returns for a ray.
#[derive(Clone, Copy, Debug, PartialEq, Eq, Structural)]
pub enum Step {
    /// Black: the path contributes nothing.
    Black,
    /// The background gradient in the ray's direction.
    Background,
    /// The attenuation times the colour of the scattered ray, which is
    /// traced at the depth given.
    Bounce(i32),
}

/// The rule of the integrator: past the depth limit every ray is black;
/// before it a miss shows the background, an absorbed ray is black and a
/// scattered ray is followed one level deeper.
pub open spec fn step_of(depth: i32, met: Encounter) -> Step {
    if depth >= MAX_DEPTH {
        Step::Black
    } else {
        match met {
            Encounter::Miss => Step::Background,
            Encounter::Absorbed => Step::Black,
            Encounter::Scattered => Step::Bounce((depth + 1) as i32),
        }
    }
}

/// Whether the depth limit is reached, so that the ray is black whatever the
/// scene holds.
pub fn exhausted(depth: i32) -> (cut: bool)
    ensures
        cut <==> depth >= MAX_DEPTH,
        cut ==> forall|met: Encounter| step_of(depth, met) == Step::Black,
{
    depth >= MAX_DEPTH
}

/// Decides a ray at `depth` that met `met`.
pub fn step(depth: i32, met: Encounter) -> (s: Step)
    ensures
        s == step_of(depth, met),
        depth >= MAX_DEPTH ==> s == Step::Black,
        s matches Step::Bounce(next) ==> next == depth + 1 && next <= MAX_DEPTH,
{
    if depth >= MAX_DEPTH {
        Step::Black
    } else {
        match met {
            Encounter::Miss => Step::Background,
            Encounter::Absorbed => Step::Black,
            Encounter::Scattered => Step::Bounce(depth + 1),
        }
    }
}

/// What the scene did to a ray, with what the integrator takes from it.
pub enum Outcome<R, C> {
    /// The ray met no object; `background` is the colour behind it.
    Miss { background: C },
    /// The ray met an object whose material scattered nothing.
    Absorbed,
    /// The ray met an object whose material sent `ray` on, attenuated by
    /// `attenuation`.
    Scattered { attenuation: C, ray: R },
}

impl<R, C> Outcome<R, C> {
    /// The encounter without what it carries.
    pub open spec fn spec_kind(&self) -> Encounter {
        match self {
            Outcome::Miss { .. } => Encounter::Miss,
            Outcome::Absorbed => Encounter::Absorbed,
            Outcome::Scattered { .. } => Encounter::Scattered,
        }
    }

    /// The encounter without what it carries.
    #[verifier::when_used_as_spec(spec_kind)]
    pub fn kind(&self) -> (met: Encounter)
        ensures
            met == self.spec_kind(),
    {
        match self {
            Outcome::Miss { .. } => Encounter::Miss,
            Outcome::Absorbed => Encounter::Absorbed,
            Outcome::Scattered { .. } => Encounter::Scattered,
        }
    }
}

/// Whether `light` is a colour of `ray` at `depth`: `black` from the depth
/// limit on; before it, for something that `meet` may return for the ray,
/// the background on a miss, `black` on absorption, and on scattering what
/// `tint` makes of the attenuation and a colour of the scattered ray one
/// level deeper.
pub open spec fn colored<R, C, M: Fn(&R) -> Outcome<R, C>, T: Fn(C, C) -> C>(
    meet: M,
    tint: T,
    black: C,
    ray: R,
    depth: i32,
    light: C,
) -> bool
    decreases MAX_DEPTH - depth,
{
    if depth >= MAX_DEPTH {
        light == black
    } else {
        exists|met: Outcome<R, C>|
            call_ensures(meet, (&ray,), met) && match met {
                Outcome::Miss { background } => light == background,
                Outcome::Absorbed => light == black,
                Outcome::Scattered { attenuation, ray: next } => exists|inner: C|
                    colored(meet, tint, black, next, (depth + 1) as i32, inner) && call_ensures(
                        tint,
                        (attenuation, inner),
                        light,
                    ),
            }
    }
}

/// The colour that `ray` brings in at recursion depth `depth`.
///
/// From the depth limit on the scene is not asked and the colour is
/// `black`; so a path asks the scene at most once for each level below the
/// limit.
pub fn color<R, C: Copy, M: Fn(&R) -> Outcome<R, C>, T: Fn(C, C) -> C>(
    ray: R,
    depth: i32,
    black: C,
    meet: &M,
    tint: &T,
) -> (light: C)
    requires
        forall|r: R| call_requires(*meet, (&r,)),
        forall|a: C, b: C| call_requires(*tint, (a, b)),
    ensures
        colored(*meet, *tint, black, ray, depth, light),
        depth >= MAX_DEPTH ==> light == black,
    decreases MAX_DEPTH - depth,
{
    if exhausted(depth) {
        return black;
    }
    let met: Outcome<R, C> = meet(&ray);
    let ghost seen = met;
    let light: C = match (step(depth, met.kind()), met) {
        (Step::Background, Outcome::Miss { background }) => background,
        (Step::Bounce(deeper), Outcome::Scattered { attenuation, ray: next }) => {
            let inner: C = color(next, deeper, black, meet, tint);
            tint(attenuation, inner)
        },
        _ => black,
    };
    proof {
        assert(call_ensures(*meet, (&ray,), seen));
    }
    light
}

/// The number of scattered rays that a path follows when it starts at
/// `depth` and its rays meet `met`, one encounter after the other.
pub open spec fn bounces(depth: i32, met: Seq<Encounter>) -> nat
    decreases met.len(),
{
    if met.len() == 0 {
        0
    } else {
        match step_of(depth, met[0]) {
            Step::Bounce(next) => 1 + bounces(next, met.drop_first()),
            _ => 0,
        }
    }
}

/// The depth limit bounds the work on a path: whatever the scene does, a
/// path that starts at `depth` follows no more scattered rays than there are
/// levels left below the limit, and none at or past the limit.
pub proof fn lemma_bounces_bounded(depth: i32, met: Seq<Encounter>)
    ensures
        depth >= MAX_DEPTH ==> bounces(depth, met) == 0,
        depth < MAX_DEPTH ==> bounces(depth, met) <= MAX_DEPTH - depth,
    decreases met.len(),
{
    if met.len() > 0 {
        match step_of(depth, met[0]) {
            Step::Bounce(next) => {
                lemma_bounces_bounded(next, met.drop_first());
            },
            _ => {},
        }
    }
}

} // verus!
