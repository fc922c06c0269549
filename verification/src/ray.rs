//! The fate of a light path: how many surfaces it may meet, and where its
//! light comes from in the end.
//!
//! A path starts at the camera with a budget of intersections. At each one
//! it leaves the scene, is absorbed, or is scattered on with one unit less.
//! A path whose budget is used up carries no light.

use vstd::prelude::*;

verus! {

/// What happened when a ray of the path was sent into the scene.
#[derive(Debug, Clone, Copy, PartialEq, Eq, Structural)]
pub enum Bounce {
    /// The ray met no surface.
    Miss,
    /// The ray met a surface whose material did not scatter it.
    Absorbed,
    /// The ray met a surface and was scattered; the path goes on with the scattered ray.
    Scattered,
}

/// Where the light of a finished path comes from. Either is to be
/// multiplied by the attenuation of every scattering on the way.
#[derive(Debug, Clone, Copy, PartialEq, Eq, Structural)]
pub enum Outcome {
    /// No light: the path was absorbed, or its budget ran out.
    Black,
    /// The background, seen along the last ray of the path.
    Background,
}

/// The outcome of a path that may use `depth` intersections and meets
/// `bounces` in this order, or `None` while the path is still under way.
/// Bounces after the end of the path do not count.
pub open spec fn outcome_of(depth: nat, bounces: Seq<Bounce>) -> Option<Outcome>
    decreases depth,
{
    if depth == 0 {
        Some(Outcome::Black)
    } else if bounces.len() == 0 {
        None
    } else {
        match bounces.first() {
            Bounce::Miss => Some(Outcome::Background),
            Bounce::Absorbed => Some(Outcome::Black),
            Bounce::Scattered => outcome_of((depth - 1) as nat, bounces.drop_first()),
        }
    }
}

/// Whether every bounce in `bounces` is a scattering.
pub open spec fn all_scattered(bounces: Seq<Bounce>) -> bool {
    forall|i: int| 0 <= i < bounces.len() ==> #[trigger] bounces[i] == Bounce::Scattered
}

/// A path is under way exactly as long as it has only been scattered, and
/// fewer times than its budget allows.
pub proof fn lemma_under_way(depth: nat, bounces: Seq<Bounce>)
    ensures
        outcome_of(depth, bounces) is None <==> bounces.len() < depth && all_scattered(bounces),
    decreases depth,
{
    if depth > 0 && bounces.len() > 0 {
        let rest = bounces.drop_first();
        lemma_under_way((depth - 1) as nat, rest);
        if all_scattered(bounces) {
            assert forall|i: int| 0 <= i < rest.len() implies #[trigger] rest[i] == Bounce::Scattered by {
                assert(rest[i] == bounces[i + 1]);
            }
        }
        if bounces.first() == Bounce::Scattered && all_scattered(rest) {
            assert forall|i: int| 0 <= i < bounces.len() implies #[trigger] bounces[i] == Bounce::Scattered by {
                if i > 0 {
                    assert(bounces[i] == rest[i - 1]);
                }
            }
        }
    }
}

/// One more bounce of a path under way: a miss shows the background, an
/// absorption ends in black, and a scattering ends in black if it used the
/// last unit of the budget.
pub proof fn lemma_next_bounce(depth: nat, bounces: Seq<Bounce>, bounce: Bounce)
    requires
        outcome_of(depth, bounces) is None,
    ensures
        outcome_of(depth, bounces.push(bounce)) == match bounce {
            Bounce::Miss => Some(Outcome::Background),
            Bounce::Absorbed => Some(Outcome::Black),
            Bounce::Scattered => if bounces.len() + 1 == depth {
                Some(Outcome::Black)
            } else {
                None
            },
        },
    decreases depth,
{
    let longer = bounces.push(bounce);
    if bounces.len() == 0 {
        assert(longer.first() == bounce);
        assert(longer.drop_first() =~= Seq::<Bounce>::empty());
    } else {
        assert(longer.first() == bounces.first());
        assert(longer.drop_first() =~= bounces.drop_first().push(bounce));
        lemma_next_bounce((depth - 1) as nat, bounces.drop_first(), bounce);
    }
}

/// A path that is over stays as it is, whatever is reported after its end.
pub proof fn lemma_over_is_over(depth: nat, bounces: Seq<Bounce>, bounce: Bounce)
    requires
        outcome_of(depth, bounces) is Some,
    ensures
        outcome_of(depth, bounces.push(bounce)) == outcome_of(depth, bounces),
    decreases depth,
{
    let longer = bounces.push(bounce);
    if depth > 0 {
        assert(longer.first() == bounces.first());
        assert(longer.drop_first() =~= bounces.drop_first().push(bounce));
        if bounces.first() == Bounce::Scattered {
            lemma_over_is_over((depth - 1) as nat, bounces.drop_first(), bounce);
        }
    }
}

/// One light path, followed from the camera into the scene.
pub struct Path {
    left: usize,
    end: Option<Outcome>,
    depth: Ghost<nat>,
    bounces: Ghost<Seq<Bounce>>,
}

impl Path {
    #[verifier::type_invariant]
    spec fn sound(self) -> bool {
        &&& self.end == outcome_of(self.depth@, self.bounces@)
        &&& self.left + self.bounces@.len() == self.depth@
    }

    /// The number of intersections that the path was given.
    pub closed spec fn depth(&self) -> nat {
        self.depth@
    }

    /// The bounces of the path so far.
    pub closed spec fn bounces(&self) -> Seq<Bounce> {
        self.bounces@
    }

    pub closed spec fn spec_outcome(&self) -> Option<Outcome> {
        self.end
    }

    /// A path at the camera, with a budget of `depth` intersections.
    pub fn new(depth: usize) -> (path: Path)
        ensures
            path.depth() == depth,
            path.bounces() == Seq::<Bounce>::empty(),
            path.outcome() == outcome_of(depth as nat, Seq::<Bounce>::empty()),
    {
        let end: Option<Outcome> = if depth == 0 {
            Some(Outcome::Black)
        } else {
            None
        };
        Path { left: depth, end, depth: Ghost(depth as nat), bounces: Ghost(Seq::empty()) }
    }

    /// How the path ended, or `None` if another ray is to be sent into the scene.
    #[verifier::when_used_as_spec(spec_outcome)]
    pub fn outcome(&self) -> (outcome: Option<Outcome>)
        ensures
            outcome == self.outcome(),
            outcome == outcome_of(self.depth(), self.bounces()),
            self.bounces().len() <= self.depth(),
    {
        proof {
            use_type_invariant(self);
        }
        self.end
    }

    /// Records what happened to the ray that was sent last, and says how
    /// the path stands after it. Nothing is recorded on a path that is over.
    pub fn record(&mut self, bounce: Bounce) -> (outcome: Option<Outcome>)
        ensures
            final(self).depth() == old(self).depth(),
            final(self).bounces() == if old(self).outcome() is None {
                old(self).bounces().push(bounce)
            } else {
                old(self).bounces()
            },
            final(self).outcome() == outcome,
            outcome == outcome_of(old(self).depth(), old(self).bounces().push(bounce)),
    {
        proof {
            use_type_invariant(&*self);
        }
        let ghost depth = self.depth@;
        let ghost before = self.bounces@;
        match self.end {
            Some(end) => {
                proof {
                    lemma_over_is_over(depth, before, bounce);
                }
                Some(end)
            },
            None => {
                proof {
                    lemma_under_way(depth, before);
                    lemma_next_bounce(depth, before, bounce);
                }
                let left: usize = self.left - 1;
                let end: Option<Outcome> = match bounce {
                    Bounce::Miss => Some(Outcome::Background),
                    Bounce::Absorbed => Some(Outcome::Black),
                    Bounce::Scattered => if left == 0 {
                        Some(Outcome::Black)
                    } else {
                        None
                    },
                };
                *self = Path { left, end, depth: Ghost(depth), bounces: Ghost(before.push(bounce)) };
                end
            },
        }
    }
}

} // verus!
