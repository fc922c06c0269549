//! The search for the nearest intersection along a ray.
//!
//! A distance along a ray enters this module as its code: an integer that
//! grows with the distance, so that two codes compare as the distances they
//! stand for. The caller computes the distances and converts them.

use vstd::prelude::*;

verus! {

/// An open interval of distances: a hit counts only strictly between the
/// two bounds.
#[derive(Debug, Clone, Copy, PartialEq, Eq, Structural)]
pub struct Interval {
    pub min: u32,
    pub max: u32,
}

impl Interval {
    /// Whether `t` lies strictly inside the interval.
    pub open spec fn holds(&self, t: u32) -> bool {
        self.min < t && t < self.max
    }

    #[verifier::when_used_as_spec(holds)]
    pub fn contains(&self, t: u32) -> (inside: bool)
        ensures
            inside == self.holds(t),
    {
        self.min < t && t < self.max
    }

    /// The interval that is left open once a surface has answered `hit`: a
    /// hit inside the interval becomes its new far end, any other answer
    /// leaves it as it is.
    pub open spec fn shortened(&self, hit: Option<u32>) -> Interval {
        match hit {
            Some(t) if self.holds(t) => Interval { min: self.min, max: t },
            _ => *self,
        }
    }
}

/// Whether the `j`-th surface reported a hit, and one that lies inside `range`.
pub open spec fn hit_in(range: Interval, hits: Seq<Option<u32>>, j: int) -> bool {
    0 <= j < hits.len() && hits[j] is Some && range.holds(hits[j].unwrap())
}

/// Whether surface `i` holds the nearest hit inside `range`: no surface is
/// hit nearer, and of several surfaces hit at the same distance it is the
/// first.
pub open spec fn is_nearest(range: Interval, hits: Seq<Option<u32>>, i: int) -> bool {
    &&& hit_in(range, hits, i)
    &&& forall|j: int| #[trigger] hit_in(range, hits, j) ==> hits[i].unwrap() <= hits[j].unwrap()
    &&& forall|j: int| j < i && #[trigger] hit_in(range, hits, j) ==> hits[i].unwrap() < hits[j].unwrap()
}

/// The interval that is left open after the surfaces have given the
/// answers `hits`, each about the interval left open by those before it.
pub open spec fn open_after(range: Interval, hits: Seq<Option<u32>>) -> Interval
    decreases hits.len(),
{
    if hits.len() == 0 {
        range
    } else {
        open_after(range, hits.drop_last()).shortened(hits.last())
    }
}

/// What a surface answers about an interval that ends at `bound`, if
/// `whole` is its answer about a longer one and the surface has the same
/// hit in both wherever that hit lies inside both.
pub open spec fn cut_at(whole: Option<u32>, bound: u32) -> Option<u32> {
    match whole {
        Some(t) if t < bound => Some(t),
        _ => None,
    }
}

/// Whether an earlier surface answered with a hit that is no farther than
/// the hit that surface `j` has in the whole interval.
spec fn behind_earlier(range: Interval, whole: Seq<Option<u32>>, hits: Seq<Option<u32>>, j: int) -> bool {
    exists|k: int| k < j && #[trigger] hit_in(range, hits, k) && hits[k].unwrap() <= whole[j].unwrap()
}

/// At most one surface holds the nearest hit.
pub proof fn lemma_nearest_is_unique(range: Interval, hits: Seq<Option<u32>>, i: int, j: int)
    requires
        is_nearest(range, hits, i),
        is_nearest(range, hits, j),
    ensures
        i == j,
{
    assert(hit_in(range, hits, i));
    assert(hit_in(range, hits, j));
}

/// The interval left open begins where the search began. It ends where the
/// search began to end if no answer was a hit inside, and else at such a
/// hit, which no other such hit undercuts.
pub proof fn lemma_open_after(range: Interval, hits: Seq<Option<u32>>)
    ensures
        open_after(range, hits).min == range.min,
        open_after(range, hits).max <= range.max,
        forall|j: int| #[trigger] hit_in(range, hits, j) ==> open_after(range, hits).max <= hits[j].unwrap(),
        open_after(range, hits).max == range.max || exists|k: int|
            #[trigger] hit_in(range, hits, k) && hits[k] == Some(open_after(range, hits).max),
    decreases hits.len(),
{
    if hits.len() > 0 {
        let before = hits.drop_last();
        let open = open_after(range, before);
        lemma_open_after(range, before);
        let shorter = open_after(range, hits);
        assert forall|j: int| #[trigger] hit_in(range, hits, j) implies shorter.max <= hits[j].unwrap() by {
            if j < before.len() {
                assert(hit_in(range, before, j));
            }
        }
        if shorter.max != range.max {
            if shorter != open {
                assert(hit_in(range, hits, hits.len() - 1));
            } else {
                let k = choose|k: int| #[trigger] hit_in(range, before, k) && before[k] == Some(open.max);
                assert(hit_in(range, hits, k));
            }
        }
    }
}

/// Shortening the interval at every hit finds the nearest hit of the
/// whole interval. Let each surface, asked about the interval left open by
/// the surfaces before it, answer with the hit it has in the whole
/// interval where that hit is still inside, and with none otherwise. Then
/// the surface that holds the nearest of the answers is the surface that
/// holds the nearest hit in the whole interval.
pub proof fn lemma_shortening_finds_nearest(range: Interval, whole: Seq<Option<u32>>, hits: Seq<Option<u32>>, i: int)
    requires
        hits.len() == whole.len(),
        forall|j: int| 0 <= j < hits.len() ==> #[trigger] hits[j] == cut_at(whole[j], open_after(range, hits.take(j)).max),
    ensures
        is_nearest(range, hits, i) <==> is_nearest(range, whole, i),
{
    // An answer that is a hit is the surface's hit in the whole interval.
    assert forall|j: int| #[trigger] hit_in(range, hits, j) implies hit_in(range, whole, j) && whole[j] == hits[j] by {
        assert(hits[j] == cut_at(whole[j], open_after(range, hits.take(j)).max));
    }
    // A hit of the whole interval that was cut away lies at or behind an earlier answer.
    assert forall|j: int| #[trigger] hit_in(range, whole, j) && !hit_in(range, hits, j) implies behind_earlier(
        range,
        whole,
        hits,
        j,
    ) by {
        let before = hits.take(j);
        let bound = open_after(range, before).max;
        lemma_open_after(range, before);
        assert(hits[j] == cut_at(whole[j], bound));
        let k = choose|k: int| #[trigger] hit_in(range, before, k) && before[k] == Some(bound);
        assert(hit_in(range, hits, k) && k < j && hits[k].unwrap() <= whole[j].unwrap());
    }
    if is_nearest(range, hits, i) {
        assert(hit_in(range, hits, i));
        assert forall|j: int| #[trigger] hit_in(range, whole, j) implies {
            &&& whole[i].unwrap() <= whole[j].unwrap()
            &&& j < i ==> whole[i].unwrap() < whole[j].unwrap()
        } by {
            if !hit_in(range, hits, j) {
                assert(behind_earlier(range, whole, hits, j));
            }
        }
    }
    if is_nearest(range, whole, i) {
        assert(hit_in(range, whole, i));
        if !hit_in(range, hits, i) {
            assert(behind_earlier(range, whole, hits, i));
        }
        assert forall|j: int| #[trigger] hit_in(range, hits, j) implies {
            &&& hits[i].unwrap() <= hits[j].unwrap()
            &&& j < i ==> hits[i].unwrap() < hits[j].unwrap()
        } by {
            assert(hit_in(range, whole, j));
        }
    }
}

/// A search through the surfaces of a scene, one after the other, for the
/// hit that is nearest to the ray's origin.
///
/// Each surface is asked about the interval that is still open, which ends
/// at the nearest hit found so far; its answer is then offered to the
/// search.
pub struct Search {
    range: Interval,
    winner: Option<usize>,
    asked: usize,
    first: Ghost<Interval>,
    offered: Ghost<Seq<Option<u32>>>,
}

impl Search {
    #[verifier::type_invariant]
    spec fn sound(self) -> bool {
        &&& self.asked == self.offered@.len()
        &&& self.range == open_after(self.first@, self.offered@)
        &&& match self.winner {
            Some(i) => is_nearest(self.first@, self.offered@, i as int) && self.range.max == self.offered@[i as int].unwrap(),
            None => self.range == self.first@ && forall|j: int| !#[trigger] hit_in(self.first@, self.offered@, j),
        }
    }

    /// The interval that the search began with.
    pub closed spec fn first(&self) -> Interval {
        self.first@
    }

    /// The answers offered so far, in order; `None` stands for a surface
    /// that has no hit in the interval it was asked about.
    pub closed spec fn offered(&self) -> Seq<Option<u32>> {
        self.offered@
    }

    pub closed spec fn spec_range(&self) -> Interval {
        self.range
    }

    pub closed spec fn spec_winner(&self) -> Option<usize> {
        self.winner
    }

    /// A search inside `range`, before any surface was asked.
    pub fn new(range: Interval) -> (search: Search)
        ensures
            search.first() == range,
            search.offered() == Seq::<Option<u32>>::empty(),
            search.range() == range,
            search.winner() is None,
    {
        Search { range, winner: None, asked: 0, first: Ghost(range), offered: Ghost(Seq::empty()) }
    }

    /// The interval that is still open, about which the next surface is to
    /// be asked.
    #[verifier::when_used_as_spec(spec_range)]
    pub fn range(&self) -> (range: Interval)
        ensures
            range == self.range(),
            range == open_after(self.first(), self.offered()),
            range.max == match self.winner() {
                Some(i) => self.offered()[i as int].unwrap(),
                None => self.first().max,
            },
    {
        proof {
            use_type_invariant(self);
        }
        self.range
    }

    /// The surface that holds the nearest hit, by its place in the order of
    /// asking, or `None` if no surface was hit inside the interval.
    #[verifier::when_used_as_spec(spec_winner)]
    pub fn winner(&self) -> (winner: Option<usize>)
        ensures
            winner == self.winner(),
            match winner {
                Some(i) => is_nearest(self.first(), self.offered(), i as int),
                None => forall|j: int| !#[trigger] hit_in(self.first(), self.offered(), j),
            },
    {
        proof {
            use_type_invariant(self);
        }
        self.winner
    }

    /// Takes the answer of the next surface. The answer is accepted, and
    /// `true` returned, if it is a hit inside the interval still open; the
    /// interval then ends at that hit, and the surface is the winner so far.
    pub fn offer(&mut self, hit: Option<u32>) -> (accepted: bool)
        requires
            old(self).offered().len() < usize::MAX,
        ensures
            final(self).first() == old(self).first(),
            final(self).offered() == old(self).offered().push(hit),
            accepted == (hit is Some && old(self).range().holds(hit.unwrap())),
            final(self).range() == old(self).range().shortened(hit),
            final(self).winner() == if accepted {
                Some(old(self).offered().len() as usize)
            } else {
                old(self).winner()
            },
    {
        proof {
            use_type_invariant(&*self);
        }
        let ghost first = self.first@;
        let ghost before = self.offered@;
        let ghost after = before.push(hit);
        let accepted: bool = match hit {
            Some(t) => self.range.contains(t),
            None => false,
        };
        let range: Interval = if accepted {
            Interval { min: self.range.min, max: hit.unwrap() }
        } else {
            self.range
        };
        let winner: Option<usize> = if accepted {
            Some(self.asked)
        } else {
            self.winner
        };
        proof {
            assert(after.drop_last() =~= before);
            lemma_open_after(first, before);
            assert forall|j: int| 0 <= j < before.len() implies hit_in(first, after, j) == hit_in(first, before, j) by {}
            if let Some(i) = winner {
                assert(hit_in(first, after, i as int));
            }
        }
        *self = Search { range, winner, asked: self.asked + 1, first: Ghost(first), offered: Ghost(after) };
        accepted
    }
}

} // verus!
