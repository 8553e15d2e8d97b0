//! The scene: a list of objects, asked one after the other for the nearest
//! hit of a ray.
//!
//! The list knows neither rays nor distances. It hands each object the
//! farthest reach that still counts, and an object that reports a hit
//! narrows the reach for the objects behind it. Where no object reports a
//! hit beyond the reach it was asked with, the hit that is left at the end
//! is the nearest one.

use vstd::prelude::*;

verus! {

/// The objects of a scene, in the order in which they were added.
pub struct HittableList<O> {
    pub hittables: Vec<O>,
}

/// The reach that still counts after the first `n` answers: that of the last
/// hit among them, or `t_max` if none of them is a hit.
pub open spec fn reach_after<H, S>(answers: Seq<Option<(H, S)>>, t_max: S, n: nat) -> S
    decreases n,
{
    if n == 0 {
        t_max
    } else {
        match answers[n - 1] {
            Some((_, at)) => at,
            None => reach_after(answers, t_max, (n - 1) as nat),
        }
    }
}

/// The hit that the first `n` answers leave: the last hit among them.
pub open spec fn hit_after<H, S>(answers: Seq<Option<(H, S)>>, n: nat) -> Option<H>
    decreases n,
{
    if n == 0 {
        None
    } else {
        match answers[n - 1] {
            Some((hit, _)) => Some(hit),
            None => hit_after(answers, (n - 1) as nat),
        }
    }
}

/// Whether `answers` are what the objects may answer, one after the other:
/// each object is asked within the reach that the answers before it leave.
pub open spec fn answers_of<O, H, S, P>(
    probe: P,
    objects: Seq<O>,
    t_max: S,
    answers: Seq<Option<(H, S)>>,
) -> bool where P: Fn(&O, S) -> Option<(H, S)> {
    &&& answers.len() == objects.len()
    &&& forall|i: int|
        0 <= i < objects.len() ==> call_ensures(
            probe,
            (&objects[i], reach_after(answers, t_max, i as nat)),
            #[trigger] answers[i],
        )
}

/// An answer that comes later changes nothing of what the answers before
/// it leave.
proof fn lemma_push_keeps_prefix<H, S>(
    answers: Seq<Option<(H, S)>>,
    answer: Option<(H, S)>,
    t_max: S,
    n: nat,
)
    requires
        n <= answers.len(),
    ensures
        reach_after(answers.push(answer), t_max, n) == reach_after(answers, t_max, n),
        hit_after(answers.push(answer), n) == hit_after(answers, n),
    decreases n,
{
    if n > 0 {
        lemma_push_keeps_prefix(answers, answer, t_max, (n - 1) as nat);
        assert(answers.push(answer)[n - 1] == answers[n - 1]);
    }
}

/// Where no object answers with a hit, the scene gives none.
pub proof fn lemma_no_hit_without_answers<H, S>(answers: Seq<Option<(H, S)>>, n: nat)
    requires
        n <= answers.len(),
        forall|i: int| 0 <= i < n ==> (#[trigger] answers[i]) is None,
    ensures
        hit_after(answers, n) is None,
    decreases n,
{
    if n > 0 {
        lemma_no_hit_without_answers(answers, (n - 1) as nat);
    }
}

/// A hit that the answers leave is one of the answers, and it lies at the
/// reach that the answers leave.
pub proof fn lemma_hit_after_is_an_answer<H, S>(answers: Seq<Option<(H, S)>>, t_max: S, n: nat)
    requires
        n <= answers.len(),
        hit_after(answers, n) is Some,
    ensures
        exists|i: int|
            0 <= i < n && #[trigger] answers[i] == Some(
                (hit_after(answers, n)->0, reach_after(answers, t_max, n)),
            ),
    decreases n,
{
    if n > 0 {
        match answers[n - 1] {
            Some(_) => {
                assert(answers[n - 1] == Some(
                    (hit_after(answers, n)->0, reach_after(answers, t_max, n)),
                ));
            },
            None => {
                lemma_hit_after_is_an_answer(answers, t_max, (n - 1) as nat);
                let i = choose|i: int|
                    0 <= i < n - 1 && #[trigger] answers[i] == Some(
                        (
                            hit_after(answers, (n - 1) as nat)->0,
                            reach_after(answers, t_max, (n - 1) as nat),
                        ),
                    );
                assert(answers[i] == Some(
                    (hit_after(answers, n)->0, reach_after(answers, t_max, n)),
                ));
            },
        }
    }
}

/// The reach never widens: under an order `closer` on reaches in which every
/// hit lies within the reach that its object was asked with, the reach that
/// the first `n` answers leave is as close as the reach that any fewer of
/// them leave.
pub proof fn lemma_reach_narrows<H, S>(
    answers: Seq<Option<(H, S)>>,
    t_max: S,
    closer: spec_fn(S, S) -> bool,
    m: nat,
    n: nat,
)
    requires
        m <= n <= answers.len(),
        forall|a: S| #[trigger] closer(a, a),
        forall|a: S, b: S, c: S| #[trigger] closer(a, b) && #[trigger] closer(b, c) ==> closer(a, c),
        forall|i: int|
            0 <= i < answers.len() ==> match #[trigger] answers[i] {
                Some((_, at)) => closer(at, reach_after(answers, t_max, i as nat)),
                None => true,
            },
    ensures
        closer(reach_after(answers, t_max, n), reach_after(answers, t_max, m)),
    decreases n,
{
    if m < n {
        lemma_reach_narrows(answers, t_max, closer, m, (n - 1) as nat);
        let wider = reach_after(answers, t_max, (n - 1) as nat);
        match answers[n - 1] {
            Some((_, at)) => {
                assert(closer(at, wider));
                assert(closer(wider, reach_after(answers, t_max, m)));
            },
            None => {},
        }
    }
}

/// The scene's hit is the nearest: under an order `closer` on reaches in
/// which every hit lies within the reach that its object was asked with,
/// the reach that all answers leave is as close as the reach of every hit
/// among them.
pub proof fn lemma_closest_hit_is_nearest<H, S>(
    answers: Seq<Option<(H, S)>>,
    t_max: S,
    closer: spec_fn(S, S) -> bool,
    i: int,
)
    requires
        0 <= i < answers.len(),
        answers[i] is Some,
        forall|a: S| #[trigger] closer(a, a),
        forall|a: S, b: S, c: S| #[trigger] closer(a, b) && #[trigger] closer(b, c) ==> closer(a, c),
        forall|j: int|
            0 <= j < answers.len() ==> match #[trigger] answers[j] {
                Some((_, at)) => closer(at, reach_after(answers, t_max, j as nat)),
                None => true,
            },
    ensures
        closer(reach_after(answers, t_max, answers.len()), (answers[i]->0).1),
{
    lemma_reach_narrows(answers, t_max, closer, (i + 1) as nat, answers.len());
    assert(reach_after(answers, t_max, (i + 1) as nat) == (answers[i]->0).1);
}

impl<O> HittableList<O> {
    /// A scene without objects.
    pub fn default() -> (list: Self)
        ensures
            list.hittables@ == Seq::<O>::empty(),
    {
        HittableList { hittables: Vec::new() }
    }

    /// A scene of one object.
    pub fn new(hittable: O) -> (list: Self)
        ensures
            list.hittables@ == seq![hittable],
    {
        let mut hittables: Vec<O> = Vec::new();
        hittables.push(hittable);
        HittableList { hittables }
    }

    /// Adds an object behind those that are there.
    pub fn add(&mut self, hittable: O)
        ensures
            final(self).hittables@ == old(self).hittables@.push(hittable),
    {
        self.hittables.push(hittable);
    }

    /// Removes every object.
    pub fn clear(&mut self)
        ensures
            final(self).hittables@ == Seq::<O>::empty(),
    {
        self.hittables.clear();
    }

    /// The nearest hit among the objects, within the reach `t_max`. Each
    /// object is asked in turn by `probe`, within the reach of the hit found
    /// so far; a hit comes with the reach at which it lies. The result is
    /// the last hit that an object answers with.
    pub fn closest_hit<H, S: Copy, P: Fn(&O, S) -> Option<(H, S)>>(&self, t_max: S, probe: P) -> (best:
        Option<H>)
        requires
            forall|object: O, within: S| #[trigger] call_requires(probe, (&object, within)),
        ensures
            exists|answers: Seq<Option<(H, S)>>| #[trigger]
                answers_of(probe, self.hittables@, t_max, answers) && best == hit_after(
                    answers,
                    answers.len(),
                ),
            self.hittables@.len() == 0 ==> best is None,
    {
        let ghost objects = self.hittables@;
        let ghost mut answers: Seq<Option<(H, S)>> = Seq::empty();
        let mut best: Option<H> = None;
        let mut reach: S = t_max;
        let mut i: usize = 0;
        while i < self.hittables.len()
            invariant
                i <= self.hittables.len(),
                objects == self.hittables@,
                forall|object: O, within: S| #[trigger] call_requires(probe, (&object, within)),
                answers.len() == i,
                forall|j: int|
                    0 <= j < i ==> call_ensures(
                        probe,
                        (&objects[j], reach_after(answers, t_max, j as nat)),
                        #[trigger] answers[j],
                    ),
                best == hit_after(answers, i as nat),
                reach == reach_after(answers, t_max, i as nat),
            decreases self.hittables.len() - i,
        {
            let found = probe(&self.hittables[i], reach);
            proof {
                let earlier = answers;
                answers = answers.push(found);
                lemma_push_keeps_prefix(earlier, found, t_max, i as nat);
                assert forall|j: int| 0 <= j < i + 1 implies call_ensures(
                    probe,
                    (&objects[j], reach_after(answers, t_max, j as nat)),
                    #[trigger] answers[j],
                ) by {
                    lemma_push_keeps_prefix(earlier, found, t_max, j as nat);
                    if j < i {
                        assert(answers[j] == earlier[j]);
                    }
                }
            }
            match found {
                Some((hit, at)) => {
                    best = Some(hit);
                    reach = at;
                },
                None => {},
            }
            i = i + 1;
        }
        proof {
            assert(answers_of(probe, objects, t_max, answers));
        }
        best
    }
}

} // verus!
