//! Keyframed series: a non-empty list of `(frame, value)` pairs whose frames
//! are strictly ascending, optionally tagged with a spring whose expansion
//! replaces the easing between keyframes at lowering time.

use vstd::prelude::*;
use crate::error::AnimationError;
use crate::spring::Spring;

verus! {

/// One keyframe: a value pinned at a frame (in micro-frames).
#[derive(Debug, Clone)]
pub struct Keyframe<T> {
    pub frame: i64,
    pub value: T,
}

impl<T> Keyframe<T> {
    pub fn new(frame: i64, value: T) -> (k: Keyframe<T>)
        ensures
            k.frame == frame,
            k.value == value,
    {
        Keyframe { frame, value }
    }
}

/// Frames strictly increase along the sequence, so they are pairwise unique.
pub open spec fn frames_ascending<T>(ks: Seq<Keyframe<T>>) -> bool {
    forall|i: int, j: int| 0 <= i < j < ks.len() ==> ks[i].frame < ks[j].frame
}

/// Instantiates `frames_ascending` at one index pair.
pub proof fn lemma_ascending_at<T>(ks: Seq<Keyframe<T>>, a: int, b: int)
    requires
        frames_ascending(ks),
        0 <= a < b < ks.len(),
    ensures
        ks[a].frame < ks[b].frame,
{
}

/// Something with keyframes. Must have at least one definition; frames are
/// unique and kept in ascending order.
#[derive(Debug, Clone)]
pub struct Keyframed<T> {
    pub keyframes: Vec<Keyframe<T>>,
    pub spring: Option<Spring>,
}

impl<T> Keyframed<T> {
    /// Every series the library hands out satisfies this: at least one
    /// keyframe, frames strictly ascending.
    pub open spec fn wf(&self) -> bool {
        self.keyframes@.len() > 0 && frames_ascending(self.keyframes@)
    }

    pub fn new(frame: i64, value: T, spring: Option<Spring>) -> (r: Keyframed<T>)
        ensures
            r.wf(),
            r.keyframes@.len() == 1,
            r.keyframes@[0].frame == frame,
            r.keyframes@[0].value == value,
            r.spring == spring,
    {
        let mut keyframes: Vec<Keyframe<T>> = Vec::new();
        keyframes.push(Keyframe { frame, value });
        Keyframed { keyframes, spring }
    }

    pub fn earliest(&self) -> (k: &Keyframe<T>)
        requires
            self.wf(),
        ensures
            *k == self.keyframes@[0],
    {
        &self.keyframes[0]
    }

    pub fn len(&self) -> (n: usize)
        ensures
            n == self.keyframes@.len(),
    {
        self.keyframes.len()
    }

    pub fn is_animated(&self) -> (b: bool)
        ensures
            b == (self.keyframes@.len() > 1),
    {
        self.keyframes.len() > 1
    }

    /// Replaces the keyframe at an already-present frame, or appends a
    /// keyframe later than every present one.
    #[verifier::loop_isolation(false)]
    pub fn push(&mut self, keyframe: Keyframe<T>)
        requires
            old(self).wf(),
            (exists|j: int|
                0 <= j < old(self).keyframes@.len() && old(self).keyframes@[j].frame
                    == keyframe.frame) || keyframe.frame > old(self).keyframes@.last().frame,
        ensures
            final(self).wf(),
            final(self).spring == old(self).spring,
            (forall|j: int|
                0 <= j < old(self).keyframes@.len() ==> old(self).keyframes@[j].frame
                    != keyframe.frame) ==> final(self).keyframes@ == old(self).keyframes@.push(
                keyframe),
            forall|j: int|
                0 <= j < old(self).keyframes@.len() && old(self).keyframes@[j].frame
                    == keyframe.frame ==> final(self).keyframes@ == old(self).keyframes@.update(
                    j,
                    keyframe,
                ),
    {
        let ghost ks = self.keyframes@;
        let mut i: usize = 0;
        while i < self.keyframes.len()
            invariant
                i <= ks.len(),
                ks == self.keyframes@,
                self.spring == old(self).spring,
                forall|j: int| 0 <= j < i ==> ks[j].frame != keyframe.frame,
            decreases ks.len() - i,
        {
            if self.keyframes[i].frame == keyframe.frame {
                self.keyframes.set(i, keyframe);
                proof {
                    let new_ks = self.keyframes@;
                    assert(new_ks == ks.update(i as int, keyframe));
                    assert forall|a: int, b: int|
                        0 <= a < b < new_ks.len() implies new_ks[a].frame < new_ks[b].frame by {
                        lemma_ascending_at(ks, a, b);
                        assert(new_ks[a] == if a == i as int {
                            keyframe
                        } else {
                            ks[a]
                        });
                        assert(new_ks[b] == if b == i as int {
                            keyframe
                        } else {
                            ks[b]
                        });
                    }
                    assert(ks[i as int].frame == keyframe.frame);
                    assert forall|j: int|
                        0 <= j < ks.len() && ks[j].frame == keyframe.frame implies new_ks
                        == ks.update(j, keyframe) by {
                        if j < i as int {
                            assert(ks[j].frame != keyframe.frame);
                        } else if j > i as int {
                            lemma_ascending_at(ks, i as int, j);
                        }
                    }
                }
                return ;
            }
            i = i + 1;
        }
        self.keyframes.push(keyframe);
        proof {
            assert forall|a: int, b: int|
                0 <= a < b < self.keyframes@.len() implies self.keyframes@[a].frame
                < self.keyframes@[b].frame by {
                if b < ks.len() {
                    lemma_ascending_at(ks, a, b);
                } else {
                    if a < ks.len() - 1 {
                        lemma_ascending_at(ks, a, ks.len() - 1);
                    }
                }
            }
        }
    }
}

/// The pair occurs in the keyframe series.
pub open spec fn pair_in_series<T>(ks: Seq<Keyframe<T>>, p: (i64, T)) -> bool {
    exists|k: int| 0 <= k < ks.len() && (#[trigger] ks[k]).frame == p.0 && ks[k].value == p.1
}

/// Some frame occurs twice among the pairs.
pub open spec fn has_duplicate_frame<T>(pairs: Seq<(i64, T)>) -> bool {
    exists|i: int, j: int| 0 <= i < j < pairs.len() && pairs[i].0 == pairs[j].0
}

impl<T> Keyframed<T> {
    /// Orders the pairs by frame into a series. Fails on an empty list and on
    /// a duplicated frame, naming one duplicated frame.
    #[verifier::loop_isolation(false)]
    #[verifier::rlimit(100)]
    #[verifier::spinoff_prover]
    pub fn try_from_pairs(pairs: Vec<(i64, T)>) -> (r: Result<Keyframed<T>, AnimationError>)
        ensures
            match r {
                Ok(kf) => {
                    &&& !has_duplicate_frame(pairs@)
                    &&& pairs@.len() > 0
                    &&& kf.wf()
                    &&& kf.spring is None
                    &&& kf.keyframes@.len() == pairs@.len()
                    &&& forall|i: int|
                        0 <= i < kf.keyframes@.len() ==> pairs@.contains(
                            (#[trigger] kf.keyframes@[i].frame, kf.keyframes@[i].value),
                        )
                    &&& forall|i: int|
                        0 <= i < pairs@.len() ==> pair_in_series(
                            kf.keyframes@,
                            #[trigger] pairs@[i],
                        )
                },
                Err(AnimationError::NoKeyframes) => pairs@.len() == 0,
                Err(AnimationError::MultipleValuesForFrame(f)) => {
                    &&& has_duplicate_frame(pairs@)
                    &&& exists|i: int, j: int|
                        0 <= i < j < pairs@.len() && pairs@[i].0 == f && pairs@[j].0 == f
                },
            },
    {
        if pairs.len() == 0 {
            return Err(AnimationError::NoKeyframes);
        }
        // Reject a duplicated frame, naming it.
        let mut i: usize = 0;
        while i < pairs.len()
            invariant
                i <= pairs@.len(),
                forall|a: int, b: int| 0 <= a < b < pairs@.len() && a < i ==> pairs@[a].0 != pairs@[b].0,
            decreases pairs@.len() - i,
        {
            let mut j: usize = i + 1;
            while j < pairs.len()
                invariant
                    i < j <= pairs@.len(),
                    i < pairs@.len(),
                    forall|b: int| i < b < j ==> pairs@[i as int].0 != pairs@[b].0,
                decreases pairs@.len() - j,
            {
                if pairs[i].0 == pairs[j].0 {
                    return Err(AnimationError::MultipleValuesForFrame(pairs[i].0));
                }
                j = j + 1;
            }
            i = i + 1;
        }
        let ghost all = pairs@;
        // Insertion sort: frames are now pairwise distinct.
        let mut rest = pairs;
        let mut sorted: Vec<Keyframe<T>> = Vec::new();
        while rest.len() > 0
            invariant
                rest@ == all.take(rest@.len() as int),
                rest@.len() + sorted@.len() == all.len(),
                forall|a: int, b: int| 0 <= a < b < all.len() ==> all[a].0 != all[b].0,
                frames_ascending(sorted@),
                forall|k: int|
                    0 <= k < sorted@.len() ==> all.skip(rest@.len() as int).contains(
                        (#[trigger] sorted@[k].frame, sorted@[k].value),
                    ),
                forall|i: int|
                    #![trigger all[i]]
                    rest@.len() <= i < all.len() ==> exists|k: int|
                        #![trigger sorted@[k]]
                        0 <= k < sorted@.len() && sorted@[k].frame == all[i].0 && sorted@[k].value
                            == all[i].1,
            decreases rest@.len(),
        {
            let ghost rest_before = rest@;
            let x = match rest.pop() {
                Some(x) => x,
                None => {
                    proof {
                        assert(false);
                    }
                    unreached()
                },
            };
            proof {
                assert(rest@ =~= all.take(rest@.len() as int));
                assert(x == all[rest@.len() as int]);
            }
            let kf = Keyframe { frame: x.0, value: x.1 };
            // Find the insertion point: everything before stays smaller.
            let mut pos: usize = 0;
            while pos < sorted.len() && sorted[pos].frame < kf.frame
                invariant
                    pos <= sorted@.len(),
                    forall|k: int| 0 <= k < pos ==> #[trigger] sorted@[k].frame < kf.frame,
                decreases sorted@.len() - pos,
            {
                pos = pos + 1;
            }
            proof {
                // The frame at the insertion point differs from the inserted
                // one: both come from distinct positions of the input.
                if pos < sorted@.len() {
                    let p = (sorted@[pos as int].frame, sorted@[pos as int].value);
                    assert(all.skip(rest_before.len() as int).contains(p));
                    let w = choose|w: int|
                        0 <= w < all.skip(rest_before.len() as int).len() && all.skip(
                            rest_before.len() as int,
                        )[w] == p;
                    assert(all[w + rest_before.len()] == p);
                    assert(all[rest@.len() as int].0 != p.0);
                }
            }
            let ghost sorted_before = sorted@;
            sorted.insert(pos, kf);
            proof {
                assert(sorted@ == sorted_before.insert(pos as int, kf));
                assert forall|a: int, b: int|
                    0 <= a < b < sorted@.len() implies sorted@[a].frame < sorted@[b].frame by {
                    if a < pos && b == pos {
                    } else if a == pos && b > pos {
                        assert(sorted_before[b - 1].frame > kf.frame || sorted_before[b - 1].frame
                            >= sorted_before[pos as int].frame);
                    }
                }
                assert forall|k: int|
                    0 <= k < sorted@.len() implies all.skip(rest@.len() as int).contains(
                    (#[trigger] sorted@[k].frame, sorted@[k].value),
                ) by {
                    let p = (sorted@[k].frame, sorted@[k].value);
                    if k == pos {
                        assert(all.skip(rest@.len() as int)[0] == all[rest@.len() as int]);
                    } else {
                        let k0 = if k < pos {
                            k
                        } else {
                            k - 1
                        };
                        assert(all.skip(rest_before.len() as int).contains(
                            (sorted_before[k0].frame, sorted_before[k0].value),
                        ));
                        let w = choose|w: int|
                            0 <= w < all.skip(rest_before.len() as int).len() && all.skip(
                                rest_before.len() as int,
                            )[w] == (sorted_before[k0].frame, sorted_before[k0].value);
                        assert(all.skip(rest@.len() as int)[w + 1] == all[w + rest_before.len()]);
                    }
                }
                assert forall|i: int| #![trigger all[i]]
                    rest@.len() <= i < all.len() implies exists|k: int|
                        #![trigger sorted@[k]]
                        0 <= k < sorted@.len() && sorted@[k].frame == all[i].0 && sorted@[k].value
                            == all[i].1 by {
                    if i == rest@.len() {
                        assert(sorted@[pos as int].frame == all[i].0 && sorted@[pos as int].value
                            == all[i].1);
                    } else {
                        let k0 = choose|k0: int|
                            0 <= k0 < sorted_before.len() && sorted_before[k0].frame == all[i].0
                                && sorted_before[k0].value == all[i].1;
                        let k = if k0 < pos {
                            k0
                        } else {
                            k0 + 1
                        };
                        assert(sorted@[k].frame == all[i].0 && sorted@[k].value == all[i].1);
                    }
                }
            }
        }
        proof {
            assert(all.skip(0) =~= all);
        }
        let out = Keyframed { keyframes: sorted, spring: None };
        proof {
            assert forall|i: int| 0 <= i < pairs@.len() implies pair_in_series(
                out.keyframes@,
                #[trigger] pairs@[i],
            ) by {
                assert(rest@.len() == 0);
                assert(all[i] == pairs@[i]);
                assert(exists|k: int|
                    #![trigger sorted@[k]]
                    0 <= k < sorted@.len() && sorted@[k].frame == all[i].0 && sorted@[k].value
                        == all[i].1);
                let k = choose|k: int|
                    #![trigger sorted@[k]]
                    0 <= k < sorted@.len() && sorted@[k].frame == all[i].0 && sorted@[k].value
                        == all[i].1;
                assert(0 <= k < out.keyframes@.len() && out.keyframes@[k].frame == pairs@[i].0
                    && out.keyframes@[k].value == pairs@[i].1);
                assert(pair_in_series(out.keyframes@, pairs@[i]));
            }
        }
        Ok(out)
    }
}

} // verus!
