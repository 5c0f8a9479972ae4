//! The order of the scattering step after a supernova.
//!
//! Mass lost at once gives each surviving body its own eccentricity, so neighbours' orbits may
//! cross or come too close to be stable. Right after each sudden death of a host star, the bodies
//! the death left bound are walked in slot order, pair by pair, and the first pair found
//! unsettled is resolved; then the walk starts again. Whether a pair is unsettled, and which of
//! its bodies is heavier, are the orbital model's (floating point); the walk is this module's.

use vstd::prelude::*;

use crate::fate::{BodyFate, BodyState, DestructionCause, FateView, Segment};
use crate::time::UniverseTime;

verus! {

/// Whether the body of `fate` survived the death at `at` bound: it has not ended, and its last
/// segment starts at the death.
pub open spec fn survived_bound<S>(fate: BodyFate<S>, at: UniverseTime) -> bool {
    &&& fate@.ending is None
    &&& fate@.segments.len() > 0
    &&& fate@.segments.last().start@ == at@
}

/// The positions, in slot order, of the bodies of `fates` that the death at `at` left bound.
pub fn survivors<S: Copy>(fates: &Vec<BodyFate<S>>, at: UniverseTime) -> (kept: Vec<usize>)
    ensures
        forall|i: int, j: int| 0 <= i < j < kept.len() ==> kept[i] < kept[j],
        forall|i: int|
            0 <= i < kept.len() ==> #[trigger] kept[i] < fates.len() && survived_bound(
                fates[kept[i] as int],
                at,
            ),
        forall|k: int|
            0 <= k < fates.len() && survived_bound(#[trigger] fates[k], at) ==> kept@.contains(
                k as usize,
            ),
{
    let mut kept: Vec<usize> = Vec::new();
    let mut k: usize = 0;
    while k < fates.len()
        invariant
            0 <= k <= fates.len(),
            forall|i: int, j: int| 0 <= i < j < kept.len() ==> kept[i] < kept[j],
            forall|i: int|
                0 <= i < kept.len() ==> #[trigger] kept[i] < k && survived_bound(
                    fates[kept[i] as int],
                    at,
                ),
            forall|j: int|
                0 <= j < k && survived_bound(#[trigger] fates[j], at) ==> kept@.contains(
                    j as usize,
                ),
        decreases fates.len() - k,
    {
        let fate = &fates[k];
        let keep = match fate.ending() {
            Some(_) => false,
            None => match fate.last_segment() {
                Some(segment) => segment.start.same(&at),
                None => false,
            },
        };
        let ghost before = kept@;
        if keep {
            kept.push(k);
            proof {
                assert(kept@[kept@.len() - 1] == k);
                assert forall|j: int|
                    0 <= j < k + 1 && survived_bound(#[trigger] fates[j], at) implies kept@.contains(
                    j as usize,
                ) by {
                    if j < k {
                        let i = choose|i: int| 0 <= i < before.len() && before[i] == j as usize;
                        assert(kept@[i] == j as usize);
                    }
                }
            }
        }
        k = k + 1;
    }
    kept
}

/// Whether `(i, j)` comes before `(a, b)` in the walk: by the first, then by the second.
pub open spec fn walks_before(i: int, j: int, a: int, b: int) -> bool {
    i < a || (i == a && j < b)
}

/// Whether the pair of survivors `i < j` is unsettled, as `unsettled[i][j]` says.
pub open spec fn pair_unsettled(unsettled: Seq<Vec<bool>>, i: int, j: int) -> bool {
    0 <= i < j < unsettled.len() && j < unsettled[i]@.len() && unsettled[i]@[j]
}

/// Whether the pair of survivors `i < j` is the first unsettled pair of the walk: unsettled, and
/// every pair the walk meets before it settled ([`walks_before`]).
pub open spec fn first_in_walk(unsettled: Seq<Vec<bool>>, i: int, j: int) -> bool {
    &&& pair_unsettled(unsettled, i, j)
    &&& forall|a: int, b: int| walks_before(a, b, i, j) ==> !#[trigger] pair_unsettled(unsettled, a, b)
}

/// The walk goes by the earlier body of each pair, then the later: the first unsettled pair
/// `i < j` of the walk is unsettled, every pair whose earlier body comes before `i` is settled,
/// and so is every pair of `i` with a body before `j`; and there is one first pair.
pub proof fn lemma_the_walk_goes_by_the_earlier_body(unsettled: Seq<Vec<bool>>, i: int, j: int)
    requires
        first_in_walk(unsettled, i, j),
    ensures
        0 <= i < j < unsettled.len() && j < unsettled[i]@.len() && unsettled[i]@[j],
        forall|a: int, b: int|
            0 <= a < b < unsettled.len() && b < unsettled[a]@.len() && (a < i || (a == i && b < j))
                ==> !unsettled[a]@[b],
        forall|c: int, d: int| #[trigger] first_in_walk(unsettled, c, d) ==> c == i && d == j,
{
    assert forall|a: int, b: int|
        0 <= a < b < unsettled.len() && b < unsettled[a]@.len() && (a < i || (a == i && b < j))
            implies !unsettled[a]@[b] by {
        assert(walks_before(a, b, i, j));
        assert(!pair_unsettled(unsettled, a, b));
    }
    assert forall|c: int, d: int| #[trigger] first_in_walk(unsettled, c, d) implies c == i && d
        == j by {
        if walks_before(c, d, i, j) {
            assert(!pair_unsettled(unsettled, c, d));
        } else if walks_before(i, j, c, d) {
            assert(!pair_unsettled(unsettled, i, j));
        }
    }
}

/// The first unsettled pair of the walk over the bodies ([`first_unsettled_pair`]) comes first by
/// its earlier body, then its later: every pair of bound bodies whose earlier body comes before
/// `a`, and every pair of `a` with a body before `b`, was found settled.
pub proof fn lemma_first_unsettled_pair_comes_first<S, U: Fn(Segment<S>, Segment<S>) -> bool>(
    fates: Seq<BodyFate<S>>,
    at: UniverseTime,
    unsettled: U,
    a: int,
    b: int,
)
    requires
        first_unsettled_pair(fates, at, unsettled, a, b),
    ensures
        unsettled.ensures((last_of(fates[a]), last_of(fates[b])), true),
        forall|c: int, d: int|
            0 <= c < d < fates.len() && survived_bound(fates[c], at) && survived_bound(fates[d], at)
                && (c < a || (c == a && d < b)) ==> unsettled.ensures(
                (last_of(fates[c]), last_of(fates[d])),
                false,
            ),
{
    assert forall|c: int, d: int|
        0 <= c < d < fates.len() && survived_bound(fates[c], at) && survived_bound(fates[d], at) && (
        c < a || (c == a && d < b)) implies unsettled.ensures(
        (last_of(fates[c]), last_of(fates[d])),
        false,
    ) by {
        assert(walks_before(c, d, a, b));
    }
}

/// The first unsettled pair of survivors in the walk, as the positions of its heavier and its
/// lighter body, or `None` if every pair is settled.
///
/// `unsettled[i][j]` says whether survivors `i` and `j > i` are too close to be stable, and
/// `second_heavier[i][j]` whether `j` is strictly heavier than `i`: of two bodies of the same
/// mass, the later is taken as the lighter.
pub fn first_unsettled(unsettled: &Vec<Vec<bool>>, second_heavier: &Vec<Vec<bool>>) -> (pair:
    Option<(usize, usize)>)
    ensures
        pair is None ==> forall|i: int, j: int| !pair_unsettled(unsettled@, i, j),
        pair matches Some((heavier, lighter)) ==> exists|i: int, j: int|
            {
                &&& #[trigger] first_in_walk(unsettled@, i, j)
                &&& if i < second_heavier.len() && j < second_heavier[i]@.len()
                    && second_heavier[i]@[j] {
                    heavier == j && lighter == i
                } else {
                    heavier == i && lighter == j
                }
            },
{
    let n = unsettled.len();
    let mut i: usize = 0;
    while i < n
        invariant
            n == unsettled.len(),
            0 <= i <= n,
            forall|a: int, b: int| 0 <= a < i ==> !#[trigger] pair_unsettled(unsettled@, a, b),
        decreases n - i,
    {
        let row = &unsettled[i];
        let mut j: usize = i + 1;
        while j < n && j < row.len()
            invariant
                n == unsettled.len(),
                0 <= i < n,
                row@ == unsettled@[i as int]@,
                i + 1 <= j,
                forall|a: int, b: int| 0 <= a < i ==> !#[trigger] pair_unsettled(unsettled@, a, b),
                forall|b: int| b < j ==> !#[trigger] pair_unsettled(unsettled@, i as int, b),
            decreases n - j,
        {
            if row[j] {
                let heavier_second = i < second_heavier.len() && j < second_heavier[i].len()
                    && second_heavier[i][j];
                proof {
                    assert(pair_unsettled(unsettled@, i as int, j as int));
                    assert forall|a: int, b: int|
                        walks_before(a, b, i as int, j as int) implies !#[trigger] pair_unsettled(
                        unsettled@,
                        a,
                        b,
                    ) by {}
                    assert(first_in_walk(unsettled@, i as int, j as int));
                }
                if heavier_second {
                    return Some((j, i));
                } else {
                    return Some((i, j));
                }
            }
            j = j + 1;
        }
        i = i + 1;
    }
    None
}

/// How many of `fates` the death at `at` left bound.
pub open spec fn bound_after<S>(fates: Seq<BodyFate<S>>, at: UniverseTime) -> nat
    decreases fates.len(),
{
    if fates.len() == 0 {
        0
    } else {
        bound_after(fates.drop_last(), at) + if survived_bound(fates.last(), at) {
            1nat
        } else {
            0nat
        }
    }
}

/// Where no body becomes bound, the count of bound bodies never rises, and it falls where one
/// stops being bound.
proof fn lemma_bound_falls<S>(
    before: Seq<BodyFate<S>>,
    after: Seq<BodyFate<S>>,
    at: UniverseTime,
    lost: int,
)
    requires
        before.len() == after.len(),
        forall|k: int|
            0 <= k < after.len() && survived_bound(#[trigger] after[k], at) ==> survived_bound(
                before[k],
                at,
            ),
    ensures
        bound_after(after, at) <= bound_after(before, at),
        0 <= lost < before.len() && survived_bound(before[lost], at) && !survived_bound(
            after[lost],
            at,
        ) ==> bound_after(after, at) < bound_after(before, at),
    decreases before.len(),
{
    if before.len() > 0 {
        let n = before.len() - 1;
        assert forall|k: int|
            0 <= k < after.drop_last().len() && survived_bound(
                #[trigger] after.drop_last()[k],
                at,
            ) implies survived_bound(before.drop_last()[k], at) by {
            assert(after.drop_last()[k] == after[k]);
            assert(before.drop_last()[k] == before[k]);
        }
        lemma_bound_falls(before.drop_last(), after.drop_last(), at, lost);
        if 0 <= lost < n {
            assert(before.drop_last()[lost] == before[lost]);
            assert(after.drop_last()[lost] == after[lost]);
        }
        assert(survived_bound(after[n], at) ==> survived_bound(before[n], at));
    }
}

/// No more bodies are bound than there are.
proof fn lemma_bound_at_most_all<S>(fates: Seq<BodyFate<S>>, at: UniverseTime)
    ensures
        bound_after(fates, at) <= fates.len(),
    decreases fates.len(),
{
    if fates.len() > 0 {
        lemma_bound_at_most_all(fates.drop_last(), at);
    }
}

/// Where the bodies `a` and `b` differ and are both bound, at least two are.
proof fn lemma_two_bound<S>(fates: Seq<BodyFate<S>>, at: UniverseTime, a: int, b: int)
    requires
        0 <= a < b < fates.len(),
        survived_bound(fates[a], at),
        survived_bound(fates[b], at),
    ensures
        bound_after(fates, at) >= 2,
    decreases fates.len(),
{
    let n = fates.len() - 1;
    if b < n {
        assert(fates.drop_last()[a] == fates[a]);
        assert(fates.drop_last()[b] == fates[b]);
        lemma_two_bound(fates.drop_last(), at, a, b);
    } else {
        assert(fates.drop_last()[a] == fates[a]);
        lemma_one_bound(fates.drop_last(), at, a);
    }
}

/// Where the body `a` is bound, at least one is.
proof fn lemma_one_bound<S>(fates: Seq<BodyFate<S>>, at: UniverseTime, a: int)
    requires
        0 <= a < fates.len(),
        survived_bound(fates[a], at),
    ensures
        bound_after(fates, at) >= 1,
    decreases fates.len(),
{
    if a < fates.len() - 1 {
        assert(fates.drop_last()[a] == fates[a]);
        lemma_one_bound(fates.drop_last(), at, a);
    }
}

/// How the heavier body of a scattered pair ends at the death, where it does.
#[derive(Debug, Clone, Copy, PartialEq, Eq, Hash, Structural)]
pub enum Loss {
    /// Its new orbit carries it inside the remnant's Roche limit.
    Disrupted,
    /// It is no longer bound.
    Unbound,
}

/// What the scattering of an unsettled pair makes of it, as the orbital model finds.
#[derive(Debug, Clone, Copy, PartialEq, Eq, Hash)]
pub struct Scattering<S> {
    /// Whether the heavier body ejects the lighter, which is then unbound; otherwise the lighter
    /// collides with it and merges into it.
    pub ejection: bool,
    /// The heavier body's elements from the death on: its orbit recoiled from the ejection, or
    /// the merged body's.
    pub elements: S,
    /// How the heavier body itself ends at the death, where it does.
    pub loss: Option<Loss>,
}

/// Whether the history `after` is `before` but for its ending and the elements its last segment
/// starts from: the same window, formation, and segments starting when they did.
pub open spec fn same_but_last<S>(after: FateView<S>, before: FateView<S>) -> bool {
    &&& after.window == before.window
    &&& after.formed_at == before.formed_at
    &&& after.segments.len() == before.segments.len()
    &&& after.segments.len() > 0 ==> after.segments.drop_last() == before.segments.drop_last()
        && after.segments.last().start == before.segments.last().start
}

/// The last segment of the body of `fate`.
pub open spec fn last_of<S>(fate: BodyFate<S>) -> Segment<S> {
    fate@.segments.last()
}

/// The state in which scattering at `at` leaves the lighter body of a pair: unbound by an
/// ejection, destroyed by a collision.
pub open spec fn lighter_end(ejection: bool, at: UniverseTime) -> BodyState {
    if ejection {
        BodyState::Unbound { at }
    } else {
        BodyState::Destroyed { cause: DestructionCause::Collided, at }
    }
}

/// The state in which `loss` at `at` leaves the heavier body of a pair.
pub open spec fn heavier_end(loss: Loss, at: UniverseTime) -> BodyState {
    match loss {
        Loss::Disrupted => BodyState::Destroyed { cause: DestructionCause::TidallyDisrupted, at },
        Loss::Unbound => BodyState::Unbound { at },
    }
}

/// The ending `loss` gives the heavier body of a pair at `at`, if any.
pub open spec fn heavier_ending(loss: Option<Loss>, at: UniverseTime) -> Option<BodyState> {
    match loss {
        Some(l) => Some(heavier_end(l, at)),
        None => None,
    }
}

/// Whether `after` is `before` with the pair of the heavier body `h` and the lighter `l`
/// scattered at `at` as `scattering` says: the lighter ends, unbound by an ejection or collided;
/// the heavier's last segment takes the elements the scattering gives, and it ends as its loss
/// says; every other body is as it was.
pub open spec fn scattered_pair<S>(
    before: Seq<BodyFate<S>>,
    after: Seq<BodyFate<S>>,
    h: int,
    l: int,
    at: UniverseTime,
    scattering: Scattering<S>,
) -> bool {
    &&& after.len() == before.len()
    &&& forall|k: int| 0 <= k < after.len() && k != h && k != l ==> #[trigger] after[k] == before[k]
    &&& after[l]@ == (FateView { ending: Some(lighter_end(scattering.ejection, at)), ..before[l]@ })
    &&& after[h]@ == (FateView {
        segments: before[h]@.segments.update(
            before[h]@.segments.len() - 1,
            Segment { start: before[h]@.segments.last().start, elements: scattering.elements },
        ),
        ending: heavier_ending(scattering.loss, at),
        ..before[h]@
    })
}

/// Scatters the unsettled pair of the heavier body `heavier` and the lighter `lighter`, both left
/// bound by the sudden death at `at`, as `outcome` finds: given the heavier's segment, the
/// lighter's, the heavier's position and the ejections it has survived so far, which `recoils`
/// counts. The lighter is unbound by an ejection, or collides with the heavier and is destroyed;
/// the heavier takes the elements the scattering gives it (its recoiled orbit, or the merged
/// body's orbit and mass), and ends where the scattering says it does. Returns the scattering.
pub fn scatter_pair<S: Copy, R>(
    fates: &mut Vec<BodyFate<S>>,
    recoils: &mut Vec<u64>,
    at: UniverseTime,
    heavier: usize,
    lighter: usize,
    outcome: &R,
) -> (scattering: Scattering<S>)
    where
        R: Fn(Segment<S>, Segment<S>, usize, u64) -> Scattering<S>,
    requires
        forall|h: Segment<S>, l: Segment<S>, k: usize, n: u64| outcome.requires((h, l, k, n)),
        heavier < old(fates).len(),
        lighter < old(fates).len(),
        heavier != lighter,
        survived_bound(old(fates)@[heavier as int], at),
        survived_bound(old(fates)@[lighter as int], at),
        old(recoils).len() == old(fates).len(),
        old(recoils)[heavier as int] < u64::MAX,
    ensures
        outcome.ensures(
            (
                last_of(old(fates)@[heavier as int]),
                last_of(old(fates)@[lighter as int]),
                heavier,
                old(recoils)[heavier as int],
            ),
            scattering,
        ),
        scattered_pair(old(fates)@, final(fates)@, heavier as int, lighter as int, at, scattering),
        final(recoils)@ == if scattering.ejection {
            old(recoils)@.update(heavier as int, (old(recoils)[heavier as int] + 1) as u64)
        } else {
            old(recoils)@
        },
{
    let heavy = fates[heavier].last_segment().unwrap();
    let light = fates[lighter].last_segment().unwrap();
    let count = recoils[heavier];
    let scattering = outcome(heavy, light, heavier, count);
    let ghost before = fates@;
    let lighter_state = if scattering.ejection {
        BodyState::Unbound { at }
    } else {
        BodyState::Destroyed { cause: DestructionCause::Collided, at }
    };
    let ended = fates[lighter].end_with(lighter_state);
    assert(ended);
    let settled = fates[heavier].settle(scattering.elements);
    assert(settled);
    if let Some(loss) = scattering.loss {
        let heavier_state = match loss {
            Loss::Disrupted => BodyState::Destroyed { cause: DestructionCause::TidallyDisrupted, at },
            Loss::Unbound => BodyState::Unbound { at },
        };
        let lost = fates[heavier].end_with(heavier_state);
        assert(lost);
    }
    if scattering.ejection {
        recoils.set(heavier, count + 1);
    }
    proof {
        assert(fates@[lighter as int]@ =~~= (FateView {
            ending: Some(lighter_end(scattering.ejection, at)),
            ..before[lighter as int]@
        }));
    }
    scattering
}

/// Whether `heavier` ranks the body `h`, on `heavy`, over the body `l`, on `light`, as the walk
/// asks it of the pair in slot order: a later body is the heavier where it is found strictly
/// heavier than the earlier, and an earlier one where the later is not.
pub open spec fn ranked_heavier<S, H: Fn(Segment<S>, Segment<S>) -> bool>(
    heavier: H,
    h: int,
    l: int,
    heavy: Segment<S>,
    light: Segment<S>,
) -> bool {
    if l < h {
        heavier.ensures((light, heavy), true)
    } else {
        heavier.ensures((heavy, light), false)
    }
}

/// Whether the body `k`, on `fate`, was ended by a scattering at `at` as `outcome` found it: as
/// the lighter of a pair, by `heavier`'s ranking, unbound by an ejection or collided; or as the
/// heavier, on the elements the scattering gave it, lost as it said.
pub open spec fn ended_in_scattering<
    S,
    H: Fn(Segment<S>, Segment<S>) -> bool,
    R: Fn(Segment<S>, Segment<S>, usize, u64) -> Scattering<S>,
>(outcome: R, heavier: H, k: int, fate: BodyFate<S>, at: UniverseTime) -> bool {
    ||| exists|heavy: Segment<S>, h: usize, n: u64, scattering: Scattering<S>|
        #[trigger] outcome.ensures((heavy, last_of(fate), h, n), scattering) && h != k
            && ranked_heavier(heavier, h as int, k, heavy, last_of(fate))
            && fate@.ending == Some(lighter_end(scattering.ejection, at))
    ||| exists|heavy: Segment<S>, light: Segment<S>, n: u64, scattering: Scattering<S>, l: int|
        #![trigger outcome.ensures((heavy, light, k as usize, n), scattering), ranked_heavier(heavier, k, l, heavy, light)]
        outcome.ensures((heavy, light, k as usize, n), scattering) && l != k && ranked_heavier(
            heavier,
            k,
            l,
            heavy,
            light,
        ) && (scattering.loss matches Some(loss) && fate@.ending == Some(heavier_end(loss, at)))
            && last_of(fate).elements == scattering.elements
}

/// Whether `segment` carries the elements a scattering, as `outcome` found it, gave the body `k`
/// as the heavier of a pair it survived, by `heavier`'s ranking.
pub open spec fn took_elements<
    S,
    H: Fn(Segment<S>, Segment<S>) -> bool,
    R: Fn(Segment<S>, Segment<S>, usize, u64) -> Scattering<S>,
>(outcome: R, heavier: H, k: int, segment: Segment<S>) -> bool {
    exists|heavy: Segment<S>, light: Segment<S>, n: u64, scattering: Scattering<S>, l: int|
        #![trigger outcome.ensures((heavy, light, k as usize, n), scattering), ranked_heavier(heavier, k, l, heavy, light)]
        outcome.ensures((heavy, light, k as usize, n), scattering) && l != k && ranked_heavier(
            heavier,
            k,
            l,
            heavy,
            light,
        ) && scattering.loss is None && scattering.elements == segment.elements
}

/// Whether the bodies `a < b` of `fates`, both left bound by the death at `at`, are the first
/// pair of such bodies in the walk, in slot order, that `unsettled` found unsettled: every pair
/// of them the walk meets before was found settled.
pub open spec fn first_unsettled_pair<S, U: Fn(Segment<S>, Segment<S>) -> bool>(
    fates: Seq<BodyFate<S>>,
    at: UniverseTime,
    unsettled: U,
    a: int,
    b: int,
) -> bool {
    &&& 0 <= a < b < fates.len()
    &&& survived_bound(fates[a], at)
    &&& survived_bound(fates[b], at)
    &&& unsettled.ensures((last_of(fates[a]), last_of(fates[b])), true)
    &&& forall|c: int, d: int|
        #![trigger unsettled.ensures((last_of(fates[c]), last_of(fates[d])), false)]
        0 <= c < d < fates.len() && survived_bound(fates[c], at) && survived_bound(fates[d], at)
            && walks_before(c, d, a, b) ==> unsettled.ensures(
            (last_of(fates[c]), last_of(fates[d])),
            false,
        )
}

/// Whether one pass of the scattering step takes the bodies `fates0`, with ejections survived
/// `recoils0`, to `fates1` and `recoils1`: it resolves the first unsettled pair of the walk
/// ([`first_unsettled_pair`]), of the heavier `h` and the lighter `l` as `heavier` ranks them,
/// as `outcome` finds ([`scatter_pair`]).
pub open spec fn pass_at<
    S,
    U: Fn(Segment<S>, Segment<S>) -> bool,
    H: Fn(Segment<S>, Segment<S>) -> bool,
    R: Fn(Segment<S>, Segment<S>, usize, u64) -> Scattering<S>,
>(
    fates0: Seq<BodyFate<S>>,
    recoils0: Seq<u64>,
    fates1: Seq<BodyFate<S>>,
    recoils1: Seq<u64>,
    at: UniverseTime,
    unsettled: U,
    heavier: H,
    outcome: R,
    h: int,
    l: int,
    scattering: Scattering<S>,
) -> bool {
    &&& first_unsettled_pair(fates0, at, unsettled, if h < l { h } else { l }, if h < l { l } else { h })
    &&& ranked_heavier(heavier, h, l, last_of(fates0[h]), last_of(fates0[l]))
    &&& outcome.ensures((last_of(fates0[h]), last_of(fates0[l]), h as usize, recoils0[h]), scattering)
    &&& scattered_pair(fates0, fates1, h, l, at, scattering)
    &&& recoils1 == if scattering.ejection {
        recoils0.update(h, (recoils0[h] + 1) as u64)
    } else {
        recoils0
    }
}

/// Whether the `i`-th pass of the scattering step takes the bodies and ejection counts of the
/// `i`-th state of `trace` to the next state ([`pass_at`]).
pub open spec fn pass_from<
    S,
    U: Fn(Segment<S>, Segment<S>) -> bool,
    H: Fn(Segment<S>, Segment<S>) -> bool,
    R: Fn(Segment<S>, Segment<S>, usize, u64) -> Scattering<S>,
>(
    trace: Seq<(Seq<BodyFate<S>>, Seq<u64>)>,
    i: int,
    at: UniverseTime,
    unsettled: U,
    heavier: H,
    outcome: R,
) -> bool {
    exists|h: int, l: int, scattering: Scattering<S>|
        #[trigger] pass_at(
            trace[i].0,
            trace[i].1,
            trace[i + 1].0,
            trace[i + 1].1,
            at,
            unsettled,
            heavier,
            outcome,
            h,
            l,
            scattering,
        )
}

/// Whether `trace` is a run of the scattering step after the death at `at`: each of its states
/// after the first comes from the one before by a pass that resolves the first unsettled pair
/// of the walk ([`pass_from`]).
pub open spec fn walk_trace<
    S,
    U: Fn(Segment<S>, Segment<S>) -> bool,
    H: Fn(Segment<S>, Segment<S>) -> bool,
    R: Fn(Segment<S>, Segment<S>, usize, u64) -> Scattering<S>,
>(
    trace: Seq<(Seq<BodyFate<S>>, Seq<u64>)>,
    at: UniverseTime,
    unsettled: U,
    heavier: H,
    outcome: R,
) -> bool {
    forall|i: int|
        0 <= i < trace.len() - 1 ==> #[trigger] pass_from(trace, i, at, unsettled, heavier, outcome)
}

/// Whether `passes` passes of the scattering step after the death at `at`, each resolving the
/// first unsettled pair of the walk, take the bodies `fates0`, with ejections survived
/// `recoils0`, to `fates1` and `recoils1` ([`walk_trace`]).
pub open spec fn scattered_in_walk_order<
    S,
    U: Fn(Segment<S>, Segment<S>) -> bool,
    H: Fn(Segment<S>, Segment<S>) -> bool,
    R: Fn(Segment<S>, Segment<S>, usize, u64) -> Scattering<S>,
>(
    fates0: Seq<BodyFate<S>>,
    recoils0: Seq<u64>,
    fates1: Seq<BodyFate<S>>,
    recoils1: Seq<u64>,
    passes: nat,
    at: UniverseTime,
    unsettled: U,
    heavier: H,
    outcome: R,
) -> bool {
    exists|trace: Seq<(Seq<BodyFate<S>>, Seq<u64>)>|
        {
            &&& trace.len() == passes + 1
            &&& trace[0] == (fates0, recoils0)
            &&& trace.last() == (fates1, recoils1)
            &&& #[trigger] walk_trace(trace, at, unsettled, heavier, outcome)
        }
}

/// The first unsettled pair of the walk over the survivors `kept`, as the rows `rows` of
/// `unsettled`'s answers have it at the positions `x < y`, is the first unsettled pair of the
/// bodies themselves.
proof fn lemma_first_pair_of_the_walk<S, U: Fn(Segment<S>, Segment<S>) -> bool>(
    fates: Seq<BodyFate<S>>,
    at: UniverseTime,
    unsettled: U,
    kept: Seq<usize>,
    rows: Seq<Vec<bool>>,
    x: int,
    y: int,
)
    requires
        fates.len() <= usize::MAX,
        forall|i: int, j: int| 0 <= i < j < kept.len() ==> kept[i] < kept[j],
        forall|i: int|
            0 <= i < kept.len() ==> #[trigger] kept[i] < fates.len() && survived_bound(
                fates[kept[i] as int],
                at,
            ),
        forall|k: int|
            0 <= k < fates.len() && survived_bound(#[trigger] fates[k], at) ==> kept.contains(
                k as usize,
            ),
        rows.len() == kept.len(),
        forall|a: int|
            0 <= a < kept.len() ==> (#[trigger] rows[a])@.len() == kept.len() && forall|b: int|
                0 <= b < kept.len() ==> (if a < b {
                    unsettled.ensures(
                        (last_of(fates[kept[a] as int]), last_of(fates[kept[b] as int])),
                        rows[a]@[b],
                    )
                } else {
                    !rows[a]@[b]
                }),
        pair_unsettled(rows, x, y),
        forall|a: int, b: int| walks_before(a, b, x, y) ==> !#[trigger] pair_unsettled(rows, a, b),
    ensures
        first_unsettled_pair(fates, at, unsettled, kept[x] as int, kept[y] as int),
{
    assert(rows[x]@.len() == kept.len());
    assert(kept[x] < kept[y]);
    let (a, b) = (kept[x] as int, kept[y] as int);
    assert forall|c: int, d: int|
        #![trigger unsettled.ensures((last_of(fates[c]), last_of(fates[d])), false)]
        0 <= c < d < fates.len() && survived_bound(fates[c], at) && survived_bound(fates[d], at)
            && walks_before(c, d, a, b) implies unsettled.ensures(
        (last_of(fates[c]), last_of(fates[d])),
        false,
    ) by {
        assert(kept.contains(c as usize));
        assert(kept.contains(d as usize));
        let p = choose|p: int| 0 <= p < kept.len() && kept[p] == c as usize;
        let q = choose|q: int| 0 <= q < kept.len() && kept[q] == d as usize;
        assert(kept[p] as int == c && kept[q] as int == d);
        if q <= p {
            if q < p {
                assert(kept[q] < kept[p]);
            }
            assert(false);
        }
        if p > x {
            assert(kept[x] < kept[p]);
            assert(false);
        }
        if p == x && q >= y {
            if q > y {
                assert(kept[y] < kept[q]);
            }
            assert(false);
        }
        assert(walks_before(p, q, x, y));
        assert(!pair_unsettled(rows, p, q));
        assert(rows[p]@.len() == kept.len());
    }
}

/// Whether `outcome` never loses the heavier body of a pair.
pub open spec fn never_loses<S, R: Fn(Segment<S>, Segment<S>, usize, u64) -> Scattering<S>>(
    outcome: R,
) -> bool {
    forall|heavy: Segment<S>, light: Segment<S>, k: usize, n: u64, scattering: Scattering<S>|
        #[trigger] outcome.ensures((heavy, light, k, n), scattering) ==> scattering.loss is None
}

/// Where one body stops being bound and every other stays as it was, the count of bound bodies
/// falls by one.
proof fn lemma_bound_drops_one<S>(
    before: Seq<BodyFate<S>>,
    after: Seq<BodyFate<S>>,
    at: UniverseTime,
    lost: int,
)
    requires
        before.len() == after.len(),
        0 <= lost < before.len(),
        survived_bound(before[lost], at),
        !survived_bound(after[lost], at),
        forall|k: int|
            0 <= k < after.len() && k != lost ==> (survived_bound(#[trigger] after[k], at)
                == survived_bound(before[k], at)),
    ensures
        bound_after(after, at) + 1 == bound_after(before, at),
    decreases before.len(),
{
    let n = before.len() - 1;
    if lost < n {
        assert forall|k: int|
            0 <= k < after.drop_last().len() && k != lost implies (survived_bound(
                #[trigger] after.drop_last()[k],
                at,
            ) == survived_bound(before.drop_last()[k], at)) by {
            assert(after.drop_last()[k] == after[k]);
            assert(before.drop_last()[k] == before[k]);
        }
        assert(before.drop_last()[lost] == before[lost]);
        assert(after.drop_last()[lost] == after[lost]);
        lemma_bound_drops_one(before.drop_last(), after.drop_last(), at, lost);
        assert(survived_bound(after[n], at) == survived_bound(before[n], at));
    } else {
        lemma_bound_same(before.drop_last(), after.drop_last(), at);
    }
}

/// Where every body is bound just where it was, so many are bound.
proof fn lemma_bound_same<S>(before: Seq<BodyFate<S>>, after: Seq<BodyFate<S>>, at: UniverseTime)
    requires
        before.len() == after.len(),
        forall|k: int|
            0 <= k < after.len() ==> (survived_bound(#[trigger] after[k], at) == survived_bound(
                before[k],
                at,
            )),
    ensures
        bound_after(after, at) == bound_after(before, at),
    decreases before.len(),
{
    if before.len() > 0 {
        assert forall|k: int| 0 <= k < after.drop_last().len() implies (survived_bound(
            #[trigger] after.drop_last()[k],
            at,
        ) == survived_bound(before.drop_last()[k], at)) by {
            assert(after.drop_last()[k] == after[k]);
            assert(before.drop_last()[k] == before[k]);
        }
        lemma_bound_same(before.drop_last(), after.drop_last(), at);
    }
}

/// Resolves every unsettled pair among the bodies of `fates`, one host's in slot order, that the
/// sudden death at `at` left bound, and returns the passes it took.
///
/// Each pass walks the bodies still bound pair by pair, and resolves the first pair that
/// `unsettled` finds too close to be stable: `heavier` says whether the second of a pair is
/// strictly heavier (of two of the same mass, the later is the lighter), and `outcome` what the
/// scattering makes of the pair, given the heavier's segment, the lighter's, the heavier's
/// position and the ejections it has survived so far, which `recoils` counts. The lighter is
/// unbound by an ejection and destroyed by a collision; the heavier takes the elements the
/// scattering gives it, and ends as it says ([`scatter_pair`]). Each pass ends the lighter body,
/// so there are at most n − 1 passes for n bodies left bound, and as many passes as bodies
/// removed wherever no scattering loses its heavier body too. The passes, in order, are
/// [`scattered_in_walk_order`], and they end with every pair [`settled`]: where the models answer
/// alike, that fixes the outcome ([`lemma_scatter_is_fixed_by_its_models`]).
pub fn scatter<S: Copy, U, H, R>(
    fates: &mut Vec<BodyFate<S>>,
    recoils: &mut Vec<u64>,
    at: UniverseTime,
    unsettled: U,
    heavier: H,
    outcome: R,
) -> (passes: usize)
    where
        U: Fn(Segment<S>, Segment<S>) -> bool,
        H: Fn(Segment<S>, Segment<S>) -> bool,
        R: Fn(Segment<S>, Segment<S>, usize, u64) -> Scattering<S>,
    requires
        forall|a: Segment<S>, b: Segment<S>| unsettled.requires((a, b)),
        forall|a: Segment<S>, b: Segment<S>| heavier.requires((a, b)),
        forall|h: Segment<S>, l: Segment<S>, k: usize, n: u64| outcome.requires((h, l, k, n)),
        old(recoils).len() == old(fates).len(),
        forall|k: int| 0 <= k < old(recoils).len() ==> old(recoils)[k] + old(fates).len() <= u64::MAX,
    ensures
        final(fates).len() == old(fates).len(),
        final(recoils).len() == old(recoils).len(),
        passes + bound_after(final(fates)@, at) <= bound_after(old(fates)@, at),
        passes > 0 ==> passes + 1 <= bound_after(old(fates)@, at),
        settled(final(fates)@, at, unsettled),
        forall|k: int|
            0 <= k < final(fates).len() && !survived_bound(old(fates)@[k], at)
                ==> #[trigger] final(fates)@[k] == old(fates)@[k],
        forall|k: int|
            0 <= k < final(fates).len() && survived_bound(#[trigger] final(fates)@[k], at)
                ==> survived_bound(old(fates)@[k], at),
        forall|k: int|
            0 <= k < final(fates).len() && survived_bound(old(fates)@[k], at) && !survived_bound(
                #[trigger] final(fates)@[k],
                at,
            ) ==> ended_in_scattering(outcome, heavier, k, final(fates)@[k], at),
        forall|k: int|
            0 <= k < final(fates).len() && survived_bound(#[trigger] final(fates)@[k], at)
                ==> last_of(final(fates)@[k]) == last_of(old(fates)@[k]) || took_elements(
                outcome,
                heavier,
                k,
                last_of(final(fates)@[k]),
            ),
        never_loses(outcome) ==> passes + bound_after(final(fates)@, at) == bound_after(
            old(fates)@,
            at,
        ),
        forall|k: int|
            0 <= k < final(fates).len() ==> same_but_last(
                (#[trigger] final(fates)@[k])@,
                old(fates)@[k]@,
            ),        scattered_in_walk_order(
            old(fates)@,
            old(recoils)@,
            final(fates)@,
            final(recoils)@,
            passes as nat,
            at,
            unsettled,
            heavier,
            outcome,
        ),
{
    let ghost start = fates@;
    let ghost counts = recoils@;
    let mut passes: usize = 0;
    let ghost mut trace: Seq<(Seq<BodyFate<S>>, Seq<u64>)> = seq![(start, counts)];
    loop
        invariant
            start == old(fates)@,
            counts == old(recoils)@,
            fates.len() == start.len(),
            recoils.len() == start.len(),
            counts.len() == start.len(),
            forall|a: Segment<S>, b: Segment<S>| unsettled.requires((a, b)),
            forall|a: Segment<S>, b: Segment<S>| heavier.requires((a, b)),
            forall|h: Segment<S>, l: Segment<S>, k: usize, n: u64| outcome.requires((h, l, k, n)),
            forall|k: int| 0 <= k < counts.len() ==> counts[k] + start.len() <= u64::MAX,
            passes <= start.len(),
            forall|k: int| 0 <= k < recoils.len() ==> recoils[k] <= counts[k] + passes,
            passes + bound_after(fates@, at) <= bound_after(start, at),
            passes > 0 ==> passes + 1 <= bound_after(start, at),
            forall|k: int|
                0 <= k < fates.len() && !survived_bound(start[k], at) ==> #[trigger] fates@[k]
                    == start[k],
            forall|k: int|
                0 <= k < fates.len() && survived_bound(#[trigger] fates@[k], at) ==> survived_bound(
                    start[k],
                    at,
                ),
            forall|k: int|
                0 <= k < fates.len() && survived_bound(start[k], at) && !survived_bound(
                    #[trigger] fates@[k],
                    at,
                ) ==> ended_in_scattering(outcome, heavier, k, fates@[k], at),
            forall|k: int|
                0 <= k < fates.len() && survived_bound(#[trigger] fates@[k], at) ==> last_of(
                    fates@[k],
                ) == last_of(start[k]) || took_elements(outcome, heavier, k, last_of(fates@[k])),
            never_loses(outcome) ==> passes + bound_after(fates@, at) == bound_after(start, at),
            forall|k: int| 0 <= k < fates.len() ==> same_but_last((#[trigger] fates@[k])@, start[k]@),
            trace.len() == passes + 1,
            trace[0] == (start, counts),
            trace.last() == (fates@, recoils@),
            walk_trace(trace, at, unsettled, heavier, outcome),
        decreases bound_after(fates@, at),
    {
        let kept = survivors(fates, at);
        let n = kept.len();
        let mut rows: Vec<Vec<bool>> = Vec::new();
        let mut heavy_rows: Vec<Vec<bool>> = Vec::new();
        let mut i: usize = 0;
        while i < n
            invariant
                n == kept.len(),
                0 <= i <= n,
                rows.len() == i,
                forall|a: Segment<S>, b: Segment<S>| unsettled.requires((a, b)),
                forall|a: Segment<S>, b: Segment<S>| heavier.requires((a, b)),
                forall|x: int| 0 <= x < n ==> #[trigger] kept[x] < fates.len() && survived_bound(
                    fates@[kept[x] as int],
                    at,
                ),
                heavy_rows.len() == i,
                forall|a: int|
                    0 <= a < i ==> (#[trigger] heavy_rows[a])@.len() == n && forall|b: int|
                        0 <= b < n && a < b ==> heavier.ensures(
                            (last_of(fates@[kept[a] as int]), last_of(fates@[kept[b] as int])),
                            heavy_rows[a]@[b],
                        ),
                forall|a: int|
                    0 <= a < i ==> (#[trigger] rows[a])@.len() == n && forall|b: int|
                        0 <= b < n ==> (if a < b {
                            unsettled.ensures(
                                (last_of(fates@[kept[a] as int]), last_of(fates@[kept[b] as int])),
                                rows[a]@[b],
                            )
                        } else {
                            !rows[a]@[b]
                        }),
            decreases n - i,
        {
            let first = fates[kept[i]].last_segment().unwrap();
            let mut row: Vec<bool> = Vec::new();
            let mut heavy_row: Vec<bool> = Vec::new();
            let mut j: usize = 0;
            while j < n
                invariant
                    n == kept.len(),
                    0 <= i < n,
                    0 <= j <= n,
                    row.len() == j,
                    heavy_row.len() == j,
                    first == last_of(fates@[kept[i as int] as int]),
                    forall|b: int|
                        0 <= b < j && i < b ==> heavier.ensures(
                            (first, last_of(fates@[kept[b] as int])),
                            #[trigger] heavy_row@[b],
                        ),
                    forall|a: Segment<S>, b: Segment<S>| unsettled.requires((a, b)),
                    forall|a: Segment<S>, b: Segment<S>| heavier.requires((a, b)),
                    forall|x: int| 0 <= x < n ==> #[trigger] kept[x] < fates.len() && survived_bound(
                        fates@[kept[x] as int],
                        at,
                    ),
                    forall|b: int|
                        0 <= b < j ==> (if i < b {
                            unsettled.ensures(
                                (first, last_of(fates@[kept[b] as int])),
                                #[trigger] row@[b],
                            )
                        } else {
                            !row@[b]
                        }),
                decreases n - j,
            {
                if i < j {
                    let second = fates[kept[j]].last_segment().unwrap();
                    let close = unsettled(first, second);
                    row.push(close);
                    heavy_row.push(heavier(first, second));
                } else {
                    row.push(false);
                    heavy_row.push(false);
                }
                j = j + 1;
            }
            rows.push(row);
            heavy_rows.push(heavy_row);
            i = i + 1;
        }
        match first_unsettled(&rows, &heavy_rows) {
            None => {
                proof {
                    assert forall|a: int, b: int|
                        0 <= a < b < fates.len() && survived_bound(#[trigger] fates@[a], at)
                            && survived_bound(#[trigger] fates@[b], at) implies unsettled.ensures(
                        (last_of(fates@[a]), last_of(fates@[b])),
                        false,
                    ) by {
                        assert(kept@.contains(a as usize));
                        assert(kept@.contains(b as usize));
                        let x = choose|x: int| 0 <= x < kept.len() && kept[x] == a as usize;
                        let y = choose|y: int| 0 <= y < kept.len() && kept[y] == b as usize;
                        if y <= x {
                            if y < x {
                                assert(kept[y] < kept[x]);
                            }
                        }
                        assert(x < y);
                        assert(!pair_unsettled(rows@, x, y));
                        assert(rows@[x]@.len() == n);
                    }
                }
                proof {
                    assert(scattered_in_walk_order(
                        start,
                        counts,
                        fates@,
                        recoils@,
                        passes as nat,
                        at,
                        unsettled,
                        heavier,
                        outcome,
                    ));
                }
                return passes;
            },
            Some((h, l)) => {
                let kh = kept[h];
                let kl = kept[l];
                proof {
                    assert(h < n && l < n && h != l);
                    assert(kh != kl) by {
                        if h < l {
                            assert(kept[h as int] < kept[l as int]);
                        } else {
                            assert(kept[l as int] < kept[h as int]);
                        }
                    }
                    if kh < kl {
                        lemma_two_bound(fates@, at, kh as int, kl as int);
                    } else {
                        lemma_two_bound(fates@, at, kl as int, kh as int);
                    }
                }
                proof {
                    lemma_bound_at_most_all(start, at);
                }
                let count = recoils[kh];
                proof {
                    assert(count <= counts[kh as int] + passes);
                    assert(passes + 2 <= start.len());
                    assert(counts[kh as int] + start.len() <= u64::MAX);
                }
                proof {
                    let (x, y) = choose|x: int, y: int|
                        first_in_walk(rows@, x, y) && if x < heavy_rows.len() && y
                            < heavy_rows[x]@.len() && heavy_rows[x]@[y] {
                            h == y && l == x
                        } else {
                            h == x && l == y
                        };
                    assert(heavy_rows[x]@.len() == n);
                    assert(kept[x] < kept[y]);
                    assert(heavier.ensures(
                        (last_of(fates@[kept[x] as int]), last_of(fates@[kept[y] as int])),
                        heavy_rows[x]@[y],
                    ));
                    assert(ranked_heavier(
                        heavier,
                        kh as int,
                        kl as int,
                        last_of(fates@[kh as int]),
                        last_of(fates@[kl as int]),
                    ));
                    lemma_first_pair_of_the_walk(
                        fates@,
                        at,
                        unsettled,
                        kept@,
                        rows@,
                        x,
                        y,
                    );
                }
                let ghost before = fates@;
                let ghost before_recoils = recoils@;
                let scattering = scatter_pair(fates, recoils, at, kh, kl, &outcome);
                proof {
                    let heavy = last_of(before[kh as int]);
                    let light = last_of(before[kl as int]);
                    assert(outcome.ensures((heavy, light, kh, count), scattering));
                    assert(ranked_heavier(heavier, kh as int, kl as int, heavy, light));
                    assert forall|k: int|
                        0 <= k < fates.len() implies same_but_last(
                        (#[trigger] fates@[k])@,
                        start[k]@,
                    ) by {
                        if k == kh as int {
                            assert(fates@[k]@.segments.drop_last() =~= before[k]@.segments.drop_last());
                        }
                    }
                    assert forall|k: int|
                        0 <= k < fates.len() && survived_bound(#[trigger] fates@[k], at)
                            implies survived_bound(before[k], at) by {
                        if k != kh as int && k != kl as int {
                            assert(fates@[k] == before[k]);
                        }
                    }
                    assert(last_of(fates@[kl as int]) == light);
                    assert(ended_in_scattering(outcome, heavier, kl as int, fates@[kl as int], at));
                    if scattering.loss is Some {
                        assert(ended_in_scattering(outcome, heavier, kh as int, fates@[kh as int], at));
                    } else {
                        assert(survived_bound(fates@[kh as int], at));
                        assert(took_elements(outcome, heavier, kh as int, last_of(fates@[kh as int])));
                    }
                    assert forall|k: int|
                        0 <= k < fates.len() && survived_bound(start[k], at) && !survived_bound(
                            #[trigger] fates@[k],
                            at,
                        ) implies ended_in_scattering(outcome, heavier, k, fates@[k], at) by {
                        if k != kh as int && k != kl as int {
                            assert(fates@[k] == before[k]);
                        }
                    }
                    assert forall|k: int|
                        0 <= k < fates.len() && survived_bound(#[trigger] fates@[k], at) implies last_of(
                            fates@[k],
                        ) == last_of(start[k]) || took_elements(outcome, heavier, k, last_of(fates@[k])) by {
                        if k != kh as int && k != kl as int {
                            assert(fates@[k] == before[k]);
                        }
                    }
                    lemma_bound_falls(before, fates@, at, kl as int);
                    assert(pass_at(
                        before,
                        before_recoils,
                        fates@,
                        recoils@,
                        at,
                        unsettled,
                        heavier,
                        outcome,
                        kh as int,
                        kl as int,
                        scattering,
                    ));
                    if never_loses(outcome) {
                        assert(survived_bound(fates@[kh as int], at));
                        lemma_bound_drops_one(before, fates@, at, kl as int);
                    }
                    let old_trace = trace;
                    trace = trace.push((fates@, recoils@));
                    assert(pass_at(
                        trace[passes as int].0,
                        trace[passes as int].1,
                        trace[passes + 1].0,
                        trace[passes + 1].1,
                        at,
                        unsettled,
                        heavier,
                        outcome,
                        kh as int,
                        kl as int,
                        scattering,
                    ));
                    assert forall|i: int|
                        0 <= i < trace.len() - 1 implies #[trigger] pass_from(
                        trace,
                        i,
                        at,
                        unsettled,
                        heavier,
                        outcome,
                    ) by {
                        if i < passes {
                            assert(pass_from(old_trace, i, at, unsettled, heavier, outcome));
                            assert(trace[i] == old_trace[i] && trace[i + 1] == old_trace[i + 1]);
                        }
                    }
                }
                passes = passes + 1;
            },
        }
    }
}

/// Whether `unsettled` answers alike for the same two segments.
pub open spec fn unsettled_alike<S, U: Fn(Segment<S>, Segment<S>) -> bool>(unsettled: U) -> bool {
    forall|a: Segment<S>, b: Segment<S>, r1: bool, r2: bool|
        #![trigger unsettled.ensures((a, b), r1), unsettled.ensures((a, b), r2)]
        unsettled.ensures((a, b), r1) && unsettled.ensures((a, b), r2) ==> r1 == r2
}

/// Whether `heavier` answers alike for the same two segments.
pub open spec fn heavier_alike<S, H: Fn(Segment<S>, Segment<S>) -> bool>(heavier: H) -> bool {
    forall|a: Segment<S>, b: Segment<S>, r1: bool, r2: bool|
        #![trigger heavier.ensures((a, b), r1), heavier.ensures((a, b), r2)]
        heavier.ensures((a, b), r1) && heavier.ensures((a, b), r2) ==> r1 == r2
}

/// Whether `outcome` answers alike for the same arguments.
pub open spec fn outcome_alike<S, R: Fn(Segment<S>, Segment<S>, usize, u64) -> Scattering<S>>(
    outcome: R,
) -> bool {
    forall|h: Segment<S>, l: Segment<S>, k: usize, n: u64, s1: Scattering<S>, s2: Scattering<S>|
        #![trigger outcome.ensures((h, l, k, n), s1), outcome.ensures((h, l, k, n), s2)]
        outcome.ensures((h, l, k, n), s1) && outcome.ensures((h, l, k, n), s2) ==> s1 == s2
}

/// Whether no two bodies of `fates` that the death at `at` left bound are unsettled, as
/// `unsettled` finds them.
pub open spec fn settled<S, U: Fn(Segment<S>, Segment<S>) -> bool>(
    fates: Seq<BodyFate<S>>,
    at: UniverseTime,
    unsettled: U,
) -> bool {
    forall|a: int, b: int|
        0 <= a < b < fates.len() && survived_bound(#[trigger] fates[a], at) && survived_bound(
            #[trigger] fates[b],
            at,
        ) ==> unsettled.ensures((last_of(fates[a]), last_of(fates[b])), false)
}

/// Whether two states of the bodies and their ejection counts have the same histories and
/// counts.
pub open spec fn same_state<S>(
    x: (Seq<BodyFate<S>>, Seq<u64>),
    y: (Seq<BodyFate<S>>, Seq<u64>),
) -> bool {
    &&& x.0.len() == y.0.len()
    &&& forall|k: int| 0 <= k < x.0.len() ==> (#[trigger] x.0[k])@ == y.0[k]@
    &&& x.1 == y.1
}

/// Where the models answer alike, a pass from one state and a pass from a state with the same
/// histories and counts reach states with the same histories and counts.
proof fn lemma_pass_unique<
    S,
    U: Fn(Segment<S>, Segment<S>) -> bool,
    H: Fn(Segment<S>, Segment<S>) -> bool,
    R: Fn(Segment<S>, Segment<S>, usize, u64) -> Scattering<S>,
>(
    x0: (Seq<BodyFate<S>>, Seq<u64>),
    x1: (Seq<BodyFate<S>>, Seq<u64>),
    y0: (Seq<BodyFate<S>>, Seq<u64>),
    y1: (Seq<BodyFate<S>>, Seq<u64>),
    at: UniverseTime,
    unsettled: U,
    heavier: H,
    outcome: R,
    h1: int,
    l1: int,
    s1: Scattering<S>,
    h2: int,
    l2: int,
    s2: Scattering<S>,
)
    requires
        unsettled_alike(unsettled),
        heavier_alike(heavier),
        outcome_alike(outcome),
        same_state(x0, y0),
        pass_at(x0.0, x0.1, x1.0, x1.1, at, unsettled, heavier, outcome, h1, l1, s1),
        pass_at(y0.0, y0.1, y1.0, y1.1, at, unsettled, heavier, outcome, h2, l2, s2),
    ensures
        same_state(x1, y1),
{
    let (f, g) = (x0.0, y0.0);
    let (a1, b1) = if h1 < l1 { (h1, l1) } else { (l1, h1) };
    let (a2, b2) = if h2 < l2 { (h2, l2) } else { (l2, h2) };
    assert(f[a1]@ == g[a1]@ && f[b1]@ == g[b1]@ && f[a2]@ == g[a2]@ && f[b2]@ == g[b2]@);
    if walks_before(a2, b2, a1, b1) {
        assert(unsettled.ensures((last_of(f[a2]), last_of(f[b2])), false));
        assert(unsettled.ensures((last_of(g[a2]), last_of(g[b2])), true));
        assert(false);
    }
    if walks_before(a1, b1, a2, b2) {
        assert(unsettled.ensures((last_of(g[a1]), last_of(g[b1])), false));
        assert(unsettled.ensures((last_of(f[a1]), last_of(f[b1])), true));
        assert(false);
    }
    assert(a1 == a2 && b1 == b2);
    if h1 != h2 {
        assert(h1 == l2 && l1 == h2);
        if l1 < h1 {
            assert(heavier.ensures((last_of(f[l1]), last_of(f[h1])), true));
            assert(heavier.ensures((last_of(g[h2]), last_of(g[l2])), false));
        } else {
            assert(heavier.ensures((last_of(f[h1]), last_of(f[l1])), false));
            assert(heavier.ensures((last_of(g[l2]), last_of(g[h2])), true));
        }
        assert(false);
    }
    assert(outcome.ensures((last_of(g[h1]), last_of(g[l1]), h1 as usize, x0.1[h1]), s1));
    assert(s1 == s2);
    assert forall|k: int| 0 <= k < x1.0.len() implies (#[trigger] x1.0[k])@ == y1.0[k]@ by {
        if k != h1 && k != l1 {
            assert(x1.0[k] == f[k] && y1.0[k] == g[k]);
        }
    }
}

/// Two runs of the walk from the same state, as models that answer alike tell them, pass
/// through states with the same histories and counts, pass by pass.
proof fn lemma_traces_agree<
    S,
    U: Fn(Segment<S>, Segment<S>) -> bool,
    H: Fn(Segment<S>, Segment<S>) -> bool,
    R: Fn(Segment<S>, Segment<S>, usize, u64) -> Scattering<S>,
>(
    t1: Seq<(Seq<BodyFate<S>>, Seq<u64>)>,
    t2: Seq<(Seq<BodyFate<S>>, Seq<u64>)>,
    at: UniverseTime,
    unsettled: U,
    heavier: H,
    outcome: R,
    i: int,
)
    requires
        unsettled_alike(unsettled),
        heavier_alike(heavier),
        outcome_alike(outcome),
        t1.len() > 0,
        t2.len() > 0,
        t1[0] == t2[0],
        walk_trace(t1, at, unsettled, heavier, outcome),
        walk_trace(t2, at, unsettled, heavier, outcome),
        0 <= i < t1.len(),
        i < t2.len(),
    ensures
        same_state(t1[i], t2[i]),
    decreases i,
{
    if i > 0 {
        lemma_traces_agree(t1, t2, at, unsettled, heavier, outcome, i - 1);
        assert(pass_from(t1, i - 1, at, unsettled, heavier, outcome));
        assert(pass_from(t2, i - 1, at, unsettled, heavier, outcome));
        let (h1, l1, s1) = choose|h: int, l: int, s: Scattering<S>|
            #[trigger] pass_at(t1[i - 1].0, t1[i - 1].1, t1[i].0, t1[i].1, at, unsettled, heavier, outcome, h, l, s);
        let (h2, l2, s2) = choose|h: int, l: int, s: Scattering<S>|
            #[trigger] pass_at(t2[i - 1].0, t2[i - 1].1, t2[i].0, t2[i].1, at, unsettled, heavier, outcome, h, l, s);
        lemma_pass_unique(
            t1[i - 1],
            t1[i],
            t2[i - 1],
            t2[i],
            at,
            unsettled,
            heavier,
            outcome,
            h1,
            l1,
            s1,
            h2,
            l2,
            s2,
        );
    }
}

/// The scattering step is fixed by what it is given: where `unsettled`, `heavier` and `outcome`
/// answer alike for the same questions, as the models behind them do, any two runs of the walk
/// ([`scattered_in_walk_order`]) from the same bodies that end with every pair settled take the
/// same number of passes to the same histories and ejection counts.
pub proof fn lemma_scatter_is_fixed_by_its_models<
    S,
    U: Fn(Segment<S>, Segment<S>) -> bool,
    H: Fn(Segment<S>, Segment<S>) -> bool,
    R: Fn(Segment<S>, Segment<S>, usize, u64) -> Scattering<S>,
>(
    fates0: Seq<BodyFate<S>>,
    recoils0: Seq<u64>,
    fates1: Seq<BodyFate<S>>,
    recoils1: Seq<u64>,
    passes1: nat,
    fates2: Seq<BodyFate<S>>,
    recoils2: Seq<u64>,
    passes2: nat,
    at: UniverseTime,
    unsettled: U,
    heavier: H,
    outcome: R,
)
    requires
        unsettled_alike(unsettled),
        heavier_alike(heavier),
        outcome_alike(outcome),
        scattered_in_walk_order(fates0, recoils0, fates1, recoils1, passes1, at, unsettled, heavier, outcome),
        scattered_in_walk_order(fates0, recoils0, fates2, recoils2, passes2, at, unsettled, heavier, outcome),
        settled(fates1, at, unsettled),
        settled(fates2, at, unsettled),
    ensures
        passes1 == passes2,
        recoils1 == recoils2,
        fates1.len() == fates2.len(),
        forall|k: int| 0 <= k < fates1.len() ==> (#[trigger] fates1[k])@ == fates2[k]@,
{
    let t1 = choose|trace: Seq<(Seq<BodyFate<S>>, Seq<u64>)>|
        {
            &&& trace.len() == passes1 + 1
            &&& trace[0] == (fates0, recoils0)
            &&& trace.last() == (fates1, recoils1)
            &&& #[trigger] walk_trace(trace, at, unsettled, heavier, outcome)
        };
    let t2 = choose|trace: Seq<(Seq<BodyFate<S>>, Seq<u64>)>|
        {
            &&& trace.len() == passes2 + 1
            &&& trace[0] == (fates0, recoils0)
            &&& trace.last() == (fates2, recoils2)
            &&& #[trigger] walk_trace(trace, at, unsettled, heavier, outcome)
        };
    if passes1 != passes2 {
        let (short, long, p, done) = if passes1 < passes2 {
            (t1, t2, passes1 as int, fates1)
        } else {
            (t2, t1, passes2 as int, fates2)
        };
        lemma_traces_agree(short, long, at, unsettled, heavier, outcome, p);
        assert(short[p] == short.last());
        assert(pass_from(long, p, at, unsettled, heavier, outcome));
        let (h, l, sc) = choose|h: int, l: int, s: Scattering<S>|
            #[trigger] pass_at(long[p].0, long[p].1, long[p + 1].0, long[p + 1].1, at, unsettled, heavier, outcome, h, l, s);
        let (a, b) = if h < l { (h, l) } else { (l, h) };
        let g = long[p].0;
        assert(done[a]@ == g[a]@ && done[b]@ == g[b]@);
        assert(survived_bound(done[a], at) && survived_bound(done[b], at));
        assert(unsettled.ensures((last_of(done[a]), last_of(done[b])), false));
        assert(unsettled.ensures((last_of(g[a]), last_of(g[b])), true));
        assert(false);
    }
    lemma_traces_agree(t1, t2, at, unsettled, heavier, outcome, passes1 as int);
    assert(t1[passes1 as int] == t1.last());
    assert(t2[passes2 as int] == t2.last());
}

/// The lighter body of a scattered pair is unbound by an ejection and destroyed as collided
/// otherwise; the heavier is left bound unless the scattering loses it, disrupted or unbound,
/// all at the death.
pub proof fn lemma_how_a_scattering_ends_the_pair(at: UniverseTime, loss: Option<Loss>)
    ensures
        lighter_end(true, at) == (BodyState::Unbound { at }),
        lighter_end(false, at) == (BodyState::Destroyed { cause: DestructionCause::Collided, at }),
        loss is None ==> heavier_ending(loss, at) is None,
        loss == Some(Loss::Disrupted) ==> heavier_ending(loss, at) == Some(
            (BodyState::Destroyed { cause: DestructionCause::TidallyDisrupted, at }),
        ),
        loss == Some(Loss::Unbound) ==> heavier_ending(loss, at) == Some((BodyState::Unbound { at })),
{
}

/// Of two bodies `a < b` in slot order, the later is ranked the heavier exactly when `heavier`
/// found it strictly heavier than the earlier, and the earlier otherwise: two of the same mass
/// leave the later as the lighter.
pub proof fn lemma_the_later_is_heavier_only_when_strictly_so<S, H: Fn(Segment<S>, Segment<S>) -> bool>(
    heavier: H,
    a: int,
    b: int,
    first: Segment<S>,
    second: Segment<S>,
    answer: bool,
)
    requires
        heavier_alike(heavier),
        a < b,
        heavier.ensures((first, second), answer),
    ensures
        ranked_heavier(heavier, b, a, second, first) <==> answer,
        ranked_heavier(heavier, a, b, first, second) <==> !answer,
{
}

/// A scattered pair ([`scattered_pair`]): the lighter keeps its segments and ends as
/// [`lighter_end`] says; the heavier keeps its segments but for the last, which keeps its start
/// and takes the scattering's elements; every other body is unchanged.
pub proof fn lemma_what_a_scattering_changes<S>(
    before: Seq<BodyFate<S>>,
    after: Seq<BodyFate<S>>,
    h: int,
    l: int,
    at: UniverseTime,
    scattering: Scattering<S>,
)
    requires
        scattered_pair(before, after, h, l, at, scattering),
        0 <= h < before.len(),
        0 <= l < before.len(),
        h != l,
        before[h]@.segments.len() > 0,
    ensures
        after[l]@.segments == before[l]@.segments,
        after[l]@.ending == Some(lighter_end(scattering.ejection, at)),
        after[h]@.segments.len() == before[h]@.segments.len(),
        forall|i: int|
            0 <= i < before[h]@.segments.len() - 1 ==> after[h]@.segments[i] == before[h]@.segments[i],
        after[h]@.segments.last().start == before[h]@.segments.last().start,
        after[h]@.segments.last().elements == scattering.elements,
        after[h]@.ending == heavier_ending(scattering.loss, at),
        after[h]@.formed_at == before[h]@.formed_at,
        after[l]@.formed_at == before[l]@.formed_at,
        forall|k: int| 0 <= k < after.len() && k != h && k != l ==> after[k] == before[k],
{
}

/// A body the death at `at` left bound is one that has not ended and whose last segment starts
/// at that death: a body that ended, never formed, or was not moved by the death is not among
/// them.
pub proof fn lemma_who_the_death_left_bound<S>(fate: BodyFate<S>, at: UniverseTime)
    ensures
        survived_bound(fate, at) <==> (fate@.ending is None && fate@.segments.len() > 0
            && fate@.segments[fate@.segments.len() - 1].start@ == at@),
{
}

} // verus!
