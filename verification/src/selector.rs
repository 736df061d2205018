//! Adjacency-constrained tile selection.
//!
//! A tile's candidates are the types that every already-decided neighbor
//! tolerates; one candidate is drawn at random. An empty candidate set is a
//! contradiction, resolved locally by a configured default type — this engine
//! never backtracks.

use vstd::prelude::*;

use crate::rules::WFCRules;
use crate::tile::TileType;
use crate::tile::tile_universe;

verus! {

/// The random source injected into the selector, so that runs are
/// reproducible from a seed.
#[verifier::external_type_specification]
#[verifier::external_body]
pub struct ExStdRng(rand::rngs::StdRng);

/// Relies on rand's `SeedableRng::seed_from_u64`: builds the standard
/// generator from a seed.
#[verifier::external_body]
pub(crate) fn rng_from_seed(seed: u64) -> rand::rngs::StdRng {
    <rand::rngs::StdRng as rand::SeedableRng>::seed_from_u64(seed)
}

/// Relies on rand's `Rng::gen_range` over `0..n`: a sample from a non-empty
/// range lies in it, so the result is below `n`.
#[verifier::external_body]
pub(crate) fn rand_below(rng: &mut rand::rngs::StdRng, n: usize) -> (r: usize)
    requires
        n >= 1,
    ensures
        r < n,
{
    rand::Rng::gen_range(rng, 0..n)
}

/// `t` is acceptable beside every decided neighbor in `neighbors`; absent
/// neighbors impose no constraint.
pub open spec fn candidate_ok(
    rules: WFCRules,
    neighbors: Seq<Option<TileType>>,
    t: TileType,
) -> bool {
    forall|i: int|
        0 <= i < neighbors.len() && (#[trigger] neighbors[i]) is Some ==> rules.spec_allows(
            neighbors[i]->0,
            t,
        )
}

/// No tile type at all is acceptable: the decided neighbors contradict each
/// other.
pub open spec fn no_candidate(rules: WFCRules, neighbors: Seq<Option<TileType>>) -> bool {
    forall|t: TileType| !candidate_ok(rules, neighbors, t)
}

/// What a selection returns: a member of the candidate set, or the default
/// type when the set is empty.
pub open spec fn selection_ok(
    rules: WFCRules,
    neighbors: Seq<Option<TileType>>,
    default_type: TileType,
    t: TileType,
) -> bool {
    if no_candidate(rules, neighbors) {
        t == default_type
    } else {
        candidate_ok(rules, neighbors, t)
    }
}

/// Local consistency of one selection: a type drawn from the candidate set
/// is permitted beside every neighbor that was decided at selection time.
pub proof fn lemma_candidate_locally_consistent(
    rules: WFCRules,
    neighbors: Seq<Option<TileType>>,
    t: TileType,
    i: int,
)
    requires
        candidate_ok(rules, neighbors, t),
        0 <= i < neighbors.len(),
        neighbors[i] is Some,
    ensures
        rules.spec_allows(neighbors[i]->0, t),
{
}

/// A rule set with a universally tolerated type — one permitted beside
/// every type, as Ground is in the stock table — never produces a
/// contradiction: the candidate set of any neighborhood is non-empty, so
/// the selector never falls back to the default type.
pub proof fn lemma_universal_type_no_contradiction(
    rules: WFCRules,
    neighbors: Seq<Option<TileType>>,
    u: TileType,
)
    requires
        forall|t: TileType| rules.spec_allows(t, u),
    ensures
        !no_candidate(rules, neighbors),
{
    assert(candidate_ok(rules, neighbors, u));
}

/// Whether `v` holds `t`.
pub fn contains_tile(v: &Vec<TileType>, t: TileType) -> (r: bool)
    ensures
        r == v@.contains(t),
{
    let mut i: usize = 0;
    while i < v.len()
        invariant
            i <= v@.len(),
            forall|k: int| 0 <= k < i ==> v@[k] != t,
        decreases v@.len() - i,
    {
        if v[i] == t {
            return true;
        }
        i = i + 1;
    }
    false
}

/// Selects a type for a cell from the types of its already-decided
/// neighbors: intersects the neighbors' allowed-neighbor sets over the whole
/// type universe and draws one member at random; a contradiction falls back
/// to `default_type`. Neighbor order does not matter.
pub fn wfc_select_tile(
    rules: &WFCRules,
    neighbors: &[Option<TileType>],
    rng: &mut rand::rngs::StdRng,
    default_type: TileType,
) -> (r: TileType)
    requires
        rules.is_complete(),
    ensures
        selection_ok(*rules, neighbors@, default_type, r),
{
    let mut possible: Vec<TileType> = tile_universe();
    let n = neighbors.len();
    proof {
        assert(neighbors@.take(0) =~= Seq::<Option<TileType>>::empty());
    }
    let mut i: usize = 0;
    while i < n
        invariant
            i <= n,
            n == neighbors@.len(),
            rules.is_complete(),
            forall|t: TileType| possible@.contains(t) <==> candidate_ok(
                *rules,
                neighbors@.take(i as int),
                t,
            ),
        decreases n - i,
    {
        if let Some(nb) = neighbors[i] {
            let allowed = match rules.allowed_neighbors_of(nb) {
                Some(v) => v,
                None => {
                    proof {
                        assert(rules.has_rule(nb));
                    }
                    unreached()
                },
            };
            let mut filtered: Vec<TileType> = Vec::new();
            let mut j: usize = 0;
            proof {
                assert(possible@.take(0) =~= Seq::<TileType>::empty());
            }
            while j < possible.len()
                invariant
                    j <= possible@.len(),
                    rules.has_rule(nb),
                    allowed@ == rules.allowed_seq(nb),
                    forall|t: TileType| filtered@.contains(t) <==> (
                    possible@.take(j as int).contains(t) && allowed@.contains(t)),
                decreases possible@.len() - j,
            {
                let p = possible[j];
                let ghost filtered0 = filtered@;
                if contains_tile(allowed, p) {
                    filtered.push(p);
                }
                proof {
                    assert(possible@.take(j + 1) =~= possible@.take(j as int).push(p));
                    assert forall|t: TileType|
                        filtered@.contains(t) <==> (possible@.take(j + 1).contains(t)
                            && allowed@.contains(t)) by {
                        vstd::seq_lib::lemma_seq_contains_after_push(
                            possible@.take(j as int),
                            p,
                            t,
                        );
                        if allowed@.contains(p) {
                            assert(filtered@ == filtered0.push(p));
                            vstd::seq_lib::lemma_seq_contains_after_push(filtered0, p, t);
                        }
                    }
                }
                j = j + 1;
            }
            proof {
                assert(possible@.take(possible@.len() as int) =~= possible@);
            }
            possible = filtered;
        }
        proof {
            let nbs0 = neighbors@.take(i as int);
            let nbs1 = neighbors@.take(i + 1);
            let slot = neighbors@[i as int];
            assert(nbs1 =~= nbs0.push(slot));
            assert forall|t: TileType|
                candidate_ok(*rules, nbs1, t) <==> (candidate_ok(*rules, nbs0, t) && (
                slot is Some ==> rules.spec_allows(slot->0, t))) by {
                if candidate_ok(*rules, nbs1, t) {
                    assert forall|k: int|
                        0 <= k < nbs0.len() && (#[trigger] nbs0[k]) is Some implies
                        rules.spec_allows(nbs0[k]->0, t) by {
                        assert(nbs1[k] == nbs0[k]);
                    }
                    assert(nbs1[i as int] == slot);
                }
                if candidate_ok(*rules, nbs0, t) && (slot is Some ==> rules.spec_allows(
                    slot->0,
                    t,
                )) {
                    assert forall|k: int|
                        0 <= k < nbs1.len() && (#[trigger] nbs1[k]) is Some implies
                        rules.spec_allows(nbs1[k]->0, t) by {
                        if k < i {
                            assert(nbs1[k] == nbs0[k]);
                        } else {
                            assert(nbs1[k] == slot);
                        }
                    }
                }
            }
        }
        i = i + 1;
    }
    proof {
        assert(neighbors@.take(n as int) =~= neighbors@);
    }
    if possible.len() > 0 {
        let k = rand_below(rng, possible.len());
        let chosen = possible[k];
        proof {
            assert(possible@.contains(chosen));
            assert(!no_candidate(*rules, neighbors@));
        }
        chosen
    } else {
        proof {
            assert forall|t: TileType| !candidate_ok(*rules, neighbors@, t) by {
                if candidate_ok(*rules, neighbors@, t) {
                    assert(possible@.contains(t));
                }
            }
        }
        default_type
    }
}

} // verus!
