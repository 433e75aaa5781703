//! Which two faces are compared next.
use crate::arena::Presence;
use crate::asset_domain;
use crate::asset_domain::{AssetDomainLabel, AssetDomainView};
use crate::laws;
use crate::model::{AssetId, FaceId, FaceIdentityId};
use crate::pool;
use crate::rank;
use crate::recents;
use crate::recents::Keyed;
use crate::runtime::RedirectTarget;
use crate::scalar::Scalar;
use crate::text;
use vstd::prelude::*;

verus! {

/// How many subjects are asked for.
pub const FACEMASH_CANDIDATE_LIMIT: usize = 4096;

/// How many subjects are taken for what a comparison would tell.
pub const FACEMASH_FRONTIER_SHORTLIST: usize = 32;

/// How many subjects are taken because little is known of them.
pub const FACEMASH_COVERAGE_SHORTLIST: usize = 24;

/// How many pairs are remembered as shown.
pub const FACEMASH_RECENT_PAIR_EXCLUDE: usize = 48;

/// How many subjects, and how many faces, are remembered as shown.
pub const FACEMASH_RECENT_FACE_EXCLUDE: usize = 16;

/// The pattern of 0.3: where enough is predicted, subjects below this share are not taken because
/// little is known of them.
pub const FACEMASH_MODEL_TOPNESS_FLOOR: u32 = 0x3e99_999a;

/// How many comparisons lie between two trainings.
pub const FACEMASH_RETRAIN_INTERVAL: u64 = 10;

/// What is shown of the face comparisons.
#[derive(Debug, Clone, Copy, PartialEq, Eq, Structural)]
pub struct FacemashStatus {
    pub total_identities: u64,
    pub comparisons: u64,
    pub oracle_trained: bool,
    pub min_face_side: u16,
}

/// The image of the collection that a face is in.
#[derive(Debug)]
pub struct FacemashLocalAssetView {
    pub id: AssetId,
    pub hearted: bool,
    pub rotation_quarters: i32,
    pub domain: AssetDomainView,
}

/// A pair of subjects, whichever stands first.
#[derive(Debug, Clone, Copy, PartialEq, Eq, Hash, Structural)]
pub struct FacemashPairKey {
    pub left: FaceIdentityId,
    pub right: FaceIdentityId,
}

/// The pair of two subjects, the smaller first.
pub open spec fn pair_key(left: FaceIdentityId, right: FaceIdentityId) -> FacemashPairKey {
    if left.0 <= right.0 {
        FacemashPairKey { left, right }
    } else {
        FacemashPairKey { left: right, right: left }
    }
}

impl FacemashPairKey {
    /// The pair of two subjects, the smaller first.
    pub fn forge(left: FaceIdentityId, right: FaceIdentityId) -> (r: Self)
        ensures
            r == pair_key(left, right),
    {
        if left.0 <= right.0 {
            FacemashPairKey { left, right }
        } else {
            FacemashPairKey { left: right, right: left }
        }
    }
}

impl Keyed for FaceId {
    fn same(&self, other: &FaceId) -> (r: bool) {
        self.0 == other.0
    }
}

impl Keyed for FaceIdentityId {
    fn same(&self, other: &FaceIdentityId) -> (r: bool) {
        self.0 == other.0
    }
}

impl Keyed for FacemashPairKey {
    fn same(&self, other: &FacemashPairKey) -> (r: bool) {
        self.left.0 == other.left.0 && self.right.0 == other.right.0
    }
}

/// A pair is the same pair when its sides change places.
pub proof fn pairs_have_no_sides(left: FaceIdentityId, right: FaceIdentityId)
    ensures
        pair_key(left, right) == pair_key(right, left),
{
}

/// A face of a subject.
#[derive(Debug, Clone, Copy, PartialEq, Eq, Structural)]
pub struct FacemashFace {
    pub id: FaceId,
    /// Whether it is in an image of the collection.
    pub is_local: bool,
    pub confidence: Scalar,
    /// What the image shows, as far as images are paired by it.
    pub domain: Option<AssetDomainLabel>,
}

/// A subject with its faces.
#[derive(Debug)]
pub struct FacemashIdentityArena {
    pub identity_id: FaceIdentityId,
    pub faces: Vec<FacemashFace>,
}

/// The faces that are in images of the collection.
pub open spec fn local_faces(faces: Seq<FacemashFace>) -> Seq<FacemashFace> {
    faces.filter(|face: FacemashFace| face.is_local)
}

/// `viable` are the candidates with a face in an image of the collection, in order, and with those
/// faces only.
pub open spec fn are_viable(viable: Seq<FacemashIdentityArena>, candidates: Seq<FacemashIdentityArena>) -> bool
    decreases candidates.len(),
{
    if candidates.len() == 0 {
        viable.len() == 0
    } else {
        let last = candidates.last();
        if local_faces(last.faces@).len() == 0 {
            are_viable(viable, candidates.drop_last())
        } else {
            &&& viable.len() > 0
            &&& viable.last().identity_id == last.identity_id
            &&& viable.last().faces@ == local_faces(last.faces@)
            &&& are_viable(viable.drop_last(), candidates.drop_last())
        }
    }
}

/// The candidates that can be compared: those with a face in an image of the collection.
pub fn viable_identities(candidates: &Vec<FacemashIdentityArena>) -> (viable: Vec<FacemashIdentityArena>)
    ensures
        are_viable(viable@, candidates@),
{
    let mut viable: Vec<FacemashIdentityArena> = Vec::new();
    let mut i: usize = 0;
    while i < candidates.len()
        invariant
            i <= candidates.len(),
            are_viable(viable@, candidates@.take(i as int)),
        decreases candidates.len() - i,
    {
        let candidate = &candidates[i];
        let mut faces: Vec<FacemashFace> = Vec::new();
        let mut k: usize = 0;
        let ghost local = |face: FacemashFace| face.is_local;
        proof {
            reveal(Seq::filter);
            assert(candidate.faces@.take(0).filter(local) =~= Seq::<FacemashFace>::empty());
        }
        while k < candidate.faces.len()
            invariant
                k <= candidate.faces.len(),
                local == (|face: FacemashFace| face.is_local),
                faces@ == candidate.faces@.take(k as int).filter(local),
            decreases candidate.faces.len() - k,
        {
            proof {
                reveal(Seq::filter);
                assert(candidate.faces@.take(k + 1).drop_last() =~= candidate.faces@.take(k as int));
            }
            if candidate.faces[k].is_local {
                faces.push(candidate.faces[k]);
            }
            k += 1;
        }
        let ghost before = viable@;
        proof {
            assert(candidate.faces@.take(k as int) =~= candidate.faces@);
            assert(faces@ == local_faces(candidate.faces@));
            assert(candidates@.take(i + 1).drop_last() =~= candidates@.take(i as int));
            assert(candidates@.take(i + 1).last() == *candidate);
        }
        if faces.len() > 0 {
            viable.push(FacemashIdentityArena { identity_id: candidate.identity_id, faces });
            assert(viable@.drop_last() =~= before);
        }
        i += 1;
    }
    assert(candidates@.take(i as int) =~= candidates@);
    viable
}

/// The first label among the faces.
pub open spec fn first_domain(faces: Seq<FacemashFace>) -> Option<AssetDomainLabel>
    decreases faces.len(),
{
    if faces.len() == 0 {
        None
    } else if faces[0].domain is Some {
        faces[0].domain
    } else {
        first_domain(faces.skip(1))
    }
}

/// By what faces are preferred for when they were shown: one that was not shown of late before all
/// that were, and among those the one shown last before the others.
pub open spec fn freshness(recent_faces: Seq<FaceId>, face_id: FaceId) -> int
    decreases recent_faces.len(),
{
    if recent_faces.len() == 0 {
        1
    } else if recent_faces.last() == face_id {
        0
    } else {
        let earlier = freshness(recent_faces.drop_last(), face_id);
        if earlier > 0 {
            1
        } else {
            earlier - 1
        }
    }
}

/// By what the faces of a subject are chosen: first by when they were shown, then the one that was
/// found most surely, then the newest.
pub open spec fn face_key(recent_faces: Seq<FaceId>, face: FacemashFace) -> Seq<i128> {
    seq![freshness(recent_faces, face.id) as i128, face.confidence.place() as i128, face.id.0 as i128]
}

/// The keys of all faces of a subject.
pub open spec fn face_keys(recent_faces: Seq<FaceId>, faces: Seq<FacemashFace>) -> Seq<Seq<i128>> {
    faces.map_values(|face: FacemashFace| face_key(recent_faces, face))
}

proof fn lemma_freshness_of_rank(recent: Seq<FaceId>, face_id: FaceId, rank: int)
    requires
        0 <= rank < recent.len(),
        recent[recent.len() - 1 - rank] == face_id,
        forall|j: int| recent.len() - 1 - rank < j < recent.len() ==> #[trigger] recent[j] != face_id,
    ensures
        freshness(recent, face_id) == -rank,
    decreases recent.len(),
{
    if rank > 0 {
        assert(recent[recent.len() - 1] != face_id);
        let shorter = recent.drop_last();
        assert forall|j: int| shorter.len() - 1 - (rank - 1) < j < shorter.len() implies #[trigger] shorter[j]
            != face_id by {
            assert(recent[j] != face_id);
        }
        lemma_freshness_of_rank(shorter, face_id, rank - 1);
    }
}

proof fn lemma_freshness_of_absent(recent: Seq<FaceId>, face_id: FaceId)
    requires
        !recent.contains(face_id),
    ensures
        freshness(recent, face_id) == 1,
    decreases recent.len(),
{
    if recent.len() > 0 {
        assert(recent[recent.len() - 1] != face_id) by {
            if recent[recent.len() - 1] == face_id {
                assert(recent.contains(face_id));
            }
        }
        let shorter = recent.drop_last();
        assert(!shorter.contains(face_id)) by {
            if shorter.contains(face_id) {
                let j = choose|j: int| 0 <= j < shorter.len() && shorter[j] == face_id;
                assert(recent[j] == face_id);
            }
        }
        lemma_freshness_of_absent(shorter, face_id);
    }
}

impl FacemashIdentityArena {
    /// The face that stands for the subject.
    pub fn representative_face(&self, recent_faces: &Vec<FaceId>) -> (r: Option<FacemashFace>)
        ensures
            match r {
                None => self.faces@.len() == 0,
                Some(face) => exists|at: int|
                    0 <= at < self.faces@.len() && self.faces@[at] == face && #[trigger] rank::is_last_maximum(
                        at,
                        face_keys(recent_faces@, self.faces@),
                    ),
            },
    {
        let mut keys: Vec<Vec<i128>> = Vec::new();
        let ghost wanted = face_keys(recent_faces@, self.faces@);
        let mut i: usize = 0;
        while i < self.faces.len()
            invariant
                i <= self.faces.len(),
                keys.len() == i,
                wanted == face_keys(recent_faces@, self.faces@),
                forall|j: int| 0 <= j < i ==> (#[trigger] keys@[j])@ == wanted[j],
            decreases self.faces.len() - i,
        {
            let face = &self.faces[i];
            let fresh: i128 = match recents::recent_rank(recent_faces, face.id) {
                None => {
                    proof {
                        lemma_freshness_of_absent(recent_faces@, face.id);
                    }
                    1
                },
                Some(rank) => {
                    proof {
                        lemma_freshness_of_rank(recent_faces@, face.id, rank as int);
                    }
                    0 - rank as i128
                },
            };
            let key = vec![fresh, face.confidence.place_key(), face.id.0 as i128];
            assert(key@ =~= face_key(recent_faces@, *face));
            keys.push(key);
            i += 1;
        }
        assert(rank::key_views(keys@) =~= wanted);
        match rank::last_maximum(&keys) {
            None => None,
            Some(at) => Some(self.faces[at]),
        }
    }

    /// The label by which the subject is paired: that of its first face that has one.
    pub fn domain(&self) -> (r: Option<AssetDomainLabel>)
        ensures
            r == first_domain(self.faces@),
    {
        let mut i: usize = 0;
        assert(self.faces@.skip(0) =~= self.faces@);
        while i < self.faces.len()
            invariant
                i <= self.faces.len(),
                first_domain(self.faces@) == first_domain(self.faces@.skip(i as int)),
            decreases self.faces.len() - i,
        {
            assert(self.faces@.skip(i as int).skip(1) =~= self.faces@.skip(i + 1));
            match self.faces[i].domain {
                Some(label) => {
                    return Some(label);
                },
                None => {},
            }
            i += 1;
        }
        None
    }
}

/// Whether most subjects have a prediction: at least half of them.
pub open spec fn mostly_predicted(has_model: Seq<bool>) -> bool {
    count_true(has_model) * 2 >= if has_model.len() == 0 {
        1
    } else {
        has_model.len() as int
    }
}

/// How many flags are set.
pub open spec fn count_true(flags: Seq<bool>) -> int
    decreases flags.len(),
{
    if flags.len() == 0 {
        0
    } else {
        count_true(flags.drop_last()) + if flags.last() {
            1int
        } else {
            0int
        }
    }
}

/// Whether at least half of the subjects have a prediction.
pub fn model_guided(has_model: &Vec<bool>) -> (r: bool)
    ensures
        r == mostly_predicted(has_model@),
{
    let mut count: usize = 0;
    let mut i: usize = 0;
    while i < has_model.len()
        invariant
            i <= has_model.len(),
            count <= i,
            count == count_true(has_model@.take(i as int)),
        decreases has_model.len() - i,
    {
        assert(has_model@.take(i + 1).drop_last() =~= has_model@.take(i as int));
        if has_model[i] {
            count += 1;
        }
        i += 1;
    }
    assert(has_model@.take(i as int) =~= has_model@);
    let total: u128 = if has_model.len() == 0 {
        1
    } else {
        has_model.len() as u128
    };
    count as u128 * 2 >= total
}

/// By what subjects are ordered from the least to the most: by a number, then by name.
pub open spec fn rising_key(signal: Scalar, id: FaceIdentityId) -> Seq<i128> {
    seq![signal.place() as i128, id.0 as i128]
}

/// By what subjects are ordered from the highest score to the lowest, then by name.
pub open spec fn falling_key(score: Scalar, id: FaceIdentityId) -> Seq<i128> {
    let fallen: int = 0 - score.place();
    seq![fallen as i128, id.0 as i128]
}

/// The keys of all subjects, from the least to the most.
pub open spec fn rising_keys(signals: Seq<Scalar>, ids: Seq<FaceIdentityId>) -> Seq<Seq<i128>> {
    Seq::new(ids.len(), |i: int| rising_key(signals[i], ids[i]))
}

/// The keys of the subjects at `pool`, from the highest score to the lowest.
pub open spec fn falling_keys(scores: Seq<Scalar>, ids: Seq<FaceIdentityId>, pool: Seq<usize>) -> Seq<
    Seq<i128>,
> {
    Seq::new(pool.len(), |i: int| falling_key(scores[pool[i] as int], ids[pool[i] as int]))
}

/// The place of each subject when they are ordered by what is thought of them.
pub fn topness_ranks(signals: &Vec<Scalar>, ids: &Vec<FaceIdentityId>) -> (ranks: Vec<usize>)
    requires
        signals.len() == ids.len(),
    ensures
        ranks.len() == ids.len(),
        exists|order: Seq<usize>| #[trigger]
            rank::is_ranking(order, rising_keys(signals@, ids@)) && (forall|k: int|
                0 <= k < order.len() ==> ranks@[#[trigger] order[k] as int] == k),
{
    let mut keys: Vec<Vec<i128>> = Vec::new();
    let mut ranks: Vec<usize> = Vec::new();
    let mut i: usize = 0;
    while i < ids.len()
        invariant
            i <= ids.len(),
            signals.len() == ids.len(),
            keys.len() == i,
            ranks.len() == i,
            forall|j: int| 0 <= j < i ==> (#[trigger] keys@[j])@ == rising_key(signals@[j], ids@[j]),
        decreases ids.len() - i,
    {
        let key = vec![signals[i].place_key(), ids[i].0 as i128];
        assert(key@ =~= rising_key(signals@[i as int], ids@[i as int]));
        keys.push(key);
        ranks.push(0);
        i += 1;
    }
    assert(rank::key_views(keys@) =~= rising_keys(signals@, ids@));
    let order = rank::ranking(&keys);
    let ghost kv = rank::key_views(keys@);
    let mut k: usize = 0;
    while k < order.len()
        invariant
            k <= order.len(),
            order.len() == ids.len(),
            ranks.len() == ids.len(),
            kv.len() == ids.len(),
            rank::is_ranking(order@, kv),
            forall|j: int| 0 <= j < k ==> ranks@[#[trigger] order@[j] as int] == j,
        decreases order.len() - k,
    {
        let at = order[k];
        let ghost before = ranks@;
        ranks.set(at, k);
        proof {
            assert forall|j: int| 0 <= j < k + 1 implies ranks@[#[trigger] order@[j] as int] == j by {
                if j < k {
                    rank::lemma_ranking_distinct(order@, kv, j, k as int);
                    assert(before[order@[j] as int] == j);
                }
            }
        }
        k += 1;
    }
    ranks
}

/// The subjects at `pool` with the highest scores, at most `limit`.
fn highest(scores: &Vec<Scalar>, ids: &Vec<FaceIdentityId>, pool: &Vec<usize>, limit: usize) -> (r: Vec<
    usize,
>)
    requires
        scores.len() == ids.len(),
        forall|i: int| 0 <= i < pool.len() ==> (#[trigger] pool@[i]) < ids.len(),
    ensures
        are_highest(r@, scores@, ids@, pool@, limit as int),
        forall|i: int| 0 <= i < r.len() ==> (#[trigger] r@[i]) < ids.len(),
{
    let mut keys: Vec<Vec<i128>> = Vec::new();
    let mut i: usize = 0;
    while i < pool.len()
        invariant
            i <= pool.len(),
            scores.len() == ids.len(),
            forall|j: int| 0 <= j < pool.len() ==> (#[trigger] pool@[j]) < ids.len(),
            keys.len() == i,
            forall|j: int|
                0 <= j < i ==> (#[trigger] keys@[j])@ == falling_key(
                    scores@[pool@[j] as int],
                    ids@[pool@[j] as int],
                ),
        decreases pool.len() - i,
    {
        let at = pool[i];
        let score: i128 = 0 - scores[at].place_key();
        let key = vec![score, ids[at].0 as i128];
        assert(key@ =~= falling_key(scores@[at as int], ids@[at as int]));
        keys.push(key);
        i += 1;
    }
    assert(rank::key_views(keys@) =~= falling_keys(scores@, ids@, pool@));
    let leaders = rank::leading(&keys, limit);
    let mut r: Vec<usize> = Vec::new();
    let mut k: usize = 0;
    while k < leaders.len()
        invariant
            k <= leaders.len(),
            r.len() == k,
            forall|j: int| 0 <= j < leaders.len() ==> (#[trigger] leaders@[j]) < pool.len(),
            forall|j: int| 0 <= j < pool.len() ==> (#[trigger] pool@[j]) < ids.len(),
            forall|j: int| 0 <= j < k ==> #[trigger] r@[j] == pool@[leaders@[j] as int],
        decreases leaders.len() - k,
    {
        r.push(pool[leaders[k]]);
        k += 1;
    }
    assert(r@ =~= leaders@.map_values(|p: usize| pool@[p as int]));
    r
}

/// `r` are the subjects at `pool` with the highest scores, at most `limit`, from the highest on.
pub open spec fn are_highest(
    r: Seq<usize>,
    scores: Seq<Scalar>,
    ids: Seq<FaceIdentityId>,
    pool: Seq<usize>,
    limit: int,
) -> bool {
    exists|leaders: Seq<usize>| #[trigger]
        rank::are_leaders(leaders, falling_keys(scores, ids, pool), limit) && r == leaders.map_values(
            |p: usize| pool[p as int],
        )
}

/// A subject may be taken because little is known of it.
pub open spec fn covers(guided: bool, topness: Scalar) -> bool {
    !guided || topness.reaches(Scalar { bits: FACEMASH_MODEL_TOPNESS_FLOOR })
}

/// `shortlist` are the subjects that are considered for the next pair: those with the highest
/// scores for what a comparison would tell, and those with the highest scores for how little is
/// known of them, in ascending order.
pub open spec fn is_shortlist(
    shortlist: Seq<usize>,
    ids: Seq<FaceIdentityId>,
    frontier: Seq<Scalar>,
    coverage: Seq<Scalar>,
    topness: Seq<Scalar>,
    guided: bool,
) -> bool {
    exists|all: Seq<usize>, telling: Seq<usize>, eligible: Seq<usize>, covering: Seq<usize>|
        {
            &&& pool::selects(all, ids.len() as int, |i: int| true)
            &&& #[trigger] are_highest(telling, frontier, ids, all, FACEMASH_FRONTIER_SHORTLIST as int)
            &&& pool::selects(eligible, ids.len() as int, |i: int| covers(guided, topness[i]))
            &&& #[trigger] are_highest(
                covering,
                coverage,
                ids,
                eligible,
                FACEMASH_COVERAGE_SHORTLIST as int,
            )
            &&& pool::selects(
                shortlist,
                ids.len() as int,
                |i: int| telling.contains(i as usize) || covering.contains(i as usize),
            )
        }
}

/// The subjects that are considered for the next pair.
pub fn shortlist(
    ids: &Vec<FaceIdentityId>,
    frontier: &Vec<Scalar>,
    coverage: &Vec<Scalar>,
    topness: &Vec<Scalar>,
    guided: bool,
) -> (r: Vec<usize>)
    requires
        frontier.len() == ids.len(),
        coverage.len() == ids.len(),
        topness.len() == ids.len(),
    ensures
        is_shortlist(r@, ids@, frontier@, coverage@, topness@, guided),
        forall|i: int| 0 <= i < r.len() ==> (#[trigger] r@[i]) < ids.len(),
        guided ==> forall|at: usize|
            at < ids.len() && laws::facemash::least_known(coverage@, topness@, ids@, at as int)
                ==> #[trigger] r@.contains(at),
{
    let mut every: Vec<bool> = Vec::new();
    let mut covering_flags: Vec<bool> = Vec::new();
    let mut i: usize = 0;
    while i < ids.len()
        invariant
            i <= ids.len(),
            topness.len() == ids.len(),
            every.len() == i,
            covering_flags.len() == i,
            forall|j: int| 0 <= j < i ==> #[trigger] every@[j],
            forall|j: int| 0 <= j < i ==> #[trigger] covering_flags@[j] == covers(guided, topness@[j]),
        decreases ids.len() - i,
    {
        every.push(true);
        covering_flags.push(!guided || topness[i].does_reach(Scalar { bits: FACEMASH_MODEL_TOPNESS_FLOOR }));
        i += 1;
    }
    let all = pool::select(&every);
    let eligible = pool::select(&covering_flags);
    proof {
        pool::lemma_selects_by_flags(all@, every@, |j: int| true);
        pool::lemma_selects_by_flags(eligible@, covering_flags@, |j: int| covers(guided, topness@[j]));
    }
    let telling = highest(frontier, ids, &all, FACEMASH_FRONTIER_SHORTLIST);
    let covering = highest(coverage, ids, &eligible, FACEMASH_COVERAGE_SHORTLIST);
    let taken = pool::either(ids.len(), &telling, &covering);
    assert(is_shortlist(taken@, ids@, frontier@, coverage@, topness@, guided));
    assert forall|at: usize|
        guided && at < ids.len() && laws::facemash::least_known(
            coverage@,
            topness@,
            ids@,
            at as int,
        ) implies #[trigger] taken@.contains(at) by {
        laws::facemash::the_least_known_subject_is_on_the_shortlist(
            taken@,
            ids@,
            frontier@,
            coverage@,
            topness@,
            at,
        );
    }
    taken
}

/// `pairs` are the pairs of the shortlist whose labels do not keep them apart, each once, by the
/// first and then by the second subject.
pub open spec fn are_pairings(
    pairs: Seq<(usize, usize)>,
    shortlist: Seq<usize>,
    domains: Seq<Option<AssetDomainLabel>>,
) -> bool {
    &&& forall|k: int|
        0 <= k < pairs.len() ==> {
            &&& shortlist.contains((#[trigger] pairs[k]).0)
            &&& shortlist.contains(pairs[k].1)
            &&& pairs[k].0 < pairs[k].1
            &&& asset_domain::may_meet(domains[pairs[k].0 as int], domains[pairs[k].1 as int])
        }
    &&& forall|a: usize, b: usize|
        shortlist.contains(a) && shortlist.contains(b) && a < b && asset_domain::may_meet(
            domains[a as int],
            domains[b as int],
        ) ==> #[trigger] pairs.contains((a, b))
    &&& forall|k: int, m: int|
        0 <= k < m < pairs.len() ==> before_pair(#[trigger] pairs[k], #[trigger] pairs[m])
}

/// One pair stands before another: by the first and then by the second subject.
pub open spec fn before_pair(a: (usize, usize), b: (usize, usize)) -> bool {
    a.0 < b.0 || (a.0 == b.0 && a.1 < b.1)
}

/// The pairs of the shortlist that may be compared.
pub fn pairings(shortlist: &Vec<usize>, domains: &Vec<Option<AssetDomainLabel>>) -> (pairs: Vec<
    (usize, usize),
>)
    requires
        forall|i: int| 0 <= i < shortlist.len() ==> (#[trigger] shortlist@[i]) < domains.len(),
        forall|i: int, j: int|
            0 <= i < j < shortlist.len() ==> #[trigger] shortlist@[i] < #[trigger] shortlist@[j],
    ensures
        are_pairings(pairs@, shortlist@, domains@),
{
    let ghost s = shortlist@;
    let ghost d = domains@;
    let mut pairs: Vec<(usize, usize)> = Vec::new();
    let mut p: usize = 0;
    while p < shortlist.len()
        invariant
            p <= shortlist.len(),
            s == shortlist@,
            d == domains@,
            forall|i: int| 0 <= i < s.len() ==> (#[trigger] s[i]) < d.len(),
            forall|i: int, j: int| 0 <= i < j < s.len() ==> #[trigger] s[i] < #[trigger] s[j],
            forall|k: int|
                0 <= k < pairs.len() ==> {
                    &&& s.contains((#[trigger] pairs@[k]).0)
                    &&& s.contains(pairs@[k].1)
                    &&& pairs@[k].0 < pairs@[k].1
                    &&& asset_domain::may_meet(d[pairs@[k].0 as int], d[pairs@[k].1 as int])
                    &&& p < s.len() ==> pairs@[k].0 < s[p as int]
                },
            forall|i: int, j: int|
                0 <= i < p && i < j < s.len() && asset_domain::may_meet(
                    d[#[trigger] s[i] as int],
                    d[#[trigger] s[j] as int],
                ) ==> pairs@.contains((s[i], s[j])),
            forall|k: int, m: int|
                0 <= k < m < pairs.len() ==> before_pair(#[trigger] pairs@[k], #[trigger] pairs@[m]),
        decreases shortlist.len() - p,
    {
        let left = shortlist[p];
        let mut q: usize = p + 1;
        while q < shortlist.len()
            invariant
                p < q <= shortlist.len(),
                s == shortlist@,
                d == domains@,
                left == s[p as int],
                forall|i: int| 0 <= i < s.len() ==> (#[trigger] s[i]) < d.len(),
                forall|i: int, j: int| 0 <= i < j < s.len() ==> #[trigger] s[i] < #[trigger] s[j],
                forall|k: int|
                    0 <= k < pairs.len() ==> {
                        &&& s.contains((#[trigger] pairs@[k]).0)
                        &&& s.contains(pairs@[k].1)
                        &&& pairs@[k].0 < pairs@[k].1
                        &&& asset_domain::may_meet(d[pairs@[k].0 as int], d[pairs@[k].1 as int])
                        &&& pairs@[k].0 < left || (pairs@[k].0 == left && (q < s.len() ==> pairs@[k].1
                            < s[q as int]))
                    },
                forall|i: int, j: int|
                    0 <= i < p && i < j < s.len() && asset_domain::may_meet(
                        d[#[trigger] s[i] as int],
                        d[#[trigger] s[j] as int],
                    ) ==> pairs@.contains((s[i], s[j])),
                forall|j: int|
                    p < j < q && asset_domain::may_meet(d[left as int], d[#[trigger] s[j] as int])
                        ==> pairs@.contains((left, s[j])),
                forall|k: int, m: int|
                    0 <= k < m < pairs.len() ==> before_pair(#[trigger] pairs@[k], #[trigger] pairs@[m]),
            decreases shortlist.len() - q,
        {
            let right = shortlist[q];
            let ghost before = pairs@;
            if asset_domain::labels_may_meet(domains[left], domains[right]) {
                pairs.push((left, right));
            }
            proof {
                assert(s.contains(left)) by {
                    assert(s[p as int] == left);
                }
                assert(s.contains(right)) by {
                    assert(s[q as int] == right);
                }
                assert(left < right);
                assert forall|i: int, j: int|
                    0 <= i < p && i < j < s.len() && asset_domain::may_meet(
                        d[#[trigger] s[i] as int],
                        d[#[trigger] s[j] as int],
                    ) implies pairs@.contains((s[i], s[j])) by {
                    let at = choose|at: int| 0 <= at < before.len() && before[at] == (s[i], s[j]);
                    assert(pairs@[at] == (s[i], s[j]));
                }
                assert forall|j: int|
                    p < j < q + 1 && asset_domain::may_meet(d[left as int], d[#[trigger] s[j] as int]) implies pairs@.contains(
                (left, s[j])) by {
                    if j < q {
                        let at = choose|at: int| 0 <= at < before.len() && before[at] == (left, s[j]);
                        assert(pairs@[at] == (left, s[j]));
                    } else {
                        assert(pairs@[before.len() as int] == (left, right));
                    }
                }
            }
            q += 1;
        }
        p += 1;
    }
    proof {
        assert forall|a: usize, b: usize|
            s.contains(a) && s.contains(b) && a < b && asset_domain::may_meet(d[a as int], d[b as int]) implies #[trigger] pairs@.contains(
        (a, b)) by {
            let i = choose|i: int| 0 <= i < s.len() && s[i] == a;
            let j = choose|j: int| 0 <= j < s.len() && s[j] == b;
            if j <= i {
                if j < i {
                    assert(s[j] < s[i]);
                }
            }
            assert(i < j);
        }
    }
    pairs
}

/// The place of the best score: a later score takes the place of an earlier one unless the earlier
/// one is a number at least as large.
pub open spec fn best_of(scores: Seq<Scalar>) -> int
    decreases scores.len(),
{
    if scores.len() <= 1 {
        0
    } else {
        let best = best_of(scores.drop_last());
        if scores[best].reaches(scores.last()) {
            best
        } else {
            scores.len() - 1
        }
    }
}

/// The place of the best score, if there is a score.
pub fn best_score(scores: &Vec<Scalar>) -> (r: Option<usize>)
    ensures
        match r {
            None => scores@.len() == 0,
            Some(at) => scores@.len() > 0 && at == best_of(scores@) && at < scores@.len(),
        },
{
    if scores.len() == 0 {
        return None;
    }
    let mut best: usize = 0;
    let mut i: usize = 1;
    while i < scores.len()
        invariant
            1 <= i <= scores.len(),
            best < i,
            best == best_of(scores@.take(i as int)),
        decreases scores.len() - i,
    {
        assert(scores@.take(i + 1).drop_last() =~= scores@.take(i as int));
        if !scores[best].does_reach(scores[i]) {
            best = i;
        }
        i += 1;
    }
    assert(scores@.take(i as int) =~= scores@);
    Some(best)
}

/// Where all scores are numbers, the best is the first of the largest.
pub proof fn best_is_the_first_of_the_largest(scores: Seq<Scalar>)
    requires
        scores.len() > 0,
        forall|i: int| 0 <= i < scores.len() ==> !(#[trigger] scores[i]).nan(),
    ensures
        0 <= best_of(scores) < scores.len(),
        forall|i: int| 0 <= i < scores.len() ==> (#[trigger] scores[i]).order() <= scores[best_of(scores)].order(),
        forall|i: int| 0 <= i < best_of(scores) ==> (#[trigger] scores[i]).order() < scores[best_of(scores)].order(),
    decreases scores.len(),
{
    if scores.len() > 1 {
        let shorter = scores.drop_last();
        assert forall|i: int| 0 <= i < shorter.len() implies !(#[trigger] shorter[i]).nan() by {
            assert(!scores[i].nan());
        }
        best_is_the_first_of_the_largest(shorter);
        let best = best_of(shorter);
        assert(!scores[best].nan());
        assert(!scores[scores.len() - 1].nan());
        assert forall|i: int| 0 <= i < scores.len() implies (#[trigger] scores[i]).order() <= scores[best_of(
            scores,
        )].order() by {
            if i < shorter.len() {
                assert(shorter[i].order() <= shorter[best].order());
            }
        }
        assert forall|i: int| 0 <= i < best_of(scores) implies (#[trigger] scores[i]).order()
            < scores[best_of(scores)].order() by {
            assert(shorter[i].order() <= shorter[best].order());
            if best_of(scores) == best {
                assert(shorter[i].order() < shorter[best].order());
            }
        }
    }
}

/// What was compared of late.
#[derive(Debug)]
pub struct FacemashRecents {
    pub pairs: Vec<FacemashPairKey>,
    pub identities: Vec<FaceIdentityId>,
    pub faces: Vec<FaceId>,
}

impl FacemashRecents {
    /// Nothing was compared yet.
    pub fn new() -> (r: Self)
        ensures
            r.wf(),
            r.pairs@ == Seq::<FacemashPairKey>::empty(),
            r.identities@ == Seq::<FaceIdentityId>::empty(),
            r.faces@ == Seq::<FaceId>::empty(),
    {
        FacemashRecents { pairs: Vec::new(), identities: Vec::new(), faces: Vec::new() }
    }

    /// Each pair, subject and face is remembered once, and only so many of each.
    pub open spec fn wf(self) -> bool {
        &&& self.pairs@.no_duplicates()
        &&& self.pairs@.len() <= FACEMASH_RECENT_PAIR_EXCLUDE
        &&& self.identities@.no_duplicates()
        &&& self.identities@.len() <= FACEMASH_RECENT_FACE_EXCLUDE
        &&& self.faces@.no_duplicates()
        &&& self.faces@.len() <= FACEMASH_RECENT_FACE_EXCLUDE
    }

    /// Remembers that two faces were shown, as the newest: the pair of their subjects, both
    /// subjects and both faces.
    pub fn remember_facemash_pair(
        &mut self,
        left: FaceId,
        left_identity: FaceIdentityId,
        right: FaceId,
        right_identity: FaceIdentityId,
    )
        ensures
            final(self).pairs@ == recents::newest(
                recents::moved_last(old(self).pairs@, pair_key(left_identity, right_identity)),
                FACEMASH_RECENT_PAIR_EXCLUDE as int,
            ),
            final(self).identities@ == recents::newest(
                recents::moved_last(
                    recents::moved_last(old(self).identities@, left_identity),
                    right_identity,
                ),
                FACEMASH_RECENT_FACE_EXCLUDE as int,
            ),
            final(self).faces@ == recents::newest(
                recents::moved_last(recents::moved_last(old(self).faces@, left), right),
                FACEMASH_RECENT_FACE_EXCLUDE as int,
            ),
            old(self).wf() ==> final(self).wf(),
    {
        recents::move_last(&mut self.pairs, FacemashPairKey::forge(left_identity, right_identity));
        recents::keep_newest(&mut self.pairs, FACEMASH_RECENT_PAIR_EXCLUDE);
        recents::move_last(&mut self.identities, left_identity);
        recents::move_last(&mut self.identities, right_identity);
        recents::keep_newest(&mut self.identities, FACEMASH_RECENT_FACE_EXCLUDE);
        recents::move_last(&mut self.faces, left);
        recents::move_last(&mut self.faces, right);
        recents::keep_newest(&mut self.faces, FACEMASH_RECENT_FACE_EXCLUDE);
        proof {
            if old(self).wf() {
                recents::moving_keeps_values_apart(
                    old(self).pairs@,
                    pair_key(left_identity, right_identity),
                );
                recents::moving_keeps_values_apart(old(self).identities@, left_identity);
                recents::moving_keeps_values_apart(
                    recents::moved_last(old(self).identities@, left_identity),
                    right_identity,
                );
                recents::moving_keeps_values_apart(old(self).faces@, left);
                recents::moving_keeps_values_apart(recents::moved_last(old(self).faces@, left), right);
            }
        }
    }

    /// How many other pairs were shown since this one was, if it is remembered.
    pub fn facemash_recent_pair_rank(&self, left: FaceIdentityId, right: FaceIdentityId) -> (r: Option<
        usize,
    >)
        ensures
            match r {
                None => !self.pairs@.contains(pair_key(left, right)),
                Some(rank) => {
                    &&& rank < self.pairs@.len()
                    &&& self.pairs@[self.pairs@.len() - 1 - rank] == pair_key(left, right)
                    &&& forall|j: int|
                        self.pairs@.len() - 1 - rank < j < self.pairs@.len() ==> #[trigger] self.pairs@[j]
                            != pair_key(left, right)
                },
            },
    {
        recents::recent_rank(&self.pairs, FacemashPairKey::forge(left, right))
    }

    /// How many other subjects were shown since this one was, if it is remembered.
    pub fn facemash_recent_identity_rank(&self, identity_id: FaceIdentityId) -> (r: Option<usize>)
        ensures
            match r {
                None => !self.identities@.contains(identity_id),
                Some(rank) => {
                    &&& rank < self.identities@.len()
                    &&& self.identities@[self.identities@.len() - 1 - rank] == identity_id
                    &&& forall|j: int|
                        self.identities@.len() - 1 - rank < j < self.identities@.len()
                            ==> #[trigger] self.identities@[j] != identity_id
                },
            },
    {
        recents::recent_rank(&self.identities, identity_id)
    }

    /// How many other faces were shown since this one was, if it is remembered.
    pub fn facemash_recent_face_rank(&self, face_id: FaceId) -> (r: Option<usize>)
        ensures
            match r {
                None => !self.faces@.contains(face_id),
                Some(rank) => {
                    &&& rank < self.faces@.len()
                    &&& self.faces@[self.faces@.len() - 1 - rank] == face_id
                    &&& forall|j: int|
                        self.faces@.len() - 1 - rank < j < self.faces@.len() ==> #[trigger] self.faces@[j]
                            != face_id
                },
            },
    {
        recents::recent_rank(&self.faces, face_id)
    }
}

/// `face` stands for the subject.
pub open spec fn stands_for(face: FacemashFace, arena: FacemashIdentityArena, recent_faces: Seq<FaceId>) -> bool {
    exists|at: int|
        0 <= at < arena.faces@.len() && arena.faces@[at] == face && #[trigger] rank::is_last_maximum(
            at,
            face_keys(recent_faces, arena.faces@),
        )
}

/// The pair of subjects that is compared next, of `pairs` with their `scores`, and the faces that
/// stand for them, which are remembered as shown. There is none where no two subjects may be
/// compared.
pub fn facemash_pair(
    viable: &Vec<FacemashIdentityArena>,
    pairs: &Vec<(usize, usize)>,
    scores: &Vec<Scalar>,
    recent: &mut FacemashRecents,
) -> (r: Option<(FacemashFace, FacemashFace)>)
    requires
        pairs.len() == scores.len(),
        forall|k: int|
            0 <= k < pairs.len() ==> (#[trigger] pairs@[k]).0 < viable.len() && pairs@[k].1 < viable.len(),
        forall|i: int| 0 <= i < viable.len() ==> (#[trigger] viable@[i]).faces@.len() > 0,
    ensures
        old(recent).wf() ==> final(recent).wf(),
        match r {
            None => pairs@.len() == 0 && *final(recent) == *old(recent),
            Some((left, right)) => {
                let best = pairs@[best_of(scores@)];
                &&& pairs@.len() > 0
                &&& stands_for(left, viable@[best.0 as int], old(recent).faces@)
                &&& stands_for(right, viable@[best.1 as int], old(recent).faces@)
                &&& final(recent).pairs@ == recents::newest(
                    recents::moved_last(
                        old(recent).pairs@,
                        pair_key(
                            viable@[best.0 as int].identity_id,
                            viable@[best.1 as int].identity_id,
                        ),
                    ),
                    FACEMASH_RECENT_PAIR_EXCLUDE as int,
                )
                &&& final(recent).identities@ == recents::newest(
                    recents::moved_last(
                        recents::moved_last(
                            old(recent).identities@,
                            viable@[best.0 as int].identity_id,
                        ),
                        viable@[best.1 as int].identity_id,
                    ),
                    FACEMASH_RECENT_FACE_EXCLUDE as int,
                )
                &&& final(recent).faces@ == recents::newest(
                    recents::moved_last(recents::moved_last(old(recent).faces@, left.id), right.id),
                    FACEMASH_RECENT_FACE_EXCLUDE as int,
                )
            },
        },
{
    match best_score(scores) {
        None => None,
        Some(at) => {
            let (left_index, right_index) = pairs[at];
            let left_arena = &viable[left_index];
            let right_arena = &viable[right_index];
            let left = left_arena.representative_face(&recent.faces);
            let right = right_arena.representative_face(&recent.faces);
            match (left, right) {
                (Some(left_face), Some(right_face)) => {
                    recent.remember_facemash_pair(
                        left_face.id,
                        left_arena.identity_id,
                        right_face.id,
                        right_arena.identity_id,
                    );
                    Some((left_face, right_face))
                },
                _ => None,
            }
        },
    }
}

/// The page that compares the chosen faces.
pub fn facemash_target(chosen: Option<(FaceId, FaceId)>) -> (r: RedirectTarget)
    ensures
        r == match chosen {
            None => RedirectTarget::FacemashRoot,
            Some((left_face_id, right_face_id)) => RedirectTarget::FacemashPair {
                left_face_id,
                right_face_id,
            },
        },
{
    match chosen {
        None => RedirectTarget::FacemashRoot,
        Some((left_face_id, right_face_id)) => RedirectTarget::FacemashPair {
            left_face_id,
            right_face_id,
        },
    }
}

/// What is known of a face that a comparison was asked for.
#[derive(Debug, Clone, Copy, PartialEq, Eq, Structural)]
pub struct FaceFacts {
    pub id: FaceId,
    pub identity_id: FaceIdentityId,
    /// Whether it was found by the detector that is in use.
    pub current_detector: bool,
    pub is_local: bool,
    /// Whether it is large enough and found surely enough.
    pub usable: bool,
    /// Whether the image that it is in can be shown.
    pub live: bool,
    pub domain: Option<AssetDomainLabel>,
}

/// A face can be compared at all.
pub open spec fn comparable(face: FaceFacts) -> bool {
    face.current_detector && face.is_local && face.usable && face.live
}

/// Whether two faces that were asked for can be compared: both can be at all, they are two faces
/// of two subjects, and their labels do not keep them apart.
pub fn facemash_pair_by_ids(left: Option<FaceFacts>, right: Option<FaceFacts>) -> (r: bool)
    ensures
        r == (left matches Some(l) && right matches Some(r) && l.id != r.id && comparable(l)
            && comparable(r) && l.identity_id != r.identity_id && asset_domain::may_meet(
            l.domain,
            r.domain,
        )),
{
    match (left, right) {
        (Some(l), Some(r)) => {
            l.id.0 != r.id.0 && l.current_detector && r.current_detector && l.is_local && r.is_local
                && l.identity_id.0 != r.identity_id.0 && asset_domain::labels_may_meet(l.domain, r.domain)
                && l.usable && r.usable && l.live && r.live
        },
        _ => false,
    }
}

/// Why a comparison of faces is not recorded.
#[derive(Debug, PartialEq, Eq)]
pub enum FacemashVoteError {
    MissingFace { face_id: FaceId },
    StaleDetector,
}

impl FacemashVoteError {
    /// What is shown of the refusal.
    pub fn message(&self) -> (r: String)
        ensures
            r@ == match *self {
                FacemashVoteError::MissingFace { face_id } => "missing face "@ + text::signed_decimal(
                    face_id.0 as int,
                ),
                FacemashVoteError::StaleDetector => "facemash vote targets stale detector geometry"@,
            },
    {
        match self {
            FacemashVoteError::MissingFace { face_id } => {
                let mut out = "missing face ".to_owned();
                text::push_signed_decimal(&mut out, face_id.0);
                out
            },
            FacemashVoteError::StaleDetector => {
                "facemash vote targets stale detector geometry".to_owned()
            },
        }
    }
}

/// What `facemash_vote` returns.
pub open spec fn spec_facemash_vote(
    live: bool,
    winner_id: FaceId,
    winner_current: Option<bool>,
    loser_id: FaceId,
    loser_current: Option<bool>,
) -> Result<bool, FacemashVoteError> {
    if !live {
        Ok(false)
    } else {
        match (winner_current, loser_current) {
            (None, _) => Err(FacemashVoteError::MissingFace { face_id: winner_id }),
            (_, None) => Err(FacemashVoteError::MissingFace { face_id: loser_id }),
            (Some(w), Some(l)) => if w && l {
                Ok(true)
            } else {
                Err(FacemashVoteError::StaleDetector)
            },
        }
    }
}

/// Whether a comparison is recorded: `live` says whether the pair can be compared, and of each face
/// is said whether the detector in use found it, unless it is gone.
pub fn facemash_vote(
    live: bool,
    winner_id: FaceId,
    winner_current: Option<bool>,
    loser_id: FaceId,
    loser_current: Option<bool>,
) -> (r: Result<bool, FacemashVoteError>)
    ensures
        r == spec_facemash_vote(live, winner_id, winner_current, loser_id, loser_current),
{
    if !live {
        return Ok(false);
    }
    match winner_current {
        None => Err(FacemashVoteError::MissingFace { face_id: winner_id }),
        Some(winner) => match loser_current {
            None => Err(FacemashVoteError::MissingFace { face_id: loser_id }),
            Some(loser) => if winner && loser {
                Ok(true)
            } else {
                Err(FacemashVoteError::StaleDetector)
            },
        },
    }
}

/// Whether the predictions are trained anew after `total` comparisons.
pub fn retrain_due(total: u64) -> (r: bool)
    ensures
        r == (total % FACEMASH_RETRAIN_INTERVAL == 0),
{
    total % FACEMASH_RETRAIN_INTERVAL == 0
}

/// Whether a face is taken out: only where there is one, in an image of the collection.
pub fn facemash_hide_face(is_local: Option<bool>) -> (r: bool)
    ensures
        r == (is_local == Some(true)),
{
    match is_local {
        Some(local) => local,
        None => false,
    }
}

/// What the face was seen in.
#[derive(Debug, Clone, Copy, PartialEq, Eq, Structural)]
pub enum FaceOrigin {
    /// An image of the collection, if it is still known.
    Asset(Option<Presence>),
    /// An outside image, if it is still known: whether its file is there.
    Remote(Option<bool>),
    Nothing,
}

/// Whether the image that a face was seen in can be read: it is known, its file is there and, where
/// it is an image of the collection, it is not hidden.
pub fn face_source_is_live(origin: FaceOrigin) -> (r: bool)
    ensures
        r == match origin {
            FaceOrigin::Asset(Some(presence)) => presence.file_exists && !presence.hidden,
            FaceOrigin::Remote(Some(file_exists)) => file_exists,
            _ => false,
        },
{
    match origin {
        FaceOrigin::Asset(Some(presence)) => presence.file_exists && !presence.hidden,
        FaceOrigin::Remote(Some(file_exists)) => file_exists,
        _ => false,
    }
}

/// The name of the file that the cut-out of a face is kept in.
pub fn face_crop_name(face_id: FaceId) -> (r: String)
    ensures
        r@ == text::signed_decimal(face_id.0 as int) + "-v6.png"@,
{
    let mut name = String::new();
    text::push_signed_decimal(&mut name, face_id.0);
    assert(name@ =~= text::signed_decimal(face_id.0 as int));
    name.append("-v6.png");
    name
}

/// How many quarters an image is turned, from 0 to 3.
pub fn rotation_quadrant(rotation_quarters: i32) -> (r: u8)
    ensures
        r == rotation_quarters as int % 4,
        r < 4,
{
    let turned: i64 = rotation_quarters as i64;
    if turned >= 0 {
        (turned % 4) as u8
    } else {
        let back: i64 = (0 - turned) % 4;
        if back == 0 {
            0
        } else {
            (4 - back) as u8
        }
    }
}

} // verus!
