//! How the application starts, and how images are gone through for faces and features.
use crate::duel::QualityFormalVersion;
use crate::png;
use crate::png::Raster;
use crate::pool;
use crate::scalar::Scalar;
use crate::text;
use vstd::prelude::*;

verus! {

/// How often the refresh of the quality model is tried before it is put off.
pub const QUALITY_REFRESH_ATTEMPTS: u8 = 4;

/// How many seconds may pass before a new session begins.
pub const SESSION_SNAP_WINDOW_SECONDS: i64 = 600;

/// Where the application keeps its files.
#[derive(Debug)]
pub struct AppBootPaths {
    pub db_path: String,
    pub model_cache_root: String,
    pub cache_root: String,
    pub source_cache_root: String,
}

/// The path of `name` within `dir`.
pub open spec fn joined(dir: Seq<char>, name: Seq<char>) -> Seq<char> {
    if dir.len() == 0 || dir.last() == '/' {
        dir + name
    } else {
        dir + "/"@ + name
    }
}

/// The path of `name` within `dir`.
pub fn join(dir: &str, name: &str) -> (r: String)
    ensures
        r@ == joined(dir@, name@),
{
    let chars = text::chars_of(dir);
    let mut r = dir.to_owned();
    if chars.len() > 0 && chars[chars.len() - 1] != '/' {
        r.append("/");
    }
    r.append(name);
    assert(r@ =~= joined(dir@, name@));
    r
}

impl AppBootPaths {
    /// Where the application keeps its files, given its directories for data and for the cache.
    pub fn resolve(data_dir: &str, cache_dir: &str) -> (r: Self)
        ensures
            r.db_path@ == joined(data_dir@, "picmash.sqlite3"@),
            r.model_cache_root@ == cache_dir@,
            r.cache_root@ == joined(cache_dir@, "renditions"@),
            r.source_cache_root@ == joined(cache_dir@, "sources"@),
    {
        AppBootPaths {
            db_path: join(data_dir, "picmash.sqlite3"),
            model_cache_root: cache_dir.to_owned(),
            cache_root: join(cache_dir, "renditions"),
            source_cache_root: join(cache_dir, "sources"),
        }
    }
}

/// The quality model to start with, and whether it replaces the stored one.
pub fn boot_quality_model(stored: QualityFormalVersion, current: QualityFormalVersion) -> (r: (
    QualityFormalVersion,
    bool,
))
    ensures
        r == (current, stored != current),
{
    (current, stored != current)
}

/// The face is large enough: its shorter side is. A side that is not a number is passed over.
pub open spec fn large_enough(width: Scalar, height: Scalar, min_side: Scalar) -> bool {
    if width.nan() {
        height.reaches(min_side)
    } else if height.nan() {
        width.reaches(min_side)
    } else {
        width.reaches(min_side) && height.reaches(min_side)
    }
}

/// Whether a face is large enough.
pub fn face_is_large_enough(width: Scalar, height: Scalar, min_side: Scalar) -> (r: bool)
    ensures
        r == large_enough(width, height, min_side),
{
    if width.is_nan() {
        height.does_reach(min_side)
    } else if height.is_nan() {
        width.does_reach(min_side)
    } else {
        width.does_reach(min_side) && height.does_reach(min_side)
    }
}

/// A batch of images that is gone through for faces.
#[derive(Debug, Clone, Copy, PartialEq, Eq, Structural)]
pub struct FaceScanBatch {
    pub limit: usize,
    pub scanned: usize,
    pub detected: usize,
    pub embedded: usize,
}

/// What is done with the next image of a batch.
#[derive(Debug, Clone, Copy, PartialEq, Eq, Structural)]
pub enum FaceScanStep {
    /// The batch is complete.
    Stop,
    /// The image was gone through before.
    Skip,
    Scan,
}

impl FaceScanBatch {
    /// The batch with nothing done yet.
    pub fn begin(limit: usize) -> (r: Self)
        ensures
            r == (FaceScanBatch { limit, scanned: 0, detected: 0, embedded: 0 }),
    {
        FaceScanBatch { limit, scanned: 0, detected: 0, embedded: 0 }
    }

    /// What is done with the next image. An image that is gone through counts, whatever is found in
    /// it.
    pub fn next(&mut self, already_scanned: bool) -> (r: FaceScanStep)
        requires
            old(self).scanned <= old(self).limit,
        ensures
            r == if old(self).scanned >= old(self).limit {
                FaceScanStep::Stop
            } else if already_scanned {
                FaceScanStep::Skip
            } else {
                FaceScanStep::Scan
            },
            *final(self) == if r == FaceScanStep::Scan {
                (FaceScanBatch { scanned: (old(self).scanned + 1) as usize, ..*old(self) })
            } else {
                *old(self)
            },
            final(self).scanned <= final(self).limit,
    {
        if self.scanned >= self.limit {
            FaceScanStep::Stop
        } else if already_scanned {
            FaceScanStep::Skip
        } else {
            self.scanned = self.scanned + 1;
            FaceScanStep::Scan
        }
    }

    /// Notes what was found in an image.
    pub fn note(&mut self, detected: usize, embedded: usize)
        requires
            old(self).detected + detected <= usize::MAX,
            old(self).embedded + embedded <= usize::MAX,
        ensures
            *final(self) == (FaceScanBatch {
                detected: (old(self).detected + detected) as usize,
                embedded: (old(self).embedded + embedded) as usize,
                ..*old(self)
            }),
    {
        self.detected = self.detected + detected;
        self.embedded = self.embedded + embedded;
    }
}

/// The cut-out of a face as PNG, if it can be written as such.
pub fn encode_display_crop_png(crop: Raster) -> (r: Option<Vec<u8>>)
    requires
        crop.whole(),
    ensures
        match png::png_encoding(crop.pixels@, crop.width, crop.height) {
            Ok(content) => r matches Some(bytes) && bytes@ == content,
            Err(_) => r is None,
        },
{
    match png::encode_png(crop) {
        Ok(bytes) => Some(bytes),
        Err(_) => None,
    }
}

/// What is known of a face that was found in an image.
#[derive(Debug, Clone, Copy, PartialEq, Eq, Structural)]
pub struct PreparedFace {
    /// The user deleted the face before.
    pub tombstoned: bool,
    pub embedded: bool,
    pub has_crop: bool,
}

/// What is written down of the faces of an image.
#[derive(Debug)]
pub struct FacePass {
    /// The faces that are written down.
    pub kept: Vec<usize>,
    /// Those of them whose picture is written to disk.
    pub crops: Vec<usize>,
    pub embedded_count: usize,
}

/// How many of the first `n` faces are written down with an embedding.
pub open spec fn embedded_below(faces: Seq<PreparedFace>, n: int) -> int
    decreases n,
{
    if n <= 0 {
        0
    } else {
        embedded_below(faces, n - 1) + (if !faces[n - 1].tombstoned && faces[n - 1].embedded {
            1int
        } else {
            0
        })
    }
}

/// What is written down of the faces of an image: all but those that the user deleted before, and
/// none where the image was gone through in the meantime.
pub fn face_pass(faces: &Vec<PreparedFace>, already_scanned: bool) -> (r: FacePass)
    ensures
        already_scanned ==> r.kept@.len() == 0 && r.crops@.len() == 0 && r.embedded_count == 0,
        !already_scanned ==> {
            &&& pool::selects(r.kept@, faces@.len() as int, |i: int| !faces@[i].tombstoned)
            &&& pool::selects(
                r.crops@,
                faces@.len() as int,
                |i: int| !faces@[i].tombstoned && faces@[i].has_crop,
            )
            &&& r.embedded_count == embedded_below(faces@, faces@.len() as int)
        },
{
    if already_scanned {
        return FacePass { kept: Vec::new(), crops: Vec::new(), embedded_count: 0 };
    }
    let mut kept: Vec<bool> = Vec::new();
    let mut crops: Vec<bool> = Vec::new();
    let mut embedded_count: usize = 0;
    let mut i: usize = 0;
    while i < faces.len()
        invariant
            i <= faces.len(),
            kept.len() == i,
            crops.len() == i,
            embedded_count <= i,
            embedded_count == embedded_below(faces@, i as int),
            forall|j: int| 0 <= j < i ==> #[trigger] kept@[j] == !faces@[j].tombstoned,
            forall|j: int|
                0 <= j < i ==> #[trigger] crops@[j] == (!faces@[j].tombstoned && faces@[j].has_crop),
        decreases faces.len() - i,
    {
        let face = faces[i];
        kept.push(!face.tombstoned);
        crops.push(!face.tombstoned && face.has_crop);
        if !face.tombstoned && face.embedded {
            embedded_count += 1;
        }
        i += 1;
    }
    let kept_places = pool::select(&kept);
    let crop_places = pool::select(&crops);
    proof {
        pool::lemma_selects_by_flags(kept_places@, kept@, |j: int| !faces@[j].tombstoned);
        pool::lemma_selects_by_flags(
            crop_places@,
            crops@,
            |j: int| !faces@[j].tombstoned && faces@[j].has_crop,
        );
    }
    FacePass { kept: kept_places, crops: crop_places, embedded_count }
}

/// How far a refresh of the quality model has come.
#[derive(Debug, Clone, Copy, PartialEq, Eq, Structural)]
pub enum RefreshStep {
    /// Rebuild the model while nothing else is written.
    Rebuild,
    /// Prepare a new model and commit it unless something was written in the meantime.
    Attempt(u8),
    Done,
    /// Put the refresh off: the model kept being overtaken.
    Requeue,
}

/// How a refresh of the quality model begins.
pub fn begin_refresh(quality_model: QualityFormalVersion) -> (r: RefreshStep)
    ensures
        r == if quality_model == QualityFormalVersion::HierarchicalPerturbativeV3 {
            RefreshStep::Attempt(1)
        } else {
            RefreshStep::Rebuild
        },
{
    match quality_model {
        QualityFormalVersion::HierarchicalPerturbativeV3 => RefreshStep::Attempt(1),
        _ => RefreshStep::Rebuild,
    }
}

/// How a refresh goes on after a step. A rebuild always succeeds.
pub open spec fn refreshed(step: RefreshStep, committed: bool) -> RefreshStep {
    match step {
        RefreshStep::Rebuild => RefreshStep::Done,
        RefreshStep::Attempt(n) => if committed {
            RefreshStep::Done
        } else if n < QUALITY_REFRESH_ATTEMPTS {
            RefreshStep::Attempt((n + 1) as u8)
        } else {
            RefreshStep::Requeue
        },
        RefreshStep::Done => RefreshStep::Done,
        RefreshStep::Requeue => RefreshStep::Requeue,
    }
}

/// How a refresh goes on after a step.
pub fn continue_refresh(step: RefreshStep, committed: bool) -> (r: RefreshStep)
    ensures
        r == refreshed(step, committed),
{
    match step {
        RefreshStep::Rebuild => RefreshStep::Done,
        RefreshStep::Attempt(n) => {
            if committed {
                RefreshStep::Done
            } else if n < QUALITY_REFRESH_ATTEMPTS {
                RefreshStep::Attempt(n + 1)
            } else {
                RefreshStep::Requeue
            }
        },
        RefreshStep::Done => RefreshStep::Done,
        RefreshStep::Requeue => RefreshStep::Requeue,
    }
}

/// A model that is overtaken every time is tried four times and then put off.
pub proof fn refreshes_give_up_after_four_attempts()
    ensures
        refreshed(
            refreshed(refreshed(refreshed(RefreshStep::Attempt(1), false), false), false),
            false,
        ) == RefreshStep::Requeue,
        refreshed(refreshed(refreshed(RefreshStep::Attempt(1), false), false), false)
            == RefreshStep::Attempt(4),
{
}

} // verus!
