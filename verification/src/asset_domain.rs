//! Whether an image shows a photograph or a drawing.
use crate::model::AssetId;
use crate::scalar::Scalar;
use crate::text;
use vstd::prelude::*;

verus! {

/// How many images of each kind have to be labelled before the kinds are told apart.
pub const MIN_LABELS_PER_CLASS: usize = 10;

/// The pattern of 0.5.
pub const EVEN_PROBABILITY: u32 = 0x3f00_0000;

/// The pattern of 0.75, from which on a prediction is decisive.
pub const CONFIDENCE_THRESHOLD: u32 = 0x3f40_0000;

/// What an image shows.
#[derive(Debug, Clone, Copy, PartialEq, Eq, Hash, Structural)]
pub enum AssetDomainLabel {
    Real,
    Anime,
}

impl AssetDomainLabel {
    /// The name under which the label is stored.
    pub fn as_str(self) -> (r: &'static str)
        ensures
            r@ == match self {
                AssetDomainLabel::Real => "real"@,
                AssetDomainLabel::Anime => "anime"@,
            },
    {
        match self {
            AssetDomainLabel::Real => "real",
            AssetDomainLabel::Anime => "anime",
        }
    }

    /// The short name that is shown.
    pub fn display_str(self) -> (r: &'static str)
        ensures
            r@ == match self {
                AssetDomainLabel::Real => "3D"@,
                AssetDomainLabel::Anime => "2D"@,
            },
    {
        match self {
            AssetDomainLabel::Real => "3D",
            AssetDomainLabel::Anime => "2D",
        }
    }

    /// The long name that is shown.
    pub fn title(self) -> (r: &'static str)
        ensures
            r@ == match self {
                AssetDomainLabel::Real => "3D photograph / live action"@,
                AssetDomainLabel::Anime => "2D anime / illustration"@,
            },
    {
        match self {
            AssetDomainLabel::Real => "3D photograph / live action",
            AssetDomainLabel::Anime => "2D anime / illustration",
        }
    }

    /// The label that is stored under a name.
    pub fn from_name(value: &str) -> (r: Result<AssetDomainLabel, &'static str>)
        ensures
            match r {
                Ok(label) => value@ == match label {
                    AssetDomainLabel::Real => "real"@,
                    AssetDomainLabel::Anime => "anime"@,
                },
                Err(message) => {
                    &&& value@ != "real"@
                    &&& value@ != "anime"@
                    &&& message@ == "unknown asset domain label"@
                },
            },
    {
        if text::same_text(value, "real") {
            Ok(AssetDomainLabel::Real)
        } else if text::same_text(value, "anime") {
            Ok(AssetDomainLabel::Anime)
        } else {
            Err("unknown asset domain label")
        }
    }
}

/// An image that was labelled, with the numbers that describe it.
#[derive(Debug)]
pub struct AssetDomainTrainingRow {
    pub asset_id: AssetId,
    pub label: AssetDomainLabel,
    pub embedding: Vec<Scalar>,
}

/// How far the kinds can be told apart.
#[derive(Debug, Clone, Copy, PartialEq, Eq, Structural)]
pub struct AssetDomainStatus {
    pub real_labels: usize,
    pub anime_labels: usize,
    pub trained: bool,
}

impl Default for AssetDomainStatus {
    fn default() -> (r: Self)
        ensures
            r == (AssetDomainStatus { real_labels: 0, anime_labels: 0, trained: false }),
    {
        AssetDomainStatus { real_labels: 0, anime_labels: 0, trained: false }
    }
}

impl AssetDomainStatus {
    /// Whether the kinds can be told apart.
    pub fn ready(self) -> (r: bool)
        ensures
            r == self.trained,
    {
        self.trained
    }
}

/// How likely an image is a photograph.
#[derive(Debug, Clone, Copy, PartialEq, Eq, Structural)]
pub struct AssetDomainPrediction {
    pub real_probability: Scalar,
}

impl AssetDomainPrediction {
    /// The label that is at least as likely as the other.
    pub open spec fn likelier(self) -> AssetDomainLabel {
        if self.real_probability.reaches(Scalar { bits: EVEN_PROBABILITY }) {
            AssetDomainLabel::Real
        } else {
            AssetDomainLabel::Anime
        }
    }

    /// The prediction of a probability, bounded by 0 and 1.
    pub fn forge(real_probability: Scalar) -> (r: Self)
        ensures
            r.real_probability == if real_probability.below(Scalar { bits: 0 }) {
                Scalar { bits: 0 }
            } else if (Scalar { bits: 0x3f80_0000 }).below(real_probability) {
                Scalar { bits: 0x3f80_0000 }
            } else {
                real_probability
            },
    {
        let zero = Scalar { bits: 0 };
        let one = Scalar { bits: 0x3f80_0000 };
        let bounded = if real_probability.is_below(zero) {
            zero
        } else if one.is_below(real_probability) {
            one
        } else {
            real_probability
        };
        AssetDomainPrediction { real_probability: bounded }
    }

    /// How likely the image is a photograph.
    pub fn real_probability(self) -> (r: Scalar)
        ensures
            r == self.real_probability,
    {
        self.real_probability
    }

    /// The likelier label.
    pub fn label(self) -> (r: AssetDomainLabel)
        ensures
            r == self.likelier(),
    {
        if self.real_probability.does_reach(Scalar { bits: EVEN_PROBABILITY }) {
            AssetDomainLabel::Real
        } else {
            AssetDomainLabel::Anime
        }
    }

    /// The short name of the likelier label.
    pub fn leaning_display_str(self) -> (r: &'static str)
        ensures
            r@ == match self.likelier() {
                AssetDomainLabel::Real => "3D"@,
                AssetDomainLabel::Anime => "2D"@,
            },
    {
        self.label().display_str()
    }

    /// The likelier label, where its probability `confidence` is high enough.
    pub fn decisive_label(self, confidence: Scalar) -> (r: Option<AssetDomainLabel>)
        ensures
            r == if confidence.reaches(Scalar { bits: CONFIDENCE_THRESHOLD }) {
                Some(self.likelier())
            } else {
                None
            },
    {
        if confidence.does_reach(Scalar { bits: CONFIDENCE_THRESHOLD }) {
            Some(self.label())
        } else {
            None
        }
    }
}

/// What is known of the kind of an image.
#[derive(Debug, Clone, Copy, PartialEq, Eq, Structural)]
pub struct AssetDomainView {
    pub manual: Option<AssetDomainLabel>,
    pub predicted: Option<AssetDomainPrediction>,
}

impl AssetDomainView {
    /// The label by hand, or the predicted one.
    pub open spec fn effective(self) -> Option<AssetDomainLabel> {
        match self.manual {
            Some(label) => Some(label),
            None => match self.predicted {
                None => None,
                Some(prediction) => Some(prediction.likelier()),
            },
        }
    }

    /// The label by which images are paired: the one by hand, or the predicted one. There is none
    /// before the kinds can be told apart.
    pub fn pairing_label(self, status: AssetDomainStatus) -> (r: Option<AssetDomainLabel>)
        ensures
            r == if status.trained {
                self.effective()
            } else {
                None
            },
    {
        if !status.ready() {
            return None;
        }
        match self.manual {
            Some(label) => Some(label),
            None => match self.predicted {
                None => None,
                Some(prediction) => Some(prediction.label()),
            },
        }
    }
}

/// Two labels do not keep images apart: one is missing, or they are the same.
pub open spec fn may_meet(left: Option<AssetDomainLabel>, right: Option<AssetDomainLabel>) -> bool {
    left is None || right is None || left == right
}

/// Whether two labels do not keep images apart.
pub fn labels_may_meet(left: Option<AssetDomainLabel>, right: Option<AssetDomainLabel>) -> (r: bool)
    ensures
        r == may_meet(left, right),
{
    match (left, right) {
        (Some(a), Some(b)) => a == b,
        _ => true,
    }
}

/// All numbers are finite.
pub open spec fn all_finite(embedding: Seq<Scalar>) -> bool {
    forall|i: int| 0 <= i < embedding.len() ==> (#[trigger] embedding[i]).finite()
}

fn is_all_finite(embedding: &Vec<Scalar>) -> (r: bool)
    ensures
        r == all_finite(embedding@),
{
    let mut i: usize = 0;
    while i < embedding.len()
        invariant
            i <= embedding.len(),
            forall|j: int| 0 <= j < i ==> (#[trigger] embedding@[j]).finite(),
        decreases embedding.len() - i,
    {
        if !embedding[i].is_finite() {
            return false;
        }
        i += 1;
    }
    true
}

/// The rows describe images by equally many finite numbers, and by at least one.
pub open spec fn rows_fit(rows: Seq<AssetDomainTrainingRow>) -> bool {
    &&& rows.len() > 0
    &&& rows[0].embedding@.len() > 0
    &&& forall|i: int|
        0 <= i < rows.len() ==> (#[trigger] rows[i]).embedding@.len() == rows[0].embedding@.len()
            && all_finite(rows[i].embedding@)
}

/// How many rows have a label.
pub open spec fn labelled(rows: Seq<AssetDomainTrainingRow>, label: AssetDomainLabel) -> nat
    decreases rows.len(),
{
    if rows.len() == 0 {
        0
    } else {
        labelled(rows.drop_last(), label) + if rows.last().label == label {
            1nat
        } else {
            0nat
        }
    }
}

/// What comes of labelled images before any number is fitted.
#[derive(Debug, Clone, Copy, PartialEq, Eq, Structural)]
pub struct TrainingGate {
    /// How many numbers describe an image; 0 where the rows do not fit together.
    pub dim: usize,
    pub status: AssetDomainStatus,
    /// Whether the kinds are to be told apart by fitting.
    pub fit: bool,
}

/// The kinds can be told apart from `rows`: they fit together, and each kind has enough labels.
pub open spec fn tells_apart(rows: Seq<AssetDomainTrainingRow>) -> bool {
    &&& rows_fit(rows)
    &&& labelled(rows, AssetDomainLabel::Real) >= MIN_LABELS_PER_CLASS
    &&& labelled(rows, AssetDomainLabel::Anime) >= MIN_LABELS_PER_CLASS
}

impl TrainingGate {
    /// What is known once the kinds were told apart by fitting, or were not to be.
    pub fn trained_status(self) -> (r: AssetDomainStatus)
        ensures
            r.trained == self.fit,
            r.real_labels == self.status.real_labels,
            r.anime_labels == self.status.anime_labels,
    {
        AssetDomainStatus {
            real_labels: self.status.real_labels,
            anime_labels: self.status.anime_labels,
            trained: self.fit,
        }
    }
}

/// Counts the labels of `rows` and says whether the kinds can be told apart: only where the rows
/// fit together and each kind has enough labels.
pub fn training_gate(rows: &Vec<AssetDomainTrainingRow>) -> (r: TrainingGate)
    ensures
        !rows_fit(rows@) ==> r == (TrainingGate {
            dim: 0,
            status: AssetDomainStatus { real_labels: 0, anime_labels: 0, trained: false },
            fit: false,
        }),
        rows_fit(rows@) ==> {
            &&& r.dim == rows@[0].embedding@.len()
            &&& r.status.real_labels == labelled(rows@, AssetDomainLabel::Real)
            &&& r.status.anime_labels == labelled(rows@, AssetDomainLabel::Anime)
            &&& !r.status.trained
        },
        r.fit == tells_apart(rows@),
{
    let refused = TrainingGate { dim: 0, status: AssetDomainStatus::default(), fit: false };
    if rows.len() == 0 {
        return refused;
    }
    let dim: usize = rows[0].embedding.len();
    if dim == 0 {
        return refused;
    }
    let mut real_labels: usize = 0;
    let mut anime_labels: usize = 0;
    let mut i: usize = 0;
    while i < rows.len()
        invariant
            i <= rows.len(),
            rows.len() > 0,
            dim == rows@[0].embedding@.len(),
            dim > 0,
            forall|j: int|
                0 <= j < i ==> (#[trigger] rows@[j]).embedding@.len() == dim && all_finite(
                    rows@[j].embedding@,
                ),
            real_labels == labelled(rows@.take(i as int), AssetDomainLabel::Real),
            anime_labels == labelled(rows@.take(i as int), AssetDomainLabel::Anime),
            real_labels <= i,
            anime_labels <= i,
            refused == (TrainingGate {
                dim: 0,
                status: AssetDomainStatus { real_labels: 0, anime_labels: 0, trained: false },
                fit: false,
            }),
        decreases rows.len() - i,
    {
        let row = &rows[i];
        if row.embedding.len() != dim || !is_all_finite(&row.embedding) {
            return refused;
        }
        assert(rows@.take(i + 1).drop_last() =~= rows@.take(i as int));
        match row.label {
            AssetDomainLabel::Real => {
                real_labels += 1;
            },
            AssetDomainLabel::Anime => {
                anime_labels += 1;
            },
        }
        i += 1;
    }
    assert(rows@.take(i as int) =~= rows@);
    TrainingGate {
        dim,
        status: AssetDomainStatus { real_labels, anime_labels, trained: false },
        fit: real_labels >= MIN_LABELS_PER_CLASS && anime_labels >= MIN_LABELS_PER_CLASS,
    }
}

/// What is known of the kinds once a model was trained on `rows`: it is ready exactly where they can
/// be told apart.
pub fn training_status(rows: &Vec<AssetDomainTrainingRow>) -> (r: AssetDomainStatus)
    ensures
        r.trained == tells_apart(rows@),
        rows_fit(rows@) ==> r.real_labels == labelled(rows@, AssetDomainLabel::Real)
            && r.anime_labels == labelled(rows@, AssetDomainLabel::Anime),
        !rows_fit(rows@) ==> r.real_labels == 0 && r.anime_labels == 0,
{
    training_gate(rows).trained_status()
}

/// Whether an image can be told by its numbers: the kinds can be told apart, and the numbers are
/// finite and as many as were fitted.
pub fn can_predict(status: AssetDomainStatus, dim: usize, embedding: &Vec<Scalar>) -> (r: bool)
    ensures
        r == (status.trained && dim > 0 && embedding@.len() == dim && all_finite(embedding@)),
{
    status.ready() && dim != 0 && embedding.len() == dim && is_all_finite(embedding)
}

/// A label by hand always outweighs a predicted one.
pub proof fn labels_by_hand_win(view: AssetDomainView, label: AssetDomainLabel)
    requires
        view.manual == Some(label),
    ensures
        view.effective() == Some(label),
{
}

} // verus!
