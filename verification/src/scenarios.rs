//! What a benchmark run is made of: datasets, contenders, distances, and the
//! ways to search.

use vstd::prelude::*;
use vstd::std_specs::convert::FromSpecImpl;
use vstd::string::*;

use crate::text::{decimal, decimal_text};

verus! {

/// The vectors that can be indexed and searched.
#[derive(Debug, Copy, Clone, PartialEq, Eq, Structural)]
pub enum Dataset {
    /// Hackernews posts (512)
    HnPosts,
    /// Datacomp small(768)
    DatacompSmall,
    /// Wikipedia (768)
    Wikipedia,
    /// Hackernews top posts (1024)
    HnTopPost,
    /// db pedia OpenAI text-embedding ada 002 (1536)
    DbPediaAda002,
    /// db pedia OpenAI text-embedding 3 large (3072)
    DbPedia3Large,
}

/// Where the matrix of a dataset is found, and how wide it is.
#[derive(Debug, Copy, Clone)]
pub struct MatSource {
    /// What the dataset is called in reports.
    pub name: &'static str,
    /// The file that holds the matrix.
    pub path: &'static str,
    /// The number of components of a vector.
    pub dimensions: usize,
}

impl Dataset {
    /// What the dataset is called in reports.
    pub open spec fn name(self) -> &'static str {
        match self {
            Dataset::HnPosts => "Hackernews posts",
            Dataset::DatacompSmall => "Datacomp small",
            Dataset::Wikipedia => "wikipedia 22 12 simple embeddings",
            Dataset::HnTopPost => "Hackernews top posts",
            Dataset::DbPediaAda002 => "db pedia OpenAI text-embedding ada  002",
            Dataset::DbPedia3Large => "db pedia OpenAI text-embedding 3 large",
        }
    }

    /// The file that holds the matrix.
    pub open spec fn path(self) -> &'static str {
        match self {
            Dataset::HnPosts => "assets/hn-posts.mat",
            Dataset::DatacompSmall => "assets/datacomp-small.mat",
            Dataset::Wikipedia => "assets/wikipedia-22-12-simple-embeddings.mat",
            Dataset::HnTopPost => "assets/hn-top-posts.mat",
            Dataset::DbPediaAda002 => "assets/db-pedia-OpenAI-text-embedding-ada-002.mat",
            Dataset::DbPedia3Large => "assets/db-pedia-OpenAI-text-embedding-3-large.mat",
        }
    }

    /// The number of components of a vector.
    pub open spec fn dimensions(self) -> usize {
        match self {
            Dataset::HnPosts => 512,
            Dataset::DatacompSmall => 768,
            Dataset::Wikipedia => 768,
            Dataset::HnTopPost => 1024,
            Dataset::DbPediaAda002 => 1536,
            Dataset::DbPedia3Large => 3072,
        }
    }

    /// The place of the dataset in the order in which datasets are run.
    pub open spec fn place(self) -> usize {
        match self {
            Dataset::HnPosts => 0,
            Dataset::DatacompSmall => 1,
            Dataset::Wikipedia => 2,
            Dataset::HnTopPost => 3,
            Dataset::DbPediaAda002 => 4,
            Dataset::DbPedia3Large => 5,
        }
    }

    /// The place of the dataset in the order in which datasets are run.
    pub fn rank(self) -> (place: usize)
        ensures
            place == self.place(),
            place < 6,
    {
        match self {
            Dataset::HnPosts => 0,
            Dataset::DatacompSmall => 1,
            Dataset::Wikipedia => 2,
            Dataset::HnTopPost => 3,
            Dataset::DbPediaAda002 => 4,
            Dataset::DbPedia3Large => 5,
        }
    }

    /// The dataset at a place of the order, if there is one.
    pub fn at_rank(place: usize) -> (dataset: Option<Dataset>)
        ensures
            dataset matches Some(d) ==> d.place() == place,
            dataset is None <==> place >= 6,
    {
        match place {
            0 => Some(Dataset::HnPosts),
            1 => Some(Dataset::DatacompSmall),
            2 => Some(Dataset::Wikipedia),
            3 => Some(Dataset::HnTopPost),
            4 => Some(Dataset::DbPediaAda002),
            5 => Some(Dataset::DbPedia3Large),
            _ => None,
        }
    }

    /// All datasets, in order.
    pub fn all() -> (list: Vec<Dataset>)
        ensures
            list@ == all_datasets(),
    {
        let list = vec![
            Dataset::HnPosts,
            Dataset::DatacompSmall,
            Dataset::Wikipedia,
            Dataset::HnTopPost,
            Dataset::DbPediaAda002,
            Dataset::DbPedia3Large,
        ];
        assert(list@ =~= all_datasets());
        list
    }
}

impl From<Dataset> for MatSource {
    fn from(dataset: Dataset) -> (source: Self) {
        match dataset {
            Dataset::HnPosts => MatSource {
                name: "Hackernews posts",
                path: "assets/hn-posts.mat",
                dimensions: 512,
            },
            Dataset::DatacompSmall => MatSource {
                name: "Datacomp small",
                path: "assets/datacomp-small.mat",
                dimensions: 768,
            },
            Dataset::Wikipedia => MatSource {
                name: "wikipedia 22 12 simple embeddings",
                path: "assets/wikipedia-22-12-simple-embeddings.mat",
                dimensions: 768,
            },
            Dataset::HnTopPost => MatSource {
                name: "Hackernews top posts",
                path: "assets/hn-top-posts.mat",
                dimensions: 1024,
            },
            Dataset::DbPediaAda002 => MatSource {
                name: "db pedia OpenAI text-embedding ada  002",
                path: "assets/db-pedia-OpenAI-text-embedding-ada-002.mat",
                dimensions: 1536,
            },
            Dataset::DbPedia3Large => MatSource {
                name: "db pedia OpenAI text-embedding 3 large",
                path: "assets/db-pedia-OpenAI-text-embedding-3-large.mat",
                dimensions: 3072,
            },
        }
    }
}

impl FromSpecImpl<Dataset> for MatSource {
    open spec fn obeys_from_spec() -> bool {
        true
    }

    open spec fn from_spec(dataset: Dataset) -> MatSource {
        MatSource {
            name: dataset.name(),
            path: dataset.path(),
            dimensions: dataset.dimensions(),
        }
    }
}

/// All datasets, in order.
pub open spec fn all_datasets() -> Seq<Dataset> {
    seq![
        Dataset::HnPosts,
        Dataset::DatacompSmall,
        Dataset::Wikipedia,
        Dataset::HnTopPost,
        Dataset::DbPediaAda002,
        Dataset::DbPedia3Large,
    ]
}

/// Every dataset is among all datasets, once, at its place.
pub proof fn lemma_all_datasets(dataset: Dataset, i: int)
    requires
        0 <= i < 6,
    ensures
        all_datasets().len() == 6,
        all_datasets()[dataset.place() as int] == dataset,
        all_datasets()[i] == dataset <==> i == dataset.place(),
{
}

/// No two datasets are read from the same file.
pub proof fn lemma_paths_differ(a: Dataset, b: Dataset)
    ensures
        a.path()@ == b.path()@ <==> a == b,
{
    reveal_strlit("assets/hn-posts.mat");
    reveal_strlit("assets/datacomp-small.mat");
    reveal_strlit("assets/wikipedia-22-12-simple-embeddings.mat");
    reveal_strlit("assets/hn-top-posts.mat");
    reveal_strlit("assets/db-pedia-OpenAI-text-embedding-ada-002.mat");
    reveal_strlit("assets/db-pedia-OpenAI-text-embedding-3-large.mat");
    assert("assets/db-pedia-OpenAI-text-embedding-ada-002.mat"@[38] == 'a');
    assert("assets/db-pedia-OpenAI-text-embedding-3-large.mat"@[38] == '3');
    assert(a != b ==> a.path()@.len() != b.path()@.len() || a.path()@[38] != b.path()@[38]);
}

/// Datasets can be told apart by their names.
pub proof fn lemma_names_differ(a: Dataset, b: Dataset)
    ensures
        a.name()@ == b.name()@ <==> a == b,
{
    reveal_strlit("Hackernews posts");
    reveal_strlit("Datacomp small");
    reveal_strlit("wikipedia 22 12 simple embeddings");
    reveal_strlit("Hackernews top posts");
    reveal_strlit("db pedia OpenAI text-embedding ada  002");
    reveal_strlit("db pedia OpenAI text-embedding 3 large");
    assert(a != b ==> a.name()@.len() != b.name()@.len());
}

/// The engines that can be measured.
#[derive(Debug, Copy, Clone, PartialEq, Eq, Structural, PartialOrd, Ord)]
pub enum ScenarioContender {
    Arroy,
    Hannoy,
}

impl ScenarioContender {
    /// The tag that starts the engine's lines in a report.
    pub open spec fn label(self) -> Seq<char> {
        match self {
            ScenarioContender::Arroy => "[arroy]  "@,
            ScenarioContender::Hannoy => "[hannoy]  "@,
        }
    }

    /// The tag that starts the engine's lines in a report.
    pub fn tag(self) -> (text: &'static str)
        ensures
            text@ == self.label(),
    {
        match self {
            ScenarioContender::Arroy => "[arroy]  ",
            ScenarioContender::Hannoy => "[hannoy]  ",
        }
    }
}

/// The distances that vectors can be compared by.
#[derive(Debug, Copy, Clone, PartialEq, Eq, Structural, PartialOrd, Ord)]
pub enum ScenarioDistance {
    Cosine,
    BqCosine,
    Euclidean,
    BqEuclidean,
    Hamming,
    Manhattan,
    BqManhattan,
}

impl ScenarioDistance {
    /// The name of the variant.
    pub open spec fn variant(self) -> Seq<char> {
        match self {
            ScenarioDistance::Cosine => "Cosine"@,
            ScenarioDistance::BqCosine => "BqCosine"@,
            ScenarioDistance::Euclidean => "Euclidean"@,
            ScenarioDistance::BqEuclidean => "BqEuclidean"@,
            ScenarioDistance::Hamming => "Hamming"@,
            ScenarioDistance::Manhattan => "Manhattan"@,
            ScenarioDistance::BqManhattan => "BqManhattan"@,
        }
    }

    /// The name of the variant.
    pub fn variant_name(self) -> (text: &'static str)
        ensures
            text@ == self.variant(),
    {
        match self {
            ScenarioDistance::Cosine => "Cosine",
            ScenarioDistance::BqCosine => "BqCosine",
            ScenarioDistance::Euclidean => "Euclidean",
            ScenarioDistance::BqEuclidean => "BqEuclidean",
            ScenarioDistance::Hamming => "Hamming",
            ScenarioDistance::Manhattan => "Manhattan",
            ScenarioDistance::BqManhattan => "BqManhattan",
        }
    }

    /// The name that is given to the distance: that of the engines' type for
    /// it, but for Hamming, whose name is the literal `$distance`.
    pub open spec fn engine_name(self) -> Seq<char> {
        match self {
            ScenarioDistance::Cosine => "Cosine"@,
            ScenarioDistance::BqCosine => "BinaryQuantizedCosine"@,
            ScenarioDistance::Euclidean => "Euclidean"@,
            ScenarioDistance::BqEuclidean => "BinaryQuantizedEuclidean"@,
            ScenarioDistance::Hamming => "$distance"@,
            ScenarioDistance::Manhattan => "Manhattan"@,
            ScenarioDistance::BqManhattan => "BinaryQuantizedManhattan"@,
        }
    }

    /// The name that is given to the distance: that of the engines' type for
    /// it, but for Hamming, whose name is the literal `$distance`.
    pub fn name(self) -> (text: &'static str)
        ensures
            text@ == self.engine_name(),
    {
        match self {
            ScenarioDistance::Cosine => "Cosine",
            ScenarioDistance::BqCosine => "BinaryQuantizedCosine",
            ScenarioDistance::Euclidean => "Euclidean",
            ScenarioDistance::BqEuclidean => "BinaryQuantizedEuclidean",
            ScenarioDistance::Hamming => "$distance",
            ScenarioDistance::Manhattan => "Manhattan",
            ScenarioDistance::BqManhattan => "BinaryQuantizedManhattan",
        }
    }

    /// Whether the engines reduce the components to their sign.
    pub fn binary_quantized(self) -> (yes: bool)
        ensures
            yes <==> self is BqCosine || self is BqEuclidean || self is BqManhattan,
    {
        match self {
            ScenarioDistance::BqCosine => true,
            ScenarioDistance::BqEuclidean => true,
            ScenarioDistance::BqManhattan => true,
            _ => false,
        }
    }

    /// The place of the distance in the order of the variants.
    pub open spec fn place(self) -> usize {
        match self {
            ScenarioDistance::Cosine => 0,
            ScenarioDistance::BqCosine => 1,
            ScenarioDistance::Euclidean => 2,
            ScenarioDistance::BqEuclidean => 3,
            ScenarioDistance::Hamming => 4,
            ScenarioDistance::Manhattan => 5,
            ScenarioDistance::BqManhattan => 6,
        }
    }

    /// The place of the distance in the order of the variants.
    pub fn rank(self) -> (place: usize)
        ensures
            place == self.place(),
            place < 7,
    {
        match self {
            ScenarioDistance::Cosine => 0,
            ScenarioDistance::BqCosine => 1,
            ScenarioDistance::Euclidean => 2,
            ScenarioDistance::BqEuclidean => 3,
            ScenarioDistance::Hamming => 4,
            ScenarioDistance::Manhattan => 5,
            ScenarioDistance::BqManhattan => 6,
        }
    }

    /// The distance at a place of the order, if there is one.
    pub fn at_rank(place: usize) -> (distance: Option<ScenarioDistance>)
        ensures
            distance matches Some(d) ==> d.place() == place,
            distance is None <==> place >= 7,
    {
        match place {
            0 => Some(ScenarioDistance::Cosine),
            1 => Some(ScenarioDistance::BqCosine),
            2 => Some(ScenarioDistance::Euclidean),
            3 => Some(ScenarioDistance::BqEuclidean),
            4 => Some(ScenarioDistance::Hamming),
            5 => Some(ScenarioDistance::Manhattan),
            6 => Some(ScenarioDistance::BqManhattan),
            _ => None,
        }
    }

    /// All distances, in order.
    pub fn all() -> (list: Vec<ScenarioDistance>)
        ensures
            list@ == all_distances(),
    {
        let list = vec![
            ScenarioDistance::Cosine,
            ScenarioDistance::BqCosine,
            ScenarioDistance::Euclidean,
            ScenarioDistance::BqEuclidean,
            ScenarioDistance::Hamming,
            ScenarioDistance::Manhattan,
            ScenarioDistance::BqManhattan,
        ];
        assert(list@ =~= all_distances());
        list
    }
}

/// How a distance is named after its variant: a quantized one with
/// `BinaryQuantized` for `Bq`, Hamming with the literal `$distance`, and any
/// other with the same name.
pub proof fn lemma_engine_names(distance: ScenarioDistance)
    ensures
        distance is BqCosine || distance is BqEuclidean || distance is BqManhattan ==> {
            &&& distance.variant().take(2) == "Bq"@
            &&& distance.engine_name() == "BinaryQuantized"@ + distance.variant().skip(2)
        },
        distance is Cosine || distance is Euclidean || distance is Manhattan
            ==> distance.engine_name() == distance.variant(),
        distance is Hamming ==> distance.engine_name() == "$distance"@,
{
    reveal_strlit("Bq");
    reveal_strlit("BinaryQuantized");
    reveal_strlit("BqCosine");
    reveal_strlit("BqEuclidean");
    reveal_strlit("BqManhattan");
    reveal_strlit("BinaryQuantizedCosine");
    reveal_strlit("BinaryQuantizedEuclidean");
    reveal_strlit("BinaryQuantizedManhattan");
    if distance is BqCosine || distance is BqEuclidean || distance is BqManhattan {
        assert(distance.variant().take(2) =~= "Bq"@);
        assert(distance.engine_name() =~= "BinaryQuantized"@ + distance.variant().skip(2));
    }
}

/// All distances, in order.
pub open spec fn all_distances() -> Seq<ScenarioDistance> {
    seq![
        ScenarioDistance::Cosine,
        ScenarioDistance::BqCosine,
        ScenarioDistance::Euclidean,
        ScenarioDistance::BqEuclidean,
        ScenarioDistance::Hamming,
        ScenarioDistance::Manhattan,
        ScenarioDistance::BqManhattan,
    ]
}

/// Every distance is among all distances, once, at its place.
pub proof fn lemma_all_distances(distance: ScenarioDistance, i: int)
    requires
        0 <= i < 7,
    ensures
        all_distances().len() == 7,
        all_distances()[distance.place() as int] == distance,
        all_distances()[i] == distance <==> i == distance.place(),
{
}

/// How many times more candidates than asked for are looked at.
#[derive(Debug, Copy, Clone, PartialEq, Eq, Structural, PartialOrd, Ord)]
pub enum ScenarioOversampling {
    X1,
    X3,
}

impl ScenarioOversampling {
    /// The factor to hand to an engine; none where the engine's own default
    /// is kept.
    pub open spec fn factor(self) -> Option<usize> {
        match self {
            ScenarioOversampling::X1 => None,
            ScenarioOversampling::X3 => Some(3),
        }
    }

    /// The factor to hand to an engine; none where the engine's own default
    /// is kept. The factor is never zero.
    pub fn to_non_zero_usize(self) -> (factor: Option<usize>)
        ensures
            factor == self.factor(),
            factor matches Some(n) ==> n != 0,
    {
        match self {
            ScenarioOversampling::X1 => None,
            ScenarioOversampling::X3 => Some(3),
        }
    }

    /// The factor as reports write it.
    pub open spec fn label(self) -> Seq<char> {
        match self {
            ScenarioOversampling::X1 => "x1"@,
            ScenarioOversampling::X3 => "x3"@,
        }
    }

    /// The factor as reports write it.
    pub fn to_text(self) -> (text: &'static str)
        ensures
            text@ == self.label(),
    {
        match self {
            ScenarioOversampling::X1 => "x1",
            ScenarioOversampling::X3 => "x3",
        }
    }
}

/// Which share of the items a search may return.
#[derive(Debug, Copy, Clone, PartialEq, Eq, Structural, PartialOrd, Ord, Hash)]
pub enum ScenarioFiltering {
    NoFilter,
    Filter50,
    Filter25,
    Filter15,
    Filter10,
    Filter8,
    Filter6,
    Filter2,
    Filter1,
}

impl ScenarioFiltering {
    /// The share, in hundredths.
    pub open spec fn hundredths(self) -> u8 {
        match self {
            ScenarioFiltering::NoFilter => 100,
            ScenarioFiltering::Filter50 => 50,
            ScenarioFiltering::Filter25 => 25,
            ScenarioFiltering::Filter15 => 15,
            ScenarioFiltering::Filter10 => 10,
            ScenarioFiltering::Filter8 => 8,
            ScenarioFiltering::Filter6 => 6,
            ScenarioFiltering::Filter2 => 2,
            ScenarioFiltering::Filter1 => 1,
        }
    }

    /// The share, in hundredths.
    pub fn to_hundredths(self) -> (share: u8)
        ensures
            share == self.hundredths(),
            1 <= share <= 100,
    {
        match self {
            ScenarioFiltering::NoFilter => 100,
            ScenarioFiltering::Filter50 => 50,
            ScenarioFiltering::Filter25 => 25,
            ScenarioFiltering::Filter15 => 15,
            ScenarioFiltering::Filter10 => 10,
            ScenarioFiltering::Filter8 => 8,
            ScenarioFiltering::Filter6 => 6,
            ScenarioFiltering::Filter2 => 2,
            ScenarioFiltering::Filter1 => 1,
        }
    }

    /// The share in percent, with two decimals.
    pub open spec fn percentage(self) -> Seq<char> {
        decimal(self.hundredths() as nat) + ".00"@
    }

    /// The share in percent, with two decimals.
    pub fn percentage_text(self) -> (text: String)
        ensures
            text@ == self.percentage(),
    {
        let mut text = decimal_text(self.to_hundredths() as usize);
        text.append(".00");
        text
    }
}

/// One way to search.
#[derive(Debug, PartialEq, Eq, Structural, PartialOrd, Ord)]
pub struct ScenarioSearch {
    pub oversampling: ScenarioOversampling,
    pub filtering: ScenarioFiltering,
}

} // verus!
