use benchmarks::plan::{
    datasets_to_run, distances_to_run, plan_runs, set_or_all, PlannedRun,
};
use benchmarks::scenarios::{
    Dataset, MatSource, ScenarioContender, ScenarioDistance, ScenarioFiltering,
    ScenarioOversampling, ScenarioSearch,
};

const DATASETS: [Dataset; 6] = [
    Dataset::HnPosts,
    Dataset::DatacompSmall,
    Dataset::Wikipedia,
    Dataset::HnTopPost,
    Dataset::DbPediaAda002,
    Dataset::DbPedia3Large,
];

const DISTANCES: [ScenarioDistance; 7] = [
    ScenarioDistance::Cosine,
    ScenarioDistance::BqCosine,
    ScenarioDistance::Euclidean,
    ScenarioDistance::BqEuclidean,
    ScenarioDistance::Hamming,
    ScenarioDistance::Manhattan,
    ScenarioDistance::BqManhattan,
];

const FILTERINGS: [(ScenarioFiltering, f32); 9] = [
    (ScenarioFiltering::NoFilter, 1.0),
    (ScenarioFiltering::Filter50, 0.50),
    (ScenarioFiltering::Filter25, 0.25),
    (ScenarioFiltering::Filter15, 0.15),
    (ScenarioFiltering::Filter10, 0.1),
    (ScenarioFiltering::Filter8, 0.08),
    (ScenarioFiltering::Filter6, 0.06),
    (ScenarioFiltering::Filter2, 0.02),
    (ScenarioFiltering::Filter1, 0.01),
];

#[test]
fn datasets_have_their_sources() {
    let expected = [
        ("Hackernews posts", "assets/hn-posts.mat", 512),
        ("Datacomp small", "assets/datacomp-small.mat", 768),
        (
            "wikipedia 22 12 simple embeddings",
            "assets/wikipedia-22-12-simple-embeddings.mat",
            768,
        ),
        ("Hackernews top posts", "assets/hn-top-posts.mat", 1024),
        (
            "db pedia OpenAI text-embedding ada  002",
            "assets/db-pedia-OpenAI-text-embedding-ada-002.mat",
            1536,
        ),
        (
            "db pedia OpenAI text-embedding 3 large",
            "assets/db-pedia-OpenAI-text-embedding-3-large.mat",
            3072,
        ),
    ];
    for (dataset, (name, path, dimensions)) in DATASETS.iter().zip(expected) {
        let source = MatSource::from(*dataset);
        assert_eq!(source.name, name);
        assert_eq!(source.path, path);
        assert_eq!(source.dimensions, dimensions);
    }
}

#[test]
fn ranks_lead_back() {
    for (i, dataset) in DATASETS.iter().enumerate() {
        assert_eq!(dataset.rank(), i);
        assert_eq!(Dataset::at_rank(i), Some(*dataset));
    }
    assert_eq!(Dataset::at_rank(6), None);
    for (i, distance) in DISTANCES.iter().enumerate() {
        assert_eq!(distance.rank(), i);
        assert_eq!(ScenarioDistance::at_rank(i), Some(*distance));
    }
    assert_eq!(ScenarioDistance::at_rank(7), None);
}

#[test]
fn ranks_order_distances_as_their_variants() {
    for a in DISTANCES {
        for b in DISTANCES {
            assert_eq!(a.rank() < b.rank(), a < b);
        }
    }
}

#[test]
fn distances_are_named() {
    for distance in DISTANCES {
        assert_eq!(distance.variant_name(), format!("{:16?}", distance));
    }
    assert_eq!(ScenarioDistance::BqCosine.name(), "BinaryQuantizedCosine");
    assert_eq!(ScenarioDistance::Manhattan.name(), "Manhattan");
    assert_eq!(ScenarioDistance::Hamming.name(), "$distance");
}

#[test]
fn quantized_distances_are_known() {
    let quantized: Vec<ScenarioDistance> =
        DISTANCES.iter().copied().filter(|d| d.binary_quantized()).collect();
    assert_eq!(
        quantized,
        vec![
            ScenarioDistance::BqCosine,
            ScenarioDistance::BqEuclidean,
            ScenarioDistance::BqManhattan
        ]
    );
}

#[test]
fn oversampling_has_a_factor_and_a_text() {
    assert_eq!(ScenarioOversampling::X1.to_non_zero_usize(), None);
    assert_eq!(ScenarioOversampling::X3.to_non_zero_usize(), Some(3));
    assert_eq!(ScenarioOversampling::X1.to_text(), "x1");
    assert_eq!(ScenarioOversampling::X3.to_text(), "x3");
}

#[test]
fn filterings_are_shares() {
    for (filtering, ratio) in FILTERINGS {
        assert_eq!(filtering.to_hundredths() as f32 / 100.0, ratio);
        assert_eq!(filtering.percentage_text(), format!("{:#.2}", ratio * 100.0));
    }
}

#[test]
fn contenders_have_tags() {
    assert_eq!(ScenarioContender::Arroy.tag(), "[arroy]  ");
    assert_eq!(ScenarioContender::Hannoy.tag(), "[hannoy]  ");
}

#[test]
fn searches_are_compared_by_their_parts() {
    let a = ScenarioSearch {
        oversampling: ScenarioOversampling::X1,
        filtering: ScenarioFiltering::NoFilter,
    };
    let b = ScenarioSearch {
        oversampling: ScenarioOversampling::X1,
        filtering: ScenarioFiltering::Filter50,
    };
    assert!(a < b);
    assert!(a != b);
}

#[test]
fn nothing_chosen_means_all() {
    assert_eq!(set_or_all(vec![], vec![1, 2]), vec![1, 2]);
    assert_eq!(set_or_all(vec![2, 2], vec![1, 2]), vec![2, 2]);
}

#[test]
fn runs_are_planned_in_order_without_repetition() {
    let runs = plan_runs(
        &vec![Dataset::Wikipedia, Dataset::HnPosts, Dataset::Wikipedia],
        &vec![ScenarioDistance::Hamming, ScenarioDistance::Cosine, ScenarioDistance::Hamming],
    );
    let run = |dataset, distance, header| PlannedRun { dataset, distance, header };
    assert_eq!(
        runs,
        vec![
            run(Dataset::HnPosts, ScenarioDistance::Cosine, true),
            run(Dataset::HnPosts, ScenarioDistance::Hamming, false),
            run(Dataset::Wikipedia, ScenarioDistance::Cosine, true),
            run(Dataset::Wikipedia, ScenarioDistance::Hamming, false),
        ]
    );
}

#[test]
fn all_runs_are_planned() {
    let runs = plan_runs(&DATASETS.to_vec(), &DISTANCES.to_vec());
    assert_eq!(runs.len(), 42);
    assert_eq!(runs.iter().filter(|run| run.header).count(), 6);
    assert_eq!(plan_runs(&vec![], &DISTANCES.to_vec()), vec![]);
    assert_eq!(plan_runs(&DATASETS.to_vec(), &vec![]), vec![]);
}

#[test]
fn order_and_repetition_do_not_change_the_plan() {
    let mut datasets = DATASETS.to_vec();
    datasets.reverse();
    datasets.push(Dataset::HnTopPost);
    let mut distances = DISTANCES.to_vec();
    distances.rotate_left(3);
    assert_eq!(
        plan_runs(&datasets, &distances),
        plan_runs(&DATASETS.to_vec(), &DISTANCES.to_vec())
    );
}

#[test]
fn everything_is_run_where_nothing_was_chosen() {
    let datasets = datasets_to_run(vec![]);
    assert_eq!(datasets, Dataset::all());
    assert_eq!(datasets.len(), 6);
    assert!(datasets.iter().enumerate().all(|(i, d)| d.rank() == i));
    let distances = distances_to_run(vec![]);
    assert_eq!(distances, ScenarioDistance::all());
    assert_eq!(distances.len(), 7);
    assert!(distances.iter().enumerate().all(|(i, d)| d.rank() == i));
    assert_eq!(datasets_to_run(vec![Dataset::Wikipedia]), vec![Dataset::Wikipedia]);
    let chosen = vec![ScenarioDistance::Hamming, ScenarioDistance::Cosine];
    assert_eq!(distances_to_run(chosen.clone()), chosen);
    assert_eq!(plan_runs(&datasets, &distances).len(), 42);
}

#[test]
fn every_dataset_has_a_file_of_its_own() {
    let paths: Vec<&str> = Dataset::all().into_iter().map(|d| MatSource::from(d).path).collect();
    for (i, path) in paths.iter().enumerate() {
        assert!(!paths[..i].contains(path));
    }
}
