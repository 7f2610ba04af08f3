use benchmarks::queries::{
    draw_queries, nearest_ids, number_points, take_ids, usage_notice, QUERY_COUNT,
};
use benchmarks::recall::{
    correctly_retrieved, recalls_text, reduce_outcomes, time_if_held, top_of, QueryOutcome, Shade,
    ALMOST_ALL, HALF, NINE_TENTHS, QUARTER, THREE_QUARTERS,
};
use benchmarks::scenarios::{
    ScenarioContender, ScenarioDistance, ScenarioFiltering, ScenarioOversampling, ScenarioSearch,
};
use benchmarks::search::{
    queries_counted, search_line_of, search_options, shown_digits, shown_recall, SearchAction,
    SearchReport, SearchRun, LEAKED,
};
use benchmarks::single::{quantize, Single, INFINITY_BITS};
use benchmarks::time::Span;
use benchmarks::{Recall, RNG_SEED};
use ordered_float::OrderedFloat;
use rand::rngs::StdRng;
use rand::seq::SliceRandom;
use rand::SeedableRng;
use roaring::RoaringBitmap;

fn single(x: f32) -> Single {
    Single { bits: x.to_bits() }
}

const SAMPLES: [f32; 18] = [
    f32::NEG_INFINITY,
    f32::MIN,
    -1.0,
    -f32::MIN_POSITIVE,
    -1e-45,
    -0.0,
    0.0,
    1e-45,
    f32::MIN_POSITIVE,
    0.1,
    0.25,
    0.90,
    0.999,
    1.0,
    3.5e8,
    f32::MAX,
    f32::INFINITY,
    f32::NAN,
];

#[test]
fn ranks_order_singles_as_floats_are_ordered() {
    for a in SAMPLES {
        for b in SAMPLES {
            let (x, y) = (single(a).rank(), single(b).rank());
            assert_eq!(x.cmp(&y), OrderedFloat(a).cmp(&OrderedFloat(b)), "{} {}", a, b);
        }
        assert_eq!(single(a).nan(), a.is_nan());
    }
    assert_eq!(single(-f32::NAN).rank(), single(f32::NAN).rank());
    assert_eq!(INFINITY_BITS, f32::INFINITY.to_bits());
}

#[test]
fn components_are_reduced_to_signs() {
    let signs = quantize(&SAMPLES.map(single));
    for (x, sign) in SAMPLES.iter().zip(signs) {
        assert_eq!(sign, *x > 0.0, "{}", x);
    }
}

#[test]
fn thresholds_are_the_nearest_singles() {
    assert_eq!(QUARTER, 0.25f32.to_bits());
    assert_eq!(HALF, 0.5f32.to_bits());
    assert_eq!(THREE_QUARTERS, 0.75f32.to_bits());
    assert_eq!(NINE_TENTHS, 0.90f32.to_bits());
    assert_eq!(ALMOST_ALL, 0.999f32.to_bits());
    assert_eq!(LEAKED, (-1.0f32).to_bits());
}

fn shade(x: f32) -> Shade {
    Recall(single(x)).shade_of()
}

#[test]
fn recalls_are_shaded() {
    let shades = [
        (f32::NEG_INFINITY, Shade::Red),
        (-1.0, Shade::Red),
        (-0.0, Shade::Red),
        (0.25, Shade::Red),
        (0.250001, Shade::Yellow),
        (0.5, Shade::Yellow),
        (0.51, Shade::Green),
        (0.75, Shade::Green),
        (0.76, Shade::Blue),
        (0.90, Shade::Blue),
        (0.91, Shade::Cyan),
        (0.999, Shade::Cyan),
        (0.9991, Shade::UnderlinedCyan),
        (1.0, Shade::UnderlinedCyan),
        (f32::INFINITY, Shade::UnderlinedCyan),
        (f32::NAN, Shade::Plain),
    ];
    for (x, expected) in shades {
        assert_eq!(shade(x), expected, "{}", x);
    }
}

#[test]
fn recalls_are_written_in_their_shade() {
    let text = |x: f32| Recall(single(x)).to_text(&format!("{:.2}", x));
    assert_eq!(text(0.1), "\x1b[1;31m0.10\x1b[0m");
    assert_eq!(text(0.4), "\x1b[1;33m0.40\x1b[0m");
    assert_eq!(text(0.6), "\x1b[1;32m0.60\x1b[0m");
    assert_eq!(text(0.8), "\x1b[1;34m0.80\x1b[0m");
    assert_eq!(text(0.95), "\x1b[1;36m0.95\x1b[0m");
    assert_eq!(text(1.0), "\x1b[1;4;36m1.00\x1b[0m");
    assert_eq!(text(f32::NAN), "NaN\x1b[0m");
}

#[test]
fn a_leak_is_shown_as_minus_one() {
    assert_eq!(shown_recall(None, single(0.5)), Recall(single(-1.0)));
    assert_eq!(shown_recall(Some(1), single(0.5)), Recall(single(0.5)));
    assert_eq!(shown_recall(None, single(0.5)).shade_of(), Shade::Red);
}

#[test]
fn only_the_nearest_are_relevant() {
    assert_eq!(top_of(&[5, 6, 7], 2), &[5, 6]);
    assert_eq!(top_of(&[5, 6, 7], 3), &[5, 6, 7]);
    assert_eq!(top_of(&[5, 6, 7], 9), &[5, 6, 7]);
}

#[test]
fn answers_are_scored() {
    assert_eq!(correctly_retrieved(&[1, 2, 3], &[3, 7, 1], None, 3), Some(2));
    assert_eq!(correctly_retrieved(&[1, 2, 3], &[3, 7, 1], None, 2), Some(1));
    assert_eq!(correctly_retrieved(&[1, 2, 3], &[3, 7, 1], None, 100), Some(2));
    assert_eq!(correctly_retrieved(&[], &[3], None, 1), Some(0));
    assert_eq!(correctly_retrieved(&[3, 3], &[3], None, 1), Some(2));
    assert_eq!(correctly_retrieved(&[7, 1, 3], &[3, 7, 1], None, 3), Some(3));
}

#[test]
fn filtered_answers_have_no_score() {
    let candidates: RoaringBitmap = [1u32, 3, 8].into_iter().collect();
    assert_eq!(correctly_retrieved(&[1, 3], &[3, 1], Some(&candidates), 2), Some(2));
    assert_eq!(correctly_retrieved(&[1, 8], &[3, 1], Some(&candidates), 2), Some(1));
    assert_eq!(correctly_retrieved(&[2, 1], &[3, 1], Some(&candidates), 2), None);
    assert_eq!(correctly_retrieved(&[7], &[7], Some(&candidates), 1), Some(1));
    let none = RoaringBitmap::new();
    assert_eq!(correctly_retrieved(&[1], &[3], Some(&none), 1), None);
}

fn outcome(retrieved: Option<u64>, secs: u64) -> QueryOutcome {
    QueryOutcome { retrieved, time: Span::new(secs, 0) }
}

#[test]
fn outcomes_are_put_together() {
    let all = reduce_outcomes((0..1000).map(|i| outcome(Some(i), 2)).collect());
    assert_eq!(all.retrieved, Some(499_500));
    assert_eq!(all.time.whole_seconds(), 2000);
    let none = reduce_outcomes(vec![]);
    assert_eq!(none.retrieved, Some(0));
    assert_eq!(none.time.total_nanos(), 0);
}

#[test]
fn work_can_be_split_anywhere() {
    let outcomes: Vec<QueryOutcome> = (0..20).map(|i| outcome(Some(i), i)).collect();
    let whole = reduce_outcomes(outcomes.clone());
    for at in 0..=20 {
        let a = reduce_outcomes(outcomes[..at].to_vec());
        let b = reduce_outcomes(outcomes[at..].to_vec());
        let both = a.and(b);
        assert_eq!(both.retrieved, whole.retrieved);
        assert_eq!(both.time.total_nanos(), whole.time.total_nanos());
    }
    let same = QueryOutcome::none().and(whole);
    assert_eq!(same.retrieved, whole.retrieved);
}

#[test]
fn one_leak_spoils_the_batch() {
    let all = reduce_outcomes(vec![outcome(Some(1), 1), outcome(None, 1), outcome(Some(2), 1)]);
    assert_eq!(all.retrieved, None);
    assert_eq!(all.time.whole_seconds(), 3);
}

#[test]
fn batches_that_are_too_large_are_known() {
    assert!(time_if_held(&vec![outcome(Some(u64::MAX), 1), outcome(Some(1), 1)]).is_none());
    assert!(time_if_held(&vec![outcome(Some(1), u64::MAX), outcome(Some(1), 1)]).is_none());
    let time = time_if_held(&vec![outcome(Some(1), 3), outcome(None, 4)]).unwrap();
    assert_eq!(time.whole_seconds(), 7);
}

fn search() -> ScenarioSearch {
    ScenarioSearch {
        oversampling: ScenarioOversampling::X3,
        filtering: ScenarioFiltering::Filter15,
    }
}

#[test]
fn arroys_searches_are_counted_as_a_whole() {
    let mut report = SearchReport::new();
    let batch = vec![outcome(Some(1), 3), outcome(Some(2), 4)];
    assert!(report.can_add_batch(ScenarioContender::Arroy, &batch));
    assert_eq!(report.add_batch(ScenarioContender::Arroy, batch), Some(3));
    report.add_recall(Recall(single(0.1)), "0.10");
    assert_eq!(report.add_batch(ScenarioContender::Arroy, vec![outcome(None, 1)]), None);
    report.add_recall(Recall(single(1.0)), "1.00");
    assert_eq!(
        report.to_line(ScenarioContender::Arroy, ScenarioDistance::BqCosine, &search()),
        "[arroy]  BqCosine x3: [\x1b[1;31m0.10\x1b[0m, \x1b[1;4;36m1.00\x1b[0m], \
         searched for: 8.00s, searched in 15.00%"
    );
}

#[test]
fn hannoys_searches_are_counted_by_the_mean() {
    let mut report = SearchReport::new();
    let batch = vec![outcome(Some(1), 3), outcome(Some(2), 4)];
    assert!(report.can_add_batch(ScenarioContender::Hannoy, &batch));
    assert_eq!(report.add_batch(ScenarioContender::Hannoy, batch), Some(3));
    report.add_recall(Recall(single(0.5)), "0.50");
    assert_eq!(report.add_batch(ScenarioContender::Hannoy, vec![outcome(Some(0), 1)]), Some(0));
    assert_eq!(
        report.to_line(ScenarioContender::Hannoy, ScenarioDistance::Cosine, &search()),
        "[hannoy]  Cosine [\x1b[1;33m0.50\x1b[0m], searched for: 4.50s, searched in 15.00%"
    );
    assert!(!report.can_add_batch(ScenarioContender::Hannoy, &vec![]));
    assert!(report.can_add_batch(ScenarioContender::Arroy, &vec![]));
}

#[test]
fn search_lines_are_put_together() {
    let line = search_line_of(
        ScenarioContender::Hannoy,
        ScenarioDistance::Hamming,
        &search(),
        &vec![],
        "now",
    );
    assert_eq!(line, "[hannoy]  Hamming [], searched for: now, searched in 15.00%");
    assert_eq!(recalls_text(&vec!["a".to_string(), "b".to_string()]), "[a, b]");
}

#[test]
fn recalls_are_counted_for_the_queries() {
    assert_eq!(queries_counted(ScenarioContender::Arroy, 7), 100);
    assert_eq!(queries_counted(ScenarioContender::Hannoy, 7), 7);
}

#[test]
fn a_notice_is_due_where_the_count_is_not_met() {
    assert_eq!(usage_notice(10, 10), None);
    assert_eq!(
        usage_notice(10, 3).unwrap(),
        "\x1b[1m3\x1b[0m vectors are used for this measure"
    );
    assert_eq!(
        usage_notice(10, 30).unwrap(),
        "\x1b[1m10\x1b[0m vectors are used for this measure"
    );
}

#[test]
fn rows_are_numbered() {
    let rows: Vec<&[u8]> = vec![&[1], &[2], &[3]];
    assert_eq!(number_points(&rows, 2), vec![(0, &[1u8][..]), (1, &[2][..])]);
    assert_eq!(number_points(&rows, 9).len(), 3);
    assert_eq!(number_points(&rows, 0), vec![]);
}

#[test]
fn queries_are_drawn_among_the_points() {
    let components: Vec<[u8; 1]> = (0..50).map(|i| [i]).collect();
    let rows: Vec<&[u8]> = components.iter().map(|c| &c[..]).collect();
    let points = number_points(&rows, 50);
    let queries = draw_queries(&points, 10, RNG_SEED);
    assert_eq!(queries.len(), QUERY_COUNT);
    assert!(queries.iter().all(|q| points.contains(q)));
    assert!(queries.iter().any(|q| *q != queries[0]));
    assert_eq!(queries, draw_queries(&points, 10, RNG_SEED));
    assert_ne!(queries, draw_queries(&points, 10, RNG_SEED + 1));
    let mut rng = StdRng::seed_from_u64(42);
    for query in &queries {
        assert_eq!(Some(query), points.choose(&mut rng));
    }
    assert_eq!(draw_queries(&points, 0, RNG_SEED), vec![]);
    let nothing: Vec<(u32, &[u8])> = vec![];
    assert_eq!(draw_queries(&nothing, 0, RNG_SEED), vec![]);
}

#[test]
fn the_nearest_points_are_found() {
    let distances = vec![
        (single(3.0), 0),
        (single(f32::NAN), 1),
        (single(-0.5), 2),
        (single(0.25), 3),
        (single(f32::INFINITY), 4),
    ];
    assert_eq!(nearest_ids(&distances, 5), vec![2, 3, 0, 4, 1]);
    assert_eq!(nearest_ids(&distances, 2), vec![2, 3]);
    assert_eq!(nearest_ids(&distances, 0), Vec::<u32>::new());
    assert_eq!(nearest_ids(&distances, 50).len(), 5);
}

#[test]
fn many_points_are_put_in_order() {
    let distances: Vec<(Single, u32)> =
        (0..5000u32).map(|i| (single(((i * 7919) % 5003) as f32), i)).collect();
    let ids = nearest_ids(&distances, 5000);
    let keys: Vec<u32> = ids.iter().map(|i| (i * 7919) % 5003).collect();
    assert!(keys.windows(2).all(|w| w[0] < w[1]));
    assert_eq!(&nearest_ids(&distances, 100)[..], &ids[..100]);
}

#[test]
fn ids_are_taken_from_the_front() {
    assert_eq!(take_ids(&vec![(1, 9), (2, 8)], 1), vec![9]);
    assert_eq!(take_ids(&vec![(1, 9), (2, 8)], 3), vec![9, 8]);
}

fn quick(retrieved: Option<u64>, nanos: u32) -> QueryOutcome {
    QueryOutcome { retrieved, time: Span::new(0, nanos) }
}

#[test]
fn every_way_to_search_has_a_line() {
    let ways = [
        ScenarioSearch {
            oversampling: ScenarioOversampling::X3,
            filtering: ScenarioFiltering::NoFilter,
        },
        ScenarioSearch {
            oversampling: ScenarioOversampling::X1,
            filtering: ScenarioFiltering::Filter50,
        },
    ];
    let ways: Vec<&ScenarioSearch> = ways.iter().collect();
    let tested = [1, 10];
    let mut run =
        SearchRun::new(ScenarioContender::Hannoy, ScenarioDistance::Cosine, &ways, &tested);
    let mut lines = vec![];
    for search in 0..2 {
        for fetched in tested {
            assert_eq!(run.action(), SearchAction::Answer { search, fetched });
            let outcomes = vec![quick(Some(1), 30), quick(Some(0), 10)];
            assert!(run.can_answer(&outcomes));
            assert!(!run.can_answer(&vec![]));
            run.answered(outcomes);
            let score = SearchAction::Score { retrieved: Some(1), fetched, counted: 2 };
            assert_eq!(run.action(), score);
            run.scored(single(0.5), "0.50");
        }
        assert_eq!(run.action(), SearchAction::Report { search });
        lines.push(run.report());
    }
    assert_eq!(run.action(), SearchAction::Finish);
    let recalls = "[\x1b[1;33m0.50\x1b[0m, \x1b[1;33m0.50\x1b[0m]";
    assert_eq!(
        lines,
        vec![
            format!(
                "[hannoy]  Cosine {}, searched for: 40.00ns, searched in 100.00%",
                recalls
            ),
            format!("[hannoy]  Cosine {}, searched for: 40.00ns, searched in 50.00%", recalls),
        ]
    );
}

#[test]
fn a_leak_is_reported_in_its_line() {
    let way = ScenarioSearch {
        oversampling: ScenarioOversampling::X3,
        filtering: ScenarioFiltering::Filter25,
    };
    let ways = [&way];
    let mut run = SearchRun::new(ScenarioContender::Arroy, ScenarioDistance::Hamming, &ways, &[5]);
    run.answered(vec![quick(Some(3), 7), quick(None, 5)]);
    let score = SearchAction::Score { retrieved: None, fetched: 5, counted: 100 };
    assert_eq!(run.action(), score);
    run.scored(single(0.75), "0.75");
    assert_eq!(
        run.report(),
        "[arroy]  Hamming x3: [\x1b[1;31m-1.00\x1b[0m], searched for: 12.00ns, searched in 25.00%"
    );
    assert_eq!(run.action(), SearchAction::Finish);
}

#[test]
fn without_recalls_there_are_still_lines() {
    let way = ScenarioSearch {
        oversampling: ScenarioOversampling::X1,
        filtering: ScenarioFiltering::NoFilter,
    };
    let ways = [&way];
    let mut run = SearchRun::new(ScenarioContender::Hannoy, ScenarioDistance::Cosine, &ways, &[]);
    assert_eq!(run.action(), SearchAction::Report { search: 0 });
    assert_eq!(
        run.report(),
        "[hannoy]  Cosine [], searched for: 0.00ns, searched in 100.00%"
    );
    assert_eq!(run.action(), SearchAction::Finish);
}

#[test]
fn the_order_of_the_queries_does_not_matter() {
    let outcomes =
        vec![quick(Some(3), 5), quick(Some(1), 9), quick(Some(0), 2), quick(Some(3), 5)];
    let mut turned = outcomes.clone();
    turned.reverse();
    let (a, b) = (reduce_outcomes(outcomes), reduce_outcomes(turned));
    assert_eq!(a.retrieved, Some(7));
    assert_eq!(a.retrieved, b.retrieved);
    assert_eq!(a.time.total_nanos(), 21);
    assert_eq!(a.time.total_nanos(), b.time.total_nanos());
}

#[test]
fn digits_of_a_leak_are_those_of_minus_one() {
    assert_eq!(shown_digits(None, "0.75"), "-1.00");
    assert_eq!(shown_digits(None, ""), format!("{:.2}", -1.0f32));
    assert_eq!(shown_digits(Some(0), "0.75"), "0.75");
}

#[test]
fn only_arroy_is_told_of_factors_and_candidates() {
    let way = |oversampling| ScenarioSearch {
        oversampling,
        filtering: ScenarioFiltering::Filter10,
    };
    let (plain, wide) = (way(ScenarioOversampling::X1), way(ScenarioOversampling::X3));
    assert_eq!(search_options(ScenarioContender::Arroy, &plain, true), (None, true));
    assert_eq!(search_options(ScenarioContender::Arroy, &wide, true), (Some(3), true));
    assert_eq!(search_options(ScenarioContender::Arroy, &wide, false), (Some(3), false));
    assert_eq!(search_options(ScenarioContender::Hannoy, &wide, true), (None, false));
}
