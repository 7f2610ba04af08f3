use benchmarks::arroy_bench::{self, ProgressAction, ProgressEvent, ProgressLog};
use benchmarks::hannoy_bench;
use benchmarks::load::{dimensions, first_misfit, LoadAction};
use benchmarks::metrics::{head_line_of, Record};
use benchmarks::report::{table_text, Row};
use benchmarks::size::{database_size_line_of, database_size_report};
use benchmarks::time::Span;
use benchmarks::IndexingMetrics;
use std::time::Duration;

fn span(d: Duration) -> Span {
    Span::new(d.as_secs(), d.subsec_nanos())
}

fn nanos(n: u64) -> Span {
    span(Duration::from_nanos(n))
}

fn millis(n: u64) -> Span {
    span(Duration::from_millis(n))
}

#[test]
fn spans_are_counted_as_durations() {
    let durations = [
        Duration::ZERO,
        Duration::from_nanos(1),
        Duration::from_nanos(999_999_999),
        Duration::new(1, 0),
        Duration::new(7, 123_456_789),
        Duration::new(3_000_000, 999_999_999),
    ];
    for a in durations {
        assert_eq!(span(a).total_nanos(), a.as_nanos());
        assert_eq!(span(a).whole_seconds(), a.as_secs());
        assert_eq!(span(a).subsec_nanos(), a.subsec_nanos());
        for b in durations {
            assert_eq!(span(a).plus(span(b)).total_nanos(), (a + b).as_nanos());
            assert_eq!(span(a).since(span(b)).total_nanos(), a.saturating_sub(b).as_nanos());
            assert!(span(a).can_add(span(b)));
        }
        for parts in [1, 2, 3, 100, u32::MAX] {
            assert_eq!(span(a).divided_by(parts).total_nanos(), (a / parts).as_nanos());
        }
    }
    assert_eq!(Span::zero().total_nanos(), 0);
}

#[test]
fn sums_that_are_too_long_are_known() {
    let longest = span(Duration::MAX);
    assert!(!longest.can_add(nanos(1)));
    assert!(longest.can_add(Span::zero()));
    assert!(Duration::MAX.checked_add(Duration::from_nanos(1)).is_none());
}

#[test]
fn spans_are_written_as_durations() {
    assert_eq!(nanos(0).to_text(), "0.00ns");
    assert_eq!(nanos(12_345).to_text(), "12.34µs");
    assert_eq!(nanos(1_500_000).to_text(), "1.50ms");
    assert_eq!(nanos(61_250_000_000).to_text(), "61.25s");
    for d in [Duration::ZERO, Duration::from_nanos(999), Duration::new(2, 995_000_000)] {
        assert_eq!(span(d).to_text(), format!("{:02.2?}", d));
    }
}

#[test]
fn sizes_are_written_in_binary_units() {
    assert_eq!(database_size_report(0), "Database size: 0 B");
    assert_eq!(database_size_report(10_000), "Database size: 9.77 KiB");
    assert_eq!(database_size_report(10 * 1024 * 1024), "Database size: 10 MiB");
    assert_eq!(database_size_line_of("3 B"), "Database size: 3 B");
}

#[test]
fn head_lines_list_the_steps() {
    let steps = vec!["1s".to_string(), "2s".to_string()];
    assert_eq!(head_line_of("3s", &steps), "Total time to index: 3s (1s + 2s)\n");
    assert_eq!(head_line_of("3s", &vec![]), "Total time to index: 3s ()\n");
}

fn row(label: &'static str, cells: &[&str]) -> Row {
    Row { label, cells: cells.iter().map(|c| c.to_string()).collect() }
}

#[test]
fn tables_are_aligned() {
    let text = table_text(&vec![row("a: ", &["1", "22"]), row("b: ", &["333", "4"])]);
    assert_eq!(text, "a:   1, 22\nb: 333,  4");
}

#[test]
fn columns_that_a_row_lacks_are_left_out() {
    let text = table_text(&vec![row("a: ", &["1", "22", "333"]), row("b: ", &["4444"])]);
    assert_eq!(text, "a:    1\nb: 4444");
    assert_eq!(table_text(&vec![row("a: ", &["1"]), row("b: ", &[])]), "a: \nb: ");
    assert_eq!(table_text(&vec![]), "");
}

#[test]
fn widths_are_those_of_bytes() {
    let text = table_text(&vec![row("a: ", &["1.00µs"]), row("b: ", &["1"])]);
    assert_eq!(text, "a:  1.00µs\nb:       1");
    let lines: Vec<&str> = text.split('\n').collect();
    assert_eq!(lines[0].chars().count(), lines[1].chars().count());
}

fn record() -> Record {
    let mut record = Record::new(Span::zero());
    record.start_insertion(millis(1), millis(1));
    record.end_insertion(millis(11));
    record.start_building(millis(12), millis(12));
    record.end_building(millis(1512));
    record.new_nb_vectors(1000);
    record.new_database_size(10_000);
    record.start_insertion(millis(2000), millis(2000));
    record.end_insertion(millis(2020));
    record.start_building(millis(2030), millis(2030));
    record.end_building(millis(3030));
    record.new_nb_vectors(2000);
    record.new_database_size(5 * 1024 * 1024);
    record.end(millis(3100));
    record
}

#[test]
fn a_record_is_reported() {
    let record = record();
    assert!(record.is_reportable());
    assert_eq!(
        record.to_text(),
        "Total time to index: 3.10s (1.51s + 1.02s)\n\
         \x20 => Vectors:        1000,     2000\n\
         \x20 => Insertions:  10.00ms,  20.00ms\n\
         \x20 => Builds:        1.50s,    1.00s\n\
         \x20 => Db size:    9.77 KiB, 5.00 MiB"
    );
}

#[test]
fn a_record_is_reported_with_trees() {
    let record = record();
    assert_eq!(
        record.to_text_with_trees(&vec![3, 12]),
        "Total time to index: 3.10s (1.51s + 1.02s)\n\
         \x20 => Vectors:        1000,     2000\n\
         \x20 => Insertions:  10.00ms,  20.00ms\n\
         \x20 => Builds:        1.50s,    1.00s\n\
         \x20 => Trees:             3,       12\n\
         \x20 => Db size:    9.77 KiB, 5.00 MiB"
    );
    assert_eq!(
        record.to_text_with_trees(&vec![3]),
        "Total time to index: 3.10s (1.51s + 1.02s)\n\
         \x20 => Vectors:        1000\n\
         \x20 => Insertions:  10.00ms\n\
         \x20 => Builds:        1.50s\n\
         \x20 => Trees:             3\n\
         \x20 => Db size:    9.77 KiB"
    );
}

#[test]
fn an_empty_record_is_reported() {
    assert_eq!(
        Record::new(Span::zero()).to_text(),
        "Total time to index: 0.00ns ()\n\
         \x20 => Vectors:    \n\
         \x20 => Insertions: \n\
         \x20 => Builds:     \n\
         \x20 => Db size:    "
    );
}

#[test]
fn moments_out_of_order_count_for_nothing() {
    let mut record = Record::new(Span::zero());
    record.start_insertion(millis(5), millis(5));
    record.end_insertion(millis(2));
    record.start_building(millis(5), millis(8));
    assert!(record.to_text().starts_with("Total time to index: 0.00ns (3.00ms)\n"));
}

#[test]
fn steps_that_are_too_long_are_not_reportable() {
    let mut record = Record::new(Span::zero());
    record.start_insertion(Span::zero(), span(Duration::MAX));
    assert!(record.is_reportable());
    record.start_building(Span::zero(), nanos(1));
    assert!(!record.is_reportable());
}

#[test]
fn metrics_read_the_clock() {
    let mut metrics = IndexingMetrics::new();
    metrics.start_insertion();
    metrics.end_insertion();
    metrics.start_building();
    metrics.end_building();
    metrics.new_nb_trees(7);
    metrics.new_nb_vectors(3);
    metrics.new_database_size(1);
    metrics.end();
    assert!(metrics.is_reportable());
    let text = metrics.to_text();
    let lines: Vec<&str> = text.split('\n').collect();
    assert_eq!(lines.len(), 6);
    assert!(lines[0].starts_with("Total time to index: "));
    assert!(lines[1].starts_with("  => Vectors:    ") && lines[1].ends_with(" 3"));
    assert!(lines[4].starts_with("  => Trees:      ") && lines[4].ends_with(" 7"));
    assert!(lines[5].ends_with(" 1 B"));
}

#[test]
fn clocks_go_on() {
    let mut metrics = hannoy_bench::IndexingMetrics::new();
    metrics.start_insertion();
    std::hint::black_box((0..200_000u64).map(std::hint::black_box).sum::<u64>());
    metrics.end_insertion();
    metrics.start_building();
    metrics.end_building();
    metrics.new_nb_vectors(3);
    metrics.new_database_size(1);
    metrics.end();
    let text = metrics.to_text();
    assert!(!text.starts_with("Total time to index: 0.00ns"));
    assert_eq!(text.split('\n').count(), 5);
}

#[test]
fn a_graph_is_loaded_in_one_chunk() {
    let mut load = hannoy_bench::Load::begin(10);
    assert_eq!(load.action(), LoadAction::Begin { from: 0, to: 10 });
    load.advance(hannoy_bench::LoadEvent::Begun);
    assert_eq!(load.action(), LoadAction::Insert { from: 0, to: 10 });
    load.advance(hannoy_bench::LoadEvent::Inserted);
    assert_eq!(load.action(), LoadAction::Prepare);
    load.advance(hannoy_bench::LoadEvent::Prepared);
    assert_eq!(load.action(), LoadAction::Build);
    load.advance(hannoy_bench::LoadEvent::Built);
    assert_eq!(load.action(), LoadAction::Commit);
    load.advance(hannoy_bench::LoadEvent::Committed { database_size: 2048 });
    assert_eq!(load.action(), LoadAction::Finish);
    let text = load.into_metrics().to_text();
    let lines: Vec<&str> = text.split('\n').collect();
    assert_eq!(lines.len(), 5);
    assert!(lines[1].ends_with(" 10"));
    assert!(lines[4].ends_with("2.00 KiB"));
}

#[test]
fn trees_are_loaded_at_once() {
    let mut load = arroy_bench::Load::begin(10);
    assert_eq!(load.action(), LoadAction::Begin { from: 0, to: 10 });
    load.advance(arroy_bench::LoadEvent::Begun);
    assert_eq!(load.action(), LoadAction::Insert { from: 0, to: 10 });
    load.advance(arroy_bench::LoadEvent::Inserted);
    assert_eq!(load.action(), LoadAction::Prepare);
    load.advance(arroy_bench::LoadEvent::Prepared);
    assert_eq!(load.action(), LoadAction::Build);
    load.advance(arroy_bench::LoadEvent::Built);
    assert_eq!(load.action(), LoadAction::Commit);
    load.advance(arroy_bench::LoadEvent::Committed { nb_trees: 4, database_size: 2048 });
    assert_eq!(load.action(), LoadAction::Finish);
    let text = load.into_metrics().to_text();
    let lines: Vec<&str> = text.split('\n').collect();
    assert_eq!(lines.len(), 6);
    assert!(lines[1].ends_with(" 10"));
    assert!(lines[4].ends_with(" 4"));
    assert!(lines[5].ends_with("2.00 KiB"));
}

#[test]
fn progress_is_told() {
    let mut log = ProgressLog::new();
    assert_eq!(log.advance(ProgressEvent::Timeout), ProgressAction::Wait);
    assert_eq!(log.advance(ProgressEvent::Step { counted: false }), ProgressAction::ReportStep);
    assert_eq!(log.advance(ProgressEvent::Timeout), ProgressAction::Wait);
    assert_eq!(log.advance(ProgressEvent::Step { counted: true }), ProgressAction::ReportStep);
    assert_eq!(log.advance(ProgressEvent::Timeout), ProgressAction::ReportRunning);
    assert_eq!(log.advance(ProgressEvent::Timeout), ProgressAction::ReportRunning);
    assert_eq!(log.advance(ProgressEvent::Disconnected), ProgressAction::Stop);
}

#[test]
fn points_are_measured() {
    let points: Vec<(u32, &[u8])> = vec![(0, &[1, 2, 3]), (1, &[4, 5, 6]), (2, &[7])];
    assert_eq!(dimensions(&points), 3);
    assert_eq!(first_misfit(&points, 3), Some(2));
    assert_eq!(first_misfit(&points[..2], 3), None);
    assert_eq!(first_misfit(&points, 1), Some(0));
}

/// The lengths in the first line of a report, in nanoseconds.
fn head_times(text: &str) -> Vec<f64> {
    let head = text.split('\n').next().unwrap();
    let head = head.strip_prefix("Total time to index: ").unwrap();
    let parts = head.replace(['(', ')'], "").replace(" + ", " ");
    let length = |part: &str| {
        let units = [("ns", 1.0), ("\u{b5}s", 1e3), ("ms", 1e6), ("s", 1e9)];
        let found = units.iter().find_map(|(unit, scale)| {
            part.strip_suffix(unit)?.parse::<f64>().ok().map(|n| n * scale)
        });
        found.unwrap()
    };
    parts.split(' ').filter(|part| !part.is_empty()).map(length).collect()
}

fn work() {
    std::hint::black_box((0..300_000u64).map(std::hint::black_box).sum::<u64>());
}

#[test]
fn no_step_takes_longer_than_the_whole() {
    let mut load = hannoy_bench::Load::begin(10);
    load.advance(hannoy_bench::LoadEvent::Begun);
    work();
    load.advance(hannoy_bench::LoadEvent::Inserted);
    load.advance(hannoy_bench::LoadEvent::Prepared);
    work();
    load.advance(hannoy_bench::LoadEvent::Built);
    load.advance(hannoy_bench::LoadEvent::Committed { database_size: 1 });
    let metrics = load.into_metrics();
    assert!(metrics.is_reportable());
    let times = head_times(&metrics.to_text());
    assert_eq!(times.len(), 2);
    assert!(0.0 < times[1] && times[1] <= times[0] * 1.01);
}

#[test]
fn getting_ready_counts_for_no_step() {
    let mut load = arroy_bench::Load::begin(10);
    load.advance(arroy_bench::LoadEvent::Begun);
    load.advance(arroy_bench::LoadEvent::Inserted);
    for _ in 0..20 {
        work();
    }
    load.advance(arroy_bench::LoadEvent::Prepared);
    load.advance(arroy_bench::LoadEvent::Built);
    load.advance(arroy_bench::LoadEvent::Committed { nb_trees: 1, database_size: 1 });
    let times = head_times(&load.into_metrics().to_text());
    assert_eq!(times.len(), 2);
    assert!(times[1] < times[0]);
}

#[test]
fn loads_refuse_points_that_do_not_fit() {
    let points: Vec<(u32, &[u8])> = vec![(0, &[1, 2]), (1, &[4, 5]), (2, &[7]), (3, &[])];
    assert_eq!(hannoy_bench::Load::begin_with(&points, 2).err(), Some(2));
    assert_eq!(arroy_bench::Load::begin_with(&points, 2).err(), Some(2));
    assert_eq!(arroy_bench::Load::begin_with(&points, 1).err(), Some(0));
    let load = hannoy_bench::Load::begin_with(&points[..2], 2).unwrap();
    assert_eq!(load.action(), LoadAction::Begin { from: 0, to: 2 });
    let load = arroy_bench::Load::begin_with(&points[..2], 2).unwrap();
    assert_eq!(load.action(), LoadAction::Begin { from: 0, to: 2 });
    let load = arroy_bench::Load::begin_with(&points[..0], 2).unwrap();
    assert_eq!(load.action(), LoadAction::Begin { from: 0, to: 0 });
}
