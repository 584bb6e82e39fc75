use oracle_etl::export::{core_slot, file_ranges, part_file_path, plan_slices, rows_to_columns, Slice};
use oracle_etl::messages::{congratulation_line, replacement_string, said_line, say_line};

fn pairs(plan: &[Slice]) -> Vec<(usize, usize)> {
    plan.iter().map(|s| (s.offset, s.limit)).collect()
}

#[test]
fn slices_split_rows_evenly() {
    assert_eq!(pairs(&plan_slices(10, 4)), vec![(0, 3), (3, 3), (6, 3), (9, 1)]);
    assert_eq!(pairs(&plan_slices(8, 4)), vec![(0, 2), (2, 2), (4, 2), (6, 2)]);
}

#[test]
fn fewer_rows_than_threads_means_fewer_workers() {
    assert_eq!(pairs(&plan_slices(3, 8)), vec![(0, 1), (1, 1), (2, 1)]);
    assert_eq!(pairs(&plan_slices(0, 8)), vec![]);
}

#[test]
fn slice_past_the_end_asks_for_a_full_share() {
    // 5 rows over 4 workers: shares of 2, the last worker starts past the end.
    assert_eq!(pairs(&plan_slices(5, 4)), vec![(0, 2), (2, 2), (4, 1), (6, 2)]);
}

#[test]
fn every_row_has_exactly_one_worker() {
    for total in 1..40usize {
        for threads in 1..12usize {
            let plan = plan_slices(total, threads);
            for r in 0..total {
                let owners = plan.iter().filter(|s| s.offset <= r && r < s.offset + s.limit).count();
                assert_eq!(owners, 1, "total {} threads {} row {}", total, threads, r);
            }
        }
    }
}

#[test]
fn cores_are_assigned_round_robin() {
    assert_eq!(core_slot(5, 4), Some(1));
    assert_eq!(core_slot(3, 4), Some(3));
    assert_eq!(core_slot(3, 0), None);
}

#[test]
fn rows_are_cut_into_files() {
    assert_eq!(file_ranges(7, 3), vec![(0, 3), (3, 6), (6, 7)]);
    assert_eq!(file_ranges(6, 3), vec![(0, 3), (3, 6)]);
    assert_eq!(file_ranges(0, 3), vec![]);
    assert_eq!(file_ranges(2, 50_000), vec![(0, 2)]);
}

#[test]
fn rows_become_columns() {
    let s = |v: &str| Some(v.to_string());
    let rows = vec![
        vec![s("1"), s("a")],
        vec![s("2"), None],
        vec![s("3")],
    ];
    let cols = rows_to_columns(&rows, 1, 3, 2);
    assert_eq!(cols, vec![vec![s("2"), s("3")], vec![None, None]]);
    let none = rows_to_columns(&rows, 0, 0, 3);
    assert_eq!(none, vec![Vec::<Option<String>>::new(), vec![], vec![]]);
}

#[test]
fn part_files_are_zero_padded() {
    assert_eq!(part_file_path("out", 0), "out/part_000000.parquet");
    assert_eq!(part_file_path("out", 42), "out/part_000042.parquet");
    assert_eq!(part_file_path("/data", 1234567), "/data/part_1234567.parquet");
    assert_eq!(part_file_path("x", 123456), format!("x/part_{:06}.parquet", 123456));
}

#[test]
fn demo_lines() {
    assert_eq!(said_line("hello!"), "The String is hello!");
    assert_eq!(replacement_string(), "new string");
    assert_eq!(congratulation_line("Jack"), "Congratulations, Jack!!");
    assert_eq!(say_line("Hello"), "I say Hello");
}
