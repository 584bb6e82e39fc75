//! The work plan of the Parquet exporter: how the matching rows are split
//! between worker threads, how each worker's rows are cut into files, how a
//! file's rows become columns, and what each file is called.

use vstd::prelude::*;
use crate::text::{decimal, digits_value, lemma_zero_padded_value, push_char, push_str, zero_padded};

verus! {

/// The rows one worker fetches: `limit` rows starting at `offset`.
#[derive(Debug, Clone, Copy, PartialEq, Eq, Structural)]
pub struct Slice {
    pub offset: usize,
    pub limit: usize,
}

/// Number of workers: no more than there are rows.
pub open spec fn worker_count(total_rows: nat, threads: nat) -> nat {
    if threads < total_rows { threads } else { total_rows }
}

/// Rows per worker, rounded up.
pub open spec fn rows_per_worker(total_rows: nat, workers: nat) -> nat {
    if workers == 0 { 0 } else { ((total_rows + workers - 1) as nat) / workers }
}

/// Offset of worker `i`'s slice.
pub open spec fn slice_offset(total_rows: nat, threads: nat, i: nat) -> nat {
    i * rows_per_worker(total_rows, worker_count(total_rows, threads))
}

/// Limit of worker `i`'s slice: a full share, or what is left of the table.
/// (When the offset already lies past the end, the query returns no rows
/// whatever the limit; the share is asked for.)
pub open spec fn slice_limit(total_rows: nat, threads: nat, i: nat) -> nat {
    let chunk = rows_per_worker(total_rows, worker_count(total_rows, threads));
    let offset = slice_offset(total_rows, threads, i);
    if offset <= total_rows && total_rows - offset < chunk {
        (total_rows - offset) as nat
    } else {
        chunk
    }
}

/// Row `r` (counted from 0 in the query's order) is fetched by worker `i`.
pub open spec fn slice_holds(total_rows: nat, threads: nat, i: nat, r: nat) -> bool {
    slice_offset(total_rows, threads, i) <= r
        < slice_offset(total_rows, threads, i) + slice_limit(total_rows, threads, i)
}

proof fn lemma_chunk_facts(t: nat, n: nat)
    requires
        1 <= n <= t,
    ensures
        rows_per_worker(t, n) >= 1,
        n * rows_per_worker(t, n) >= t,
        n * rows_per_worker(t, n) <= t + n - 1,
{
    let c = rows_per_worker(t, n);
    let m = (t + n - 1) as nat;
    assert(c == m / n);
    assert(m == n * (m / n) + m % n && 0 <= m % n < n) by (nonlinear_arith)
        requires
            n >= 1,
    ;
    assert(n * c >= t);
    assert(c >= 1) by (nonlinear_arith)
        requires
            n * c >= t,
            t >= 1,
            n >= 1,
    ;
}

/// Splits `total_rows` rows between at most `threads` workers: worker `i`
/// gets rows from `i * chunk`, where `chunk` is the share rounded up.
pub fn plan_slices(total_rows: usize, threads: usize) -> (plan: Vec<Slice>)
    requires
        threads >= 1,
        total_rows + worker_count(total_rows as nat, threads as nat) <= usize::MAX,
    ensures
        plan@.len() == worker_count(total_rows as nat, threads as nat),
        forall|i: int| 0 <= i < plan@.len() ==> {
            &&& (#[trigger] plan@[i]).offset == slice_offset(total_rows as nat, threads as nat, i as nat)
            &&& plan@[i].limit == slice_limit(total_rows as nat, threads as nat, i as nat)
        },
{
    let workers = if threads < total_rows { threads } else { total_rows };
    assert(workers == worker_count(total_rows as nat, threads as nat));
    let mut plan: Vec<Slice> = Vec::new();
    if workers == 0 {
        return plan;
    }
    let chunk = (total_rows + workers - 1) / workers;
    proof {
        lemma_chunk_facts(total_rows as nat, workers as nat);
    }
    let mut i: usize = 0;
    while i < workers
        invariant
            1 <= workers <= total_rows,
            workers == worker_count(total_rows as nat, threads as nat),
            chunk == rows_per_worker(total_rows as nat, workers as nat),
            workers * chunk <= total_rows + workers - 1,
            total_rows + workers <= usize::MAX,
            i <= workers,
            plan@.len() == i,
            forall|j: int| 0 <= j < i ==> {
                &&& (#[trigger] plan@[j]).offset == slice_offset(total_rows as nat, threads as nat, j as nat)
                &&& plan@[j].limit == slice_limit(total_rows as nat, threads as nat, j as nat)
            },
        decreases workers - i,
    {
        assert(i * chunk <= workers * chunk) by (nonlinear_arith)
            requires
                i <= workers,
        ;
        let offset = i * chunk;
        let limit = if offset <= total_rows && total_rows - offset < chunk {
            total_rows - offset
        } else {
            chunk
        };
        plan.push(Slice { offset, limit });
        i = i + 1;
    }
    plan
}

/// Every row of the table is fetched by exactly one worker: worker
/// `r / chunk` fetches row `r`, and no other worker does.
pub proof fn lemma_slices_partition_rows(total_rows: nat, threads: nat, r: nat)
    requires
        threads >= 1,
        r < total_rows,
    ensures
        ({
            let w = worker_count(total_rows, threads);
            let owner = r / rows_per_worker(total_rows, w);
            &&& owner < w
            &&& slice_holds(total_rows, threads, owner, r)
            &&& forall|j: nat| j < w && #[trigger] slice_holds(total_rows, threads, j, r) ==> j == owner
        }),
{
    let t = total_rows;
    let w = worker_count(t, threads);
    lemma_chunk_facts(t, w);
    let c = rows_per_worker(t, w);
    let owner = r / c;
    assert(owner * c <= r < owner * c + c) by (nonlinear_arith)
        requires
            c >= 1,
            owner == r / c,
    ;
    assert(owner < w) by (nonlinear_arith)
        requires
            owner * c <= r,
            r < t,
            w * c >= t,
            c >= 1,
    ;
    assert(slice_offset(t, threads, owner) == owner * c);
    assert(slice_holds(t, threads, owner, r));
    assert forall|j: nat| j < w && #[trigger] slice_holds(t, threads, j, r) implies j == owner by {
        assert(slice_offset(t, threads, j) == j * c);
        assert(slice_limit(t, threads, j) <= c);
        assert(j * c <= r < j * c + c);
        assert(j == owner) by (nonlinear_arith)
            requires
                j * c <= r < j * c + c,
                owner * c <= r < owner * c + c,
                c >= 1,
        ;
    }
}

/// The core a worker is pinned to: cores are handed out round-robin, and
/// none when the machine reports no cores.
pub fn core_slot(worker: usize, cores: usize) -> (slot: Option<usize>)
    ensures
        cores == 0 ==> slot is None,
        cores > 0 ==> slot == Some((worker % cores) as usize),
{
    if cores == 0 {
        None
    } else {
        Some(worker % cores)
    }
}

/// Cuts `len` rows into consecutive files of at most `max_records` rows
/// (`slice::chunks`): each range is `(start, end)`.
pub fn file_ranges(len: usize, max_records: usize) -> (ranges: Vec<(usize, usize)>)
    requires
        max_records > 0,
    ensures
        len == 0 <==> ranges@.len() == 0,
        ranges@.len() > 0 ==> ranges@[0].0 == 0 && ranges@.last().1 == len,
        forall|i: int| 0 <= i < ranges@.len() ==>
            (#[trigger] ranges@[i]).0 < ranges@[i].1 <= len
            && ranges@[i].1 - ranges@[i].0 <= max_records,
        forall|i: int| 0 <= i < ranges@.len() - 1 ==>
            (#[trigger] ranges@[i]).1 == ranges@[i + 1].0
            && ranges@[i].1 - ranges@[i].0 == max_records,
{
    let mut ranges: Vec<(usize, usize)> = Vec::new();
    let mut start: usize = 0;
    while start < len
        invariant
            max_records > 0,
            start <= len,
            ranges@.len() == 0 <==> start == 0,
            ranges@.len() > 0 ==> ranges@[0].0 == 0 && ranges@.last().1 == start,
            forall|i: int| 0 <= i < ranges@.len() ==>
                (#[trigger] ranges@[i]).0 < ranges@[i].1 <= start
                && ranges@[i].1 - ranges@[i].0 <= max_records,
            forall|i: int| 0 <= i < ranges@.len() - 1 ==>
                (#[trigger] ranges@[i]).1 == ranges@[i + 1].0
                && ranges@[i].1 - ranges@[i].0 == max_records,
            ranges@.len() > 0 && start < len ==> ranges@.last().1 - ranges@.last().0 == max_records,
        decreases len - start,
    {
        let end = if max_records <= len - start { start + max_records } else { len };
        let ghost before = ranges@;
        ranges.push((start, end));
        assert(ranges@.drop_last() == before);
        start = end;
    }
    ranges
}

/// The value a row holds in column `c`; a row that is too short has none.
pub open spec fn cell(row: Seq<Option<String>>, c: int) -> Option<String> {
    if 0 <= c < row.len() { row[c] } else { None }
}

/// Turns rows `start..end` into `num_cols` columns, the layout the Parquet
/// writer takes.
pub fn rows_to_columns(
    rows: &Vec<Vec<Option<String>>>,
    start: usize,
    end: usize,
    num_cols: usize,
) -> (columns: Vec<Vec<Option<String>>>)
    requires
        start <= end <= rows@.len(),
    ensures
        columns@.len() == num_cols,
        forall|c: int| 0 <= c < num_cols ==> (#[trigger] columns@[c])@.len() == end - start,
        forall|c: int, k: int| 0 <= c < num_cols && 0 <= k < end - start ==>
            #[trigger] columns@[c]@[k] == cell(rows@[start + k]@, c),
        forall|c: int, k: int| 0 <= c < num_cols && 0 <= k < end - start
            && c < rows@[start + k]@.len() ==>
            #[trigger] columns@[c]@[k] == rows@[start + k]@[c],
        forall|c: int, k: int| 0 <= c < num_cols && 0 <= k < end - start
            && c >= rows@[start + k]@.len() ==>
            #[trigger] columns@[c]@[k] is None,
{
    let mut columns: Vec<Vec<Option<String>>> = Vec::new();
    let mut c: usize = 0;
    while c < num_cols
        invariant
            start <= end <= rows@.len(),
            c <= num_cols,
            columns@.len() == c,
            forall|d: int| 0 <= d < c ==> (#[trigger] columns@[d])@.len() == end - start,
            forall|d: int, k: int| 0 <= d < c && 0 <= k < end - start ==>
                #[trigger] columns@[d]@[k] == cell(rows@[start + k]@, d),
        decreases num_cols - c,
    {
        let mut column: Vec<Option<String>> = Vec::new();
        let mut r: usize = start;
        while r < end
            invariant
                start <= r <= end <= rows@.len(),
                column@.len() == r - start,
                forall|k: int| 0 <= k < r - start ==> column@[k] == cell(rows@[start + k]@, c as int),
            decreases end - r,
        {
            let row = &rows[r];
            let value: Option<String> = if c < row.len() {
                match &row[c] {
                    Some(v) => Some(v.clone()),
                    None => None,
                }
            } else {
                None
            };
            column.push(value);
            r = r + 1;
        }
        columns.push(column);
        c = c + 1;
    }
    columns
}

/// `<dir>/part_<n>.parquet`, with `n` zero-padded to six digits.
pub open spec fn spec_part_file_path(dir: Seq<char>, n: nat) -> Seq<char> {
    dir + "/part_"@ + zero_padded(n, 6) + ".parquet"@
}

/// The path of the `n`-th Parquet file written under `dir`.
pub fn part_file_path(dir: &str, n: usize) -> (p: String)
    ensures
        p@ == spec_part_file_path(dir@, n as nat),
{
    let mut p = String::new();
    push_str(&mut p, dir);
    push_str(&mut p, "/part_");
    let digits = crate::text::decimal_string(n as u64);
    let len = digits.as_str().unicode_len();
    let mut pad: usize = len;
    let ghost before = p@;
    while pad < 6
        invariant
            len == decimal(n as nat).len(),
            len <= pad <= 6 || (len > 6 && pad == len),
            p@ == before + Seq::new((pad - len) as nat, |i: int| '0'),
        decreases 6 - pad,
    {
        push_char(&mut p, '0');
        pad = pad + 1;
        assert(p@ =~= before + Seq::new((pad - len) as nat, |i: int| '0'));
    }
    push_str(&mut p, digits.as_str());
    push_str(&mut p, ".parquet");
    assert(before + Seq::new((pad - len) as nat, |i: int| '0') + decimal(n as nat)
        =~= before + zero_padded(n as nat, 6));
    p
}

/// Files numbered differently get different paths, so workers that draw
/// distinct numbers from the shared counter never overwrite each other.
pub proof fn lemma_part_paths_distinct(dir: Seq<char>, a: nat, b: nat)
    requires
        a != b,
    ensures
        spec_part_file_path(dir, a) != spec_part_file_path(dir, b),
{
    let pa = spec_part_file_path(dir, a);
    let pb = spec_part_file_path(dir, b);
    if pa == pb {
        let head = dir + "/part_"@;
        let za = zero_padded(a, 6);
        let zb = zero_padded(b, 6);
        let tail = ".parquet"@;
        assert(pa == head + za + tail);
        assert(pb == head + zb + tail);
        assert(pa.subrange(head.len() as int, pa.len() - tail.len()) =~= za);
        assert(pb.subrange(head.len() as int, pb.len() - tail.len()) =~= zb);
        lemma_zero_padded_value(a, 6);
        lemma_zero_padded_value(b, 6);
        assert(digits_value(za) == digits_value(zb));
    }
}

/// Column `c` of a row is the row's own `c`-th value, for every column the
/// row has; a column past the row's end has no value.
pub proof fn lemma_cell_is_row_value(row: Seq<Option<String>>, c: int)
    ensures
        0 <= c < row.len() ==> cell(row, c) == row[c],
        (c < 0 || c >= row.len()) ==> cell(row, c) is None,
{
}

/// Every file path lies inside the output directory: it is the directory
/// text, a `/`, `part_`, at least six digits that read back as the file
/// number, and `.parquet`.
pub proof fn lemma_part_path_inside_dir(dir: Seq<char>, n: nat)
    ensures
        ({
            let p = spec_part_file_path(dir, n);
            let d = dir.len() as int;
            &&& p.len() >= d + 20
            &&& p.subrange(0, d) == dir
            &&& p[d] == '/'
            &&& p.subrange(d + 1, d + 6) == seq!['p', 'a', 'r', 't', '_']
            &&& p.subrange(p.len() - 8, p.len() as int) == seq!['.', 'p', 'a', 'r', 'q', 'u', 'e', 't']
            &&& p.subrange(d + 6, p.len() - 8).len() >= 6
            &&& digits_value(p.subrange(d + 6, p.len() - 8)) == n
        }),
{
    reveal_strlit("/part_");
    reveal_strlit(".parquet");
    let p = spec_part_file_path(dir, n);
    let d = dir.len() as int;
    let z = zero_padded(n, 6);
    crate::text::lemma_decimal_nonempty(n);
    assert(z.len() >= 6);
    assert(p == dir + "/part_"@ + z + ".parquet"@);
    assert(p.subrange(0, d) =~= dir);
    assert(p[d] == "/part_"@[0]);
    assert(p.subrange(d + 1, d + 6) =~= seq!['p', 'a', 'r', 't', '_']);
    assert(p.subrange(p.len() - 8, p.len() as int) =~= seq!['.', 'p', 'a', 'r', 'q', 'u', 'e', 't']);
    assert(p.subrange(d + 6, p.len() - 8) =~= z);
    lemma_zero_padded_value(n, 6);
}

} // verus!
