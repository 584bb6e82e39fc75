//! The SQL each reader runs: the user's template with its partition
//! placeholder replaced by a hash predicate that selects the reader's slice.

use vstd::prelude::*;
use crate::text::{chars_of, decimal, digit_char, lemma_decimal_nonempty, push_char, push_decimal, push_str};

verus! {

/// `p` occurs in `s` starting at index `i`.
pub open spec fn occurs_at(s: Seq<char>, p: Seq<char>, i: int) -> bool {
    0 <= i && i + p.len() <= s.len() && s.subrange(i, i + p.len()) == p
}

/// `p` occurs somewhere in `s`.
pub open spec fn contains_seq(s: Seq<char>, p: Seq<char>) -> bool {
    exists|i: int| occurs_at(s, p, i)
}

/// `s` with every occurrence of the non-empty pattern `p`, scanned left to
/// right without overlap, replaced by `r`.
pub open spec fn replace_all(s: Seq<char>, p: Seq<char>, r: Seq<char>) -> Seq<char>
    decreases s.len(),
{
    if p.len() == 0 || s.len() < p.len() {
        s
    } else if s.subrange(0, p.len() as int) == p {
        r + replace_all(s.subrange(p.len() as int, s.len() as int), p, r)
    } else {
        seq![s[0]] + replace_all(s.drop_first(), p, r)
    }
}

/// The placeholder every SQL template must hold.
pub open spec fn placeholder() -> Seq<char> {
    "{partition_clause}"@
}

/// The predicate that keeps the rows of bucket `tid` out of `threads` buckets.
pub open spec fn spec_partition_predicate(column: Seq<char>, threads: nat, tid: nat) -> Seq<char> {
    let max_bucket: nat = if threads == 0 { 0 } else { (threads - 1) as nat };
    "ORA_HASH("@ + column + ", "@ + decimal(max_bucket) + ") = "@ + decimal(tid)
}

/// A template was refused.
#[derive(Debug, Clone, Copy, PartialEq, Eq, Structural)]
pub enum TemplateError {
    /// The template has no `{partition_clause}` to give each reader its slice.
    MissingPlaceholder,
}

fn matches_at(s: &Vec<char>, p: &Vec<char>, i: usize) -> (b: bool)
    requires
        i + p@.len() <= s@.len(),
    ensures
        b == (s@.subrange(i as int, i + p@.len()) == p@),
{
    let mut k: usize = 0;
    while k < p.len()
        invariant
            k <= p@.len(),
            i + p.len() <= s.len(),
            forall|j: int| 0 <= j < k ==> s@[i + j] == p@[j],
        decreases p@.len() - k,
    {
        if s[i + k] != p[k] {
            assert(s@.subrange(i as int, i + p@.len())[k as int] != p@[k as int]);
            return false;
        }
        k = k + 1;
    }
    assert(s@.subrange(i as int, i + p@.len()) =~= p@);
    true
}

fn seq_contains(s: &Vec<char>, p: &Vec<char>) -> (b: bool)
    ensures
        b == contains_seq(s@, p@),
{
    if p.len() == 0 {
        assert(s@.subrange(0, 0) =~= p@);
        assert(occurs_at(s@, p@, 0));
        return true;
    }
    let mut i: usize = 0;
    while p.len() <= s.len() - i
        invariant
            p@.len() >= 1,
            i <= s@.len(),
            forall|j: int| 0 <= j < i ==> !occurs_at(s@, p@, j),
        decreases s@.len() - i,
    {
        if matches_at(s, p, i) {
            assert(occurs_at(s@, p@, i as int));
            return true;
        }
        i = i + 1;
    }
    assert forall|j: int| !occurs_at(s@, p@, j) by {
        if 0 <= j < i {
        }
    }
    false
}

/// Whether `s` contains `pattern`.
pub fn contains_text(s: &str, pattern: &str) -> (b: bool)
    ensures
        b == contains_seq(s@, pattern@),
{
    let sv = chars_of(s);
    let pv = chars_of(pattern);
    seq_contains(&sv, &pv)
}

proof fn lemma_replace_all_step(s: Seq<char>, p: Seq<char>, r: Seq<char>, i: int)
    requires
        p.len() > 0,
        0 <= i < s.len(),
    ensures
        i + p.len() <= s.len() && s.subrange(i, i + p.len()) == p ==>
            replace_all(s.subrange(i, s.len() as int), p, r)
                == r + replace_all(s.subrange(i + p.len(), s.len() as int), p, r),
        !(i + p.len() <= s.len() && s.subrange(i, i + p.len()) == p) ==>
            replace_all(s.subrange(i, s.len() as int), p, r)
                == seq![s[i]] + replace_all(s.subrange(i + 1, s.len() as int), p, r),
{
    let t = s.subrange(i, s.len() as int);
    assert(t.subrange(p.len() as int, t.len() as int) =~= s.subrange(i + p.len(), s.len() as int)
        || t.len() < p.len());
    assert(t.drop_first() =~= s.subrange(i + 1, s.len() as int));
    if i + p.len() <= s.len() {
        assert(t.subrange(0, p.len() as int) =~= s.subrange(i, i + p.len()));
        assert(t.subrange(p.len() as int, t.len() as int) =~= s.subrange(i + p.len(), s.len() as int));
    } else {
        assert(replace_all(s.subrange(i + 1, s.len() as int), p, r) == s.subrange(i + 1, s.len() as int));
        assert(seq![s[i]] + s.subrange(i + 1, s.len() as int) =~= t);
    }
}

/// `s` with every occurrence of the non-empty `pattern` replaced by
/// `replacement` (`str::replace`).
pub fn replace_text(s: &str, pattern: &str, replacement: &str) -> (out: String)
    requires
        pattern@.len() > 0,
    ensures
        out@ == replace_all(s@, pattern@, replacement@),
{
    let sv = chars_of(s);
    let pv = chars_of(pattern);
    let n = sv.len();
    let mut out = String::new();
    let mut i: usize = 0;
    assert(sv@.subrange(0, n as int) =~= sv@);
    while i < n
        invariant
            n == sv@.len(),
            pv@.len() > 0,
            i <= n,
            out@ + replace_all(sv@.subrange(i as int, n as int), pv@, replacement@)
                == replace_all(sv@, pv@, replacement@),
        decreases n - i,
    {
        proof {
            lemma_replace_all_step(sv@, pv@, replacement@, i as int);
        }
        if pv.len() <= n - i && matches_at(&sv, &pv, i) {
            push_str(&mut out, replacement);
            i = i + pv.len();
            assert(out@ + replace_all(sv@.subrange(i as int, n as int), pv@, replacement@)
                =~= replace_all(sv@, pv@, replacement@));
        } else {
            push_char(&mut out, sv[i]);
            i = i + 1;
            assert(out@ + replace_all(sv@.subrange(i as int, n as int), pv@, replacement@)
                =~= replace_all(sv@, pv@, replacement@));
        }
    }
    assert(sv@.subrange(n as int, n as int) =~= Seq::<char>::empty());
    assert(sv@.subrange(0, n as int) =~= sv@);
    out
}

/// Accepts a template only if it holds the partition placeholder, so that
/// every reader can be given its own slice of the table.
pub fn check_template(template: &str) -> (r: Result<(), TemplateError>)
    ensures
        r == (if contains_seq(template@, placeholder()) {
            Ok::<(), TemplateError>(())
        } else {
            Err(TemplateError::MissingPlaceholder)
        }),
{
    if contains_text(template, "{partition_clause}") {
        Ok(())
    } else {
        Err(TemplateError::MissingPlaceholder)
    }
}

/// `ORA_HASH(<column>, <threads - 1>) = <tid>`: `ORA_HASH(expr, max)` yields a
/// bucket in `0..=max`, so `threads` readers need `max = threads - 1`.
pub fn partition_predicate(column: &str, threads: usize, tid: usize) -> (p: String)
    ensures
        p@ == spec_partition_predicate(column@, threads as nat, tid as nat),
{
    let max_bucket = threads.saturating_sub(1);
    let mut p = String::from_str("ORA_HASH(");
    push_str(&mut p, column);
    push_str(&mut p, ", ");
    push_decimal(&mut p, max_bucket as u64);
    push_str(&mut p, ") = ");
    push_decimal(&mut p, tid as u64);
    p
}

/// The SQL reader `tid` of `threads` runs: the template with every
/// placeholder replaced by the reader's hash predicate.
pub fn partition_sql(template: &str, column: &str, threads: usize, tid: usize) -> (sql: String)
    ensures
        sql@ == replace_all(
            template@,
            placeholder(),
            spec_partition_predicate(column@, threads as nat, tid as nat),
        ),
{
    let predicate = partition_predicate(column, threads, tid);
    proof {
        reveal_strlit("{partition_clause}");
    }
    replace_text(template, "{partition_clause}", predicate.as_str())
}

/// A template without the placeholder passes through untouched.
pub proof fn lemma_replace_without_pattern(s: Seq<char>, p: Seq<char>, r: Seq<char>)
    requires
        !contains_seq(s, p),
    ensures
        replace_all(s, p, r) == s,
    decreases s.len(),
{
    if p.len() == 0 || s.len() < p.len() {
    } else {
        if s.subrange(0, p.len() as int) == p {
            assert(occurs_at(s, p, 0));
        }
        assert forall|i: int| !occurs_at(s.drop_first(), p, i) by {
            if occurs_at(s.drop_first(), p, i) {
                assert(s.subrange(i + 1, i + 1 + p.len()) =~= s.drop_first().subrange(i, i + p.len()));
                assert(occurs_at(s, p, i + 1));
            }
        }
        lemma_replace_without_pattern(s.drop_first(), p, r);
        assert(seq![s[0]] + s.drop_first() =~= s);
    }
}

/// When the pattern occurs, the replacement text appears in the result.
pub proof fn lemma_replace_inserts(s: Seq<char>, p: Seq<char>, r: Seq<char>)
    requires
        p.len() > 0,
        contains_seq(s, p),
    ensures
        contains_seq(replace_all(s, p, r), r),
    decreases s.len(),
{
    let i = choose|i: int| occurs_at(s, p, i);
    if s.subrange(0, p.len() as int) == p {
        let out = replace_all(s, p, r);
        assert(out.subrange(0, r.len() as int) =~= r);
        assert(occurs_at(out, r, 0));
    } else {
        if i == 0 {
            assert(false);
        }
        assert(s.drop_first().subrange(i - 1, i - 1 + p.len()) =~= s.subrange(i, i + p.len()));
        assert(occurs_at(s.drop_first(), p, i - 1));
        lemma_replace_inserts(s.drop_first(), p, r);
        let rest = replace_all(s.drop_first(), p, r);
        let j = choose|j: int| occurs_at(rest, r, j);
        let out = seq![s[0]] + rest;
        assert(out.subrange(j + 1, j + 1 + r.len()) =~= rest.subrange(j, j + r.len()));
        assert(occurs_at(out, r, j + 1));
    }
}

proof fn lemma_digit_char_injective(a: nat, b: nat)
    requires
        a < 10,
        b < 10,
        digit_char(a) == digit_char(b),
    ensures
        a == b,
{
}

/// Distinct numbers have distinct decimal texts.
pub proof fn lemma_decimal_injective(a: nat, b: nat)
    requires
        decimal(a) == decimal(b),
    ensures
        a == b,
    decreases a,
{
    lemma_decimal_nonempty(a / 10);
    lemma_decimal_nonempty(b / 10);
    if a < 10 && b < 10 {
        assert(decimal(a)[0] == digit_char(a));
        assert(decimal(b)[0] == digit_char(b));
        lemma_digit_char_injective(a, b);
    } else if a < 10 {
        assert(decimal(b).len() >= 2);
    } else if b < 10 {
        assert(decimal(a).len() >= 2);
    } else {
        let da = decimal(a);
        let db = decimal(b);
        assert(da.last() == digit_char(a % 10));
        assert(db.last() == digit_char(b % 10));
        lemma_digit_char_injective(a % 10, b % 10);
        assert(da.drop_last() =~= decimal(a / 10));
        assert(db.drop_last() =~= decimal(b / 10));
        lemma_decimal_injective(a / 10, b / 10);
    }
}

/// Readers `0..threads` each select a bucket that `ORA_HASH` can produce
/// (`tid <= threads - 1`), and no two readers run the same predicate, so the
/// readers fetch disjoint row sets that together cover every bucket.
pub proof fn lemma_reader_predicates_partition(column: Seq<char>, threads: nat, t1: nat, t2: nat)
    requires
        t1 < threads,
        t2 < threads,
        t1 != t2,
    ensures
        t1 <= threads - 1,
        t2 <= threads - 1,
        spec_partition_predicate(column, threads, t1) != spec_partition_predicate(column, threads, t2),
{
    let prefix = "ORA_HASH("@ + column + ", "@ + decimal((threads - 1) as nat) + ") = "@;
    let p1 = spec_partition_predicate(column, threads, t1);
    let p2 = spec_partition_predicate(column, threads, t2);
    assert(p1 == prefix + decimal(t1));
    assert(p2 == prefix + decimal(t2));
    if p1 == p2 {
        assert(p1.subrange(prefix.len() as int, p1.len() as int) =~= decimal(t1));
        assert(p2.subrange(prefix.len() as int, p2.len() as int) =~= decimal(t2));
        lemma_decimal_injective(t1, t2);
    }
}

/// With at least one reader, the bucket range written into every reader's
/// predicate is `0..=threads - 1`: `ORA_HASH` then yields exactly as many
/// buckets as there are readers, and each bucket is some reader's id.
pub proof fn lemma_predicate_buckets_match_readers(column: Seq<char>, threads: nat, tid: nat)
    requires
        threads >= 1,
    ensures
        exists|b: nat| {
            &&& b + 1 == threads
            &&& spec_partition_predicate(column, threads, tid)
                == "ORA_HASH("@ + column + ", "@ + decimal(b) + ") = "@ + decimal(tid)
        },
{
    let b = (threads - 1) as nat;
    assert(spec_partition_predicate(column, threads, tid)
        == "ORA_HASH("@ + column + ", "@ + decimal(b) + ") = "@ + decimal(tid));
}

} // verus!
