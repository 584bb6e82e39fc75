//! What a writer sends to Kinetica and how it reacts to each answer: the
//! insert endpoint, the request body, and the retry-with-backoff policy.

use vstd::prelude::*;
use crate::text::{chars_of, digit_char, push_char, push_str};

verus! {

/// `serde_json::Error`, carried through from the JSON encoder.
#[verifier::external_type_specification]
#[verifier::external_body]
pub struct ExJsonError(serde_json::Error);

/// Lower-case hexadecimal digit of `d < 16`.
pub open spec fn hex_digit(d: int) -> char {
    if d < 10 { digit_char(d as nat) }
    else if d == 10 { 'a' }
    else if d == 11 { 'b' }
    else if d == 12 { 'c' }
    else if d == 13 { 'd' }
    else if d == 14 { 'e' }
    else { 'f' }
}

/// How one character appears inside a JSON string: `"` and `\` and the
/// control characters with a short form are backslash-escaped, the other
/// characters below U+0020 become `\u00xx`, and the rest stand as they are.
pub open spec fn json_escape_char(c: char) -> Seq<char> {
    let code = c as int;
    if c == '"' { seq!['\\', '"'] }
    else if c == '\\' { seq!['\\', '\\'] }
    else if code == 8 { seq!['\\', 'b'] }
    else if code == 9 { seq!['\\', 't'] }
    else if code == 10 { seq!['\\', 'n'] }
    else if code == 12 { seq!['\\', 'f'] }
    else if code == 13 { seq!['\\', 'r'] }
    else if code < 32 { seq!['\\', 'u', '0', '0', hex_digit(code / 16), hex_digit(code % 16)] }
    else { seq![c] }
}

/// The escaped characters of `s`, in order.
pub open spec fn json_escape(s: Seq<char>) -> Seq<char>
    decreases s.len(),
{
    if s.len() == 0 {
        Seq::empty()
    } else {
        json_escape(s.drop_last()) + json_escape_char(s.last())
    }
}

/// The JSON string literal of `s`: a quote, the escaped characters, a quote.
pub open spec fn json_string_text(s: Seq<char>) -> Seq<char> {
    seq!['"'] + json_escape(s) + seq!['"']
}

/// `serde_json::to_string` on a string slice: the text is the JSON string
/// literal of `s`, escaped byte by byte with serde_json's escape table (only
/// ASCII bytes are ever escaped, so this is the same per character). It always succeeds: a string
/// serializes through `serialize_str`, whose only errors are those of the
/// writer, and `to_string` writes into a `Vec<u8>`, which never fails.
#[verifier::external_body]
fn json_quote(s: &str) -> (r: Result<String, serde_json::Error>)
    ensures
        r is Ok,
        r matches Ok(t) ==> t@ == json_string_text(s@),
{
    serde_json::to_string(s)
}

/// Why a request body could not be written.
#[derive(Debug, Clone, Copy, PartialEq, Eq, Structural)]
pub enum PayloadError {
    /// The JSON encoder refused a string.
    Encoding,
}

/// `s` without the run of `/` at its end.
pub open spec fn trim_trailing_slashes(s: Seq<char>) -> Seq<char>
    decreases s.len(),
{
    if s.len() > 0 && s.last() == '/' {
        trim_trailing_slashes(s.drop_last())
    } else {
        s
    }
}

pub open spec fn insert_path() -> Seq<char> {
    "/insert/records/json"@
}

/// Kinetica's JSON insert endpoint under the base URL `url`.
pub open spec fn spec_insert_endpoint(url: Seq<char>) -> Seq<char> {
    trim_trailing_slashes(url) + insert_path()
}

/// The insert endpoint: the base URL without trailing slashes, followed by
/// `/insert/records/json`.
pub fn insert_endpoint(url: &str) -> (e: String)
    ensures
        e@ == spec_insert_endpoint(url@),
{
    let chars = chars_of(url);
    let mut k = chars.len();
    assert(chars@.subrange(0, k as int) =~= chars@);
    while k > 0 && chars[k - 1] == '/'
        invariant
            k <= chars@.len(),
            trim_trailing_slashes(chars@) == trim_trailing_slashes(chars@.subrange(0, k as int)),
        decreases k,
    {
        assert(chars@.subrange(0, k as int).drop_last() =~= chars@.subrange(0, k - 1));
        k = k - 1;
    }
    assert(trim_trailing_slashes(chars@.subrange(0, k as int)) == chars@.subrange(0, k as int));
    let mut e = String::new();
    let mut i: usize = 0;
    while i < k
        invariant
            i <= k,
            k <= chars@.len(),
            e@ == chars@.subrange(0, i as int),
        decreases k - i,
    {
        push_char(&mut e, chars[i]);
        i = i + 1;
        assert(e@ =~= chars@.subrange(0, i as int));
    }
    push_str(&mut e, "/insert/records/json");
    e
}

/// A base URL with or without trailing slashes names the same endpoint, and
/// the endpoint path follows the last non-slash character of the base.
pub proof fn lemma_endpoint_ignores_trailing_slash(url: Seq<char>)
    ensures
        spec_insert_endpoint(url.push('/')) == spec_insert_endpoint(url),
        trim_trailing_slashes(url).len() == 0 || trim_trailing_slashes(url).last() != '/',
    decreases url.len(),
{
    assert(url.push('/').drop_last() =~= url);
    if url.len() > 0 && url.last() == '/' {
        lemma_endpoint_ignores_trailing_slash(url.drop_last());
    }
}

proof fn lemma_trim_is_prefix(s: Seq<char>)
    ensures
        trim_trailing_slashes(s).len() <= s.len(),
        trim_trailing_slashes(s) == s.subrange(0, trim_trailing_slashes(s).len() as int),
        forall|i: int| trim_trailing_slashes(s).len() <= i < s.len() ==> s[i] == '/',
        trim_trailing_slashes(s).len() == 0 || s[trim_trailing_slashes(s).len() - 1] != '/',
    decreases s.len(),
{
    if s.len() > 0 && s.last() == '/' {
        lemma_trim_is_prefix(s.drop_last());
        let t = trim_trailing_slashes(s.drop_last());
        assert(s.drop_last().subrange(0, t.len() as int) =~= s.subrange(0, t.len() as int));
        assert forall|i: int| t.len() <= i < s.len() implies s[i] == '/' by {
            if i < s.len() - 1 {
                assert(s.drop_last()[i] == s[i]);
            }
        }
        if t.len() > 0 {
            assert(s.drop_last()[t.len() - 1] == s[t.len() - 1]);
        }
    } else {
        assert(s.subrange(0, s.len() as int) =~= s);
    }
}

/// The endpoint keeps the base URL character for character: it is a prefix of
/// the URL (everything up to the run of trailing `/`, which is dropped)
/// followed by `/insert/records/json`.
pub proof fn lemma_endpoint_keeps_base(url: Seq<char>)
    ensures
        exists|k: int| {
            &&& 0 <= k <= url.len()
            &&& spec_insert_endpoint(url) == url.subrange(0, k) + "/insert/records/json"@
            &&& (forall|i: int| k <= i < url.len() ==> url[i] == '/')
            &&& (k == 0 || url[k - 1] != '/')
        },
{
    lemma_trim_is_prefix(url);
    let k = trim_trailing_slashes(url).len() as int;
    assert(spec_insert_endpoint(url) == url.subrange(0, k) + "/insert/records/json"@);
}

/// The JSON string literals of `records`, separated by commas.
pub open spec fn quoted_list(records: Seq<Seq<char>>) -> Seq<char>
    decreases records.len(),
{
    if records.len() == 0 {
        Seq::empty()
    } else if records.len() == 1 {
        json_string_text(records[0])
    } else {
        quoted_list(records.drop_last()) + ","@ + json_string_text(records.last())
    }
}

/// A batch of one record lists just that record's JSON string.
pub proof fn lemma_quoted_list_single(x: Seq<char>)
    ensures
        quoted_list(seq![x]) == json_string_text(x),
{
}

/// Adding a record to a non-empty batch appends a comma and the record's JSON
/// string to the list: every record is separated from the one before by a
/// comma, however long the batch.
pub proof fn lemma_quoted_list_push(records: Seq<Seq<char>>, x: Seq<char>)
    requires
        records.len() > 0,
    ensures
        quoted_list(records.push(x)) == quoted_list(records) + ","@ + json_string_text(x),
{
    assert(records.push(x).drop_last() =~= records);
}

/// Two non-empty batches listed together are their two lists joined by a
/// comma.
pub proof fn lemma_quoted_list_concat(a: Seq<Seq<char>>, b: Seq<Seq<char>>)
    requires
        a.len() > 0,
        b.len() > 0,
    ensures
        quoted_list(a + b) == quoted_list(a) + ","@ + quoted_list(b),
    decreases b.len(),
{
    if b.len() == 1 {
        assert(a + b =~= a.push(b[0]));
        lemma_quoted_list_push(a, b[0]);
        lemma_quoted_list_single(b[0]);
        assert(b =~= seq![b[0]]);
    } else {
        let b0 = b.drop_last();
        lemma_quoted_list_concat(a, b0);
        assert(a + b =~= (a + b0).push(b.last()));
        lemma_quoted_list_push(a + b0, b.last());
        assert(b =~= b0.push(b.last()));
        lemma_quoted_list_push(b0, b.last());
        assert(quoted_list(a + b) =~= quoted_list(a) + ","@ + quoted_list(b));
    }
}

/// The views of a list of strings.
pub open spec fn views(records: Seq<String>) -> Seq<Seq<char>> {
    records.map_values(|r: String| r@)
}

/// The body of one insert request: the records, each as a JSON-encoded
/// string, the insert options and the target table, written as compact JSON
/// with its keys in order.
pub open spec fn spec_insert_payload(table: Seq<char>, records: Seq<Seq<char>>) -> Seq<char> {
    "{\"json_records\":["@ + quoted_list(records)
        + "],\"options\":{\"return_record_ids\":\"false\",\"update_on_existing_pk\":\"false\"},\"table_name\":"@
        + json_string_text(table) + "}"@
}

/// Writes the body of the insert request for `records` into `table`; the
/// encoder never refuses a string, so this always succeeds.
pub fn insert_payload(table: &str, records: &Vec<String>) -> (r: Result<String, PayloadError>)
    ensures
        r matches Ok(body) && body@ == spec_insert_payload(table@, views(records@)),
{
    let mut body = String::from_str("{\"json_records\":[");
    let ghost head = "{\"json_records\":["@;
    let mut i: usize = 0;
    while i < records.len()
        invariant
            i <= records@.len(),
            body@ == head + quoted_list(views(records@).take(i as int)),
        decreases records@.len() - i,
    {
        let quoted = match json_quote(records[i].as_str()) {
            Ok(q) => q,
            Err(_) => {
                return Err(PayloadError::Encoding);
            },
        };
        if i > 0 {
            push_str(&mut body, ",");
        }
        push_str(&mut body, quoted.as_str());
        proof {
            let vs = views(records@);
            assert(vs.take(i + 1).drop_last() =~= vs.take(i as int));
            assert(vs.take(i + 1).last() == records@[i as int]@);
            if i == 0 {
                assert(vs.take(0) =~= Seq::<Seq<char>>::empty());
            }
        }
        i = i + 1;
    }
    push_str(
        &mut body,
        "],\"options\":{\"return_record_ids\":\"false\",\"update_on_existing_pk\":\"false\"},\"table_name\":",
    );
    let quoted_table = match json_quote(table) {
        Ok(q) => q,
        Err(_) => {
            return Err(PayloadError::Encoding);
        },
    };
    push_str(&mut body, quoted_table.as_str());
    push_str(&mut body, "}");
    assert(views(records@).take(records@.len() as int) =~= views(records@));
    Ok(body)
}

/// What a writer does with a batch it takes from the channel.
#[derive(Debug, Clone, Copy, PartialEq, Eq, Structural)]
pub enum BatchDecision {
    /// Insert the batch.
    Send,
    /// Discard the batch without sending it.
    Drop,
}

/// Once a reader has failed and asked the writers to stop, the batches still
/// buffered are dropped instead of sent.
pub fn decide_batch(stop_requested: bool) -> (d: BatchDecision)
    ensures
        stop_requested ==> d == BatchDecision::Drop,
        !stop_requested ==> d == BatchDecision::Send,
{
    if stop_requested {
        BatchDecision::Drop
    } else {
        BatchDecision::Send
    }
}

/// The wait before the retry that follows `failures` failed attempts:
/// 250 ms, doubling after each further failure, capped at 8 s.
pub open spec fn backoff_ms(failures: nat) -> nat
    decreases failures,
{
    if failures == 0 {
        250
    } else {
        let doubled = 2 * backoff_ms((failures - 1) as nat);
        if doubled < 8000 { doubled } else { 8000 }
    }
}

/// Attempts a writer makes for one batch at most: the first one and
/// `max_retries` retries.
pub open spec fn attempt_limit(max_retries: nat) -> nat {
    max_retries + 1
}

/// What a writer does after an attempt to insert a batch.
#[derive(Debug, Clone, Copy, PartialEq, Eq, Structural)]
pub enum WriterAction {
    /// The batch is stored; `attempts` requests were made for it.
    Delivered { attempts: u64 },
    /// Wait `wait_ms` milliseconds, then send the batch again.
    RetryAfter { wait_ms: u64 },
    /// Stop: `attempts` requests failed, the first one and every retry.
    GiveUp { attempts: u64 },
}

/// The retry state of one batch.
pub struct Delivery {
    max_retries: u32,
    attempts: u64,
    next_wait_ms: u64,
    settled: bool,
}

impl Delivery {
    /// Attempts made so far.
    pub closed spec fn attempts(&self) -> nat {
        self.attempts as nat
    }

    /// The configured number of retries.
    pub closed spec fn max_retries(&self) -> nat {
        self.max_retries as nat
    }

    /// Whether the batch is still being sent (neither delivered nor abandoned).
    pub closed spec fn is_open(&self) -> bool {
        !self.settled
    }

    /// The state's internal consistency.
    pub closed spec fn wf(&self) -> bool {
        &&& self.next_wait_ms == backoff_ms(self.attempts as nat)
        &&& self.attempts <= attempt_limit(self.max_retries as nat)
        &&& !self.settled ==> self.attempts <= self.max_retries
    }

    /// A batch about to be sent for the first time.
    pub fn new(max_retries: u32) -> (d: Self)
        ensures
            d.wf(),
            d.is_open(),
            d.attempts() == 0,
            d.max_retries() == max_retries,
    {
        Delivery { max_retries, attempts: 0, next_wait_ms: 250, settled: false }
    }

    /// Records the outcome of the next attempt and says what to do next: a
    /// failed attempt is retried while retries remain, so the batch is given
    /// up only after `max_retries + 1` failed attempts.
    pub fn record_outcome(&mut self, succeeded: bool) -> (action: WriterAction)
        requires
            old(self).wf(),
            old(self).is_open(),
        ensures
            final(self).wf(),
            final(self).max_retries() == old(self).max_retries(),
            final(self).attempts() == old(self).attempts() + 1,
            succeeded ==> action == (WriterAction::Delivered { attempts: (old(self).attempts() + 1) as u64 })
                && !final(self).is_open(),
            !succeeded && old(self).attempts() + 1 > old(self).max_retries() ==>
                action == (WriterAction::GiveUp { attempts: (old(self).attempts() + 1) as u64 })
                && !final(self).is_open(),
            !succeeded && old(self).attempts() + 1 <= old(self).max_retries() ==>
                action == (WriterAction::RetryAfter { wait_ms: backoff_ms(old(self).attempts()) as u64 })
                && final(self).is_open(),
    {
        self.attempts = self.attempts + 1;
        let wait = self.next_wait_ms;
        let doubled = wait * 2;
        self.next_wait_ms = if doubled < 8000 { doubled } else { 8000 };
        if succeeded {
            self.settled = true;
            WriterAction::Delivered { attempts: self.attempts }
        } else if self.attempts > self.max_retries as u64 {
            self.settled = true;
            WriterAction::GiveUp { attempts: self.attempts }
        } else {
            WriterAction::RetryAfter { wait_ms: wait }
        }
    }
}

/// The waits between retries grow from 250 ms, never shrink, and never
/// exceed 8 s; from the sixth retry on they are exactly 8 s.
pub proof fn lemma_backoff_bounds(failures: nat)
    ensures
        250 <= backoff_ms(failures) <= 8000,
        backoff_ms(failures) <= backoff_ms(failures + 1),
        failures >= 5 ==> backoff_ms(failures) == 8000,
    decreases failures,
{
    if failures > 0 {
        lemma_backoff_bounds((failures - 1) as nat);
    }
    assert(backoff_ms(failures + 1) == (if 2 * backoff_ms(failures) < 8000 {
        2 * backoff_ms(failures)
    } else {
        8000
    }));
    if failures == 5 {
        assert(backoff_ms(0) == 250);
        assert(backoff_ms(1) == 500);
        assert(backoff_ms(2) == 1000);
        assert(backoff_ms(3) == 2000);
        assert(backoff_ms(4) == 4000);
        assert(backoff_ms(5) == 8000);
    }
}

/// A writer never makes more than `max_retries + 1` attempts for a batch:
/// while the batch is open, at most `max_retries` attempts have been made,
/// so the next one is at most the last retry.
pub proof fn lemma_attempts_bounded(d: Delivery)
    requires
        d.wf(),
    ensures
        d.attempts() <= attempt_limit(d.max_retries()),
        d.is_open() ==> d.attempts() + 1 <= attempt_limit(d.max_retries()),
{
}

} // verus!
