//! Running an ordered list of tool operations in one request: each result is
//! recorded, long outputs are cut, nested batches are refused, and a failure
//! stops the rest when `fail_fast` is set.
use vstd::prelude::*;
use crate::text::{chars_of, push_chars, push_str};

verus! {

/// The default cap on the characters kept of one operation's output.
pub const DEFAULT_MAX_OUTPUT_CHARS: usize = 4000;

/// What is appended to an output that was cut.
pub open spec fn truncation_suffix() -> Seq<char> {
    "... [truncated — call this tool individually for full output]"@
}

/// `a.saturating_sub(b)`.
pub open spec fn sat_sub(a: nat, b: nat) -> nat {
    if a >= b {
        (a - b) as nat
    } else {
        0
    }
}

/// The kept text of an output of `raw` characters under a cap of `max_chars`:
/// the output itself when it fits, else as many leading characters as leave
/// room for the suffix, then the suffix.
pub open spec fn summarized_text(raw: Seq<char>, max_chars: usize) -> Seq<char> {
    if raw.len() <= max_chars {
        raw
    } else {
        raw.take(sat_sub(max_chars as nat, truncation_suffix().len()) as int) + truncation_suffix()
    }
}

/// A cut output is exactly `max_chars` characters long whenever the cap
/// leaves room for the notice; under a smaller cap the notice is kept whole
/// (the output is the notice alone), so it is longer than the cap.
pub proof fn law_cut_output_fits_the_cap(raw: Seq<char>, max_chars: usize)
    ensures
        max_chars >= truncation_suffix().len() ==> summarized_text(raw, max_chars).len() <= max_chars,
        raw.len() > max_chars && max_chars < truncation_suffix().len() ==> summarized_text(raw, max_chars)
            == truncation_suffix(),
{
    if raw.len() > max_chars {
        assert(raw.take(0) + truncation_suffix() =~= truncation_suffix());
    }
}

/// Returns `(possibly-truncated output, was_truncated, raw_char_count)`:
/// an output longer than `max_chars` characters is cut to `max_chars`
/// characters ending in the notice, or to the notice alone when the cap is
/// shorter than the notice.
pub fn summarize_output(output: String, max_chars: usize) -> (r: (String, bool, usize))
    ensures
        r.0@ == summarized_text(output@, max_chars),
        r.1 == (output@.len() > max_chars),
        r.2 == output@.len(),
        r.1 ==> r.0@.len() == (if max_chars >= truncation_suffix().len() {
            max_chars as nat
        } else {
            truncation_suffix().len()
        }),
{
    let v = chars_of(output.as_str());
    let raw_chars = v.len();
    if raw_chars <= max_chars {
        return (output, false, raw_chars);
    }
    let suffix = "... [truncated — call this tool individually for full output]";
    let sv = chars_of(suffix);
    proof {
        reveal_strlit("... [truncated — call this tool individually for full output]");
    }
    let keep = if max_chars >= sv.len() {
        max_chars - sv.len()
    } else {
        0
    };
    let mut truncated = String::new();
    let mut i: usize = 0;
    while i < keep
        invariant
            i <= keep < v.len(),
            truncated@ == v@.take(i as int),
        decreases keep - i,
    {
        assert(v@.take(i + 1) == v@.take(i as int).push(v@[i as int]));
        crate::text::push_char(&mut truncated, v[i]);
        i += 1;
    }
    push_str(&mut truncated, suffix);
    (truncated, true, raw_chars)
}

/// One operation of a batch: the tool to run and its arguments.
pub struct BatchOp<P> {
    pub tool_name: String,
    pub parameters: P,
}

/// The result of one operation.
pub struct OpResult {
    /// Position of the operation in the batch.
    pub index: usize,
    pub tool_name: String,
    pub success: bool,
    /// Output text (or error text), possibly cut.
    pub output: String,
    /// Characters of the output before it was cut.
    pub output_chars: usize,
    pub truncated: bool,
}

/// What a batch run reports.
pub struct BatchSummary {
    pub total: usize,
    pub passed: usize,
    pub failed: usize,
    /// Operations not run because `fail_fast` stopped the batch.
    pub skipped: usize,
    pub results: Vec<OpResult>,
}

/// The tool that may not be called from inside a batch.
pub open spec fn nested_tool() -> Seq<char> {
    "cortex_act_batch_execute"@
}

pub open spec fn nested_msg() -> Seq<char> {
    "Nested cortex_act_batch_execute is not allowed"@
}

/// Number of successful results.
pub open spec fn count_passed(rs: Seq<OpResult>) -> nat
    decreases rs.len(),
{
    if rs.len() == 0 {
        0
    } else {
        count_passed(rs.drop_last()) + if rs.last().success {
            1nat
        } else {
            0nat
        }
    }
}

/// Whether `r` is what running `op` (at position `i`) with `execute` may record.
pub open spec fn op_result_ok<P, F: Fn(&str, &P) -> Result<String, String>>(
    r: OpResult,
    i: int,
    op: BatchOp<P>,
    max_chars: usize,
    execute: F,
) -> bool {
    &&& r.index == i
    &&& r.tool_name@ == op.tool_name@
    &&& if op.tool_name@ == nested_tool() {
        &&& !r.success
        &&& r.output@ == nested_msg()
        &&& r.output_chars == nested_msg().len()
        &&& !r.truncated
    } else {
        exists|name: &str, out: Result<String, String>|
            #![trigger call_ensures(execute, (name, &op.parameters), out)]
            {
                &&& name@ == op.tool_name@
                &&& call_ensures(execute, (name, &op.parameters), out)
                &&& r.success == out is Ok
                &&& ({
                    let text = match out {
                        Ok(t) => t@,
                        Err(t) => t@,
                    };
                    &&& r.output@ == summarized_text(text, max_chars)
                    &&& r.output_chars == text.len()
                    &&& r.truncated == (text.len() > max_chars)
                })
            }
    }
}

fn is_nested(name: &str) -> (r: bool)
    ensures
        r == (name@ == nested_tool()),
{
    let v = chars_of(name);
    let t = chars_of("cortex_act_batch_execute");
    proof {
        reveal_strlit("cortex_act_batch_execute");
    }
    if v.len() != t.len() {
        return false;
    }
    let mut i: usize = 0;
    while i < v.len()
        invariant
            i <= v.len() == t.len(),
            v@ == name@,
            t@ == nested_tool(),
            forall|j: int| 0 <= j < i ==> v@[j] == t@[j],
        decreases v.len() - i,
    {
        if v[i] != t[i] {
            return false;
        }
        i += 1;
    }
    assert(v@ == t@);
    true
}

/// Runs the operations in order with `execute`.  A nested batch is recorded
/// as a failure without being run; with `fail_fast` the first failure ends
/// the run and the remaining operations are counted as skipped.
pub fn execute_batch_with<P, F: Fn(&str, &P) -> Result<String, String>>(
    operations: Vec<BatchOp<P>>,
    fail_fast: bool,
    max_chars_per_op: usize,
    execute: F,
) -> (s: BatchSummary)
    requires
        forall|name: &str, p: &P| execute.requires((name, p)),
    ensures
        s.total == operations.len(),
        s.results.len() <= s.total,
        s.passed == count_passed(s.results@),
        s.passed + s.failed == s.results.len(),
        s.skipped == s.total - s.results.len(),
        s.passed + s.failed + s.skipped == s.total,
        forall|i: int|
            0 <= i < s.results.len() ==> op_result_ok(
                #[trigger] s.results@[i],
                i,
                operations@[i],
                max_chars_per_op,
                execute,
            ),
        !fail_fast ==> s.results.len() == s.total,
        fail_fast ==> forall|i: int| 0 <= i < s.results.len() - 1 ==> (#[trigger] s.results@[i]).success,
        fail_fast && s.results.len() < s.total ==> s.results.len() > 0 && !s.results@[s.results.len()
            - 1].success,
{
    let total = operations.len();
    let mut results: Vec<OpResult> = Vec::new();
    let mut passed: usize = 0;
    let mut index: usize = 0;
    let mut stopped = false;
    while index < total && !stopped
        invariant
            total == operations.len(),
            index <= total,
            results.len() == index,
            passed == count_passed(results@),
            passed <= results.len(),
            forall|name: &str, p: &P| execute.requires((name, p)),
            forall|i: int|
                0 <= i < results.len() ==> op_result_ok(
                    #[trigger] results@[i],
                    i,
                    operations@[i],
                    max_chars_per_op,
                    execute,
                ),
            !fail_fast ==> !stopped,
            fail_fast ==> forall|i: int|
                0 <= i < results.len() - 1 ==> (#[trigger] results@[i]).success,
            fail_fast && !stopped ==> forall|i: int|
                0 <= i < results.len() ==> (#[trigger] results@[i]).success,
            stopped ==> results.len() > 0 && !results@[results.len() - 1].success,
        decreases total - index,
    {
        let op = &operations[index];
        let name = op.tool_name.as_str();
        let ghost old_results = results@;
        let r = if is_nested(name) {
            let msg = String::from_str("Nested cortex_act_batch_execute is not allowed");
            let chars = chars_of(msg.as_str()).len();
            OpResult {
                index,
                tool_name: op.tool_name.clone(),
                success: false,
                output: msg,
                output_chars: chars,
                truncated: false,
            }
        } else {
            let outcome = execute(name, &op.parameters);
            let success = outcome.is_ok();
            let raw = match outcome {
                Ok(t) => t,
                Err(e) => e,
            };
            let (output, truncated, raw_chars) = summarize_output(raw, max_chars_per_op);
            OpResult {
                index,
                tool_name: op.tool_name.clone(),
                success,
                output,
                output_chars: raw_chars,
                truncated,
            }
        };
        let ok = r.success;
        results.push(r);
        assert(results@.drop_last() == old_results);
        if ok {
            passed += 1;
        }
        index += 1;
        if fail_fast && !ok {
            stopped = true;
        }
    }
    let n = results.len();
    BatchSummary { total, passed, failed: n - passed, skipped: total - n, results }
}

} // verus!
