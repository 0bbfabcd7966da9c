use vstd::prelude::*;
use crate::error::{AirecError, ErrorCode, ErrorData, ErrorDataView};
use crate::event::StopReason;
use crate::model::FailurePolicy;
use crate::model::{ResolvedTarget, TargetKind, WindowInfo, duplicate_windows};
use crate::records::{FailureRecord, SuccessRecord, duplicate_failures, duplicate_successes};
use crate::numbers::{parse_usize_text, unsigned_reading};
use crate::text::{
    char_is_alphanumeric, char_to_lowercase, chars_of, contains_run, contains_text, eq_ignore_ascii_case,
    is_alphanumeric_char, lowercase_of, spec_eq_ignore_ascii_case, string_from_chars, digits, spec_digits,
};

verus! {

/// The code that summarizes failed targets under each policy.
pub open spec fn aggregate_code(policy: FailurePolicy) -> ErrorCode {
    match policy {
        FailurePolicy::Continue => ErrorCode::PartialFailure,
        FailurePolicy::Abort => ErrorCode::AbortedOnFailure,
    }
}

/// The stop reason that the summary reports under each policy.
pub open spec fn aggregate_stop_reason(policy: FailurePolicy) -> StopReason {
    match policy {
        FailurePolicy::Continue => StopReason::Error,
        FailurePolicy::Abort => StopReason::AbortedOnFailure,
    }
}

pub open spec fn aggregate_message(policy: FailurePolicy) -> Seq<char> {
    match policy {
        FailurePolicy::Continue => "one or more targets failed"@,
        FailurePolicy::Abort => "session aborted because a target failed"@,
    }
}

/// The error that summarizes a session in which some targets failed: `None` when none
/// failed; otherwise the policy's code and message, with every success and failure listed.
pub fn aggregate_failures(
    policy: FailurePolicy,
    successes: &[SuccessRecord],
    failures: &[FailureRecord],
) -> (error: Option<AirecError>)
    ensures
        error is None <==> failures@.len() == 0,
        error matches Some(e) ==> {
            &&& e.code == aggregate_code(policy)
            &&& e.message@ == aggregate_message(policy)
            &&& e.data@ == (ErrorDataView::Aggregate {
                successes: successes@,
                failures: failures@,
                stop_reason: aggregate_stop_reason(policy),
            })
        },
{
    if failures.len() == 0 {
        return None;
    }
    let (code, message, stop_reason) = match policy {
        FailurePolicy::Continue => (
            ErrorCode::PartialFailure,
            String::from_str("one or more targets failed"),
            StopReason::Error,
        ),
        FailurePolicy::Abort => (
            ErrorCode::AbortedOnFailure,
            String::from_str("session aborted because a target failed"),
            StopReason::AbortedOnFailure,
        ),
    };
    Some(
        AirecError::new(
            code,
            message,
            ErrorData::Aggregate {
                successes: duplicate_successes(successes),
                failures: duplicate_failures(failures),
                stop_reason,
            },
        ),
    )
}

/// The characters of a file stem before trimming, and whether the last input character was
/// replaced by a dash: alphanumeric characters are lowercased, every run of other characters
/// becomes one dash, and no dash starts the stem.
pub open spec fn stem_state(value: Seq<char>) -> (Seq<char>, bool)
    decreases value.len(),
{
    if value.len() == 0 {
        (Seq::empty(), false)
    } else {
        let (output, last_dash) = stem_state(value.drop_last());
        let c = value.last();
        if is_alphanumeric_char(c) {
            (output + lowercase_of(c), false)
        } else if !last_dash && output.len() > 0 {
            (output.push('-'), true)
        } else {
            (output, true)
        }
    }
}

pub open spec fn trim_leading_dashes(text: Seq<char>) -> Seq<char>
    decreases text.len(),
{
    if text.len() > 0 && text[0] == '-' {
        trim_leading_dashes(text.drop_first())
    } else {
        text
    }
}

pub open spec fn trim_trailing_dashes(text: Seq<char>) -> Seq<char>
    decreases text.len(),
{
    if text.len() > 0 && text.last() == '-' {
        trim_trailing_dashes(text.drop_last())
    } else {
        text
    }
}

/// A Windows-safe file stem: the stem state without leading or trailing dashes, cut to 80
/// characters.
pub open spec fn spec_sanitize_file_stem(value: Seq<char>) -> Seq<char> {
    let trimmed = trim_trailing_dashes(trim_leading_dashes(stem_state(value).0));
    if trimmed.len() > 80 {
        trimmed.take(80)
    } else {
        trimmed
    }
}

/// The stem state over the first `count` characters of a text whose characters are classed by
/// `alphanumeric` and have the lowercase forms `lowered`: alphanumeric characters give their
/// lowercase form, every run of other characters one dash, and no dash starts the stem.
pub open spec fn classified_stem_state(alphanumeric: Seq<bool>, lowered: Seq<Seq<char>>, count: int) -> (
    Seq<char>,
    bool,
)
    decreases count,
{
    if count <= 0 {
        (Seq::empty(), false)
    } else {
        let (output, last_dash) = classified_stem_state(alphanumeric, lowered, count - 1);
        if alphanumeric[count - 1] {
            (output + lowered[count - 1], false)
        } else if !last_dash && output.len() > 0 {
            (output.push('-'), true)
        } else {
            (output, true)
        }
    }
}

/// The file stem of a text whose characters are classed by `alphanumeric` and have the
/// lowercase forms `lowered`: the stem state without leading or trailing dashes, cut to 80
/// characters.
pub open spec fn classified_stem(alphanumeric: Seq<bool>, lowered: Seq<Seq<char>>) -> Seq<char> {
    let trimmed = trim_trailing_dashes(
        trim_leading_dashes(classified_stem_state(alphanumeric, lowered, alphanumeric.len() as int).0),
    );
    if trimmed.len() > 80 {
        trimmed.take(80)
    } else {
        trimmed
    }
}

/// The Windows-safe file stem of a text given, per character, whether it is alphanumeric and
/// its lowercase form.
pub fn sanitize_classified(alphanumeric: &[bool], lowered: &[Vec<char>]) -> (stem: Vec<char>)
    requires
        alphanumeric@.len() == lowered@.len(),
    ensures
        stem@ == classified_stem(alphanumeric@, Seq::new(lowered@.len(), |i: int| lowered@[i]@)),
{
    let ghost forms = Seq::new(lowered@.len(), |i: int| lowered@[i]@);
    let mut output: Vec<char> = Vec::new();
    let mut last_dash = false;
    let mut i: usize = 0;
    while i < alphanumeric.len()
        invariant
            i <= alphanumeric@.len(),
            alphanumeric@.len() == lowered@.len(),
            forms == Seq::new(lowered@.len(), |i: int| lowered@[i]@),
            (output@, last_dash) == classified_stem_state(alphanumeric@, forms, i as int),
        decreases alphanumeric@.len() - i,
    {
        if alphanumeric[i] {
            let lower = &lowered[i];
            let mut j: usize = 0;
            let ghost before = output@;
            while j < lower.len()
                invariant
                    j <= lower@.len(),
                    output@ == before + lower@.take(j as int),
                decreases lower@.len() - j,
            {
                output.push(lower[j]);
                j += 1;
                assert(output@ =~= before + lower@.take(j as int));
            }
            assert(lower@.take(lower@.len() as int) =~= lower@);
            assert(forms[i as int] == lower@);
            last_dash = false;
        } else {
            if !last_dash && output.len() > 0 {
                output.push('-');
            }
            last_dash = true;
        }
        i += 1;
    }
    let mut start: usize = 0;
    assert(output@.skip(0) =~= output@);
    while start < output.len() && output[start] == '-'
        invariant
            start <= output@.len(),
            trim_leading_dashes(output@) == trim_leading_dashes(output@.skip(start as int)),
        decreases output@.len() - start,
    {
        assert(output@.skip(start as int).drop_first() =~= output@.skip(start + 1));
        start += 1;
    }
    let ghost leading = output@.skip(start as int);
    assert(trim_leading_dashes(output@) == leading);
    let mut end: usize = output.len();
    while end > start && output[end - 1] == '-'
        invariant
            start <= end <= output@.len(),
            leading == output@.skip(start as int),
            trim_trailing_dashes(leading) == trim_trailing_dashes(output@.subrange(start as int, end as int)),
        decreases end,
    {
        assert(output@.subrange(start as int, end as int).drop_last() =~= output@.subrange(start as int, end - 1));
        end -= 1;
    }
    assert(output@.skip(start as int) =~= output@.subrange(start as int, output@.len() as int));
    let limit: usize = if end - start > 80 {
        start + 80
    } else {
        end
    };
    let mut stem: Vec<char> = Vec::new();
    let mut k: usize = start;
    while k < limit
        invariant
            start <= k <= limit,
            limit <= output@.len(),
            stem@ == output@.subrange(start as int, k as int),
        decreases limit - k,
    {
        stem.push(output[k]);
        k += 1;
        assert(stem@ =~= output@.subrange(start as int, k as int));
    }
    proof {
        let trimmed = output@.subrange(start as int, end as int);
        assert(trim_trailing_dashes(trimmed) == trimmed);
        if trimmed.len() > 80 {
            assert(stem@ =~= trimmed.take(80));
        } else {
            assert(stem@ =~= trimmed);
        }
    }
    stem
}

/// The shape a stem keeps as characters are added: no two dashes in a row, a trailing dash
/// only right after a separator, no leading dash, and every other character from the lowercase
/// form of an alphanumeric character.
pub open spec fn stem_shape(output: Seq<char>, last_dash: bool, alphanumeric: Seq<bool>, lowered: Seq<Seq<char>>) -> bool {
    &&& forall|k: int| 0 <= k < output.len() - 1 ==> !(#[trigger] output[k] == '-' && output[k + 1] == '-')
    &&& output.len() > 0 && output.last() == '-' ==> last_dash
    &&& output.len() > 0 ==> output[0] != '-'
    &&& forall|k: int|
        0 <= k < output.len() ==> #[trigger] output[k] == '-' || exists|i: int, j: int|
            0 <= i < alphanumeric.len() && alphanumeric[i] && 0 <= j < lowered[i].len() && output[k]
                == #[trigger] lowered[i][j]
}

proof fn lemma_stem_state_shape(alphanumeric: Seq<bool>, lowered: Seq<Seq<char>>, count: int)
    requires
        0 <= count <= alphanumeric.len(),
        lowered.len() == alphanumeric.len(),
        forall|i: int| 0 <= i < alphanumeric.len() && #[trigger] alphanumeric[i] ==> lowered[i].len() > 0,
        forall|i: int, j: int| 0 <= i < lowered.len() && 0 <= j < lowered[i].len() ==> #[trigger] lowered[i][j] != '-',
    ensures
        ({
            let (output, last_dash) = classified_stem_state(alphanumeric, lowered, count);
            stem_shape(output, last_dash, alphanumeric, lowered)
        }),
    decreases count,
{
    if count > 0 {
        lemma_stem_state_shape(alphanumeric, lowered, count - 1);
        let (before, before_dash) = classified_stem_state(alphanumeric, lowered, count - 1);
        let (output, last_dash) = classified_stem_state(alphanumeric, lowered, count);
        let c = count - 1;
        if alphanumeric[c] {
            let form = lowered[c];
            assert(output == before + form);
            assert(form[0] != '-');
            assert(form.last() != '-');
            assert forall|k: int| 0 <= k < output.len() - 1 implies !(#[trigger] output[k] == '-' && output[k + 1]
                == '-') by {
                if k + 1 >= before.len() {
                    assert(output[k + 1] == form[k + 1 - before.len()]);
                }
            }
            assert forall|k: int| 0 <= k < output.len() implies #[trigger] output[k] == '-' || exists|i: int, j: int|
                0 <= i < alphanumeric.len() && alphanumeric[i] && 0 <= j < lowered[i].len() && output[k]
                    == #[trigger] lowered[i][j] by {
                if k >= before.len() {
                    assert(output[k] == lowered[c][k - before.len()]);
                } else {
                    assert(output[k] == before[k]);
                }
            }
            if before.len() == 0 {
                assert(output[0] == form[0]);
            } else {
                assert(output[0] == before[0]);
            }
            assert(output.last() == form.last());
        } else if !before_dash && before.len() > 0 {
            assert(output == before.push('-'));
            assert forall|k: int| 0 <= k < output.len() - 1 implies !(#[trigger] output[k] == '-' && output[k + 1]
                == '-') by {
                assert(output[k] == before[k]);
                if k + 1 < before.len() {
                    assert(output[k + 1] == before[k + 1]);
                }
            }
            assert forall|k: int| 0 <= k < output.len() implies #[trigger] output[k] == '-' || exists|i: int, j: int|
                0 <= i < alphanumeric.len() && alphanumeric[i] && 0 <= j < lowered[i].len() && output[k]
                    == #[trigger] lowered[i][j] by {
                if k < before.len() {
                    assert(output[k] == before[k]);
                }
            }
            assert(output[0] == before[0]);
        }
    }
}

proof fn lemma_trim_trailing_prefix(text: Seq<char>)
    ensures
        trim_trailing_dashes(text).len() <= text.len(),
        trim_trailing_dashes(text) == text.take(trim_trailing_dashes(text).len() as int),
    decreases text.len(),
{
    if text.len() > 0 && text.last() == '-' {
        lemma_trim_trailing_prefix(text.drop_last());
        let trimmed = trim_trailing_dashes(text.drop_last());
        assert(text.drop_last().take(trimmed.len() as int) =~= text.take(trimmed.len() as int));
    } else {
        assert(text.take(text.len() as int) =~= text);
    }
}

/// The file stem of characters whose lowercase forms hold no dash, and are not empty for the
/// alphanumeric ones, is safe on Windows: at most 80 characters, made of those forms and
/// single dashes, and never starting with a dash.
pub proof fn lemma_classified_stem_is_safe(alphanumeric: Seq<bool>, lowered: Seq<Seq<char>>)
    requires
        lowered.len() == alphanumeric.len(),
        forall|i: int| 0 <= i < alphanumeric.len() && #[trigger] alphanumeric[i] ==> lowered[i].len() > 0,
        forall|i: int, j: int| 0 <= i < lowered.len() && 0 <= j < lowered[i].len() ==> #[trigger] lowered[i][j] != '-',
    ensures
        ({
            let stem = classified_stem(alphanumeric, lowered);
            &&& stem.len() <= 80
            &&& stem.len() > 0 ==> stem[0] != '-'
            &&& forall|k: int| 0 <= k < stem.len() - 1 ==> !(#[trigger] stem[k] == '-' && stem[k + 1] == '-')
            &&& forall|k: int|
                0 <= k < stem.len() ==> #[trigger] stem[k] == '-' || exists|i: int, j: int|
                    0 <= i < alphanumeric.len() && alphanumeric[i] && 0 <= j < lowered[i].len() && stem[k]
                        == #[trigger] lowered[i][j]
        }),
{
    let count = alphanumeric.len() as int;
    lemma_stem_state_shape(alphanumeric, lowered, count);
    let (output, last_dash) = classified_stem_state(alphanumeric, lowered, count);
    assert(trim_leading_dashes(output) == output);
    lemma_trim_trailing_prefix(output);
    let trimmed = trim_trailing_dashes(output);
    let stem = classified_stem(alphanumeric, lowered);
    let length = stem.len() as int;
    assert(stem == output.take(length)) by {
        if trimmed.len() > 80 {
            assert(trimmed.take(80) =~= output.take(80));
        }
    }
    assert forall|k: int| 0 <= k < length implies #[trigger] stem[k] == output[k] by {}
    assert forall|k: int| 0 <= k < stem.len() - 1 implies !(#[trigger] stem[k] == '-' && stem[k + 1] == '-') by {
        assert(stem[k] == output[k]);
        assert(stem[k + 1] == output[k + 1]);
    }
    assert forall|k: int| 0 <= k < stem.len() implies #[trigger] stem[k] == '-' || exists|i: int, j: int|
        0 <= i < alphanumeric.len() && alphanumeric[i] && 0 <= j < lowered[i].len() && stem[k]
            == #[trigger] lowered[i][j] by {
        assert(stem[k] == output[k]);
    }
    if length > 0 {
        assert(stem[0] == output[0]);
    }
}

/// Classifying each character of `value` gives its stem state.
proof fn lemma_classified_stem_state(
    value: Seq<char>,
    alphanumeric: Seq<bool>,
    lowered: Seq<Seq<char>>,
    count: int,
)
    requires
        0 <= count <= value.len(),
        alphanumeric.len() == value.len(),
        lowered.len() == value.len(),
        forall|i: int| 0 <= i < value.len() ==> #[trigger] alphanumeric[i] == is_alphanumeric_char(value[i]),
        forall|i: int| 0 <= i < value.len() ==> #[trigger] lowered[i] == lowercase_of(value[i]),
    ensures
        classified_stem_state(alphanumeric, lowered, count) == stem_state(value.take(count)),
    decreases count,
{
    if count > 0 {
        lemma_classified_stem_state(value, alphanumeric, lowered, count - 1);
        assert(value.take(count).drop_last() =~= value.take(count - 1));
        assert(value.take(count).last() == value[count - 1]);
    }
}

pub fn sanitize_file_stem(value: &str) -> (stem: String)
    ensures
        stem@ == spec_sanitize_file_stem(value@),
{
    let input = chars_of(value);
    let mut alphanumeric: Vec<bool> = Vec::new();
    let mut lowered: Vec<Vec<char>> = Vec::new();
    let mut i: usize = 0;
    while i < input.len()
        invariant
            input@ == value@,
            i <= input@.len(),
            alphanumeric@.len() == i,
            lowered@.len() == i,
            forall|k: int| 0 <= k < i ==> #[trigger] alphanumeric@[k] == is_alphanumeric_char(value@[k]),
            forall|k: int| 0 <= k < i ==> #[trigger] lowered@[k]@ == lowercase_of(value@[k]),
        decreases input@.len() - i,
    {
        alphanumeric.push(char_is_alphanumeric(input[i]));
        lowered.push(char_to_lowercase(input[i]));
        i += 1;
    }
    let stem = sanitize_classified(alphanumeric.as_slice(), lowered.as_slice());
    proof {
        let forms = Seq::new(lowered@.len(), |k: int| lowered@[k]@);
        assert forall|k: int| 0 <= k < value@.len() implies #[trigger] forms[k] == lowercase_of(value@[k]) by {
            assert(lowered@[k]@ == lowercase_of(value@[k]));
        }
        lemma_classified_stem_state(value@, alphanumeric@, forms, value@.len() as int);
        assert(value@.take(value@.len() as int) =~= value@);
    }
    string_from_chars(stem.as_slice())
}

/// The windows whose title contains `query`, in order.
pub open spec fn title_matches(windows: Seq<WindowInfo>, query: Seq<char>) -> Seq<WindowInfo> {
    windows.filter(|window: WindowInfo| contains_run(window.title@, query))
}

pub proof fn lemma_filter_push<A>(items: Seq<A>, predicate: spec_fn(A) -> bool, item: A)
    ensures
        items.push(item).filter(predicate) == if predicate(item) {
            items.filter(predicate).push(item)
        } else {
            items.filter(predicate)
        },
{
    reveal(Seq::filter);
    assert(items.push(item).drop_last() =~= items);
}

/// Finds the one window whose title contains `query`. None matching: target not found; more
/// than one: ambiguous, with every match listed as a candidate.
pub fn match_title<'a>(windows: &'a [WindowInfo], query: &str) -> (result: Result<&'a WindowInfo, AirecError>)
    ensures
        ({
            let matches = title_matches(windows@, query@);
            &&& matches.len() == 1 ==> (result matches Ok(window) && *window == matches[0])
            &&& matches.len() == 0 ==> (result matches Err(e) && e.code == ErrorCode::TargetNotFound
                && e.message@ == "no window matches title '"@ + query@ + "'"@
                && e.data is Candidates && e.data->Candidates_query is Some && e.data->Candidates_query->0@ == query@
                && e.data->Candidates_candidates@ == Seq::<WindowInfo>::empty())
            &&& matches.len() > 1 ==> (result matches Err(e) && e.code == ErrorCode::AmbiguousTarget
                && e.message@ == "more than one window matches title '"@ + query@ + "'"@
                && e.data is Candidates && e.data->Candidates_query is Some && e.data->Candidates_query->0@ == query@
                && e.data->Candidates_candidates@ == matches)
        }),
{
    let mut candidates: Vec<WindowInfo> = Vec::new();
    let mut first: usize = 0;
    let mut i: usize = 0;
    while i < windows.len()
        invariant
            i <= windows@.len(),
            candidates@ == title_matches(windows@.take(i as int), query@),
            candidates@.len() > 0 ==> first < i && windows@[first as int] == candidates@[0],
        decreases windows@.len() - i,
    {
        proof {
            lemma_filter_push(windows@.take(i as int), |window: WindowInfo| contains_run(window.title@, query@), windows@[i as int]);
            assert(windows@.take(i + 1) =~= windows@.take(i as int).push(windows@[i as int]));
        }
        if contains_text(windows[i].title.as_str(), query) {
            if candidates.len() == 0 {
                first = i;
            }
            candidates.push(windows[i].duplicate());
        }
        i += 1;
    }
    assert(windows@.take(windows@.len() as int) =~= windows@);
    let query_text = String::from_str(query);
    if candidates.len() == 0 {
        let message = String::from_str("no window matches title '").concat(query).concat("'");
        Err(AirecError::new(
            ErrorCode::TargetNotFound,
            message,
            ErrorData::Candidates { query: Some(query_text), candidates: Vec::new() },
        ))
    } else if candidates.len() == 1 {
        Ok(&windows[first])
    } else {
        let message = String::from_str("more than one window matches title '").concat(query).concat("'");
        Err(AirecError::new(
            ErrorCode::AmbiguousTarget,
            message,
            ErrorData::Candidates { query: Some(query_text), candidates },
        ))
    }
}

/// The windows whose process name equals `query` up to ASCII case, in order.
pub open spec fn process_matches(windows: Seq<WindowInfo>, query: Seq<char>) -> Seq<WindowInfo> {
    windows.filter(|window: WindowInfo| spec_eq_ignore_ascii_case(window.process@, query))
}

/// All windows of the process named `query` (ASCII case-insensitive); target not found when
/// there are none.
pub fn match_process<'a>(windows: &'a [WindowInfo], query: &str) -> (result: Result<Vec<&'a WindowInfo>, AirecError>)
    ensures
        ({
            let matches = process_matches(windows@, query@);
            &&& matches.len() > 0 ==> (result matches Ok(found) && found@.len() == matches.len()
                && forall|k: int| 0 <= k < matches.len() ==> *#[trigger] found@[k] == matches[k])
            &&& matches.len() == 0 ==> (result matches Err(e) && e.code == ErrorCode::TargetNotFound
                && e.message@ == "no window belongs to process '"@ + query@ + "'"@
                && e.data is Candidates && e.data->Candidates_query is Some && e.data->Candidates_query->0@ == query@
                && e.data->Candidates_candidates@ == Seq::<WindowInfo>::empty())
        }),
{
    let mut found: Vec<&'a WindowInfo> = Vec::new();
    let ghost mut matched: Seq<WindowInfo> = Seq::empty();
    let mut i: usize = 0;
    while i < windows.len()
        invariant
            i <= windows@.len(),
            matched == process_matches(windows@.take(i as int), query@),
            found@.len() == matched.len(),
            forall|k: int| 0 <= k < matched.len() ==> *#[trigger] found@[k] == matched[k],
        decreases windows@.len() - i,
    {
        proof {
            lemma_filter_push(windows@.take(i as int), |window: WindowInfo| spec_eq_ignore_ascii_case(window.process@, query@), windows@[i as int]);
            assert(windows@.take(i + 1) =~= windows@.take(i as int).push(windows@[i as int]));
        }
        if eq_ignore_ascii_case(windows[i].process.as_str(), query) {
            found.push(&windows[i]);
            proof {
                matched = matched.push(windows@[i as int]);
            }
        }
        i += 1;
    }
    assert(windows@.take(windows@.len() as int) =~= windows@);
    if found.len() == 0 {
        let message = String::from_str("no window belongs to process '").concat(query).concat("'");
        Err(AirecError::new(
            ErrorCode::TargetNotFound,
            message,
            ErrorData::Candidates { query: Some(String::from_str(query)), candidates: Vec::new() },
        ))
    } else {
        Ok(found)
    }
}

/// The stable id of a monitor target: `monitor-` and its one-based index in decimal.
pub open spec fn spec_monitor_target_id(index: usize) -> Seq<char> {
    "monitor-"@ + spec_digits(index as nat, 10)
}

pub fn monitor_target_id(index: usize) -> (id: String)
    ensures
        id@ == spec_monitor_target_id(index),
{
    let number = digits(index as u64, 10);
    String::from_str("monitor-").concat(string_from_chars(number.as_slice()).as_str())
}

/// `id` with every leading `monitor-` taken off.
pub open spec fn strip_monitor_prefix(id: Seq<char>) -> Seq<char>
    decreases id.len(),
{
    if id.len() >= 8 && id.take(8) == "monitor-"@ {
        strip_monitor_prefix(id.skip(8))
    } else {
        id
    }
}

/// Whether `text` starts with `monitor-`.
fn has_monitor_prefix(text: &str) -> (found: bool)
    ensures
        found == (text@.len() >= 8 && text@.take(8) == "monitor-"@),
{
    let prefix = "monitor-";
    proof {
        reveal_strlit("monitor-");
    }
    if text.unicode_len() < 8 {
        return false;
    }
    let mut i: usize = 0;
    while i < 8
        invariant
            i <= 8,
            text@.len() >= 8,
            prefix@.len() == 8,
            prefix@ == "monitor-"@,
            text@.take(i as int) == prefix@.take(i as int),
        decreases 8 - i,
    {
        if text.get_char(i) != prefix.get_char(i) {
            assert(text@.take(8)[i as int] != prefix@[i as int]);
            return false;
        }
        i += 1;
        assert(text@.take(i as int) =~= prefix@.take(i as int));
    }
    assert(prefix@.take(8) =~= prefix@);
    true
}

/// The monitor index that a monitor target id names: what follows its leading `monitor-`s,
/// read as a decimal `usize`; `None` when that is no such number.
pub fn monitor_index(id: &str) -> (index: Option<usize>)
    ensures
        index == match unsigned_reading(strip_monitor_prefix(id@), 10, usize::MAX as nat) {
            Some(value) => Some(value as usize),
            None => None::<usize>,
        },
{
    let mut rest: &str = id;
    loop
        invariant
            strip_monitor_prefix(rest@) == strip_monitor_prefix(id@),
        ensures
            strip_monitor_prefix(rest@) == strip_monitor_prefix(id@),
            !(rest@.len() >= 8 && rest@.take(8) == "monitor-"@),
        decreases rest@.len(),
    {
        if !has_monitor_prefix(rest) {
            break;
        }
        let ghost before = rest@;
        let length = rest.unicode_len();
        rest = rest.substring_char(8, length);
        assert(rest@ =~= before.skip(8));
    }
    match parse_usize_text(rest) {
        Ok(value) => Some(value),
        Err(_) => None,
    }
}

/// The stable id of a window target: its sanitized title (or `window` when nothing is left),
/// a dash, and the window handle in lowercase hexadecimal, as `{:x}` prints it.
pub open spec fn spec_window_target_id(title: Seq<char>, hwnd: isize) -> Seq<char> {
    let stem = spec_sanitize_file_stem(title);
    (if stem.len() == 0 {
        "window"@
    } else {
        stem
    }) + "-"@ + spec_digits((hwnd as usize) as nat, 16)
}

pub fn window_target_id(title: &str, hwnd: isize) -> (id: String)
    ensures
        id@ == spec_window_target_id(title@, hwnd),
{
    let stem = sanitize_file_stem(title);
    let name = if stem.unicode_len() == 0 {
        String::from_str("window")
    } else {
        stem
    };
    let handle = digits(hwnd as usize as u64, 16);
    name.concat("-").concat(string_from_chars(handle.as_slice()).as_str())
}

/// The recording file name for a target id.
pub fn target_file_name(id: &str) -> (name: String)
    ensures
        name@ == id@ + ".mp4"@,
{
    String::from_str(id).concat(".mp4")
}

/// A monitor bound to its output file.
pub fn resolve_monitor(index: usize, name: String, width: u32, height: u32, output: String) -> (target: ResolvedTarget)
    ensures
        target.kind == TargetKind::Monitor,
        target.id@ == spec_monitor_target_id(index),
        target.title == Some(name),
        target.process is None,
        target.hwnd is None,
        target.width == width,
        target.height == height,
        !target.minimized,
        target.output == output,
{
    ResolvedTarget {
        kind: TargetKind::Monitor,
        id: monitor_target_id(index),
        title: Some(name),
        process: None,
        hwnd: None,
        width,
        height,
        minimized: false,
        output,
    }
}

/// A window bound to its output file.
pub fn resolve_window(window: &WindowInfo, output: String) -> (target: ResolvedTarget)
    ensures
        target.kind == TargetKind::Window,
        target.id@ == spec_window_target_id(window.title@, window.hwnd),
        target.title == Some(window.title),
        target.process == Some(window.process),
        target.hwnd == Some(window.hwnd),
        target.width == window.width,
        target.height == window.height,
        target.minimized == window.minimized,
        target.output == output,
{
    ResolvedTarget {
        kind: TargetKind::Window,
        id: window_target_id(window.title.as_str(), window.hwnd),
        title: Some(window.title.clone()),
        process: Some(window.process.clone()),
        hwnd: Some(window.hwnd),
        width: window.width,
        height: window.height,
        minimized: window.minimized,
        output,
    }
}

} // verus!
