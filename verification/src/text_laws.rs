//! The names and messages under which things are told apart.

use vstd::prelude::*;

use crate::error::ErrorView;
use crate::json::{compact_json, json_value};
use crate::listing::bytes_before;
use crate::op::{EffectStatus, Vis};
use crate::run::StepResult;
use crate::store::RunStatus;
use crate::text::{decimal, digit};
use crate::zero::{is_digit, reading, unsigned, unsigned_zeros, zero_sign};

verus! {

/// The code of an error says which error it is, whatever it holds besides.
pub proof fn codes_name_the_error(error: ErrorView)
    ensures
        error is CheckpointDb ==> error.code() == "checkpoint_db"@,
        error is CheckpointPool ==> error.code() == "checkpoint_pool"@,
        error is StoreDb ==> error.code() == "store_db"@,
        error is Serialization ==> error.code() == "serialization"@,
        error is Deserialization ==> error.code() == "deserialization"@,
        error is MaxStepsExceeded ==> error.code() == "max_steps_exceeded"@,
        error is CapacityExceeded ==> error.code() == "capacity_exceeded"@,
        error is RunAlreadyActive ==> error.code() == "run_already_active"@,
        error is LeaseLost ==> error.code() == "lease_lost"@,
        error is NotOwner ==> error.code() == "not_owner"@,
        error is ThreadBusy ==> error.code() == "thread_busy"@,
        error is RunNotFound ==> error.code() == "run_not_found"@,
        error is InvalidRunEvent ==> error.code() == "invalid_run_event"@,
        error is StartConflict ==> error.code() == "start_conflict"@,
        error is EffectConflict ==> error.code() == "effect_conflict"@,
        error is EffectNotFound ==> error.code() == "effect_not_found"@,
        error is EffectPending ==> error.code() == "effect_pending"@,
        error is ItemConflict ==> error.code() == "item_conflict"@,
        error is EntryConflict ==> error.code() == "entry_conflict"@,
        error is InvalidPageLimit ==> error.code() == "invalid_page_limit"@,
        error is RuntimeOpUnavailable ==> error.code() == "runtime_op_unavailable"@,
        error is Cancelled ==> error.code() == "cancelled"@,
        error is StreamClosed ==> error.code() == "stream_closed"@,
        error is NoCheckpointState ==> error.code() == "no_checkpoint_state"@,
        error is NoPendingInterrupt ==> error.code() == "no_pending_interrupt"@,
        error is NoInterruptedStep ==> error.code() == "no_interrupted_step"@,
        error is InvalidInterrupt ==> error.code() == "invalid_interrupt"@,
        error is InvalidStep ==> error.code() == "invalid_step"@,
        error is Transition ==> error.code() == "transition"@,
{
}

/// The message of an error says what went wrong, with what the error holds.
pub proof fn messages_say_what_went_wrong(error: ErrorView)
    ensures
        error matches ErrorView::CheckpointDb(text)
            ==> error.message() == "checkpoint database error: "@ + text,
        error matches ErrorView::CheckpointPool(text)
            ==> error.message() == "checkpoint pool exhausted: "@ + text,
        error matches ErrorView::StoreDb(text)
            ==> error.message() == "store database error: "@ + text,
        error matches ErrorView::Serialization(text)
            ==> error.message() == "serialization failed: "@ + text,
        error matches ErrorView::Deserialization(text)
            ==> error.message() == "deserialization failed: "@ + text,
        error matches ErrorView::MaxStepsExceeded { max }
            ==> error.message() == "max steps exceeded ("@ + decimal(max as nat) + ")"@,
        error is CapacityExceeded ==> error.message() == "too many in-flight runs"@,
        error is RunAlreadyActive ==> error.message() == "run is already active"@,
        error is LeaseLost ==> error.message() == "run lease lost"@,
        error is NotOwner ==> error.message() == "run is owned by another worker"@,
        error is ThreadBusy ==> error.message() == "thread is busy"@,
        error is RunNotFound ==> error.message() == "run not found"@,
        error matches ErrorView::InvalidRunEvent { reason }
            ==> error.message() == "invalid run event: "@ + reason,
        error is StartConflict ==> error.message() == "run start conflicts with an existing run"@,
        error is EffectConflict ==> error.message() == "effect conflicts with a recorded effect"@,
        error is EffectNotFound ==> error.message() == "effect not found"@,
        error is EffectPending ==> error.message() == "effect is pending"@,
        error is ItemConflict ==> error.message() == "item conflicts with a recorded item"@,
        error is EntryConflict ==> error.message() == "entry conflicts with a recorded entry"@,
        error is InvalidPageLimit ==> error.message() == "page limit must be positive"@,
        error is RuntimeOpUnavailable ==> error.message() == "runtime operation unavailable"@,
        error is Cancelled ==> error.message() == "run cancelled"@,
        error is StreamClosed ==> error.message() == "stream receiver closed"@,
        error is NoCheckpointState
            ==> error.message() == "checkpoint has pending interrupt but no state"@,
        error is NoPendingInterrupt
            ==> error.message() == "resume requested but checkpoint has no pending interrupt"@,
        error is NoInterruptedStep
            ==> error.message() == "checkpoint has pending interrupt but no interrupted step"@,
        error matches ErrorView::InvalidInterrupt { reason }
            ==> error.message() == "checkpoint has invalid interrupt payload: "@ + reason,
        error matches ErrorView::InvalidStep { reason }
            ==> error.message() == "checkpoint has invalid step payload: "@ + reason,
        error matches ErrorView::Transition(text)
            ==> error.message() == "machine transition failed: "@ + text,
{
}

/// The names under which statuses, visibilities and results are recorded.
pub proof fn names_are_as_recorded(
    status: RunStatus,
    effect: EffectStatus,
    vis: Vis,
    result: StepResult,
)
    ensures
        status is Running ==> status.text() == "running"@,
        status is Completed ==> status.text() == "completed"@,
        status is Interrupted ==> status.text() == "interrupted"@,
        status is Cancelled ==> status.text() == "cancelled"@,
        status is Error ==> status.text() == "error"@,
        effect is Reserved ==> effect.text() == "reserved"@,
        effect is Started ==> effect.text() == "started"@,
        effect is Done ==> effect.text() == "done"@,
        effect is Failed ==> effect.text() == "failed"@,
        effect is Unknown ==> effect.text() == "unknown"@,
        result is Next ==> result.text() == "next"@,
        result is Interrupt ==> result.text() == "interrupt"@,
        result is Complete ==> result.text() == "complete"@,
        vis is Public ==> vis.text() == "public"@,
        vis is Internal ==> vis.text() == "internal"@,
        status.terminal() <==> status is Completed || status is Interrupted || status is Cancelled
            || status is Error,
        effect.blocking() <==> effect is Started || effect is Unknown,
{
}

/// The number that a text of decimal digits stands for.
pub open spec fn number(text: Seq<char>) -> nat
    decreases text.len(),
{
    if text.len() == 0 {
        0
    } else {
        10 * number(text.drop_last()) + value(text.last())
    }
}

/// The value of a decimal digit.
pub open spec fn value(c: char) -> nat {
    (c as int - '0' as int) as nat
}

/// The decimal notation of a number is of digits, stands for the number, and has no leading zero.
pub proof fn decimals_stand_for_their_number(n: nat)
    ensures
        number(decimal(n)) == n,
        decimal(n).len() > 0,
        n > 0 ==> decimal(n)[0] != '0',
        forall|i: int| 0 <= i < decimal(n).len() ==> is_digit(#[trigger] decimal(n)[i]),
    decreases n,
{
    let text = decimal(n);
    if n < 10 {
        assert(text.drop_last() =~= Seq::empty());
        assert(number(text.drop_last()) == 0);
        assert(text.last() == digit(n));
    } else {
        decimals_stand_for_their_number(n / 10);
        assert(text.drop_last() =~= decimal(n / 10));
        assert(text.last() == digit(n % 10));
        assert(text[0] == decimal(n / 10)[0]);
        assert forall|i: int| 0 <= i < text.len() implies is_digit(#[trigger] text[i]) by {
            if i < text.len() - 1 {
                assert(text[i] == decimal(n / 10)[i]);
            }
        }
    }
}

/// One text of bytes comes before another where they are the same up to a place at which the first
/// has ended, or has the smaller byte.
pub proof fn bytes_are_compared_in_order(left: Seq<u8>, right: Seq<u8>, i: int)
    requires
        0 <= i <= left.len(),
        i < right.len(),
        forall|j: int| 0 <= j < i ==> left[j] == right[j],
        i == left.len() || left[i] != right[i],
    ensures
        bytes_before(left, right) <==> i == left.len() || left[i] < right[i],
        !bytes_before(left, left),
    decreases i,
{
    if i > 0 {
        assert forall|j: int| 0 <= j < i - 1 implies left.skip(1)[j] == right.skip(1)[j] by {}
        bytes_are_compared_in_order(left.skip(1), right.skip(1), i - 1);
    }
    lemma_not_before_itself(left);
}

proof fn lemma_not_before_itself(text: Seq<u8>)
    ensures
        !bytes_before(text, text),
    decreases text.len(),
{
    if text.len() > 0 {
        lemma_not_before_itself(text.skip(1));
    }
}

/// Whether a negative zero stands at a place: a minus sign, a zero, a point, a zero, and no digit
/// behind them.
pub open spec fn negative_zero(text: Seq<char>, i: int) -> bool {
    &&& 0 <= i && i + 4 <= text.len()
    &&& text.subrange(i, i + 4) == seq!['-', '0', '.', '0']
    &&& i + 4 == text.len() || !('0' <= text[i + 4] <= '9')
}

/// A text without negative zeros compares as it is.
pub proof fn other_texts_compare_as_they_are(text: Seq<char>)
    requires
        forall|i: int| !#[trigger] negative_zero(text, i),
    ensures
        unsigned_zeros(text) == text,
{
    lemma_unsigned_plain(text, text.len());
    assert(text.take(text.len() as int) =~= text);
}

proof fn lemma_unsigned_plain(text: Seq<char>, n: nat)
    requires
        n <= text.len(),
        forall|i: int| !#[trigger] negative_zero(text, i),
    ensures
        unsigned(text, n) == text.take(n as int),
    decreases n,
{
    if n > 0 {
        lemma_unsigned_plain(text, (n - 1) as nat);
        if zero_sign(text, n - 1) {
            assert(text.subrange(n - 1, n as int + 3) =~= seq!['-', '0', '.', '0']);
            assert(negative_zero(text, n - 1));
        }
        assert(text.take(n as int) =~= text.take(n - 1).push(text[n - 1]));
    } else {
        assert(text.take(0) =~= Seq::empty());
    }
}

/// A negative zero outside of strings compares without its sign, and what stands around it as it is.
pub proof fn negative_zeros_compare_without_sign(text: Seq<char>, i: int)
    requires
        negative_zero(text, i),
        !reading(text, i).0,
        forall|j: int| j != i ==> !#[trigger] negative_zero(text, j),
    ensures
        unsigned_zeros(text) == text.take(i) + text.skip(i + 1),
{
    assert(text.subrange(i, i + 4)[0] == '-');
    assert(text.subrange(i, i + 4)[1] == '0');
    assert(text.subrange(i, i + 4)[2] == '.');
    assert(text.subrange(i, i + 4)[3] == '0');
    lemma_unsigned_once(text, i, text.len());
    assert(text.take(i) + text.subrange(i + 1, text.len() as int) =~= text.take(i) + text.skip(
        i + 1,
    ));
}

proof fn lemma_unsigned_once(text: Seq<char>, i: int, n: nat)
    requires
        n <= text.len(),
        0 <= i < text.len(),
        zero_sign(text, i),
        forall|j: int| j != i ==> !#[trigger] negative_zero(text, j),
    ensures
        unsigned(text, n) == if n <= i {
            text.take(n as int)
        } else {
            text.take(i) + text.subrange(i + 1, n as int)
        },
    decreases n,
{
    if n > 0 {
        lemma_unsigned_once(text, i, (n - 1) as nat);
        if n - 1 != i && zero_sign(text, n - 1) {
            assert(text.subrange(n - 1, n as int + 3) =~= seq!['-', '0', '.', '0']);
            assert(negative_zero(text, n - 1));
        }
        if n <= i {
            assert(text.take(n as int) =~= text.take(n - 1).push(text[n - 1]));
        } else if n - 1 == i {
            assert(text.take(i) =~= text.take(i) + text.subrange(i + 1, n as int));
        } else {
            assert(text.take(i) + text.subrange(i + 1, n as int) =~= (text.take(i)
                + text.subrange(i + 1, n - 1)).push(text[n - 1]));
        }
    } else {
        assert(text.take(0) =~= Seq::empty());
    }
}

/// A JSON text is read just where its compact text can be made, and compares as that text where no
/// negative zero stands in it; the reason why it cannot be read is told as it is.
pub proof fn values_are_read_from_compact_texts(text: Seq<char>)
    ensures
        json_value(text) is Ok <==> compact_json(text) is Ok,
        compact_json(text) matches Err(message)
            ==> json_value(text) == Err::<Seq<char>, Seq<char>>(
            message,
        ),
        compact_json(text) matches Ok(compact) ==> ((forall|i: int| !#[trigger] negative_zero(
            compact,
            i,
        )) ==> json_value(text) == Ok::<Seq<char>, Seq<char>>(compact)),
{
    if let Ok(compact) = compact_json(text) {
        if forall|i: int| !#[trigger] negative_zero(compact, i) {
            other_texts_compare_as_they_are(compact);
        }
    }
}

/// What stands inside of a string compares as it is: a reader is inside of one from a quote on until
/// the next quote that no backslash stands before.
pub proof fn readers_know_strings(text: Seq<char>, i: int)
    requires
        0 <= i < text.len(),
    ensures
        reading(text, 0) == (false, false),
        !reading(text, i).0 ==> (reading(text, i + 1).0 <==> text[i] == '"'),
        !reading(text, i).0 ==> !reading(text, i + 1).1,
        reading(text, i).0 && !reading(text, i).1 ==> (reading(text, i + 1).0 <==> text[i] != '"'),
        reading(text, i).0 && !reading(text, i).1
            ==> (reading(text, i + 1).1 <==> text[i] == '\\'),
        reading(text, i).0 && reading(text, i).1 ==> reading(text, i + 1) == (true, false),
        reading(text, i).0 ==> !zero_sign(text, i),
{
}

} // verus!
