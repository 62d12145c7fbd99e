//! The comparison routine that a record's plan drives.
//!
//! An instance of a record is handed in as one `String` value per declared
//! field, in declaration order.  The routine walks the planned fields in
//! order and, for each field whose current and previous values differ,
//! appends the message `"{name} ({old} to {now})"`, where both values are
//! first passed through the field's display function and then formatted.
//! The two formatters are the default one (backticks) and the ANSI-styled
//! one of `bullet_stream`; a custom display function is handed in as a
//! closure `apply(function_reference, value)`.
//!
//! If the plan is empty — all fields ignored, or the record has none — the
//! routine returns an empty sequence whatever the inputs: the explicit
//! "cache considered unchanged" signal.

use vstd::prelude::*;
use vstd::string::StringExecFns;
use crate::fields::{CacheDiffField, DisplayFn, RecordPlan};
use crate::text::push_char;

verus! {

// --- formatting one value ---

/// `s` wrapped in a pair of backticks: the default presentation of a value.
pub open spec fn backtick_wrap(s: Seq<char>) -> Seq<char> {
    seq!['`'] + s + seq!['`']
}

/// What `bullet_stream::style::value` returns for a given text; the result
/// is a pure function of the characters.
pub uninterp spec fn styled_of(s: Seq<char>) -> Seq<char>;

/// The ANSI presentation of a simple value: the text in yellow, wrapped in
/// backticks.
pub open spec fn ansi_value_wrap(s: Seq<char>) -> Seq<char> {
    seq!['`', '\u{1b}', '[', '0', ';', '3', '3', 'm'] + s + seq!['\u{1b}', '[', '0', 'm', '`']
}

/// Wraps a value in backticks for presentation in a diff message.
pub fn fmt_value(value: &String) -> (r: String)
    ensures
        r@ == backtick_wrap(value@),
{
    let mut r = String::new();
    push_char(&mut r, '`');
    r.append(value.as_str());
    push_char(&mut r, '`');
    proof {
        assert(r@ =~= backtick_wrap(value@));
    }
    r
}

/// Relies on `bullet_stream::style::value`: wraps a value in backticks,
/// coloring each of its lines yellow; the result depends on the characters
/// alone.  For nonempty text without newlines or escape characters the exact
/// shape is stated; an empty value gives a bare pair of backticks.
#[verifier::external_body]
fn style_value(value: &String) -> (r: String)
    ensures
        r@ == styled_of(value@),
        value@.len() == 0 ==> r@ == seq!['`', '`'],
        (value@.len() > 0 && (forall|k: int|
            0 <= k < value@.len() ==> value@[k] != '\n' && value@[k] != '\u{1b}')) ==> r@
            == ansi_value_wrap(value@),
{
    bullet_stream::style::value(value.as_str())
}

/// How one side of a difference is formatted: with the default backtick
/// formatter, or with the ANSI-styled one.
pub open spec fn rendered(styled: bool, s: Seq<char>) -> Seq<char> {
    if styled {
        styled_of(s)
    } else {
        backtick_wrap(s)
    }
}

/// Formats one side of a difference with the chosen formatter.
fn render(styled: bool, value: &String) -> (r: String)
    ensures
        r@ == rendered(styled, value@),
{
    if styled {
        style_value(value)
    } else {
        fmt_value(value)
    }
}

// --- the message for one field ---

/// The exact text of one difference message.
pub open spec fn diff_msg(name: Seq<char>, old_text: Seq<char>, now_text: Seq<char>) -> Seq<char> {
    name + " ("@ + old_text + " to "@ + now_text + ")"@
}

/// Builds the message `"{name} ({old} to {now})"`.
fn build_message(name: &String, old_text: &String, now_text: &String) -> (r: String)
    ensures
        r@ == diff_msg(name@, old_text@, now_text@),
{
    let mut r = name.clone();
    r.append(" (");
    r.append(old_text.as_str());
    r.append(" to ");
    r.append(now_text.as_str());
    r.append(")");
    proof {
        assert(r@ =~= diff_msg(name@, old_text@, now_text@));
    }
    r
}

// --- what the routine promises ---

/// Whether a planned field's value differs between the two instances, under
/// the values' own equality.
pub open spec fn field_differs(f: CacheDiffField, cur: Seq<String>, prev: Seq<String>) -> bool {
    cur[f.index as int]@ != prev[f.index as int]@
}

/// What the message for one differing field must be: the field's display
/// name and both rendered values, `"{name} ({old} to {now})"`.  With a
/// custom display function, both the old and the new value pass through
/// `apply` before formatting.
pub open spec fn message_matches<F: Fn(String, String) -> String>(
    apply: F,
    styled: bool,
    f: CacheDiffField,
    cur: Seq<String>,
    prev: Seq<String>,
    msg: String,
) -> bool {
    match f.display_fn {
        DisplayFn::Custom(g) => exists|so: String, sn: String|
            call_ensures(apply, (g, prev[f.index as int]), so) && call_ensures(
                apply,
                (g, cur[f.index as int]),
                sn,
            ) && msg@ == diff_msg(f.name@, rendered(styled, so@), rendered(styled, sn@)),
        _ => msg@ == diff_msg(
            f.name@,
            rendered(styled, prev[f.index as int]@),
            rendered(styled, cur[f.index as int]@),
        ),
    }
}

/// The routine's contract: `msgs` holds exactly one message for each planned
/// field whose values differ, in plan order, and nothing else.
pub open spec fn msgs_ok<F: Fn(String, String) -> String>(
    apply: F,
    styled: bool,
    fields: Seq<CacheDiffField>,
    cur: Seq<String>,
    prev: Seq<String>,
    msgs: Seq<String>,
) -> bool
    decreases fields.len(),
{
    if fields.len() == 0 {
        msgs.len() == 0
    } else {
        let f = fields.last();
        if field_differs(f, cur, prev) {
            msgs.len() > 0 && msgs_ok(apply, styled, fields.drop_last(), cur, prev, msgs.drop_last())
                && message_matches(apply, styled, f, cur, prev, msgs.last())
        } else {
            msgs_ok(apply, styled, fields.drop_last(), cur, prev, msgs)
        }
    }
}

/// The deterministic message for a field without a custom display function.
pub open spec fn plain_message(styled: bool, f: CacheDiffField, cur: Seq<String>, prev: Seq<String>) -> Seq<
    char,
> {
    diff_msg(
        f.name@,
        rendered(styled, prev[f.index as int]@),
        rendered(styled, cur[f.index as int]@),
    )
}

/// The routine's contract for plans without custom display functions: the
/// messages are fully determined.
pub open spec fn plain_msgs_ok(
    styled: bool,
    fields: Seq<CacheDiffField>,
    cur: Seq<String>,
    prev: Seq<String>,
    msgs: Seq<String>,
) -> bool
    decreases fields.len(),
{
    if fields.len() == 0 {
        msgs.len() == 0
    } else {
        let f = fields.last();
        if field_differs(f, cur, prev) {
            msgs.len() > 0 && plain_msgs_ok(styled, fields.drop_last(), cur, prev, msgs.drop_last())
                && msgs.last()@ == plain_message(styled, f, cur, prev)
        } else {
            plain_msgs_ok(styled, fields.drop_last(), cur, prev, msgs)
        }
    }
}

/// Whether no planned field carries a custom display function.
pub open spec fn no_custom(fields: Seq<CacheDiffField>) -> bool {
    forall|k: int| 0 <= k < fields.len() ==> !((#[trigger] fields[k]).display_fn is Custom)
}

/// Whether `apply` accepts every (function reference, value) pair that a run
/// of the plan over these instances may hand it.
pub open spec fn apply_accepts<F: Fn(String, String) -> String>(
    apply: F,
    fields: Seq<CacheDiffField>,
    cur: Seq<String>,
    prev: Seq<String>,
) -> bool {
    forall|k: int|
        0 <= k < fields.len() && (#[trigger] fields[k]).display_fn is Custom ==> {
            &&& call_requires(apply, (fields[k].display_fn->Custom_0, prev[fields[k].index as int]))
            &&& call_requires(apply, (fields[k].display_fn->Custom_0, cur[fields[k].index as int]))
        }
}

/// Without custom display functions, the routine's general contract reduces
/// to the deterministic one.
proof fn lemma_plain_of_msgs_ok<F: Fn(String, String) -> String>(
    apply: F,
    styled: bool,
    fields: Seq<CacheDiffField>,
    cur: Seq<String>,
    prev: Seq<String>,
    msgs: Seq<String>,
)
    requires
        msgs_ok(apply, styled, fields, cur, prev, msgs),
        no_custom(fields),
    ensures
        plain_msgs_ok(styled, fields, cur, prev, msgs),
    decreases fields.len(),
{
    if fields.len() > 0 {
        assert forall|k: int| 0 <= k < fields.drop_last().len() implies !(
        (#[trigger] fields.drop_last()[k]).display_fn is Custom) by {
            assert(fields.drop_last()[k] == fields[k]);
        }
        let f = fields.last();
        if field_differs(f, cur, prev) {
            lemma_plain_of_msgs_ok(apply, styled, fields.drop_last(), cur, prev, msgs.drop_last());
        } else {
            lemma_plain_of_msgs_ok(apply, styled, fields.drop_last(), cur, prev, msgs);
        }
    }
}

// --- the routine itself ---

/// Walks the planned fields in order and collects one message per differing
/// field, rendering values with the chosen formatter and passing values of
/// custom-display fields through `apply`.
fn diff_core<F: Fn(String, String) -> String>(
    plan: &RecordPlan,
    current: &Vec<String>,
    previous: &Vec<String>,
    apply: F,
    styled: bool,
) -> (r: Vec<String>)
    requires
        plan.wf(),
        current@.len() == plan.field_count,
        previous@.len() == plan.field_count,
        apply_accepts(apply, plan.fields@, current@, previous@),
    ensures
        msgs_ok(apply, styled, plan.fields@, current@, previous@, r@),
{
    let mut out: Vec<String> = Vec::new();
    let mut k: usize = 0;
    proof {
        assert(plan.fields@.take(0) =~= Seq::<CacheDiffField>::empty());
    }
    while k < plan.fields.len()
        invariant
            k <= plan.fields@.len(),
            plan.wf(),
            current@.len() == plan.field_count,
            previous@.len() == plan.field_count,
            apply_accepts(apply, plan.fields@, current@, previous@),
            msgs_ok(apply, styled, plan.fields@.take(k as int), current@, previous@, out@),
        decreases plan.fields@.len() - k,
    {
        let f = &plan.fields[k];
        let idx = f.index;
        let now_v = &current[idx];
        let old_v = &previous[idx];
        proof {
            assert(plan.fields@.take(k + 1).drop_last() =~= plan.fields@.take(k as int));
            assert(plan.fields@.take(k + 1).last() == plan.fields@[k as int]);
        }
        if !(*now_v == *old_v) {
            let msg = match &f.display_fn {
                DisplayFn::Custom(g) => {
                    let so = apply(g.clone(), old_v.clone());
                    let sn = apply(g.clone(), now_v.clone());
                    let old_text = render(styled, &so);
                    let now_text = render(styled, &sn);
                    let m = build_message(&f.name, &old_text, &now_text);
                    proof {
                        assert(call_ensures(apply, (f.display_fn->Custom_0, previous@[idx as int]), so));
                        assert(call_ensures(apply, (f.display_fn->Custom_0, current@[idx as int]), sn));
                        assert(message_matches(apply, styled, plan.fields@[k as int], current@, previous@, m));
                    }
                    m
                },
                _ => {
                    let old_text = render(styled, old_v);
                    let now_text = render(styled, now_v);
                    let m = build_message(&f.name, &old_text, &now_text);
                    proof {
                        assert(message_matches(apply, styled, plan.fields@[k as int], current@, previous@, m));
                    }
                    m
                },
            };
            let ghost prev_out = out@;
            out.push(msg);
            proof {
                assert(out@.drop_last() =~= prev_out);
                assert(out@.last() == msg);
                assert(msgs_ok(apply, styled, plan.fields@.take(k + 1), current@, previous@, out@));
            }
        } else {
            proof {
                assert(!field_differs(plan.fields@[k as int], current@, previous@));
                assert(msgs_ok(apply, styled, plan.fields@.take(k + 1), current@, previous@, out@));
            }
        }
        k += 1;
    }
    proof {
        assert(plan.fields@.take(plan.fields@.len() as int) =~= plan.fields@);
    }
    out
}

/// The generated comparison routine, with a custom display applier: walks
/// the planned fields in declaration order and returns one message per
/// differing field, formatted with the default backtick formatter.
///
/// `apply` interprets `display = f` annotations: it is called with the
/// function reference's text and a field value, once per side of each
/// differing custom-display field, and never for unchanged fields.
pub fn diff_with<F: Fn(String, String) -> String>(
    plan: &RecordPlan,
    current: &Vec<String>,
    previous: &Vec<String>,
    apply: F,
) -> (r: Vec<String>)
    requires
        plan.wf(),
        current@.len() == plan.field_count,
        previous@.len() == plan.field_count,
        apply_accepts(apply, plan.fields@, current@, previous@),
    ensures
        msgs_ok(apply, false, plan.fields@, current@, previous@, r@),
{
    diff_core(plan, current, previous, apply, false)
}

/// The generated comparison routine for plans without custom display
/// functions: one fully-determined message per differing field, in
/// declaration order, formatted with the default backtick formatter.
pub fn diff(plan: &RecordPlan, current: &Vec<String>, previous: &Vec<String>) -> (r: Vec<String>)
    requires
        plan.wf(),
        current@.len() == plan.field_count,
        previous@.len() == plan.field_count,
        no_custom(plan.fields@),
    ensures
        plain_msgs_ok(false, plan.fields@, current@, previous@, r@),
{
    let apply = |_g: String, x: String| -> String { x };
    let out = diff_core(plan, current, previous, apply, false);
    proof {
        lemma_plain_of_msgs_ok(apply, false, plan.fields@, current@, previous@, out@);
    }
    out
}

/// The generated comparison routine for plans without custom display
/// functions, with values styled by `bullet_stream` instead of bare
/// backticks.
pub fn diff_styled(plan: &RecordPlan, current: &Vec<String>, previous: &Vec<String>) -> (r: Vec<
    String,
>)
    requires
        plan.wf(),
        current@.len() == plan.field_count,
        previous@.len() == plan.field_count,
        no_custom(plan.fields@),
    ensures
        plain_msgs_ok(true, plan.fields@, current@, previous@, r@),
{
    let apply = |_g: String, x: String| -> String { x };
    let out = diff_core(plan, current, previous, apply, true);
    proof {
        lemma_plain_of_msgs_ok(apply, true, plan.fields@, current@, previous@, out@);
    }
    out
}

} // verus!
