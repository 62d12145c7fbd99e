//! The library's laws: properties of plan building and of the comparison
//! routine that hold for every record, proved once and for all against the
//! contracts of [`crate::fields`] and [`crate::routine`].

use vstd::prelude::*;
use crate::fields::{
    CacheDiffField, DisplayFn, FieldDeclModel, FieldModel, GenErrorModel, default_name,
    spec_annotation_of, spec_create_cache_diff, spec_field_plan, spec_plan_fields,
};
use crate::routine::{diff_msg, field_differs, message_matches, msgs_ok, rendered};
use crate::attributes::{merged, AnnotationModel};

verus! {

// --- parser-side laws ---

/// Duplicate-key resolution is last-write-wins: whatever earlier entries of
/// an annotation block set, the merged configuration carries the value of
/// the last entry that sets `rename` — duplicates are not rejected.
/// (`display` merges the same way, and `ignore`, once present, stays.)
pub proof fn lemma_duplicate_key_last_write(entries: Seq<AnnotationModel>, j: int, v: Seq<char>)
    requires
        0 <= j < entries.len(),
        entries[j].rename == Some(v),
        forall|m: int| j < m < entries.len() ==> (#[trigger] entries[m]).rename is None,
    ensures
        merged(entries).rename == Some(v),
    decreases entries.len(),
{
    if j == entries.len() - 1 {
    } else {
        let pre = entries.drop_last();
        assert(entries[entries.len() - 1].rename is None);
        assert(pre[j] == entries[j]);
        assert forall|m: int| j < m < pre.len() implies (#[trigger] pre[m]).rename is None by {
            assert(pre[m] == entries[m]);
        }
        lemma_duplicate_key_last_write(pre, j, v);
    }
}

// --- plan-side laws ---

/// Every planned field stems from the declaration at its position: the plan
/// holds exactly what `spec_field_plan` yields there, with positions strictly
/// increasing and inside the record.  Plan order is declaration order.
pub proof fn lemma_plan_fields_characterized(decls: Seq<FieldDeclModel>, fs: Seq<FieldModel>)
    requires
        spec_plan_fields(decls) == Ok::<Seq<FieldModel>, GenErrorModel>(fs),
    ensures
        forall|k: int| 0 <= k < fs.len() ==> 0 <= (#[trigger] fs[k]).index < decls.len(),
        forall|k: int|
            0 <= k < fs.len() ==> spec_field_plan(decls[(#[trigger] fs[k]).index], fs[k].index)
                == Ok::<Option<FieldModel>, GenErrorModel>(Some(fs[k])),
        forall|k1: int, k2: int|
            #![trigger fs[k1], fs[k2]]
            0 <= k1 < k2 < fs.len() ==> fs[k1].index < fs[k2].index,
    decreases decls.len(),
{
    if decls.len() == 0 {
    } else {
        let pre = decls.drop_last();
        assert(spec_plan_fields(pre) is Ok);
        let fs0 = spec_plan_fields(pre)->Ok_0;
        lemma_plan_fields_characterized(pre, fs0);
        assert forall|k: int| 0 <= k < fs0.len() implies decls[(#[trigger] fs0[k]).index] == pre[fs0[k].index] by {
        }
        match spec_field_plan(decls.last(), decls.len() - 1) {
            Ok(Option::Some(f)) => {
                assert(fs == fs0.push(f));
                assert(f.index == decls.len() - 1);
                assert forall|k: int| 0 <= k < fs.len() implies 0 <= (#[trigger] fs[k]).index
                    < decls.len() by {
                    if k < fs0.len() {
                        assert(fs[k] == fs0[k]);
                    }
                }
                assert forall|k: int| 0 <= k < fs.len() implies spec_field_plan(
                    decls[(#[trigger] fs[k]).index],
                    fs[k].index,
                ) == Ok::<Option<FieldModel>, GenErrorModel>(Some(fs[k])) by {
                    if k < fs0.len() {
                        assert(fs[k] == fs0[k]);
                    } else {
                        assert(fs[k] == f);
                        assert(decls[f.index] == decls.last());
                    }
                }
                assert forall|k1: int, k2: int|
                    #![trigger fs[k1], fs[k2]]
                    0 <= k1 < k2 < fs.len() implies fs[k1].index < fs[k2].index by {
                    if k2 < fs0.len() {
                        assert(fs[k1] == fs0[k1] && fs[k2] == fs0[k2]);
                    } else {
                        assert(fs[k1] == fs0[k1] && fs[k2] == f);
                    }
                }
            },
            Ok(Option::None) => {
                assert(fs == fs0);
            },
            Err(_) => {
                assert(false);
            },
        }
    }
}

/// Ignore correctness, plan side: a field whose annotation block carries
/// `ignore` is dropped from the plan entirely — no planned field reads its
/// position, however its values differ.
pub proof fn lemma_ignore_correctness(decls: Seq<FieldDeclModel>, i: int, fs: Seq<FieldModel>)
    requires
        spec_plan_fields(decls) == Ok::<Seq<FieldModel>, GenErrorModel>(fs),
        0 <= i < decls.len(),
        spec_annotation_of(decls[i]) matches Ok(a) && a.ignore,
    ensures
        forall|k: int| 0 <= k < fs.len() ==> (#[trigger] fs[k]).index != i,
{
    lemma_plan_fields_characterized(decls, fs);
    assert forall|k: int| 0 <= k < fs.len() implies (#[trigger] fs[k]).index != i by {
        if fs[k].index == i {
            assert(spec_field_plan(decls[i], i) == Ok::<Option<FieldModel>, GenErrorModel>(
                Some(fs[k]),
            ));
            assert(false);
        }
    }
}

/// A record with no fields plans no fields.
pub proof fn lemma_zero_field_plan()
    ensures
        spec_create_cache_diff(Seq::<FieldDeclModel>::empty()) == Ok::<
            Seq<FieldModel>,
            GenErrorModel,
        >(Seq::<FieldModel>::empty()),
{
}

// --- routine-side laws ---

/// Order preservation: when every planned field differs between the two
/// instances, the routine returns exactly one message per planned field,
/// the k-th message speaking for the k-th planned field — and plan order is
/// declaration order.
pub proof fn lemma_order_preservation<F: Fn(String, String) -> String>(
    apply: F,
    styled: bool,
    fields: Seq<CacheDiffField>,
    cur: Seq<String>,
    prev: Seq<String>,
    msgs: Seq<String>,
)
    requires
        msgs_ok(apply, styled, fields, cur, prev, msgs),
        forall|k: int| 0 <= k < fields.len() ==> field_differs(#[trigger] fields[k], cur, prev),
    ensures
        msgs.len() == fields.len(),
        forall|k: int|
            0 <= k < fields.len() ==> message_matches(
                apply,
                styled,
                #[trigger] fields[k],
                cur,
                prev,
                msgs[k],
            ),
    decreases fields.len(),
{
    if fields.len() > 0 {
        assert(field_differs(fields[fields.len() - 1], cur, prev));
        assert forall|k: int| 0 <= k < fields.drop_last().len() implies field_differs(
            #[trigger] fields.drop_last()[k],
            cur,
            prev,
        ) by {
            assert(fields.drop_last()[k] == fields[k]);
        }
        lemma_order_preservation(apply, styled, fields.drop_last(), cur, prev, msgs.drop_last());
        assert forall|k: int| 0 <= k < fields.len() implies message_matches(
            apply,
            styled,
            #[trigger] fields[k],
            cur,
            prev,
            msgs[k],
        ) by {
            if k < fields.len() - 1 {
                assert(fields.drop_last()[k] == fields[k]);
                assert(msgs.drop_last()[k] == msgs[k]);
            }
        }
    }
}

/// Empty-diff idempotence: comparing an instance with itself yields no
/// messages, for any plan.
pub proof fn lemma_same_instance_empty<F: Fn(String, String) -> String>(
    apply: F,
    styled: bool,
    fields: Seq<CacheDiffField>,
    x: Seq<String>,
    msgs: Seq<String>,
)
    requires
        msgs_ok(apply, styled, fields, x, x, msgs),
    ensures
        msgs.len() == 0,
    decreases fields.len(),
{
    if fields.len() > 0 {
        assert(!field_differs(fields.last(), x, x));
        lemma_same_instance_empty(apply, styled, fields.drop_last(), x, msgs);
    }
}

/// Zero-field record: an empty plan yields no messages, for any two
/// instances.
pub proof fn lemma_zero_field_empty<F: Fn(String, String) -> String>(
    apply: F,
    styled: bool,
    cur: Seq<String>,
    prev: Seq<String>,
    msgs: Seq<String>,
)
    requires
        msgs_ok(apply, styled, Seq::<CacheDiffField>::empty(), cur, prev, msgs),
    ensures
        msgs.len() == 0,
{
}

/// Whether a message speaks for some planned field whose values differ.
pub open spec fn message_from_plan<F: Fn(String, String) -> String>(
    apply: F,
    styled: bool,
    fields: Seq<CacheDiffField>,
    cur: Seq<String>,
    prev: Seq<String>,
    msg: String,
) -> bool {
    exists|k: int|
        #![trigger fields[k]]
        0 <= k < fields.len() && field_differs(fields[k], cur, prev) && message_matches(
            apply,
            styled,
            fields[k],
            cur,
            prev,
            msg,
        )
}

proof fn lemma_message_from_plan_extend<F: Fn(String, String) -> String>(
    apply: F,
    styled: bool,
    fields: Seq<CacheDiffField>,
    cur: Seq<String>,
    prev: Seq<String>,
    msg: String,
)
    requires
        fields.len() > 0,
        message_from_plan(apply, styled, fields.drop_last(), cur, prev, msg),
    ensures
        message_from_plan(apply, styled, fields, cur, prev, msg),
{
    let k0 = choose|k: int|
        0 <= k < fields.drop_last().len() && field_differs(fields.drop_last()[k], cur, prev)
            && message_matches(apply, styled, fields.drop_last()[k], cur, prev, msg);
    assert(fields.drop_last()[k0] == fields[k0]);
    assert(0 <= k0 < fields.len() && field_differs(fields[k0], cur, prev) && message_matches(
        apply,
        styled,
        fields[k0],
        cur,
        prev,
        msg,
    ));
}

/// Every message the routine returns stems from some planned field whose
/// values differ: nothing is reported for unchanged or unplanned fields.
pub proof fn lemma_messages_from_plan<F: Fn(String, String) -> String>(
    apply: F,
    styled: bool,
    fields: Seq<CacheDiffField>,
    cur: Seq<String>,
    prev: Seq<String>,
    msgs: Seq<String>,
)
    requires
        msgs_ok(apply, styled, fields, cur, prev, msgs),
    ensures
        forall|j: int|
            0 <= j < msgs.len() ==> message_from_plan(
                apply,
                styled,
                fields,
                cur,
                prev,
                #[trigger] msgs[j],
            ),
    decreases fields.len(),
{
    if fields.len() > 0 {
        let f = fields.last();
        if field_differs(f, cur, prev) {
            lemma_messages_from_plan(apply, styled, fields.drop_last(), cur, prev, msgs.drop_last());
            assert forall|j: int| 0 <= j < msgs.len() implies message_from_plan(
                apply,
                styled,
                fields,
                cur,
                prev,
                #[trigger] msgs[j],
            ) by {
                if j == msgs.len() - 1 {
                    assert(msgs[j] == msgs.last());
                    assert(fields[fields.len() - 1] == f);
                    assert(0 <= fields.len() - 1 < fields.len() && field_differs(
                        fields[fields.len() - 1],
                        cur,
                        prev,
                    ) && message_matches(
                        apply,
                        styled,
                        fields[fields.len() - 1],
                        cur,
                        prev,
                        msgs[j],
                    ));
                } else {
                    assert(msgs.drop_last()[j] == msgs[j]);
                    assert(message_from_plan(apply, styled, fields.drop_last(), cur, prev, msgs[j]));
                    lemma_message_from_plan_extend(apply, styled, fields, cur, prev, msgs[j]);
                }
            }
        } else {
            lemma_messages_from_plan(apply, styled, fields.drop_last(), cur, prev, msgs);
            assert forall|j: int| 0 <= j < msgs.len() implies message_from_plan(
                apply,
                styled,
                fields,
                cur,
                prev,
                #[trigger] msgs[j],
            ) by {
                assert(message_from_plan(apply, styled, fields.drop_last(), cur, prev, msgs[j]));
                lemma_message_from_plan_extend(apply, styled, fields, cur, prev, msgs[j]);
            }
        }
    }
}

/// A differing planned field always gets some message.
pub proof fn lemma_differing_field_has_message<F: Fn(String, String) -> String>(
    apply: F,
    styled: bool,
    fields: Seq<CacheDiffField>,
    k: int,
    cur: Seq<String>,
    prev: Seq<String>,
    msgs: Seq<String>,
)
    requires
        msgs_ok(apply, styled, fields, cur, prev, msgs),
        0 <= k < fields.len(),
        field_differs(fields[k], cur, prev),
    ensures
        exists|j: int|
            0 <= j < msgs.len() && message_matches(
                apply,
                styled,
                fields[k],
                cur,
                prev,
                #[trigger] msgs[j],
            ),
    decreases fields.len(),
{
    let f = fields.last();
    if k == fields.len() - 1 {
        assert(field_differs(f, cur, prev));
        assert(message_matches(apply, styled, fields[k], cur, prev, msgs[msgs.len() - 1]));
    } else {
        assert(fields.drop_last()[k] == fields[k]);
        if field_differs(f, cur, prev) {
            lemma_differing_field_has_message(
                apply,
                styled,
                fields.drop_last(),
                k,
                cur,
                prev,
                msgs.drop_last(),
            );
            let j0 = choose|j: int|
                0 <= j < msgs.drop_last().len() && message_matches(
                    apply,
                    styled,
                    fields.drop_last()[k],
                    cur,
                    prev,
                    msgs.drop_last()[j],
                );
            assert(msgs.drop_last()[j0] == msgs[j0]);
            assert(message_matches(apply, styled, fields[k], cur, prev, msgs[j0]));
        } else {
            lemma_differing_field_has_message(
                apply,
                styled,
                fields.drop_last(),
                k,
                cur,
                prev,
                msgs,
            );
            let j0 = choose|j: int|
                0 <= j < msgs.len() && message_matches(
                    apply,
                    styled,
                    fields.drop_last()[k],
                    cur,
                    prev,
                    msgs[j],
                );
            assert(message_matches(apply, styled, fields[k], cur, prev, msgs[j0]));
        }
    }
}

/// Every message for a field starts with the field's display name followed
/// by ` (`, whatever display function and formatter are in play.
pub proof fn lemma_message_starts_with_name<F: Fn(String, String) -> String>(
    apply: F,
    styled: bool,
    f: CacheDiffField,
    cur: Seq<String>,
    prev: Seq<String>,
    msg: String,
)
    requires
        message_matches(apply, styled, f, cur, prev, msg),
    ensures
        msg@.len() >= f.name@.len() + 2,
        msg@.take(f.name@.len() as int + 2) == f.name@ + " ("@,
{
    reveal_strlit(" (");
    match f.display_fn {
        DisplayFn::Custom(g) => {
            let (so, sn) = choose|so: String, sn: String|
                call_ensures(apply, (g, prev[f.index as int]), so) && call_ensures(
                    apply,
                    (g, cur[f.index as int]),
                    sn,
                ) && msg@ == diff_msg(f.name@, rendered(styled, so@), rendered(styled, sn@));
            assert(msg@.take(f.name@.len() as int + 2) =~= f.name@ + " ("@);
        },
        _ => {
            assert(msg@.take(f.name@.len() as int + 2) =~= f.name@ + " ("@);
        },
    }
}

/// Rename correctness: a planned field that was annotated `rename = X`
/// carries `X` verbatim as its display name, and when its values differ some
/// message starts with `X (` — never with the field's raw identifier.
pub proof fn lemma_rename_correctness<F: Fn(String, String) -> String>(
    apply: F,
    styled: bool,
    d: FieldDeclModel,
    nm: Seq<char>,
    fields: Seq<CacheDiffField>,
    k: int,
    cur: Seq<String>,
    prev: Seq<String>,
    msgs: Seq<String>,
)
    requires
        msgs_ok(apply, styled, fields, cur, prev, msgs),
        0 <= k < fields.len(),
        spec_annotation_of(d) matches Ok(a) && a.rename == Some(nm),
        spec_field_plan(d, fields[k]@.index) == Ok::<Option<FieldModel>, GenErrorModel>(
            Some(fields[k]@),
        ),
        field_differs(fields[k], cur, prev),
    ensures
        fields[k].name@ == nm,
        exists|j: int|
            0 <= j < msgs.len() && (#[trigger] msgs[j])@.len() >= nm.len() + 2 && msgs[j]@.take(
                nm.len() as int + 2,
            ) == nm + " ("@,
{
    assert(fields[k]@.name == nm);
    lemma_differing_field_has_message(apply, styled, fields, k, cur, prev, msgs);
    let j0 = choose|j: int|
        0 <= j < msgs.len() && message_matches(apply, styled, fields[k], cur, prev, msgs[j]);
    lemma_message_starts_with_name(apply, styled, fields[k], cur, prev, msgs[j0]);
}

/// Default name transform: a planned field without a `rename` is displayed
/// under its identifier with every underscore replaced by a space, and when
/// its values differ some message starts with that name and ` (`.
pub proof fn lemma_default_name_transform<F: Fn(String, String) -> String>(
    apply: F,
    styled: bool,
    d: FieldDeclModel,
    id: Seq<char>,
    fields: Seq<CacheDiffField>,
    k: int,
    cur: Seq<String>,
    prev: Seq<String>,
    msgs: Seq<String>,
)
    requires
        msgs_ok(apply, styled, fields, cur, prev, msgs),
        0 <= k < fields.len(),
        spec_annotation_of(d) matches Ok(a) && a.rename is None,
        d.ident == Some(id),
        spec_field_plan(d, fields[k]@.index) == Ok::<Option<FieldModel>, GenErrorModel>(
            Some(fields[k]@),
        ),
        field_differs(fields[k], cur, prev),
    ensures
        fields[k].name@ == default_name(id),
        exists|j: int|
            0 <= j < msgs.len() && (#[trigger] msgs[j])@.len() >= default_name(id).len() + 2
                && msgs[j]@.take(default_name(id).len() as int + 2) == default_name(id) + " ("@,
{
    assert(fields[k]@.name == default_name(id));
    lemma_differing_field_has_message(apply, styled, fields, k, cur, prev, msgs);
    let j0 = choose|j: int|
        0 <= j < msgs.len() && message_matches(apply, styled, fields[k], cur, prev, msgs[j]);
    lemma_message_starts_with_name(apply, styled, fields[k], cur, prev, msgs[j0]);
}

/// Custom display applied symmetrically: for a differing field annotated
/// `display = f`, some message holds the old and the new value each passed
/// through the applier with `f`'s reference and then formatted — the same
/// function on both sides.
pub proof fn lemma_custom_display_symmetric<F: Fn(String, String) -> String>(
    apply: F,
    styled: bool,
    fields: Seq<CacheDiffField>,
    k: int,
    g: String,
    cur: Seq<String>,
    prev: Seq<String>,
    msgs: Seq<String>,
)
    requires
        msgs_ok(apply, styled, fields, cur, prev, msgs),
        0 <= k < fields.len(),
        fields[k].display_fn == DisplayFn::Custom(g),
        field_differs(fields[k], cur, prev),
    ensures
        exists|j: int, so: String, sn: String|
            #![trigger msgs[j], call_ensures(apply, (g, prev[fields[k].index as int]), so), call_ensures(apply, (g, cur[fields[k].index as int]), sn)]
            0 <= j < msgs.len() && call_ensures(apply, (g, prev[fields[k].index as int]), so)
                && call_ensures(apply, (g, cur[fields[k].index as int]), sn) && msgs[j]@
                == diff_msg(fields[k].name@, rendered(styled, so@), rendered(styled, sn@)),
{
    lemma_differing_field_has_message(apply, styled, fields, k, cur, prev, msgs);
    let j0 = choose|j: int|
        0 <= j < msgs.len() && message_matches(apply, styled, fields[k], cur, prev, msgs[j]);
    let (so0, sn0) = choose|so: String, sn: String|
        call_ensures(apply, (g, prev[fields[k].index as int]), so) && call_ensures(
            apply,
            (g, cur[fields[k].index as int]),
            sn,
        ) && msgs[j0]@ == diff_msg(fields[k].name@, rendered(styled, so@), rendered(styled, sn@));
    assert(0 <= j0 < msgs.len() && call_ensures(apply, (g, prev[fields[k].index as int]), so0)
        && call_ensures(apply, (g, cur[fields[k].index as int]), sn0) && msgs[j0]@ == diff_msg(
        fields[k].name@,
        rendered(styled, so0@),
        rendered(styled, sn0@),
    ));
}

} // verus!
