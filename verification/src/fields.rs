//! Building the per-field comparison plan for a record type.
//!
//! A record type is described as an ordered list of [`FieldDecl`]s.  For each
//! field, the annotation block is parsed, and a [`CacheDiffField`] is derived:
//! the final display name (the `rename` value, or the field name with
//! underscores replaced by spaces), the display strategy (an explicit
//! `display` function, the built-in path formatter for a `PathBuf` field, or
//! the identity), and whether the field is skipped.  The ordered plan of one
//! record is a [`RecordPlan`].

use vstd::prelude::*;
use vstd::string::StrSliceExecFns;
use crate::attributes::{
    AnnotationModel, CacheAttributes, ParseError, ParseErrorModel, empty_annotation,
    spec_parse_all,
};
use crate::text::{chars_of, push_char, string_of_range};

verus! {

// --- the declaration of one field, as handed in by the record's owner ---

/// One field of a record type, in declaration order: its name (`None` for a
/// positional field), the path text of its declared type, and the raw text of
/// its annotation block (`None` when the field carries none).
#[derive(Debug)]
pub struct FieldDecl {
    /// The field's identifier; `None` for a positional (unnamed) field.
    pub ident: Option<String>,
    /// The field's declared type, as path text such as `std::path::PathBuf`.
    pub type_path: String,
    /// The raw text inside the field's annotation block, if any.
    pub annotation: Option<String>,
}

/// The meaning of a [`FieldDecl`].
pub struct FieldDeclModel {
    pub ident: Option<Seq<char>>,
    pub type_path: Seq<char>,
    pub annotation: Option<Seq<char>>,
}

impl View for FieldDecl {
    type V = FieldDeclModel;

    open spec fn view(&self) -> FieldDeclModel {
        FieldDeclModel {
            ident: match self.ident {
                Option::Some(s) => Option::Some(s@),
                Option::None => Option::None,
            },
            type_path: self.type_path@,
            annotation: match self.annotation {
                Option::Some(s) => Option::Some(s@),
                Option::None => Option::None,
            },
        }
    }
}

// --- display strategy ---

/// How a field's value is rendered as text before formatting: an explicit
/// override, the built-in path formatter, or the identity.  Resolved once at
/// plan-build time; never both the path formatter and the identity.
#[derive(Debug, PartialEq, Eq)]
pub enum DisplayFn {
    /// Use the value as-is (it is already displayable text).
    Identity,
    /// Render the value as a filesystem path's text.
    PathDisplay,
    /// Pass the value through the referenced custom function.
    Custom(String),
}

/// The meaning of a [`DisplayFn`].
pub enum DisplayFnModel {
    Identity,
    PathDisplay,
    Custom(Seq<char>),
}

impl View for DisplayFn {
    type V = DisplayFnModel;

    open spec fn view(&self) -> DisplayFnModel {
        match self {
            DisplayFn::Identity => DisplayFnModel::Identity,
            DisplayFn::PathDisplay => DisplayFnModel::PathDisplay,
            DisplayFn::Custom(p) => DisplayFnModel::Custom(p@),
        }
    }
}

// --- the plan for one field ---

/// Finalized state needed to construct a comparison for one field that may
/// have annotations applied, such as:
///
/// ```text
/// (rename = "Ruby version")
/// version: String
/// ```
#[derive(Debug, PartialEq, Eq)]
pub struct CacheDiffField {
    /// Position of the field in the record's declaration order; the generated
    /// routine reads the field's value at this position.
    pub index: usize,
    /// The field's identifier.
    pub field_ident: String,
    /// The display name used in the field's messages.
    pub name: String,
    /// How the field's value is rendered before formatting.
    pub display_fn: DisplayFn,
}

/// The meaning of a [`CacheDiffField`].
pub struct FieldModel {
    pub index: int,
    pub field_ident: Seq<char>,
    pub name: Seq<char>,
    pub display_fn: DisplayFnModel,
}

impl View for CacheDiffField {
    type V = FieldModel;

    open spec fn view(&self) -> FieldModel {
        FieldModel {
            index: self.index as int,
            field_ident: self.field_ident@,
            name: self.name@,
            display_fn: self.display_fn@,
        }
    }
}

// --- errors at generation time ---

/// An error from building a record's plan.
#[derive(Debug, PartialEq, Eq)]
pub enum GenError {
    /// A field's annotation block failed to parse.
    Parse(ParseError),
    /// The record contains a positional (unnamed) field.
    UnsupportedShape,
}

/// The meaning of a [`GenError`].
pub enum GenErrorModel {
    Parse(ParseErrorModel),
    UnsupportedShape,
}

impl View for GenError {
    type V = GenErrorModel;

    open spec fn view(&self) -> GenErrorModel {
        match self {
            GenError::Parse(e) => GenErrorModel::Parse(e@),
            GenError::UnsupportedShape => GenErrorModel::UnsupportedShape,
        }
    }
}

impl GenError {
    /// Renders this error as a human-readable diagnostic.
    pub fn message(&self) -> (r: String)
        ensures
            r@ == spec_gen_message(self@),
    {
        match self {
            GenError::Parse(e) => e.message(),
            GenError::UnsupportedShape => "positional fields not supported".to_owned(),
        }
    }
}

/// The diagnostic text for each generation error.
pub open spec fn spec_gen_message(e: GenErrorModel) -> Seq<char> {
    match e {
        GenErrorModel::Parse(p) => crate::attributes::spec_message(p),
        GenErrorModel::UnsupportedShape => "positional fields not supported"@,
    }
}

// --- the default display name: underscores become spaces ---

/// The default display name of a field: its identifier with every underscore
/// replaced by a single space.
pub open spec fn default_name(ident: Seq<char>) -> Seq<char> {
    Seq::new(
        ident.len(),
        |i: int|
            if ident[i] == '_' {
                ' '
            } else {
                ident[i]
            },
    )
}

/// Replaces every underscore of `ident` with a space.
pub fn default_name_exec(ident: &str) -> (r: String)
    ensures
        r@ == default_name(ident@),
{
    let v = chars_of(ident);
    let mut r = String::new();
    let mut i: usize = 0;
    while i < v.len()
        invariant
            v@ == ident@,
            i <= v@.len(),
            r@ =~= default_name(ident@).take(i as int),
        decreases v@.len() - i,
    {
        let c = v[i];
        if c == '_' {
            push_char(&mut r, ' ');
        } else {
            push_char(&mut r, c);
        }
        proof {
            assert(r@ =~= default_name(ident@).take(i + 1));
        }
        i += 1;
    }
    proof {
        assert(default_name(ident@).take(v@.len() as int) =~= default_name(ident@));
    }
    r
}

// --- recognizing the owned filesystem-path type ---

/// The last `::`-separated segment of a type's path text: the characters
/// after the final colon, or the whole text when it has no colon.
pub open spec fn last_segment(t: Seq<char>) -> Seq<char>
    decreases t.len(),
{
    if t.len() == 0 {
        t
    } else if t.last() == ':' {
        Seq::empty()
    } else {
        last_segment(t.drop_last()).push(t.last())
    }
}

/// Whether a declared type is the well-known owned filesystem-path type, with
/// no generic parameters: its path text's last segment is exactly `PathBuf`.
pub open spec fn spec_is_pathbuf(t: Seq<char>) -> bool {
    last_segment(t) == "PathBuf"@
}

proof fn lemma_last_segment_skip(t: Seq<char>, k: int)
    requires
        0 <= k <= t.len(),
        k == 0 || t[k - 1] == ':',
        forall|j: int| k <= j < t.len() ==> t[j] != ':',
    ensures
        last_segment(t) =~= t.skip(k),
    decreases t.len(),
{
    if t.len() == 0 {
    } else if t.last() == ':' {
        assert(k == t.len());
    } else {
        assert(k <= t.len() - 1);
        lemma_last_segment_skip(t.drop_last(), k);
        assert(t.drop_last().skip(k).push(t.last()) =~= t.skip(k));
    }
}

/// Whether the declared type named by `type_path` is the owned
/// filesystem-path type.
pub fn is_pathbuf(type_path: &str) -> (r: bool)
    ensures
        r == spec_is_pathbuf(type_path@),
{
    let v = chars_of(type_path);
    let mut k = v.len();
    while k > 0 && v[k - 1] != ':'
        invariant
            k <= v@.len(),
            v@ == type_path@,
            forall|j: int| k <= j < v@.len() ==> v@[j] != ':',
        decreases k,
    {
        k -= 1;
    }
    proof {
        lemma_last_segment_skip(type_path@, k as int);
    }
    let r = range_eq_pathbuf(&v, k);
    r
}

/// Whether `v[k ..]` is exactly `PathBuf`.
fn range_eq_pathbuf(v: &Vec<char>, k: usize) -> (r: bool)
    requires
        k <= v@.len(),
    ensures
        r == (v@.skip(k as int) == "PathBuf"@),
{
    proof {
        reveal_strlit("PathBuf");
    }
    let n = v.len() - k;
    if n != 7 {
        proof {
            assert(v@.skip(k as int).len() != "PathBuf"@.len());
        }
        return false;
    }
    let mut m: usize = 0;
    while m < 7
        invariant
            k + 7 == v@.len(),
            v@.len() <= usize::MAX,
            m <= 7,
            forall|j: int| 0 <= j < m ==> v@.skip(k as int)[j] == "PathBuf"@[j],
        decreases 7 - m,
    {
        proof {
            reveal_strlit("PathBuf");
            assert(k + m < v@.len());
        }
        if v[k + m] != "PathBuf".get_char(m) {
            proof {
                assert(v@.skip(k as int)[m as int] != "PathBuf"@[m as int]);
            }
            return false;
        }
        m += 1;
    }
    proof {
        assert(v@.skip(k as int) =~= "PathBuf"@);
    }
    true
}

// --- the meaning of plan building ---

/// The configuration of one field: its annotation block parsed and merged,
/// or the default configuration when it carries no block.
pub open spec fn spec_annotation_of(d: FieldDeclModel) -> Result<AnnotationModel, ParseErrorModel> {
    match d.annotation {
        Option::None => Ok(empty_annotation()),
        Option::Some(text) => spec_parse_all(text),
    }
}

/// The plan derived for one field at position `index` from its declaration
/// and resolved configuration `a`:
/// - an ignored field is dropped (`None`), whatever else it carries;
/// - a positional field is rejected;
/// - the display name is the `rename` value taken verbatim, or else the
///   field name with underscores replaced by spaces;
/// - the display function is the `display` override taken as-is, or else the
///   path formatter exactly for the owned filesystem-path type, or else the
///   identity.
pub open spec fn spec_field_plan_resolved(d: FieldDeclModel, a: AnnotationModel, index: int) -> Result<
    Option<FieldModel>,
    GenErrorModel,
> {
    if a.ignore {
        Ok(None)
    } else {
        match d.ident {
            Option::None => Err(GenErrorModel::UnsupportedShape),
            Option::Some(id) => Ok(
                Some(
                    FieldModel {
                        index,
                        field_ident: id,
                        name: match a.rename {
                            Option::Some(n) => n,
                            Option::None => default_name(id),
                        },
                        display_fn: match a.display {
                            Option::Some(p) => DisplayFnModel::Custom(p),
                            Option::None => if spec_is_pathbuf(d.type_path) {
                                DisplayFnModel::PathDisplay
                            } else {
                                DisplayFnModel::Identity
                            },
                        },
                    },
                ),
            ),
        }
    }
}

/// The plan derived for one field at position `index`, from its declaration
/// alone.
pub open spec fn spec_field_plan(d: FieldDeclModel, index: int) -> Result<
    Option<FieldModel>,
    GenErrorModel,
> {
    match spec_annotation_of(d) {
        Err(e) => Err(GenErrorModel::Parse(e)),
        Ok(a) => spec_field_plan_resolved(d, a, index),
    }
}

/// The plans of all non-ignored fields, in declaration order, or the first
/// field's error.
pub open spec fn spec_plan_fields(decls: Seq<FieldDeclModel>) -> Result<Seq<FieldModel>, GenErrorModel>
    decreases decls.len(),
{
    if decls.len() == 0 {
        Ok(Seq::empty())
    } else {
        match spec_plan_fields(decls.drop_last()) {
            Err(e) => Err(e),
            Ok(fs) => match spec_field_plan(decls.last(), decls.len() - 1) {
                Err(e) => Err(e),
                Ok(Option::None) => Ok(fs),
                Ok(Option::Some(f)) => Ok(fs.push(f)),
            },
        }
    }
}

/// Whether every declared field is named.
pub open spec fn all_named(decls: Seq<FieldDeclModel>) -> bool {
    forall|k: int| 0 <= k < decls.len() ==> (#[trigger] decls[k]).ident is Some
}

/// The full meaning of plan generation: a record with any positional field
/// is rejected before any field plan is built; otherwise the ordered plans
/// of its non-ignored fields.
pub open spec fn spec_create_cache_diff(decls: Seq<FieldDeclModel>) -> Result<
    Seq<FieldModel>,
    GenErrorModel,
> {
    if !all_named(decls) {
        Err(GenErrorModel::UnsupportedShape)
    } else {
        spec_plan_fields(decls)
    }
}

/// The meanings of a sequence of field declarations.
pub open spec fn decls_view(decls: Seq<FieldDecl>) -> Seq<FieldDeclModel> {
    Seq::new(decls.len(), |k: int| decls[k]@)
}

/// The meanings of a sequence of field plans.
pub open spec fn fields_view(fs: Seq<CacheDiffField>) -> Seq<FieldModel> {
    Seq::new(fs.len(), |k: int| fs[k]@)
}

/// A prefix that already failed decides the whole record's result.
proof fn lemma_plan_fields_err_propagates(decls: Seq<FieldDeclModel>, m: int)
    requires
        0 <= m <= decls.len(),
        spec_plan_fields(decls.take(m)) is Err,
    ensures
        spec_plan_fields(decls) == spec_plan_fields(decls.take(m)),
    decreases decls.len() - m,
{
    if m < decls.len() {
        assert(decls.take(m + 1).drop_last() =~= decls.take(m));
        assert(spec_plan_fields(decls.take(m + 1)) == spec_plan_fields(decls.take(m)));
        lemma_plan_fields_err_propagates(decls, m + 1);
    } else {
        assert(decls.take(m) =~= decls);
    }
}

impl CacheDiffField {
    /// Derives the plan for one field at position `index` from its
    /// declaration and its resolved annotation configuration; `Ok(None)`
    /// means the field is ignored.
    pub fn new(field: &FieldDecl, attributes: CacheAttributes, index: usize) -> (r: Result<
        Option<CacheDiffField>,
        GenError,
    >)
        ensures
            ({
                let sp = spec_field_plan_resolved(field@, attributes@, index as int);
                match r {
                    Ok(Some(f)) => sp == Ok::<Option<FieldModel>, GenErrorModel>(Some(f@)),
                    Ok(None) => sp == Ok::<Option<FieldModel>, GenErrorModel>(None),
                    Err(e) => sp == Err::<Option<FieldModel>, GenErrorModel>(e@),
                }
            }),
    {
        if attributes.ignore.is_some() {
            Ok(None)
        } else {
            match &field.ident {
                None => Err(GenError::UnsupportedShape),
                Some(id) => {
                    let name = match attributes.rename {
                        Some(n) => n,
                        None => default_name_exec(id.as_str()),
                    };
                    let display_fn = match attributes.display {
                        Some(p) => DisplayFn::Custom(p),
                        None => if is_pathbuf(field.type_path.as_str()) {
                            DisplayFn::PathDisplay
                        } else {
                            DisplayFn::Identity
                        },
                    };
                    Ok(Some(CacheDiffField { index, field_ident: id.clone(), name, display_fn }))
                },
            }
        }
    }
}

// --- the plan of a whole record ---

/// The ordered comparison plan of one record type: a plan for every
/// non-ignored field, in declaration order, and the number of declared
/// fields (instances hand the routine one value per declared field).
#[derive(Debug)]
pub struct RecordPlan {
    /// The planned fields, in declaration order.
    pub fields: Vec<CacheDiffField>,
    /// The number of fields the record declares, planned or not.
    pub field_count: usize,
}

impl RecordPlan {
    /// Every planned field reads a position inside the record, and the
    /// positions strictly increase: messages come in declaration order.
    pub open spec fn wf(self) -> bool {
        &&& forall|k: int|
            0 <= k < self.fields@.len() ==> (#[trigger] self.fields@[k]).index < self.field_count
        &&& forall|k1: int, k2: int|
            #![trigger self.fields@[k1], self.fields@[k2]]
            0 <= k1 < k2 < self.fields@.len() ==> self.fields@[k1].index < self.fields@[k2].index
    }
}

/// Builds the comparison plan for a record type from its ordered field
/// declarations.
///
/// Fails with `UnsupportedShape` when the record has any positional field,
/// and with `Parse` when a field's annotation block is ill-formed; the
/// earliest field's error wins.  Otherwise the plan holds exactly the
/// non-ignored fields, in declaration order.
pub fn create_cache_diff(decls: &Vec<FieldDecl>) -> (r: Result<RecordPlan, GenError>)
    ensures
        ({
            let sp = spec_create_cache_diff(decls_view(decls@));
            match r {
                Ok(plan) => sp matches Ok(fs) && fields_view(plan.fields@) == fs
                    && plan.field_count == decls@.len() && plan.wf(),
                Err(e) => sp matches Err(se) && e@ == se,
            }
        }),
{
    let ghost dm = decls_view(decls@);
    // a record with any positional field is rejected before any plan is built
    let mut k: usize = 0;
    while k < decls.len()
        invariant
            k <= decls@.len(),
            dm == decls_view(decls@),
            forall|j: int| 0 <= j < k ==> (#[trigger] dm[j]).ident is Some,
        decreases decls@.len() - k,
    {
        if decls[k].ident.is_none() {
            proof {
                assert(dm[k as int].ident is None);
            }
            return Err(GenError::UnsupportedShape);
        }
        k += 1;
    }
    proof {
        assert(all_named(dm));
    }
    let mut fields: Vec<CacheDiffField> = Vec::new();
    let mut i: usize = 0;
    proof {
        assert(dm.take(0) =~= Seq::<FieldDeclModel>::empty());
        assert(fields_view(fields@) =~= Seq::<FieldModel>::empty());
    }
    while i < decls.len()
        invariant
            i <= decls@.len(),
            dm == decls_view(decls@),
            all_named(dm),
            spec_plan_fields(dm.take(i as int)) == Ok::<Seq<FieldModel>, GenErrorModel>(
                fields_view(fields@),
            ),
            forall|j: int| 0 <= j < fields@.len() ==> (#[trigger] fields@[j]).index < i,
            forall|j1: int, j2: int|
                #![trigger fields@[j1], fields@[j2]]
                0 <= j1 < j2 < fields@.len() ==> fields@[j1].index < fields@[j2].index,
        decreases decls@.len() - i,
    {
        let d = &decls[i];
        proof {
            assert(dm.take(i + 1).drop_last() =~= dm.take(i as int));
            assert(spec_plan_fields(dm.take(i + 1).drop_last()) == spec_plan_fields(
                dm.take(i as int),
            ));
            assert(dm.take(i + 1).last() == d@);
        }
        let attrs = match &d.annotation {
            None => CacheAttributes::default(),
            Some(text) => match CacheAttributes::parse_all(text.as_str()) {
                Ok(a) => a,
                Err(e) => {
                    proof {
                        assert(spec_field_plan(d@, i as int) == Err::<
                            Option<FieldModel>,
                            GenErrorModel,
                        >(GenErrorModel::Parse(e@)));
                        assert(spec_plan_fields(dm.take(i + 1)) is Err);
                        lemma_plan_fields_err_propagates(dm, i + 1);
                    }
                    return Err(GenError::Parse(e));
                },
            },
        };
        proof {
            assert(spec_annotation_of(d@) == Ok::<AnnotationModel, ParseErrorModel>(attrs@));
        }
        match CacheDiffField::new(d, attrs, i) {
            Err(e) => {
                proof {
                    assert(spec_plan_fields(dm.take(i + 1)) is Err);
                    lemma_plan_fields_err_propagates(dm, i + 1);
                }
                return Err(e);
            },
            Ok(None) => {
                proof {
                    assert(spec_plan_fields(dm.take(i + 1)) == Ok::<Seq<FieldModel>, GenErrorModel>(
                        fields_view(fields@),
                    ));
                }
            },
            Ok(Some(f)) => {
                proof {
                    assert(fields_view(fields@.push(f)) =~= fields_view(fields@).push(f@));
                    assert(spec_plan_fields(dm.take(i + 1)) == Ok::<Seq<FieldModel>, GenErrorModel>(
                        fields_view(fields@).push(f@),
                    ));
                }
                fields.push(f);
            },
        }
        i += 1;
    }
    proof {
        assert(dm.take(decls@.len() as int) =~= dm);
        assert(spec_plan_fields(dm) == Ok::<Seq<FieldModel>, GenErrorModel>(fields_view(fields@)));
    }
    Ok(RecordPlan { fields, field_count: decls.len() })
}

} // verus!
