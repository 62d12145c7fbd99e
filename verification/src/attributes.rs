//! Parsing of the per-field annotation block and its keys.
//!
//! An annotation block is a comma-separated list of entries, each `key` or
//! `key = value`:
//!
//! ```text
//! entries := entry (',' entry)* ','?          (or nothing at all)
//! entry   := 'rename' '=' string_literal
//!          | 'display' '=' function_reference
//!          | 'ignore'
//! ```
//!
//! A string literal is `"` followed by any characters up to the next `"`.  A
//! function reference is a path: identifiers joined by `::`.  Whitespace may
//! stand between any two tokens.  An unknown key, a bad value, or a value
//! given to `ignore` each fail with a dedicated error; when the same key
//! occurs twice, the later occurrence wins.
//!
//! The grammar is defined by the `spec` functions in this module; the
//! executable parser is proved to return exactly what they describe.

use vstd::prelude::*;
use vstd::string::StrSliceExecFns;
use crate::text::string_of_range;

verus! {

// --- character classes ---

pub open spec fn is_ws_char(c: char) -> bool {
    c == ' ' || c == '\t' || c == '\n' || c == '\r'
}

pub open spec fn is_ident_start_char(c: char) -> bool {
    c == '_' || (97 <= c as u32 && c as u32 <= 122) || (65 <= c as u32 && c as u32 <= 90)
}

pub open spec fn is_ident_char(c: char) -> bool {
    is_ident_start_char(c) || (48 <= c as u32 && c as u32 <= 57)
}

// --- leading-run counts over character sequences ---

/// Length of the leading run of whitespace.
pub open spec fn ws_count(s: Seq<char>) -> nat
    decreases s.len(),
{
    if s.len() > 0 && is_ws_char(s[0]) {
        (1 + ws_count(s.skip(1))) as nat
    } else {
        0
    }
}

/// Length of the leading run of identifier characters.
pub open spec fn ident_count(s: Seq<char>) -> nat
    decreases s.len(),
{
    if s.len() > 0 && is_ident_char(s[0]) {
        (1 + ident_count(s.skip(1))) as nat
    } else {
        0
    }
}

/// Length of a string literal's body: the characters before the closing quote.
pub open spec fn lit_count(s: Seq<char>) -> nat
    decreases s.len(),
{
    if s.len() > 0 && s[0] != '"' {
        (1 + lit_count(s.skip(1))) as nat
    } else {
        0
    }
}

/// Length of a leading path: identifiers joined by `::`.
pub open spec fn path_count(s: Seq<char>) -> nat
    decreases s.len(),
{
    let n = ident_count(s);
    if n == 0 {
        0
    } else if n + 2 <= s.len() && s[n as int] == ':' && s[(n + 1) as int] == ':'
        && ident_count(s.skip((n + 2) as int)) > 0 {
        ((n + 2) + path_count(s.skip((n + 2) as int))) as nat
    } else {
        n
    }
}

pub proof fn lemma_ws_count_le(s: Seq<char>)
    ensures
        ws_count(s) <= s.len(),
    decreases s.len(),
{
    if s.len() > 0 && is_ws_char(s[0]) {
        lemma_ws_count_le(s.skip(1));
    }
}

pub proof fn lemma_ident_count_le(s: Seq<char>)
    ensures
        ident_count(s) <= s.len(),
    decreases s.len(),
{
    if s.len() > 0 && is_ident_char(s[0]) {
        lemma_ident_count_le(s.skip(1));
    }
}

pub proof fn lemma_lit_count_le(s: Seq<char>)
    ensures
        lit_count(s) <= s.len(),
    decreases s.len(),
{
    if s.len() > 0 && s[0] != '"' {
        lemma_lit_count_le(s.skip(1));
    }
}

pub proof fn lemma_path_count_le(s: Seq<char>)
    ensures
        path_count(s) <= s.len(),
    decreases s.len(),
{
    lemma_ident_count_le(s);
    let n = ident_count(s);
    if n != 0 && n + 2 <= s.len() && s[n as int] == ':' && s[(n + 1) as int] == ':'
        && ident_count(s.skip((n + 2) as int)) > 0 {
        lemma_path_count_le(s.skip((n + 2) as int));
    }
}

/// `s` with its leading whitespace removed.
pub open spec fn skip_ws(s: Seq<char>) -> Seq<char> {
    s.skip(ws_count(s) as int)
}

// --- executable scanners ---

fn is_ws_exec(c: char) -> (r: bool)
    ensures
        r == is_ws_char(c),
{
    c == ' ' || c == '\t' || c == '\n' || c == '\r'
}

fn is_ident_start_exec(c: char) -> (r: bool)
    ensures
        r == is_ident_start_char(c),
{
    let u = c as u32;
    c == '_' || (97 <= u && u <= 122) || (65 <= u && u <= 90)
}

fn is_ident_exec(c: char) -> (r: bool)
    ensures
        r == is_ident_char(c),
{
    let u = c as u32;
    is_ident_start_exec(c) || (48 <= u && u <= 57)
}

/// Index just past the whitespace run that starts at `i`.
fn scan_ws(v: &Vec<char>, i: usize) -> (j: usize)
    requires
        i <= v@.len(),
    ensures
        i <= j <= v@.len(),
        j - i == ws_count(v@.skip(i as int)),
        v@.skip(j as int) =~= skip_ws(v@.skip(i as int)),
{
    let mut j = i;
    while j < v.len() && is_ws_exec(v[j])
        invariant
            i <= j <= v@.len(),
            ws_count(v@.skip(i as int)) == j - i + ws_count(v@.skip(j as int)),
        decreases v@.len() - j,
    {
        proof {
            assert(v@.skip(j as int).skip(1) =~= v@.skip(j + 1));
        }
        j += 1;
    }
    proof {
        assert(ws_count(v@.skip(j as int)) == 0);
        assert(v@.skip(i as int).skip((j - i) as int) =~= v@.skip(j as int));
    }
    j
}

/// Index just past the identifier-character run that starts at `i`.
fn scan_ident(v: &Vec<char>, i: usize) -> (j: usize)
    requires
        i <= v@.len(),
    ensures
        i <= j <= v@.len(),
        j - i == ident_count(v@.skip(i as int)),
{
    let mut j = i;
    while j < v.len() && is_ident_exec(v[j])
        invariant
            i <= j <= v@.len(),
            ident_count(v@.skip(i as int)) == j - i + ident_count(v@.skip(j as int)),
        decreases v@.len() - j,
    {
        proof {
            assert(v@.skip(j as int).skip(1) =~= v@.skip(j + 1));
        }
        j += 1;
    }
    proof {
        assert(ident_count(v@.skip(j as int)) == 0);
    }
    j
}

/// Index of the quote that closes a string literal's body starting at `i`,
/// or the end of the input if there is none.
fn scan_lit(v: &Vec<char>, i: usize) -> (j: usize)
    requires
        i <= v@.len(),
    ensures
        i <= j <= v@.len(),
        j - i == lit_count(v@.skip(i as int)),
{
    let mut j = i;
    while j < v.len() && v[j] != '"'
        invariant
            i <= j <= v@.len(),
            lit_count(v@.skip(i as int)) == j - i + lit_count(v@.skip(j as int)),
        decreases v@.len() - j,
    {
        proof {
            assert(v@.skip(j as int).skip(1) =~= v@.skip(j + 1));
        }
        j += 1;
    }
    proof {
        assert(lit_count(v@.skip(j as int)) == 0);
    }
    j
}

/// Index just past the path that starts at `i`.
fn scan_path(v: &Vec<char>, i: usize) -> (j: usize)
    requires
        i < v@.len(),
        is_ident_char(v@[i as int]),
    ensures
        i <= j <= v@.len(),
        j - i == path_count(v@.skip(i as int)),
{
    let mut j = i;
    loop
        invariant
            i <= j < v@.len(),
            is_ident_char(v@[j as int]),
            path_count(v@.skip(i as int)) == j - i + path_count(v@.skip(j as int)),
        decreases v@.len() - j,
    {
        let k = scan_ident(v, j);
        proof {
            assert(ident_count(v@.skip(j as int)) > 0);
            lemma_ident_count_le(v@.skip(j as int));
        }
        if v.len() - k > 2 && v[k] == ':' && v[k + 1] == ':' && is_ident_exec(v[k + 2]) {
            proof {
                let s = v@.skip(j as int);
                let n = ident_count(s) as int;
                assert(s[n] == ':' && s[n + 1] == ':');
                assert(s.skip(n + 2) =~= v@.skip(k + 2));
                assert(ident_count(v@.skip(k + 2)) > 0);
                assert(path_count(s) == (n + 2) + path_count(s.skip(n + 2)));
            }
            j = k + 2;
        } else {
            proof {
                let s = v@.skip(j as int);
                let n = ident_count(s) as int;
                if n + 2 <= s.len() && s[n] == ':' && s[(n + 1) as int] == ':'
                    && ident_count(s.skip(n + 2)) > 0 {
                    // contradicts the branch condition: the separator and a
                    // following identifier character are both present
                    assert(s.skip(n + 2) =~= v@.skip(k + 2));
                    assert(v@.skip(k + 2).len() > 0);
                    assert(is_ident_char(v@.skip(k + 2)[0]));
                    assert(k + 2 < v@.len());
                    assert(is_ident_char(v@[k + 2]));
                    assert(false);
                }
                assert(path_count(s) == n);
            }
            return k;
        }
    }
}

// --- the annotation model: what a block means ---

/// The meaning of an annotation block: one value per recognized key.
pub struct AnnotationModel {
    /// Display name override from `rename = "..."`.
    pub rename: Option<Seq<char>>,
    /// Display function reference from `display = path`.
    pub display: Option<Seq<char>>,
    /// Whether `ignore` is present.
    pub ignore: bool,
}

/// The meaning of an absent or empty annotation block.
pub open spec fn empty_annotation() -> AnnotationModel {
    AnnotationModel { rename: None, display: None, ignore: false }
}

/// How a parse of an annotation block fails.
pub enum ParseErrorModel {
    /// A key outside `rename`, `display`, `ignore`, carrying the key.
    UnknownKey(Seq<char>),
    /// `rename` or `display` (the carried key) with a missing or ill-formed value.
    MalformedValue(Seq<char>),
    /// A value given to a key that takes none, carrying the key.
    UnexpectedValue(Seq<char>),
    /// Input that does not follow the entry grammar at all.
    Syntax,
}

/// Parses one entry at the head of `s` (leading whitespace already removed):
/// the entry's meaning and the remaining input, or the error.
pub open spec fn spec_parse_entry(s: Seq<char>) -> Result<
    (AnnotationModel, Seq<char>),
    ParseErrorModel,
> {
    if s.len() == 0 || !is_ident_start_char(s[0]) {
        Err(ParseErrorModel::Syntax)
    } else {
        let n = ident_count(s) as int;
        let name = s.take(n);
        let r0 = skip_ws(s.skip(n));
        if name == "rename"@ {
            spec_parse_rename_value(r0)
        } else if name == "display"@ {
            spec_parse_display_value(r0)
        } else if name == "ignore"@ {
            if r0.len() > 0 && r0[0] == '=' {
                Err(ParseErrorModel::UnexpectedValue("ignore"@))
            } else {
                Ok((AnnotationModel { rename: None, display: None, ignore: true }, r0))
            }
        } else {
            Err(ParseErrorModel::UnknownKey(name))
        }
    }
}

/// Parses `= "<string literal>"` after the key `rename`.
pub open spec fn spec_parse_rename_value(r0: Seq<char>) -> Result<
    (AnnotationModel, Seq<char>),
    ParseErrorModel,
> {
    if r0.len() == 0 || r0[0] != '=' {
        Err(ParseErrorModel::MalformedValue("rename"@))
    } else {
        let v = skip_ws(r0.skip(1));
        if v.len() == 0 || v[0] != '"' {
            Err(ParseErrorModel::MalformedValue("rename"@))
        } else {
            let body = v.skip(1);
            let q = lit_count(body) as int;
            if q >= body.len() {
                Err(ParseErrorModel::MalformedValue("rename"@))
            } else {
                Ok(
                    (
                        AnnotationModel { rename: Some(body.take(q)), display: None, ignore: false },
                        body.skip(q + 1),
                    ),
                )
            }
        }
    }
}

/// Parses `= <function reference>` after the key `display`.
pub open spec fn spec_parse_display_value(r0: Seq<char>) -> Result<
    (AnnotationModel, Seq<char>),
    ParseErrorModel,
> {
    if r0.len() == 0 || r0[0] != '=' {
        Err(ParseErrorModel::MalformedValue("display"@))
    } else {
        let v = skip_ws(r0.skip(1));
        if v.len() == 0 || !is_ident_start_char(v[0]) {
            Err(ParseErrorModel::MalformedValue("display"@))
        } else {
            let p = path_count(v) as int;
            Ok(
                (
                    AnnotationModel { rename: None, display: Some(v.take(p)), ignore: false },
                    v.skip(p),
                ),
            )
        }
    }
}

/// A successfully parsed entry consumes at least one character.
pub proof fn lemma_parse_entry_rest(s: Seq<char>)
    ensures
        spec_parse_entry(s) matches Ok(er) ==> er.1.len() < s.len(),
{
    if s.len() > 0 && is_ident_start_char(s[0]) {
        let n = ident_count(s) as int;
        assert(n >= 1);
        lemma_ident_count_le(s);
        let r0 = skip_ws(s.skip(n));
        lemma_ws_count_le(s.skip(n));
        assert(r0.len() < s.len());
        if r0.len() > 0 && r0[0] == '=' {
            let v = skip_ws(r0.skip(1));
            lemma_ws_count_le(r0.skip(1));
            assert(v.len() < s.len());
            if v.len() > 0 {
                let body = v.skip(1);
                lemma_lit_count_le(body);
                lemma_path_count_le(v);
            }
        }
    }
}

/// Parses a whole annotation block into the sequence of its entries, in
/// order, or the first error.
pub open spec fn spec_parse_entries(s: Seq<char>) -> Result<Seq<AnnotationModel>, ParseErrorModel>
    decreases s.len(),
    via spec_parse_entries_decreases
{
    let t = skip_ws(s);
    if t.len() == 0 {
        Ok(Seq::empty())
    } else {
        match spec_parse_entry(t) {
            Err(e) => Err(e),
            Ok(er) => {
                let r = skip_ws(er.1);
                if r.len() == 0 {
                    Ok(seq![er.0])
                } else if r[0] == ',' {
                    match spec_parse_entries(r.skip(1)) {
                        Err(e) => Err(e),
                        Ok(tail) => Ok(seq![er.0] + tail),
                    }
                } else {
                    Err(ParseErrorModel::Syntax)
                }
            },
        }
    }
}

#[via_fn]
proof fn spec_parse_entries_decreases(s: Seq<char>) {
    lemma_ws_count_le(s);
    let t = skip_ws(s);
    if t.len() != 0 {
        lemma_parse_entry_rest(t);
        if let Ok(er) = spec_parse_entry(t) {
            lemma_ws_count_le(er.1);
        }
    }
}

// --- merging entries: the later occurrence of a key wins ---

/// Folds one entry into the configuration gathered so far: a key present in
/// the entry overwrites the gathered value; `ignore`, once seen, stays.
pub open spec fn combine(acc: AnnotationModel, e: AnnotationModel) -> AnnotationModel {
    AnnotationModel {
        rename: if e.rename is Some {
            e.rename
        } else {
            acc.rename
        },
        display: if e.display is Some {
            e.display
        } else {
            acc.display
        },
        ignore: acc.ignore || e.ignore,
    }
}

/// The configuration that a sequence of entries denotes: each entry applied
/// in order, so for a key given twice the later occurrence wins.
pub open spec fn merged(entries: Seq<AnnotationModel>) -> AnnotationModel
    decreases entries.len(),
{
    if entries.len() == 0 {
        empty_annotation()
    } else {
        combine(merged(entries.drop_last()), entries.last())
    }
}

/// The meaning of a whole annotation block: its entries, merged; or the error.
pub open spec fn spec_parse_all(s: Seq<char>) -> Result<AnnotationModel, ParseErrorModel> {
    match spec_parse_entries(s) {
        Ok(entries) => Ok(merged(entries)),
        Err(e) => Err(e),
    }
}

// --- executable configuration and errors ---

/// Holds the one or more attributes from an annotation block.
///
/// A block is parsed into this struct using [`CacheAttributes::parse_all`] and
/// that information is then used to build the diff comparison.
#[derive(Debug, PartialEq, Eq)]
pub struct CacheAttributes {
    /// When present, the given string should be used as a name instead of the
    /// field name.
    pub rename: Option<String>,
    /// When present, the path to a function that customizes how the field
    /// value is displayed.
    pub display: Option<String>,
    /// When `Some`, the field is left out of the diff comparison.
    pub ignore: Option<()>,
}

impl View for CacheAttributes {
    type V = AnnotationModel;

    open spec fn view(&self) -> AnnotationModel {
        AnnotationModel {
            rename: match self.rename {
                Option::Some(s) => Option::Some(s@),
                Option::None => Option::None,
            },
            display: match self.display {
                Option::Some(s) => Option::Some(s@),
                Option::None => Option::None,
            },
            ignore: self.ignore is Some,
        }
    }
}

impl Default for CacheAttributes {
    /// The configuration of a field with no annotation block at all.
    fn default() -> (r: Self)
        ensures
            r@ == empty_annotation(),
    {
        CacheAttributes { rename: None, display: None, ignore: None }
    }
}

/// An error from parsing one field's annotation block.
#[derive(Debug, PartialEq, Eq)]
pub enum ParseError {
    /// A key outside `rename`, `display`, `ignore`, carrying the key.
    UnknownKey(String),
    /// `rename` or `display` (the carried key) with a missing or ill-formed value.
    MalformedValue(String),
    /// A value given to a key that takes none, carrying the key.
    UnexpectedValue(String),
    /// Input that does not follow the entry grammar at all.
    Syntax,
}

impl View for ParseError {
    type V = ParseErrorModel;

    open spec fn view(&self) -> ParseErrorModel {
        match self {
            ParseError::UnknownKey(k) => ParseErrorModel::UnknownKey(k@),
            ParseError::MalformedValue(k) => ParseErrorModel::MalformedValue(k@),
            ParseError::UnexpectedValue(k) => ParseErrorModel::UnexpectedValue(k@),
            ParseError::Syntax => ParseErrorModel::Syntax,
        }
    }
}

/// The diagnostic text for each parse error.  The message for an unknown key
/// enumerates every valid key, so users can self-correct.
pub open spec fn spec_message(e: ParseErrorModel) -> Seq<char> {
    match e {
        ParseErrorModel::UnknownKey(k) => "Unknown cache_diff attribute: `"@ + k
            + "`. Must be one of `rename`, `display`, `ignore`"@,
        ParseErrorModel::MalformedValue(k) => "Malformed value for cache_diff attribute `"@ + k
            + "`"@,
        ParseErrorModel::UnexpectedValue(k) => "cache_diff attribute `"@ + k
            + "` does not take a value"@,
        ParseErrorModel::Syntax => "Malformed cache_diff attribute"@,
    }
}

impl ParseError {
    /// Renders this error as a human-readable diagnostic.
    pub fn message(&self) -> (r: String)
        ensures
            r@ == spec_message(self@),
    {
        match self {
            ParseError::UnknownKey(k) => {
                let mut s = "Unknown cache_diff attribute: `".to_owned();
                s.append(k.as_str());
                s.append("`. Must be one of `rename`, `display`, `ignore`");
                proof {
                    assert(s@ =~= spec_message(self@));
                }
                s
            },
            ParseError::MalformedValue(k) => {
                let mut s = "Malformed value for cache_diff attribute `".to_owned();
                s.append(k.as_str());
                s.append("`");
                proof {
                    assert(s@ =~= spec_message(self@));
                }
                s
            },
            ParseError::UnexpectedValue(k) => {
                let mut s = "cache_diff attribute `".to_owned();
                s.append(k.as_str());
                s.append("` does not take a value");
                proof {
                    assert(s@ =~= spec_message(self@));
                }
                s
            },
            ParseError::Syntax => "Malformed cache_diff attribute".to_owned(),
        }
    }
}

// --- the executable parser ---

/// Whether `v[a .. b]` is exactly the text of `lit`.
fn range_eq_lit(v: &Vec<char>, a: usize, b: usize, lit: &str) -> (r: bool)
    requires
        a <= b <= v@.len(),
    ensures
        r == (v@.subrange(a as int, b as int) == lit@),
{
    let n = lit.unicode_len();
    if b - a != n {
        proof {
            assert(v@.subrange(a as int, b as int).len() != lit@.len());
        }
        return false;
    }
    let mut k: usize = 0;
    while k < n
        invariant
            b - a == n,
            n == lit@.len(),
            a <= b <= v@.len(),
            k <= n,
            forall|m: int| 0 <= m < k ==> v@.subrange(a as int, b as int)[m] == lit@[m],
        decreases n - k,
    {
        if v[a + k] != lit.get_char(k) {
            proof {
                assert(v@.subrange(a as int, b as int)[k as int] != lit@[k as int]);
            }
            return false;
        }
        k += 1;
    }
    proof {
        assert(v@.subrange(a as int, b as int) =~= lit@);
    }
    true
}

impl CacheAttributes {
    /// Parses a single entry of an annotation block, starting at index `i` of
    /// `v`; returns the entry's configuration and the index just past it.
    fn parse(v: &Vec<char>, i: usize) -> (r: Result<(CacheAttributes, usize), ParseError>)
        requires
            i <= v@.len(),
        ensures
            ({
                let sp = spec_parse_entry(v@.skip(i as int));
                match r {
                    Ok(p) => sp matches Ok(er) && p.0@ == er.0 && i < p.1 <= v@.len()
                        && v@.skip(p.1 as int) == er.1,
                    Err(e) => sp matches Err(se) && e@ == se,
                }
            }),
    {
        let ghost s = v@.skip(i as int);
        if i == v.len() || !is_ident_start_exec(v[i]) {
            return Err(ParseError::Syntax);
        }
        let k = scan_ident(v, i);
        proof {
            assert(ident_count(s) >= 1);
            assert(s.take(ident_count(s) as int) =~= v@.subrange(i as int, k as int));
        }
        let j = scan_ws(v, k);
        proof {
            assert(s.skip(ident_count(s) as int) =~= v@.skip(k as int));
            assert(v@.skip(j as int) =~= skip_ws(s.skip(ident_count(s) as int)));
        }
        if range_eq_lit(v, i, k, "rename") {
            Self::parse_rename_value(v, j)
        } else if range_eq_lit(v, i, k, "display") {
            Self::parse_display_value(v, j)
        } else if range_eq_lit(v, i, k, "ignore") {
            if j < v.len() && v[j] == '=' {
                Err(ParseError::UnexpectedValue("ignore".to_owned()))
            } else {
                Ok((CacheAttributes { rename: None, display: None, ignore: Some(()) }, j))
            }
        } else {
            Err(ParseError::UnknownKey(string_of_range(v, i, k)))
        }
    }

    /// Parses `= "<string literal>"` after the key `rename`, starting at `j`.
    fn parse_rename_value(v: &Vec<char>, j: usize) -> (r: Result<(CacheAttributes, usize), ParseError>)
        requires
            j <= v@.len(),
        ensures
            ({
                let sp = spec_parse_rename_value(v@.skip(j as int));
                match r {
                    Ok(p) => sp matches Ok(er) && p.0@ == er.0 && j < p.1 <= v@.len()
                        && v@.skip(p.1 as int) == er.1,
                    Err(e) => sp matches Err(se) && e@ == se,
                }
            }),
    {
        if j == v.len() || v[j] != '=' {
            return Err(ParseError::MalformedValue("rename".to_owned()));
        }
        let j2 = scan_ws(v, j + 1);
        proof {
            assert(v@.skip(j as int).skip(1) =~= v@.skip(j + 1));
            assert(v@.skip(j2 as int) =~= skip_ws(v@.skip(j as int).skip(1)));
        }
        if j2 == v.len() || v[j2] != '"' {
            return Err(ParseError::MalformedValue("rename".to_owned()));
        }
        let ghost body = skip_ws(v@.skip(j as int).skip(1)).skip(1);
        proof {
            assert(body =~= v@.skip(j2 + 1));
        }
        let q = scan_lit(v, j2 + 1);
        if q == v.len() {
            proof {
                assert(lit_count(body) >= body.len());
            }
            return Err(ParseError::MalformedValue("rename".to_owned()));
        }
        let value = string_of_range(v, j2 + 1, q);
        proof {
            assert(value@ =~= body.take(lit_count(body) as int));
            assert(v@.skip(q + 1) =~= body.skip(lit_count(body) as int + 1));
        }
        Ok((CacheAttributes { rename: Some(value), display: None, ignore: None }, q + 1))
    }

    /// Parses `= <function reference>` after the key `display`, starting at `j`.
    fn parse_display_value(v: &Vec<char>, j: usize) -> (r: Result<(CacheAttributes, usize), ParseError>)
        requires
            j <= v@.len(),
        ensures
            ({
                let sp = spec_parse_display_value(v@.skip(j as int));
                match r {
                    Ok(p) => sp matches Ok(er) && p.0@ == er.0 && j < p.1 <= v@.len()
                        && v@.skip(p.1 as int) == er.1,
                    Err(e) => sp matches Err(se) && e@ == se,
                }
            }),
    {
        if j == v.len() || v[j] != '=' {
            return Err(ParseError::MalformedValue("display".to_owned()));
        }
        let j2 = scan_ws(v, j + 1);
        proof {
            assert(v@.skip(j as int).skip(1) =~= v@.skip(j + 1));
            assert(v@.skip(j2 as int) =~= skip_ws(v@.skip(j as int).skip(1)));
        }
        if j2 == v.len() || !is_ident_start_exec(v[j2]) {
            return Err(ParseError::MalformedValue("display".to_owned()));
        }
        let p = scan_path(v, j2);
        proof {
            assert(path_count(v@.skip(j2 as int)) >= ident_count(v@.skip(j2 as int)));
            assert(ident_count(v@.skip(j2 as int)) >= 1);
        }
        let value = string_of_range(v, j2, p);
        proof {
            let vv = v@.skip(j2 as int);
            assert(value@ =~= vv.take(path_count(vv) as int));
            assert(v@.skip(p as int) =~= vv.skip(path_count(vv) as int));
        }
        Ok((CacheAttributes { rename: None, display: Some(value), ignore: None }, p))
    }

    /// Parses a whole annotation block and returns the merged configuration:
    /// when the block names the same key twice, the later occurrence wins.
    ///
    /// An empty (or all-whitespace) block yields the default configuration,
    /// as does a field with no block at all.
    pub fn parse_all(input: &str) -> (r: Result<CacheAttributes, ParseError>)
        ensures
            ({
                let sp = spec_parse_all(input@);
                match r {
                    Ok(a) => sp matches Ok(m) && a@ == m,
                    Err(e) => sp matches Err(se) && e@ == se,
                }
            }),
    {
        let v = crate::text::chars_of(input);
        let mut acc = CacheAttributes::default();
        let ghost mut done: Seq<AnnotationModel> = Seq::empty();
        let mut i: usize = 0;
        proof {
            assert(v@.skip(0) =~= input@);
            assert(done + Seq::<AnnotationModel>::empty() =~= done);
        }
        loop
            invariant
                i <= v@.len(),
                v@ == input@,
                acc@ == merged(done),
                spec_parse_entries(input@) == entries_with_prefix(
                    done,
                    spec_parse_entries(v@.skip(i as int)),
                ),
            decreases v@.len() - i,
        {
            let t = scan_ws(&v, i);
            if t == v.len() {
                proof {
                    assert(skip_ws(v@.skip(i as int)).len() == 0);
                    assert(spec_parse_entries(v@.skip(i as int)) == Ok::<
                        Seq<AnnotationModel>,
                        ParseErrorModel,
                    >(Seq::empty()));
                    assert(done + Seq::<AnnotationModel>::empty() =~= done);
                }
                return Ok(acc);
            }
            proof {
                assert(v@.skip(t as int) =~= skip_ws(v@.skip(i as int)));
            }
            match CacheAttributes::parse(&v, t) {
                Err(e) => {
                    return Err(e);
                },
                Ok((attr, next)) => {
                    let ghost e = attr@;
                    let ghost prev_done = done;
                    acc = combine_attrs(acc, attr);
                    proof {
                        done = done.push(e);
                        assert(done.drop_last() =~= prev_done);
                        assert(done.last() == e);
                    }
                    let after = scan_ws(&v, next);
                    proof {
                        assert(v@.skip(after as int) =~= skip_ws(v@.skip(next as int)));
                    }
                    if after == v.len() {
                        proof {
                            assert(spec_parse_entries(v@.skip(i as int)) == Ok::<
                                Seq<AnnotationModel>,
                                ParseErrorModel,
                            >(seq![e]));
                            assert(prev_done + seq![e] =~= done);
                        }
                        return Ok(acc);
                    }
                    if v[after] == ',' {
                        proof {
                            assert(v@.skip(after as int).skip(1) =~= v@.skip(after + 1));
                            assert(spec_parse_entries(v@.skip(i as int)) == entries_with_prefix(
                                seq![e],
                                spec_parse_entries(v@.skip(after + 1)),
                            ));
                            assert forall|tail: Seq<AnnotationModel>|
                                prev_done + (seq![e] + tail) =~= done + tail by {
                            }
                        }
                        i = after + 1;
                    } else {
                        return Err(ParseError::Syntax);
                    }
                },
            }
        }
    }
}

/// Prepends already-parsed entries to the result for the rest of the input.
spec fn entries_with_prefix(
    pre: Seq<AnnotationModel>,
    r: Result<Seq<AnnotationModel>, ParseErrorModel>,
) -> Result<Seq<AnnotationModel>, ParseErrorModel> {
    match r {
        Ok(tail) => Ok(pre + tail),
        Err(e) => Err(e),
    }
}

/// Folds one entry's configuration into the configuration gathered so far.
fn combine_attrs(acc: CacheAttributes, e: CacheAttributes) -> (r: CacheAttributes)
    ensures
        r@ == combine(acc@, e@),
{
    CacheAttributes {
        rename: match e.rename {
            Some(x) => Some(x),
            None => acc.rename,
        },
        display: match e.display {
            Some(x) => Some(x),
            None => acc.display,
        },
        ignore: match e.ignore {
            Some(x) => Some(x),
            None => acc.ignore,
        },
    }
}

} // verus!
