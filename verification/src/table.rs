//! Table-document mode: a key/value table document parsed into the shared
//! model. Top-level scalar entries are document metadata; each sub-table is
//! one issue, its key doubling as the title, its `description` scalar (exact,
//! case-sensitive key) becoming the description and every other scalar its
//! metadata. Non-scalar, non-table entries are ignored at either level.

use vstd::prelude::*;
use vstd::string::StringExecFns;
use crate::model::{Document, DocumentModel, Issue, IssueModel, Metadata, ParseError};

verus! {

/// One field of a sub-table, as the table grammar delivers it: a scalar
/// (whose `value` is its string form, absent when the scalar is not a
/// string), or some other construct.
#[derive(Debug, Clone)]
pub enum RawField {
    Scalar { key: String, value: Option<String> },
    Other,
}

/// The mathematical value of a [`RawField`].
pub enum FieldModel {
    Scalar { key: Seq<char>, value: Option<Seq<char>> },
    Other,
}

/// One root entry of a table document: a scalar, a sub-table with its own
/// fields, or some other construct.
#[derive(Debug, Clone)]
pub enum RawEntry {
    Scalar { key: String, value: Option<String> },
    Table { key: String, fields: Vec<RawField> },
    Other,
}

/// The mathematical value of a [`RawEntry`].
pub enum EntryModel {
    Scalar { key: Seq<char>, value: Option<Seq<char>> },
    Table { key: Seq<char>, fields: Seq<FieldModel> },
    Other,
}

/// The view of an optional string.
pub open spec fn opt_str_view(v: Option<String>) -> Option<Seq<char>> {
    match v {
        Option::Some(s) => Option::Some(s@),
        Option::None => Option::None,
    }
}

impl View for RawField {
    type V = FieldModel;

    open spec fn view(&self) -> FieldModel {
        match self {
            RawField::Scalar { key, value } => FieldModel::Scalar {
                key: key@,
                value: opt_str_view(*value),
            },
            RawField::Other => FieldModel::Other,
        }
    }
}

impl View for RawEntry {
    type V = EntryModel;

    open spec fn view(&self) -> EntryModel {
        match self {
            RawEntry::Scalar { key, value } => EntryModel::Scalar {
                key: key@,
                value: opt_str_view(*value),
            },
            RawEntry::Table { key, fields } => EntryModel::Table {
                key: key@,
                fields: fields@.map_values(|f: RawField| f@),
            },
            RawEntry::Other => EntryModel::Other,
        }
    }
}

impl RawField {
    /// A scalar field from its key and string form.
    pub fn scalar(key: &str, value: Option<&str>) -> (r: RawField)
        ensures
            r@ == (FieldModel::Scalar {
                key: key@,
                value: match value {
                    Option::Some(v) => Option::Some(v@),
                    Option::None => Option::None::<Seq<char>>,
                },
            }),
    {
        RawField::Scalar {
            key: key.to_owned(),
            value: match value {
                Option::Some(v) => Option::Some(v.to_owned()),
                Option::None => Option::None,
            },
        }
    }

    /// A field that is neither a scalar nor a sub-table.
    pub fn other() -> (r: RawField)
        ensures
            r@ == FieldModel::Other,
    {
        RawField::Other
    }
}

impl RawEntry {
    /// A root scalar entry from its key and string form.
    pub fn scalar(key: &str, value: Option<&str>) -> (r: RawEntry)
        ensures
            r@ == (EntryModel::Scalar {
                key: key@,
                value: match value {
                    Option::Some(v) => Option::Some(v@),
                    Option::None => Option::None::<Seq<char>>,
                },
            }),
    {
        RawEntry::Scalar {
            key: key.to_owned(),
            value: match value {
                Option::Some(v) => Option::Some(v.to_owned()),
                Option::None => Option::None,
            },
        }
    }

    /// A sub-table entry from its key and fields.
    pub fn table(key: &str, fields: Vec<RawField>) -> (r: RawEntry)
        ensures
            r@ == (EntryModel::Table {
                key: key@,
                fields: fields@.map_values(|f: RawField| f@),
            }),
    {
        RawEntry::Table { key: key.to_owned(), fields }
    }

    /// A root entry that is neither a scalar nor a sub-table.
    pub fn other() -> (r: RawEntry)
        ensures
            r@ == EntryModel::Other,
    {
        RawEntry::Other
    }
}

/// What `toml_edit` reads from a text: nothing when the text does not
/// conform to the table grammar, else the root entries in source order.
pub uninterp spec fn toml_table_model(s: Seq<char>) -> Option<Seq<EntryModel>>;

/// Relies on `toml_edit`: `str::parse::<DocumentMut>` to parse the text,
/// the `iter` methods of `DocumentMut` and `Table` for the entries in
/// source order, and `Value::as_str` for the string form of scalars.
/// What a text parses to depends on the text alone.
#[verifier::external_body]
fn parse_toml_entries(s: &str) -> (r: Option<Vec<RawEntry>>)
    ensures
        match r {
            Option::Some(v) => toml_table_model(s@) == Option::Some(
                v@.map_values(|e: RawEntry| e@),
            ),
            Option::None => toml_table_model(s@) is None,
        },
{
    let doc: toml_edit::DocumentMut = match s.parse() {
        Ok(d) => d,
        Err(_) => return None,
    };
    Some(doc.iter().map(|(k, item)| match item {
        toml_edit::Item::Value(v) => RawEntry::scalar(k, v.as_str()),
        toml_edit::Item::Table(t) => RawEntry::table(k, t.iter().map(|(fk, fi)| match fi {
            toml_edit::Item::Value(fv) => RawField::scalar(fk, fv.as_str()),
            _ => RawField::other(),
        }).collect()),
        _ => RawEntry::other(),
    }).collect())
}

/// A scalar field carries a string value.
pub open spec fn field_ok(f: FieldModel) -> bool {
    match f {
        FieldModel::Scalar { key, value } => value is Some,
        FieldModel::Other => true,
    }
}

/// All scalar fields carry string values.
pub open spec fn fields_ok(fs: Seq<FieldModel>) -> bool {
    forall|i: int| 0 <= i < fs.len() ==> field_ok(fs[i])
}

/// Every scalar of the entry, at either level, carries a string value.
pub open spec fn entry_ok(e: EntryModel) -> bool {
    match e {
        EntryModel::Scalar { key, value } => value is Some,
        EntryModel::Table { key, fields } => fields_ok(fields),
        EntryModel::Other => true,
    }
}

/// Every scalar of the document carries a string value.
pub open spec fn entries_ok(es: Seq<EntryModel>) -> bool {
    forall|i: int| 0 <= i < es.len() ==> entry_ok(es[i])
}

/// The map of an optional metadata model, empty when absent.
pub open spec fn opt_or_empty(m: Option<Map<Seq<char>, Seq<char>>>) -> Map<Seq<char>, Seq<char>> {
    match m {
        Option::Some(mm) => mm,
        Option::None => Map::empty(),
    }
}

/// Document metadata: the fold of the top-level scalar entries, present
/// only once the first is seen.
pub open spec fn top_meta(es: Seq<EntryModel>) -> Option<Map<Seq<char>, Seq<char>>>
    decreases es.len(),
{
    if es.len() == 0 {
        Option::None
    } else {
        let prev = top_meta(es.drop_last());
        match es.last() {
            EntryModel::Scalar { key, value } => match value {
                Option::Some(v) => Option::Some(opt_or_empty(prev).insert(key, v)),
                Option::None => prev,
            },
            _ => prev,
        }
    }
}

/// The description of a sub-table: its last `description` scalar, or empty.
pub open spec fn desc_of(fs: Seq<FieldModel>) -> Seq<char>
    decreases fs.len(),
{
    if fs.len() == 0 {
        Seq::empty()
    } else {
        match fs.last() {
            FieldModel::Scalar { key, value } => match value {
                Option::Some(v) => if key == "description"@ {
                    v
                } else {
                    desc_of(fs.drop_last())
                },
                Option::None => desc_of(fs.drop_last()),
            },
            FieldModel::Other => desc_of(fs.drop_last()),
        }
    }
}

/// Per-issue metadata: the fold of the sub-table's scalar fields other than
/// the reserved `description` key, present only once the first is seen.
pub open spec fn issue_meta_of(fs: Seq<FieldModel>) -> Option<Map<Seq<char>, Seq<char>>>
    decreases fs.len(),
{
    if fs.len() == 0 {
        Option::None
    } else {
        let prev = issue_meta_of(fs.drop_last());
        match fs.last() {
            FieldModel::Scalar { key, value } => match value {
                Option::Some(v) => if key == "description"@ {
                    prev
                } else {
                    Option::Some(opt_or_empty(prev).insert(key, v))
                },
                Option::None => prev,
            },
            FieldModel::Other => prev,
        }
    }
}

/// The issue one sub-table describes: key as title, reserved `description`
/// scalar as description, the other scalars as metadata.
pub open spec fn issue_of(key: Seq<char>, fs: Seq<FieldModel>) -> IssueModel {
    IssueModel { title: key, description: desc_of(fs), metadata: issue_meta_of(fs) }
}

/// The issues of the entry list: one per sub-table, in source order.
pub open spec fn issues_of(es: Seq<EntryModel>) -> Seq<IssueModel>
    decreases es.len(),
{
    if es.len() == 0 {
        Seq::empty()
    } else {
        issues_of(es.drop_last()) + (match es.last() {
            EntryModel::Table { key, fields } => seq![issue_of(key, fields)],
            _ => Seq::empty(),
        })
    }
}

/// The document a table-document entry list describes, or the value error
/// when some scalar is not a string where one was required.
pub open spec fn extract_spec(es: Seq<EntryModel>) -> Result<DocumentModel, ParseError> {
    if entries_ok(es) {
        Result::Ok(DocumentModel { metadata: top_meta(es), issues: issues_of(es) })
    } else {
        Result::Err(ParseError::Value)
    }
}

/// The model of a parse result.
pub open spec fn doc_result_view(r: Result<Document, ParseError>) -> Result<
    DocumentModel,
    ParseError,
> {
    match r {
        Result::Ok(d) => Result::Ok(d@),
        Result::Err(e) => Result::Err(e),
    }
}

/// Insert into an optional metadata table, creating it on first use.
fn opt_insert(m: &mut Option<Metadata>, key: String, value: String)
    requires
        match *old(m) {
            Option::Some(mm) => mm.wf(),
            Option::None => true,
        },
    ensures
        (*final(m)) matches Some(mm2) && mm2.wf() && mm2@ == opt_or_empty(
            crate::model::opt_meta_view(*old(m)),
        ).insert(key@, value@),
{
    let prev = m.take();
    let mut mm = match prev {
        Option::Some(mm) => mm,
        Option::None => Metadata::new(),
    };
    mm.insert(key, value);
    *m = Option::Some(mm);
}

/// Build the document a raw entry list describes.
pub fn extract_document(entries: &Vec<RawEntry>) -> (r: Result<Document, ParseError>)
    ensures
        doc_result_view(r) == extract_spec(entries@.map_values(|e: RawEntry| e@)),
        r matches Ok(d) ==> d.wf(),
{
    let ghost ev = entries@.map_values(|e: RawEntry| e@);
    let desc_key: String = "description".to_owned();
    let mut doc_meta: Option<Metadata> = Option::None;
    let mut issues: Vec<Issue> = Vec::new();
    let mut i: usize = 0;
    proof {
        assert(ev.take(0) =~= Seq::<EntryModel>::empty());
    }
    while i < entries.len()
        invariant
            0 <= i <= entries@.len(),
            ev == entries@.map_values(|e: RawEntry| e@),
            desc_key@ == "description"@,
            forall|j: int| 0 <= j < i ==> entry_ok(ev[j]),
            crate::model::opt_meta_view(doc_meta) == top_meta(ev.take(i as int)),
            match doc_meta {
                Option::Some(mm) => mm.wf(),
                Option::None => true,
            },
            issues@.map_values(|x: Issue| x@) == issues_of(ev.take(i as int)),
            forall|j: int| 0 <= j < issues@.len() ==> (#[trigger] issues@[j]).wf(),
        decreases entries@.len() - i,
    {
        let ghost im0 = issues@.map_values(|x: Issue| x@);
        proof {
            assert(ev.take(i + 1).drop_last() =~= ev.take(i as int));
            assert(ev.take(i + 1).last() == ev[i as int]);
        }
        match &entries[i] {
            RawEntry::Scalar { key, value } => {
                match value {
                    Option::Some(v) => {
                        opt_insert(&mut doc_meta, key.clone(), v.clone());
                        proof {
                            assert(issues@.map_values(|x: Issue| x@) + Seq::<
                                IssueModel,
                            >::empty() =~= issues@.map_values(|x: Issue| x@));
                        }
                    },
                    Option::None => {
                        proof {
                            assert(!entry_ok(ev[i as int]));
                        }
                        return Result::Err(ParseError::Value);
                    },
                }
            },
            RawEntry::Table { key, fields } => {
                let ghost fv = fields@.map_values(|f: RawField| f@);
                let mut desc: String = String::new();
                let mut meta: Option<Metadata> = Option::None;
                let mut j: usize = 0;
                proof {
                    assert(fv.take(0) =~= Seq::<FieldModel>::empty());
                }
                while j < fields.len()
                    invariant
                        0 <= j <= fields@.len(),
                        0 <= i < entries@.len(),
                        ev == entries@.map_values(|e: RawEntry| e@),
                        ev[i as int] == (EntryModel::Table { key: key@, fields: fv }),
                        fv == fields@.map_values(|f: RawField| f@),
                        desc_key@ == "description"@,
                        forall|x: int| 0 <= x < j ==> field_ok(fv[x]),
                        desc@ == desc_of(fv.take(j as int)),
                        crate::model::opt_meta_view(meta) == issue_meta_of(fv.take(j as int)),
                        match meta {
                            Option::Some(mm) => mm.wf(),
                            Option::None => true,
                        },
                    decreases fields@.len() - j,
                {
                    proof {
                        assert(fv.take(j + 1).drop_last() =~= fv.take(j as int));
                        assert(fv.take(j + 1).last() == fv[j as int]);
                    }
                    match &fields[j] {
                        RawField::Scalar { key: fkey, value: fvalue } => {
                            match fvalue {
                                Option::Some(v) => {
                                    if *fkey == desc_key {
                                        desc = v.clone();
                                    } else {
                                        opt_insert(&mut meta, fkey.clone(), v.clone());
                                    }
                                },
                                Option::None => {
                                    proof {
                                        assert(!field_ok(fv[j as int]));
                                        assert(!entry_ok(ev[i as int]));
                                    }
                                    return Result::Err(ParseError::Value);
                                },
                            }
                        },
                        RawField::Other => {},
                    }
                    j += 1;
                }
                proof {
                    assert(fv.take(fields@.len() as int) =~= fv);
                    assert(entry_ok(ev[i as int]));
                }
                let issue = Issue { metadata: meta, title: key.clone(), description: desc };
                issues.push(issue);
                proof {
                    assert(issues@.map_values(|x: Issue| x@) =~= im0.push(
                        issues@.last()@,
                    ));
                    assert(im0.push(issues@.last()@) =~= im0 + seq![
                        issue_of(ev.take(i + 1).last()->Table_key, ev.take(i + 1).last()->Table_fields),
                    ]);
                }
            },
            RawEntry::Other => {
                proof {
                    assert(issues@.map_values(|x: Issue| x@) + Seq::<IssueModel>::empty()
                        =~= issues@.map_values(|x: Issue| x@));
                }
            },
        }
        i += 1;
    }
    proof {
        assert(ev.take(entries@.len() as int) =~= ev);
    }
    let d = Document { metadata: doc_meta, issues };
    proof {
        assert(d@ =~= (DocumentModel { metadata: top_meta(ev), issues: issues_of(ev) }));
    }
    Result::Ok(d)
}

/// Parse a table-document text. `Format` exactly when the text does not
/// conform to the table grammar; otherwise the extraction of its entries.
pub fn parse_table(text: &str) -> (r: Result<Document, ParseError>)
    ensures
        toml_table_model(text@) matches Some(es) ==> doc_result_view(r) == extract_spec(es),
        toml_table_model(text@) is None ==> r == Result::<Document, ParseError>::Err(
            ParseError::Format,
        ),
        r matches Ok(d) ==> d.wf(),
{
    match parse_toml_entries(text) {
        Option::Some(entries) => extract_document(&entries),
        Option::None => Result::Err(ParseError::Format),
    }
}

/// The entry is a scalar under the given key.
pub open spec fn is_scalar_with_key(e: EntryModel, k: Seq<char>) -> bool {
    match e {
        EntryModel::Scalar { key, value } => key == k,
        _ => false,
    }
}

/// The field is a scalar under the given key.
pub open spec fn is_field_with_key(f: FieldModel, k: Seq<char>) -> bool {
    match f {
        FieldModel::Scalar { key, value } => key == k,
        _ => false,
    }
}

/// A top-level scalar not overridden later is bound in the document metadata.
proof fn lemma_top_meta_binding(es: Seq<EntryModel>, i: int, k: Seq<char>, v: Seq<char>)
    requires
        0 <= i < es.len(),
        es[i] == (EntryModel::Scalar { key: k, value: Option::Some(v) }),
        forall|j: int| i < j < es.len() ==> !is_scalar_with_key(es[j], k),
    ensures
        top_meta(es) matches Some(m) && m.contains_pair(k, v),
    decreases es.len(),
{
    if i == es.len() - 1 {
    } else {
        assert(forall|j: int| i < j < es.drop_last().len() ==> !is_scalar_with_key(
            es.drop_last()[j],
            k,
        ));
        assert(es.drop_last()[i] == es[i]);
        lemma_top_meta_binding(es.drop_last(), i, k, v);
        assert(!is_scalar_with_key(es.last(), k));
    }
}

/// Entries other than sub-tables contribute no issue.
proof fn lemma_issues_skip_non_table(es: Seq<EntryModel>, i: int)
    requires
        0 <= i < es.len(),
        !(es[i] is Table),
    ensures
        issues_of(es.remove(i)) == issues_of(es),
    decreases es.len(),
{
    if i == es.len() - 1 {
        assert(es.remove(i) =~= es.drop_last());
        assert(issues_of(es.drop_last()) + Seq::<IssueModel>::empty() =~= issues_of(
            es.drop_last(),
        ));
    } else {
        assert(es.remove(i).drop_last() =~= es.drop_last().remove(i));
        assert(es.remove(i).last() == es.last());
        assert(es.drop_last()[i] == es[i]);
        lemma_issues_skip_non_table(es.drop_last(), i);
    }
}

/// LAW: a top-level scalar entry populates the document metadata with its
/// pair — bound to its value when no later top-level scalar reuses the key —
/// and never appears in any issue: the issues are exactly those of the entry
/// list with the scalar removed.
pub proof fn lemma_top_scalar_routed(es: Seq<EntryModel>, i: int, k: Seq<char>, v: Seq<char>)
    requires
        entries_ok(es),
        0 <= i < es.len(),
        es[i] == (EntryModel::Scalar { key: k, value: Option::Some(v) }),
        forall|j: int| i < j < es.len() ==> !is_scalar_with_key(es[j], k),
    ensures
        extract_spec(es) matches Ok(d) && d.metadata matches Some(m) && m.contains_pair(k, v)
            && d.issues == issues_of(es.remove(i)),
{
    lemma_top_meta_binding(es, i, k, v);
    lemma_issues_skip_non_table(es, i);
}

/// The reserved key never reaches an issue's metadata.
proof fn lemma_meta_no_description(fs: Seq<FieldModel>)
    ensures
        issue_meta_of(fs) matches Some(m) ==> !m.contains_key("description"@),
    decreases fs.len(),
{
    if fs.len() > 0 {
        lemma_meta_no_description(fs.drop_last());
    }
}

/// A `description` scalar not overridden later fixes the description.
proof fn lemma_desc_binding(fs: Seq<FieldModel>, i: int, v: Seq<char>)
    requires
        0 <= i < fs.len(),
        fs[i] == (FieldModel::Scalar { key: "description"@, value: Option::Some(v) }),
        forall|j: int| i < j < fs.len() ==> !is_field_with_key(fs[j], "description"@),
    ensures
        desc_of(fs) == v,
    decreases fs.len(),
{
    if i == fs.len() - 1 {
    } else {
        assert(forall|j: int| i < j < fs.drop_last().len() ==> !is_field_with_key(
            fs.drop_last()[j],
            "description"@,
        ));
        assert(fs.drop_last()[i] == fs[i]);
        lemma_desc_binding(fs.drop_last(), i, v);
        assert(!is_field_with_key(fs.last(), "description"@));
    }
}

/// LAW: a sub-table's `description` scalar always becomes the issue's
/// description — its value, when no later field reuses the key — and never
/// an entry of the issue's metadata, wherever it stands among the fields.
pub proof fn lemma_description_reserved(key: Seq<char>, fs: Seq<FieldModel>, i: int, v: Seq<char>)
    requires
        0 <= i < fs.len(),
        fs[i] == (FieldModel::Scalar { key: "description"@, value: Option::Some(v) }),
        forall|j: int| i < j < fs.len() ==> !is_field_with_key(fs[j], "description"@),
    ensures
        issue_of(key, fs).description == v,
        issue_of(key, fs).metadata matches Some(m) ==> !m.contains_key("description"@),
{
    lemma_desc_binding(fs, i, v);
    lemma_meta_no_description(fs);
}

} // verus!
