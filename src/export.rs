use vstd::prelude::*;

use crate::attrs::{AttrPairs, Attributes, clone_values, compare_str, keys_sorted, pairs_to_map, lemma_pairs_to_map_at, lemma_str_lt_transitive, str_lt};
use crate::entry::{CoreError, LdapEntry, all_wf, entries_view};
use crate::csv::{columns_ok, names_sorted, table_of, csv_text, to_csv, to_table};
use crate::json::{pretty_json_of, selected_view, to_string};
use crate::ldif::{ldif_text, to_ldif};
use crate::util::{lower_of, to_lower};

verus! {

/// The output formats.
#[derive(Debug, Clone, Copy, PartialEq, Eq, Structural)]
pub enum ExportFormat {
    Ldif,
    Json,
    Csv,
    Xlsx,
}

/// The format that a lowercased extension names, if any.
pub open spec fn format_for(ext: Seq<char>) -> Option<ExportFormat> {
    if ext == "ldif"@ || ext == "ldf"@ {
        Some(ExportFormat::Ldif)
    } else if ext == "json"@ {
        Some(ExportFormat::Json)
    } else if ext == "csv"@ {
        Some(ExportFormat::Csv)
    } else if ext == "xlsx"@ || ext == "xls"@ {
        Some(ExportFormat::Xlsx)
    } else {
        None
    }
}

/// What `Path::extension` gives for a path written as text.
pub uninterp spec fn extension_of(path: Seq<char>) -> Option<Seq<char>>;

/// Relies on `Path::extension`: the extension of the file name, a function of
/// the path alone (a part of a `str` is itself valid UTF-8).
#[verifier::external_body]
fn path_extension(path: &str) -> (r: Option<String>)
    ensures
        match r {
            Some(e) => extension_of(path@) == Some(e@),
            None => extension_of(path@) is None,
        },
{
    std::path::Path::new(path).extension().and_then(|e| e.to_str()).map(|e| e.to_string())
}

/// The format that a path's extension names, if any.
pub open spec fn format_of_path(path: Seq<char>) -> Option<ExportFormat> {
    match extension_of(path) {
        Some(e) => format_for(lower_of(e)),
        None => None,
    }
}

impl ExportFormat {
    /// The format that an extension names, compared case-insensitively.
    pub fn from_extension(ext: &str) -> (r: Option<ExportFormat>)
        ensures
            r == format_for(lower_of(ext@)),
    {
        let lower = to_lower(ext);
        let e = lower.as_str();
        if compare_str(e, "ldif") == 0 || compare_str(e, "ldf") == 0 {
            Some(ExportFormat::Ldif)
        } else if compare_str(e, "json") == 0 {
            Some(ExportFormat::Json)
        } else if compare_str(e, "csv") == 0 {
            Some(ExportFormat::Csv)
        } else if compare_str(e, "xlsx") == 0 || compare_str(e, "xls") == 0 {
            Some(ExportFormat::Xlsx)
        } else {
            None
        }
    }

    /// The format named by the extension of `path`; `None` where the path has
    /// no extension, or one that names no format.
    pub fn from_path(path: &str) -> (r: Option<ExportFormat>)
        ensures
            r == format_of_path(path@),
    {
        match path_extension(path) {
            Some(ext) => ExportFormat::from_extension(ext.as_str()),
            None => None,
        }
    }
}

/// The texts of a list of strings.
pub open spec fn names_of(a: Seq<String>) -> Seq<Seq<char>> {
    a.map_values(|x: String| x@)
}

/// The selection `["*"]`: every attribute.
pub open spec fn is_wildcard(names: Seq<Seq<char>>) -> bool {
    names.len() == 1 && names[0] == "*"@
}

/// `None` where `attributes` is the wildcard `["*"]` (every attribute, in
/// alphabetical order); otherwise the explicit list itself.
pub fn requested_attrs(attributes: &[String]) -> (r: Option<&[String]>)
    ensures
        r == (if is_wildcard(names_of(attributes@)) { None } else { Some(attributes) }),
{
    if attributes.len() == 1 && compare_str(attributes[0].as_str(), "*") == 0 {
        None
    } else {
        Some(attributes)
    }
}

/// The pairs of `s`, in order, whose name is in `names`.
pub open spec fn keep_named(s: AttrPairs, names: Seq<Seq<char>>) -> AttrPairs
    decreases s.len(),
{
    if s.len() == 0 {
        s
    } else if names.contains(s.last().0) {
        keep_named(s.drop_last(), names).push(s.last())
    } else {
        keep_named(s.drop_last(), names)
    }
}

/// The attribute pairs that a selection keeps of an entry's attributes.
pub open spec fn selected(s: AttrPairs, names: Seq<Seq<char>>) -> AttrPairs {
    if is_wildcard(names) {
        s
    } else {
        keep_named(s, names)
    }
}

/// The part of mapping `m` whose names are in `names`.
pub open spec fn restrict_names(
    m: Map<Seq<char>, Seq<Seq<char>>>,
    names: Seq<Seq<char>>,
) -> Map<Seq<char>, Seq<Seq<char>>> {
    Map::new(|k: Seq<char>| m.contains_key(k) && names.contains(k), |k: Seq<char>| m[k])
}

proof fn lemma_keep_named(s: AttrPairs, names: Seq<Seq<char>>)
    requires
        keys_sorted(s),
    ensures
        keys_sorted(keep_named(s, names)),
        forall|x: (Seq<char>, Seq<Seq<char>>)| #[trigger] keep_named(s, names).contains(x)
            <==> (s.contains(x) && names.contains(x.0)),
    decreases s.len(),
{
    if s.len() > 0 {
        let t = s.drop_last();
        let last = s.last();
        assert(keys_sorted(t));
        lemma_keep_named(t, names);
        let r = keep_named(t, names);
        assert forall|x: (Seq<char>, Seq<Seq<char>>)| #[trigger] s.contains(x) <==> (t.contains(x)
            || x == last) by {
            if s.contains(x) {
                let i = choose|i: int| 0 <= i < s.len() && s[i] == x;
                if i < s.len() - 1 {
                    assert(t[i] == x);
                }
            }
            if t.contains(x) {
                let i = choose|i: int| 0 <= i < t.len() && t[i] == x;
                assert(s[i] == x);
            }
            if x == last {
                assert(s[s.len() - 1] == x);
            }
        }
        if names.contains(last.0) {
            let r2 = r.push(last);
            assert forall|i: int, j: int| 0 <= i < j < r2.len() implies str_lt(
                #[trigger] r2[i].0,
                #[trigger] r2[j].0,
            ) by {
                if j == r.len() {
                    assert(r.contains(r[i]));
                    let k = choose|k: int| 0 <= k < t.len() && t[k] == r[i];
                    assert(str_lt(s[k].0, s[s.len() - 1].0));
                } else {
                    assert(str_lt(r[i].0, r[j].0));
                }
            }
            assert forall|x: (Seq<char>, Seq<Seq<char>>)| #[trigger] r2.contains(x) <==> (r.contains(x)
                || x == last) by {
                if r2.contains(x) {
                    let i = choose|i: int| 0 <= i < r2.len() && r2[i] == x;
                    if i < r.len() {
                        assert(r[i] == x);
                    }
                }
                if r.contains(x) {
                    let i = choose|i: int| 0 <= i < r.len() && r[i] == x;
                    assert(r2[i] == x);
                }
                if x == last {
                    assert(r2[r.len() as int] == x);
                }
            }
        } else {
            assert(forall|i: int| 0 <= i < t.len() ==> s[i] == t[i]);
        }
    }
}

/// An explicit selection keeps exactly the attributes whose names it lists,
/// each with the entry's own values: no other name, none missing, no value
/// changed.
pub proof fn lemma_explicit_selection(s: AttrPairs, names: Seq<Seq<char>>)
    requires
        keys_sorted(s),
    ensures
        keys_sorted(keep_named(s, names)),
        pairs_to_map(keep_named(s, names)) == restrict_names(pairs_to_map(s), names),
{
    lemma_keep_named(s, names);
    let r = keep_named(s, names);
    let m = restrict_names(pairs_to_map(s), names);
    assert forall|k: Seq<char>| #[trigger] m.contains_key(k) implies pairs_to_map(r).contains_key(k)
        && pairs_to_map(r)[k] == m[k] by {
        let i = choose|i: int| 0 <= i < s.len() && #[trigger] s[i].0 == k;
        assert(s.contains(s[i]));
        assert(r.contains(s[i]));
        let j = choose|j: int| 0 <= j < r.len() && r[j] == s[i];
        lemma_pairs_to_map_at(s, i);
        lemma_pairs_to_map_at(r, j);
    }
    assert forall|k: Seq<char>| #[trigger] pairs_to_map(r).contains_key(k) implies m.contains_key(k) by {
        let j = choose|j: int| 0 <= j < r.len() && #[trigger] r[j].0 == k;
        assert(r.contains(r[j]));
        let i = choose|i: int| 0 <= i < s.len() && s[i] == r[j];
        assert(s[i].0 == k);
    }
    assert(pairs_to_map(r) =~= m);
}

/// Whether `name` is one of `names`.
fn contains_name(names: &[String], name: &String) -> (r: bool)
    ensures
        r == names_of(names@).contains(name@),
{
    let n = names.len();
    let mut i: usize = 0;
    while i < n
        invariant
            n == names@.len(),
            i <= n,
            forall|j: int| 0 <= j < i ==> names@[j]@ != name@,
        decreases n - i,
    {
        if names[i] == *name {
            assert(names_of(names@)[i as int] == name@);
            return true;
        }
        i = i + 1;
    }
    assert forall|j: int| 0 <= j < names_of(names@).len() implies names_of(names@)[j] != name@ by {
        assert(names_of(names@)[j] == names@[j]@);
    }
    false
}

/// The attributes of `attrs` whose names are in `names`, in canonical order.
fn keep_attributes(attrs: &Attributes, names: &[String]) -> (r: Attributes)
    requires
        attrs.wf(),
    ensures
        r.wf(),
        r@ == keep_named(attrs@, names_of(names@)),
{
    let ghost ns = names_of(names@);
    let pairs = attrs.pairs();
    let n = pairs.len();
    let mut out: Vec<(String, Vec<String>)> = Vec::new();
    let mut i: usize = 0;
    while i < n
        invariant
            n == pairs@.len(),
            pairs.deep_view() == attrs@,
            ns == names_of(names@),
            i <= n,
            out.deep_view() == keep_named(attrs@.take(i as int), ns),
        decreases n - i,
    {
        let ghost s = attrs@.take(i + 1);
        assert(s.drop_last() =~= attrs@.take(i as int));
        assert(attrs@[i as int] == (pairs@[i as int].0@, pairs@[i as int].1.deep_view()));
        assert(s.last() == attrs@[i as int]);
        if contains_name(names, &pairs[i].0) {
            let ghost prev = out.deep_view();
            out.push((pairs[i].0.clone(), clone_values(&pairs[i].1)));
            assert(out.deep_view() =~= prev.push(attrs@[i as int]));
        }
        i = i + 1;
    }
    assert(attrs@.take(n as int) =~= attrs@);
    proof {
        lemma_keep_named(attrs@, ns);
    }
    Attributes::from_sorted(out)
}

/// The entries with only the requested attributes: under the wildcard each
/// entry as it is; under an explicit list each entry with the attributes the
/// list names. Entries, their order and their names are kept.
pub fn filter_entries(entries: &[LdapEntry], attributes: &[String]) -> (r: Vec<LdapEntry>)
    requires
        all_wf(entries@),
    ensures
        r@.len() == entries@.len(),
        all_wf(r@),
        forall|i: int| 0 <= i < entries@.len() ==> (#[trigger] r@[i]).dn@ == entries@[i].dn@
            && r@[i].attributes@ == selected(entries@[i].attributes@, names_of(attributes@)),
{
    let wanted = requested_attrs(attributes);
    let n = entries.len();
    let mut out: Vec<LdapEntry> = Vec::new();
    let mut i: usize = 0;
    while i < n
        invariant
            n == entries@.len(),
            all_wf(entries@),
            wanted == (if is_wildcard(names_of(attributes@)) { None } else { Some(attributes) }),
            i <= n,
            out@.len() == i,
            all_wf(out@),
            forall|j: int| 0 <= j < i ==> (#[trigger] out@[j]).dn@ == entries@[j].dn@
                && out@[j].attributes@ == selected(entries@[j].attributes@, names_of(attributes@)),
        decreases n - i,
    {
        let e = &entries[i];
        let kept = match wanted {
            Some(names) => LdapEntry::new(e.dn.clone(), keep_attributes(&e.attributes, names)),
            None => e.duplicate(),
        };
        out.push(kept);
        i = i + 1;
    }
    out
}

/// What an export produces, for the caller to write to the output path.
#[derive(Debug)]
pub enum ExportPayload {
    /// The file's text (LDIF, JSON, CSV).
    Text(String),
    /// The rows of a spreadsheet's single sheet, cells as text.
    Table(Vec<Vec<String>>),
}

/// The result of a successful export.
#[derive(Debug)]
pub struct ExportOutput {
    pub format: ExportFormat,
    pub payload: ExportPayload,
    /// The number of entries given, whatever the selection kept of them.
    pub count: usize,
}

/// The payload of format `f` for the selected entries `sel`.
pub open spec fn payload_ok(
    f: ExportFormat,
    p: ExportPayload,
    sel: Seq<(Seq<char>, AttrPairs)>,
    names: Seq<Seq<char>>,
) -> bool {
    match (f, p) {
        (ExportFormat::Ldif, ExportPayload::Text(t)) => t@ == ldif_text(sel),
        (ExportFormat::Json, ExportPayload::Text(t)) => t@ == pretty_json_of(sel),
        (ExportFormat::Csv, ExportPayload::Text(t)) => exists|cols: Seq<Seq<char>>|
            columns_ok(sel, names, cols) && t@ == csv_text(table_of(sel, cols)),
        (ExportFormat::Xlsx, ExportPayload::Table(rows)) => exists|cols: Seq<Seq<char>>|
            columns_ok(sel, names, cols) && rows.deep_view() == table_of(sel, cols),
        _ => false,
    }
}

/// A successful export of `entries` to `path` under the selection `names`.
pub open spec fn export_ok(
    entries: Seq<LdapEntry>,
    path: Seq<char>,
    names: Seq<Seq<char>>,
    o: ExportOutput,
) -> bool {
    format_of_path(path) == Some(o.format) && o.count == entries.len() && payload_ok(
        o.format,
        o.payload,
        selected_view(entries, names),
        names,
    )
}

/// Exports `entries` in the format that the extension of `path` names, with
/// the attributes that `attributes` selects. The payload is what is to be
/// written to `path`; the count is the number of entries given.
pub fn export_entries(entries: &[LdapEntry], path: &str, attributes: &[String]) -> (r: Result<
    ExportOutput,
    CoreError,
>)
    requires
        all_wf(entries@),
    ensures
        format_of_path(path@) is Some <==> r is Ok,
        match r {
            Ok(o) => export_ok(entries@, path@, names_of(attributes@), o),
            Err(e) => e is UnknownExtension,
        },
{
    let format = match ExportFormat::from_path(path) {
        Some(f) => f,
        None => {
            return Err(CoreError::UnknownExtension);
        },
    };
    let payload = match format {
        ExportFormat::Ldif => ExportPayload::Text(to_ldif(entries, attributes)),
        ExportFormat::Json => match to_string(entries, attributes) {
            Ok(t) => ExportPayload::Text(t),
            Err(e) => {
                return Err(e);
            },
        },
        ExportFormat::Csv => ExportPayload::Text(to_csv(entries, attributes)),
        ExportFormat::Xlsx => ExportPayload::Table(to_table(entries, attributes)),
    };
    Ok(ExportOutput { format, payload, count: entries.len() })
}

/// The count of a successful export is the number of entries given, whatever
/// the selection leaves of their attributes (even none at all).
pub proof fn lemma_count_is_input_size(
    entries: Seq<LdapEntry>,
    path: Seq<char>,
    names: Seq<Seq<char>>,
    o: ExportOutput,
)
    requires
        export_ok(entries, path, names, o),
    ensures
        o.count == entries.len(),
{
}

/// Under the wildcard the selection hands every entry on unchanged: the same
/// names, in the same order, each with its attributes in alphabetical order
/// and its own values.
pub proof fn lemma_wildcard_keeps_entries(entries: Seq<LdapEntry>, names: Seq<Seq<char>>)
    requires
        all_wf(entries),
        is_wildcard(names),
    ensures
        selected_view(entries, names) == entries_view(entries),
        forall|i: int| 0 <= i < entries.len() ==> keys_sorted(#[trigger] selected_view(entries, names)[i].1),
{
    assert(selected_view(entries, names) =~= entries_view(entries));
    assert forall|i: int| 0 <= i < entries.len() implies keys_sorted(#[trigger] selected_view(entries, names)[i].1) by {
        assert(entries[i].attributes.wf());
    }
}

/// Two strictly ascending sequences of names with the same elements are equal.
pub proof fn lemma_sorted_names_unique(a: Seq<Seq<char>>, b: Seq<Seq<char>>)
    requires
        names_sorted(a),
        names_sorted(b),
        a.to_set() == b.to_set(),
    ensures
        a == b,
    decreases a.len(),
{
    if a.len() == 0 {
        if b.len() > 0 {
            assert(b.to_set().contains(b[0]));
        }
        assert(a =~= b);
    } else {
        if b.len() == 0 {
            assert(a.to_set().contains(a[0]));
        } else {
            assert(a.to_set().contains(a[0]));
            assert(b.to_set().contains(b[0]));
            let i = choose|i: int| 0 <= i < b.len() && b[i] == a[0];
            let j = choose|j: int| 0 <= j < a.len() && a[j] == b[0];
            if i > 0 {
                assert(str_lt(b[0], b[i]));
                if j > 0 {
                    assert(str_lt(a[0], a[j]));
                    lemma_str_lt_transitive(b[0], a[0], b[0]);
                    crate::attrs::lemma_str_lt_irreflexive(b[0]);
                }
            }
            if j > 0 && i == 0 {
                assert(str_lt(a[0], a[j]));
                crate::attrs::lemma_str_lt_irreflexive(a[0]);
            }
            assert(a[0] == b[0]);
            let a1 = a.drop_first();
            let b1 = b.drop_first();
            assert forall|x: Seq<char>| #[trigger] a1.to_set().contains(x) <==> b1.to_set().contains(x) by {
                if a1.to_set().contains(x) {
                    let k = choose|k: int| 0 <= k < a1.len() && a1[k] == x;
                    assert(a.to_set().contains(x));
                    assert(str_lt(a[0], a[k + 1]));
                    let m = choose|m: int| 0 <= m < b.len() && b[m] == x;
                    if m == 0 {
                        crate::attrs::lemma_str_lt_irreflexive(x);
                    }
                    assert(b1[m - 1] == x);
                }
                if b1.to_set().contains(x) {
                    let k = choose|k: int| 0 <= k < b1.len() && b1[k] == x;
                    assert(b.to_set().contains(x));
                    assert(str_lt(b[0], b[k + 1]));
                    let m = choose|m: int| 0 <= m < a.len() && a[m] == x;
                    if m == 0 {
                        crate::attrs::lemma_str_lt_irreflexive(x);
                    }
                    assert(a1[m - 1] == x);
                }
            }
            assert(a1.to_set() =~= b1.to_set());
            lemma_sorted_names_unique(a1, b1);
            assert(a =~= seq![a[0]] + a1);
            assert(b =~= seq![b[0]] + b1);
        }
    }
}

/// The text or rows of a payload.
pub open spec fn payload_view(p: ExportPayload) -> (Seq<char>, Seq<Seq<Seq<char>>>) {
    match p {
        ExportPayload::Text(t) => (t@, Seq::empty()),
        ExportPayload::Table(rows) => (Seq::empty(), rows.deep_view()),
    }
}

/// Exporting the same entries to the same path with the same selection gives
/// the same format, the same output and the same count, every time.
pub proof fn lemma_export_deterministic(
    entries: Seq<LdapEntry>,
    path: Seq<char>,
    names: Seq<Seq<char>>,
    o1: ExportOutput,
    o2: ExportOutput,
)
    requires
        export_ok(entries, path, names, o1),
        export_ok(entries, path, names, o2),
    ensures
        o1.format == o2.format,
        payload_view(o1.payload) == payload_view(o2.payload),
        o1.count == o2.count,
{
    let sel = selected_view(entries, names);
    match o1.format {
        ExportFormat::Csv => {
            let c1 = choose|cols: Seq<Seq<char>>| columns_ok(sel, names, cols) && o1.payload->Text_0@ == csv_text(table_of(sel, cols));
            let c2 = choose|cols: Seq<Seq<char>>| columns_ok(sel, names, cols) && o2.payload->Text_0@ == csv_text(table_of(sel, cols));
            if is_wildcard(names) {
                lemma_sorted_names_unique(c1, c2);
            }
        },
        ExportFormat::Xlsx => {
            let c1 = choose|cols: Seq<Seq<char>>| columns_ok(sel, names, cols) && o1.payload->Table_0.deep_view() == table_of(sel, cols);
            let c2 = choose|cols: Seq<Seq<char>>| columns_ok(sel, names, cols) && o2.payload->Table_0.deep_view() == table_of(sel, cols);
            if is_wildcard(names) {
                lemma_sorted_names_unique(c1, c2);
            }
        },
        _ => {},
    }
}

} // verus!
