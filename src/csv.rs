use vstd::prelude::*;

use crate::attrs::{AttrPairs, Attributes, has_key, str_lt};
use crate::entry::{LdapEntry, all_wf, entries_view};
use crate::export::{filter_entries, is_wildcard, names_of};
use crate::json::selected_view;
use crate::util::{get_values, lookup_ci};

verus! {

/// Joins `parts` with `sep` between each two.
pub open spec fn join(parts: Seq<Seq<char>>, sep: Seq<char>) -> Seq<char>
    decreases parts.len(),
{
    if parts.len() == 0 {
        Seq::empty()
    } else if parts.len() == 1 {
        parts[0]
    } else {
        join(parts.drop_last(), sep) + sep + parts.last()
    }
}

/// The separator between the values of one attribute within a cell. Values
/// are not escaped: a cell whose values themselves hold `|` cannot be split
/// back into the same values, so this format is meant for values free of it.
pub open spec fn value_separator() -> Seq<char> {
    seq!['|']
}

/// A field must be quoted when it holds a comma, a quote or a line break.
pub open spec fn needs_quoting(s: Seq<char>) -> bool {
    s.contains(',') || s.contains('"') || s.contains('\n') || s.contains('\r')
}

/// `s` with every quote doubled.
pub open spec fn double_quotes(s: Seq<char>) -> Seq<char>
    decreases s.len(),
{
    if s.len() == 0 {
        s
    } else if s.last() == '"' {
        double_quotes(s.drop_last()) + seq!['"', '"']
    } else {
        double_quotes(s.drop_last()).push(s.last())
    }
}

/// A field as it stands in a CSV line.
pub open spec fn csv_field(s: Seq<char>) -> Seq<char> {
    if needs_quoting(s) {
        seq!['"'] + double_quotes(s) + seq!['"']
    } else {
        s
    }
}

/// One CSV line: the fields separated by commas, ended by a newline.
pub open spec fn csv_line(cells: Seq<Seq<char>>) -> Seq<char> {
    join(cells.map_values(|c: Seq<char>| csv_field(c)), seq![',']) + seq!['\n']
}

/// The lines of a table, one after the other.
pub open spec fn csv_text(rows: Seq<Seq<Seq<char>>>) -> Seq<char>
    decreases rows.len(),
{
    if rows.len() == 0 {
        Seq::empty()
    } else {
        csv_text(rows.drop_last()) + csv_line(rows.last())
    }
}

/// The cell of an entry under a column: the values that a case-insensitive
/// lookup finds, joined; empty where there are none.
pub open spec fn cell_text(attrs: AttrPairs, column: Seq<char>) -> Seq<char> {
    match lookup_ci(attrs, column) {
        Some(v) => join(v, value_separator()),
        None => Seq::empty(),
    }
}

/// An entry's row: its name, then one cell per column.
pub open spec fn row_cells(e: (Seq<char>, AttrPairs), columns: Seq<Seq<char>>) -> Seq<Seq<char>> {
    seq![e.0] + columns.map_values(|c: Seq<char>| cell_text(e.1, c))
}

/// The table of a set of entries: a header row, then one row per entry.
pub open spec fn table_of(entries: Seq<(Seq<char>, AttrPairs)>, columns: Seq<Seq<char>>) -> Seq<
    Seq<Seq<char>>,
> {
    seq![seq!["dn"@] + columns] + entries.map_values(
        |e: (Seq<char>, AttrPairs)| row_cells(e, columns),
    )
}

/// The names that occur on at least one of the entries.
pub open spec fn name_union(entries: Seq<(Seq<char>, AttrPairs)>) -> Set<Seq<char>> {
    Set::new(|k: Seq<char>| exists|i: int| 0 <= i < entries.len() && has_key(#[trigger] entries[i].1, k))
}

/// Names strictly ascending.
pub open spec fn names_sorted(names: Seq<Seq<char>>) -> bool {
    forall|i: int, j: int| 0 <= i < j < names.len() ==> str_lt(#[trigger] names[i], #[trigger] names[j])
}

/// Joins the texts of `parts` with `sep`.
pub fn join_strings(parts: &Vec<String>, sep: &str) -> (r: String)
    ensures
        r@ == join(parts.deep_view(), sep@),
{
    let n = parts.len();
    let mut out = String::new();
    let mut i: usize = 0;
    while i < n
        invariant
            n == parts@.len(),
            i <= n,
            out@ == join(parts.deep_view().take(i as int), sep@),
        decreases n - i,
    {
        let ghost t = parts.deep_view().take(i + 1);
        assert(t.drop_last() =~= parts.deep_view().take(i as int));
        assert(t.last() == parts@[i as int]@);
        if i > 0 {
            out.append(sep);
        } else {
            assert(t.len() == 1);
        }
        out.append(parts[i].as_str());
        i = i + 1;
    }
    assert(parts.deep_view().take(n as int) =~= parts.deep_view());
    out
}

/// A field as it stands in a CSV line: quoted, with quotes doubled, where it
/// holds a comma, a quote or a line break; otherwise as it is.
pub fn csv_quote(s: &str) -> (r: String)
    ensures
        r@ == csv_field(s@),
{
    let n = s.unicode_len();
    let mut quoted = false;
    let mut body = String::new();
    let mut i: usize = 0;
    proof {
        reveal_strlit("\"\"");
        reveal_strlit("\"");
    }
    while i < n
        invariant
            n == s@.len(),
            i <= n,
            body@ == double_quotes(s@.take(i as int)),
            quoted == (s@.take(i as int).contains(',') || s@.take(i as int).contains('"')
                || s@.take(i as int).contains('\n') || s@.take(i as int).contains('\r')),
        decreases n - i,
    {
        let c = s.get_char(i);
        let ghost t = s@.take(i + 1);
        assert(t.drop_last() =~= s@.take(i as int));
        assert(t.last() == c);
        assert forall|x: char| #[trigger] t.contains(x) <==> (s@.take(i as int).contains(x) || x == c) by {
            if t.contains(x) {
                let j = choose|j: int| 0 <= j < t.len() && t[j] == x;
                if j < i {
                    assert(s@.take(i as int)[j] == x);
                }
            }
            if s@.take(i as int).contains(x) {
                let j = choose|j: int| 0 <= j < i && s@.take(i as int)[j] == x;
                assert(t[j] == x);
            }
            if x == c {
                assert(t[i as int] == x);
            }
        }
        if c == '"' {
            proof {
                reveal_strlit("\"\"");
            }
            assert("\"\""@ =~= seq!['"', '"']);
            body.append("\"\"");
        } else {
            body.append(s.substring_char(i, i + 1));
            assert(s@.subrange(i as int, i + 1) =~= seq![c]);
        }
        if c == ',' || c == '"' || c == '\n' || c == '\r' {
            quoted = true;
        }
        i = i + 1;
    }
    assert(s@.take(n as int) =~= s@);
    if quoted {
        let mut out = String::from_str("\"");
        out.append(body.as_str());
        out.append("\"");
        out
    } else {
        assert(double_quotes(s@) == s@) by {
            lemma_no_quotes(s@);
        }
        body
    }
}

proof fn lemma_no_quotes(s: Seq<char>)
    requires
        !s.contains('"'),
    ensures
        double_quotes(s) == s,
    decreases s.len(),
{
    if s.len() > 0 {
        assert(!s.drop_last().contains('"')) by {
            if s.drop_last().contains('"') {
                let j = choose|j: int| 0 <= j < s.len() - 1 && s.drop_last()[j] == '"';
                assert(s[j] == '"');
            }
        }
        lemma_no_quotes(s.drop_last());
        assert(s[s.len() - 1] != '"');
        assert(s.drop_last().push(s.last()) =~= s);
    }
}

/// The columns after `dn`: under the wildcard every name that occurs on some
/// entry, once, in alphabetical order; otherwise the requested names as given.
pub open spec fn columns_ok(
    entries: Seq<(Seq<char>, AttrPairs)>,
    names: Seq<Seq<char>>,
    columns: Seq<Seq<char>>,
) -> bool {
    if is_wildcard(names) {
        names_sorted(columns) && columns.to_set() == name_union(entries)
    } else {
        columns == names
    }
}

/// The sorted union of the names of all entries.
fn all_names(entries: &[LdapEntry]) -> (r: Vec<String>)
    requires
        all_wf(entries@),
    ensures
        names_sorted(r.deep_view()),
        r.deep_view().to_set() == name_union(entries_view(entries@)),
{
    let ghost es = entries_view(entries@);
    let mut acc = Attributes::new();
    let n = entries.len();
    let mut i: usize = 0;
    while i < n
        invariant
            n == entries@.len(),
            es == entries_view(entries@),
            i <= n,
            acc.wf(),
            forall|k: Seq<char>| #[trigger] acc.map_view().contains_key(k) <==> exists|x: int|
                0 <= x < i && has_key(#[trigger] es[x].1, k),
        decreases n - i,
    {
        let pairs = entries[i].attributes.pairs();
        let m = pairs.len();
        let mut j: usize = 0;
        assert(es[i as int].1 == pairs.deep_view());
        while j < m
            invariant
                n == entries@.len(),
                es == entries_view(entries@),
                i < n,
                j <= m,
                m == pairs@.len(),
                es[i as int].1 == pairs.deep_view(),
                acc.wf(),
                forall|k: Seq<char>| #[trigger] acc.map_view().contains_key(k) <==> (exists|x: int|
                    0 <= x < i && has_key(#[trigger] es[x].1, k)) || (exists|y: int|
                    0 <= y < j && #[trigger] es[i as int].1[y].0 == k),
            decreases m - j,
        {
            assert(es[i as int].1[j as int].0 == pairs@[j as int].0@);
            acc.insert(pairs[j].0.clone(), Vec::new());
            assert forall|k: Seq<char>| #[trigger] acc.map_view().contains_key(k) <==> (exists|x: int|
                0 <= x < i && has_key(#[trigger] es[x].1, k)) || (exists|y: int|
                0 <= y < j + 1 && #[trigger] es[i as int].1[y].0 == k) by {
                if k == es[i as int].1[j as int].0 {
                    assert(0 <= j < j + 1 && es[i as int].1[j as int].0 == k);
                }
                if exists|y: int| 0 <= y < j + 1 && #[trigger] es[i as int].1[y].0 == k {
                    let y = choose|y: int| 0 <= y < j + 1 && #[trigger] es[i as int].1[y].0 == k;
                    if y < j {
                        assert(0 <= y < j && es[i as int].1[y].0 == k);
                    }
                }
            }
            j = j + 1;
        }
        assert forall|k: Seq<char>| #[trigger] acc.map_view().contains_key(k) <==> exists|x: int|
            0 <= x < i + 1 && has_key(#[trigger] es[x].1, k) by {
            if exists|y: int| 0 <= y < m && #[trigger] es[i as int].1[y].0 == k {
                assert(has_key(es[i as int].1, k));
            }
            if exists|x: int| 0 <= x < i + 1 && has_key(#[trigger] es[x].1, k) {
                let x = choose|x: int| 0 <= x < i + 1 && has_key(#[trigger] es[x].1, k);
                if x == i {
                    let y = choose|y: int| 0 <= y < es[x].1.len() && #[trigger] es[x].1[y].0 == k;
                    assert(0 <= y < m && es[i as int].1[y].0 == k);
                } else {
                    assert(0 <= x < i && has_key(es[x].1, k));
                }
            }
        }
        i = i + 1;
    }
    let keys = acc.pairs();
    let total = keys.len();
    let mut out: Vec<String> = Vec::new();
    let mut t: usize = 0;
    while t < total
        invariant
            total == keys@.len(),
            keys.deep_view() == acc@,
            t <= total,
            out.deep_view() == acc@.take(t as int).map_values(|p: (Seq<char>, Seq<Seq<char>>)| p.0),
        decreases total - t,
    {
        let ghost prev = out.deep_view();
        assert(acc@[t as int].0 == keys@[t as int].0@);
        out.push(keys[t].0.clone());
        assert(out.deep_view() =~= prev.push(acc@[t as int].0));
        assert(out.deep_view() =~= acc@.take(t + 1).map_values(|p: (Seq<char>, Seq<Seq<char>>)| p.0));
        t = t + 1;
    }
    let ghost cols = out.deep_view();
    assert(acc@.take(total as int) =~= acc@);
    assert(names_sorted(cols)) by {
        assert forall|a: int, b: int| 0 <= a < b < cols.len() implies str_lt(#[trigger] cols[a], #[trigger] cols[b]) by {
            assert(str_lt(acc@[a].0, acc@[b].0));
        }
    }
    assert(es.len() == n);
    assert(cols.to_set() =~= name_union(es)) by {
        assert forall|k: Seq<char>| #[trigger] cols.to_set().contains(k) <==> name_union(es).contains(k) by {
            if cols.to_set().contains(k) {
                assert(cols.contains(k));
                let a = choose|a: int| 0 <= a < cols.len() && cols[a] == k;
                assert(acc@[a].0 == k);
                assert(has_key(acc@, k));
                assert(acc.map_view().contains_key(k));
                assert(name_union(es).contains(k));
            }
            if name_union(es).contains(k) {
                let x = choose|x: int| 0 <= x < es.len() && has_key(#[trigger] es[x].1, k);
                assert(0 <= x < n && has_key(es[x].1, k));
                assert(acc.map_view().contains_key(k));
                assert(has_key(acc@, k));
                let a = choose|a: int| 0 <= a < acc@.len() && #[trigger] acc@[a].0 == k;
                assert(cols[a] == k);
                assert(cols.contains(k));
            }
        }
    }
    out
}

/// The columns of a table export after `dn`, as `columns_ok` describes.
pub fn column_names(entries: &[LdapEntry], attributes: &[String]) -> (r: Vec<String>)
    requires
        all_wf(entries@),
    ensures
        columns_ok(entries_view(entries@), names_of(attributes@), r.deep_view()),
{
    if attributes.len() == 1 && crate::attrs::compare_str(attributes[0].as_str(), "*") == 0 {
        all_names(entries)
    } else {
        let n = attributes.len();
        let mut out: Vec<String> = Vec::new();
        let mut i: usize = 0;
        while i < n
            invariant
                n == attributes@.len(),
                i <= n,
                out.deep_view() == names_of(attributes@).take(i as int),
            decreases n - i,
        {
            let ghost prev = out.deep_view();
            out.push(attributes[i].clone());
            assert(out.deep_view() =~= prev.push(attributes@[i as int]@));
            assert(out.deep_view() =~= names_of(attributes@).take(i + 1));
            i = i + 1;
        }
        assert(names_of(attributes@).take(n as int) =~= names_of(attributes@));
        out
    }
}

/// The table of `entries` under `columns`: a header row of `dn` and the
/// columns, then one row per entry.
pub fn build_table(entries: &[LdapEntry], columns: &Vec<String>) -> (r: Vec<Vec<String>>)
    ensures
        r.deep_view() == table_of(entries_view(entries@), columns.deep_view()),
{
    let ghost cs = columns.deep_view();
    let ghost es = entries_view(entries@);
    let mut header: Vec<String> = Vec::new();
    header.push(String::from_str("dn"));
    let mut header_rest = columns.clone();
    header.append(&mut header_rest);
    assert(header.deep_view() =~= seq!["dn"@] + cs);
    let mut rows: Vec<Vec<String>> = Vec::new();
    rows.push(header);
    let n = entries.len();
    let mut i: usize = 0;
    while i < n
        invariant
            n == entries@.len(),
            es == entries_view(entries@),
            cs == columns.deep_view(),
            i <= n,
            rows.deep_view() == table_of(es.take(i as int), cs),
        decreases n - i,
    {
        let e = &entries[i];
        let mut row: Vec<String> = Vec::new();
        row.push(e.dn.clone());
        let m = columns.len();
        let mut j: usize = 0;
        while j < m
            invariant
                m == cs.len(),
                cs == columns.deep_view(),
                j <= m,
                row.deep_view() == seq![e.dn@] + cs.take(j as int).map_values(
                    |c: Seq<char>| cell_text(e.attributes@, c),
                ),
            decreases m - j,
        {
            let values = get_values(&e.attributes, columns[j].as_str());
            let cell = join_strings(&values, "|");
            proof {
                reveal_strlit("|");
            }
            assert("|"@ =~= value_separator());
            assert(cs[j as int] == columns@[j as int]@);
            let ghost prev = row.deep_view();
            row.push(cell);
            assert(row.deep_view() =~= prev.push(cell_text(e.attributes@, cs[j as int])));
            assert(row.deep_view() =~= seq![e.dn@] + cs.take(j + 1).map_values(
                |c: Seq<char>| cell_text(e.attributes@, c),
            ));
            j = j + 1;
        }
        assert(cs.take(m as int) =~= cs);
        assert(es[i as int] == e@);
        let ghost prev = rows.deep_view();
        rows.push(row);
        assert(rows.deep_view() =~= prev.push(row_cells(es[i as int], cs)));
        assert(rows.deep_view() =~= table_of(es.take(i + 1), cs));
        i = i + 1;
    }
    assert(es.take(n as int) =~= es);
    rows
}

/// One CSV line of `cells`.
pub fn csv_line_of(cells: &Vec<String>) -> (r: String)
    ensures
        r@ == csv_line(cells.deep_view()),
{
    let ghost fs = cells.deep_view().map_values(|c: Seq<char>| csv_field(c));
    let n = cells.len();
    let mut out = String::new();
    let mut i: usize = 0;
    while i < n
        invariant
            n == cells@.len(),
            fs == cells.deep_view().map_values(|c: Seq<char>| csv_field(c)),
            i <= n,
            out@ == join(fs.take(i as int), seq![',']),
        decreases n - i,
    {
        let ghost t = fs.take(i + 1);
        assert(t.drop_last() =~= fs.take(i as int));
        assert(t.last() == csv_field(cells@[i as int]@));
        if i > 0 {
            proof {
                reveal_strlit(",");
            }
            assert(","@ =~= seq![',']);
            out.append(",");
        } else {
            assert(t.len() == 1);
        }
        let field = csv_quote(cells[i].as_str());
        out.append(field.as_str());
        i = i + 1;
    }
    assert(fs.take(n as int) =~= fs);
    proof {
        reveal_strlit("\n");
    }
    assert("\n"@ =~= seq!['\n']);
    out.append("\n");
    out
}

/// The CSV text of a table: its lines, one after the other.
pub fn csv_from_table(rows: &Vec<Vec<String>>) -> (r: String)
    ensures
        r@ == csv_text(rows.deep_view()),
{
    let n = rows.len();
    let mut out = String::new();
    let mut i: usize = 0;
    while i < n
        invariant
            n == rows@.len(),
            i <= n,
            out@ == csv_text(rows.deep_view().take(i as int)),
        decreases n - i,
    {
        let ghost t = rows.deep_view().take(i + 1);
        assert(t.drop_last() =~= rows.deep_view().take(i as int));
        let line = csv_line_of(&rows[i]);
        out.append(line.as_str());
        i = i + 1;
    }
    assert(rows.deep_view().take(n as int) =~= rows.deep_view());
    out
}

/// The entries, with the requested attributes, as a table: `dn` and the
/// columns that `columns_ok` describes.
pub fn to_table(entries: &[LdapEntry], attributes: &[String]) -> (r: Vec<Vec<String>>)
    requires
        all_wf(entries@),
    ensures
        exists|cols: Seq<Seq<char>>|
            columns_ok(selected_view(entries@, names_of(attributes@)), names_of(attributes@), cols)
                && r.deep_view() == table_of(selected_view(entries@, names_of(attributes@)), cols),
{
    let filtered = filter_entries(entries, attributes);
    assert(entries_view(filtered@) =~= selected_view(entries@, names_of(attributes@)));
    let columns = column_names(filtered.as_slice(), attributes);
    build_table(filtered.as_slice(), &columns)
}

/// The entries, with the requested attributes, as CSV text.
pub fn to_csv(entries: &[LdapEntry], attributes: &[String]) -> (r: String)
    requires
        all_wf(entries@),
    ensures
        exists|cols: Seq<Seq<char>>|
            columns_ok(selected_view(entries@, names_of(attributes@)), names_of(attributes@), cols)
                && r@ == csv_text(table_of(selected_view(entries@, names_of(attributes@)), cols)),
{
    let table = to_table(entries, attributes);
    csv_from_table(&table)
}

} // verus!
