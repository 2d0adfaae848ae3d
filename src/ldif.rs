use vstd::prelude::*;
use vstd::utf8::encode_utf8;

use crate::attrs::AttrPairs;
use crate::csv::join;
use crate::entry::{LdapEntry, all_wf, entries_view};
use crate::export::{filter_entries, names_of};
use crate::json::selected_view;

verus! {

/// The widest a line may be before it is folded.
pub open spec fn line_width() -> int {
    76
}

/// The base64 digits, in order of value.
pub open spec fn b64_alphabet() -> Seq<char> {
    "ABCDEFGHIJKLMNOPQRSTUVWXYZabcdefghijklmnopqrstuvwxyz0123456789+/"@
}

/// The four characters that encode `n` (one to three) bytes.
pub open spec fn b64_group(b0: u8, b1: u8, b2: u8, n: int) -> Seq<char> {
    let c0 = b64_alphabet()[b0 as int / 4];
    let c1 = b64_alphabet()[(b0 as int % 4) * 16 + b1 as int / 16];
    let c2 = if n >= 2 { b64_alphabet()[(b1 as int % 16) * 4 + b2 as int / 64] } else { '=' };
    let c3 = if n >= 3 { b64_alphabet()[b2 as int % 64] } else { '=' };
    seq![c0, c1, c2, c3]
}

/// Standard base64, with padding.
pub open spec fn base64(b: Seq<u8>) -> Seq<char>
    decreases b.len(),
{
    if b.len() == 0 {
        Seq::empty()
    } else if b.len() == 1 {
        b64_group(b[0], 0, 0, 1)
    } else if b.len() == 2 {
        b64_group(b[0], b[1], 0, 2)
    } else {
        b64_group(b[0], b[1], b[2], 3) + base64(b.skip(3))
    }
}

/// A character that may stand as it is in an LDIF value: printable ASCII.
pub open spec fn safe_char(c: char) -> bool {
    ' ' <= c && c <= '~'
}

/// A value that must be written base64-encoded: it holds a character that is
/// not printable ASCII, begins with a space, a colon or `<`, or ends with a
/// space.
pub open spec fn needs_base64(s: Seq<char>) -> bool {
    (exists|i: int| 0 <= i < s.len() && !safe_char(#[trigger] s[i])) || (s.len() > 0 && (s[0]
        == ' ' || s[0] == ':' || s[0] == '<' || s.last() == ' '))
}

/// The line `name: value`, or `name:: base64` of the value's UTF-8 bytes.
pub open spec fn attr_line(name: Seq<char>, value: Seq<char>) -> Seq<char> {
    if needs_base64(value) {
        name + seq![':', ':', ' '] + base64(encode_utf8(value))
    } else {
        name + seq![':', ' '] + value
    }
}

/// What follows the first line of a folded line: pieces of at most
/// `line_width() - 1` characters, each on a line that begins with a space.
pub open spec fn fold_rest(s: Seq<char>) -> Seq<char>
    decreases s.len(),
{
    if s.len() == 0 {
        s
    } else if s.len() <= line_width() - 1 {
        seq!['\n', ' '] + s
    } else {
        seq!['\n', ' '] + s.take(line_width() - 1) + fold_rest(s.skip(line_width() - 1))
    }
}

/// A line folded at `line_width()` characters.
pub open spec fn fold(line: Seq<char>) -> Seq<char> {
    if line.len() <= line_width() {
        line
    } else {
        line.take(line_width()) + fold_rest(line.skip(line_width()))
    }
}

/// The lines of one attribute: one per value, each folded and ended.
pub open spec fn value_lines(name: Seq<char>, values: Seq<Seq<char>>) -> Seq<char>
    decreases values.len(),
{
    if values.len() == 0 {
        Seq::empty()
    } else {
        value_lines(name, values.drop_last()) + fold(attr_line(name, values.last())) + seq!['\n']
    }
}

/// The lines of all attributes, in order.
pub open spec fn attr_lines(pairs: AttrPairs) -> Seq<char>
    decreases pairs.len(),
{
    if pairs.len() == 0 {
        Seq::empty()
    } else {
        attr_lines(pairs.drop_last()) + value_lines(pairs.last().0, pairs.last().1)
    }
}

/// One entry's record: its `dn` line, then its attribute lines.
pub open spec fn record(e: (Seq<char>, AttrPairs)) -> Seq<char> {
    fold(attr_line("dn"@, e.0)) + seq!['\n'] + attr_lines(e.1)
}

/// The records of the entries, a blank line between each two.
pub open spec fn ldif_text(entries: Seq<(Seq<char>, AttrPairs)>) -> Seq<char> {
    join(entries.map_values(|e: (Seq<char>, AttrPairs)| record(e)), seq!['\n'])
}

/// Appends the character at `i` of `s`.
fn append_char_at(out: &mut String, s: &str, i: usize)
    requires
        i < s@.len(),
        i < usize::MAX,
    ensures
        final(out)@ == old(out)@.push(s@[i as int]),
{
    out.append(s.substring_char(i, i + 1));
    assert(s@.subrange(i as int, i + 1) =~= seq![s@[i as int]]);
}

/// Standard base64 of `b`, with padding.
pub fn encode_base64(b: &Vec<u8>) -> (r: String)
    ensures
        r@ == base64(b@),
{
    let alpha = "ABCDEFGHIJKLMNOPQRSTUVWXYZabcdefghijklmnopqrstuvwxyz0123456789+/";
    proof {
        reveal_strlit("ABCDEFGHIJKLMNOPQRSTUVWXYZabcdefghijklmnopqrstuvwxyz0123456789+/");
        reveal_strlit("=");
    }
    let n = b.len();
    let mut out = String::new();
    let mut i: usize = 0;
    assert(b@.skip(0) =~= b@);
    while i < n
        invariant
            n == b@.len(),
            i <= n,
            alpha@ == b64_alphabet(),
            alpha@.len() == 64,
            "="@ == seq!['='],
            out@ + base64(b@.skip(i as int)) == base64(b@),
        decreases n - i,
    {
        let rem = n - i;
        let b0 = b[i];
        let b1: u8 = if rem > 1 { b[i + 1] } else { 0 };
        let b2: u8 = if rem > 2 { b[i + 2] } else { 0 };
        let cnt: usize = if rem >= 3 { 3 } else { rem };
        let ghost before = out@;
        let ghost t = b@.skip(i as int);
        append_char_at(&mut out, alpha, (b0 / 4) as usize);
        append_char_at(&mut out, alpha, ((b0 % 4) as usize) * 16 + (b1 / 16) as usize);
        if cnt >= 2 {
            append_char_at(&mut out, alpha, ((b1 % 16) as usize) * 4 + (b2 / 64) as usize);
        } else {
            out.append("=");
        }
        if cnt >= 3 {
            append_char_at(&mut out, alpha, (b2 % 64) as usize);
        } else {
            out.append("=");
        }
        assert(out@ =~= before + b64_group(b0, b1, b2, cnt as int));
        if cnt == 3 {
            assert(t.skip(3) =~= b@.skip(i + 3));
            assert(base64(t) == b64_group(t[0], t[1], t[2], 3) + base64(t.skip(3)));
            assert(before + base64(t) =~= out@ + base64(b@.skip(i + 3)));
        } else {
            assert(b@.skip(i + cnt) =~= Seq::<u8>::empty());
            assert(out@ + base64(b@.skip(i + cnt)) =~= out@);
        }
        i = i + cnt;
    }
    assert(base64(b@.skip(n as int)) == Seq::<char>::empty());
    assert(out@ + Seq::<char>::empty() =~= out@);
    out
}

/// Whether `s` must be written base64-encoded.
pub fn value_needs_base64(s: &str) -> (r: bool)
    ensures
        r == needs_base64(s@),
{
    let n = s.unicode_len();
    if n == 0 {
        return false;
    }
    let first = s.get_char(0);
    let last = s.get_char(n - 1);
    if first == ' ' || first == ':' || first == '<' || last == ' ' {
        return true;
    }
    let mut i: usize = 0;
    while i < n
        invariant
            n == s@.len(),
            i <= n,
            forall|j: int| 0 <= j < i ==> safe_char(#[trigger] s@[j]),
        decreases n - i,
    {
        let c = s.get_char(i);
        if !(' ' <= c && c <= '~') {
            return true;
        }
        i = i + 1;
    }
    false
}

/// The line for one value of an attribute, before folding.
pub fn attr_line_of(name: &str, value: &str) -> (r: String)
    ensures
        r@ == attr_line(name@, value@),
{
    let mut out = String::from_str(name);
    if value_needs_base64(value) {
        proof {
            reveal_strlit(":: ");
        }
        out.append(":: ");
        let bytes = value.as_bytes_vec();
        let encoded = encode_base64(&bytes);
        out.append(encoded.as_str());
        assert(out@ =~= name@ + seq![':', ':', ' '] + base64(encode_utf8(value@)));
    } else {
        proof {
            reveal_strlit(": ");
        }
        out.append(": ");
        out.append(value);
        assert(out@ =~= name@ + seq![':', ' '] + value@);
    }
    out
}

/// `line` folded at `line_width()` characters.
pub fn fold_line(line: &str) -> (r: String)
    ensures
        r@ == fold(line@),
{
    let n = line.unicode_len();
    if n <= 76 {
        return String::from_str(line);
    }
    let mut out = String::from_str(line.substring_char(0, 76));
    let mut pos: usize = 76;
    assert(line@.subrange(0, 76) =~= line@.take(76));
    while pos < n
        invariant
            n == line@.len(),
            76 <= pos <= n,
            out@ + fold_rest(line@.skip(pos as int)) == fold(line@),
        decreases n - pos,
    {
        let ghost t = line@.skip(pos as int);
        let end: usize = if n - pos <= 75 { n } else { pos + 75 };
        let ghost before = out@;
        proof {
            reveal_strlit("\n ");
        }
        out.append("\n ");
        out.append(line.substring_char(pos, end));
        if n - pos <= 75 {
            assert(line@.subrange(pos as int, end as int) =~= t);
            assert(line@.skip(end as int) =~= Seq::<char>::empty());
            assert(out@ =~= before + fold_rest(t));
        } else {
            assert(line@.subrange(pos as int, end as int) =~= t.take(75));
            assert(t.skip(75) =~= line@.skip(end as int));
            assert(out@ + fold_rest(line@.skip(end as int)) =~= before + fold_rest(t));
        }
        pos = end;
    }
    assert(line@.skip(n as int) =~= Seq::<char>::empty());
    assert(out@ + Seq::<char>::empty() =~= out@);
    out
}

/// Appends the lines of attribute `name`: one per value.
fn append_value_lines(out: &mut String, name: &str, values: &Vec<String>)
    ensures
        final(out)@ == old(out)@ + value_lines(name@, values.deep_view()),
{
    let ghost start = out@;
    let ghost vs = values.deep_view();
    let n = values.len();
    let mut i: usize = 0;
    assert(start + value_lines(name@, vs.take(0)) =~= start);
    while i < n
        invariant
            n == vs.len(),
            vs == values.deep_view(),
            i <= n,
            out@ == start + value_lines(name@, vs.take(i as int)),
        decreases n - i,
    {
        let ghost t = vs.take(i + 1);
        assert(t.drop_last() =~= vs.take(i as int));
        assert(t.last() == values@[i as int]@);
        let line = attr_line_of(name, values[i].as_str());
        let folded = fold_line(line.as_str());
        out.append(folded.as_str());
        proof {
            reveal_strlit("\n");
        }
        out.append("\n");
        assert(out@ =~= start + value_lines(name@, t));
        i = i + 1;
    }
    assert(vs.take(n as int) =~= vs);
}

/// Appends the record of `e`.
fn append_record(out: &mut String, e: &LdapEntry)
    ensures
        final(out)@ == old(out)@ + record(e@),
{
    let ghost start = out@;
    proof {
        reveal_strlit("dn");
        reveal_strlit("\n");
    }
    let dn_line = attr_line_of("dn", e.dn.as_str());
    let folded = fold_line(dn_line.as_str());
    out.append(folded.as_str());
    out.append("\n");
    let ghost head = out@;
    let pairs = e.attributes.pairs();
    let ghost ps = e.attributes@;
    let n = pairs.len();
    let mut i: usize = 0;
    assert(head + attr_lines(ps.take(0)) =~= head);
    while i < n
        invariant
            n == ps.len(),
            pairs.deep_view() == ps,
            i <= n,
            out@ == head + attr_lines(ps.take(i as int)),
        decreases n - i,
    {
        let ghost t = ps.take(i + 1);
        assert(t.drop_last() =~= ps.take(i as int));
        assert(t.last() == (pairs@[i as int].0@, pairs@[i as int].1.deep_view()));
        append_value_lines(out, pairs[i].0.as_str(), &pairs[i].1);
        assert(out@ =~= head + attr_lines(t));
        i = i + 1;
    }
    assert(ps.take(n as int) =~= ps);
    assert(out@ =~= start + record(e@));
}

/// The entries, with the requested attributes, as LDIF text.
pub fn to_ldif(entries: &[LdapEntry], attributes: &[String]) -> (r: String)
    requires
        all_wf(entries@),
    ensures
        r@ == ldif_text(selected_view(entries@, names_of(attributes@))),
{
    let filtered = filter_entries(entries, attributes);
    let ghost es = entries_view(filtered@);
    assert(es =~= selected_view(entries@, names_of(attributes@)));
    let ghost recs = es.map_values(|e: (Seq<char>, AttrPairs)| record(e));
    let n = filtered.len();
    let mut out = String::new();
    let mut i: usize = 0;
    while i < n
        invariant
            n == filtered@.len(),
            es == entries_view(filtered@),
            recs == es.map_values(|e: (Seq<char>, AttrPairs)| record(e)),
            i <= n,
            out@ == join(recs.take(i as int), seq!['\n']),
        decreases n - i,
    {
        let ghost t = recs.take(i + 1);
        assert(t.drop_last() =~= recs.take(i as int));
        assert(t.last() == record(filtered@[i as int]@));
        if i > 0 {
            proof {
                reveal_strlit("\n");
            }
            out.append("\n");
        } else {
            assert(t.len() == 1);
            assert(out@ + record(filtered@[i as int]@) =~= record(filtered@[i as int]@));
        }
        append_record(&mut out, &filtered[i]);
        i = i + 1;
    }
    assert(recs.take(n as int) =~= recs);
    out
}

} // verus!
