//! The serializer: renders a documentation envelope losslessly into JSON
//! text. The rendering is specified character by character, so the output is
//! pinned to a single byte sequence for each envelope.

use vstd::arithmetic::div_mod::lemma_fundamental_div_mod;
use vstd::prelude::*;
use vstd::string::StrSliceExecFns;

use crate::document::{
    attrs_view, buckets_view, docs_view, stubs_view, Data, DataView, Document, DocumentView,
    Documentation, DocumentationView,
};

verus! {

/// The lowercase hexadecimal digit of a value below sixteen.
pub open spec fn hex_digit(n: int) -> char {
    if n == 0 {
        '0'
    } else if n == 1 {
        '1'
    } else if n == 2 {
        '2'
    } else if n == 3 {
        '3'
    } else if n == 4 {
        '4'
    } else if n == 5 {
        '5'
    } else if n == 6 {
        '6'
    } else if n == 7 {
        '7'
    } else if n == 8 {
        '8'
    } else if n == 9 {
        '9'
    } else if n == 10 {
        'a'
    } else if n == 11 {
        'b'
    } else if n == 12 {
        'c'
    } else if n == 13 {
        'd'
    } else if n == 14 {
        'e'
    } else {
        'f'
    }
}

/// The JSON escape of one character: quotes and backslashes are escaped,
/// common control characters use their short forms, the remaining control
/// characters use a `\u00..` escape, and everything else stands as itself.
pub open spec fn esc_char(c: char) -> Seq<char> {
    if c == '"' {
        seq!['\\', '"']
    } else if c == '\\' {
        seq!['\\', '\\']
    } else if c == '\n' {
        seq!['\\', 'n']
    } else if c == '\r' {
        seq!['\\', 'r']
    } else if c == '\t' {
        seq!['\\', 't']
    } else if (c as u32) < 32 {
        seq!['\\', 'u', '0', '0', hex_digit(c as u32 as int / 16), hex_digit(c as u32 as int % 16)]
    } else {
        seq![c]
    }
}

/// The JSON escape of a whole string body.
pub open spec fn escape(s: Seq<char>) -> Seq<char>
    decreases s.len(),
{
    if s.len() == 0 {
        Seq::empty()
    } else {
        escape(s.drop_last()) + esc_char(s.last())
    }
}

/// A JSON string literal: the escaped body between double quotes.
pub open spec fn quoted(s: Seq<char>) -> Seq<char> {
    seq!['"'] + escape(s) + seq!['"']
}

/// The rendering of one relationship stub.
pub open spec fn render_data(d: DataView) -> Seq<char> {
    "{\"type\":"@ + quoted(d.ty) + ",\"id\":"@ + quoted(d.id) + "}"@
}

/// The comma-separated rendering of a stub sequence.
pub open spec fn render_stubs(ds: Seq<DataView>) -> Seq<char>
    decreases ds.len(),
{
    if ds.len() == 0 {
        Seq::empty()
    } else if ds.len() == 1 {
        render_data(ds[0])
    } else {
        render_stubs(ds.drop_last()) + ","@ + render_data(ds.last())
    }
}

/// The rendering of one attribute entry.
pub open spec fn render_attr(a: (Seq<char>, Seq<char>)) -> Seq<char> {
    quoted(a.0) + ":"@ + quoted(a.1)
}

/// The comma-separated rendering of an attribute table's entries.
pub open spec fn render_attrs(a: Seq<(Seq<char>, Seq<char>)>) -> Seq<char>
    decreases a.len(),
{
    if a.len() == 0 {
        Seq::empty()
    } else if a.len() == 1 {
        render_attr(a[0])
    } else {
        render_attrs(a.drop_last()) + ","@ + render_attr(a.last())
    }
}

/// The rendering of one relationship bucket: its key and its stub array.
pub open spec fn render_bucket(b: (Seq<char>, Seq<DataView>)) -> Seq<char> {
    quoted(b.0) + ":{\"data\":["@ + render_stubs(b.1) + "]}"@
}

/// The comma-separated rendering of a bucket table's entries.
pub open spec fn render_buckets(bs: Seq<(Seq<char>, Seq<DataView>)>) -> Seq<char>
    decreases bs.len(),
{
    if bs.len() == 0 {
        Seq::empty()
    } else if bs.len() == 1 {
        render_bucket(bs[0])
    } else {
        render_buckets(bs.drop_last()) + ","@ + render_bucket(bs.last())
    }
}

/// The rendering of one resource record; the relationships table is written
/// only where it is non-empty, so only on the crate's own record.
pub open spec fn render_doc(d: DocumentView) -> Seq<char> {
    "{\"type\":"@ + quoted(d.ty) + ",\"id\":"@ + quoted(d.id) + ",\"attributes\":{"@
        + render_attrs(d.attributes) + "}"@ + (if d.relationships.len() == 0 {
        Seq::<char>::empty()
    } else {
        ",\"relationships\":{"@ + render_buckets(d.relationships) + "}"@
    }) + "}"@
}

/// The comma-separated rendering of a record sequence.
pub open spec fn render_docs(ds: Seq<DocumentView>) -> Seq<char>
    decreases ds.len(),
{
    if ds.len() == 0 {
        Seq::empty()
    } else if ds.len() == 1 {
        render_doc(ds[0])
    } else {
        render_docs(ds.drop_last()) + ","@ + render_doc(ds.last())
    }
}

/// The rendering of the whole envelope: the crate record under `data`, the
/// symbol records as the `included` array.
pub open spec fn render_envelope(e: DocumentationView) -> Seq<char> {
    "{\"data\":"@ + render_doc(e.data) + ",\"included\":["@ + render_docs(e.included) + "]}"@
}

/// Relies on `String`'s `FromIterator` over `char`: the collected string
/// holds exactly the characters of the vector, in order.
#[verifier::external_body]
fn chars_to_string(v: &Vec<char>) -> (r: String)
    ensures
        r@ == v@,
{
    v.iter().collect()
}

/// The lowercase hexadecimal digit of a value below sixteen.
fn hex_char(n: u32) -> (r: char)
    requires
        n < 16,
    ensures
        r == hex_digit(n as int),
{
    if n == 0 {
        '0'
    } else if n == 1 {
        '1'
    } else if n == 2 {
        '2'
    } else if n == 3 {
        '3'
    } else if n == 4 {
        '4'
    } else if n == 5 {
        '5'
    } else if n == 6 {
        '6'
    } else if n == 7 {
        '7'
    } else if n == 8 {
        '8'
    } else if n == 9 {
        '9'
    } else if n == 10 {
        'a'
    } else if n == 11 {
        'b'
    } else if n == 12 {
        'c'
    } else if n == 13 {
        'd'
    } else if n == 14 {
        'e'
    } else {
        'f'
    }
}

/// Appends the literal characters of `s`.
fn push_lit(out: &mut Vec<char>, s: &str)
    ensures
        final(out)@ == old(out)@ + s@,
{
    let n = s.unicode_len();
    for i in 0..n
        invariant
            n == s@.len(),
            out@ == old(out)@ + s@.take(i as int),
    {
        out.push(s.get_char(i));
        proof {
            assert(s@.take(i + 1 as int).drop_last() =~= s@.take(i as int));
            assert(out@ =~= old(out)@ + s@.take(i + 1 as int));
        }
    }
    proof {
        assert(s@.take(n as int) =~= s@);
    }
}

/// Appends the JSON escape of one character.
fn push_esc_char(out: &mut Vec<char>, c: char)
    ensures
        final(out)@ == old(out)@ + esc_char(c),
{
    if c == '"' {
        out.push('\\');
        out.push('"');
    } else if c == '\\' {
        out.push('\\');
        out.push('\\');
    } else if c == '\n' {
        out.push('\\');
        out.push('n');
    } else if c == '\r' {
        out.push('\\');
        out.push('r');
    } else if c == '\t' {
        out.push('\\');
        out.push('t');
    } else if (c as u32) < 32 {
        out.push('\\');
        out.push('u');
        out.push('0');
        out.push('0');
        out.push(hex_char((c as u32) / 16));
        out.push(hex_char((c as u32) % 16));
    } else {
        out.push(c);
    }
    proof {
        assert(out@ =~= old(out)@ + esc_char(c));
    }
}

/// Appends a JSON string literal holding `s`.
fn push_quoted(out: &mut Vec<char>, s: &str)
    ensures
        final(out)@ == old(out)@ + quoted(s@),
{
    out.push('"');
    let n = s.unicode_len();
    for i in 0..n
        invariant
            n == s@.len(),
            out@ == old(out)@ + seq!['"'] + escape(s@.take(i as int)),
    {
        push_esc_char(out, s.get_char(i));
        proof {
            assert(s@.take(i + 1 as int).drop_last() =~= s@.take(i as int));
            assert(out@ =~= old(out)@ + seq!['"'] + escape(s@.take(i + 1 as int)));
        }
    }
    out.push('"');
    proof {
        assert(s@.take(n as int) =~= s@);
        assert(out@ =~= old(out)@ + quoted(s@));
    }
}

/// Appends the rendering of one relationship stub.
fn push_data(out: &mut Vec<char>, d: &Data)
    ensures
        final(out)@ == old(out)@ + render_data(d@),
{
    push_lit(out, "{\"type\":");
    push_quoted(out, d.ty.as_str());
    push_lit(out, ",\"id\":");
    push_quoted(out, d.id.as_str());
    push_lit(out, "}");
    proof {
        assert(out@ =~= old(out)@ + render_data(d@));
    }
}

/// Appends the comma-separated renderings of a stub table.
fn push_stubs(out: &mut Vec<char>, ds: &Vec<Data>)
    ensures
        final(out)@ == old(out)@ + render_stubs(stubs_view(ds@)),
{
    let ghost v = stubs_view(ds@);
    let n = ds.len();
    for i in 0..n
        invariant
            n == ds.len(),
            v == stubs_view(ds@),
            out@ == old(out)@ + render_stubs(v.take(i as int)),
    {
        if i > 0 {
            push_lit(out, ",");
        }
        push_data(out, &ds[i]);
        proof {
            assert(v.take(i + 1 as int).drop_last() =~= v.take(i as int));
            assert(v.take(i + 1 as int).last() == v[i as int]);
            assert(out@ =~= old(out)@ + render_stubs(v.take(i + 1 as int)));
        }
    }
    proof {
        assert(v.take(n as int) =~= v);
    }
}

/// Appends the comma-separated renderings of an attribute table.
fn push_attrs(out: &mut Vec<char>, attrs: &Vec<(String, String)>)
    ensures
        final(out)@ == old(out)@ + render_attrs(attrs_view(attrs@)),
{
    let ghost v = attrs_view(attrs@);
    let n = attrs.len();
    for i in 0..n
        invariant
            n == attrs.len(),
            v == attrs_view(attrs@),
            out@ == old(out)@ + render_attrs(v.take(i as int)),
    {
        if i > 0 {
            push_lit(out, ",");
        }
        push_quoted(out, attrs[i].0.as_str());
        push_lit(out, ":");
        push_quoted(out, attrs[i].1.as_str());
        proof {
            assert(v.take(i + 1 as int).drop_last() =~= v.take(i as int));
            assert(v.take(i + 1 as int).last() == v[i as int]);
            assert(out@ =~= old(out)@ + render_attrs(v.take(i + 1 as int)));
        }
    }
    proof {
        assert(v.take(n as int) =~= v);
    }
}

/// Appends the comma-separated renderings of a bucket table.
#[verifier::rlimit(50)]
fn push_buckets(out: &mut Vec<char>, buckets: &Vec<(String, Vec<Data>)>)
    ensures
        final(out)@ == old(out)@ + render_buckets(buckets_view(buckets@)),
{
    let ghost v = buckets_view(buckets@);
    let n = buckets.len();
    for i in 0..n
        invariant
            n == buckets.len(),
            v == buckets_view(buckets@),
            out@ == old(out)@ + render_buckets(v.take(i as int)),
    {
        if i > 0 {
            push_lit(out, ",");
        }
        push_quoted(out, buckets[i].0.as_str());
        push_lit(out, ":{\"data\":[");
        push_stubs(out, &buckets[i].1);
        push_lit(out, "]}");
        proof {
            assert(v.take(i + 1 as int).drop_last() =~= v.take(i as int));
            assert(v.take(i + 1 as int).last() == v[i as int]);
            assert(out@ =~= old(out)@ + render_buckets(v.take(i + 1 as int)));
        }
    }
    proof {
        assert(v.take(n as int) =~= v);
    }
}

/// Appends the rendering of one resource record.
#[verifier::rlimit(50)]
fn push_doc(out: &mut Vec<char>, d: &Document)
    ensures
        final(out)@ == old(out)@ + render_doc(d@),
{
    push_lit(out, "{\"type\":");
    push_quoted(out, d.ty.as_str());
    push_lit(out, ",\"id\":");
    push_quoted(out, d.id.as_str());
    push_lit(out, ",\"attributes\":{");
    push_attrs(out, &d.attributes);
    push_lit(out, "}");
    if d.relationships.len() > 0 {
        push_lit(out, ",\"relationships\":{");
        push_buckets(out, &d.relationships);
        push_lit(out, "}");
    }
    push_lit(out, "}");
    proof {
        assert(out@ =~= old(out)@ + render_doc(d@));
    }
}

/// Appends the comma-separated renderings of a record table.
#[verifier::rlimit(50)]
fn push_docs(out: &mut Vec<char>, ds: &Vec<Document>)
    ensures
        final(out)@ == old(out)@ + render_docs(docs_view(ds@)),
{
    let ghost v = docs_view(ds@);
    let n = ds.len();
    for i in 0..n
        invariant
            n == ds.len(),
            v == docs_view(ds@),
            out@ == old(out)@ + render_docs(v.take(i as int)),
    {
        if i > 0 {
            push_lit(out, ",");
        }
        push_doc(out, &ds[i]);
        proof {
            assert(v.take(i + 1 as int).drop_last() =~= v.take(i as int));
            assert(v.take(i + 1 as int).last() == v[i as int]);
            assert(out@ =~= old(out)@ + render_docs(v.take(i + 1 as int)));
        }
    }
    proof {
        assert(v.take(n as int) =~= v);
    }
}

/// Renders the envelope to its JSON text: a faithful, lossless rendering
/// whose every character is pinned by [`render_envelope`].
pub fn render(doc: &Documentation) -> (r: String)
    ensures
        r@ == render_envelope(doc@),
{
    let mut out: Vec<char> = Vec::new();
    push_lit(&mut out, "{\"data\":");
    push_doc(&mut out, &doc.data);
    push_lit(&mut out, ",\"included\":[");
    push_docs(&mut out, &doc.included);
    push_lit(&mut out, "]}");
    proof {
        assert(out@ =~= render_envelope(doc@));
    }
    chars_to_string(&out)
}

} // verus!

verus! {

/// The value of a lowercase hexadecimal digit, or a negative value for any
/// other character.
pub open spec fn hex_val(c: char) -> int {
    if c == '0' {
        0
    } else if c == '1' {
        1
    } else if c == '2' {
        2
    } else if c == '3' {
        3
    } else if c == '4' {
        4
    } else if c == '5' {
        5
    } else if c == '6' {
        6
    } else if c == '7' {
        7
    } else if c == '8' {
        8
    } else if c == '9' {
        9
    } else if c == 'a' {
        10
    } else if c == 'b' {
        11
    } else if c == 'c' {
        12
    } else if c == 'd' {
        13
    } else if c == 'e' {
        14
    } else if c == 'f' {
        15
    } else {
        -1
    }
}

/// A character is recovered from its own code point.
proof fn lemma_char_code_round(c: char)
    ensures
        (((c as u32) as int) as char) == c,
{
}

/// Reading a hexadecimal digit back gives the value it was written from.
proof fn lemma_hex_round(n: int)
    requires
        0 <= n < 16,
    ensures
        hex_val(hex_digit(n)) == n,
{
}

/// Reads an escaped string body back: the parser that inverts [`escape`].
/// Text that no escape could have produced (a dangling or unknown backslash
/// escape) reads as nothing.
pub open spec fn unescape(t: Seq<char>) -> Option<Seq<char>>
    decreases t.len(),
{
    if t.len() == 0 {
        Some(Seq::empty())
    } else if t[0] == '\\' {
        if t.len() >= 2 && (t[1] == '"' || t[1] == '\\' || t[1] == 'n' || t[1] == 'r' || t[1]
            == 't') {
            let c = if t[1] == '"' {
                '"'
            } else if t[1] == '\\' {
                '\\'
            } else if t[1] == 'n' {
                '\n'
            } else if t[1] == 'r' {
                '\r'
            } else {
                '\t'
            };
            match unescape(t.skip(2)) {
                Some(r) => Some(seq![c] + r),
                None => None,
            }
        } else if t.len() >= 6 && t[1] == 'u' && t[2] == '0' && t[3] == '0' && hex_val(t[4]) >= 0
            && hex_val(t[5]) >= 0 {
            let c = (hex_val(t[4]) * 16 + hex_val(t[5])) as char;
            match unescape(t.skip(6)) {
                Some(r) => Some(seq![c] + r),
                None => None,
            }
        } else {
            None
        }
    } else {
        match unescape(t.skip(1)) {
            Some(r) => Some(seq![t[0]] + r),
            None => None,
        }
    }
}

/// The escape of a non-empty body is the escape of its first character
/// followed by the escape of the rest.
proof fn lemma_escape_cons(s: Seq<char>)
    requires
        s.len() > 0,
    ensures
        escape(s) == esc_char(s[0]) + escape(s.drop_first()),
    decreases s.len(),
{
    if s.len() == 1 {
        assert(s.drop_last() =~= Seq::<char>::empty());
        assert(s.drop_first() =~= Seq::<char>::empty());
        assert(escape(s) =~= esc_char(s[0]) + escape(s.drop_first()));
    } else {
        lemma_escape_cons(s.drop_last());
        assert(s.drop_last().drop_first() =~= s.drop_first().drop_last());
        assert(s.drop_first().last() == s.last());
        assert(s.drop_last()[0] == s[0]);
        assert(escape(s) =~= esc_char(s[0]) + escape(s.drop_first()));
    }
}

/// Law: escaping is lossless: reading the escaped body back yields exactly
/// the original characters. Together with the fixed shape of the surrounding
/// rendering, a compatible reader reconstructs the envelope's content.
pub proof fn lemma_unescape_escape(s: Seq<char>)
    ensures
        unescape(escape(s)) == Some(s),
    decreases s.len(),
{
    if s.len() == 0 {
        assert(escape(s) =~= Seq::<char>::empty());
    } else {
        lemma_unescape_escape(s.drop_first());
        lemma_escape_cons(s);
        let c = s[0];
        let t = escape(s);
        let rest = escape(s.drop_first());
        if c == '"' || c == '\\' || c == '\n' || c == '\r' || c == '\t' {
            assert(t[0] == '\\');
            assert(t.skip(2) =~= rest);
            assert(seq![c] + s.drop_first() =~= s);
        } else if (c as u32) < 32 {
            let code = (c as u32) as int;
            assert(t[0] == '\\' && t[1] == 'u' && t[2] == '0' && t[3] == '0');
            assert(t[4] == hex_digit(code / 16));
            assert(t[5] == hex_digit(code % 16));
            lemma_hex_round(code / 16);
            lemma_hex_round(code % 16);
            lemma_fundamental_div_mod(code, 16);
            assert(hex_val(t[4]) * 16 + hex_val(t[5]) == code);
            lemma_char_code_round(c);
            assert((code as char) == c);
            assert(t.skip(6) =~= rest);
            assert(seq![c] + s.drop_first() =~= s);
        } else {
            assert(t[0] == c);
            assert(t.skip(1) =~= rest);
            assert(seq![c] + s.drop_first() =~= s);
        }
    }
}

} // verus!
