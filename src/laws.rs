//! What holds of compiling, rendering and escaping, for all inputs.
use vstd::prelude::*;

use crate::element::TemplateError;
use crate::model::{
    cons_char, escape, escape_char, escape_text, fill, parse, parse_name, piece_source, piece_value,
    join, position, spellable, valid, with_char, Fault, Piece,
};
use crate::params::{field_names, field_text, gives_values, TemplateParams};
use crate::template::{compiled, renders_pieces, TemplateString};
use crate::model::lemma_fill_take;

verus! {

/// `position` finds an entry equal to the name.
proof fn lemma_position_found(fields: Seq<Seq<char>>, name: Seq<char>)
    ensures
        position(fields, name) matches Some(i) ==> i < fields.len() && fields[i as int] == name,
    decreases fields.len(),
{
    if fields.len() > 0 && fields[0] != name {
        lemma_position_found(fields.drop_first(), name);
    }
}

/// Joining a literal character to the front keeps a piece sequence valid.
proof fn lemma_cons_char_valid(c: char, pieces: Seq<Piece>, fields: Seq<Seq<char>>)
    requires
        valid(pieces, fields),
    ensures
        valid(cons_char(c, pieces), fields),
{
    let r = cons_char(c, pieces);
    if pieces.len() > 0 && pieces[0] is Text {
        assert forall|k: int| 1 <= k < r.len() implies r[k] == pieces[k] by {}
    } else {
        assert forall|k: int| 1 <= k < r.len() implies r[k] == pieces[k - 1] by {}
    }
}

/// Every successful compilation yields a valid piece sequence.
pub(crate) proof fn lemma_parse_valid(s: Seq<char>, fields: Seq<Seq<char>>)
    ensures
        parse(s, fields) matches Ok(pieces) ==> valid(pieces, fields),
    decreases s.len(), 1int,
{
    if s.len() == 0 {
    } else if s[0] == '{' {
        if s.len() > 1 && s[1] == '{' {
            lemma_parse_valid(s.subrange(2, s.len() as int), fields);
            if let Ok(p) = parse(s.subrange(2, s.len() as int), fields) {
                lemma_cons_char_valid('{', p, fields);
            }
        } else {
            lemma_name_valid(s.drop_first(), seq![], fields);
        }
    } else if s[0] == '}' {
        if s.len() > 1 && s[1] == '}' {
            lemma_parse_valid(s.subrange(2, s.len() as int), fields);
            if let Ok(p) = parse(s.subrange(2, s.len() as int), fields) {
                lemma_cons_char_valid('}', p, fields);
            }
        }
    } else {
        lemma_parse_valid(s.drop_first(), fields);
        if let Ok(p) = parse(s.drop_first(), fields) {
            lemma_cons_char_valid(s[0], p, fields);
        }
    }
}

/// Inside a placeholder whose name so far can still be spelled, every
/// successful result is valid.
proof fn lemma_name_valid(s: Seq<char>, name: Seq<char>, fields: Seq<Seq<char>>)
    requires
        spellable(name),
        name.len() == 0 && s.len() > 0 ==> s[0] != '{',
    ensures
        parse_name(s, name, fields) matches Ok(pieces) ==> valid(pieces, fields),
    decreases s.len(), 0int,
{
    if s.len() == 0 {
    } else if s[0] == '}' {
        lemma_position_found(fields, name);
        lemma_parse_valid(s.drop_first(), fields);
        if let Some(i) = position(fields, name) {
            if let Ok(rest) = parse(s.drop_first(), fields) {
                let r = seq![Piece::Field(i)] + rest;
                assert forall|k: int| 1 <= k < r.len() implies r[k] == rest[k - 1] by {}
            }
        }
    } else {
        let next = name.push(s[0]);
        assert forall|j: int| 0 <= j < next.len() implies next[j] != '}' by {
            if j < name.len() {
                assert(next[j] == name[j]);
            }
        }
        lemma_name_valid(s.drop_first(), next, fields);
    }
}

/// `with_char` applied for each character of `t`, the last one first.
spec fn with_text(t: Seq<char>, r: Result<Seq<Piece>, Fault>) -> Result<Seq<Piece>, Fault>
    decreases t.len(),
{
    if t.len() == 0 {
        r
    } else {
        with_char(t[0], with_text(t.drop_first(), r))
    }
}

proof fn lemma_escape_text_first(t: Seq<char>)
    requires
        t.len() > 0,
    ensures
        escape_text(t) == escape_char(t[0]) + escape_text(t.drop_first()),
{
    let f = |c: char| escape_char(c);
    assert(t.map_values(f).drop_first() =~= t.drop_first().map_values(f));
}

proof fn lemma_escape_first(pieces: Seq<Piece>, fields: Seq<Seq<char>>)
    requires
        pieces.len() > 0,
    ensures
        escape(pieces, fields) == piece_source(pieces[0], fields) + escape(pieces.drop_first(), fields),
{
    let f = |p: Piece| piece_source(p, fields);
    assert(pieces.map_values(f).drop_first() =~= pieces.drop_first().map_values(f));
}

/// Escaped text in front of any source compiles to that text in front of the
/// result.
proof fn lemma_parse_escaped_text(t: Seq<char>, rest: Seq<char>, fields: Seq<Seq<char>>)
    ensures
        parse(escape_text(t) + rest, fields) == with_text(t, parse(rest, fields)),
    decreases t.len(),
{
    if t.len() == 0 {
        assert(escape_text(t) + rest =~= rest);
    } else {
        let c = t[0];
        let y = escape_text(t.drop_first()) + rest;
        lemma_escape_text_first(t);
        lemma_parse_escaped_text(t.drop_first(), rest, fields);
        let s = escape_text(t) + rest;
        assert(s =~= escape_char(c) + y);
        if c == '{' || c == '}' {
            assert(s.subrange(2, s.len() as int) =~= y);
        } else {
            assert(s.drop_first() =~= y);
        }
    }
}

/// Text in front of pieces that do not start with text becomes one text piece.
proof fn lemma_with_text(t: Seq<char>, rest: Seq<Piece>)
    requires
        t.len() > 0,
        rest.len() > 0 ==> !(rest[0] is Text),
    ensures
        with_text(t, Ok(rest)) == Ok::<Seq<Piece>, Fault>(seq![Piece::Text(t)] + rest),
    decreases t.len(),
{
    let c = t[0];
    if t.len() == 1 {
        assert(t =~= seq![c]);
        assert(t.drop_first() =~= seq![]);
    } else {
        lemma_with_text(t.drop_first(), rest);
        let r = seq![Piece::Text(t.drop_first())] + rest;
        assert(r.drop_first() =~= rest);
        assert(seq![c] + t.drop_first() =~= t);
    }
}

/// Inside a placeholder, characters other than `}` join the name.
proof fn lemma_parse_name_read(name: Seq<char>, acc: Seq<char>, rest: Seq<char>, fields: Seq<Seq<char>>)
    requires
        forall|j: int| 0 <= j < name.len() ==> name[j] != '}',
    ensures
        parse_name(name + rest, acc, fields) == parse_name(rest, acc + name, fields),
    decreases name.len(),
{
    if name.len() == 0 {
        assert(name + rest =~= rest);
        assert(acc + name =~= acc);
    } else {
        let s = name + rest;
        assert(s.drop_first() =~= name.drop_first() + rest);
        assert(acc.push(name[0]) + name.drop_first() =~= acc + name);
        lemma_parse_name_read(name.drop_first(), acc.push(name[0]), rest, fields);
    }
}

/// A placeholder naming a spellable field compiles to that field.
proof fn lemma_parse_placeholder(name: Seq<char>, i: nat, tail: Seq<char>, fields: Seq<Seq<char>>)
    requires
        spellable(name),
        position(fields, name) == Some(i),
    ensures
        parse(seq!['{'] + (name + (seq!['}'] + tail)), fields) == match parse(tail, fields) {
            Ok(rest) => Ok(seq![Piece::Field(i)] + rest),
            Err(f) => Err(f),
        },
{
    let s = seq!['{'] + (name + (seq!['}'] + tail));
    assert(s.drop_first() =~= name + (seq!['}'] + tail));
    if name.len() > 0 {
        assert(s[1] == name[0]);
    } else {
        assert(s[1] == '}');
    }
    assert(parse(s, fields) == parse_name(s.drop_first(), seq![], fields));
    lemma_parse_name_read(name, seq![], seq!['}'] + tail, fields);
    assert(seq![] + name =~= name);
    assert((seq!['}'] + tail).drop_first() =~= tail);
}

/// Dropping the first piece keeps a sequence valid.
proof fn lemma_valid_drop_first(pieces: Seq<Piece>, fields: Seq<Seq<char>>)
    requires
        valid(pieces, fields),
        pieces.len() > 0,
    ensures
        valid(pieces.drop_first(), fields),
{
    let r = pieces.drop_first();
    assert forall|k: int| 0 <= k < r.len() implies r[k] == pieces[k + 1] by {}
}

/// Compiling the canonical source form of a valid piece sequence gives back
/// the same pieces.
pub proof fn lemma_escape_parse(pieces: Seq<Piece>, fields: Seq<Seq<char>>)
    requires
        valid(pieces, fields),
    ensures
        parse(escape(pieces, fields), fields) == Ok::<Seq<Piece>, Fault>(pieces),
    decreases pieces.len(),
{
    if pieces.len() == 0 {
        assert(escape(pieces, fields) =~= seq![]);
        assert(pieces =~= seq![]);
    } else {
        let rest = pieces.drop_first();
        lemma_escape_first(pieces, fields);
        lemma_valid_drop_first(pieces, fields);
        lemma_escape_parse(rest, fields);
        let tail = escape(rest, fields);
        match pieces[0] {
            Piece::Text(t) => {
                lemma_parse_escaped_text(t, tail, fields);
                assert(rest.len() > 0 ==> rest[0] == pieces[1]);
                lemma_with_text(t, rest);
                assert(seq![Piece::Text(t)] + rest =~= pieces);
            },
            Piece::Field(i) => {
                let name = fields[i as int];
                assert(escape(pieces, fields) =~= seq!['{'] + (name + (seq!['}'] + tail)));
                assert(pieces[0] is Field);
                lemma_parse_placeholder(name, i, tail, fields);
                assert(seq![Piece::Field(i)] + rest =~= pieces);
            },
        }
    }
}

/// Compiling the canonical source form of a compiled template gives back the
/// same template.
pub proof fn lemma_round_trip(s: Seq<char>, fields: Seq<Seq<char>>)
    requires
        parse(s, fields) is Ok,
    ensures
        parse(escape(parse(s, fields)->Ok_0, fields), fields) == parse(s, fields),
{
    lemma_parse_valid(s, fields);
    lemma_escape_parse(parse(s, fields)->Ok_0, fields);
}

/// Text without braces is its own source form.
proof fn lemma_escape_plain(t: Seq<char>)
    requires
        forall|j: int| 0 <= j < t.len() ==> t[j] != '{' && t[j] != '}',
    ensures
        escape_text(t) == t,
    decreases t.len(),
{
    if t.len() > 0 {
        lemma_escape_text_first(t);
        lemma_escape_plain(t.drop_first());
        assert(escape_char(t[0]) + t.drop_first() =~= t);
    }
}

/// Text without braces compiles, against any field list, to a template that
/// renders as the same text whatever the field values.
pub proof fn lemma_plain_text(t: Seq<char>, fields: Seq<Seq<char>>, values: Seq<Seq<char>>)
    requires
        forall|j: int| 0 <= j < t.len() ==> t[j] != '{' && t[j] != '}',
    ensures
        parse(t, fields) is Ok,
        fill(parse(t, fields)->Ok_0, values) == t,
{
    lemma_escape_plain(t);
    lemma_parse_escaped_text(t, seq![], fields);
    assert(t + seq![] =~= t);
    if t.len() == 0 {
        assert(parse(t, fields) == Ok::<Seq<Piece>, Fault>(seq![]));
        assert(fill(seq![], values) =~= t);
    } else {
        lemma_with_text(t, seq![]);
        let p = seq![Piece::Text(t)];
        assert(seq![Piece::Text(t)] + seq![] =~= p);
        let f = |q: Piece| piece_value(q, values);
        assert(p.map_values(f) =~= seq![t]);
        assert(seq![t].drop_first().flatten() =~= seq![]);
        assert(fill(p, values) =~= t);
    }
}

/// Compiling one source against one parameter type twice gives equal
/// templates, or the same error.
pub proof fn lemma_compile_deterministic<T: TemplateParams>(
    s: Seq<char>,
    a: Result<TemplateString<T>, TemplateError>,
    b: Result<TemplateString<T>, TemplateError>,
)
    requires
        compiled(&a) == parse(s, field_names::<T>()),
        compiled(&b) == parse(s, field_names::<T>()),
    ensures
        a is Ok <==> b is Ok,
        a matches Ok(x) ==> (b matches Ok(y) && x@ == y@),
        a matches Err(e) ==> (b matches Err(f) && e@ == f@),
{
}

/// Escaping a literal character in front of pieces puts its source form in
/// front of theirs.
proof fn lemma_escape_cons_char(c: char, pieces: Seq<Piece>, fields: Seq<Seq<char>>)
    ensures
        escape(cons_char(c, pieces), fields) == escape_char(c) + escape(pieces, fields),
{
    let r = cons_char(c, pieces);
    lemma_escape_first(r, fields);
    if pieces.len() > 0 && pieces[0] is Text {
        let t = pieces[0]->Text_0;
        lemma_escape_first(pieces, fields);
        lemma_escape_text_first(seq![c] + t);
        assert((seq![c] + t).drop_first() =~= t);
        assert(r.drop_first() =~= pieces.drop_first());
        assert(escape_char(c) + escape_text(t) + escape(pieces.drop_first(), fields)
            =~= escape_char(c) + (escape_text(t) + escape(pieces.drop_first(), fields)));
    } else {
        lemma_escape_text_first(seq![c]);
        assert(seq![c].drop_first() =~= seq![]);
        assert(escape_text(seq![]) =~= seq![]);
        assert(r.drop_first() =~= pieces);
        assert(escape_char(c) + seq![] =~= escape_char(c));
    }
}

/// The canonical source form of what a source compiles to is that source.
pub proof fn lemma_parse_escape(s: Seq<char>, fields: Seq<Seq<char>>)
    ensures
        parse(s, fields) matches Ok(pieces) ==> escape(pieces, fields) == s,
    decreases s.len(), 1int,
{
    if s.len() == 0 {
        if let Ok(pieces) = parse(s, fields) {
            assert(pieces =~= seq![]);
            assert(escape(pieces, fields) =~= s);
        }
    } else if (s[0] == '{' || s[0] == '}') && s.len() > 1 && s[1] == s[0] {
        let rest = s.subrange(2, s.len() as int);
        lemma_parse_escape(rest, fields);
        if let Ok(p) = parse(rest, fields) {
            lemma_escape_cons_char(s[0], p, fields);
            assert(escape_char(s[0]) + rest =~= s);
        }
    } else if s[0] == '{' {
        lemma_name_escape(s.drop_first(), seq![], fields);
        assert(seq!['{'] + seq![] + s.drop_first() =~= s);
    } else if s[0] == '}' {
    } else {
        lemma_parse_escape(s.drop_first(), fields);
        if let Ok(p) = parse(s.drop_first(), fields) {
            lemma_escape_cons_char(s[0], p, fields);
            assert(escape_char(s[0]) + s.drop_first() =~= s);
        }
    }
}

/// Inside a placeholder with `name` read so far, a successful result escapes
/// to the placeholder's source from its opening brace on.
proof fn lemma_name_escape(s: Seq<char>, name: Seq<char>, fields: Seq<Seq<char>>)
    ensures
        parse_name(s, name, fields) matches Ok(pieces) ==> escape(pieces, fields) == seq!['{'] + name + s,
    decreases s.len(), 0int,
{
    if s.len() == 0 {
    } else if s[0] == '}' {
        lemma_position_found(fields, name);
        lemma_parse_escape(s.drop_first(), fields);
        if let Ok(pieces) = parse_name(s, name, fields) {
            lemma_escape_first(pieces, fields);
            let rest = parse(s.drop_first(), fields)->Ok_0;
            assert(pieces.drop_first() =~= rest);
            assert(seq!['{'] + name + seq!['}'] + s.drop_first() =~= seq!['{'] + name + s);
        }
    } else {
        lemma_name_escape(s.drop_first(), name.push(s[0]), fields);
        assert(seq!['{'] + name.push(s[0]) + s.drop_first() =~= seq!['{'] + name + s);
    }
}

/// Rendering two templates one after the other renders their concatenation.
pub proof fn lemma_fill_concat(a: Seq<Piece>, b: Seq<Piece>, values: Seq<Seq<char>>)
    ensures
        fill(a + b, values) == fill(a, values) + fill(b, values),
{
    let f = |p: Piece| piece_value(p, values);
    assert((a + b).map_values(f) =~= a.map_values(f) + b.map_values(f));
    vstd::seq_lib::lemma_flatten_concat(a.map_values(f), b.map_values(f));
}

/// The exact rendering, on the first `k` pieces.
proof fn lemma_render_prefix<T: TemplateParams>(
    pieces: Seq<Piece>,
    params: &T,
    parts: Seq<Seq<char>>,
    values: Seq<Seq<char>>,
    k: int,
)
    requires
        0 <= k <= pieces.len(),
        renders_pieces(pieces, params, parts),
        gives_values(params, values),
        forall|m: int|
            0 <= m < pieces.len() && (#[trigger] pieces[m]) is Field ==> pieces[m]->Field_0 < values.len(),
    ensures
        parts.take(k).flatten() == fill(pieces.take(k), values),
    decreases k,
{
    if k == 0 {
        assert(parts.take(0) =~= seq![]);
        assert(pieces.take(0) =~= seq![]);
    } else {
        let j = k - 1;
        lemma_render_prefix(pieces, params, parts, values, j);
        lemma_fill_take(pieces, values, j);
        parts.take(j).lemma_flatten_push(parts[j]);
        assert(parts.take(k) =~= parts.take(j).push(parts[j]));
        match pieces[j] {
            Piece::Text(t) => {},
            Piece::Field(i) => {
                assert(field_text(params, i as int, parts[j]));
                let r = choose|r: String| call_ensures(T::get_field, (params, i as usize), r) && r@ == parts[j];
                assert(r@ == values[i as int]);
            },
        }
    }
}

/// When the value gives `values[i]` as the text of each field `i` that the
/// pieces use, rendering the pieces against it gives `fill` with those texts.
pub proof fn lemma_render_exact<T: TemplateParams>(
    pieces: Seq<Piece>,
    params: &T,
    parts: Seq<Seq<char>>,
    values: Seq<Seq<char>>,
)
    requires
        renders_pieces(pieces, params, parts),
        forall|k: int|
            0 <= k < pieces.len() && (#[trigger] pieces[k]) is Field ==> pieces[k]->Field_0 < values.len(),
        gives_values(params, values),
    ensures
        parts.flatten() == fill(pieces, values),
{
    lemma_render_prefix(pieces, params, parts, values, pieces.len() as int);
    assert(parts.take(pieces.len() as int) =~= parts);
    assert(pieces.take(pieces.len() as int) =~= pieces);
}

proof fn lemma_join_cons_char(c: char, p: Seq<Piece>, q: Seq<Piece>)
    ensures
        join(cons_char(c, p), q) == cons_char(c, join(p, q)),
{
    let cp = cons_char(c, p);
    let jp = join(p, q);
    if p.len() == 0 {
        assert(p + q =~= q);
        if q.len() > 0 && q[0] is Text {
            assert(cp.drop_last() =~= seq![]);
            assert(join(cp, q) =~= cons_char(c, jp));
        } else {
            assert(join(cp, q) =~= cons_char(c, jp));
        }
    } else if p[0] is Text {
        let t = p[0]->Text_0;
        if p.len() == 1 && q.len() > 0 && q[0] is Text {
            assert(seq![c] + t + q[0]->Text_0 =~= seq![c] + (t + q[0]->Text_0));
            assert(join(cp, q) =~= cons_char(c, jp));
        } else if q.len() > 0 && q[0] is Text && p.last() is Text {
            assert(join(cp, q) =~= cons_char(c, jp));
        } else {
            assert(join(cp, q) =~= cons_char(c, jp));
        }
    } else {
        if q.len() > 0 && q[0] is Text && p.last() is Text {
            assert(join(cp, q) =~= cons_char(c, jp));
        } else {
            assert(join(cp, q) =~= cons_char(c, jp));
        }
    }
}

proof fn lemma_join_field(i: nat, r: Seq<Piece>, q: Seq<Piece>)
    ensures
        join(seq![Piece::Field(i)] + r, q) == seq![Piece::Field(i)] + join(r, q),
{
    let p = seq![Piece::Field(i)] + r;
    if r.len() > 0 && q.len() > 0 && r.last() is Text && q[0] is Text {
        assert(p.last() == r.last());
        assert(join(p, q) =~= seq![Piece::Field(i)] + join(r, q));
    } else {
        assert(join(p, q) =~= seq![Piece::Field(i)] + join(r, q));
    }
}

/// Compiling two compilable sources one after the other joins their results.
pub proof fn lemma_parse_concat(a: Seq<char>, b: Seq<char>, fields: Seq<Seq<char>>)
    requires
        parse(a, fields) is Ok,
        parse(b, fields) is Ok,
    ensures
        parse(a + b, fields) == Ok::<Seq<Piece>, Fault>(join(parse(a, fields)->Ok_0, parse(b, fields)->Ok_0)),
    decreases a.len(), 1int,
{
    let q = parse(b, fields)->Ok_0;
    let s = a + b;
    if a.len() == 0 {
        assert(s =~= b);
        assert(join(seq![], q) =~= q);
    } else {
        assert(s[0] == a[0]);
        if a[0] == '{' || a[0] == '}' {
            if a.len() == 1 {
                assert(a.drop_first().len() == 0);
                assert(parse_name(a.drop_first(), seq![], fields) is Err);
            }
            assert(a.len() > 1);
            assert(s[1] == a[1]);
        }
        if (a[0] == '{' || a[0] == '}') && a[1] == a[0] {
            let ra = a.subrange(2, a.len() as int);
            assert(s.subrange(2, s.len() as int) =~= ra + b);
            lemma_parse_concat(ra, b, fields);
            lemma_join_cons_char(a[0], parse(ra, fields)->Ok_0, q);
        } else if a[0] == '{' {
            assert(s.drop_first() =~= a.drop_first() + b);
            lemma_name_concat(a.drop_first(), b, seq![], fields);
        } else {
            assert(s.drop_first() =~= a.drop_first() + b);
            lemma_parse_concat(a.drop_first(), b, fields);
            lemma_join_cons_char(a[0], parse(a.drop_first(), fields)->Ok_0, q);
        }
    }
}

proof fn lemma_name_concat(a: Seq<char>, b: Seq<char>, name: Seq<char>, fields: Seq<Seq<char>>)
    requires
        parse_name(a, name, fields) is Ok,
        parse(b, fields) is Ok,
    ensures
        parse_name(a + b, name, fields) == Ok::<Seq<Piece>, Fault>(
            join(parse_name(a, name, fields)->Ok_0, parse(b, fields)->Ok_0),
        ),
    decreases a.len(), 0int,
{
    let q = parse(b, fields)->Ok_0;
    let s = a + b;
    assert(s[0] == a[0]);
    assert(s.drop_first() =~= a.drop_first() + b);
    if a[0] == '}' {
        lemma_parse_concat(a.drop_first(), b, fields);
        let i = position(fields, name)->Some_0;
        lemma_join_field(i, parse(a.drop_first(), fields)->Ok_0, q);
    } else {
        lemma_name_concat(a.drop_first(), b, name.push(a[0]), fields);
    }
}

/// Rendering joined pieces renders each part in turn.
pub proof fn lemma_fill_join(p: Seq<Piece>, q: Seq<Piece>, values: Seq<Seq<char>>)
    ensures
        fill(join(p, q), values) == fill(p, values) + fill(q, values),
{
    lemma_fill_concat(p, q, values);
    if p.len() > 0 && q.len() > 0 && p.last() is Text && q[0] is Text {
        let t = p.last()->Text_0;
        let u = q[0]->Text_0;
        let head = p.drop_last();
        assert(p =~= head + seq![Piece::Text(t)]);
        assert(q =~= seq![Piece::Text(u)] + q.drop_first());
        lemma_fill_concat(head, seq![Piece::Text(t)], values);
        lemma_fill_concat(seq![Piece::Text(u)], q.drop_first(), values);
        lemma_fill_concat(head, seq![Piece::Text(t + u)], values);
        lemma_fill_concat(head + seq![Piece::Text(t + u)], q.drop_first(), values);
        assert(head.push(Piece::Text(t + u)) =~= head + seq![Piece::Text(t + u)]);
        lemma_fill_single(t, values);
        lemma_fill_single(u, values);
        lemma_fill_single(t + u, values);
    }
}

proof fn lemma_fill_single(t: Seq<char>, values: Seq<Seq<char>>)
    ensures
        fill(seq![Piece::Text(t)], values) == t,
{
    let f = |p: Piece| piece_value(p, values);
    assert(seq![Piece::Text(t)].map_values(f) =~= seq![t]);
    assert(seq![t].drop_first().flatten() =~= seq![]);
    assert(seq![t].flatten() =~= t);
}

/// Compiling two sources one after the other and rendering the result gives
/// the two renderings one after the other.
pub proof fn lemma_render_concat(a: Seq<char>, b: Seq<char>, fields: Seq<Seq<char>>, values: Seq<Seq<char>>)
    requires
        parse(a, fields) is Ok,
        parse(b, fields) is Ok,
    ensures
        parse(a + b, fields) is Ok,
        fill(parse(a + b, fields)->Ok_0, values) == fill(parse(a, fields)->Ok_0, values) + fill(
            parse(b, fields)->Ok_0,
            values,
        ),
{
    lemma_parse_concat(a, b, fields);
    lemma_fill_join(parse(a, fields)->Ok_0, parse(b, fields)->Ok_0, values);
}

} // verus!
