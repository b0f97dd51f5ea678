//! The mathematical model of templates: what compiling, rendering and
//! escaping mean on sequences of characters.
use vstd::prelude::*;

use std::cmp::Ordering;

verus! {

/// One element of a compiled template, as a value.
pub enum Piece {
    /// Literal text, emitted as it stands.
    Text(Seq<char>),
    /// The field at this position of the parameter type's field list.
    Field(nat),
}

/// Why a source text does not compile, as a value.
pub enum Fault {
    /// A placeholder names no field of the parameter type.
    UnknownField(Seq<char>),
    /// The text ends inside a placeholder.
    UnclosedPlaceholder,
    /// A `}` stands outside a placeholder and is not part of `}}`.
    UnmatchedClosingBracket,
}

/// The names in a field list, as character sequences.
pub open spec fn names_of(fields: &[&str]) -> Seq<Seq<char>> {
    Seq::new(fields@.len(), |i: int| fields@[i]@)
}

/// The texts in a list of strings, as character sequences.
pub open spec fn texts_of(values: Seq<String>) -> Seq<Seq<char>> {
    values.map_values(|v: String| v@)
}

/// The position of the first entry of `fields` equal to `name`.
pub open spec fn position(fields: Seq<Seq<char>>, name: Seq<char>) -> Option<nat>
    decreases fields.len(),
{
    if fields.len() == 0 {
        None
    } else if fields[0] == name {
        Some(0)
    } else {
        match position(fields.drop_first(), name) {
            Some(k) => Some(k + 1),
            None => None,
        }
    }
}

/// Puts the literal character `c` in front of `pieces`, joining it to a
/// leading text piece.
pub open spec fn cons_char(c: char, pieces: Seq<Piece>) -> Seq<Piece> {
    if pieces.len() > 0 && pieces[0] is Text {
        seq![Piece::Text(seq![c] + pieces[0]->Text_0)] + pieces.drop_first()
    } else {
        seq![Piece::Text(seq![c])] + pieces
    }
}

/// `cons_char` on a successful result; a failure stays as it is.
pub open spec fn with_char(c: char, r: Result<Seq<Piece>, Fault>) -> Result<Seq<Piece>, Fault> {
    match r {
        Ok(pieces) => Ok(cons_char(c, pieces)),
        Err(f) => Err(f),
    }
}

/// Compiles `s` against `fields`: the scanner in its text state.
///
/// `{{` and `}}` stand for one literal brace, `{` opens a placeholder, a lone
/// `}` is an error, and every other character is literal text.
pub open spec fn parse(s: Seq<char>, fields: Seq<Seq<char>>) -> Result<Seq<Piece>, Fault>
    decreases s.len(), 1int,
{
    if s.len() == 0 {
        Ok(seq![])
    } else if s[0] == '{' {
        if s.len() > 1 && s[1] == '{' {
            with_char('{', parse(s.subrange(2, s.len() as int), fields))
        } else {
            parse_name(s.drop_first(), seq![], fields)
        }
    } else if s[0] == '}' {
        if s.len() > 1 && s[1] == '}' {
            with_char('}', parse(s.subrange(2, s.len() as int), fields))
        } else {
            Err(Fault::UnmatchedClosingBracket)
        }
    } else {
        with_char(s[0], parse(s.drop_first(), fields))
    }
}

/// The scanner inside a placeholder, having read `name` so far: every
/// character up to the next `}` belongs to the name.
pub open spec fn parse_name(s: Seq<char>, name: Seq<char>, fields: Seq<Seq<char>>) -> Result<
    Seq<Piece>,
    Fault,
>
    decreases s.len(), 0int,
{
    if s.len() == 0 {
        Err(Fault::UnclosedPlaceholder)
    } else if s[0] == '}' {
        match position(fields, name) {
            None => Err(Fault::UnknownField(name)),
            Some(i) => match parse(s.drop_first(), fields) {
                Ok(rest) => Ok(seq![Piece::Field(i)] + rest),
                Err(f) => Err(f),
            },
        }
    } else {
        parse_name(s.drop_first(), name.push(s[0]), fields)
    }
}

/// A literal character in source form: braces are doubled.
pub open spec fn escape_char(c: char) -> Seq<char> {
    if c == '{' {
        seq!['{', '{']
    } else if c == '}' {
        seq!['}', '}']
    } else {
        seq![c]
    }
}

/// Literal text in source form.
pub open spec fn escape_text(t: Seq<char>) -> Seq<char> {
    t.flat_map(|c: char| escape_char(c))
}

/// One piece in source form: escaped text, or the field's name in braces.
pub open spec fn piece_source(p: Piece, fields: Seq<Seq<char>>) -> Seq<char> {
    match p {
        Piece::Text(t) => escape_text(t),
        Piece::Field(i) => seq!['{'] + fields[i as int] + seq!['}'],
    }
}

/// The canonical source form of a compiled template.
pub open spec fn escape(pieces: Seq<Piece>, fields: Seq<Seq<char>>) -> Seq<char> {
    pieces.flat_map(|p: Piece| piece_source(p, fields))
}

/// One piece rendered with the field texts `values`.
pub open spec fn piece_value(p: Piece, values: Seq<Seq<char>>) -> Seq<char> {
    match p {
        Piece::Text(t) => t,
        Piece::Field(i) => values[i as int],
    }
}

/// A compiled template rendered with the field texts `values`, one for each
/// field of the parameter type.
pub open spec fn fill(pieces: Seq<Piece>, values: Seq<Seq<char>>) -> Seq<char> {
    pieces.flat_map(|p: Piece| piece_value(p, values))
}

/// Two piece sequences one after the other, a trailing and a leading text
/// piece joined into one.
pub open spec fn join(p: Seq<Piece>, q: Seq<Piece>) -> Seq<Piece> {
    if p.len() > 0 && q.len() > 0 && p.last() is Text && q[0] is Text {
        p.drop_last().push(Piece::Text(p.last()->Text_0 + q[0]->Text_0)) + q.drop_first()
    } else {
        p + q
    }
}

/// Lexicographic order of two texts, character by character.
pub open spec fn text_cmp(a: Seq<char>, b: Seq<char>) -> Ordering
    decreases a.len(),
{
    if a.len() == 0 {
        if b.len() == 0 {
            Ordering::Equal
        } else {
            Ordering::Less
        }
    } else if b.len() == 0 {
        Ordering::Greater
    } else if (a[0] as u32) < (b[0] as u32) {
        Ordering::Less
    } else if (a[0] as u32) > (b[0] as u32) {
        Ordering::Greater
    } else {
        text_cmp(a.drop_first(), b.drop_first())
    }
}

/// Order of two pieces: text before fields, then by text or by index.
pub open spec fn piece_cmp(p: Piece, q: Piece) -> Ordering {
    match (p, q) {
        (Piece::Text(a), Piece::Text(b)) => text_cmp(a, b),
        (Piece::Text(_), Piece::Field(_)) => Ordering::Less,
        (Piece::Field(_), Piece::Text(_)) => Ordering::Greater,
        (Piece::Field(i), Piece::Field(j)) => if i < j {
            Ordering::Less
        } else if i > j {
            Ordering::Greater
        } else {
            Ordering::Equal
        },
    }
}

/// Lexicographic order of two piece sequences.
pub open spec fn pieces_cmp(a: Seq<Piece>, b: Seq<Piece>) -> Ordering
    decreases a.len(),
{
    if a.len() == 0 {
        if b.len() == 0 {
            Ordering::Equal
        } else {
            Ordering::Less
        }
    } else if b.len() == 0 {
        Ordering::Greater
    } else if piece_cmp(a[0], b[0]) != Ordering::Equal {
        piece_cmp(a[0], b[0])
    } else {
        pieces_cmp(a.drop_first(), b.drop_first())
    }
}

/// A field name that a placeholder can spell: it holds no `}` and does not
/// start with `{`.
pub open spec fn spellable(name: Seq<char>) -> bool {
    &&& forall|j: int| 0 <= j < name.len() ==> name[j] != '}'
    &&& name.len() > 0 ==> name[0] != '{'
}

/// What every compiled template satisfies against `fields`: text pieces are
/// non-empty and never adjacent, and each field piece names a spellable field
/// that is the first with its name.
pub open spec fn valid(pieces: Seq<Piece>, fields: Seq<Seq<char>>) -> bool {
    &&& forall|k: int|
        0 <= k < pieces.len() && (#[trigger] pieces[k]) is Text ==> pieces[k]->Text_0.len() > 0
    &&& forall|k: int|
        0 <= k < pieces.len() - 1 && (#[trigger] pieces[k]) is Text ==> !(pieces[k + 1] is Text)
    &&& forall|k: int|
        0 <= k < pieces.len() && (#[trigger] pieces[k]) is Field ==> {
            let i = pieces[k]->Field_0;
            &&& i < fields.len()
            &&& spellable(fields[i as int])
            &&& position(fields, fields[i as int]) == Some(i)
        }
}

/// Rendering one more piece appends its value.
pub proof fn lemma_fill_take(pieces: Seq<Piece>, values: Seq<Seq<char>>, k: int)
    requires
        0 <= k < pieces.len(),
    ensures
        fill(pieces.take(k + 1), values) == fill(pieces.take(k), values) + piece_value(pieces[k], values),
{
    pieces.lemma_flat_map_take_append(|p: Piece| piece_value(p, values), k);
}

/// Escaping one more piece appends its source form.
pub proof fn lemma_escape_take(pieces: Seq<Piece>, fields: Seq<Seq<char>>, k: int)
    requires
        0 <= k < pieces.len(),
    ensures
        escape(pieces.take(k + 1), fields) == escape(pieces.take(k), fields) + piece_source(pieces[k], fields),
{
    pieces.lemma_flat_map_take_append(|p: Piece| piece_source(p, fields), k);
}

/// Escaping one more character appends its source form.
pub proof fn lemma_escape_text_take(t: Seq<char>, k: int)
    requires
        0 <= k < t.len(),
    ensures
        escape_text(t.take(k + 1)) == escape_text(t.take(k)) + escape_char(t[k]),
{
    t.lemma_flat_map_take_append(|c: char| escape_char(c), k);
}

} // verus!
