//! The compiler: one pass over the source text, from characters to elements.
use vstd::prelude::*;

use crate::element::{TemplateElement, TemplateError};
use crate::model::{cons_char, names_of, parse, parse_name, position, with_char, Fault, Piece};
use crate::text::{chars_of, push_char};

verus! {

/// The elements of a sequence as pieces.
pub open spec fn pieces_of(elements: Seq<TemplateElement>) -> Seq<Piece> {
    elements.map_values(|e: TemplateElement| e@)
}

/// The outcome of compiling, as a value.
pub open spec fn outcome(r: Result<Vec<TemplateElement>, TemplateError>) -> Result<Seq<Piece>, Fault> {
    match r {
        Ok(v) => Ok(pieces_of(v@)),
        Err(e) => Err(e@),
    }
}

/// The pieces `rest` with the literal text `buf` in front, joined to a
/// leading text piece.
spec fn prepend_text(buf: Seq<char>, rest: Seq<Piece>) -> Seq<Piece> {
    if buf.len() == 0 {
        rest
    } else if rest.len() > 0 && rest[0] is Text {
        seq![Piece::Text(buf + rest[0]->Text_0)] + rest.drop_first()
    } else {
        seq![Piece::Text(buf)] + rest
    }
}

/// The whole result, given the pieces `out` already emitted, the pending
/// literal text `buf`, and the result `r` of the part not yet scanned.
spec fn glue(out: Seq<Piece>, buf: Seq<char>, r: Result<Seq<Piece>, Fault>) -> Result<Seq<Piece>, Fault> {
    match r {
        Ok(rest) => Ok(out + prepend_text(buf, rest)),
        Err(f) => Err(f),
    }
}

proof fn lemma_glue_char(out: Seq<Piece>, buf: Seq<char>, c: char, r: Result<Seq<Piece>, Fault>)
    ensures
        glue(out, buf, with_char(c, r)) == glue(out, buf.push(c), r),
{
    if let Ok(rest) = r {
        let cr = cons_char(c, rest);
        if rest.len() > 0 && rest[0] is Text {
            assert(cr[0]->Text_0 == seq![c] + rest[0]->Text_0);
            assert(buf + (seq![c] + rest[0]->Text_0) =~= buf.push(c) + rest[0]->Text_0);
            assert(cr.drop_first() =~= rest.drop_first());
            if buf.len() == 0 {
                assert(buf.push(c) =~= seq![c]);
                assert(cr =~= seq![Piece::Text(buf.push(c) + rest[0]->Text_0)] + rest.drop_first());
            }
        } else {
            assert(cr.drop_first() =~= rest);
            if buf.len() == 0 {
                assert(buf.push(c) =~= seq![c]);
            } else {
                assert(buf + seq![c] =~= buf.push(c));
            }
        }
    }
}

/// Inside a placeholder, a successful result starts with the field.
proof fn lemma_name_starts_with_field(s: Seq<char>, name: Seq<char>, fields: Seq<Seq<char>>)
    ensures
        parse_name(s, name, fields) matches Ok(rest) ==> rest.len() > 0 && rest[0] is Field,
    decreases s.len(),
{
    if s.len() > 0 && s[0] != '}' {
        lemma_name_starts_with_field(s.drop_first(), name.push(s[0]), fields);
    }
}

/// `position` found by a scan that has passed over `i` entries unequal to `name`.
proof fn lemma_position_scan(fields: Seq<Seq<char>>, name: Seq<char>, i: int)
    requires
        0 <= i <= fields.len(),
        forall|k: int| 0 <= k < i ==> fields[k] != name,
    ensures
        i < fields.len() && fields[i] == name ==> position(fields, name) == Some(i as nat),
        i == fields.len() ==> position(fields, name) is None,
    decreases i,
{
    if i > 0 {
        lemma_position_scan(fields.drop_first(), name, i - 1);
    }
}

/// The index of the first entry of `fields` equal to `name`.
fn find_field(fields: &[&str], name: &String) -> (r: Option<usize>)
    ensures
        r matches Some(i) ==> position(names_of(fields), name@) == Some(i as nat),
        r is None ==> position(names_of(fields), name@) is None,
{
    let ghost names = names_of(fields);
    let mut i: usize = 0;
    while i < fields.len()
        invariant
            i <= fields@.len(),
            names == names_of(fields),
            forall|k: int| 0 <= k < i ==> names[k] != name@,
        decreases fields@.len() - i,
    {
        let f = String::from_str(fields[i]);
        if f == *name {
            proof {
                lemma_position_scan(names, name@, i as int);
            }
            return Some(i);
        }
        i = i + 1;
    }
    proof {
        lemma_position_scan(names, name@, i as int);
    }
    None
}

/// Before a placeholder, the pending text becomes a piece of its own.
proof fn lemma_glue_flush(out: Seq<Piece>, buf: Seq<char>, r: Result<Seq<Piece>, Fault>)
    requires
        r matches Ok(rest) ==> rest.len() > 0 && rest[0] is Field,
    ensures
        buf.len() > 0 ==> glue(out, buf, r) == glue(out.push(Piece::Text(buf)), seq![], r),
        buf.len() == 0 ==> glue(out, buf, r) == glue(out, seq![], r),
{
    if let Ok(rest) = r {
        if buf.len() > 0 {
            assert(out + (seq![Piece::Text(buf)] + rest) =~= out.push(Piece::Text(buf)) + rest);
        }
    }
}

/// A closed placeholder adds its field to the emitted pieces.
proof fn lemma_glue_field(out: Seq<Piece>, i: nat, r: Result<Seq<Piece>, Fault>)
    ensures
        glue(
            out,
            seq![],
            match r {
                Ok(rest) => Ok(seq![Piece::Field(i)] + rest),
                Err(f) => Err(f),
            },
        ) == glue(out.push(Piece::Field(i)), seq![], r),
{
    if let Ok(rest) = r {
        assert(out + (seq![Piece::Field(i)] + rest) =~= out.push(Piece::Field(i)) + rest);
    }
}

pub(crate) proof fn lemma_pieces_push(elements: Seq<TemplateElement>, e: TemplateElement)
    ensures
        pieces_of(elements.push(e)) == pieces_of(elements).push(e@),
{
    assert(pieces_of(elements.push(e)) =~= pieces_of(elements).push(e@));
}

/// Compiles `source` against the field names `fields`.
///
/// `{{` and `}}` stand for literal braces, `{name}` refers to the first field
/// called `name`, and runs of literal text become one text element.
pub fn compile_elements(source: &str, fields: &[&str]) -> (r: Result<Vec<TemplateElement>, TemplateError>)
    ensures
        outcome(r) == parse(source@, names_of(fields)),
{
    let ghost names = names_of(fields);
    let cs = chars_of(source);
    let n = cs.len();
    let mut elements: Vec<TemplateElement> = Vec::new();
    let mut text = String::new();
    let mut i: usize = 0;
    proof {
        assert(cs@.skip(0) =~= cs@);
        assert(pieces_of(elements@) =~= seq![]);
        assert(seq![] + prepend_text(text@, seq![]) =~= prepend_text(text@, seq![]));
        match parse(source@, names) {
            Ok(rest) => { assert(seq![] + rest =~= rest); },
            Err(_) => {},
        }
    }
    while i < n
        invariant
            cs@ == source@,
            n == cs@.len(),
            i <= n,
            names == names_of(fields),
            parse(source@, names) == glue(pieces_of(elements@), text@, parse(cs@.skip(i as int), names)),
        decreases n - i,
    {
        let c = cs[i];
        let ghost rest = cs@.skip(i as int);
        if c == '{' {
            if i + 1 < n && cs[i + 1] == '{' {
                proof {
                    assert(rest.subrange(2, rest.len() as int) =~= cs@.skip(i + 2));
                    lemma_glue_char(pieces_of(elements@), text@, '{', parse(cs@.skip(i + 2), names));
                }
                push_char(&mut text, '{');
                i = i + 2;
            } else {
                proof {
                    assert(rest.drop_first() =~= cs@.skip(i + 1));
                    lemma_name_starts_with_field(cs@.skip(i + 1), seq![], names);
                    lemma_glue_flush(pieces_of(elements@), text@, parse_name(cs@.skip(i + 1), seq![], names));
                }
                if !text.as_str().is_empty() {
                    let ghost before = elements@;
                    elements.push(TemplateElement::Text(text));
                    proof {
                        lemma_pieces_push(before, TemplateElement::Text(text));
                    }
                    text = String::new();
                }
                let mut name = String::new();
                let mut j: usize = i + 1;
                while j < n && cs[j] != '}'
                    invariant
                        cs@ == source@,
                        n == cs@.len(),
                        i < j <= n,
                        names == names_of(fields),
                        text@.len() == 0,
                        parse(source@, names) == glue(pieces_of(elements@), seq![], parse_name(cs@.skip(j as int), name@, names)),
                    decreases n - j,
                {
                    proof {
                        assert(cs@.skip(j as int).drop_first() =~= cs@.skip(j + 1));
                    }
                    push_char(&mut name, cs[j]);
                    j = j + 1;
                }
                if j == n {
                    return Err(TemplateError::UnclosedPlaceholder);
                }
                proof {
                    assert(cs@.skip(j as int).drop_first() =~= cs@.skip(j + 1));
                }
                match find_field(fields, &name) {
                    None => {
                        return Err(TemplateError::UnknownField(name));
                    },
                    Some(index) => {
                        proof {
                            lemma_glue_field(pieces_of(elements@), index as nat, parse(cs@.skip(j + 1), names));
                            lemma_pieces_push(elements@, TemplateElement::Var(index));
                        }
                        elements.push(TemplateElement::Var(index));
                        i = j + 1;
                    },
                }
            }
        } else if c == '}' {
            if i + 1 < n && cs[i + 1] == '}' {
                proof {
                    assert(rest.subrange(2, rest.len() as int) =~= cs@.skip(i + 2));
                    lemma_glue_char(pieces_of(elements@), text@, '}', parse(cs@.skip(i + 2), names));
                }
                push_char(&mut text, '}');
                i = i + 2;
            } else {
                return Err(TemplateError::UnmatchedClosingBracket);
            }
        } else {
            proof {
                assert(rest.drop_first() =~= cs@.skip(i + 1));
                lemma_glue_char(pieces_of(elements@), text@, c, parse(cs@.skip(i + 1), names));
            }
            push_char(&mut text, c);
            i = i + 1;
        }
    }
    proof {
        assert(cs@.skip(i as int) =~= seq![]);
    }
    if !text.as_str().is_empty() {
        let ghost before = elements@;
        elements.push(TemplateElement::Text(text));
        proof {
            lemma_pieces_push(before, TemplateElement::Text(text));
            assert(pieces_of(before) + prepend_text(text@, seq![]) =~= pieces_of(elements@));
        }
    } else {
        proof {
            assert(pieces_of(elements@) + prepend_text(text@, seq![]) =~= pieces_of(elements@));
        }
    }
    Ok(elements)
}

} // verus!
