//! Tolerant reading of JSONC (JSON with comments and trailing commas), the
//! format of the editor's `settings.json`: the text is turned into plain JSON
//! by dropping comments (a block comment becomes a single space, a line
//! comment ends at its newline, which is kept) and commas that directly
//! precede a closing `}` or `]`. Text inside strings is never touched.
//! Comments and formatting are not preserved on write.

use vstd::prelude::*;
use crate::text::{chars_of, push_char, trim, trimmed};
use crate::collections::NameMap;
use crate::json::{Json, JsonValue, copy_value, parsed_json, parse_document, lemma_object_model, member_models};
use crate::settings::{Settings, models_of};

verus! {

/// Where the comment scanner is in the text.
#[derive(Clone, Copy, Debug, PartialEq, Eq, Structural)]
pub enum Lex {
    /// Plain JSON text.
    Code,
    /// Just after a `/` in plain text (not yet emitted).
    Slash,
    /// Inside a string.
    Str,
    /// Inside a string, just after a backslash.
    StrEscape,
    /// Inside a `//` comment.
    Line,
    /// Inside a `/* */` comment.
    Block,
    /// Inside a block comment, just after a `*`.
    BlockStar,
}

/// The scanner's next state and the characters it emits on reading `c`.
pub open spec fn lex_step(st: Lex, c: char) -> (Lex, Seq<char>) {
    match st {
        Lex::Code => if c == '/' {
            (Lex::Slash, Seq::empty())
        } else if c == '"' {
            (Lex::Str, seq![c])
        } else {
            (Lex::Code, seq![c])
        },
        Lex::Slash => if c == '/' {
            (Lex::Line, Seq::empty())
        } else if c == '*' {
            (Lex::Block, Seq::empty())
        } else if c == '"' {
            (Lex::Str, seq!['/', c])
        } else {
            (Lex::Code, seq!['/', c])
        },
        Lex::Str => if c == '\\' {
            (Lex::StrEscape, seq![c])
        } else if c == '"' {
            (Lex::Code, seq![c])
        } else {
            (Lex::Str, seq![c])
        },
        Lex::StrEscape => (Lex::Str, seq![c]),
        Lex::Line => if c == '\n' {
            (Lex::Code, seq![c])
        } else {
            (Lex::Line, Seq::empty())
        },
        Lex::Block => if c == '*' {
            (Lex::BlockStar, Seq::empty())
        } else {
            (Lex::Block, Seq::empty())
        },
        Lex::BlockStar => if c == '/' {
            (Lex::Code, seq![' '])
        } else if c == '*' {
            (Lex::BlockStar, Seq::empty())
        } else {
            (Lex::Block, Seq::empty())
        },
    }
}

/// What is emitted at the end of the text: a pending `/`.
pub open spec fn lex_end(st: Lex) -> Seq<char> {
    if st == Lex::Slash {
        seq!['/']
    } else {
        Seq::empty()
    }
}

/// `s` without its comments, scanning from state `st`.
pub open spec fn uncommented(st: Lex, s: Seq<char>) -> Seq<char>
    decreases s.len(),
{
    if s.len() == 0 {
        lex_end(st)
    } else {
        let (next, out) = lex_step(st, s[0]);
        out + uncommented(next, s.drop_first())
    }
}

fn step(st: Lex, c: char, out: &mut String) -> (r: Lex)
    ensures
        r == lex_step(st, c).0,
        final(out)@ == old(out)@ + lex_step(st, c).1,
{
    let ghost start = out@;
    match st {
        Lex::Code => {
            if c == '/' {
                Lex::Slash
            } else {
                push_char(out, c);
                if c == '"' { Lex::Str } else { Lex::Code }
            }
        },
        Lex::Slash => {
            if c == '/' {
                Lex::Line
            } else if c == '*' {
                Lex::Block
            } else {
                push_char(out, '/');
                push_char(out, c);
                proof {
                    assert(out@ =~= start + seq!['/', c]);
                }
                if c == '"' { Lex::Str } else { Lex::Code }
            }
        },
        Lex::Str => {
            push_char(out, c);
            if c == '\\' {
                Lex::StrEscape
            } else if c == '"' {
                Lex::Code
            } else {
                Lex::Str
            }
        },
        Lex::StrEscape => {
            push_char(out, c);
            Lex::Str
        },
        Lex::Line => {
            if c == '\n' {
                push_char(out, c);
                Lex::Code
            } else {
                Lex::Line
            }
        },
        Lex::Block => {
            if c == '*' { Lex::BlockStar } else { Lex::Block }
        },
        Lex::BlockStar => {
            if c == '/' {
                push_char(out, ' ');
                Lex::Code
            } else if c == '*' {
                Lex::BlockStar
            } else {
                Lex::Block
            }
        },
    }
}

/// `text` with its comments dropped.
pub fn strip_comments(text: &str) -> (r: String)
    ensures
        r@ == uncommented(Lex::Code, text@),
{
    let chars = chars_of(text);
    let mut out = String::new();
    let mut st = Lex::Code;
    let mut i: usize = 0;
    proof {
        assert(text@.skip(0) =~= text@);
        assert(out@ + uncommented(st, text@.skip(0)) =~= uncommented(Lex::Code, text@));
    }
    while i < chars.len()
        invariant
            chars@ == text@,
            i <= chars.len(),
            out@ + uncommented(st, text@.skip(i as int)) == uncommented(Lex::Code, text@),
        decreases chars.len() - i,
    {
        let ghost before = out@;
        let ghost st0 = st;
        let ghost rest = text@.skip(i as int);
        proof {
            assert(rest[0] == chars@[i as int]);
            assert(rest.drop_first() =~= text@.skip(i + 1));
        }
        st = step(st, chars[i], &mut out);
        proof {
            let emitted = lex_step(st0, chars@[i as int]).1;
            assert(uncommented(st0, rest) == emitted + uncommented(st, text@.skip(i + 1)));
            assert(out@ + uncommented(st, text@.skip(i + 1)) =~= before + (emitted + uncommented(st, text@.skip(i + 1))));
        }
        i += 1;
    }
    if st == Lex::Slash {
        push_char(&mut out, '/');
    }
    proof {
        assert(text@.skip(chars.len() as int).len() == 0);
    }
    out
}

}

verus! {

/// JSON whitespace.
pub open spec fn is_json_space(c: char) -> bool {
    c == ' ' || c == '\t' || c == '\n' || c == '\r'
}

/// The first character of `s` that is not whitespace.
pub open spec fn next_significant(s: Seq<char>) -> Option<char>
    decreases s.len(),
{
    if s.len() == 0 {
        None
    } else if is_json_space(s[0]) {
        next_significant(s.drop_first())
    } else {
        Some(s[0])
    }
}

/// Whether what follows closes an object or an array.
pub open spec fn closes(s: Seq<char>) -> bool {
    next_significant(s) == Some('}') || next_significant(s) == Some(']')
}

/// Where the comma scanner is in the text.
#[derive(Clone, Copy, Debug, PartialEq, Eq, Structural)]
pub enum Quote {
    Code,
    Str,
    StrEscape,
}

/// `s` without the commas that directly precede a closing `}` or `]`
/// (strings are copied as they are), scanning from state `st`.
pub open spec fn without_trailing_commas(st: Quote, s: Seq<char>) -> Seq<char>
    decreases s.len(),
{
    if s.len() == 0 {
        s
    } else {
        let c = s[0];
        let rest = s.drop_first();
        match st {
            Quote::Code => if c == ',' && closes(rest) {
                without_trailing_commas(Quote::Code, rest)
            } else if c == '"' {
                seq![c] + without_trailing_commas(Quote::Str, rest)
            } else {
                seq![c] + without_trailing_commas(Quote::Code, rest)
            },
            Quote::Str => if c == '\\' {
                seq![c] + without_trailing_commas(Quote::StrEscape, rest)
            } else if c == '"' {
                seq![c] + without_trailing_commas(Quote::Code, rest)
            } else {
                seq![c] + without_trailing_commas(Quote::Str, rest)
            },
            Quote::StrEscape => seq![c] + without_trailing_commas(Quote::Str, rest),
        }
    }
}

proof fn lemma_next_significant(s: Seq<char>, p: int)
    requires
        0 <= p <= s.len(),
        forall|k: int| 0 <= k < p ==> is_json_space(#[trigger] s[k]),
        p == s.len() || !is_json_space(s[p]),
    ensures
        next_significant(s) == if p < s.len() { Some(s[p]) } else { None::<char> },
    decreases p,
{
    if p > 0 {
        let d = s.drop_first();
        assert forall|k: int| 0 <= k < p - 1 implies is_json_space(#[trigger] d[k]) by {
            assert(d[k] == s[k + 1]);
        }
        lemma_next_significant(d, p - 1);
    }
}

fn closes_at(chars: &Vec<char>, from: usize) -> (r: bool)
    requires
        from <= chars.len(),
    ensures
        r == closes(chars@.skip(from as int)),
{
    let mut j: usize = from;
    while j < chars.len() && (chars[j] == ' ' || chars[j] == '\t' || chars[j] == '\n' || chars[j] == '\r')
        invariant
            from <= j <= chars.len(),
            forall|k: int| from <= k < j ==> is_json_space(#[trigger] chars@[k]),
        decreases chars.len() - j,
    {
        j += 1;
    }
    proof {
        let s = chars@.skip(from as int);
        assert forall|k: int| 0 <= k < j - from implies is_json_space(#[trigger] s[k]) by {
            assert(s[k] == chars@[from + k]);
        }
        lemma_next_significant(s, j - from);
    }
    j < chars.len() && (chars[j] == '}' || chars[j] == ']')
}

/// `text` without the commas that directly precede a closing `}` or `]`.
pub fn strip_trailing_commas(text: &str) -> (r: String)
    ensures
        r@ == without_trailing_commas(Quote::Code, text@),
{
    let chars = chars_of(text);
    let mut out = String::new();
    let mut st = Quote::Code;
    let mut i: usize = 0;
    proof {
        assert(text@.skip(0) =~= text@);
        assert(out@ + without_trailing_commas(st, text@.skip(0)) =~= without_trailing_commas(Quote::Code, text@));
    }
    while i < chars.len()
        invariant
            chars@ == text@,
            i <= chars.len(),
            out@ + without_trailing_commas(st, text@.skip(i as int)) == without_trailing_commas(Quote::Code, text@),
        decreases chars.len() - i,
    {
        let c = chars[i];
        let ghost before = out@;
        let ghost st0 = st;
        let ghost rest = text@.skip(i as int);
        proof {
            assert(rest[0] == c);
            assert(rest.drop_first() =~= text@.skip(i + 1));
        }
        match st {
            Quote::Code => {
                if c == ',' && closes_at(&chars, i + 1) {
                } else {
                    push_char(&mut out, c);
                    if c == '"' {
                        st = Quote::Str;
                    }
                }
            },
            Quote::Str => {
                push_char(&mut out, c);
                if c == '\\' {
                    st = Quote::StrEscape;
                } else if c == '"' {
                    st = Quote::Code;
                }
            },
            Quote::StrEscape => {
                push_char(&mut out, c);
                st = Quote::Str;
            },
        }
        proof {
            if out@.len() > before.len() {
                assert(out@ + without_trailing_commas(st, text@.skip(i + 1))
                    =~= before + (seq![c] + without_trailing_commas(st, text@.skip(i + 1))));
            }
        }
        i += 1;
    }
    proof {
        assert(text@.skip(chars.len() as int).len() == 0);
        assert(out@ + without_trailing_commas(st, text@.skip(chars.len() as int)) =~= out@);
    }
    out
}

/// Plain JSON text for a JSONC document: comments dropped, then trailing
/// commas.
pub fn to_json(text: &str) -> (r: String)
    ensures
        r@ == without_trailing_commas(Quote::Code, uncommented(Lex::Code, text@)),
{
    let plain = strip_comments(text);
    strip_trailing_commas(plain.as_str())
}

}

verus! {

// ---------------------------------------------------------------------------
// Reading a settings document
// ---------------------------------------------------------------------------

/// The map an object's members give, a later member replacing an earlier one
/// of the same key.
pub open spec fn members_map(ms: Seq<(Seq<char>, Json)>) -> Map<Seq<char>, Json>
    decreases ms.len(),
{
    if ms.len() == 0 {
        Map::empty()
    } else {
        members_map(ms.drop_last()).insert(ms.last().0, ms.last().1)
    }
}

/// The plain JSON text of a JSONC document.
pub open spec fn plain_json(text: Seq<char>) -> Seq<char> {
    without_trailing_commas(Quote::Code, uncommented(Lex::Code, text))
}

/// The settings a JSONC `settings.json` text holds: none where the text is
/// blank once comments are dropped; `None` where its JSON is not valid or not
/// an object.
pub fn settings_of_text(text: &str) -> (r: Option<Settings>)
    ensures
        trimmed(plain_json(text@)).len() == 0 ==> (r matches Some(m) && m@ == Map::<Seq<char>, JsonValue>::empty()),
        trimmed(plain_json(text@)).len() != 0 ==> match parsed_json(plain_json(text@)) {
            Some(Json::Object(ms)) => r matches Some(m) && models_of(m@) == members_map(ms),
            _ => r is None,
        },
{
    let plain = to_json(text);
    let blank = trim(plain.as_str());
    if blank.as_str().unicode_len() == 0 {
        return Some(NameMap::new());
    }
    let members = match parse_document(plain.as_str()) {
        Some(JsonValue::Object(ms)) => ms,
        _ => return None,
    };
    proof {
        lemma_object_model(members);
    }
    let ghost ms = member_models(members@);
    let mut out: Settings = NameMap::new();
    let mut i: usize = 0;
    proof {
        assert(ms.take(0) =~= Seq::<(Seq<char>, Json)>::empty());
        assert(models_of(out@) =~= members_map(ms.take(0)));
    }
    while i < members.len()
        invariant
            i <= members.len(),
            ms == member_models(members@),
            models_of(out@) == members_map(ms.take(i as int)),
        decreases members.len() - i,
    {
        let ghost before = out@;
        let key = members[i].0.clone();
        let value = copy_value(&members[i].1);
        out.insert(key, value);
        proof {
            assert(ms.take(i + 1).drop_last() =~= ms.take(i as int));
            assert(models_of(out@) =~= models_of(before).insert(ms[i as int].0, ms[i as int].1));
        }
        i += 1;
    }
    proof {
        assert(ms.take(members.len() as int) =~= ms);
    }
    Some(out)
}

}

verus! {

/// Text without any `/` has no comments: outside a comment, reading it emits
/// exactly what was read.
pub proof fn lemma_uncommented_plain(st: Lex, s: Seq<char>)
    requires
        st == Lex::Code || st == Lex::Str || st == Lex::StrEscape,
        forall|i: int| 0 <= i < s.len() ==> s[i] != '/',
    ensures
        uncommented(st, s) == s,
    decreases s.len(),
{
    if s.len() > 0 {
        let d = s.drop_first();
        assert forall|i: int| 0 <= i < d.len() implies d[i] != '/' by {
            assert(d[i] == s[i + 1]);
        }
        let (next, out) = lex_step(st, s[0]);
        lemma_uncommented_plain(next, d);
        assert(out =~= seq![s[0]]);
        assert(s =~= seq![s[0]] + d);
    }
}

/// Text without any `,` keeps every character.
pub proof fn lemma_no_commas_unchanged(st: Quote, s: Seq<char>)
    requires
        forall|i: int| 0 <= i < s.len() ==> s[i] != ',',
    ensures
        without_trailing_commas(st, s) == s,
    decreases s.len(),
{
    if s.len() > 0 {
        let d = s.drop_first();
        assert forall|i: int| 0 <= i < d.len() implies d[i] != ',' by {
            assert(d[i] == s[i + 1]);
        }
        let c = s[0];
        let next = match st {
            Quote::Code => if c == '"' { Quote::Str } else { Quote::Code },
            Quote::Str => if c == '\\' { Quote::StrEscape } else if c == '"' { Quote::Code } else { Quote::Str },
            Quote::StrEscape => Quote::Str,
        };
        lemma_no_commas_unchanged(next, d);
        assert(s =~= seq![c] + d);
    }
}

}
