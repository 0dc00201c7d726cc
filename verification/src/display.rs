//! How commands are shown: hidden characters escaped, argument boundaries kept.

use vstd::prelude::*;

use crate::chars::{contains_invisible, is_invisible, is_whitespace, push_unicode_escape};
#[allow(unused_imports)]
use crate::chars::{has_invisible, invisible_char, unicode_escape, whitespace_char};
#[allow(unused_imports)]
use crate::text::joined;

verus! {

/// `text` with each character replaced by what `f` gives for it.
pub open spec fn rewrite(text: Seq<char>, f: spec_fn(char) -> Seq<char>) -> Seq<char>
    decreases text.len(),
{
    if text.len() == 0 {
        Seq::empty()
    } else {
        rewrite(text.drop_last(), f) + f(text.last())
    }
}

/// What is shown for `c` in running text.
pub open spec fn shown_char(c: char) -> Seq<char> {
    if invisible_char(c) {
        unicode_escape(c)
    } else {
        seq![c]
    }
}

/// What is shown for `c` inside a quoted argument.
pub open spec fn quoted_char(c: char) -> Seq<char> {
    if c == '"' {
        seq!['\\', '"']
    } else if c == '\\' {
        seq!['\\', '\\']
    } else {
        shown_char(c)
    }
}

/// `text` with its invisible characters escaped.
pub open spec fn escaped(text: Seq<char>) -> Seq<char> {
    rewrite(text, |c: char| shown_char(c))
}

/// An argument with this character has to be quoted.
pub open spec fn quote_trigger(c: char) -> bool {
    ||| whitespace_char(c)
    ||| invisible_char(c)
    ||| c == '"'
    ||| c == '\\'
}

/// An argument has to be quoted if it is empty or holds a character that could
/// blur where it begins or ends.
pub open spec fn needs_quote(token: Seq<char>) -> bool {
    ||| token.len() == 0
    ||| exists|i: int| 0 <= i < token.len() && quote_trigger(#[trigger] token[i])
}

/// What is shown for one argument.
pub open spec fn argv_token(token: Seq<char>) -> Seq<char> {
    if needs_quote(token) {
        seq!['"'] + rewrite(token, |c: char| quoted_char(c)) + seq!['"']
    } else {
        token
    }
}

/// What is shown for a whole shell command.
pub open spec fn command_text(command: Seq<char>) -> Seq<char> {
    if has_invisible(command) {
        seq!['"'] + escaped(command) + seq!['"']
    } else {
        command
    }
}

/// What is shown for an argument vector.
pub open spec fn argv_text(argv: Seq<Seq<char>>) -> Seq<char> {
    joined(argv.map_values(|token: Seq<char>| argv_token(token)), seq![' '])
}

/// `text` with its invisible characters escaped, or `None` if it has none.
pub fn escape_invisible(text: &str) -> (r: Option<String>)
    ensures
        r is Some <==> has_invisible(text@),
        r matches Some(out) ==> out@ == escaped(text@),
{
    if !contains_invisible(text) {
        return None;
    }
    let mut out = String::new();
    for c in it: text.chars()
        invariant
            it.seq() == text@,
            out@ == escaped(text@.take(it.index() as int)),
    {
        proof {
            let i = it.index() as int;
            assert(text@.take(i + 1).drop_last() =~= text@.take(i));
            assert(text@.take(i + 1).last() == text@[i]);
        }
        if is_invisible(c) {
            push_unicode_escape(&mut out, c);
        } else {
            out.push(c);
            assert(out@ =~= escaped(text@.take(it.index() as int)) + seq![c]);
        }
    }
    assert(text@.take(text@.len() as int) =~= text@);
    Some(out)
}

fn argument_needs_quote(token: &str) -> (r: bool)
    ensures
        r == needs_quote(token@),
{
    if token.is_empty() {
        return true;
    }
    for c in it: token.chars()
        invariant
            it.seq() == token@,
            forall|i: int| 0 <= i < it.index() ==> !quote_trigger(#[trigger] token@[i]),
    {
        if is_whitespace(c) || is_invisible(c) || c == '"' || c == '\\' {
            assert(quote_trigger(token@[it.index() as int]));
            return true;
        }
    }
    false
}

/// A single argument, quoted where its boundary would otherwise be unclear, with
/// embedded quotes, backslashes and hidden characters escaped.
pub fn display_argv_token(token: &str) -> (r: String)
    ensures
        r@ == argv_token(token@),
{
    if !argument_needs_quote(token) {
        return token.to_owned();
    }
    let mut out = String::new();
    out.push('"');
    for c in it: token.chars()
        invariant
            it.seq() == token@,
            out@ == seq!['"'] + rewrite(
                token@.take(it.index() as int),
                |c: char| quoted_char(c),
            ),
    {
        let ghost before = out@;
        proof {
            let i = it.index() as int;
            assert(token@.take(i + 1).drop_last() =~= token@.take(i));
            assert(token@.take(i + 1).last() == token@[i]);
        }
        if c == '"' {
            out.push('\\');
            out.push('"');
        } else if c == '\\' {
            out.push('\\');
            out.push('\\');
        } else if is_invisible(c) {
            push_unicode_escape(&mut out, c);
        } else {
            out.push(c);
        }
        assert(out@ =~= before + quoted_char(c));
        assert(out@ =~= seq!['"'] + rewrite(
            token@.take(it.index() + 1),
            |c: char| quoted_char(c),
        ));
    }
    assert(token@.take(token@.len() as int) =~= token@);
    out.push('"');
    assert(out@ =~= argv_token(token@));
    out
}

/// A whole shell command, escaped only when it hides characters: ordinary spacing
/// is left intact.
pub fn display_command(command: &str) -> (r: String)
    ensures
        r@ == command_text(command@),
        !has_invisible(command@) ==> r@ == command@,
        has_invisible(command@) ==> r@ == seq!['"'] + escaped(command@) + seq!['"'],
{
    match escape_invisible(command) {
        Some(escaped) => {
            let mut out = String::new();
            out.push('"');
            out.append(escaped.as_str());
            out.push('"');
            assert(out@ =~= command_text(command@));
            out
        },
        None => command.to_owned(),
    }
}

} // verus!
