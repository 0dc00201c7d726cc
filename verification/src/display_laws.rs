//! What holds of every shown command: nothing hidden is left in it, and the
//! arguments can be told apart again.

use vstd::prelude::*;

#[allow(unused_imports)]
use crate::chars::{
    has_invisible, hex, hex_digit, invisible_char, lemma_escape_by_code_point, unicode_escape,
    whitespace_char,
};
#[allow(unused_imports)]
use crate::display::{
    argv_text, argv_token, command_text, escaped, needs_quote, quote_trigger, quoted_char, rewrite,
    shown_char,
};
#[allow(unused_imports)]
use crate::text::{joined, lemma_joined_step};

verus! {

proof fn lemma_hex_digits(n: nat)
    ensures
        hex(n).len() >= 1,
        forall|i: int| 0 <= i < hex(n).len() ==> is_hex_digit(#[trigger] hex(n)[i]),
    decreases n,
{
    if n >= 16 {
        lemma_hex_digits(n / 16);
    }
}

spec fn is_hex_digit(c: char) -> bool {
    48 <= c as u32 <= 57 || 97 <= c as u32 <= 102
}

/// Two numbers that are written alike are equal.
pub proof fn lemma_hex_injective(m: nat, n: nat)
    requires
        hex(m) == hex(n),
    ensures
        m == n,
    decreases m,
{
    assert(hex(m).last() == hex_digit(m % 16));
    assert(hex(n).last() == hex_digit(n % 16));
    assert(m % 16 == n % 16);
    if m >= 16 && n >= 16 {
        assert(hex(m).drop_last() =~= hex(m / 16));
        assert(hex(n).drop_last() =~= hex(n / 16));
        lemma_hex_injective(m / 16, n / 16);
    } else {
        if m >= 16 {
            lemma_hex_digits(m / 16);
        }
        if n >= 16 {
            lemma_hex_digits(n / 16);
        }
    }
}

proof fn lemma_escape_visible(c: char)
    ensures
        !has_invisible(unicode_escape(c)),
{
    lemma_hex_digits(c as nat);
    let e = unicode_escape(c);
    assert forall|i: int| 0 <= i < e.len() implies !invisible_char(#[trigger] e[i]) by {
        if 3 <= i < e.len() - 1 {
            assert(e[i] == hex(c as nat)[i - 3]);
            assert(is_hex_digit(hex(c as nat)[i - 3]));
        }
    }
}

proof fn lemma_visible_concat(a: Seq<char>, b: Seq<char>)
    requires
        !has_invisible(a),
        !has_invisible(b),
    ensures
        !has_invisible(a + b),
{
    assert forall|i: int| 0 <= i < (a + b).len() implies !invisible_char(#[trigger] (a + b)[i]) by {
        if i < a.len() {
            assert(!invisible_char(a[i]));
        } else {
            assert(!invisible_char(b[i - a.len()]));
        }
    }
}

proof fn lemma_rewrite_visible(text: Seq<char>, f: spec_fn(char) -> Seq<char>)
    requires
        forall|c: char| !has_invisible(#[trigger] f(c)),
    ensures
        !has_invisible(rewrite(text, f)),
    decreases text.len(),
{
    if text.len() > 0 {
        lemma_rewrite_visible(text.drop_last(), f);
        lemma_visible_concat(rewrite(text.drop_last(), f), f(text.last()));
    }
}

/// Escaped text holds no invisible character.
pub proof fn lemma_escaped_visible(text: Seq<char>)
    ensures
        !has_invisible(escaped(text)),
{
    assert forall|c: char| !has_invisible(#[trigger] shown_char(c)) by {
        lemma_escape_visible(c);
    }
    lemma_rewrite_visible(text, |c: char| shown_char(c));
}

/// Text without invisible characters is not changed by escaping them.
pub proof fn lemma_escaped_unchanged(text: Seq<char>)
    requires
        !has_invisible(text),
    ensures
        escaped(text) == text,
    decreases text.len(),
{
    if text.len() > 0 {
        let front = text.drop_last();
        assert forall|i: int| 0 <= i < front.len() implies !invisible_char(#[trigger] front[i]) by {
            assert(!invisible_char(text[i]));
        }
        lemma_escaped_unchanged(front);
        assert(!invisible_char(text[text.len() - 1]));
        assert(text =~= front + seq![text.last()]);
    } else {
        assert(escaped(text) =~= text);
    }
}

/// A shown argument holds no invisible character.
pub proof fn lemma_argv_token_visible(token: Seq<char>)
    ensures
        !has_invisible(argv_token(token)),
{
    if needs_quote(token) {
        assert forall|c: char| !has_invisible(#[trigger] quoted_char(c)) by {
            lemma_escape_visible(c);
        }
        let body = rewrite(token, |c: char| quoted_char(c));
        lemma_rewrite_visible(token, |c: char| quoted_char(c));
        lemma_visible_concat(seq!['"'], body);
        lemma_visible_concat(seq!['"'] + body, seq!['"']);
    } else {
        assert forall|i: int| 0 <= i < token.len() implies !invisible_char(#[trigger] token[i]) by {
            assert(!quote_trigger(token[i]));
        }
    }
}

/// A shown command holds no invisible character.
pub proof fn lemma_command_text_visible(command: Seq<char>)
    ensures
        !has_invisible(command_text(command)),
{
    if has_invisible(command) {
        lemma_escaped_visible(command);
        lemma_visible_concat(seq!['"'], escaped(command));
        lemma_visible_concat(seq!['"'] + escaped(command), seq!['"']);
    }
}

/// Showing a command that was already made showable changes nothing.
pub proof fn lemma_command_text_idempotent(command: Seq<char>)
    ensures
        command_text(command_text(command)) == command_text(command),
{
    lemma_command_text_visible(command);
}

proof fn lemma_rewrite_first(text: Seq<char>, f: spec_fn(char) -> Seq<char>)
    requires
        text.len() > 0,
    ensures
        rewrite(text, f) == f(text[0]) + rewrite(text.drop_first(), f),
    decreases text.len(),
{
    if text.len() == 1 {
        assert(rewrite(text.drop_last(), f) =~= Seq::empty());
        assert(rewrite(text.drop_first(), f) =~= Seq::empty());
        assert(rewrite(text, f) =~= f(text[0]) + rewrite(text.drop_first(), f));
    } else {
        lemma_rewrite_first(text.drop_last(), f);
        assert(text.drop_last().drop_first() =~= text.drop_first().drop_last());
        assert(rewrite(text, f) =~= f(text[0]) + rewrite(text.drop_first(), f));
    }
}

/// The escapes inside a quoted argument are told apart from the left.
proof fn lemma_quoted_char_prefix(c: char, d: char, p: Seq<char>, q: Seq<char>)
    requires
        quoted_char(c) + p == quoted_char(d) + q,
    ensures
        c == d,
        p == q,
{
    let x = quoted_char(c) + p;
    let y = quoted_char(d) + q;
    lemma_hex_digits(c as nat);
    lemma_hex_digits(d as nat);
    assert(x[0] == quoted_char(c)[0]);
    assert(y[0] == quoted_char(d)[0]);
    if x[0] != '\\' {
        assert(quoted_char(c) =~= seq![c]);
        assert(quoted_char(d) =~= seq![d]);
    } else {
        assert(x[1] == quoted_char(c)[1]);
        assert(y[1] == quoted_char(d)[1]);
        if x[1] == 'u' {
            let m = hex(c as nat);
            let n = hex(d as nat);
            assert(quoted_char(c) =~= unicode_escape(c));
            assert(quoted_char(d) =~= unicode_escape(d));
            assert(x[3int + m.len()] == '}');
            assert(y[3int + n.len()] == '}');
            if m.len() < n.len() {
                assert(y[3int + m.len()] == n[m.len() as int]);
                assert(is_hex_digit(n[m.len() as int]));
            }
            if n.len() < m.len() {
                assert(x[3int + n.len()] == m[n.len() as int]);
                assert(is_hex_digit(m[n.len() as int]));
            }
            assert(m =~= x.subrange(3, 3int + m.len()));
            assert(n =~= y.subrange(3, 3int + n.len()));
            lemma_hex_injective(c as nat, d as nat);
        }
    }
    assert(quoted_char(c) =~= quoted_char(d));
    assert(p =~= x.skip(quoted_char(c).len() as int));
    assert(q =~= y.skip(quoted_char(d).len() as int));
}

proof fn lemma_quoted_start(c: char)
    ensures
        quoted_char(c).len() > 0,
        quoted_char(c)[0] != '"',
{
}

/// A quoted body is read up to its closing quote.
proof fn lemma_quoted_body_prefix(a: Seq<char>, b: Seq<char>, p: Seq<char>, q: Seq<char>)
    requires
        rewrite(a, |c: char| quoted_char(c)) + seq!['"'] + p == rewrite(
            b,
            |c: char| quoted_char(c),
        ) + seq!['"'] + q,
    ensures
        a == b,
        p == q,
    decreases a.len(),
{
    let f = |c: char| quoted_char(c);
    let x = rewrite(a, f) + seq!['"'] + p;
    let y = rewrite(b, f) + seq!['"'] + q;
    if a.len() > 0 {
        lemma_rewrite_first(a, f);
        lemma_quoted_start(a[0]);
        assert(x[0] == quoted_char(a[0])[0]);
    } else {
        assert(x[0] == '"');
    }
    if b.len() > 0 {
        lemma_rewrite_first(b, f);
        lemma_quoted_start(b[0]);
        assert(y[0] == quoted_char(b[0])[0]);
    } else {
        assert(y[0] == '"');
    }
    if a.len() > 0 {
        let a1 = a.drop_first();
        let b1 = b.drop_first();
        let p1 = rewrite(a1, f) + seq!['"'] + p;
        let q1 = rewrite(b1, f) + seq!['"'] + q;
        assert(x =~= quoted_char(a[0]) + p1);
        assert(y =~= quoted_char(b[0]) + q1);
        lemma_quoted_char_prefix(a[0], b[0], p1, q1);
        lemma_quoted_body_prefix(a1, b1, p, q);
        assert(a =~= seq![a[0]] + a1);
        assert(b =~= seq![b[0]] + b1);
    } else {
        assert(a =~= b);
        assert(p =~= x.skip(1));
        assert(q =~= y.skip(1));
    }
}

/// Nothing, or something that begins with a space.
pub open spec fn at_boundary(rest: Seq<char>) -> bool {
    rest.len() == 0 || rest[0] == ' '
}

/// A shown argument ends where it seems to end: whatever follows it, if that is
/// nothing or begins with a space, the argument and the rest can be read off.
pub proof fn lemma_argv_token_boundary(a: Seq<char>, b: Seq<char>, p: Seq<char>, q: Seq<char>)
    requires
        at_boundary(p),
        at_boundary(q),
        argv_token(a) + p == argv_token(b) + q,
    ensures
        a == b,
        p == q,
{
    let x = argv_token(a) + p;
    let y = argv_token(b) + q;
    assert(x[0] == argv_token(a)[0]);
    assert(y[0] == argv_token(b)[0]);
    assert(!needs_quote(a) ==> !quote_trigger(a[0]));
    assert(!needs_quote(b) ==> !quote_trigger(b[0]));
    assert(needs_quote(a) == (x[0] == '"'));
    assert(needs_quote(b) == (y[0] == '"'));
    if needs_quote(a) {
        let f = |c: char| quoted_char(c);
        assert(x.skip(1) =~= rewrite(a, f) + seq!['"'] + p);
        assert(y.skip(1) =~= rewrite(b, f) + seq!['"'] + q);
        lemma_quoted_body_prefix(a, b, p, q);
    } else {
        assert(quote_trigger(' '));
        if a.len() < b.len() {
            assert(y[a.len() as int] == b[a.len() as int]);
            assert(!quote_trigger(b[a.len() as int]));
            assert(x[a.len() as int] == p[0]);
        }
        if b.len() < a.len() {
            assert(x[b.len() as int] == a[b.len() as int]);
            assert(!quote_trigger(a[b.len() as int]));
            assert(y[b.len() as int] == q[0]);
        }
        assert(a =~= x.take(a.len() as int));
        assert(b =~= y.take(b.len() as int));
        assert(p =~= x.skip(a.len() as int));
        assert(q =~= y.skip(b.len() as int));
    }
}

/// Two arguments that are shown alike are equal.
pub proof fn lemma_argv_token_injective(a: Seq<char>, b: Seq<char>)
    requires
        argv_token(a) == argv_token(b),
    ensures
        a == b,
{
    assert(argv_token(a) + Seq::<char>::empty() =~= argv_token(b) + Seq::<char>::empty());
    lemma_argv_token_boundary(a, b, Seq::empty(), Seq::empty());
}

proof fn lemma_joined_first(parts: Seq<Seq<char>>, separator: Seq<char>)
    requires
        parts.len() >= 2,
    ensures
        joined(parts, separator) == parts[0] + separator + joined(parts.drop_first(), separator),
    decreases parts.len(),
{
    if parts.len() == 2 {
        assert(joined(parts.drop_last(), separator) == parts[0]);
        assert(joined(parts.drop_first(), separator) == parts[1]);
    } else {
        lemma_joined_first(parts.drop_last(), separator);
        assert(parts.drop_last().drop_first() =~= parts.drop_first().drop_last());
        assert(joined(parts, separator) =~= parts[0] + separator + joined(
            parts.drop_first(),
            separator,
        ));
    }
}

/// What is shown for an argument vector with at least one argument begins with its
/// first argument.
proof fn lemma_argv_text_first(argv: Seq<Seq<char>>)
    requires
        argv.len() > 0,
    ensures
        argv.len() == 1 ==> argv_text(argv) == argv_token(argv[0]),
        argv.len() > 1 ==> argv_text(argv) == argv_token(argv[0]) + (seq![' '] + argv_text(
            argv.drop_first(),
        )),
{
    let shown = argv.map_values(|token: Seq<char>| argv_token(token));
    if argv.len() > 1 {
        lemma_joined_first(shown, seq![' ']);
        assert(shown.drop_first() =~= argv.drop_first().map_values(
            |token: Seq<char>| argv_token(token),
        ));
        assert(argv_text(argv) =~= argv_token(argv[0]) + (seq![' '] + argv_text(
            argv.drop_first(),
        )));
    }
}

/// Two argument vectors that are shown alike are equal: the shown text says where
/// each argument begins and ends.
pub proof fn lemma_argv_text_injective(a: Seq<Seq<char>>, b: Seq<Seq<char>>)
    requires
        argv_text(a) == argv_text(b),
    ensures
        a == b,
    decreases a.len(),
{
    let none = Seq::<char>::empty();
    if a.len() > 0 {
        lemma_argv_text_first(a);
        assert(argv_token(a[0]).len() > 0);
    }
    if b.len() > 0 {
        lemma_argv_text_first(b);
        assert(argv_token(b[0]).len() > 0);
    }
    if a.len() > 0 && b.len() > 0 {
        let p = if a.len() == 1 {
            none
        } else {
            seq![' '] + argv_text(a.drop_first())
        };
        let q = if b.len() == 1 {
            none
        } else {
            seq![' '] + argv_text(b.drop_first())
        };
        assert(argv_text(a) =~= argv_token(a[0]) + p);
        assert(argv_text(b) =~= argv_token(b[0]) + q);
        lemma_argv_token_boundary(a[0], b[0], p, q);
        if a.len() > 1 {
            assert(argv_text(a.drop_first()) =~= p.skip(1));
            assert(argv_text(b.drop_first()) =~= q.skip(1));
            lemma_argv_text_injective(a.drop_first(), b.drop_first());
            assert(a =~= seq![a[0]] + a.drop_first());
            assert(b =~= seq![b[0]] + b.drop_first());
        } else {
            assert(a =~= b);
        }
    } else {
        assert(a =~= b);
    }
}

proof fn lemma_rewrite_concat(a: Seq<char>, b: Seq<char>, f: spec_fn(char) -> Seq<char>)
    ensures
        rewrite(a + b, f) == rewrite(a, f) + rewrite(b, f),
    decreases b.len(),
{
    if b.len() == 0 {
        assert(a + b =~= a);
        assert(rewrite(a, f) + rewrite(b, f) =~= rewrite(a, f));
    } else {
        assert((a + b).drop_last() =~= a + b.drop_last());
        assert((a + b).last() == b.last());
        lemma_rewrite_concat(a, b.drop_last(), f);
        assert(rewrite(a + b, f) =~= rewrite(a, f) + rewrite(b, f));
    }
}

proof fn lemma_rewrite_one(c: char, f: spec_fn(char) -> Seq<char>)
    ensures
        rewrite(seq![c], f) == f(c),
{
    assert(seq![c].drop_last() =~= Seq::empty());
    assert(rewrite(Seq::empty(), f) =~= Seq::empty());
    assert(rewrite(seq![c], f) =~= f(c));
}

/// Text is escaped character by character: each invisible one becomes the escape of its
/// code point, every other one stays.
pub proof fn lemma_escaped_by_characters(a: Seq<char>, b: Seq<char>, c: char)
    ensures
        escaped(Seq::empty()) == Seq::<char>::empty(),
        escaped(a + b) == escaped(a) + escaped(b),
        invisible_char(c) ==> escaped(seq![c]) == "\\u{"@ + hex(c as nat) + "}"@,
        !invisible_char(c) ==> escaped(seq![c]) == seq![c],
{
    let f = |c: char| shown_char(c);
    lemma_rewrite_concat(a, b, f);
    lemma_rewrite_one(c, f);
    lemma_escape_by_code_point(c);
}

/// Escaping makes no text shorter.
pub proof fn lemma_escaped_no_shorter(text: Seq<char>)
    ensures
        escaped(text).len() >= text.len(),
    decreases text.len(),
{
    if text.len() > 0 {
        lemma_escaped_no_shorter(text.drop_last());
        lemma_hex_digits(text.last() as nat);
    }
}

/// A command without invisible characters is shown as it is, all of it.
pub proof fn lemma_plain_command_shown_as_is(command: Seq<char>)
    requires
        forall|i: int| 0 <= i < command.len() ==> !invisible_char(#[trigger] command[i]),
    ensures
        command_text(command) == command,
{
}

/// A command with an invisible character is shown between quotes, with the invisible
/// characters escaped and every other character kept.
pub proof fn lemma_hiding_command_shown_quoted(command: Seq<char>, i: int)
    requires
        0 <= i < command.len(),
        invisible_char(command[i]),
    ensures
        command_text(command) == seq!['"'] + escaped(command) + seq!['"'],
        command_text(command).len() >= command.len() + 2,
{
    lemma_escaped_no_shorter(command);
}

/// Nothing of a command is left out when it is shown.
pub proof fn lemma_command_shown_whole(command: Seq<char>)
    ensures
        command_text(command).len() >= command.len(),
        forall|i: int|
            0 <= i < command.len() && !invisible_char(#[trigger] command[i]) ==> command_text(
                command,
            ).contains(command[i]),
{
    lemma_escaped_no_shorter(command);
    assert forall|i: int|
        0 <= i < command.len() && !invisible_char(#[trigger] command[i]) implies command_text(
        command,
    ).contains(command[i]) by {
        if has_invisible(command) {
            let a = command.take(i);
            let b = command.skip(i + 1);
            assert(command =~= a + (seq![command[i]] + b));
            lemma_escaped_by_characters(a, seq![command[i]] + b, command[i]);
            lemma_escaped_by_characters(seq![command[i]], b, command[i]);
            assert(command_text(command)[1int + escaped(a).len()] == command[i]);
        } else {
            assert(command_text(command)[i] == command[i]);
        }
    }
}

/// Two commands without invisible characters that are shown alike are equal.
pub proof fn lemma_plain_commands_told_apart(a: Seq<char>, b: Seq<char>)
    requires
        forall|i: int| 0 <= i < a.len() ==> !invisible_char(#[trigger] a[i]),
        forall|i: int| 0 <= i < b.len() ==> !invisible_char(#[trigger] b[i]),
        command_text(a) == command_text(b),
    ensures
        a == b,
{
}

/// An argument that is not empty and has no white space, no invisible character, no
/// quote and no backslash is shown as it is.
pub proof fn lemma_plain_argument_shown_as_is(token: Seq<char>)
    requires
        token.len() > 0,
        forall|i: int|
            0 <= i < token.len() ==> !whitespace_char(#[trigger] token[i]) && !invisible_char(
                token[i],
            ) && token[i] != '"' && token[i] != '\\',
    ensures
        argv_token(token) == token,
{
    assert forall|i: int| 0 <= i < token.len() implies !quote_trigger(#[trigger] token[i]) by {
        assert(!whitespace_char(token[i]));
    }
}

/// An empty argument is shown as two quotes.
pub proof fn lemma_empty_argument_shown()
    ensures
        argv_token(Seq::empty()) == seq!['"', '"'],
{
    let none = Seq::<char>::empty();
    assert(argv_token(none) =~= seq!['"', '"']);
}

/// The first character that could blur an argument puts it between quotes: before it
/// the argument as it was, then the character, escaped unless it is white space.
pub proof fn lemma_argument_gets_quoted(token: Seq<char>, c: char)
    requires
        forall|i: int|
            0 <= i < token.len() ==> !whitespace_char(#[trigger] token[i]) && !invisible_char(
                token[i],
            ) && token[i] != '"' && token[i] != '\\',
        whitespace_char(c) || invisible_char(c) || c == '"' || c == '\\',
    ensures
        argv_token(token.push(c)) == seq!['"'] + token + (if c == '"' {
            seq!['\\', '"']
        } else if c == '\\' {
            seq!['\\', '\\']
        } else if invisible_char(c) {
            "\\u{"@ + hex(c as nat) + "}"@
        } else {
            seq![c]
        }) + seq!['"'],
{
    let longer = token.push(c);
    assert(longer[token.len() as int] == c);
    assert(quote_trigger(longer[token.len() as int]));
    assert(longer.drop_last() =~= token);
    lemma_escape_by_code_point(c);
    lemma_quoted_plain(token);
}

proof fn lemma_quoted_plain(token: Seq<char>)
    requires
        forall|i: int|
            0 <= i < token.len() ==> !invisible_char(#[trigger] token[i]) && token[i] != '"'
                && token[i] != '\\',
    ensures
        rewrite(token, |c: char| quoted_char(c)) == token,
    decreases token.len(),
{
    if token.len() > 0 {
        let front = token.drop_last();
        assert forall|i: int| 0 <= i < front.len() implies !invisible_char(#[trigger] front[i])
            && front[i] != '"' && front[i] != '\\' by {
            assert(!invisible_char(token[i]));
        }
        lemma_quoted_plain(front);
        assert(!invisible_char(token[token.len() - 1]));
        assert(token =~= front + seq![token.last()]);
    } else {
        assert(rewrite(token, |c: char| quoted_char(c)) =~= token);
    }
}

/// A quoted argument goes on character by character before its closing quote: quotes
/// and backslashes behind a backslash, invisible characters escaped, every other one as
/// it is.
pub proof fn lemma_quoted_argument_goes_on(token: Seq<char>, i: int, c: char)
    requires
        0 <= i < token.len(),
        whitespace_char(token[i]) || invisible_char(token[i]) || token[i] == '"' || token[i]
            == '\\',
    ensures
        argv_token(token.push(c)) == argv_token(token).drop_last() + (if c == '"' {
            seq!['\\', '"']
        } else if c == '\\' {
            seq!['\\', '\\']
        } else if invisible_char(c) {
            "\\u{"@ + hex(c as nat) + "}"@
        } else {
            seq![c]
        }) + seq!['"'],
{
    let f = |c: char| quoted_char(c);
    let longer = token.push(c);
    assert(quote_trigger(token[i]));
    assert(longer[i] == token[i]);
    assert(longer.drop_last() =~= token);
    lemma_escape_by_code_point(c);
    assert(argv_token(token).drop_last() =~= seq!['"'] + rewrite(token, f));
    assert(argv_token(longer) =~= argv_token(token).drop_last() + quoted_char(c) + seq!['"']);
}

/// Arguments are shown one after the other, with a space between neighbours.
pub proof fn lemma_argv_text_step(argv: Seq<Seq<char>>, token: Seq<char>)
    ensures
        argv_text(Seq::empty()) == Seq::<char>::empty(),
        argv_text(seq![token]) == argv_token(token),
        argv.len() > 0 ==> argv_text(argv.push(token)) == argv_text(argv) + seq![' ']
            + argv_token(token),
{
    let f = |token: Seq<char>| argv_token(token);
    let none = Seq::<Seq<char>>::empty();
    assert(none.map_values(f) =~= Seq::empty());
    assert(seq![token].map_values(f) =~= seq![argv_token(token)]);
    assert(argv.push(token).map_values(f) =~= argv.map_values(f).push(argv_token(token)));
    lemma_joined_step(argv.map_values(f), argv_token(token), seq![' ']);
}

} // verus!
