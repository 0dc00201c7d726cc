//! What holds of the warnings of every recipe.

use vstd::prelude::*;

#[allow(unused_imports)]
use crate::chars::{has_invisible, has_tag, invisible_char, tag_char};
#[allow(unused_imports)]
use crate::display::{argv_text, argv_token, command_text};
#[allow(unused_imports)]
use crate::display_laws::{
    lemma_argv_text_injective, lemma_argv_token_visible, lemma_command_text_visible,
};
use crate::extension::ExtensionConfig;
#[allow(unused_imports)]
use crate::injection::{bare_platform, completed, extended_by, missing_analyze, missing_summon};
use crate::recipe::Recipe;
#[allow(unused_imports)]
use crate::security::{extension_field, hides_tags, reviewed_text};
#[allow(unused_imports)]
use crate::order::precedes;
#[allow(unused_imports)]
use crate::string_map::{
    lemma_listing, lemma_listing_smallest_first, lemma_listing_unique, lemma_map_of_keys, listing,
    map_of,
};
#[allow(unused_imports)]
use crate::text::{joined, views};
#[allow(unused_imports)]
use crate::warnings::{
    assignment, command_line, command_parts, directory_prefix, extension_warning,
    extension_warnings, opt_view, recipe_warnings, shell_warnings, warning_texts, WarningText,
};
use crate::warnings::RecipeCommandWarning;

verus! {

/// The recipe runs a command: an extension starts a program, or a retry has a check
/// or a command after a failure.
pub open spec fn runs_commands(recipe: Recipe) -> bool {
    ||| exists|i: int|
        0 <= i < recipe.extension_list().len() && (#[trigger] recipe.extension_list()[i]) is Stdio
    ||| recipe.retry matches Some(retry) && (retry.checks@.len() > 0 || retry.on_failure is Some)
}

proof fn lemma_extension_warnings_empty(extensions: Seq<ExtensionConfig>)
    ensures
        extension_warnings(extensions).len() == 0 <==> forall|i: int|
            0 <= i < extensions.len() ==> !((#[trigger] extensions[i]) is Stdio),
    decreases extensions.len(),
{
    if extensions.len() > 0 {
        let front = extensions.drop_last();
        lemma_extension_warnings_empty(front);
        assert(extensions[extensions.len() - 1] == extensions.last());
        assert(forall|i: int| 0 <= i < front.len() ==> #[trigger] extensions[i] == front[i]);
        if extension_warnings(front).len() != 0 {
            let i = choose|i: int| 0 <= i < front.len() && (#[trigger] front[i]) is Stdio;
            assert(extensions[i] is Stdio);
        }
    }
}

/// A recipe has warnings exactly if it runs a command.
pub proof fn lemma_warned_iff_runs_commands(recipe: Recipe)
    ensures
        recipe_warnings(recipe).len() > 0 <==> runs_commands(recipe),
{
    lemma_extension_warnings_empty(recipe.extension_list());
}

proof fn lemma_extension_is_warned(extensions: Seq<ExtensionConfig>, i: int)
    requires
        0 <= i < extensions.len(),
        extensions[i] is Stdio,
    ensures
        extension_warnings(extensions).contains(extension_warning(extensions[i])[0]),
    decreases extensions.len(),
{
    let front = extension_warnings(extensions.drop_last());
    let all = extension_warnings(extensions);
    if i < extensions.len() - 1 {
        lemma_extension_is_warned(extensions.drop_last(), i);
        let warning = extension_warning(extensions[i])[0];
        let j = choose|j: int| 0 <= j < front.len() && front[j] == warning;
        assert(all[j] == warning);
    } else {
        assert(all[front.len() as int] == extension_warning(extensions[i])[0]);
    }
}

/// No command goes unmentioned: each extension that starts a program, each check of a
/// retry and the command after a failure has its warning.
pub proof fn lemma_every_command_is_warned(recipe: Recipe)
    ensures
        forall|i: int|
            0 <= i < recipe.extension_list().len() && (#[trigger] recipe.extension_list()[i]) is Stdio
                ==> recipe_warnings(recipe).contains(
                extension_warning(recipe.extension_list()[i])[0],
            ),
        forall|i: int|
            0 <= i < recipe.check_texts().len() ==> recipe_warnings(recipe).contains(
                (WarningText {
                    source: "retry check"@,
                    command: command_text(#[trigger] recipe.check_texts()[i]),
                }),
            ),
        forall|i: int|
            0 <= i < recipe.failure_texts().len() ==> recipe_warnings(recipe).contains(
                (WarningText {
                    source: "retry on_failure"@,
                    command: command_text(#[trigger] recipe.failure_texts()[i]),
                }),
            ),
{
    let all = recipe_warnings(recipe);
    let a = extension_warnings(recipe.extension_list());
    let b = shell_warnings("retry check"@, recipe.check_texts());
    let c = shell_warnings("retry on_failure"@, recipe.failure_texts());
    assert forall|i: int|
        0 <= i < recipe.extension_list().len() && (#[trigger] recipe.extension_list()[i])
            is Stdio implies all.contains(extension_warning(recipe.extension_list()[i])[0]) by {
        lemma_extension_is_warned(recipe.extension_list(), i);
        let warning = extension_warning(recipe.extension_list()[i])[0];
        let j = choose|j: int| 0 <= j < a.len() && a[j] == warning;
        assert(all[j] == warning);
    }
    assert forall|i: int| 0 <= i < recipe.check_texts().len() implies all.contains(
        (WarningText {
            source: "retry check"@,
            command: command_text(#[trigger] recipe.check_texts()[i]),
        }),
    ) by {
        assert(all[a.len() + i] == b[i]);
    }
    assert forall|i: int| 0 <= i < recipe.failure_texts().len() implies all.contains(
        (WarningText {
            source: "retry on_failure"@,
            command: command_text(#[trigger] recipe.failure_texts()[i]),
        }),
    ) by {
        assert(all[a.len() + b.len() + i] == c[i]);
    }
}

proof fn lemma_extended_warnings(
    before: Seq<ExtensionConfig>,
    names: Seq<Seq<char>>,
    after: Seq<ExtensionConfig>,
)
    requires
        extended_by(before, names, after),
    ensures
        extension_warnings(after) == extension_warnings(before),
    decreases names.len(),
{
    if names.len() == 0 {
        assert(after.take(before.len() as int) =~= after);
    } else {
        let last = names.len() - 1;
        assert(bare_platform(after[before.len() + last], names[last]));
        let fewer = names.drop_last();
        let front = after.drop_last();
        assert(front.take(before.len() as int) =~= after.take(before.len() as int));
        assert forall|i: int| 0 <= i < fewer.len() implies bare_platform(
            front[before.len() + i],
            #[trigger] fewer[i],
        ) by {
            assert(bare_platform(after[before.len() + i], names[i]));
        }
        lemma_extended_warnings(before, fewer, front);
        assert(after.last() == after[before.len() + last]);
        assert(extension_warnings(after) =~= extension_warnings(front));
    }
}

/// The extensions that complete a recipe bring no warnings.
pub proof fn lemma_completed_keeps_warnings(before: Recipe, after: Recipe)
    requires
        completed(before, after),
    ensures
        recipe_warnings(after) == recipe_warnings(before),
{
    lemma_extended_warnings(
        before.extension_list(),
        missing_analyze(before) + missing_summon(before),
        after.extension_list(),
    );
}

/// The extensions that complete a recipe hide nothing.
pub proof fn lemma_completed_keeps_verdict(before: Recipe, after: Recipe)
    requires
        completed(before, after),
    ensures
        hides_tags(after) == hides_tags(before),
{
    let names = missing_analyze(before) + missing_summon(before);
    let x = before.extension_list();
    let y = after.extension_list();
    assert forall|i: int| 0 <= i < x.len() implies x[i] == #[trigger] y[i] by {
        assert(y.take(x.len() as int)[i] == y[i]);
    }
    assert forall|text: Seq<char>| #[trigger] reviewed_text(before, text) == reviewed_text(
        after,
        text,
    ) by {
        if exists|i: int| 0 <= i < y.len() && extension_field(#[trigger] y[i], text) {
            let i = choose|i: int| 0 <= i < y.len() && extension_field(#[trigger] y[i], text);
            if i >= x.len() {
                assert(bare_platform(y[x.len() + (i - x.len())], names[i - x.len()]));
            }
            assert(extension_field(x[i], text));
        }
        if exists|i: int| 0 <= i < x.len() && extension_field(#[trigger] x[i], text) {
            let i = choose|i: int| 0 <= i < x.len() && extension_field(#[trigger] x[i], text);
            assert(extension_field(y[i], text));
        }
    }
    if hides_tags(before) {
        let text = choose|text: Seq<char>| #[trigger] reviewed_text(before, text) && has_tag(text);
        assert(reviewed_text(after, text) && has_tag(text));
    }
    if hides_tags(after) {
        let text = choose|text: Seq<char>| #[trigger] reviewed_text(after, text) && has_tag(text);
        assert(reviewed_text(before, text) && has_tag(text));
    }
}

proof fn lemma_joined_concat(a: Seq<Seq<char>>, b: Seq<Seq<char>>, separator: Seq<char>)
    requires
        a.len() > 0,
        b.len() > 0,
    ensures
        joined(a + b, separator) == joined(a, separator) + separator + joined(b, separator),
    decreases b.len(),
{
    let all = a + b;
    if b.len() == 1 {
        assert(all.drop_last() =~= a);
        assert(all.last() == b[0]);
    } else {
        assert(all.drop_last() =~= a + b.drop_last());
        assert(all.last() == b.last());
        lemma_joined_concat(a, b.drop_last(), separator);
        assert(joined(all, separator) =~= joined(a, separator) + separator + joined(b, separator));
    }
}

/// What is shown in front of the argument vector of a command line.
spec fn line_prefix(envs: Map<Seq<char>, Seq<char>>, cwd: Option<Seq<char>>) -> Seq<char> {
    let assignments = listing(envs).map_values(|pair: (Seq<char>, Seq<char>)| assignment(pair));
    directory_prefix(cwd) + if assignments.len() == 0 {
        Seq::empty()
    } else {
        joined(assignments, " "@) + " "@
    }
}

proof fn lemma_command_line_split(
    envs: Map<Seq<char>, Seq<char>>,
    cmd: Seq<char>,
    args: Seq<Seq<char>>,
    cwd: Option<Seq<char>>,
)
    ensures
        command_line(envs, cmd, args, cwd) == line_prefix(envs, cwd) + argv_text(
            seq![cmd] + args,
        ),
{
    reveal_strlit(" ");
    assert(" "@ =~= seq![' ']);
    let assignments = listing(envs).map_values(|pair: (Seq<char>, Seq<char>)| assignment(pair));
    let shown = (seq![cmd] + args).map_values(|token: Seq<char>| argv_token(token));
    assert(shown =~= seq![argv_token(cmd)] + args.map_values(|arg: Seq<char>| argv_token(arg)));
    assert(command_parts(envs, cmd, args) =~= assignments + shown);
    if assignments.len() > 0 {
        lemma_joined_concat(assignments, shown, " "@);
    } else {
        assert(command_parts(envs, cmd, args) =~= shown);
    }
    assert(command_line(envs, cmd, args, cwd) =~= line_prefix(envs, cwd) + argv_text(
        seq![cmd] + args,
    ));
}

/// Two command lines with the same environment and working directory that are shown
/// alike run the same command with the same arguments.
pub proof fn lemma_command_line_unambiguous(
    envs: Map<Seq<char>, Seq<char>>,
    cwd: Option<Seq<char>>,
    cmd1: Seq<char>,
    args1: Seq<Seq<char>>,
    cmd2: Seq<char>,
    args2: Seq<Seq<char>>,
)
    requires
        command_line(envs, cmd1, args1, cwd) == command_line(envs, cmd2, args2, cwd),
    ensures
        cmd1 == cmd2,
        args1 == args2,
{
    lemma_command_line_split(envs, cmd1, args1, cwd);
    lemma_command_line_split(envs, cmd2, args2, cwd);
    let prefix = line_prefix(envs, cwd);
    let a = seq![cmd1] + args1;
    let b = seq![cmd2] + args2;
    let n = prefix.len() as int;
    assert(argv_text(a) =~= (prefix + argv_text(a)).skip(n));
    assert(argv_text(b) =~= (prefix + argv_text(b)).skip(n));
    lemma_argv_text_injective(a, b);
    assert(a[0] == cmd1 && b[0] == cmd2);
    assert(args1 =~= a.drop_first());
    assert(args2 =~= b.drop_first());
}

/// No character of `text` is in the class.
spec fn lacks(text: Seq<char>, class: spec_fn(char) -> bool) -> bool {
    forall|i: int| 0 <= i < text.len() ==> !class(#[trigger] text[i])
}

proof fn lemma_lacks_concat(a: Seq<char>, b: Seq<char>, class: spec_fn(char) -> bool)
    requires
        lacks(a, class),
        lacks(b, class),
    ensures
        lacks(a + b, class),
{
}

proof fn lemma_lacks_joined(
    parts: Seq<Seq<char>>,
    separator: Seq<char>,
    class: spec_fn(char) -> bool,
)
    requires
        forall|i: int| 0 <= i < parts.len() ==> lacks(#[trigger] parts[i], class),
        lacks(separator, class),
    ensures
        lacks(joined(parts, separator), class),
    decreases parts.len(),
{
    if parts.len() > 1 {
        lemma_lacks_joined(parts.drop_last(), separator, class);
        assert(lacks(parts[parts.len() - 1], class));
    }
}

/// A class of characters none of which is shown as it is.
spec fn hidden_class(class: spec_fn(char) -> bool) -> bool {
    forall|c: char| #[trigger] class(c) ==> invisible_char(c)
}

proof fn lemma_token_lacks(token: Seq<char>, class: spec_fn(char) -> bool)
    requires
        hidden_class(class),
    ensures
        lacks(argv_token(token), class),
{
    lemma_argv_token_visible(token);
    assert forall|i: int| 0 <= i < argv_token(token).len() implies !class(
        #[trigger] argv_token(token)[i],
    ) by {
        assert(!invisible_char(argv_token(token)[i]));
    }
}

proof fn lemma_command_line_lacks(
    entries: Seq<(Seq<char>, Seq<char>)>,
    cmd: Seq<char>,
    args: Seq<Seq<char>>,
    cwd: Option<Seq<char>>,
    class: spec_fn(char) -> bool,
)
    requires
        hidden_class(class),
        forall|key: Seq<char>| #[trigger]
            map_of(entries).dom().contains(key) ==> lacks(key, class),
    ensures
        lacks(command_line(map_of(entries), cmd, args, cwd), class),
{
    reveal_strlit(" ");
    reveal_strlit("(cwd: ");
    reveal_strlit(") ");
    let envs = map_of(entries);
    lemma_listing(entries);
    let parts = command_parts(envs, cmd, args);
    let n = listing(envs).len();
    assert forall|i: int| 0 <= i < parts.len() implies lacks(#[trigger] parts[i], class) by {
        if i < n {
            let pair = listing(envs)[i];
            lemma_map_of_keys(listing(envs), pair.0);
            assert(envs.dom().contains(pair.0));
            lemma_token_lacks(pair.1, class);
            assert(parts[i] == assignment(pair));
            assert(lacks(seq!['='], class));
            lemma_lacks_concat(pair.0, seq!['='], class);
            lemma_lacks_concat(pair.0 + seq!['='], argv_token(pair.1), class);
        } else if i == n {
            assert(parts[i] == argv_token(cmd));
            lemma_token_lacks(cmd, class);
        } else {
            assert(parts[i] == argv_token(args[i - n - 1]));
            lemma_token_lacks(args[i - n - 1], class);
        }
    }
    lemma_lacks_joined(parts, " "@, class);
    if let Some(dir) = cwd {
        lemma_token_lacks(dir, class);
        lemma_lacks_concat("(cwd: "@, argv_token(dir), class);
        lemma_lacks_concat("(cwd: "@ + argv_token(dir), ") "@, class);
    }
    lemma_lacks_concat(directory_prefix(cwd), joined(parts, " "@), class);
}

/// The names of the environment variables of an extension lack the class.
spec fn names_lack(extension: ExtensionConfig, class: spec_fn(char) -> bool) -> bool {
    extension matches ExtensionConfig::Stdio { envs, .. } ==> forall|key: Seq<char>| #[trigger]
        envs@.dom().contains(key) ==> lacks(key, class)
}

proof fn lemma_extension_warnings_lack(
    extensions: Seq<ExtensionConfig>,
    class: spec_fn(char) -> bool,
)
    requires
        hidden_class(class),
        forall|i: int| 0 <= i < extensions.len() ==> names_lack(#[trigger] extensions[i], class),
    ensures
        forall|i: int|
            0 <= i < extension_warnings(extensions).len() ==> lacks(
                (#[trigger] extension_warnings(extensions)[i]).command,
                class,
            ),
    decreases extensions.len(),
{
    if extensions.len() > 0 {
        let last = extensions[extensions.len() - 1];
        assert(names_lack(last, class));
        lemma_extension_warnings_lack(extensions.drop_last(), class);
        if let ExtensionConfig::Stdio { name, cmd, args, envs, cwd, .. } = last {
            assert(envs@ == map_of(envs.entries()));
            lemma_command_line_lacks(envs.entries(), cmd@, views(args@), opt_view(cwd), class);
        }
        let front = extension_warnings(extensions.drop_last());
        assert forall|i: int| 0 <= i < extension_warnings(extensions).len() implies lacks(
            (#[trigger] extension_warnings(extensions)[i]).command,
            class,
        ) by {
            if i < front.len() {
                assert(extension_warnings(extensions)[i] == front[i]);
            }
        }
    }
}

proof fn lemma_recipe_warnings_lack(recipe: Recipe, class: spec_fn(char) -> bool)
    requires
        hidden_class(class),
        forall|i: int|
            0 <= i < recipe.extension_list().len() ==> names_lack(
                #[trigger] recipe.extension_list()[i],
                class,
            ),
    ensures
        forall|i: int|
            0 <= i < recipe_warnings(recipe).len() ==> lacks(
                (#[trigger] recipe_warnings(recipe)[i]).command,
                class,
            ),
{
    let a = extension_warnings(recipe.extension_list());
    let b = shell_warnings("retry check"@, recipe.check_texts());
    let c = shell_warnings("retry on_failure"@, recipe.failure_texts());
    lemma_extension_warnings_lack(recipe.extension_list(), class);
    assert forall|i: int| 0 <= i < recipe_warnings(recipe).len() implies lacks(
        (#[trigger] recipe_warnings(recipe)[i]).command,
        class,
    ) by {
        let w = recipe_warnings(recipe)[i];
        if i < a.len() {
            assert(w == a[i]);
        } else {
            let command = if i < a.len() + b.len() {
                recipe.check_texts()[i - a.len()]
            } else {
                recipe.failure_texts()[i - a.len() - b.len()]
            };
            lemma_command_text_visible(command);
            assert forall|j: int| 0 <= j < w.command.len() implies !class(
                #[trigger] w.command[j],
            ) by {
                assert(!invisible_char(w.command[j]));
            }
        }
    }
}

/// The extension starts a program with an environment variable of this name.
pub open spec fn sets_variable(extension: ExtensionConfig, name: Seq<char>) -> bool {
    extension matches ExtensionConfig::Stdio { envs, .. } && envs@.dom().contains(name)
}

/// A shown command holds no invisible character, unless it stands in the name of an
/// environment variable: names are shown as they are.
pub proof fn lemma_warnings_visible(recipe: Recipe)
    requires
        forall|i: int, name: Seq<char>|
            0 <= i < recipe.extension_list().len() && #[trigger] sets_variable(
                recipe.extension_list()[i],
                name,
            ) ==> !has_invisible(name),
    ensures
        forall|i: int|
            0 <= i < recipe_warnings(recipe).len() ==> !has_invisible(
                (#[trigger] recipe_warnings(recipe)[i]).command,
            ),
{
    let class = |c: char| invisible_char(c);
    assert forall|i: int| 0 <= i < recipe.extension_list().len() implies names_lack(
        #[trigger] recipe.extension_list()[i],
        class,
    ) by {
        if let ExtensionConfig::Stdio { envs, .. } = recipe.extension_list()[i] {
            assert forall|key: Seq<char>| #[trigger] envs@.dom().contains(key) implies lacks(
                key,
                class,
            ) by {
                assert(sets_variable(recipe.extension_list()[i], key));
                assert(!has_invisible(key));
            }
        }
    }
    lemma_recipe_warnings_lack(recipe, class);
    assert forall|i: int| 0 <= i < recipe_warnings(recipe).len() implies !has_invisible(
        (#[trigger] recipe_warnings(recipe)[i]).command,
    ) by {
        let command = recipe_warnings(recipe)[i].command;
        assert(lacks(command, class));
        assert forall|j: int| 0 <= j < command.len() implies !invisible_char(
            #[trigger] command[j],
        ) by {
            assert(!class(command[j]));
        }
    }
}

/// A recipe in which the check finds no hidden tag character shows none in its
/// commands.
pub proof fn lemma_unflagged_commands_untagged(recipe: Recipe)
    requires
        !hides_tags(recipe),
    ensures
        forall|i: int|
            0 <= i < recipe_warnings(recipe).len() ==> !has_tag(
                (#[trigger] recipe_warnings(recipe)[i]).command,
            ),
{
    let class = |c: char| tag_char(c);
    assert forall|i: int| 0 <= i < recipe.extension_list().len() implies names_lack(
        #[trigger] recipe.extension_list()[i],
        class,
    ) by {
        if let ExtensionConfig::Stdio { envs, .. } = recipe.extension_list()[i] {
            assert forall|key: Seq<char>| #[trigger] envs@.dom().contains(key) implies lacks(
                key,
                class,
            ) by {
                assert(extension_field(recipe.extension_list()[i], key));
                assert(reviewed_text(recipe, key));
                assert(!has_tag(key));
            }
        }
    }
    lemma_recipe_warnings_lack(recipe, class);
    assert forall|i: int| 0 <= i < recipe_warnings(recipe).len() implies !has_tag(
        (#[trigger] recipe_warnings(recipe)[i]).command,
    ) by {
        let command = recipe_warnings(recipe)[i].command;
        assert(lacks(command, class));
        assert forall|j: int| 0 <= j < command.len() implies !tag_char(#[trigger] command[j]) by {
            assert(!class(command[j]));
        }
    }
}

/// What a warning says is its source and its command, as they are.
pub proof fn lemma_warning_text(warning: RecipeCommandWarning, warnings: Seq<RecipeCommandWarning>)
    ensures
        warning@.source == warning.source@,
        warning@.command == warning.command@,
        warning_texts(warnings).len() == warnings.len(),
        forall|i: int|
            0 <= i < warnings.len() ==> #[trigger] warning_texts(warnings)[i] == (WarningText {
                source: warnings[i].source@,
                command: warnings[i].command@,
            }),
{
}

/// A command without environment and working directory is shown as the command and its
/// arguments.
pub proof fn lemma_command_line_of_argv(cmd: Seq<char>, args: Seq<Seq<char>>)
    ensures
        command_line(Map::empty(), cmd, args, None) == argv_text(seq![cmd] + args),
{
    let none = Seq::<(Seq<char>, Seq<char>)>::empty();
    lemma_listing_unique(none);
    assert(map_of(none) == Map::<Seq<char>, Seq<char>>::empty());
    lemma_command_line_split(Map::empty(), cmd, args, None);
    assert(line_prefix(Map::empty(), None) =~= Seq::empty());
    assert(command_line(Map::empty(), cmd, args, None) =~= argv_text(seq![cmd] + args));
}

/// The working directory is shown in front of all else.
pub proof fn lemma_command_line_in_directory(
    envs: Map<Seq<char>, Seq<char>>,
    cmd: Seq<char>,
    args: Seq<Seq<char>>,
    dir: Seq<char>,
)
    ensures
        command_line(envs, cmd, args, Some(dir)) == "(cwd: "@ + argv_token(dir) + ") "@
            + command_line(envs, cmd, args, None),
{
    assert(command_line(envs, cmd, args, None) =~= joined(command_parts(envs, cmd, args), " "@));
}

/// The environment variable with the smallest name is shown first: its name as it is,
/// then its value as an argument; behind it the command line without it.
pub proof fn lemma_command_line_with_variable(
    pairs: Seq<(Seq<char>, Seq<char>)>,
    key: Seq<char>,
    cmd: Seq<char>,
    args: Seq<Seq<char>>,
)
    requires
        map_of(pairs).dom().contains(key),
        forall|other: Seq<char>| #[trigger]
            map_of(pairs).dom().contains(other) && other != key ==> precedes(key, other),
    ensures
        command_line(map_of(pairs), cmd, args, None) == key + seq!['='] + argv_token(
            map_of(pairs)[key],
        ) + seq![' '] + command_line(map_of(pairs).remove(key), cmd, args, None),
{
    reveal_strlit(" ");
    assert(" "@ =~= seq![' ']);
    let envs = map_of(pairs);
    let fewer = envs.remove(key);
    lemma_listing_smallest_first(pairs, key);
    let first = assignment((key, envs[key]));
    let rest = command_parts(fewer, cmd, args);
    assert(command_parts(envs, cmd, args) =~= seq![first] + rest);
    lemma_joined_concat(seq![first], rest, " "@);
    assert(command_line(fewer, cmd, args, None) =~= joined(rest, " "@));
    assert(command_line(envs, cmd, args, None) =~= first + seq![' '] + command_line(
        fewer,
        cmd,
        args,
        None,
    ));
}

proof fn lemma_warnings_of_programs(extensions: Seq<ExtensionConfig>)
    ensures
        ({
            let programs = extensions.filter(|e: ExtensionConfig| e is Stdio);
            &&& extension_warnings(extensions).len() == programs.len()
            &&& forall|j: int|
                0 <= j < programs.len() ==> (#[trigger] programs[j]) is Stdio
                    && extension_warnings(extensions)[j] == extension_warning(programs[j])[0]
        }),
    decreases extensions.len(),
{
    reveal(Seq::filter);
    if extensions.len() > 0 {
        let is_program = |e: ExtensionConfig| e is Stdio;
        let front = extensions.drop_last();
        lemma_warnings_of_programs(front);
        let programs = extensions.filter(is_program);
        let fewer = front.filter(is_program);
        assert forall|j: int| 0 <= j < programs.len() implies (#[trigger] programs[j]) is Stdio
            && extension_warnings(extensions)[j] == extension_warning(programs[j])[0] by {
            if j < fewer.len() {
                assert(programs[j] == fewer[j]);
            }
        }
    }
}

/// Each extension that starts a program has a warning, in the order of the extensions
/// and before all others. It names the extension and shows its command line with all
/// its arguments, its environment and its working directory. No other extension has
/// one.
pub proof fn lemma_programs_are_warned(recipe: Recipe)
    ensures
        ({
            let programs = recipe.extension_list().filter(|e: ExtensionConfig| e is Stdio);
            &&& recipe_warnings(recipe).len() >= programs.len()
            &&& forall|j: int|
                0 <= j < programs.len() ==> (#[trigger] programs[j]) is Stdio
                    && recipe_warnings(recipe)[j].source == "extension \""@
                    + programs[j]->Stdio_name@ + "\""@ && recipe_warnings(recipe)[j].command
                    == command_line(
                    programs[j]->envs@,
                    programs[j]->cmd@,
                    views(programs[j]->args@),
                    match programs[j]->cwd {
                        Some(dir) => Some(dir@),
                        None => None,
                    },
                )
        }),
{
    let list = recipe.extension_list();
    lemma_warnings_of_programs(list);
    let programs = list.filter(|e: ExtensionConfig| e is Stdio);
    let first = extension_warnings(list);
    assert forall|j: int| 0 <= j < programs.len() implies (#[trigger] programs[j]) is Stdio
        && recipe_warnings(recipe)[j].source == "extension \""@ + programs[j]->Stdio_name@
        + "\""@ && recipe_warnings(recipe)[j].command == command_line(
        programs[j]->envs@,
        programs[j]->cmd@,
        views(programs[j]->args@),
        match programs[j]->cwd {
            Some(dir) => Some(dir@),
            None => None,
        },
    ) by {
        assert(recipe_warnings(recipe)[j] == first[j]);
    }
}

/// Behind the warnings for programs stands one for each check of a retry, in order, and
/// at the end one for the command after a failure. There are no more.
pub proof fn lemma_retry_is_warned(recipe: Recipe)
    ensures
        ({
            let n = recipe.extension_list().filter(|e: ExtensionConfig| e is Stdio).len();
            let all = recipe_warnings(recipe);
            &&& recipe.retry is None ==> all.len() == n
            &&& recipe.retry matches Some(retry) ==> {
                let k = retry.checks@.len();
                &&& forall|i: int|
                    0 <= i < k ==> all[n + i].source == "retry check"@ && all[n + i].command
                        == command_text((#[trigger] retry.checks@[i])->command@)
                &&& retry.on_failure is None ==> all.len() == n + k
                &&& retry.on_failure matches Some(command) ==> all.len() == n + k + 1
                    && all.last().source == "retry on_failure"@ && all.last().command
                    == command_text(command@)
            }
        }),
{
    lemma_warnings_of_programs(recipe.extension_list());
    let n = recipe.extension_list().filter(|e: ExtensionConfig| e is Stdio).len();
    let all = recipe_warnings(recipe);
    let a = extension_warnings(recipe.extension_list());
    let b = shell_warnings("retry check"@, recipe.check_texts());
    let c = shell_warnings("retry on_failure"@, recipe.failure_texts());
    if let Some(retry) = recipe.retry {
        assert forall|i: int| 0 <= i < retry.checks@.len() implies all[n + i].source
            == "retry check"@ && all[n + i].command == command_text(
            (#[trigger] retry.checks@[i])->command@,
        ) by {
            assert(recipe.check_texts()[i] == retry.checks@[i]->command@);
            assert(all[n + i] == b[i]);
        }
        if let Some(command) = retry.on_failure {
            assert(all.last() == c[0]);
        }
    }
}

/// A check of a retry, or a command after a failure, that hides nothing is shown exactly
/// as it is run.
pub proof fn lemma_plain_shell_commands_shown(recipe: Recipe, i: int)
    requires
        recipe.retry is Some,
    ensures
        ({
            let n = recipe.extension_list().filter(|e: ExtensionConfig| e is Stdio).len();
            let all = recipe_warnings(recipe);
            let retry = recipe.retry->0;
            &&& 0 <= i < retry.checks@.len() && (forall|j: int|
                0 <= j < retry.checks@[i]->command@.len() ==> !invisible_char(
                    #[trigger] retry.checks@[i]->command@[j],
                )) ==> all[n + i].command == retry.checks@[i]->command@
            &&& retry.on_failure is Some && (forall|j: int|
                0 <= j < retry.on_failure->0@.len() ==> !invisible_char(
                    #[trigger] retry.on_failure->0@[j],
                )) ==> all.last().command == retry.on_failure->0@
        }),
{
    lemma_retry_is_warned(recipe);
}

} // verus!
