//! The commands that a recipe runs, as they are shown to a user before consent.

use vstd::prelude::*;

use crate::display::{display_argv_token, display_command};
#[allow(unused_imports)]
use crate::display::{argv_token, command_text};
use crate::extension::{Envs, ExtensionConfig};
use crate::recipe::Recipe;
use crate::retry::SuccessCheck;
#[allow(unused_imports)]
use crate::security::check_commands;
#[allow(unused_imports)]
use crate::string_map::{listing, pair_views};
use crate::text::join;
#[allow(unused_imports)]
use crate::text::{joined, views};

verus! {

/// A command that a recipe runs.
#[derive(Debug, Clone, PartialEq, Eq)]
pub struct RecipeCommandWarning {
    /// Where the command comes from, e.g. `extension "analyzer"` or `retry check`.
    pub source: String,
    pub command: String,
}

/// What a warning says.
pub struct WarningText {
    pub source: Seq<char>,
    pub command: Seq<char>,
}

impl View for RecipeCommandWarning {
    type V = WarningText;

    open spec fn view(&self) -> WarningText {
        WarningText { source: self.source@, command: self.command@ }
    }
}

/// What several warnings say.
pub open spec fn warning_texts(warnings: Seq<RecipeCommandWarning>) -> Seq<WarningText> {
    warnings.map_values(|warning: RecipeCommandWarning| warning@)
}

/// An environment variable, as it is shown in front of a command.
pub open spec fn assignment(pair: (Seq<char>, Seq<char>)) -> Seq<char> {
    pair.0 + seq!['='] + argv_token(pair.1)
}

/// The parts of a shown command line: the environment by ascending names, the
/// command, its arguments.
pub open spec fn command_parts(
    envs: Map<Seq<char>, Seq<char>>,
    cmd: Seq<char>,
    args: Seq<Seq<char>>,
) -> Seq<Seq<char>> {
    listing(envs).map_values(|pair: (Seq<char>, Seq<char>)| assignment(pair)) + seq![
        argv_token(cmd),
    ] + args.map_values(|arg: Seq<char>| argv_token(arg))
}

/// What is shown in front of a command line for its working directory.
pub open spec fn directory_prefix(cwd: Option<Seq<char>>) -> Seq<char> {
    match cwd {
        Some(dir) => "(cwd: "@ + argv_token(dir) + ") "@,
        None => Seq::empty(),
    }
}

/// A shown command line.
pub open spec fn command_line(
    envs: Map<Seq<char>, Seq<char>>,
    cmd: Seq<char>,
    args: Seq<Seq<char>>,
    cwd: Option<Seq<char>>,
) -> Seq<char> {
    directory_prefix(cwd) + joined(command_parts(envs, cmd, args), " "@)
}

/// The text of an optional string.
pub open spec fn opt_view(text: Option<String>) -> Option<Seq<char>> {
    match text {
        Some(text) => Some(text@),
        None => None,
    }
}

/// The warning for an extension: one if it starts a program, else none.
pub open spec fn extension_warning(extension: ExtensionConfig) -> Seq<WarningText> {
    match extension {
        ExtensionConfig::Stdio { name, cmd, args, envs, cwd, .. } => seq![
            WarningText {
                source: "extension \""@ + name@ + "\""@,
                command: command_line(envs@, cmd@, views(args@), opt_view(cwd)),
            },
        ],
        _ => Seq::empty(),
    }
}

/// The warnings for several extensions.
pub open spec fn extension_warnings(extensions: Seq<ExtensionConfig>) -> Seq<WarningText>
    decreases extensions.len(),
{
    if extensions.len() == 0 {
        Seq::empty()
    } else {
        extension_warnings(extensions.drop_last()) + extension_warning(extensions.last())
    }
}

/// A warning for each of several shell commands of the same origin.
pub open spec fn shell_warnings(source: Seq<char>, commands: Seq<Seq<char>>) -> Seq<WarningText> {
    commands.map_values(
        |command: Seq<char>| WarningText { source, command: command_text(command) },
    )
}

/// The warnings for a recipe: its extensions in order, then the checks of its retry,
/// then the command after a failure.
pub open spec fn recipe_warnings(recipe: Recipe) -> Seq<WarningText> {
    extension_warnings(recipe.extension_list()) + shell_warnings(
        "retry check"@,
        recipe.check_texts(),
    ) + shell_warnings("retry on_failure"@, recipe.failure_texts())
}

fn command_line_text(
    envs: &Envs,
    cmd: &String,
    args: &Vec<String>,
    cwd: &Option<String>,
) -> (r: String)
    ensures
        r@ == command_line(envs@, cmd@, views(args@), opt_view(*cwd)),
{
    let env_pairs = envs.get_env().sorted_pairs();
    let mut parts: Vec<String> = Vec::new();
    let ghost assignments = listing(envs@).map_values(
        |pair: (Seq<char>, Seq<char>)| assignment(pair),
    );
    assert(views(parts@) =~= assignments.take(0));
    for i in 0..env_pairs.len()
        invariant
            pair_views(env_pairs@) == listing(envs@),
            assignments == listing(envs@).map_values(
                |pair: (Seq<char>, Seq<char>)| assignment(pair),
            ),
            views(parts@) == assignments.take(i as int),
    {
        let ghost before = parts@;
        let mut part = env_pairs[i].0.clone();
        part.push('=');
        part.append(display_argv_token(env_pairs[i].1.as_str()).as_str());
        assert(pair_views(env_pairs@)[i as int] == (
            env_pairs@[i as int].0@,
            env_pairs@[i as int].1@,
        ));
        assert(part@ =~= assignments[i as int]);
        parts.push(part);
        assert(views(parts@) =~= views(before).push(assignments[i as int]));
        assert(views(parts@) =~= assignments.take(i + 1));
    }
    assert(assignments.take(assignments.len() as int) =~= assignments);
    let ghost before = parts@;
    parts.push(display_argv_token(cmd.as_str()));
    let ghost front = assignments + seq![argv_token(cmd@)];
    assert(views(parts@) =~= views(before).push(argv_token(cmd@)));
    assert(views(parts@) =~= front);
    let ghost shown = views(args@).map_values(|arg: Seq<char>| argv_token(arg));
    assert(front + shown.take(0) =~= front);
    for i in 0..args.len()
        invariant
            shown == views(args@).map_values(|arg: Seq<char>| argv_token(arg)),
            views(parts@) == front + shown.take(i as int),
    {
        let ghost before = parts@;
        parts.push(display_argv_token(args[i].as_str()));
        assert(views(parts@) =~= views(before).push(shown[i as int]));
        assert(views(parts@) =~= front + shown.take(i + 1));
    }
    assert(shown.take(shown.len() as int) =~= shown);
    let mut out = String::new();
    if let Some(dir) = cwd {
        out.append("(cwd: ");
        out.append(display_argv_token(dir.as_str()).as_str());
        out.append(") ");
    }
    assert(out@ =~= directory_prefix(opt_view(*cwd)));
    out.append(join(&parts, " ").as_str());
    out
}

fn shell_warning(source: &str, command: &String) -> (r: RecipeCommandWarning)
    ensures
        r@ == (WarningText { source: source@, command: command_text(command@) }),
{
    RecipeCommandWarning { source: source.to_owned(), command: display_command(command.as_str()) }
}

impl Recipe {
    /// Commands this recipe runs when executed. Legitimate author-declared fields for
    /// the user to review before consenting; unlike what
    /// `check_for_security_warnings` finds, they never block saving or scheduling.
    pub fn command_execution_warnings(&self) -> (r: Vec<RecipeCommandWarning>)
        ensures
            warning_texts(r@) == recipe_warnings(*self),
            r@.len() == recipe_warnings(*self).len(),
            forall|i: int|
                0 <= i < r@.len() ==> (#[trigger] r@[i]).source@ == recipe_warnings(
                    *self,
                )[i].source && r@[i].command@ == recipe_warnings(*self)[i].command,
    {
        let mut warnings: Vec<RecipeCommandWarning> = Vec::new();
        assert(warning_texts(warnings@) =~= Seq::empty());
        let ghost list = self.extension_list();
        assert(list.take(0) =~= Seq::empty());
        if let Some(extensions) = &self.extensions {
            for i in 0..extensions.len()
                invariant
                    list == extensions@,
                    warning_texts(warnings@) == extension_warnings(list.take(i as int)),
            {
                let ghost before = warning_texts(warnings@);
                assert(list.take(i + 1).drop_last() =~= list.take(i as int));
                assert(list.take(i + 1).last() == list[i as int]);
                if let ExtensionConfig::Stdio { name, cmd, args, envs, cwd, .. } = &extensions[i] {
                    let ghost start = warnings@;
                    let mut source = String::new();
                    source.append("extension \"");
                    source.append(name.as_str());
                    source.append("\"");
                    assert(source@ =~= "extension \""@ + name@ + "\""@);
                    let command = command_line_text(envs, cmd, args, cwd);
                    warnings.push(RecipeCommandWarning { source, command });
                    assert(warning_texts(warnings@) =~= warning_texts(start).push(
                        extension_warning(list[i as int])[0],
                    ));
                    assert(warning_texts(warnings@) =~= before + extension_warning(
                        list[i as int],
                    ));
                } else {
                    assert(before + extension_warning(list[i as int]) =~= before);
                }
            }
            assert(list.take(list.len() as int) =~= list);
        }
        let ghost of_extensions = extension_warnings(list);
        assert(warning_texts(warnings@) == of_extensions);
        if let Some(retry) = &self.retry {
            let ghost of_checks = shell_warnings("retry check"@, check_commands(retry.checks@));
            assert(of_extensions + of_checks.take(0) =~= of_extensions);
            for i in 0..retry.checks.len()
                invariant
                    of_checks == shell_warnings("retry check"@, check_commands(retry.checks@)),
                    warning_texts(warnings@) == of_extensions + of_checks.take(i as int),
            {
                let ghost start = warnings@;
                let SuccessCheck::Shell { command } = &retry.checks[i];
                warnings.push(shell_warning("retry check", command));
                assert(warning_texts(warnings@) =~= warning_texts(start).push(
                    of_checks[i as int],
                ));
                assert(warning_texts(warnings@) =~= of_extensions + of_checks.take(i + 1));
            }
            assert(of_checks.take(of_checks.len() as int) =~= of_checks);
            if let Some(on_failure) = &retry.on_failure {
                let ghost start = warnings@;
                warnings.push(shell_warning("retry on_failure", on_failure));
                assert(warning_texts(warnings@) =~= warning_texts(start).push(
                    shell_warnings("retry on_failure"@, self.failure_texts())[0],
                ));
            }
        }
        assert(warning_texts(warnings@) =~= recipe_warnings(*self));
        assert forall|i: int| 0 <= i < warnings@.len() implies (#[trigger] warnings@[i]).source@
            == recipe_warnings(*self)[i].source && warnings@[i].command@ == recipe_warnings(
            *self,
        )[i].command by {
            assert(warning_texts(warnings@)[i] == warnings@[i]@);
        }
        warnings
    }
}

} // verus!
