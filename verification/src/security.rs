//! Hidden characters in what a recipe says and runs.

use vstd::prelude::*;

use crate::chars::contains_unicode_tags;
#[allow(unused_imports)]
use crate::chars::{has_tag, lemma_hidden_anywhere};
use crate::extension::ExtensionConfig;
use crate::recipe::Recipe;
use crate::retry::SuccessCheck;
#[allow(unused_imports)]
use crate::string_map::{distinct_keys, lemma_map_of_keys, lemma_map_of_values, map_of, pair_views};
#[allow(unused_imports)]
use crate::text::views;

verus! {

/// Keys and values, one after the other.
pub open spec fn pair_texts(pairs: Seq<(Seq<char>, Seq<char>)>) -> Seq<Seq<char>>
    decreases pairs.len(),
{
    if pairs.len() == 0 {
        Seq::empty()
    } else {
        pair_texts(pairs.drop_last()).push(pairs.last().0).push(pairs.last().1)
    }
}

/// A text if there is one.
pub open spec fn opt_text(text: Option<String>) -> Seq<Seq<char>> {
    match text {
        Some(text) => seq![text@],
        None => Seq::empty(),
    }
}

/// The command, arguments, environment and working directory of an extension that
/// starts a program; nothing for any other extension.
pub open spec fn extension_fields(extension: ExtensionConfig) -> Seq<Seq<char>> {
    match extension {
        ExtensionConfig::Stdio { cmd, args, envs, cwd, .. } => seq![cmd@] + views(args@)
            + pair_texts(envs.entries()) + opt_text(cwd),
        _ => Seq::empty(),
    }
}

/// The command fields of several extensions.
pub open spec fn extensions_fields(extensions: Seq<ExtensionConfig>) -> Seq<Seq<char>>
    decreases extensions.len(),
{
    if extensions.len() == 0 {
        Seq::empty()
    } else {
        extensions_fields(extensions.drop_last()) + extension_fields(extensions.last())
    }
}

/// The commands that are run when a recipe is tried again.
pub open spec fn check_commands(checks: Seq<SuccessCheck>) -> Seq<Seq<char>> {
    checks.map_values(|check: SuccessCheck| check->command@)
}

impl Recipe {
    /// The commands of the recipe's checks.
    pub open spec fn check_texts(&self) -> Seq<Seq<char>> {
        match self.retry {
            Some(retry) => check_commands(retry.checks@),
            None => Seq::empty(),
        }
    }

    /// The command that is run after a failed attempt, if there is one.
    pub open spec fn failure_texts(&self) -> Seq<Seq<char>> {
        match self.retry {
            Some(retry) => opt_text(retry.on_failure),
            None => Seq::empty(),
        }
    }

    /// All texts of the recipe that take part in running commands.
    pub open spec fn command_fields(&self) -> Seq<Seq<char>> {
        extensions_fields(self.extension_list()) + self.check_texts() + self.failure_texts()
    }
}

/// `text` takes part in the command of this extension.
pub open spec fn extension_field(extension: ExtensionConfig, text: Seq<char>) -> bool {
    extension matches ExtensionConfig::Stdio { cmd, args, envs, cwd, .. } && {
        ||| text == cmd@
        ||| exists|i: int| 0 <= i < args@.len() && (#[trigger] args@[i])@ == text
        ||| envs@.dom().contains(text)
        ||| exists|key: Seq<char>| #[trigger] envs@.dom().contains(key) && envs@[key] == text
        ||| cwd matches Some(cwd) && cwd@ == text
    }
}

/// `text` takes part in a command that the recipe runs.
pub open spec fn command_field(recipe: Recipe, text: Seq<char>) -> bool {
    ||| exists|i: int|
        0 <= i < recipe.extension_list().len() && extension_field(
            #[trigger] recipe.extension_list()[i],
            text,
        )
    ||| recipe.retry matches Some(retry) && {
        ||| exists|i: int|
            0 <= i < retry.checks@.len() && (#[trigger] retry.checks@[i])->command@ == text
        ||| retry.on_failure matches Some(command) && command@ == text
    }
}

/// `text` is shown to the model or takes part in a command.
pub open spec fn reviewed_text(recipe: Recipe, text: Seq<char>) -> bool {
    ||| recipe.instructions matches Some(instructions) && instructions@ == text
    ||| recipe.prompt matches Some(prompt) && prompt@ == text
    ||| recipe.activities matches Some(activities) && exists|i: int|
        0 <= i < activities@.len() && (#[trigger] activities@[i])@ == text
    ||| command_field(recipe, text)
}

/// Some reviewed text hides characters of the tag block.
pub open spec fn hides_tags(recipe: Recipe) -> bool {
    exists|text: Seq<char>| #[trigger] reviewed_text(recipe, text) && has_tag(text)
}

proof fn lemma_contains_concat(a: Seq<Seq<char>>, b: Seq<Seq<char>>, text: Seq<char>)
    ensures
        (a + b).contains(text) <==> a.contains(text) || b.contains(text),
{
    if (a + b).contains(text) {
        let i = choose|i: int| 0 <= i < (a + b).len() && (a + b)[i] == text;
        if i < a.len() {
            assert(a[i] == text);
        } else {
            assert(b[i - a.len()] == text);
        }
    }
    if a.contains(text) {
        let i = choose|i: int| 0 <= i < a.len() && a[i] == text;
        assert((a + b)[i] == text);
    }
    if b.contains(text) {
        let i = choose|i: int| 0 <= i < b.len() && b[i] == text;
        assert((a + b)[a.len() + i] == text);
    }
}

proof fn lemma_contains_views(parts: Seq<String>, text: Seq<char>)
    ensures
        views(parts).contains(text) <==> exists|i: int|
            0 <= i < parts.len() && (#[trigger] parts[i])@ == text,
{
    if views(parts).contains(text) {
        let i = choose|i: int| 0 <= i < views(parts).len() && views(parts)[i] == text;
        assert(parts[i]@ == text);
    }
    if exists|i: int| 0 <= i < parts.len() && (#[trigger] parts[i])@ == text {
        let i = choose|i: int| 0 <= i < parts.len() && (#[trigger] parts[i])@ == text;
        assert(views(parts)[i] == text);
    }
}

proof fn lemma_contains_pair_texts(pairs: Seq<(Seq<char>, Seq<char>)>, text: Seq<char>)
    ensures
        pair_texts(pairs).contains(text) <==> exists|i: int|
            0 <= i < pairs.len() && ((#[trigger] pairs[i]).0 == text || pairs[i].1 == text),
    decreases pairs.len(),
{
    if pairs.len() > 0 {
        let front = pairs.drop_last();
        lemma_contains_pair_texts(front, text);
        let last = seq![pairs.last().0, pairs.last().1];
        assert(pair_texts(pairs) =~= pair_texts(front) + last);
        lemma_contains_concat(pair_texts(front), last, text);
        assert(last[0] == pairs.last().0 && last[1] == pairs.last().1);
        if pair_texts(front).contains(text) {
            let i = choose|i: int|
                0 <= i < front.len() && ((#[trigger] front[i]).0 == text || front[i].1 == text);
            assert(pairs[i].0 == text || pairs[i].1 == text);
        }
        if last.contains(text) {
            assert(pairs[pairs.len() - 1].0 == text || pairs[pairs.len() - 1].1 == text);
        }
        if exists|i: int|
            0 <= i < pairs.len() && ((#[trigger] pairs[i]).0 == text || pairs[i].1 == text) {
            let i = choose|i: int|
                0 <= i < pairs.len() && ((#[trigger] pairs[i]).0 == text || pairs[i].1 == text);
            if i < front.len() {
                assert(front[i].0 == text || front[i].1 == text);
            }
        }
    }
}

/// Keys and values of distinct pairs are the keys and values of their map.
proof fn lemma_pair_texts_of_map(pairs: Seq<(Seq<char>, Seq<char>)>, text: Seq<char>)
    requires
        distinct_keys(pairs),
    ensures
        pair_texts(pairs).contains(text) <==> {
            ||| map_of(pairs).dom().contains(text)
            ||| exists|key: Seq<char>| #[trigger]
                map_of(pairs).dom().contains(key) && map_of(pairs)[key] == text
        },
{
    lemma_contains_pair_texts(pairs, text);
    lemma_map_of_keys(pairs, text);
    if pair_texts(pairs).contains(text) {
        let i = choose|i: int|
            0 <= i < pairs.len() && ((#[trigger] pairs[i]).0 == text || pairs[i].1 == text);
        lemma_map_of_values(pairs, i);
    }
    if exists|key: Seq<char>| #[trigger]
        map_of(pairs).dom().contains(key) && map_of(pairs)[key] == text {
        let key = choose|key: Seq<char>| #[trigger]
            map_of(pairs).dom().contains(key) && map_of(pairs)[key] == text;
        lemma_map_of_keys(pairs, key);
        let i = choose|i: int| 0 <= i < pairs.len() && (#[trigger] pairs[i]).0 == key;
        lemma_map_of_values(pairs, i);
        assert(pairs[i].1 == text);
    }
}

proof fn lemma_extension_fields(extension: ExtensionConfig, text: Seq<char>)
    requires
        extension matches ExtensionConfig::Stdio { envs, .. } ==> distinct_keys(envs.entries()),
    ensures
        extension_fields(extension).contains(text) <==> extension_field(extension, text),
{
    if let ExtensionConfig::Stdio { cmd, args, envs, cwd, .. } = extension {
        let first = seq![cmd@];
        let a = first + views(args@);
        let b = a + pair_texts(envs.entries());
        lemma_contains_concat(first, views(args@), text);
        lemma_contains_concat(a, pair_texts(envs.entries()), text);
        lemma_contains_concat(b, opt_text(cwd), text);
        lemma_contains_views(args@, text);
        lemma_pair_texts_of_map(envs.entries(), text);
        assert(first[0] == cmd@);
        if let Some(dir) = cwd {
            assert(opt_text(cwd)[0] == dir@);
        }
    }
}

/// No extension gives an environment variable twice.
spec fn distinct_variables(extensions: Seq<ExtensionConfig>) -> bool {
    forall|i: int|
        0 <= i < extensions.len() ==> (#[trigger] extensions[i] matches ExtensionConfig::Stdio {
            envs,
            ..
        } ==> distinct_keys(envs.entries()))
}

proof fn lemma_extensions_fields(extensions: Seq<ExtensionConfig>, text: Seq<char>)
    requires
        distinct_variables(extensions),
    ensures
        extensions_fields(extensions).contains(text) <==> exists|i: int|
            0 <= i < extensions.len() && extension_field(#[trigger] extensions[i], text),
    decreases extensions.len(),
{
    if extensions.len() > 0 {
        let front = extensions.drop_last();
        let last = extensions.len() - 1;
        assert(distinct_variables(front));
        lemma_extensions_fields(front, text);
        assert(extensions[last] == extensions.last());
        lemma_extension_fields(extensions[last], text);
        lemma_contains_concat(extensions_fields(front), extension_fields(extensions[last]), text);
        if extensions_fields(front).contains(text) {
            let i = choose|i: int|
                0 <= i < front.len() && extension_field(#[trigger] front[i], text);
            assert(extension_field(extensions[i], text));
        }
        if exists|i: int|
            0 <= i < extensions.len() && extension_field(#[trigger] extensions[i], text) {
            let i = choose|i: int|
                0 <= i < extensions.len() && extension_field(#[trigger] extensions[i], text);
            if i < front.len() {
                assert(extension_field(front[i], text));
            }
        }
    }
}

proof fn lemma_command_fields(recipe: Recipe, text: Seq<char>)
    requires
        distinct_variables(recipe.extension_list()),
    ensures
        recipe.command_fields().contains(text) <==> command_field(recipe, text),
{
    let a = extensions_fields(recipe.extension_list());
    lemma_extensions_fields(recipe.extension_list(), text);
    lemma_contains_concat(a, recipe.check_texts(), text);
    lemma_contains_concat(a + recipe.check_texts(), recipe.failure_texts(), text);
    if let Some(retry) = recipe.retry {
        if recipe.check_texts().contains(text) {
            let i = choose|i: int|
                0 <= i < recipe.check_texts().len() && recipe.check_texts()[i] == text;
            assert(retry.checks@[i]->command@ == text);
        }
        if exists|i: int|
            0 <= i < retry.checks@.len() && (#[trigger] retry.checks@[i])->command@ == text {
            let i = choose|i: int|
                0 <= i < retry.checks@.len() && (#[trigger] retry.checks@[i])->command@ == text;
            assert(recipe.check_texts()[i] == text);
        }
        if let Some(command) = retry.on_failure {
            assert(recipe.failure_texts()[0] == command@);
        }
    }
}

fn push_all(values: &mut Vec<String>, more: &Vec<String>)
    ensures
        views(final(values)@) == views(old(values)@) + views(more@),
{
    let ghost start = views(values@);
    assert(views(more@).take(0) =~= Seq::empty());
    assert(start + Seq::<Seq<char>>::empty() =~= start);
    for i in 0..more.len()
        invariant
            views(values@) == start + views(more@).take(i as int),
    {
        let ghost before = values@;
        values.push(more[i].clone());
        assert(views(values@) =~= views(before).push(more@[i as int]@));
        assert(views(values@) =~= start + views(more@).take(i + 1));
    }
    assert(views(more@).take(more@.len() as int) =~= views(more@));
}

fn push_pairs(values: &mut Vec<String>, pairs: &Vec<(String, String)>)
    ensures
        views(final(values)@) == views(old(values)@) + pair_texts(pair_views(pairs@)),
{
    let ghost start = views(values@);
    let ghost all = pair_views(pairs@);
    assert(start + Seq::<Seq<char>>::empty() =~= start);
    for i in 0..pairs.len()
        invariant
            all == pair_views(pairs@),
            views(values@) == start + pair_texts(all.take(i as int)),
    {
        let ghost before = values@;
        values.push(pairs[i].0.clone());
        values.push(pairs[i].1.clone());
        assert(views(values@) =~= views(before).push(all[i as int].0).push(all[i as int].1));
        assert(all.take(i + 1).drop_last() =~= all.take(i as int));
        assert(views(values@) =~= start + pair_texts(all.take(i + 1)));
    }
    assert(all.take(all.len() as int) =~= all);
}

fn push_optional(values: &mut Vec<String>, text: &Option<String>)
    ensures
        views(final(values)@) == views(old(values)@) + opt_text(*text),
{
    if let Some(text) = text {
        let ghost before = values@;
        values.push(text.clone());
        assert(views(values@) =~= views(before).push(text@));
    }
    assert(views(values@) =~= views(old(values)@) + opt_text(*text));
}

fn any_tagged(values: &Vec<String>) -> (r: bool)
    ensures
        r <==> exists|text: Seq<char>| #[trigger] views(values@).contains(text) && has_tag(text),
{
    for i in 0..values.len()
        invariant
            forall|j: int| 0 <= j < i ==> !has_tag(#[trigger] views(values@)[j]),
    {
        if contains_unicode_tags(values[i].as_str()) {
            assert(views(values@)[i as int] == values@[i as int]@);
            assert(views(values@).contains(values@[i as int]@));
            return true;
        }
    }
    assert forall|text: Seq<char>| #[trigger] views(values@).contains(text) implies !has_tag(
        text,
    ) by {
        let j = choose|j: int| 0 <= j < views(values@).len() && views(values@)[j] == text;
        assert(!has_tag(views(values@)[j]));
    }
    false
}

impl Recipe {
    /// The texts that take part in the commands of the recipe: of each extension that
    /// starts a program the command, its arguments, its environment and its working
    /// directory; of a retry the checks and the command after a failure.
    pub fn command_field_values(&self) -> (r: Vec<String>)
        ensures
            views(r@) == self.command_fields(),
            forall|text: Seq<char>| #[trigger]
                views(r@).contains(text) <==> command_field(*self, text),
    {
        let mut values: Vec<String> = Vec::new();
        assert(views(values@) =~= Seq::empty());
        let ghost list = self.extension_list();
        assert(list.take(0) =~= Seq::empty());
        if let Some(extensions) = &self.extensions {
            for i in 0..extensions.len()
                invariant
                    list == extensions@,
                    views(values@) == extensions_fields(list.take(i as int)),
                    distinct_variables(list.take(i as int)),
            {
                let ghost before = views(values@);
                let ghost now = list.take(i + 1);
                assert(now.drop_last() =~= list.take(i as int));
                assert(now.last() == list[i as int]);
                if let ExtensionConfig::Stdio { cmd, args, envs, cwd, .. } = &extensions[i] {
                    let ghost start = values@;
                    values.push(cmd.clone());
                    assert(views(values@) =~= views(start).push(cmd@));
                    push_all(&mut values, args);
                    let pairs = envs.get_env().pairs();
                    push_pairs(&mut values, &pairs);
                    push_optional(&mut values, cwd);
                    assert(views(values@) =~= before + extension_fields(list[i as int]));
                } else {
                    assert(before + extension_fields(list[i as int]) =~= before);
                }
                assert forall|j: int| 0 <= j < now.len() implies (
                #[trigger] now[j] matches ExtensionConfig::Stdio { envs, .. } ==> distinct_keys(
                    envs.entries(),
                )) by {
                    if j < i {
                        assert(now[j] == list.take(i as int)[j]);
                    }
                }
            }
            assert(list.take(list.len() as int) =~= list);
        }
        assert(views(values@) == extensions_fields(list));
        if let Some(retry) = &self.retry {
            let ghost before = views(values@);
            let ghost commands = check_commands(retry.checks@);
            assert(before + commands.take(0) =~= before);
            for i in 0..retry.checks.len()
                invariant
                    commands == check_commands(retry.checks@),
                    views(values@) == before + commands.take(i as int),
            {
                let ghost start = values@;
                let SuccessCheck::Shell { command } = &retry.checks[i];
                values.push(command.clone());
                assert(views(values@) =~= views(start).push(commands[i as int]));
                assert(views(values@) =~= before + commands.take(i + 1));
            }
            assert(commands.take(commands.len() as int) =~= commands);
            push_optional(&mut values, &retry.on_failure);
        }
        assert(views(values@) =~= self.command_fields());
        assert forall|text: Seq<char>| #[trigger] views(values@).contains(text) <==> command_field(
            *self,
            text,
        ) by {
            lemma_command_fields(*self, text);
        }
        values
    }

    /// Whether characters of the tag block are hidden in the instructions, the
    /// prompt, the activities or what takes part in a command.
    pub fn check_for_security_warnings(&self) -> (r: bool)
        ensures
            r == hides_tags(*self),
    {
        if let Some(instructions) = &self.instructions {
            if contains_unicode_tags(instructions.as_str()) {
                assert(reviewed_text(*self, instructions@));
                return true;
            }
        }
        if let Some(prompt) = &self.prompt {
            if contains_unicode_tags(prompt.as_str()) {
                assert(reviewed_text(*self, prompt@));
                return true;
            }
        }
        if let Some(activities) = &self.activities {
            if any_tagged(activities) {
                proof {
                    let text = choose|text: Seq<char>| #[trigger]
                        views(activities@).contains(text) && has_tag(text);
                    lemma_contains_views(activities@, text);
                    assert(reviewed_text(*self, text));
                }
                return true;
            }
        }
        let values = self.command_field_values();
        let r: bool = any_tagged(&values);
        proof {
            if r {
                let text = choose|text: Seq<char>| #[trigger]
                    views(values@).contains(text) && has_tag(text);
                assert(reviewed_text(*self, text));
            } else {
                assert forall|text: Seq<char>| #[trigger] reviewed_text(*self, text) implies !has_tag(
                    text,
                ) by {
                    assert(views(values@).contains(text) <==> command_field(*self, text));
                    if let Some(activities) = self.activities {
                        lemma_contains_views(activities@, text);
                    }
                }
            }
        }
        r
    }
}

/// A character of the tag block anywhere in the instructions is flagged, whatever else
/// the recipe holds.
pub proof fn lemma_tagged_instructions_flagged(recipe: Recipe, i: int)
    requires
        recipe.instructions is Some,
        0 <= i < recipe.instructions->0@.len(),
        0xe0000 <= recipe.instructions->0@[i] as u32 <= 0xe007f,
    ensures
        hides_tags(recipe),
{
    lemma_hidden_anywhere(recipe.instructions->0@, i);
    assert(reviewed_text(recipe, recipe.instructions->0@));
}

/// A character of the tag block anywhere in the prompt is flagged, whatever else the
/// recipe holds.
pub proof fn lemma_tagged_prompt_flagged(recipe: Recipe, i: int)
    requires
        recipe.prompt is Some,
        0 <= i < recipe.prompt->0@.len(),
        0xe0000 <= recipe.prompt->0@[i] as u32 <= 0xe007f,
    ensures
        hides_tags(recipe),
{
    lemma_hidden_anywhere(recipe.prompt->0@, i);
    assert(reviewed_text(recipe, recipe.prompt->0@));
}

/// A character of the tag block in any activity is flagged, whatever else the recipe
/// holds.
pub proof fn lemma_tagged_activity_flagged(recipe: Recipe, n: int, i: int)
    requires
        recipe.activities is Some,
        0 <= n < recipe.activities->0@.len(),
        0 <= i < recipe.activities->0@[n]@.len(),
        0xe0000 <= recipe.activities->0@[n]@[i] as u32 <= 0xe007f,
    ensures
        hides_tags(recipe),
{
    lemma_hidden_anywhere(recipe.activities->0@[n]@, i);
    assert(reviewed_text(recipe, recipe.activities->0@[n]@));
}

proof fn lemma_tagged_field_flagged(recipe: Recipe, n: int, text: Seq<char>, i: int)
    requires
        0 <= n < recipe.extension_list().len(),
        extension_field(recipe.extension_list()[n], text),
        0 <= i < text.len(),
        0xe0000 <= text[i] as u32 <= 0xe007f,
    ensures
        hides_tags(recipe),
{
    lemma_hidden_anywhere(text, i);
    assert(command_field(recipe, text));
    assert(reviewed_text(recipe, text));
}

/// A character of the tag block in the command of an extension that starts a program is
/// flagged, whatever else the recipe holds.
pub proof fn lemma_tagged_program_flagged(recipe: Recipe, n: int, i: int)
    requires
        recipe.extensions is Some,
        0 <= n < recipe.extensions->0@.len(),
        recipe.extensions->0@[n] is Stdio,
        0 <= i < recipe.extensions->0@[n]->cmd@.len(),
        0xe0000 <= recipe.extensions->0@[n]->cmd@[i] as u32 <= 0xe007f,
    ensures
        hides_tags(recipe),
{
    lemma_tagged_field_flagged(recipe, n, recipe.extensions->0@[n]->cmd@, i);
}

/// A character of the tag block in an argument of an extension that starts a program is
/// flagged, whatever else the recipe holds.
pub proof fn lemma_tagged_argument_flagged(recipe: Recipe, n: int, k: int, i: int)
    requires
        recipe.extensions is Some,
        0 <= n < recipe.extensions->0@.len(),
        recipe.extensions->0@[n] is Stdio,
        0 <= k < recipe.extensions->0@[n]->args@.len(),
        0 <= i < recipe.extensions->0@[n]->args@[k]@.len(),
        0xe0000 <= recipe.extensions->0@[n]->args@[k]@[i] as u32 <= 0xe007f,
    ensures
        hides_tags(recipe),
{
    lemma_tagged_field_flagged(recipe, n, recipe.extensions->0@[n]->args@[k]@, i);
}

/// A character of the tag block in the name or the value of an environment variable of
/// an extension that starts a program is flagged, whatever else the recipe holds.
pub proof fn lemma_tagged_variable_flagged(recipe: Recipe, n: int, key: Seq<char>, i: int)
    requires
        recipe.extensions is Some,
        0 <= n < recipe.extensions->0@.len(),
        recipe.extensions->0@[n] is Stdio,
        recipe.extensions->0@[n]->envs@.dom().contains(key),
        (0 <= i < key.len() && 0xe0000 <= key[i] as u32 <= 0xe007f) || (0 <= i
            < recipe.extensions->0@[n]->envs@[key].len() && 0xe0000
            <= recipe.extensions->0@[n]->envs@[key][i] as u32 <= 0xe007f),
    ensures
        hides_tags(recipe),
{
    if 0 <= i < key.len() && 0xe0000 <= key[i] as u32 <= 0xe007f {
        lemma_tagged_field_flagged(recipe, n, key, i);
    } else {
        lemma_tagged_field_flagged(recipe, n, recipe.extensions->0@[n]->envs@[key], i);
    }
}

/// A character of the tag block in the working directory of an extension that starts a
/// program is flagged, whatever else the recipe holds.
pub proof fn lemma_tagged_directory_flagged(recipe: Recipe, n: int, i: int)
    requires
        recipe.extensions is Some,
        0 <= n < recipe.extensions->0@.len(),
        recipe.extensions->0@[n] is Stdio,
        recipe.extensions->0@[n]->cwd is Some,
        0 <= i < recipe.extensions->0@[n]->cwd->0@.len(),
        0xe0000 <= recipe.extensions->0@[n]->cwd->0@[i] as u32 <= 0xe007f,
    ensures
        hides_tags(recipe),
{
    lemma_tagged_field_flagged(recipe, n, recipe.extensions->0@[n]->cwd->0@, i);
}

/// A character of the tag block in a check of a retry is flagged, whatever else the
/// recipe holds.
pub proof fn lemma_tagged_check_flagged(recipe: Recipe, n: int, i: int)
    requires
        recipe.retry is Some,
        0 <= n < recipe.retry->0.checks@.len(),
        0 <= i < recipe.retry->0.checks@[n]->command@.len(),
        0xe0000 <= recipe.retry->0.checks@[n]->command@[i] as u32 <= 0xe007f,
    ensures
        hides_tags(recipe),
{
    lemma_hidden_anywhere(recipe.retry->0.checks@[n]->command@, i);
    assert(command_field(recipe, recipe.retry->0.checks@[n]->command@));
    assert(reviewed_text(recipe, recipe.retry->0.checks@[n]->command@));
}

/// A character of the tag block in the command after a failure is flagged, whatever else
/// the recipe holds.
pub proof fn lemma_tagged_on_failure_flagged(recipe: Recipe, i: int)
    requires
        recipe.retry is Some,
        recipe.retry->0.on_failure is Some,
        0 <= i < recipe.retry->0.on_failure->0@.len(),
        0xe0000 <= recipe.retry->0.on_failure->0@[i] as u32 <= 0xe007f,
    ensures
        hides_tags(recipe),
{
    lemma_hidden_anywhere(recipe.retry->0.on_failure->0@, i);
    assert(command_field(recipe, recipe.retry->0.on_failure->0@));
    assert(reviewed_text(recipe, recipe.retry->0.on_failure->0@));
}

/// A recipe is not flagged if no character of the tag block stands in its instructions,
/// its prompt, its activities, the fields of an extension that starts a program, or the
/// commands of its retry: titles, descriptions and all else are free to hold any.
pub proof fn lemma_untagged_not_flagged(recipe: Recipe)
    requires
        recipe.instructions matches Some(text) ==> !has_tag(text@),
        recipe.prompt matches Some(text) ==> !has_tag(text@),
        recipe.activities matches Some(activities) ==> forall|n: int|
            0 <= n < activities@.len() ==> !has_tag((#[trigger] activities@[n])@),
        recipe.extensions matches Some(extensions) ==> forall|n: int|
            0 <= n < extensions@.len() ==> (#[trigger] extensions@[n] matches ExtensionConfig::Stdio {
                cmd,
                args,
                envs,
                cwd,
                ..
            } ==> {
                &&& !has_tag(cmd@)
                &&& forall|k: int| 0 <= k < args@.len() ==> !has_tag((#[trigger] args@[k])@)
                &&& forall|key: Seq<char>| #[trigger]
                    envs@.dom().contains(key) ==> !has_tag(key) && !has_tag(envs@[key])
                &&& cwd matches Some(dir) ==> !has_tag(dir@)
            }),
        recipe.retry matches Some(retry) ==> {
            &&& forall|n: int|
                0 <= n < retry.checks@.len() ==> !has_tag((#[trigger] retry.checks@[n])->command@)
            &&& retry.on_failure matches Some(command) ==> !has_tag(command@)
        },
    ensures
        !hides_tags(recipe),
{
    assert forall|text: Seq<char>| #[trigger] reviewed_text(recipe, text) implies !has_tag(text) by {
        if command_field(recipe, text) {
            if exists|n: int|
                0 <= n < recipe.extension_list().len() && extension_field(
                    #[trigger] recipe.extension_list()[n],
                    text,
                ) {
                let n = choose|n: int|
                    0 <= n < recipe.extension_list().len() && extension_field(
                        #[trigger] recipe.extension_list()[n],
                        text,
                    );
                assert(recipe.extensions->0@[n] is Stdio);
            }
        }
    }
}

/// The fields of an extension that starts a program: the command, the arguments, names
/// and values of the environment, the working directory. No other extension has any.
pub proof fn lemma_fields_of_extension(extension: ExtensionConfig)
    ensures
        !(extension is Stdio) ==> extension_fields(extension).len() == 0,
        extension matches ExtensionConfig::Stdio { cmd, args, envs, cwd, .. } ==> {
            let fields = extension_fields(extension);
            let first = 1 + args@.len();
            let last = first + 2 * envs.entries().len();
            &&& fields[0] == cmd@
            &&& forall|i: int| 0 <= i < args@.len() ==> (#[trigger] args@[i])@ == fields[1 + i]
            &&& forall|i: int|
                0 <= i < envs.entries().len() ==> fields[first + 2 * i] == (
                #[trigger] envs.entries()[i]).0 && fields[first + 2 * i + 1]
                    == envs.entries()[i].1
            &&& cwd is None ==> fields.len() == last
            &&& cwd matches Some(dir) ==> fields.len() == last + 1 && fields[last as int] == dir@
        },
{
    if let ExtensionConfig::Stdio { cmd, args, envs, cwd, .. } = extension {
        let fields = extension_fields(extension);
        let entries = envs.entries();
        let texts = pair_texts(entries);
        let first = 1 + args@.len();
        lemma_pair_texts_one_by_one(entries);
        assert forall|i: int| 0 <= i < args@.len() implies (#[trigger] args@[i])@ == fields[1
            + i] by {
            assert(views(args@)[i] == args@[i]@);
        }
        assert forall|i: int| 0 <= i < entries.len() implies fields[first + 2 * i] == (
        #[trigger] entries[i]).0 && fields[first + 2 * i + 1] == entries[i].1 by {
            assert(texts[2 * i] == entries[i].0);
            assert(fields[first + 2 * i] == texts[2 * i]);
            assert(fields[first + 2 * i + 1] == texts[2 * i + 1]);
        }
    }
}

/// Of each pair the key comes first, then the value.
pub proof fn lemma_pair_texts_one_by_one(pairs: Seq<(Seq<char>, Seq<char>)>)
    ensures
        pair_texts(pairs).len() == 2 * pairs.len(),
        forall|i: int|
            0 <= i < pairs.len() ==> pair_texts(pairs)[2 * i] == (#[trigger] pairs[i]).0
                && pair_texts(pairs)[2 * i + 1] == pairs[i].1,
    decreases pairs.len(),
{
    if pairs.len() > 0 {
        let front = pairs.drop_last();
        lemma_pair_texts_one_by_one(front);
        assert forall|i: int| 0 <= i < pairs.len() implies pair_texts(pairs)[2 * i] == (
        #[trigger] pairs[i]).0 && pair_texts(pairs)[2 * i + 1] == pairs[i].1 by {
            if i < front.len() {
                assert(front[i] == pairs[i]);
            }
        }
    }
}

/// The command fields of a recipe are those of its extensions, one extension after the
/// other, then the checks of its retry, then the command after a failure.
pub proof fn lemma_fields_of_recipe(
    recipe: Recipe,
    extensions: Seq<ExtensionConfig>,
    extension: ExtensionConfig,
)
    ensures
        extensions_fields(Seq::empty()).len() == 0,
        extensions_fields(extensions.push(extension)) == extensions_fields(extensions)
            + extension_fields(extension),
        recipe.command_fields().take(extensions_fields(recipe.extension_list()).len() as int)
            == extensions_fields(recipe.extension_list()),
        recipe.retry is None ==> recipe.command_fields() == extensions_fields(
            recipe.extension_list(),
        ),
        recipe.retry matches Some(retry) ==> {
            let n = extensions_fields(recipe.extension_list()).len();
            let k = retry.checks@.len();
            &&& forall|i: int|
                0 <= i < k ==> (#[trigger] retry.checks@[i])->command@ == recipe.command_fields()[n
                    + i]
            &&& retry.on_failure is None ==> recipe.command_fields().len() == n + k
            &&& retry.on_failure matches Some(command) ==> recipe.command_fields().len() == n + k + 1
                && recipe.command_fields()[(n + k) as int] == command@
        },
{
    let fields = recipe.command_fields();
    let first = extensions_fields(recipe.extension_list());
    assert(extensions.push(extension).drop_last() =~= extensions);
    assert(fields.take(first.len() as int) =~= first);
    if recipe.retry is None {
        assert(fields =~= first);
    }
    if let Some(retry) = recipe.retry {
        assert forall|i: int| 0 <= i < retry.checks@.len() implies (
        #[trigger] retry.checks@[i])->command@ == fields[first.len() + i] by {
            assert(recipe.check_texts()[i] == retry.checks@[i]->command@);
        }
    }
}

} // verus!
