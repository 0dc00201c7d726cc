//! Extensions that a recipe needs without naming them.

use vstd::prelude::*;

use crate::extension::ExtensionConfig;
use crate::recipe::Recipe;
use crate::text::same_text;

verus! {

/// The developer extension that comes with the program.
pub open spec fn builtin_developer(extension: ExtensionConfig) -> bool {
    extension matches ExtensionConfig::Builtin { name, .. } && name@ == "developer"@
}

/// The developer extension that comes with the program is among them.
pub open spec fn has_builtin_developer(extensions: Seq<ExtensionConfig>) -> bool {
    exists|i: int| 0 <= i < extensions.len() && builtin_developer(#[trigger] extensions[i])
}

/// An extension of this name is among them.
pub open spec fn has_extension(extensions: Seq<ExtensionConfig>, name: Seq<char>) -> bool {
    exists|i: int| 0 <= i < extensions.len() && (#[trigger] extensions[i]).name_text() == name
}

/// A platform extension of which nothing but its name is given.
pub open spec fn bare_platform(extension: ExtensionConfig, expected: Seq<char>) -> bool {
    extension matches ExtensionConfig::Platform {
        name,
        description,
        display_name,
        bundled,
        available_tools,
    } && name@ == expected && description@.len() == 0 && display_name is None && bundled is None
        && available_tools@.len() == 0
}

/// `after` is `before` with a bare platform extension for each of `names` behind it.
pub open spec fn extended_by(
    before: Seq<ExtensionConfig>,
    names: Seq<Seq<char>>,
    after: Seq<ExtensionConfig>,
) -> bool {
    &&& after.len() == before.len() + names.len()
    &&& after.take(before.len() as int) == before
    &&& forall|i: int|
        0 <= i < names.len() ==> bare_platform(after[before.len() + i], #[trigger] names[i])
}

/// The two recipes differ in their extensions at most.
pub open spec fn same_but_extensions(a: Recipe, b: Recipe) -> bool {
    &&& a.version == b.version
    &&& a.title == b.title
    &&& a.description == b.description
    &&& a.instructions == b.instructions
    &&& a.prompt == b.prompt
    &&& a.settings == b.settings
    &&& a.activities == b.activities
    &&& a.author == b.author
    &&& a.parameters == b.parameters
    &&& a.response == b.response
    &&& a.sub_recipes == b.sub_recipes
    &&& a.retry == b.retry
}

/// `after` is `before` with bare platform extensions for `names` added, and with
/// nothing changed if there are none.
pub open spec fn with_extensions(before: Recipe, names: Seq<Seq<char>>, after: Recipe) -> bool {
    &&& same_but_extensions(before, after)
    &&& after.extensions is Some <==> before.extensions is Some || names.len() > 0
    &&& extended_by(before.extension_list(), names, after.extension_list())
    &&& names.len() == 0 ==> after == before
}

/// The analyze extension, where the builtin developer extension is there without it.
pub open spec fn missing_analyze(recipe: Recipe) -> Seq<Seq<char>> {
    if has_builtin_developer(recipe.extension_list()) && !has_extension(
        recipe.extension_list(),
        "analyze"@,
    ) {
        seq!["analyze"@]
    } else {
        Seq::empty()
    }
}

/// The summon extension, where there are sub-recipes without it.
pub open spec fn missing_summon(recipe: Recipe) -> Seq<Seq<char>> {
    if recipe.sub_recipes is Some && !has_extension(recipe.extension_list(), "summon"@) {
        seq!["summon"@]
    } else {
        Seq::empty()
    }
}

/// `after` is `before` with the extensions that it needs without naming them.
pub open spec fn completed(before: Recipe, after: Recipe) -> bool {
    with_extensions(before, missing_analyze(before) + missing_summon(before), after)
}

fn any_builtin_developer(extensions: &Vec<ExtensionConfig>) -> (r: bool)
    ensures
        r == has_builtin_developer(extensions@),
{
    for i in 0..extensions.len()
        invariant
            forall|j: int| 0 <= j < i ==> !builtin_developer(#[trigger] extensions@[j]),
    {
        if let ExtensionConfig::Builtin { name, .. } = &extensions[i] {
            if same_text(name.as_str(), "developer") {
                assert(builtin_developer(extensions@[i as int]));
                return true;
            }
        }
    }
    false
}

fn any_extension_named(extensions: &Vec<ExtensionConfig>, name: &str) -> (r: bool)
    ensures
        r == has_extension(extensions@, name@),
{
    for i in 0..extensions.len()
        invariant
            forall|j: int| 0 <= j < i ==> (#[trigger] extensions@[j]).name_text() != name@,
    {
        if same_text(extensions[i].name().as_str(), name) {
            assert(extensions@[i as int].name_text() == name@);
            return true;
        }
    }
    false
}

fn platform_extension(name: &str) -> (r: ExtensionConfig)
    ensures
        bare_platform(r, name@),
{
    ExtensionConfig::Platform {
        name: name.to_owned(),
        description: String::new(),
        display_name: None,
        bundled: None,
        available_tools: Vec::new(),
    }
}

impl Recipe {
    /// When a recipe has the old builtin developer extension but not analyze, adds
    /// analyze.
    pub fn ensure_analyze_for_developer(&mut self)
        ensures
            with_extensions(*old(self), missing_analyze(*old(self)), *final(self)),
    {
        let missing: bool = match &self.extensions {
            Some(extensions) => any_builtin_developer(extensions) && !any_extension_named(
                extensions,
                "analyze",
            ),
            None => false,
        };
        if missing {
            let ghost before = self.extension_list();
            if let Some(extensions) = &mut self.extensions {
                extensions.push(platform_extension("analyze"));
            }
            assert(self.extension_list().take(before.len() as int) =~= before);
        } else {
            assert(self.extension_list().take(self.extension_list().len() as int)
                =~= self.extension_list());
        }
    }

    /// When a recipe has sub-recipes, adds the extension that runs them unless it is
    /// there.
    pub fn ensure_summon_for_subrecipes(&mut self)
        ensures
            with_extensions(*old(self), missing_summon(*old(self)), *final(self)),
    {
        let ghost before = self.extension_list();
        assert(before.take(before.len() as int) =~= before);
        if self.sub_recipes.is_none() {
            return ;
        }
        let present: Option<bool> = match &self.extensions {
            Some(extensions) => Some(any_extension_named(extensions, "summon")),
            None => None,
        };
        match present {
            Some(true) => {},
            Some(false) => {
                if let Some(extensions) = &mut self.extensions {
                    extensions.push(platform_extension("summon"));
                }
            },
            None => {
                let mut extensions: Vec<ExtensionConfig> = Vec::new();
                extensions.push(platform_extension("summon"));
                self.extensions = Some(extensions);
            },
        }
        assert(self.extension_list().take(before.len() as int) =~= before);
    }

    /// Adds the extensions that the recipe needs without naming them.
    pub fn complete_extensions(&mut self)
        ensures
            completed(*old(self), *final(self)),
    {
        self.ensure_analyze_for_developer();
        let ghost middle = *self;
        self.ensure_summon_for_subrecipes();
        proof {
            lemma_completed_in_steps(*old(self), middle, *self);
        }
    }
}

/// A name is among extended extensions if it was there or has been added.
proof fn lemma_extended_names(
    before: Seq<ExtensionConfig>,
    names: Seq<Seq<char>>,
    after: Seq<ExtensionConfig>,
    name: Seq<char>,
)
    requires
        extended_by(before, names, after),
    ensures
        has_extension(after, name) <==> has_extension(before, name) || names.contains(name),
        has_builtin_developer(after) <==> has_builtin_developer(before),
{
    let n = before.len();
    assert forall|i: int| 0 <= i < n implies before[i] == #[trigger] after[i] by {
        assert(after.take(n as int)[i] == after[i]);
    }
    assert forall|i: int| n <= i < after.len() implies bare_platform(
        #[trigger] after[i],
        names[i - n],
    ) by {
        assert(after[n + (i - n)] == after[i]);
    }
    if has_extension(after, name) {
        let i = choose|i: int| 0 <= i < after.len() && (#[trigger] after[i]).name_text() == name;
        if i < n {
            assert(before[i].name_text() == name);
        } else {
            assert(names[i - n] == name);
        }
    }
    if has_extension(before, name) {
        let i = choose|i: int| 0 <= i < n && (#[trigger] before[i]).name_text() == name;
        assert(after[i].name_text() == name);
    }
    if names.contains(name) {
        let i = choose|i: int| 0 <= i < names.len() && names[i] == name;
        assert(after[n + i].name_text() == name);
    }
    if has_builtin_developer(after) {
        let i = choose|i: int| 0 <= i < after.len() && builtin_developer(#[trigger] after[i]);
        assert(builtin_developer(before[i]));
    }
    if has_builtin_developer(before) {
        let i = choose|i: int| 0 <= i < n && builtin_developer(#[trigger] before[i]);
        assert(builtin_developer(after[i]));
    }
}

proof fn lemma_names_differ()
    ensures
        "analyze"@ != "summon"@,
{
    reveal_strlit("analyze");
    reveal_strlit("summon");
    assert("analyze"@.len() != "summon"@.len());
}

proof fn lemma_completed_in_steps(before: Recipe, middle: Recipe, after: Recipe)
    requires
        with_extensions(before, missing_analyze(before), middle),
        with_extensions(middle, missing_summon(middle), after),
    ensures
        completed(before, after),
{
    lemma_names_differ();
    let a = missing_analyze(before);
    let s = missing_summon(before);
    lemma_extended_names(before.extension_list(), a, middle.extension_list(), "summon"@);
    assert(missing_summon(middle) == s);
    let x = before.extension_list();
    let y = middle.extension_list();
    let z = after.extension_list();
    assert(z.take(x.len() as int) =~= z.take(y.len() as int).take(x.len() as int));
    assert forall|i: int| 0 <= i < (a + s).len() implies bare_platform(
        z[x.len() + i],
        #[trigger] (a + s)[i],
    ) by {
        if i < a.len() {
            assert(z.take(y.len() as int)[x.len() + i] == z[x.len() + i]);
            assert(bare_platform(y[x.len() + i], a[i]));
        } else {
            assert(bare_platform(z[y.len() + (i - a.len())], s[i - a.len()]));
        }
    }
}

/// A completed recipe has what it needs: analyze next to the builtin developer
/// extension, and summon next to sub-recipes.
pub proof fn lemma_completed_has_all(before: Recipe, after: Recipe)
    requires
        completed(before, after),
    ensures
        has_builtin_developer(after.extension_list()) ==> has_extension(
            after.extension_list(),
            "analyze"@,
        ),
        after.sub_recipes is Some ==> has_extension(after.extension_list(), "summon"@),
{
    let a = missing_analyze(before);
    let s = missing_summon(before);
    if a.len() > 0 {
        assert((a + s)[0] == "analyze"@);
    }
    if s.len() > 0 {
        assert((a + s)[a.len() as int] == "summon"@);
    }
    lemma_extended_names(before.extension_list(), a + s, after.extension_list(), "analyze"@);
    lemma_extended_names(before.extension_list(), a + s, after.extension_list(), "summon"@);
}

/// Completing a completed recipe changes nothing.
pub proof fn lemma_completed_idempotent(first: Recipe, second: Recipe, third: Recipe)
    requires
        completed(first, second),
        completed(second, third),
    ensures
        third == second,
{
    lemma_completed_has_all(first, second);
}

/// Without a builtin extension of the name `developer` a recipe gets no analyze
/// extension: it is left as it is.
pub proof fn lemma_no_developer_no_analyze(before: Recipe, after: Recipe)
    requires
        with_extensions(before, missing_analyze(before), after),
        before.extensions matches Some(extensions) ==> forall|i: int|
            0 <= i < extensions@.len() ==> !(#[trigger] extensions@[i] matches ExtensionConfig::Builtin {
                name,
                ..
            } && name@ == "developer"@),
    ensures
        after == before,
{
    assert(!has_builtin_developer(before.extension_list()));
}

/// A recipe with an extension of the name `analyze` gets no other one: it is left as it
/// is.
pub proof fn lemma_analyze_not_twice(before: Recipe, after: Recipe, i: int)
    requires
        with_extensions(before, missing_analyze(before), after),
        before.extensions is Some,
        0 <= i < before.extensions->0@.len(),
        before.extensions->0@[i].name_text() == "analyze"@,
    ensures
        after == before,
{
    assert(before.extension_list()[i].name_text() == "analyze"@);
}

/// A recipe with the builtin extension of the name `developer` and no extension of the
/// name `analyze` gets a bare platform extension of that name behind the others.
/// Nothing else changes.
pub proof fn lemma_developer_brings_analyze(before: Recipe, after: Recipe, i: int)
    requires
        with_extensions(before, missing_analyze(before), after),
        before.extensions is Some,
        0 <= i < before.extensions->0@.len(),
        before.extensions->0@[i] is Builtin,
        before.extensions->0@[i].name_text() == "developer"@,
        forall|j: int|
            0 <= j < before.extensions->0@.len() ==> (
            #[trigger] before.extensions->0@[j]).name_text() != "analyze"@,
    ensures
        after.extensions is Some,
        after.extensions->0@.len() == before.extensions->0@.len() + 1,
        after.extensions->0@.drop_last() == before.extensions->0@,
        after.extensions->0@.last() matches ExtensionConfig::Platform {
            name,
            description,
            display_name,
            bundled,
            available_tools,
        } && name@ == "analyze"@ && description@.len() == 0 && display_name is None && bundled
            is None && available_tools@.len() == 0,
        after == (Recipe { extensions: after.extensions, ..before }),
{
    let x = before.extension_list();
    let y = after.extension_list();
    assert(builtin_developer(x[i]));
    let names = missing_analyze(before);
    assert(names[0] == "analyze"@);
    assert(bare_platform(y[x.len() + 0int], names[0]));
    assert(y.drop_last() =~= y.take(x.len() as int));
}

/// A recipe without sub-recipes, or with an extension of the name `summon`, gets no
/// summon extension: it is left as it is.
pub proof fn lemma_no_summon_needed(before: Recipe, after: Recipe, i: int)
    requires
        with_extensions(before, missing_summon(before), after),
        before.sub_recipes is None || (before.extensions is Some && 0 <= i
            < before.extensions->0@.len() && before.extensions->0@[i].name_text() == "summon"@),
    ensures
        after == before,
{
    if before.sub_recipes is Some {
        assert(before.extension_list()[i].name_text() == "summon"@);
    }
}

/// A recipe with sub-recipes and no extension of the name `summon` gets a bare platform
/// extension of that name behind the others, if there are any. Nothing else changes.
pub proof fn lemma_sub_recipes_bring_summon(before: Recipe, after: Recipe)
    requires
        with_extensions(before, missing_summon(before), after),
        before.sub_recipes is Some,
        before.extensions matches Some(extensions) ==> forall|j: int|
            0 <= j < extensions@.len() ==> (#[trigger] extensions@[j]).name_text() != "summon"@,
    ensures
        after.extensions is Some,
        before.extensions matches Some(extensions) ==> after.extensions->0@.drop_last()
            == extensions@,
        before.extensions is None ==> after.extensions->0@.len() == 1,
        after.extensions->0@.len() > 0,
        after.extensions->0@.last() matches ExtensionConfig::Platform {
            name,
            description,
            display_name,
            bundled,
            available_tools,
        } && name@ == "summon"@ && description@.len() == 0 && display_name is None && bundled
            is None && available_tools@.len() == 0,
        after == (Recipe { extensions: after.extensions, ..before }),
{
    let x = before.extension_list();
    let y = after.extension_list();
    assert(!has_extension(x, "summon"@));
    let names = missing_summon(before);
    assert(names[0] == "summon"@);
    assert(bare_platform(y[x.len() + 0int], names[0]));
    assert(y.drop_last() =~= y.take(x.len() as int));
}

/// Completing a recipe adds analyze exactly where there is a builtin extension of the
/// name `developer` without it, then summon exactly where there are sub-recipes without
/// it, behind the extensions that were there. Nothing else changes.
pub proof fn lemma_completed_adds_what_is_due(before: Recipe, after: Recipe)
    requires
        completed(before, after),
    ensures
        ({
            let list = before.extension_list();
            let full = after.extension_list();
            let analyze = (exists|i: int|
                0 <= i < list.len() && (#[trigger] list[i]) is Builtin && list[i].name_text()
                    == "developer"@) && (forall|i: int|
                0 <= i < list.len() ==> (#[trigger] list[i]).name_text() != "analyze"@);
            let summon = before.sub_recipes is Some && (forall|i: int|
                0 <= i < list.len() ==> (#[trigger] list[i]).name_text() != "summon"@);
            &&& !analyze && !summon ==> after == before
            &&& analyze || summon ==> after.extensions is Some
            &&& full.len() == list.len() + (if analyze {
                1int
            } else {
                0
            }) + (if summon {
                1int
            } else {
                0
            })
            &&& full.take(list.len() as int) == list
            &&& analyze ==> (full[list.len() as int] matches ExtensionConfig::Platform {
                name,
                description,
                display_name,
                bundled,
                available_tools,
            } && name@ == "analyze"@ && description@.len() == 0 && display_name is None && bundled
                is None && available_tools@.len() == 0)
            &&& summon ==> (full.last() matches ExtensionConfig::Platform {
                name,
                description,
                display_name,
                bundled,
                available_tools,
            } && name@ == "summon"@ && description@.len() == 0 && display_name is None && bundled
                is None && available_tools@.len() == 0)
            &&& after == (Recipe { extensions: after.extensions, ..before })
        }),
{
    let list = before.extension_list();
    let full = after.extension_list();
    let a = missing_analyze(before);
    let s = missing_summon(before);
    if exists|i: int|
        0 <= i < list.len() && (#[trigger] list[i]) is Builtin && list[i].name_text()
            == "developer"@ {
        let i = choose|i: int|
            0 <= i < list.len() && (#[trigger] list[i]) is Builtin && list[i].name_text()
                == "developer"@;
        assert(builtin_developer(list[i]));
    }
    if has_builtin_developer(list) {
        let i = choose|i: int| 0 <= i < list.len() && builtin_developer(#[trigger] list[i]);
        assert(list[i] is Builtin && list[i].name_text() == "developer"@);
    }
    if a.len() > 0 {
        assert((a + s)[0] == "analyze"@);
        assert(bare_platform(full[list.len() + 0int], (a + s)[0]));
    }
    if s.len() > 0 {
        assert((a + s)[a.len() as int] == "summon"@);
        assert(bare_platform(full[list.len() + a.len() as int], (a + s)[a.len() as int]));
    }
}

} // verus!
