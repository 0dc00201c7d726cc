//! The parameters of a recipe.

use vstd::prelude::*;

use crate::text::same_text;

verus! {

/// Whether a value has to be given for a parameter.
#[derive(Debug, Clone)]
pub enum RecipeParameterRequirement {
    Required,
    Optional,
    UserPrompt,
}

impl RecipeParameterRequirement {
    /// The name under which the requirement is written down.
    pub open spec fn label(&self) -> Seq<char> {
        match self {
            RecipeParameterRequirement::Required => "required"@,
            RecipeParameterRequirement::Optional => "optional"@,
            RecipeParameterRequirement::UserPrompt => "user_prompt"@,
        }
    }

    /// The name under which the requirement is written down.
    pub fn to_string(&self) -> (r: String)
        ensures
            r@ == self.label(),
    {
        match self {
            RecipeParameterRequirement::Required => "required".to_owned(),
            RecipeParameterRequirement::Optional => "optional".to_owned(),
            RecipeParameterRequirement::UserPrompt => "user_prompt".to_owned(),
        }
    }

    /// The requirement that is written down as `label`, if there is one.
    pub open spec fn labelled(label: Seq<char>) -> Option<RecipeParameterRequirement> {
        if exists|v: RecipeParameterRequirement| #[trigger] v.label() == label {
            Some(choose|v: RecipeParameterRequirement| #[trigger] v.label() == label)
        } else {
            None
        }
    }

    /// The requirement that is written down as `label`, if there is one.
    pub fn from_label(label: &str) -> (r: Option<RecipeParameterRequirement>)
        ensures
            r == RecipeParameterRequirement::labelled(label@),
            forall|v: RecipeParameterRequirement| r == Some(v) <==> label@ == #[trigger] v.label(),
    {
        let r = if same_text(label, "required") {
            Some(RecipeParameterRequirement::Required)
        } else if same_text(label, "optional") {
            Some(RecipeParameterRequirement::Optional)
        } else if same_text(label, "user_prompt") {
            Some(RecipeParameterRequirement::UserPrompt)
        } else {
            None
        };
        proof {
            if r is Some {
                lemma_requirement_round_trip(r->0, label@);
                assert forall|v: RecipeParameterRequirement| r == Some(v) <==> label@
                    == #[trigger] v.label() by {
                    lemma_requirement_round_trip(v, label@);
                }
            }
        }
        r
    }
}

/// What kind of value a parameter takes.
#[derive(Debug, Clone)]
pub enum RecipeParameterInputType {
    String,
    Number,
    Boolean,
    Date,
    /// File parameter that imports content from a file path.
    /// Cannot have default values to prevent importing sensitive user files.
    File,
    Select,
}

impl RecipeParameterInputType {
    /// The name under which the kind is written down.
    pub open spec fn label(&self) -> Seq<char> {
        match self {
            RecipeParameterInputType::String => "string"@,
            RecipeParameterInputType::Number => "number"@,
            RecipeParameterInputType::Boolean => "boolean"@,
            RecipeParameterInputType::Date => "date"@,
            RecipeParameterInputType::File => "file"@,
            RecipeParameterInputType::Select => "select"@,
        }
    }

    /// The name under which the kind is written down.
    pub fn to_string(&self) -> (r: String)
        ensures
            r@ == self.label(),
    {
        match self {
            RecipeParameterInputType::String => "string".to_owned(),
            RecipeParameterInputType::Number => "number".to_owned(),
            RecipeParameterInputType::Boolean => "boolean".to_owned(),
            RecipeParameterInputType::Date => "date".to_owned(),
            RecipeParameterInputType::File => "file".to_owned(),
            RecipeParameterInputType::Select => "select".to_owned(),
        }
    }

    /// The kind that is written down as `label`, if there is one.
    pub open spec fn labelled(label: Seq<char>) -> Option<RecipeParameterInputType> {
        if exists|v: RecipeParameterInputType| #[trigger] v.label() == label {
            Some(choose|v: RecipeParameterInputType| #[trigger] v.label() == label)
        } else {
            None
        }
    }

    /// The kind that is written down as `label`, if there is one.
    pub fn from_label(label: &str) -> (r: Option<RecipeParameterInputType>)
        ensures
            r == RecipeParameterInputType::labelled(label@),
            forall|v: RecipeParameterInputType| r == Some(v) <==> label@ == #[trigger] v.label(),
    {
        let r = if same_text(label, "string") {
            Some(RecipeParameterInputType::String)
        } else if same_text(label, "number") {
            Some(RecipeParameterInputType::Number)
        } else if same_text(label, "boolean") {
            Some(RecipeParameterInputType::Boolean)
        } else if same_text(label, "date") {
            Some(RecipeParameterInputType::Date)
        } else if same_text(label, "file") {
            Some(RecipeParameterInputType::File)
        } else if same_text(label, "select") {
            Some(RecipeParameterInputType::Select)
        } else {
            None
        };
        proof {
            if r is Some {
                lemma_input_type_round_trip(r->0, label@);
                assert forall|v: RecipeParameterInputType| r == Some(v) <==> label@
                    == #[trigger] v.label() by {
                    lemma_input_type_round_trip(v, label@);
                }
            }
        }
        r
    }
}

/// Different requirements are written down differently.
pub proof fn lemma_requirement_labels_distinct(
    a: RecipeParameterRequirement,
    b: RecipeParameterRequirement,
)
    requires
        a.label() == b.label(),
    ensures
        a == b,
{
    reveal_strlit("required");
    assert("required"@[0] == 'r');
    reveal_strlit("optional");
    assert("optional"@[0] == 'o');
    reveal_strlit("user_prompt");
    assert("user_prompt"@[0] == 'u');
}

/// Different kinds of value are written down differently.
pub proof fn lemma_input_type_labels_distinct(
    a: RecipeParameterInputType,
    b: RecipeParameterInputType,
)
    requires
        a.label() == b.label(),
    ensures
        a == b,
{
    reveal_strlit("string");
    assert("string"@[0] == 's');
    assert("string"@[1] == 't');
    reveal_strlit("number");
    assert("number"@[0] == 'n');
    reveal_strlit("boolean");
    assert("boolean"@[0] == 'b');
    reveal_strlit("date");
    assert("date"@[0] == 'd');
    reveal_strlit("file");
    assert("file"@[0] == 'f');
    reveal_strlit("select");
    assert("select"@[0] == 's');
    assert("select"@[1] == 'e');
}

/// The name of a requirement, and no other text, is read back as the requirement.
pub proof fn lemma_requirement_round_trip(v: RecipeParameterRequirement, label: Seq<char>)
    ensures
        RecipeParameterRequirement::labelled(v.label()) == Some(v),
        RecipeParameterRequirement::labelled(label) == Some(v) <==> label == v.label(),
{
    let read = choose|w: RecipeParameterRequirement| #[trigger] w.label() == v.label();
    lemma_requirement_labels_distinct(read, v);
}

/// The name of a kind of value, and no other text, is read back as the kind.
pub proof fn lemma_input_type_round_trip(v: RecipeParameterInputType, label: Seq<char>)
    ensures
        RecipeParameterInputType::labelled(v.label()) == Some(v),
        RecipeParameterInputType::labelled(label) == Some(v) <==> label == v.label(),
{
    let read = choose|w: RecipeParameterInputType| #[trigger] w.label() == v.label();
    lemma_input_type_labels_distinct(read, v);
}

/// A parameter of a recipe.
#[derive(Debug, Clone)]
pub struct RecipeParameter {
    pub key: String,
    pub input_type: RecipeParameterInputType,
    pub requirement: RecipeParameterRequirement,
    pub description: String,
    pub default: Option<String>,
    pub options: Option<Vec<String>>,
}

/// The names under which requirements are written down.
pub proof fn lemma_requirement_names(v: RecipeParameterRequirement)
    ensures
        v is Required <==> v.label() == "required"@,
        v is Optional <==> v.label() == "optional"@,
        v is UserPrompt <==> v.label() == "user_prompt"@,
{
    reveal_strlit("required");
    reveal_strlit("optional");
    reveal_strlit("user_prompt");
    assert("required"@[0] == 'r');
    assert("optional"@[0] == 'o');
    assert("user_prompt"@[0] == 'u');
}

/// The names under which kinds of value are written down.
pub proof fn lemma_input_type_names(v: RecipeParameterInputType)
    ensures
        v is String <==> v.label() == "string"@,
        v is Number <==> v.label() == "number"@,
        v is Boolean <==> v.label() == "boolean"@,
        v is Date <==> v.label() == "date"@,
        v is File <==> v.label() == "file"@,
        v is Select <==> v.label() == "select"@,
{
    reveal_strlit("string");
    reveal_strlit("number");
    reveal_strlit("boolean");
    reveal_strlit("date");
    reveal_strlit("file");
    reveal_strlit("select");
    assert("string"@[1] == 't' && "string"@[0] == 's');
    assert("number"@[0] == 'n');
    assert("boolean"@[0] == 'b');
    assert("date"@[0] == 'd');
    assert("file"@[0] == 'f');
    assert("select"@[1] == 'e' && "select"@[0] == 's');
}

} // verus!
