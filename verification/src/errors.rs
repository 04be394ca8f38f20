//! The error model: a closed set of run-time parse errors shared by the
//! matcher, and the build-time errors a template can be refused with.

use vstd::prelude::*;

verus! {

/// Errors raised while parsing an input string against a compiled template.
#[derive(Debug, Clone, PartialEq, Eq)]
pub enum TemplateError {
    /// The same placeholder occurred multiple times with different values.
    InconsistentValues { placeholder: String, first_value: String, second_value: String },
    /// A captured span could not be converted to the field's type.
    ParseToType { placeholder: String, value: String, ty_name: String },
    /// A literal demanded by the template was not found where expected.
    UnexpectedInput { expected_next_literal: String, remaining_text: String },
    /// A structural failure, such as trailing input past the template's end.
    Parse(String),
}

/// The mathematical form of a parse error.
pub enum ErrV {
    InconsistentValues { placeholder: Seq<char>, first_value: Seq<char>, second_value: Seq<char> },
    ParseToType { placeholder: Seq<char>, value: Seq<char>, ty_name: Seq<char> },
    UnexpectedInput { expected_next_literal: Seq<char>, remaining_text: Seq<char> },
    Parse(Seq<char>),
}

impl View for TemplateError {
    type V = ErrV;

    open spec fn view(&self) -> ErrV {
        match self {
            TemplateError::InconsistentValues { placeholder, first_value, second_value } => {
                ErrV::InconsistentValues {
                    placeholder: placeholder@,
                    first_value: first_value@,
                    second_value: second_value@,
                }
            },
            TemplateError::ParseToType { placeholder, value, ty_name: tn } => {
                ErrV::ParseToType { placeholder: placeholder@, value: value@, ty_name: tn@ }
            },
            TemplateError::UnexpectedInput { expected_next_literal, remaining_text } => {
                ErrV::UnexpectedInput {
                    expected_next_literal: expected_next_literal@,
                    remaining_text: remaining_text@,
                }
            },
            TemplateError::Parse(m) => ErrV::Parse(m@),
        }
    }
}

/// The user-facing message of a parse error.
pub open spec fn message_spec(e: ErrV) -> Seq<char> {
    match e {
        ErrV::InconsistentValues { placeholder, first_value, second_value } => {
            "Inconsistent values for placeholder '"@ + placeholder + "': found '"@ + first_value
                + "', and after face '"@ + second_value + "'"@
        },
        ErrV::ParseToType { placeholder, value, ty_name: tn } => {
            "Cannot parse the placeholder '"@ + placeholder + "' with value '"@ + value
                + "' to type '"@ + tn + "', please check the type compatibility"@
        },
        ErrV::UnexpectedInput { expected_next_literal, remaining_text } => {
            "Template defines '"@ + expected_next_literal + "' but not found it in '"@
                + remaining_text + "'"@
        },
        ErrV::Parse(m) => "Parse error: "@ + m,
    }
}

impl TemplateError {
    /// Renders the error's message (executable form of `message_spec`).
    pub fn message(&self) -> (out: String)
        ensures
            out@ == message_spec(self@),
    {
        match self {
            TemplateError::InconsistentValues { placeholder, first_value, second_value } => {
                let mut out = String::from_str("Inconsistent values for placeholder '");
                out.append(placeholder.as_str());
                out.append("': found '");
                out.append(first_value.as_str());
                out.append("', and after face '");
                out.append(second_value.as_str());
                out.append("'");
                out
            },
            TemplateError::ParseToType { placeholder, value, ty_name: tn } => {
                let mut out = String::from_str("Cannot parse the placeholder '");
                out.append(placeholder.as_str());
                out.append("' with value '");
                out.append(value.as_str());
                out.append("' to type '");
                out.append(tn.as_str());
                out.append("', please check the type compatibility");
                out
            },
            TemplateError::UnexpectedInput { expected_next_literal, remaining_text } => {
                let mut out = String::from_str("Template defines '");
                out.append(expected_next_literal.as_str());
                out.append("' but not found it in '");
                out.append(remaining_text.as_str());
                out.append("'");
                out
            },
            TemplateError::Parse(m) => {
                let mut out = String::from_str("Parse error: ");
                out.append(m.as_str());
                out
            },
        }
    }
}

/// Errors raised once, when a template is compiled against a field set.
#[derive(Debug, Clone, PartialEq, Eq)]
pub enum BuildError {
    /// The template's text could not be segmented; the message says why.
    Template(String),
    /// A placeholder names no declared field.
    UnknownPlaceholder { name: String },
    /// Two placeholders stand side by side and the first is not fixed-width.
    ConsecutivePlaceholdersAmbiguous { first: String, second: String, first_kind: String },
    /// A placeholder resolves to a field kind the matcher does not support.
    UnsupportedFieldKind { name: String, kind_name: String },
    /// Fields missing from the template while missing placeholders are not
    /// allowed, in declared order.
    MissingPlaceholders { names: Vec<String> },
}

/// The mathematical form of a build error.
pub enum BuildV {
    Template(Seq<char>),
    UnknownPlaceholder { name: Seq<char> },
    ConsecutivePlaceholdersAmbiguous {
        first: Seq<char>,
        second: Seq<char>,
        first_kind: Seq<char>,
    },
    UnsupportedFieldKind { name: Seq<char>, kind_name: Seq<char> },
    MissingPlaceholders { names: Seq<Seq<char>> },
}

impl View for BuildError {
    type V = BuildV;

    open spec fn view(&self) -> BuildV {
        match self {
            BuildError::Template(m) => BuildV::Template(m@),
            BuildError::UnknownPlaceholder { name } => BuildV::UnknownPlaceholder { name: name@ },
            BuildError::ConsecutivePlaceholdersAmbiguous { first, second, first_kind } => {
                BuildV::ConsecutivePlaceholdersAmbiguous {
                    first: first@,
                    second: second@,
                    first_kind: first_kind@,
                }
            },
            BuildError::UnsupportedFieldKind { name, kind_name } => {
                BuildV::UnsupportedFieldKind { name: name@, kind_name: kind_name@ }
            },
            BuildError::MissingPlaceholders { names } => BuildV::MissingPlaceholders {
                names: Seq::new(names@.len(), |i: int| names@[i]@),
            },
        }
    }
}

} // verus!
