//! Well-formedness of JSON text, as `serde_json` judges it.

use vstd::prelude::*;

verus! {

/// `serde_json::Error`, the parser's complaint. It is carried about and
/// never looked into.
#[verifier::external_type_specification]
#[verifier::external_body]
pub struct ExJsonError(serde_json::Error);

/// Whether `serde_json` parses `text` as one JSON value.
pub uninterp spec fn json_parses(text: Seq<char>) -> bool;

/// `serde_json::from_str` at the type `serde_json::Value`: succeeds exactly
/// on the texts that parse. The value itself is dropped.
#[verifier::external_body]
fn parse_json(text: &str) -> (parsed: Result<(), serde_json::Error>)
    ensures
        parsed is Ok <==> json_parses(text@),
{
    match serde_json::from_str::<serde_json::Value>(text) {
        Ok(_) => Ok(()),
        Err(error) => Err(error),
    }
}

/// The `Display` text of a `serde_json::Error`. Nothing is promised of it.
#[verifier::external_body]
fn json_error_text(error: &serde_json::Error) -> (text: String) {
    error.to_string()
}

/// What is known about the JSON content of a file.
#[derive(Debug)]
pub enum JsonProbe {
    /// The content was not looked at.
    NotChecked,
    /// The file could not be read; the text says why.
    Unreadable(String),
    /// The content does not parse; the text is the parser's complaint.
    Invalid(String),
    /// The content parses.
    Valid,
}

/// What a `JsonProbe` says, as plain mathematics.
pub ghost enum JsonProbeView {
    NotChecked,
    Unreadable(Seq<char>),
    Invalid(Seq<char>),
    Valid,
}

impl View for JsonProbe {
    type V = JsonProbeView;

    open spec fn view(&self) -> JsonProbeView {
        match self {
            JsonProbe::NotChecked => JsonProbeView::NotChecked,
            JsonProbe::Unreadable(why) => JsonProbeView::Unreadable(why@),
            JsonProbe::Invalid(why) => JsonProbeView::Invalid(why@),
            JsonProbe::Valid => JsonProbeView::Valid,
        }
    }
}

impl DeepView for JsonProbe {
    type V = JsonProbeView;

    open spec fn deep_view(&self) -> JsonProbeView {
        self@
    }
}

/// Checks that `text` is well-formed JSON; the error is the parser's
/// complaint.
pub fn validate_json(text: &str) -> (verdict: Result<(), String>)
    ensures
        verdict is Ok <==> json_parses(text@),
{
    match parse_json(text) {
        Ok(()) => Ok(()),
        Err(error) => Err(json_error_text(&error)),
    }
}

impl JsonProbe {
    /// The probe of a file from the attempt to read it: unreadable where
    /// reading failed, else valid or invalid as the content parses or not.
    pub fn of_read(content: Result<String, String>) -> (probe: JsonProbe)
        ensures
            match content {
                Err(why) => probe@ == JsonProbeView::Unreadable(why@),
                Ok(text) => if json_parses(text@) {
                    probe@ == JsonProbeView::Valid
                } else {
                    probe@ is Invalid
                },
            },
    {
        match content {
            Err(why) => JsonProbe::Unreadable(why),
            Ok(text) => match validate_json(text.as_str()) {
                Ok(()) => JsonProbe::Valid,
                Err(why) => JsonProbe::Invalid(why),
            },
        }
    }
}

} // verus!
