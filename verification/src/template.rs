//! Filling `{{ key }}` placeholders of the generated files' templates,
//! which the `varj` crate does.
use vstd::prelude::*;

verus! {

/// `varj::Error`: a placeholder of the template names a key that has no
/// replacement. Its fields are private to `varj`.
#[verifier::external_type_specification]
#[verifier::external_body]
pub struct ExVarjError(varj::Error);

/// The replacements as pairs of character sequences.
pub open spec fn replacements_view(replacements: Seq<(String, String)>) -> Seq<(Seq<char>, Seq<char>)> {
    replacements.map_values(|p: (String, String)| (p.0@, p.1@))
}

/// What `varj::parse` gives for a template and the map built from these
/// pairs (a later pair replaces an earlier one with the same key): the
/// rendered text, or nothing where a placeholder names an unknown key.
pub uninterp spec fn varj_render(
    template: Seq<char>,
    replacements: Seq<(Seq<char>, Seq<char>)>,
) -> Option<Seq<char>>;

/// Calls `varj::parse` on the template with a `HashMap` collected from the
/// pairs. Stated: its result is the one that `varj_render` names for these
/// arguments; what that is on given text is left to `varj`.
#[verifier::external_body]
fn varj_parse(template: &str, replacements: &Vec<(String, String)>) -> (res: Result<
    String,
    varj::Error,
>)
    ensures
        res matches Ok(s) ==> varj_render(template@, replacements_view(replacements@)) == Some(
            s@,
        ),
        res is Err ==> varj_render(template@, replacements_view(replacements@)) is None,
{
    let vars: std::collections::HashMap<String, String> = replacements.iter().cloned().collect();
    varj::parse(template, &vars)
}

/// A template that could not be filled in.
#[derive(Debug)]
pub enum TemplateError {
    /// A placeholder names a key without a replacement.
    UnknownKey(varj::Error),
}

/// Fills the template's placeholders from the replacements. The template
/// must name only keys that have a replacement.
pub fn instantiate_template(template: &str, replacements: &Vec<(String, String)>) -> (content:
    String)
    requires
        varj_render(template@, replacements_view(replacements@)) is Some,
    ensures
        varj_render(template@, replacements_view(replacements@)) == Some(content@),
{
    match varj_parse(template, replacements) {
        Ok(content) => content,
        Err(_) => {
            assert(false);
            String::new()
        },
    }
}

/// Fills the template's placeholders from the replacements, or reports
/// that a placeholder names a key without a replacement.
pub fn render_template(template: &str, replacements: &Vec<(String, String)>) -> (res: Result<
    String,
    TemplateError,
>)
    ensures
        res matches Ok(s) ==> varj_render(template@, replacements_view(replacements@)) == Some(
            s@,
        ),
        res is Err <==> varj_render(template@, replacements_view(replacements@)) is None,
{
    match varj_parse(template, replacements) {
        Ok(_) => Ok(instantiate_template(template, replacements)),
        Err(e) => Err(TemplateError::UnknownKey(e)),
    }
}

} // verus!
