//! The JSON object sent to start a generation.
use vstd::prelude::*;

use crate::json::{entries_of, insert_field, json_text_valid, new_object, parse_json, Field, JsonKind, JsonObject};

verus! {

/// The optional parts of a request.
pub struct GenerateOptions {
    /// Replaces the model's system prompt.
    pub system: Option<String>,
    /// Replaces the model's prompt template.
    pub template: Option<String>,
    /// A context saved from an earlier response, as JSON text.
    pub context: Option<String>,
    /// Sends the prompt without templating.
    pub raw: bool,
    /// Asks the service to keep the model loaded.
    pub keep_alive: bool,
}

/// Why a request could not be built.
#[derive(Debug, PartialEq, Eq, Structural)]
pub enum RequestError {
    /// The saved context is not JSON.
    MalformedContext,
}

/// The keys of a request: `model` and `prompt`, and each option that is given.
pub open spec fn keys_for(system: bool, template: bool, context: bool, raw: bool, keep_alive: bool) -> Set<Seq<char>> {
    let base = set!["model"@, "prompt"@];
    let a = if system { base.insert("system"@) } else { base };
    let b = if template { a.insert("template"@) } else { a };
    let c = if context { b.insert("context"@) } else { b };
    let d = if raw { c.insert("raw"@) } else { c };
    if keep_alive { d.insert("keep_alive"@) } else { d }
}

/// The keys that a request for these options holds.
pub open spec fn payload_keys(opts: GenerateOptions) -> Set<Seq<char>> {
    keys_for(opts.system.is_some(), opts.template.is_some(), opts.context.is_some(), opts.raw, opts.keep_alive)
}

/// Whether the context that the options carry, if any, is JSON.
pub open spec fn context_valid(opts: GenerateOptions) -> bool {
    match opts.context {
        Some(c) => json_text_valid(c@),
        None => true,
    }
}

/// Builds the request object from parts already checked: `model` and
/// `prompt` always, each option only when it is given.
pub fn assemble_payload(
    model: String,
    prompt: String,
    system: Option<String>,
    template: Option<String>,
    context: Option<serde_json::Value>,
    raw: bool,
    keep_alive: bool,
) -> (m: JsonObject)
    ensures
        entries_of(m).dom() == keys_for(system.is_some(), template.is_some(), context.is_some(), raw, keep_alive),
        entries_of(m)["model"@] == JsonKind::Str(model@),
        entries_of(m)["prompt"@] == JsonKind::Str(prompt@),
        system matches Some(s) ==> entries_of(m)["system"@] == JsonKind::Str(s@),
        template matches Some(t) ==> entries_of(m)["template"@] == JsonKind::Str(t@),
        raw ==> entries_of(m)["raw"@] == JsonKind::Bool(true),
        keep_alive ==> entries_of(m)["keep_alive"@] == JsonKind::Bool(true),
{
    let ghost keys = keys_for(system.is_some(), template.is_some(), context.is_some(), raw, keep_alive);
    proof {
        reveal_strlit("model");
        reveal_strlit("prompt");
        reveal_strlit("system");
        reveal_strlit("template");
        reveal_strlit("context");
        reveal_strlit("raw");
        reveal_strlit("keep_alive");
        assert("prompt"@[0] != "system"@[0]);
        assert("model"@.len() == 5 && "prompt"@.len() == 6 && "system"@.len() == 6);
        assert("template"@.len() == 8 && "context"@.len() == 7 && "raw"@.len() == 3);
        assert("keep_alive"@.len() == 10);
    }
    let mut m = new_object();
    insert_field(&mut m, "model".to_string(), Field::Str(model));
    insert_field(&mut m, "prompt".to_string(), Field::Str(prompt));
    if let Some(s) = system {
        insert_field(&mut m, "system".to_string(), Field::Str(s));
    }
    if let Some(t) = template {
        insert_field(&mut m, "template".to_string(), Field::Str(t));
    }
    if let Some(c) = context {
        insert_field(&mut m, "context".to_string(), Field::Json(c));
    }
    if raw {
        insert_field(&mut m, "raw".to_string(), Field::Bool(true));
    }
    if keep_alive {
        insert_field(&mut m, "keep_alive".to_string(), Field::Bool(true));
    }
    assert(entries_of(m).dom() =~= keys);
    m
}

/// Builds the request object: `model` and `prompt` always, each option only
/// when it was given, the context as the JSON value that its text holds.
pub fn build_payload(model: String, prompt: String, opts: GenerateOptions) -> (r: Result<JsonObject, RequestError>)
    ensures
        r is Err <==> !context_valid(opts),
        r is Err ==> r == Err::<JsonObject, RequestError>(RequestError::MalformedContext),
        r matches Ok(m) ==> {
            let e = entries_of(m);
            &&& e.dom() == payload_keys(opts)
            &&& e["model"@] == JsonKind::Str(model@)
            &&& e["prompt"@] == JsonKind::Str(prompt@)
            &&& (opts.system matches Some(s) ==> e["system"@] == JsonKind::Str(s@))
            &&& (opts.template matches Some(t) ==> e["template"@] == JsonKind::Str(t@))
            &&& (opts.raw ==> e["raw"@] == JsonKind::Bool(true))
            &&& (opts.keep_alive ==> e["keep_alive"@] == JsonKind::Bool(true))
        },
{
    let context = match &opts.context {
        Some(text) => match parse_json(text.as_str()) {
            Some(v) => Some(v),
            None => {
                return Err(RequestError::MalformedContext);
            },
        },
        None => None,
    };
    let GenerateOptions { system, template, context: _, raw, keep_alive } = opts;
    Ok(assemble_payload(model, prompt, system, template, context, raw, keep_alive))
}

} // verus!
