//! Settings for the chat-completion client: the configured OpenAI-compatible
//! endpoint, or the Grok CLI chat proxy with the key from Grok's `auth.json`.
use crate::config::{opt_view, OpenAIConfig};
use crate::numfmt::{decimal, push_decimal};
use crate::text::{chars_of, eq_str, has_prefix, push_str, starts_with_str, string_of, trim, trim_str};
use vstd::prelude::*;

verus! {

broadcast use vstd::string::group_string_axioms;

/// The `[openai].model_name` that selects the Grok CLI chat proxy.
pub open spec fn grok_build_sentinel() -> Seq<char> {
    "grok-build"@
}

/// The Grok CLI chat proxy endpoint.
pub open spec fn grok_build_api_base() -> Seq<char> {
    "https://cli-chat-proxy.grok.com/v1"@
}

/// The model requested from the Grok CLI chat proxy.
pub open spec fn grok_build_request_model() -> Seq<char> {
    "grok-4.6"@
}

/// What the client is built from.
pub struct LlmSettings {
    pub api_base: String,
    pub model_name: String,
    pub api_key: String,
    /// Extra request headers, each name at most once.
    pub extra_headers: Vec<(String, String)>,
}

/// Where the client settings come from.
pub enum LlmSource {
    /// The `[openai]` section as configured.
    Configured(LlmSettings),
    /// The Grok CLI chat proxy: the key is read from `~/.grok/auth.json`.
    GrokAuthFile,
}

/// Header pairs by their character views.
pub open spec fn header_views(h: Seq<(String, String)>) -> Seq<(Seq<char>, Seq<char>)> {
    h.map_values(|p: (String, String)| (p.0@, p.1@))
}

/// `HashMap::entry(name).or_insert(value)` on a header list.
pub open spec fn or_insert(h: Seq<(Seq<char>, Seq<char>)>, name: Seq<char>, value: Seq<char>) -> Seq<(Seq<char>, Seq<char>)> {
    if exists|i: int| 0 <= i < h.len() && #[trigger] h[i].0 == name {
        h
    } else {
        h.push((name, value))
    }
}

/// The headers the Grok CLI chat proxy wants, each added only where the
/// name is not there yet; the model override only for a non-empty model.
pub open spec fn with_grok_headers(model_name: Seq<char>, h: Seq<(Seq<char>, Seq<char>)>) -> Seq<(Seq<char>, Seq<char>)> {
    let h1 = or_insert(h, "X-XAI-Token-Auth"@, "xai-grok-cli"@);
    let h2 = if model_name.len() > 0 {
        or_insert(h1, "x-grok-model-override"@, model_name)
    } else {
        h1
    };
    let h3 = or_insert(h2, "x-grok-client-version"@, "0.2.118"@);
    or_insert(h3, "x-grok-client-identifier"@, "grok-shell"@)
}

fn insert_header(headers: &mut Vec<(String, String)>, name: &str, value: &str)
    ensures
        header_views(final(headers)@) == or_insert(header_views(old(headers)@), name@, value@),
{
    let ghost hv = header_views(headers@);
    let mut i: usize = 0;
    while i < headers.len()
        invariant
            i <= headers@.len(),
            hv == header_views(headers@),
            headers@ == old(headers)@,
            forall|j: int| 0 <= j < i ==> #[trigger] hv[j].0 != name@,
        decreases headers@.len() - i,
    {
        proof {
            assert(hv[i as int] == (headers@[i as int].0@, headers@[i as int].1@));
        }
        if eq_str(&chars_of(headers[i].0.as_str()), name) {
            proof {
                assert(hv[i as int].0 == name@);
            }
            return;
        }
        i = i + 1;
    }
    let ghost before = headers@;
    headers.push((string_of(&chars_of(name)), string_of(&chars_of(value))));
    proof {
        assert(header_views(headers@) =~= header_views(before).push((name@, value@)));
    }
}

/// Add the Grok CLI chat proxy headers that are missing.
fn ensure_grok_cli_headers(model_name: &str, headers: &mut Vec<(String, String)>)
    ensures
        header_views(final(headers)@) == with_grok_headers(model_name@, header_views(old(headers)@)),
{
    insert_header(headers, "X-XAI-Token-Auth", "xai-grok-cli");
    if chars_of(model_name).len() > 0 {
        insert_header(headers, "x-grok-model-override", model_name);
    }
    insert_header(headers, "x-grok-client-version", "0.2.118");
    insert_header(headers, "x-grok-client-identifier", "grok-shell");
}

/// Settings for the Grok CLI chat proxy with this key.
pub fn grok_build_llm_config(api_key: String) -> (r: LlmSettings)
    ensures
        r.api_base@ == grok_build_api_base(),
        r.model_name@ == grok_build_request_model(),
        r.api_key@ == api_key@,
        header_views(r.extra_headers@) == with_grok_headers(grok_build_request_model(), seq![]),
{
    let mut extra_headers: Vec<(String, String)> = Vec::new();
    proof {
        assert(header_views(extra_headers@) =~= Seq::<(Seq<char>, Seq<char>)>::empty());
    }
    ensure_grok_cli_headers("grok-4.6", &mut extra_headers);
    LlmSettings {
        api_base: string_of(&chars_of("https://cli-chat-proxy.grok.com/v1")),
        model_name: string_of(&chars_of("grok-4.6")),
        api_key,
        extra_headers,
    }
}

/// The client settings for an `[openai]` section: the section itself, or,
/// for the `grok-build` model name, the Grok CLI chat proxy.
pub fn llm_config_from_openai(openai: &OpenAIConfig) -> (r: LlmSource)
    ensures
        (r is GrokAuthFile) == (openai.model_name@ == grok_build_sentinel()),
        r matches LlmSource::Configured(s) ==> {
            &&& s.api_base@ == openai.api_base@
            &&& s.model_name@ == openai.model_name@
            &&& s.api_key@ == openai.api_key@
            &&& s.extra_headers@.len() == 0
        },
{
    if eq_str(&chars_of(openai.model_name.as_str()), "grok-build") {
        LlmSource::GrokAuthFile
    } else {
        LlmSource::Configured(
            LlmSettings {
                api_base: openai.api_base.clone(),
                model_name: openai.model_name.clone(),
                api_key: openai.api_key.clone(),
                extra_headers: Vec::new(),
            },
        )
    }
}

// ───────────────────────── the Grok auth file ─────────────────────────

/// What `serde_json` reads from an `auth.json` text: its parse error's
/// message, or, for a JSON value, whether it is an object and, for each
/// top-level entry in the order the object yields them, the entry's key and
/// the nested `"key"` string where the entry has one.
pub uninterp spec fn json_auth_entries(raw: Seq<char>) -> Result<Option<Seq<(Seq<char>, Option<Seq<char>>)>>, Seq<char>>;

/// The top level of an `auth.json` text.
pub enum AuthJson {
    /// Not JSON: the parser's message.
    Unparsable(String),
    /// JSON, but not an object.
    NotObject,
    /// An object: each entry's key and nested `"key"` string.
    Entries(Vec<(String, Option<String>)>),
}

pub open spec fn entry_views(v: Seq<(String, Option<String>)>) -> Seq<(Seq<char>, Option<Seq<char>>)> {
    v.map_values(|p: (String, Option<String>)| (p.0@, opt_view(p.1)))
}

pub open spec fn auth_json_view(a: AuthJson) -> Result<Option<Seq<(Seq<char>, Option<Seq<char>>)>>, Seq<char>> {
    match a {
        AuthJson::Unparsable(e) => Err(e@),
        AuthJson::NotObject => Ok(None),
        AuthJson::Entries(v) => Ok(Some(entry_views(v@))),
    }
}

/// `serde_json::from_str::<serde_json::Value>` on the text, then the
/// top-level object's entries with their nested `"key"` strings.
#[verifier::external_body]
fn read_auth_json(raw: &str) -> (r: AuthJson)
    ensures
        auth_json_view(r) == json_auth_entries(raw@),
{
    match serde_json::from_str::<serde_json::Value>(raw) {
        Err(e) => AuthJson::Unparsable(e.to_string()),
        Ok(value) => match value.as_object() {
            None => AuthJson::NotObject,
            Some(obj) => AuthJson::Entries(
                obj.iter().map(|(k, v)| (k.clone(), v.get("key").and_then(|x| x.as_str()).map(str::to_string))).collect(),
            ),
        },
    }
}

/// The nested keys, trimmed, of the entries whose key starts with `http`,
/// in entry order, blank ones left out.
pub open spec fn http_keys(es: Seq<(Seq<char>, Option<Seq<char>>)>) -> Seq<Seq<char>>
    decreases es.len(),
{
    if es.len() == 0 {
        seq![]
    } else {
        let rest = http_keys(es.drop_last());
        let e = es.last();
        match e.1 {
            Some(k) => if has_prefix(e.0, "http"@) && trim(k).len() > 0 {
                rest.push(trim(k))
            } else {
                rest
            },
            None => rest,
        }
    }
}

/// The Grok API key an `auth.json` yields: the one nested key under a
/// top-level key starting with `http`, or why there is none.
pub open spec fn auth_key_result(parsed: Result<Option<Seq<(Seq<char>, Option<Seq<char>>)>>, Seq<char>>) -> Result<Seq<char>, Seq<char>> {
    match parsed {
        Err(e) => Err("parse auth.json: "@ + e),
        Ok(None) => Err("auth.json must be a JSON object"@),
        Ok(Some(es)) => {
            let ks = http_keys(es);
            if ks.len() == 0 {
                Err("no nested \"key\" under a top-level key starting with http in auth.json"@)
            } else if ks.len() == 1 {
                Ok(ks[0])
            } else {
                Err("ambiguous auth.json: "@ + decimal(ks.len()) + " top-level keys starting with http have a nested \"key\""@)
            }
        },
    }
}

pub open spec fn string_result(r: Result<String, String>) -> Result<Seq<char>, Seq<char>> {
    match r {
        Ok(s) => Ok(s@),
        Err(m) => Err(m@),
    }
}

/// The Grok API key from a parsed `auth.json`.
pub fn auth_key_from_parsed(parsed: AuthJson) -> (r: Result<String, String>)
    ensures
        string_result(r) == auth_key_result(auth_json_view(parsed)),
{
    match parsed {
        AuthJson::Unparsable(e) => {
            let mut m = chars_of("parse auth.json: ");
            push_str(&mut m, e.as_str());
            Err(string_of(&m))
        },
        AuthJson::NotObject => Err(string_of(&chars_of("auth.json must be a JSON object"))),
        AuthJson::Entries(v) => {
            let ghost ev = entry_views(v@);
            let mut found: Vec<Vec<char>> = Vec::new();
            let mut i: usize = 0;
            while i < v.len()
                invariant
                    i <= v@.len(),
                    ev == entry_views(v@),
                    found@.map_values(|k: Vec<char>| k@) == http_keys(ev.take(i as int)),
                decreases v@.len() - i,
            {
                let ghost before = found@;
                proof {
                    assert(ev.take(i + 1).drop_last() =~= ev.take(i as int));
                    assert(ev.take(i + 1).last() == ev[i as int]);
                }
                if let Some(k) = &v[i].1 {
                    let key = chars_of(v[i].0.as_str());
                    let t = trim_str(k.as_str());
                    if starts_with_str(&key, "http") && t.len() > 0 {
                        found.push(t);
                        proof {
                            assert(found@.map_values(|k: Vec<char>| k@) =~= before.map_values(|k: Vec<char>| k@).push(trim(ev[i as int].1->0)));
                        }
                    }
                }
                i = i + 1;
            }
            proof {
                assert(ev.take(v@.len() as int) =~= ev);
                assert(found@.len() == http_keys(ev).len());
            }
            if found.len() == 0 {
                Err(string_of(&chars_of("no nested \"key\" under a top-level key starting with http in auth.json")))
            } else if found.len() == 1 {
                Ok(string_of(&found[0]))
            } else {
                let mut m = chars_of("ambiguous auth.json: ");
                push_decimal(&mut m, found.len());
                push_str(&mut m, " top-level keys starting with http have a nested \"key\"");
                Err(string_of(&m))
            }
        },
    }
}

/// The Grok API key from an `auth.json` text.
pub fn grok_build_key_from_auth_json(raw: &str) -> (r: Result<String, String>)
    ensures
        string_result(r) == auth_key_result(json_auth_entries(raw@)),
{
    auth_key_from_parsed(read_auth_json(raw))
}

/// Settings for the Grok CLI chat proxy from the text of `auth.json`.
pub fn grok_build_llm_config_from_auth_json(raw: &str) -> (r: Result<LlmSettings, String>)
    ensures
        match (r, auth_key_result(json_auth_entries(raw@))) {
            (Ok(s), Ok(k)) => {
                &&& s.api_base@ == grok_build_api_base()
                &&& s.model_name@ == grok_build_request_model()
                &&& s.api_key@ == k
                &&& header_views(s.extra_headers@) == with_grok_headers(grok_build_request_model(), seq![])
            },
            (Err(m), Err(e)) => m@ == e,
            _ => false,
        },
{
    match grok_build_key_from_auth_json(raw) {
        Ok(k) => Ok(grok_build_llm_config(k)),
        Err(m) => Err(m),
    }
}

} // verus!
