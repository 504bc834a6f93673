//! Run configuration: paths, URLs and the mailing-list identity.
use crate::html::unfurl::is_http_exec;
use crate::lore::DEFAULT_LORE_BASE;
use crate::text::{chars_of, has_prefix, push_str, string_of, trim, trim_of, trim_slice};
use vstd::prelude::*;

verus! {

broadcast use vstd::string::group_string_axioms;

/// OpenAI-compatible endpoint settings.
pub struct OpenAIConfig {
    pub api_base: String,
    pub model_name: String,
    pub api_key: String,
}

/// Mailing-list identity used in the catalog, HTML chrome, and agent prompts.
pub struct ListConfig {
    /// Root catalog H1.
    pub title: String,
    /// HTML header wordmark. Defaults to `title` when omitted or empty.
    pub short_title: Option<String>,
    /// Phrase used in agent roles: "covering {name}".
    pub name: String,
    /// Extra briefing inserted into thread and week agent prompts.
    pub focus: String,
}

/// The whole configuration file.
pub struct Config {
    pub openai: OpenAIConfig,
    pub git_repo_path: String,
    pub db_path: String,
    /// Legacy site base path; not used for lore message links.
    pub base_url: String,
    /// Lore list archive prefix for message citations.
    pub lore_base_url: String,
    pub outputs_path: Option<String>,
    /// Optional directory for generated static HTML (unset or blank: no HTML).
    pub html_outputs_path: Option<String>,
    /// Public prefix of the HTML tree for `og:url` / canonical.
    pub html_site_url: Option<String>,
    /// Absolute `http(s)` URL for `og:image`.
    pub html_og_image: Option<String>,
    /// Per-list identity and agent briefing.
    pub list: ListConfig,
}

pub open spec fn opt_view(o: Option<String>) -> Option<Seq<char>> {
    match o {
        Some(s) => Some(s@),
        None => None,
    }
}

pub open spec fn opt_str(o: Option<&str>) -> Option<Seq<char>> {
    match o {
        Some(s) => Some(s@),
        None => None,
    }
}

/// The trimmed value when it is an absolute `http(s)` URL; blank and `/` are unset.
pub open spec fn absolute_http(value: Option<Seq<char>>) -> Option<Seq<char>> {
    match value {
        None => None,
        Some(v) => {
            let s = trim(v);
            if s.len() == 0 || s == "/"@ {
                None
            } else if has_prefix(s, "http://"@) || has_prefix(s, "https://"@) {
                Some(s)
            } else {
                None
            }
        },
    }
}

fn absolute_http_url<'a>(value: Option<&'a str>) -> (r: Option<&'a str>)
    ensures
        opt_str(r) == absolute_http(opt_str(value)),
{
    match value {
        None => None,
        Some(v) => {
            let s = trim_slice(v);
            let sv = chars_of(s);
            if sv.len() == 0 || crate::text::eq_str(&sv, "/") {
                None
            } else if is_http_exec(&sv) {
                Some(s)
            } else {
                None
            }
        },
    }
}

fn as_deref<'a>(o: &'a Option<String>) -> (r: Option<&'a str>)
    ensures
        opt_str(r) == opt_view(*o),
{
    match o {
        Some(s) => Some(s.as_str()),
        None => None,
    }
}

impl Config {
    /// `html_site_url` when it is an absolute `http(s)` URL, else `base_url`
    /// when it is one.
    pub open spec fn public_url(&self) -> Option<Seq<char>> {
        match absolute_http(opt_view(self.html_site_url)) {
            Some(u) => Some(u),
            None => absolute_http(Some(self.base_url@)),
        }
    }

    /// Public HTML site prefix for unfurl canonical/`og:url`.
    ///
    /// `html_site_url` wins when set. Otherwise `base_url` is used only if it is
    /// an `http://` or `https://` URL. Blank, `"/"`, and other relative values
    /// are treated as unset.
    pub fn html_public_url(&self) -> (r: Option<&str>)
        ensures
            opt_str(r) == self.public_url(),
    {
        match absolute_http_url(as_deref(&self.html_site_url)) {
            Some(u) => Some(u),
            None => absolute_http_url(Some(self.base_url.as_str())),
        }
    }

    /// Absolute `og:image` URL, if configured as `http(s)`.
    pub fn html_og_image_url(&self) -> (r: Option<&str>)
        ensures
            opt_str(r) == absolute_http(opt_view(self.html_og_image)),
    {
        absolute_http_url(as_deref(&self.html_og_image))
    }
}

pub open spec fn default_title() -> Seq<char> {
    "Mailing List Weekly Summaries"@
}

pub open spec fn default_name() -> Seq<char> {
    "this mailing list"@
}

fn default_list_title() -> (r: String)
    ensures
        r@ == default_title(),
{
    string_of(&chars_of("Mailing List Weekly Summaries"))
}

fn default_list_name() -> (r: String)
    ensures
        r@ == default_name(),
{
    string_of(&chars_of("this mailing list"))
}

/// Default legacy base path.
pub fn default_base_url() -> (r: String)
    ensures
        r@ == "/"@,
{
    string_of(&chars_of("/"))
}

/// Default lore archive prefix.
pub fn default_lore_base_url() -> (r: String)
    ensures
        r@ == DEFAULT_LORE_BASE@,
{
    string_of(&chars_of(DEFAULT_LORE_BASE))
}

impl Default for ListConfig {
    fn default() -> (r: Self)
        ensures
            r.title@ == default_title(),
            r.short_title is None,
            r.name@ == default_name(),
            r.focus@.len() == 0,
    {
        ListConfig {
            title: default_list_title(),
            short_title: None,
            name: default_list_name(),
            focus: String::new(),
        }
    }
}

impl ListConfig {
    /// `short_title` trimmed when non-blank, otherwise `title`.
    pub open spec fn header_title(&self) -> Seq<char> {
        match self.short_title {
            Some(s) => if trim(s@).len() > 0 {
                trim(s@)
            } else {
                self.title@
            },
            None => self.title@,
        }
    }

    /// Header / crumb title: `short_title` if set, otherwise `title`.
    pub fn short_title(&self) -> (r: &str)
        ensures
            r@ == self.header_title(),
    {
        match &self.short_title {
            Some(s) => {
                let t = trim_slice(s.as_str());
                let tv = chars_of(t);
                if tv.len() > 0 {
                    t
                } else {
                    self.title.as_str()
                }
            },
            None => self.title.as_str(),
        }
    }

    pub open spec fn thread_prompt(&self) -> Seq<char> {
        "You are a technical journalist covering "@ + trim(self.name@)
            + ". Adopt a journalistic tone in your responses."@
    }

    /// System prompt for a thread agent.
    pub fn thread_system_prompt(&self) -> (r: String)
        ensures
            r@ == self.thread_prompt(),
    {
        let mut out = chars_of("You are a technical journalist covering ");
        let n = chars_of(self.name.as_str());
        let n = trim_of(&n);
        crate::text::push_all(&mut out, &n);
        push_str(&mut out, ". Adopt a journalistic tone in your responses.");
        string_of(&out)
    }

    pub open spec fn week_prompt(&self) -> Seq<char> {
        let focus = trim(self.focus@);
        "You are a technical editor covering "@ + trim(self.name@)
            + ".\nWrite a front-page overview of this week's activity: critical bugs, major trends, and ongoing debates.\n"@
            + (if focus.len() > 0 {
            focus + "\n"@
        } else {
            seq![]
        })
            + "Read thread/*.md files via ReadOutputFile as needed. Link discussions with relative paths like thread/<stem>.md.\nCall SubmitWeekOverview exactly once with a non-empty headline (one line) and markdown_body.\n"@
    }

    /// System prompt for the week overview agent.
    pub fn week_system_prompt(&self) -> (r: String)
        ensures
            r@ == self.week_prompt(),
    {
        let mut out = chars_of("You are a technical editor covering ");
        let n = chars_of(self.name.as_str());
        let n = trim_of(&n);
        crate::text::push_all(&mut out, &n);
        push_str(
            &mut out,
            ".\nWrite a front-page overview of this week's activity: critical bugs, major trends, and ongoing debates.\n",
        );
        let f = chars_of(self.focus.as_str());
        let f = trim_of(&f);
        let ghost mid = out@;
        if f.len() > 0 {
            crate::text::push_all(&mut out, &f);
            push_str(&mut out, "\n");
        }
        push_str(
            &mut out,
            "Read thread/*.md files via ReadOutputFile as needed. Link discussions with relative paths like thread/<stem>.md.\nCall SubmitWeekOverview exactly once with a non-empty headline (one line) and markdown_body.\n",
        );
        proof {
            assert(out@ =~= self.week_prompt());
        }
        string_of(&out)
    }
}

} // verus!
