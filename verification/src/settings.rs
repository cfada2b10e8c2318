//! Model and account settings: their defaults, how an edit from the settings
//! form applies, whether a form would change anything, and the checks made
//! before calling the vision model or the official-account API. The sampling
//! temperature and the prices are decimals and are kept beside these settings
//! by the application.

use vstd::prelude::*;
use crate::text::{decimal, decimal_string, push_str};

verus! {

/// The chat-completions endpoint used when none is configured.
pub fn default_endpoint() -> (s: String)
    ensures
        s@ == "https://api.openai.com/v1/chat/completions"@,
{
    "https://api.openai.com/v1/chat/completions".to_owned()
}

/// The model used when none is configured.
pub fn default_model() -> (s: String)
    ensures
        s@ == "gpt-4o-mini"@,
{
    "gpt-4o-mini".to_owned()
}

/// The context length assumed when none is configured.
pub fn default_context_length() -> (n: usize)
    ensures
        n == 128_000,
{
    128_000
}

/// The completion budget used when none is configured.
pub fn default_max_tokens() -> (n: usize)
    ensures
        n == 100000,
{
    100000
}

/// The views of an optional string.
pub open spec fn opt_view(o: Option<String>) -> Option<Seq<char>> {
    match o {
        Some(s) => Some(s@),
        None => None,
    }
}

/// The integer and text settings of the model and of the account.
#[derive(Clone, Debug)]
pub struct ModelSettings {
    pub endpoint: String,
    pub api_key: String,
    pub model: String,
    pub context_length: usize,
    pub thinking_mode: bool,
    pub max_tokens: usize,
    pub vision_endpoint: Option<String>,
    pub vision_api_key: Option<String>,
    pub vision_model: Option<String>,
    pub vision_max_tokens: Option<usize>,
    pub vision_desc_max_chars: Option<usize>,
    pub wx_app_id: Option<String>,
    pub wx_app_secret: Option<String>,
    pub token_budget: Option<usize>,
}

/// The settings as the settings page shows them: the key and the secrets
/// are left out, only whether they are set is shown.
pub struct ShownSettings {
    pub endpoint: String,
    pub model: String,
    pub context_length: usize,
    pub thinking_mode: bool,
    pub max_tokens: usize,
    pub api_key_configured: bool,
    pub vision_endpoint: Option<String>,
    pub vision_model: Option<String>,
    pub vision_max_tokens: Option<usize>,
    pub vision_desc_max_chars: Option<usize>,
    pub vision_configured: bool,
    pub wx_app_id: Option<String>,
    pub wx_configured: bool,
    pub token_budget: Option<usize>,
}

/// An edit from the settings form: a field left `None` is not touched.
#[derive(Clone, Debug)]
pub struct SettingsUpdate {
    pub endpoint: Option<String>,
    pub api_key: Option<String>,
    pub model: Option<String>,
    pub context_length: Option<usize>,
    pub thinking_mode: Option<bool>,
    pub max_tokens: Option<usize>,
    pub vision_endpoint: Option<String>,
    pub vision_api_key: Option<String>,
    pub vision_model: Option<String>,
    pub vision_max_tokens: Option<usize>,
    pub vision_desc_max_chars: Option<usize>,
    pub wx_app_id: Option<String>,
    pub wx_app_secret: Option<String>,
    pub token_budget: Option<usize>,
}

/// A text field after an edit.
pub open spec fn edited_text(old: String, v: Option<String>) -> Seq<char> {
    match v {
        Some(x) => x@,
        None => old@,
    }
}

/// An optional text field after an edit: a given value replaces it.
pub open spec fn edited_opt_text(old: Option<String>, v: Option<String>) -> Option<Seq<char>> {
    match v {
        Some(x) => Some(x@),
        None => opt_view(old),
    }
}

/// A secret after an edit: a given non-empty secret replaces it, an empty
/// one keeps the stored secret.
pub open spec fn edited_secret(old: String, v: Option<String>) -> Seq<char> {
    match v {
        Some(x) => if x@.len() > 0 { x@ } else { old@ },
        None => old@,
    }
}

/// An optional secret after an edit: a given non-empty secret replaces it,
/// an empty one keeps the stored secret.
pub open spec fn edited_opt_secret(old: Option<String>, v: Option<String>) -> Option<Seq<char>> {
    match v {
        Some(x) => if x@.len() > 0 { Some(x@) } else { opt_view(old) },
        None => opt_view(old),
    }
}

/// A value after an edit.
pub open spec fn edited<T>(old: T, v: Option<T>) -> T {
    match v {
        Some(x) => x,
        None => old,
    }
}

/// An optional value after an edit: a given value replaces it.
pub open spec fn edited_opt<T>(old: Option<T>, v: Option<T>) -> Option<T> {
    match v {
        Some(x) => Some(x),
        None => old,
    }
}

/// Whether the edit of a text field differs from its value.
pub open spec fn text_differs(cur: String, v: Option<String>) -> bool {
    match v {
        Some(x) => x@ != cur@,
        None => false,
    }
}

/// Whether the edit of an optional text field differs from its value.
pub open spec fn opt_text_differs(cur: Option<String>, v: Option<String>) -> bool {
    match v {
        Some(x) => opt_view(cur) != Some(x@),
        None => false,
    }
}

/// Whether the edit of a value differs from it.
pub open spec fn value_differs<T>(cur: T, v: Option<T>) -> bool {
    match v {
        Some(x) => x != cur,
        None => false,
    }
}

/// Whether the edit of an optional value differs from it.
pub open spec fn opt_value_differs<T>(cur: Option<T>, v: Option<T>) -> bool {
    match v {
        Some(x) => cur != Some(x),
        None => false,
    }
}

/// Whether a secret typed into the form counts as a change: an empty one
/// means "keep the stored secret".
pub open spec fn secret_typed(v: Option<String>) -> bool {
    match v {
        Some(x) => x@.len() > 0,
        None => false,
    }
}

/// Whether saving the form would change the settings.
pub open spec fn form_changes(c: ModelSettings, u: SettingsUpdate) -> bool {
    ||| text_differs(c.endpoint, u.endpoint)
    ||| text_differs(c.model, u.model)
    ||| value_differs(c.context_length, u.context_length)
    ||| value_differs(c.max_tokens, u.max_tokens)
    ||| value_differs(c.thinking_mode, u.thinking_mode)
    ||| secret_typed(u.api_key)
    ||| opt_text_differs(c.vision_endpoint, u.vision_endpoint)
    ||| secret_typed(u.vision_api_key)
    ||| opt_text_differs(c.vision_model, u.vision_model)
    ||| opt_value_differs(c.vision_max_tokens, u.vision_max_tokens)
    ||| opt_value_differs(c.vision_desc_max_chars, u.vision_desc_max_chars)
    ||| opt_text_differs(c.wx_app_id, u.wx_app_id)
    ||| secret_typed(u.wx_app_secret)
    ||| opt_value_differs(c.token_budget, u.token_budget)
}

/// The settings after an edit: every given field replaces the stored one,
/// but for the key and the secrets, which an empty entry leaves as they were.
pub open spec fn applied(c: ModelSettings, u: SettingsUpdate, n: ModelSettings) -> bool {
    &&& n.endpoint@ == edited_text(c.endpoint, u.endpoint)
    &&& n.api_key@ == edited_secret(c.api_key, u.api_key)
    &&& n.model@ == edited_text(c.model, u.model)
    &&& n.context_length == edited(c.context_length, u.context_length)
    &&& n.thinking_mode == edited(c.thinking_mode, u.thinking_mode)
    &&& n.max_tokens == edited(c.max_tokens, u.max_tokens)
    &&& opt_view(n.vision_endpoint) == edited_opt_text(c.vision_endpoint, u.vision_endpoint)
    &&& opt_view(n.vision_api_key) == edited_opt_secret(c.vision_api_key, u.vision_api_key)
    &&& opt_view(n.vision_model) == edited_opt_text(c.vision_model, u.vision_model)
    &&& n.vision_max_tokens == edited_opt(c.vision_max_tokens, u.vision_max_tokens)
    &&& n.vision_desc_max_chars == edited_opt(c.vision_desc_max_chars, u.vision_desc_max_chars)
    &&& opt_view(n.wx_app_id) == edited_opt_text(c.wx_app_id, u.wx_app_id)
    &&& opt_view(n.wx_app_secret) == edited_opt_secret(c.wx_app_secret, u.wx_app_secret)
    &&& n.token_budget == edited_opt(c.token_budget, u.token_budget)
}

fn take_text(old: String, v: Option<String>) -> (r: String)
    ensures
        r@ == edited_text(old, v),
{
    match v {
        Some(x) => x,
        None => old,
    }
}

fn take_opt_text(old: Option<String>, v: Option<String>) -> (r: Option<String>)
    ensures
        opt_view(r) == edited_opt_text(old, v),
{
    match v {
        Some(x) => Some(x),
        None => old,
    }
}

fn take_secret(old: String, v: Option<String>) -> (r: String)
    ensures
        r@ == edited_secret(old, v),
{
    match v {
        Some(x) => if x.as_str().is_empty() { old } else { x },
        None => old,
    }
}

fn take_opt_secret(old: Option<String>, v: Option<String>) -> (r: Option<String>)
    ensures
        opt_view(r) == edited_opt_secret(old, v),
{
    match v {
        Some(x) => if x.as_str().is_empty() { old } else { Some(x) },
        None => old,
    }
}

fn take_value<T>(old: T, v: Option<T>) -> (r: T)
    ensures
        r == edited(old, v),
{
    match v {
        Some(x) => x,
        None => old,
    }
}

fn take_opt_value<T>(old: Option<T>, v: Option<T>) -> (r: Option<T>)
    ensures
        r == edited_opt(old, v),
{
    match v {
        Some(x) => Some(x),
        None => old,
    }
}

fn text_differs_exec(cur: &String, v: &Option<String>) -> (b: bool)
    ensures
        b == text_differs(*cur, *v),
{
    match v {
        Some(x) => !crate::text::str_eq_chars(x.as_str(), &crate::text::chars_of(cur.as_str())),
        None => false,
    }
}

fn opt_text_differs_exec(cur: &Option<String>, v: &Option<String>) -> (b: bool)
    ensures
        b == opt_text_differs(*cur, *v),
{
    match v {
        Some(x) => match cur {
            Some(c) => !crate::text::str_eq_chars(x.as_str(), &crate::text::chars_of(c.as_str())),
            None => true,
        },
        None => false,
    }
}

fn opt_usize_differs_exec(cur: Option<usize>, v: Option<usize>) -> (b: bool)
    ensures
        b == opt_value_differs(cur, v),
{
    match v {
        Some(x) => match cur {
            Some(c) => c != x,
            None => true,
        },
        None => false,
    }
}

fn secret_typed_exec(v: &Option<String>) -> (b: bool)
    ensures
        b == secret_typed(*v),
{
    match v {
        Some(x) => !x.as_str().is_empty(),
        None => false,
    }
}

impl ModelSettings {
    /// The settings of a fresh installation: default endpoint, model, context
    /// length and completion budget; no key, no vision model, no account, no budget.
    pub fn defaults() -> (s: ModelSettings)
        ensures
            s.endpoint@ == "https://api.openai.com/v1/chat/completions"@,
            s.api_key@ == Seq::<char>::empty(),
            s.model@ == "gpt-4o-mini"@,
            s.context_length == 128_000,
            !s.thinking_mode,
            s.max_tokens == 100000,
            s.vision_endpoint is None && s.vision_api_key is None && s.vision_model is None,
            s.vision_max_tokens is None && s.vision_desc_max_chars is None,
            s.wx_app_id is None && s.wx_app_secret is None && s.token_budget is None,
    {
        ModelSettings {
            endpoint: default_endpoint(),
            api_key: String::new(),
            model: default_model(),
            context_length: default_context_length(),
            thinking_mode: false,
            max_tokens: default_max_tokens(),
            vision_endpoint: None,
            vision_api_key: None,
            vision_model: None,
            vision_max_tokens: None,
            vision_desc_max_chars: None,
            wx_app_id: None,
            wx_app_secret: None,
            token_budget: None,
        }
    }

    /// The key set in the environment, when it is not empty, replaces the
    /// configured one.
    pub fn with_env_key(self, env_key: Option<String>) -> (s: ModelSettings)
        ensures
            s.api_key@ == (match env_key {
                Some(k) if k@.len() > 0 => k@,
                _ => self.api_key@,
            }),
            s.endpoint == self.endpoint && s.model == self.model,
            s.context_length == self.context_length && s.thinking_mode == self.thinking_mode,
            s.max_tokens == self.max_tokens && s.token_budget == self.token_budget,
            s.vision_endpoint == self.vision_endpoint && s.vision_api_key == self.vision_api_key,
            s.vision_model == self.vision_model && s.vision_max_tokens == self.vision_max_tokens,
            s.vision_desc_max_chars == self.vision_desc_max_chars,
            s.wx_app_id == self.wx_app_id && s.wx_app_secret == self.wx_app_secret,
    {
        let mut s = self;
        match env_key {
            Some(k) => {
                if !k.as_str().is_empty() {
                    s.api_key = k;
                }
            },
            None => {},
        }
        s
    }

    /// Applies an edit from the settings form: each given field replaces the
    /// stored one; an empty key or secret means "keep the stored one".
    pub fn apply(self, u: SettingsUpdate) -> (n: ModelSettings)
        ensures
            applied(self, u, n),
    {
        ModelSettings {
            endpoint: take_text(self.endpoint, u.endpoint),
            api_key: take_secret(self.api_key, u.api_key),
            model: take_text(self.model, u.model),
            context_length: take_value(self.context_length, u.context_length),
            thinking_mode: take_value(self.thinking_mode, u.thinking_mode),
            max_tokens: take_value(self.max_tokens, u.max_tokens),
            vision_endpoint: take_opt_text(self.vision_endpoint, u.vision_endpoint),
            vision_api_key: take_opt_secret(self.vision_api_key, u.vision_api_key),
            vision_model: take_opt_text(self.vision_model, u.vision_model),
            vision_max_tokens: take_opt_value(self.vision_max_tokens, u.vision_max_tokens),
            vision_desc_max_chars: take_opt_value(self.vision_desc_max_chars, u.vision_desc_max_chars),
            wx_app_id: take_opt_text(self.wx_app_id, u.wx_app_id),
            wx_app_secret: take_opt_secret(self.wx_app_secret, u.wx_app_secret),
            token_budget: take_opt_value(self.token_budget, u.token_budget),
        }
    }

    /// Whether saving the form would change these settings (see `form_changes`).
    pub fn form_differs(&self, u: &SettingsUpdate) -> (b: bool)
        ensures
            b == form_changes(*self, *u),
    {
        text_differs_exec(&self.endpoint, &u.endpoint) || text_differs_exec(&self.model, &u.model)
            || match u.context_length {
            Some(v) => v != self.context_length,
            None => false,
        } || match u.max_tokens {
            Some(v) => v != self.max_tokens,
            None => false,
        } || match u.thinking_mode {
            Some(v) => v != self.thinking_mode,
            None => false,
        } || secret_typed_exec(&u.api_key) || opt_text_differs_exec(
            &self.vision_endpoint,
            &u.vision_endpoint,
        ) || secret_typed_exec(&u.vision_api_key) || opt_text_differs_exec(
            &self.vision_model,
            &u.vision_model,
        ) || opt_usize_differs_exec(self.vision_max_tokens, u.vision_max_tokens)
            || opt_usize_differs_exec(self.vision_desc_max_chars, u.vision_desc_max_chars)
            || opt_text_differs_exec(&self.wx_app_id, &u.wx_app_id) || secret_typed_exec(
            &u.wx_app_secret,
        ) || opt_usize_differs_exec(self.token_budget, u.token_budget)
    }

    /// What the settings page shows of these settings: every field but the
    /// key and the secrets, which appear only as whether they are set.
    pub fn shown(&self) -> (v: ShownSettings)
        ensures
            v.endpoint == self.endpoint && v.model == self.model,
            v.context_length == self.context_length && v.thinking_mode == self.thinking_mode,
            v.max_tokens == self.max_tokens,
            v.api_key_configured == (self.api_key@.len() > 0),
            v.vision_endpoint == self.vision_endpoint && v.vision_model == self.vision_model,
            v.vision_max_tokens == self.vision_max_tokens && v.vision_desc_max_chars == self.vision_desc_max_chars,
            v.vision_configured == self.vision_model is Some,
            v.wx_app_id == self.wx_app_id,
            v.wx_configured == (self.wx_app_id is Some && self.wx_app_secret is Some),
            v.token_budget == self.token_budget,
    {
        ShownSettings {
            endpoint: self.endpoint.clone(),
            model: self.model.clone(),
            context_length: self.context_length,
            thinking_mode: self.thinking_mode,
            max_tokens: self.max_tokens,
            api_key_configured: self.api_key_configured(),
            vision_endpoint: self.vision_endpoint.clone(),
            vision_model: self.vision_model.clone(),
            vision_max_tokens: self.vision_max_tokens,
            vision_desc_max_chars: self.vision_desc_max_chars,
            vision_configured: self.vision_configured(),
            wx_app_id: self.wx_app_id.clone(),
            wx_configured: self.wx_configured(),
            token_budget: self.token_budget,
        }
    }

    /// Whether an API key is configured.
    pub fn api_key_configured(&self) -> (b: bool)
        ensures
            b == (self.api_key@.len() > 0),
    {
        !self.api_key.as_str().is_empty()
    }

    /// Whether a vision model is configured.
    pub fn vision_configured(&self) -> (b: bool)
        ensures
            b == self.vision_model is Some,
    {
        self.vision_model.is_some()
    }

    /// Whether both official-account credentials are configured.
    pub fn wx_configured(&self) -> (b: bool)
        ensures
            b == (self.wx_app_id is Some && self.wx_app_secret is Some),
    {
        self.wx_app_id.is_some() && self.wx_app_secret.is_some()
    }
}

// ---------------------------------------------------------------------------
// Laws of the settings form
// ---------------------------------------------------------------------------

/// Whether two settings hold the same values.
pub open spec fn same_settings(a: ModelSettings, b: ModelSettings) -> bool {
    &&& a.endpoint@ == b.endpoint@ && a.api_key@ == b.api_key@ && a.model@ == b.model@
    &&& a.context_length == b.context_length && a.thinking_mode == b.thinking_mode
    &&& a.max_tokens == b.max_tokens
    &&& opt_view(a.vision_endpoint) == opt_view(b.vision_endpoint)
    &&& opt_view(a.vision_api_key) == opt_view(b.vision_api_key)
    &&& opt_view(a.vision_model) == opt_view(b.vision_model)
    &&& a.vision_max_tokens == b.vision_max_tokens && a.vision_desc_max_chars == b.vision_desc_max_chars
    &&& opt_view(a.wx_app_id) == opt_view(b.wx_app_id) && opt_view(a.wx_app_secret) == opt_view(b.wx_app_secret)
    &&& a.token_budget == b.token_budget
}

/// Once a form is saved, asking about the same form reports no change,
/// unless a secret was typed into it (a typed secret always counts as a change).
pub proof fn law_saved_form_is_unchanged(c: ModelSettings, u: SettingsUpdate, n: ModelSettings)
    requires
        applied(c, u, n),
        !secret_typed(u.api_key),
        !secret_typed(u.vision_api_key),
        !secret_typed(u.wx_app_secret),
    ensures
        !form_changes(n, u),
{
}

/// Saving a form that reports no change leaves the settings as they were.
pub proof fn law_unchanged_form_keeps_settings(c: ModelSettings, u: SettingsUpdate, n: ModelSettings)
    requires
        applied(c, u, n),
        !form_changes(c, u),
    ensures
        same_settings(c, n),
{
}

// ---------------------------------------------------------------------------
// Checks before outside calls
// ---------------------------------------------------------------------------

/// The text of an optional string, empty when there is none.
pub open spec fn or_empty(o: Option<String>) -> Seq<char> {
    match o {
        Some(s) => s@,
        None => Seq::empty(),
    }
}

/// The official-account credentials (app id, secret); an error when either is
/// missing or empty.
pub fn wx_credentials(s: &ModelSettings) -> (r: Result<(String, String), String>)
    ensures
        (or_empty(s.wx_app_id).len() > 0 && or_empty(s.wx_app_secret).len() > 0) ==> (r matches Ok(c)
            && c.0@ == or_empty(s.wx_app_id) && c.1@ == or_empty(s.wx_app_secret)),
        !(or_empty(s.wx_app_id).len() > 0 && or_empty(s.wx_app_secret).len() > 0) ==> (r matches Err(m)
            && m@ == "未配置公众号 AppID/AppSecret，请在设置页填写"@),
{
    let id = match &s.wx_app_id {
        Some(v) => v.clone(),
        None => String::new(),
    };
    let secret = match &s.wx_app_secret {
        Some(v) => v.clone(),
        None => String::new(),
    };
    if id.as_str().is_empty() || secret.as_str().is_empty() {
        Err("未配置公众号 AppID/AppSecret，请在设置页填写".to_owned())
    } else {
        Ok((id, secret))
    }
}

/// The message that stops a task once the token budget is used up.
pub open spec fn budget_message(total: nat, budget: nat) -> Seq<char> {
    "Token 用量 ("@ + decimal(total) + ") 已达预算上限 ("@ + decimal(budget) + ")，自动中断"@
}

/// The message that stops a task when a budget is set and the tokens used so
/// far reach it; `None` otherwise.
pub fn budget_exceeded(budget: Option<usize>, total: usize) -> (r: Option<String>)
    ensures
        match budget {
            Some(b) if total >= b => r matches Some(m) && m@ == budget_message(total as nat, b as nat),
            _ => r is None,
        },
{
    match budget {
        Some(b) => {
            if total >= b {
                let mut m = String::new();
                push_str(&mut m, "Token 用量 (");
                let t = decimal_string(total as u64);
                push_str(&mut m, t.as_str());
                push_str(&mut m, ") 已达预算上限 (");
                let bs = decimal_string(b as u64);
                push_str(&mut m, bs.as_str());
                push_str(&mut m, ")，自动中断");
                Some(m)
            } else {
                None
            }
        },
        None => None,
    }
}

/// The progress line shown while a reply streams in: the answer's length
/// once it has started, else the length of the reasoning so far.
pub open spec fn progress_line(content: nat, reasoning: nat) -> Seq<char> {
    if content > 0 {
        "已生成 "@ + decimal(content) + " 字..."@
    } else {
        "思考中 "@ + decimal(reasoning) + " 字..."@
    }
}

/// The progress line for the character counts received so far.
pub fn progress_message(content: usize, reasoning: usize) -> (m: String)
    ensures
        m@ == progress_line(content as nat, reasoning as nat),
{
    let mut m = String::new();
    if content > 0 {
        push_str(&mut m, "已生成 ");
        let n = decimal_string(content as u64);
        push_str(&mut m, n.as_str());
    } else {
        push_str(&mut m, "思考中 ");
        let n = decimal_string(reasoning as u64);
        push_str(&mut m, n.as_str());
    }
    push_str(&mut m, " 字...");
    m
}

} // verus!
