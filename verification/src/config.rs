//! Server configuration and its defaults.
//!
//! The configuration is provided by the client in the initialization
//! options; every field that is missing takes the default stated here.

use vstd::prelude::*;
use crate::text::{chars_of, push_char, lemma_utf8_len_at_least, lemma_utf8_len_strict};

verus! {

/// Severity of a published diagnostic (the LSP `DiagnosticSeverity`).
#[derive(Debug, Clone, Copy, PartialEq, Eq, Structural)]
pub enum DiagnosticSeverity {
    Error,
    Warning,
    Information,
    Hint,
}

pub open spec fn spec_severity_code(s: DiagnosticSeverity) -> i32 {
    match s {
        DiagnosticSeverity::Error => 1,
        DiagnosticSeverity::Warning => 2,
        DiagnosticSeverity::Information => 3,
        DiagnosticSeverity::Hint => 4,
    }
}

impl DiagnosticSeverity {
    /// The protocol's number for this severity.
    pub fn code(self) -> (r: i32)
        ensures
            r == spec_severity_code(self),
    {
        match self {
            DiagnosticSeverity::Error => 1,
            DiagnosticSeverity::Warning => 2,
            DiagnosticSeverity::Information => 3,
            DiagnosticSeverity::Hint => 4,
        }
    }

    /// The severity with the protocol number `code`, if there is one.
    pub fn from_code(code: i32) -> (r: Option<DiagnosticSeverity>)
        ensures
            match r {
                Some(s) => spec_severity_code(s) == code,
                None => !(1 <= code <= 4),
            },
    {
        if code == 1 {
            Some(DiagnosticSeverity::Error)
        } else if code == 2 {
            Some(DiagnosticSeverity::Warning)
        } else if code == 3 {
            Some(DiagnosticSeverity::Information)
        } else if code == 4 {
            Some(DiagnosticSeverity::Hint)
        } else {
            None
        }
    }
}

/// Configuration for inlay hints (inline version annotations).
#[derive(Debug, Clone)]
pub struct InlayHintsConfig {
    pub enabled: bool,
    pub up_to_date_text: String,
    /// `{}` in it is replaced with the latest version.
    pub needs_update_text: String,
}

impl Default for InlayHintsConfig {
    fn default() -> (r: Self)
        ensures
            r.enabled,
            r.up_to_date_text@ == "✅"@,
            r.needs_update_text@ == "❌ {}"@,
    {
        InlayHintsConfig {
            enabled: true,
            up_to_date_text: default_up_to_date(),
            needs_update_text: default_needs_update(),
        }
    }
}

/// Severities reported for the kinds of dependency problems.
#[derive(Debug, Clone)]
pub struct DiagnosticsConfig {
    /// Dependencies with available updates.
    pub outdated_severity: DiagnosticSeverity,
    /// Dependencies not found in the registry.
    pub unknown_severity: DiagnosticSeverity,
    /// Dependencies on yanked versions.
    pub yanked_severity: DiagnosticSeverity,
}

impl Default for DiagnosticsConfig {
    fn default() -> (r: Self)
        ensures
            r.outdated_severity == DiagnosticSeverity::Hint,
            r.unknown_severity == DiagnosticSeverity::Warning,
            r.yanked_severity == DiagnosticSeverity::Warning,
    {
        DiagnosticsConfig {
            outdated_severity: DiagnosticSeverity::Hint,
            unknown_severity: DiagnosticSeverity::Warning,
            yanked_severity: DiagnosticSeverity::Warning,
        }
    }
}

/// Configuration for HTTP caching of registry requests.
#[derive(Debug)]
pub struct CacheConfig {
    pub refresh_interval_secs: u64,
    pub enabled: bool,
}

impl Default for CacheConfig {
    fn default() -> (r: Self)
        ensures
            r.refresh_interval_secs == 300,
            r.enabled,
    {
        CacheConfig { refresh_interval_secs: default_refresh_interval(), enabled: true }
    }
}

/// Configuration for loading feedback while registry data is fetched.
#[derive(Debug, Clone)]
pub struct LoadingIndicatorConfig {
    pub enabled: bool,
    /// Show progress in inlay hints when the client has no progress support.
    pub fallback_to_hints: bool,
    /// At most `MAX_LOADING_TEXT_LENGTH` bytes, see `validate_loading_text`.
    pub loading_text: String,
}

impl Default for LoadingIndicatorConfig {
    fn default() -> (r: Self)
        ensures
            r.enabled,
            r.fallback_to_hints,
            r.loading_text@ == "⏳"@,
    {
        LoadingIndicatorConfig {
            enabled: true,
            fallback_to_hints: true,
            loading_text: default_loading_text(),
        }
    }
}

/// Configuration for loading documents from disk that were never opened.
#[derive(Debug, Clone)]
pub struct ColdStartConfig {
    pub enabled: bool,
    /// Minimum interval between two cold starts of the same document.
    pub rate_limit_ms: u64,
}

impl Default for ColdStartConfig {
    fn default() -> (r: Self)
        ensures
            r.enabled,
            r.rate_limit_ms == 100,
    {
        ColdStartConfig { enabled: true, rate_limit_ms: default_rate_limit_ms() }
    }
}

/// Root configuration of the server.
#[derive(Debug)]
pub struct DepsConfig {
    pub inlay_hints: InlayHintsConfig,
    pub diagnostics: DiagnosticsConfig,
    pub cache: CacheConfig,
    pub cold_start: ColdStartConfig,
    pub loading_indicator: LoadingIndicatorConfig,
}

impl Default for DepsConfig {
    fn default() -> (r: Self)
        ensures
            r.inlay_hints.enabled,
            r.inlay_hints.up_to_date_text@ == "✅"@,
            r.inlay_hints.needs_update_text@ == "❌ {}"@,
            r.diagnostics.outdated_severity == DiagnosticSeverity::Hint,
            r.diagnostics.unknown_severity == DiagnosticSeverity::Warning,
            r.diagnostics.yanked_severity == DiagnosticSeverity::Warning,
            r.cache.refresh_interval_secs == 300,
            r.cache.enabled,
            r.cold_start.enabled,
            r.cold_start.rate_limit_ms == 100,
            r.loading_indicator.enabled,
            r.loading_indicator.fallback_to_hints,
            r.loading_indicator.loading_text@ == "⏳"@,
    {
        DepsConfig {
            inlay_hints: InlayHintsConfig::default(),
            diagnostics: DiagnosticsConfig::default(),
            cache: CacheConfig::default(),
            cold_start: ColdStartConfig::default(),
            loading_indicator: LoadingIndicatorConfig::default(),
        }
    }
}

/// Default of the boolean switches.
pub fn default_true() -> (r: bool)
    ensures
        r,
{
    true
}

pub fn default_up_to_date() -> (r: String)
    ensures
        r@ == "✅"@,
{
    "✅".to_owned()
}

pub fn default_needs_update() -> (r: String)
    ensures
        r@ == "❌ {}"@,
{
    "❌ {}".to_owned()
}

pub fn default_loading_text() -> (r: String)
    ensures
        r@ == "⏳"@,
{
    "⏳".to_owned()
}

pub fn default_outdated_severity() -> (r: DiagnosticSeverity)
    ensures
        r == DiagnosticSeverity::Hint,
{
    DiagnosticSeverity::Hint
}

pub fn default_unknown_severity() -> (r: DiagnosticSeverity)
    ensures
        r == DiagnosticSeverity::Warning,
{
    DiagnosticSeverity::Warning
}

pub fn default_yanked_severity() -> (r: DiagnosticSeverity)
    ensures
        r == DiagnosticSeverity::Warning,
{
    DiagnosticSeverity::Warning
}

/// Five minutes.
pub fn default_refresh_interval() -> (r: u64)
    ensures
        r == 300,
{
    300
}

/// Ten cold starts per second and document.
pub fn default_rate_limit_ms() -> (r: u64)
    ensures
        r == 100,
{
    100
}

/// Maximum length of `loading_text`, in bytes of UTF-8.
pub const MAX_LOADING_TEXT_LENGTH: usize = 100;

/// What `validate_loading_text` makes of a text: one longer than the limit
/// in bytes keeps its first `MAX_LOADING_TEXT_LENGTH` characters.
pub open spec fn spec_validated_loading_text(text: Seq<char>) -> Seq<char> {
    if vstd::utf8::encode_utf8(text).len() > MAX_LOADING_TEXT_LENGTH {
        if text.len() > MAX_LOADING_TEXT_LENGTH {
            text.take(MAX_LOADING_TEXT_LENGTH as int)
        } else {
            text
        }
    } else {
        text
    }
}

/// Truncates an overlong `loading_text`.
pub fn validate_loading_text(text: String) -> (r: String)
    requires
        vstd::utf8::encode_utf8(text@).len() <= usize::MAX,
    ensures
        r@ == spec_validated_loading_text(text@),
        vstd::utf8::encode_utf8(r@).len() <= vstd::utf8::encode_utf8(text@).len(),
{
    proof {
        law_loading_text_bounded_and_stable(text@);
    }
    if text.as_str().len() > MAX_LOADING_TEXT_LENGTH {
        let cs = chars_of(text.as_str());
        let n = if cs.len() > MAX_LOADING_TEXT_LENGTH {
            MAX_LOADING_TEXT_LENGTH
        } else {
            cs.len()
        };
        let mut out = String::new();
        let mut i: usize = 0;
        while i < n
            invariant
                i <= n <= cs@.len(),
                out@ == cs@.take(i as int),
            decreases n - i,
        {
            push_char(&mut out, cs[i]);
            assert(cs@.take(i + 1) =~= cs@.take(i as int).push(cs@[i as int]));
            i = i + 1;
        }
        proof {
            assert(cs@.take(cs@.len() as int) =~= cs@);
        }
        out
    } else {
        text
    }
}

/// Each severity has a protocol number from 1 to 4, and no two severities
/// share one: reading the number back gives the severity.
pub proof fn law_severity_code_round_trip(a: DiagnosticSeverity, b: DiagnosticSeverity)
    ensures
        1 <= spec_severity_code(a) <= 4,
        spec_severity_code(a) == spec_severity_code(b) ==> a == b,
{
}

/// The loading text shown is the first `MAX_LOADING_TEXT_LENGTH`
/// characters of the configured text (all of it where it has no more), it
/// is never longer in UTF-8 than the configured one, and validating it again
/// changes nothing.
pub proof fn law_loading_text_bounded_and_stable(text: Seq<char>)
    ensures
        spec_validated_loading_text(text).len() == if text.len() <= MAX_LOADING_TEXT_LENGTH {
            text.len()
        } else {
            MAX_LOADING_TEXT_LENGTH as nat
        },
        spec_validated_loading_text(text) == text.take(spec_validated_loading_text(text).len() as int),
        (spec_validated_loading_text(text) == text) <==> text.len() <= MAX_LOADING_TEXT_LENGTH,
        vstd::utf8::encode_utf8(spec_validated_loading_text(text)).len()
            <= vstd::utf8::encode_utf8(text).len(),
        spec_validated_loading_text(spec_validated_loading_text(text))
            == spec_validated_loading_text(text),
{
    lemma_utf8_len_at_least(text);
    assert(text.take(text.len() as int) =~= text);
    if text.len() > MAX_LOADING_TEXT_LENGTH {
        lemma_utf8_len_strict(text, MAX_LOADING_TEXT_LENGTH as int, text.len() as int);
        let t = text.take(MAX_LOADING_TEXT_LENGTH as int);
        assert(t.take(t.len() as int) =~= t);
        assert(t.len() != text.len());
    }
}

} // verus!
