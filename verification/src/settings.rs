//! Provider settings: the singleton configuration record, its storage row,
//! and the validation the settings write endpoint performs.

use vstd::prelude::*;
use crate::redact::is_space;

verus! {

/// The singleton provider configuration. Temperature is carried in
/// thousandths, so 200 stands for 0.2; an absent value means the default.
pub struct AiSettings {
    pub provider_url: String,
    pub api_key: Option<String>,
    pub model_name: String,
    pub temperature_milli: Option<u32>,
    pub batch_size: Option<u32>,
    pub summary_frequency_minutes: Option<u32>,
}

/// The settings row as it stands in the durable table.
pub struct AiSettingsRow {
    pub provider_url: String,
    pub api_key: Option<String>,
    pub model_name: String,
}

impl From<AiSettingsRow> for AiSettings {
    fn from(row: AiSettingsRow) -> (r: AiSettings) {
        AiSettings {
            provider_url: row.provider_url,
            api_key: row.api_key,
            model_name: row.model_name,
            temperature_milli: None,
            batch_size: None,
            summary_frequency_minutes: None,
        }
    }
}

impl vstd::std_specs::convert::FromSpecImpl<AiSettingsRow> for AiSettings {
    open spec fn obeys_from_spec() -> bool {
        true
    }

    open spec fn from_spec(row: AiSettingsRow) -> AiSettings {
        AiSettings {
            provider_url: row.provider_url,
            api_key: row.api_key,
            model_name: row.model_name,
            temperature_milli: None,
            batch_size: None,
            summary_frequency_minutes: None,
        }
    }
}

/// What a settings write carries.
pub struct SaveAiSettingsPayload {
    pub provider_url: String,
    pub api_key: Option<String>,
    pub model_name: String,
    pub temperature_milli: Option<u32>,
    pub batch_size: Option<u32>,
    pub summary_frequency_minutes: Option<u32>,
}

/// What a settings read returns.
pub struct AiSettingsResponse {
    pub provider_url: String,
    pub api_key: Option<String>,
    pub model_name: String,
    pub temperature_milli: Option<u32>,
    pub batch_size: Option<u32>,
    pub summary_frequency_minutes: Option<u32>,
}

/// Which field a settings write failed on.
#[derive(Debug, PartialEq, Eq, Structural)]
pub enum ValidationError {
    /// The provider URL is empty after trimming.
    EmptyProviderUrl,
    /// The model name is empty after trimming.
    EmptyModelName,
}

// ---------------------------------------------------------------------------
// Whitespace trimming
// ---------------------------------------------------------------------------

/// First index at or after `i` that is no whitespace, or the end.
pub open spec fn trim_start_idx(s: Seq<char>, i: int) -> int
    decreases s.len() - i,
{
    if i < 0 || i >= s.len() {
        s.len() as int
    } else if is_space(s[i]) {
        trim_start_idx(s, i + 1)
    } else {
        i
    }
}

/// End of the text with trailing whitespace dropped, scanning down from `e`.
pub open spec fn trim_end_idx(s: Seq<char>, e: int) -> int
    decreases e,
{
    if e <= 0 || e > s.len() {
        0
    } else if is_space(s[e - 1]) {
        trim_end_idx(s, e - 1)
    } else {
        e
    }
}

/// The text with leading and trailing ASCII whitespace removed.
pub open spec fn trimmed(s: Seq<char>) -> Seq<char> {
    let a = trim_start_idx(s, 0);
    let b = trim_end_idx(s, s.len() as int);
    if a < b {
        s.subrange(a, b)
    } else {
        Seq::empty()
    }
}

pub proof fn lemma_trim_bounds(s: Seq<char>)
    ensures
        0 <= trim_start_idx(s, 0) <= s.len(),
        0 <= trim_end_idx(s, s.len() as int) <= s.len(),
{
    lemma_trim_start(s, 0);
    lemma_trim_end(s, s.len() as int);
}

proof fn lemma_trim_start(s: Seq<char>, i: int)
    requires
        0 <= i <= s.len(),
    ensures
        i <= trim_start_idx(s, i) <= s.len(),
    decreases s.len() - i,
{
    if i < s.len() && is_space(s[i]) {
        lemma_trim_start(s, i + 1);
    }
}

proof fn lemma_trim_end(s: Seq<char>, e: int)
    requires
        0 <= e <= s.len(),
    ensures
        0 <= trim_end_idx(s, e) <= e,
    decreases e,
{
    if 0 < e <= s.len() && is_space(s[e - 1]) {
        lemma_trim_end(s, e - 1);
    }
}

/// Remove leading and trailing ASCII whitespace.
pub fn trim_str(s: &str) -> (r: String)
    ensures
        r@ == trimmed(s@),
{
    let n = s.unicode_len();
    let mut a: usize = 0;
    while a < n && char_is_space(s.get_char(a))
        invariant
            a <= n,
            n == s@.len(),
            trim_start_idx(s@, 0) == trim_start_idx(s@, a as int),
        decreases n - a,
    {
        a = a + 1;
    }
    let mut b: usize = n;
    while b > 0 && char_is_space(s.get_char(b - 1))
        invariant
            b <= n,
            n == s@.len(),
            trim_end_idx(s@, n as int) == trim_end_idx(s@, b as int),
        decreases b,
    {
        b = b - 1;
    }
    if a < b {
        String::from_str(s.substring_char(a, b))
    } else {
        String::new()
    }
}

fn char_is_space(c: char) -> (r: bool)
    ensures
        r == is_space(c),
{
    let v = c as u32;
    c == ' ' || c == '\t' || c == '\n' || c == '\r' || v == 11 || v == 12
}

// ---------------------------------------------------------------------------
// Validation
// ---------------------------------------------------------------------------

/// The normalized key a write stores: the trimmed key when it is non-empty,
/// otherwise absent.
pub open spec fn normalized_key(k: Option<Seq<char>>) -> Option<Seq<char>> {
    match k {
        Some(s) => if trimmed(s).len() > 0 {
            Some(trimmed(s))
        } else {
            None
        },
        None => None,
    }
}

/// Validate a settings write: the provider URL and the model name must be
/// non-empty after trimming (checked in that order), an empty key is
/// normalized to absent, and the tuning knobs pass through.
pub fn validate_settings(payload: SaveAiSettingsPayload) -> (r: Result<
    AiSettings,
    ValidationError,
>)
    ensures
        (trimmed(payload.provider_url@).len() == 0) <==> (r == Err::<AiSettings, ValidationError>(
            ValidationError::EmptyProviderUrl,
        )),
        (trimmed(payload.provider_url@).len() > 0 && trimmed(payload.model_name@).len() == 0) <==> (
        r == Err::<AiSettings, ValidationError>(ValidationError::EmptyModelName)),
        (match r {
            Ok(s) => {
                &&& s.provider_url@ == trimmed(payload.provider_url@)
                &&& s.model_name@ == trimmed(payload.model_name@)
                &&& crate::models::opt_view(s.api_key) == normalized_key(
                    crate::models::opt_view(payload.api_key),
                )
                &&& s.temperature_milli == payload.temperature_milli
                &&& s.batch_size == payload.batch_size
                &&& s.summary_frequency_minutes == payload.summary_frequency_minutes
            },
            Err(_) => true,
        }),
{
    let provider_url = trim_str(payload.provider_url.as_str());
    if provider_url.as_str().unicode_len() == 0 {
        return Err(ValidationError::EmptyProviderUrl);
    }
    let model_name = trim_str(payload.model_name.as_str());
    if model_name.as_str().unicode_len() == 0 {
        return Err(ValidationError::EmptyModelName);
    }
    let api_key = match &payload.api_key {
        Some(k) => {
            let t = trim_str(k.as_str());
            if t.as_str().unicode_len() == 0 {
                None
            } else {
                Some(t)
            }
        },
        None => None,
    };
    Ok(
        AiSettings {
            provider_url,
            api_key,
            model_name,
            temperature_milli: payload.temperature_milli,
            batch_size: payload.batch_size,
            summary_frequency_minutes: payload.summary_frequency_minutes,
        },
    )
}

/// The read endpoint's view of the settings.
pub fn settings_response(s: &AiSettings) -> (r: AiSettingsResponse)
    ensures
        r.provider_url@ == s.provider_url@,
        crate::models::opt_view(r.api_key) == crate::models::opt_view(s.api_key),
        r.model_name@ == s.model_name@,
        r.temperature_milli == s.temperature_milli,
        r.batch_size == s.batch_size,
        r.summary_frequency_minutes == s.summary_frequency_minutes,
{
    let api_key = match &s.api_key {
        Some(k) => Some(k.clone()),
        None => None,
    };
    AiSettingsResponse {
        provider_url: s.provider_url.clone(),
        api_key,
        model_name: s.model_name.clone(),
        temperature_milli: s.temperature_milli,
        batch_size: s.batch_size,
        summary_frequency_minutes: s.summary_frequency_minutes,
    }
}

} // verus!
