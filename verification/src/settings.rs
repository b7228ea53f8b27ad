//! LLM settings persisted by the application, and the state that holds them.

use std::sync::Mutex;
use vstd::prelude::*;

verus! {

#[verifier::external_type_specification]
#[verifier::external_body]
#[verifier::reject_recursive_types(T)]
pub struct ExMutex<T: ?Sized>(Mutex<T>);

/// LLM settings persisted in the database.
#[derive(Debug, Clone)]
pub struct LlmSettings {
    /// "local" (Ollama) or "cloud" (Gemini)
    pub mode: String,
    /// Ollama model tag for local mode (e.g. "qwen3.5:9b")
    pub ollama_model: Option<String>,
    /// Ollama server base URL (default: "http://localhost:11434")
    pub ollama_url: Option<String>,
    /// API key for cloud provider (Gemini)
    pub api_key: Option<String>,
    /// Cloud model name (default: "gemini-2.5-flash")
    pub cloud_model: Option<String>,
}

/// The view of an optional string.
pub open spec fn opt_view(o: Option<String>) -> Option<Seq<char>> {
    match o {
        Some(s) => Some(s@),
        None => None,
    }
}

impl LlmSettings {
    /// The settings used when none were saved: cloud mode (the default
    /// generation path) with `gemini-2.5-flash` as the cloud model and no API
    /// key yet, and `qwen3.5:9b` at `http://localhost:11434` ready for local
    /// mode.
    pub open spec fn is_default(&self) -> bool {
        &&& self.mode@ == "cloud"@
        &&& opt_view(self.ollama_model) == Some("qwen3.5:9b"@)
        &&& opt_view(self.ollama_url) == Some("http://localhost:11434"@)
        &&& self.api_key is None
        &&& opt_view(self.cloud_model) == Some("gemini-2.5-flash"@)
    }
}

impl Default for LlmSettings {
    fn default() -> (r: Self)
        ensures
            r.is_default(),
    {
        LlmSettings {
            mode: String::from_str("cloud"),
            ollama_model: Some(String::from_str("qwen3.5:9b")),
            ollama_url: Some(String::from_str("http://localhost:11434")),
            api_key: None,
            cloud_model: Some(String::from_str("gemini-2.5-flash")),
        }
    }
}

/// Tauri-managed state holding the current LLM settings.
pub struct LlmState(pub Mutex<LlmSettings>);

/// The settings that loading yields: the stored settings when a saved value
/// was found and read back, the defaults otherwise.
pub fn settings_or_default(stored: Option<LlmSettings>) -> (r: LlmSettings)
    ensures
        match stored {
            Some(s) => r == s,
            None => r.is_default(),
        },
{
    match stored {
        Some(s) => s,
        None => LlmSettings::default(),
    }
}

} // verus!
