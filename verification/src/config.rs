//! Runtime configuration the core works from. Reading and writing the
//! configuration files is the caller's business; the core only holds the
//! values.

use vstd::prelude::*;

verus! {

/// The LLM provider a session talks to.
#[derive(Clone, Copy, Debug, PartialEq, Eq, Structural)]
pub enum Provider {
    Gemini,
    OpenAI,
}

/// The settings the core reads.
#[derive(Debug, Clone)]
pub struct Config {
    pub provider: Provider,
    pub api_key: String,
    pub model: String,
    /// Preview every tool call; never execute.
    pub safe_mode: bool,
    /// Substrings that flag a shell command as destructive.
    pub dangerous_patterns: Vec<String>,
}

/// The patterns a fresh configuration flags as destructive.
pub open spec fn default_danger_patterns() -> Seq<Seq<char>> {
    seq!["rm -rf /"@, "rm -rf /*"@, "mkfs"@, "dd if="@, ":(){ :|:& };:"@, "> /dev/sd"@]
}

/// The mathematical shape of a configuration.
pub struct ConfigV {
    pub provider: Provider,
    pub api_key: Seq<char>,
    pub model: Seq<char>,
    pub safe_mode: bool,
    pub dangerous_patterns: Seq<Seq<char>>,
}

impl View for Config {
    type V = ConfigV;

    open spec fn view(&self) -> ConfigV {
        ConfigV {
            provider: self.provider,
            api_key: self.api_key@,
            model: self.model@,
            safe_mode: self.safe_mode,
            dangerous_patterns: self.dangerous_patterns.deep_view(),
        }
    }
}

impl Config {
    /// Is a provider key configured?
    pub fn has_api_key(&self) -> (r: bool)
        ensures
            r == (self.api_key@.len() > 0),
    {
        !self.api_key.as_str().is_empty()
    }
}

impl Default for Config {
    /// A fresh configuration: Gemini, no key, safe mode off, and the
    /// built-in destructive patterns.
    fn default() -> (r: Config)
        ensures
            r.provider == Provider::Gemini,
            r.api_key@ == Seq::<char>::empty(),
            r.model@ == "gemini-2.0-flash"@,
            !r.safe_mode,
            r.dangerous_patterns.deep_view() == default_danger_patterns(),
    {
        let patterns: Vec<String> = vec![
            String::from_str("rm -rf /"),
            String::from_str("rm -rf /*"),
            String::from_str("mkfs"),
            String::from_str("dd if="),
            String::from_str(":(){ :|:& };:"),
            String::from_str("> /dev/sd"),
        ];
        let r = Config {
            provider: Provider::Gemini,
            api_key: String::new(),
            model: String::from_str("gemini-2.0-flash"),
            safe_mode: false,
            dangerous_patterns: patterns,
        };
        proof {
            assert(r.dangerous_patterns.deep_view() =~= default_danger_patterns());
        }
        r
    }
}

} // verus!
