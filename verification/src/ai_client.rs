//! The uniform client over the LLM providers. The core only manages which
//! provider and model a session talks to; the HTTP round-trips live with the
//! caller, which surfaces any failure as a plain display string.

use vstd::prelude::*;

verus! {

use crate::config::{Config, Provider};

/// A provider failure, as a display string.
#[derive(Debug)]
pub enum AIError {
    Gemini(String),
    OpenAI(String),
}

impl AIError {
    /// The display string the error carries.
    pub fn message(&self) -> (r: String)
        ensures
            self matches AIError::Gemini(s) ==> r@ == s@,
            self matches AIError::OpenAI(s) ==> r@ == s@,
    {
        match self {
            AIError::Gemini(s) => s.clone(),
            AIError::OpenAI(s) => s.clone(),
        }
    }
}

/// A Gemini session: the key and the selected model.
#[derive(Debug, Clone)]
pub struct GeminiClient {
    pub api_key: String,
    pub model: String,
}

impl GeminiClient {
    /// A client over the configured key and model; refused without a key.
    pub fn new(config: &Config) -> (r: Result<GeminiClient, AIError>)
        ensures
            config.api_key@.len() == 0 ==> (r matches Err(AIError::Gemini(m)) && m@
                == "API key not configured"@),
            config.api_key@.len() > 0 ==> (r matches Ok(c) && c.api_key@ == config.api_key@
                && c.model@ == config.model@),
    {
        if config.has_api_key() {
            Ok(GeminiClient { api_key: config.api_key.clone(), model: config.model.clone() })
        } else {
            Err(AIError::Gemini(String::from_str("API key not configured")))
        }
    }
}

/// An OpenAI session: the key and the selected model.
#[derive(Debug, Clone)]
pub struct OpenAIClient {
    pub api_key: String,
    pub model: String,
}

impl OpenAIClient {
    /// A client over the configured key and model; refused without a key.
    pub fn new(config: &Config) -> (r: Result<OpenAIClient, AIError>)
        ensures
            config.api_key@.len() == 0 ==> (r matches Err(AIError::OpenAI(m)) && m@
                == "API key not configured"@),
            config.api_key@.len() > 0 ==> (r matches Ok(c) && c.api_key@ == config.api_key@
                && c.model@ == config.model@),
    {
        if config.has_api_key() {
            Ok(OpenAIClient { api_key: config.api_key.clone(), model: config.model.clone() })
        } else {
            Err(AIError::OpenAI(String::from_str("API key not configured")))
        }
    }
}

/// One client, whatever the provider.
#[derive(Debug, Clone)]
pub enum AIClient {
    Gemini(GeminiClient),
    OpenAI(OpenAIClient),
}

/// The model a client is set to.
pub open spec fn client_model(c: AIClient) -> Seq<char> {
    match c {
        AIClient::Gemini(g) => g.model@,
        AIClient::OpenAI(o) => o.model@,
    }
}

/// The key a client holds.
pub open spec fn client_key(c: AIClient) -> Seq<char> {
    match c {
        AIClient::Gemini(g) => g.api_key@,
        AIClient::OpenAI(o) => o.api_key@,
    }
}

impl AIClient {
    /// A client for the configured provider; refused without a key.
    pub fn new(config: &Config) -> (r: Result<AIClient, AIError>)
        ensures
            config.api_key@.len() == 0 ==> r is Err,
            config.api_key@.len() > 0 ==> (r matches Ok(c) && client_key(c) == config.api_key@
                && client_model(c) == config.model@ && ((c is Gemini) <==> config.provider
                == Provider::Gemini) && ((c is OpenAI) <==> config.provider
                == Provider::OpenAI)),
    {
        match config.provider {
            Provider::Gemini => match GeminiClient::new(config) {
                Ok(c) => Ok(AIClient::Gemini(c)),
                Err(e) => Err(e),
            },
            Provider::OpenAI => match OpenAIClient::new(config) {
                Ok(c) => Ok(AIClient::OpenAI(c)),
                Err(e) => Err(e),
            },
        }
    }

    /// Switch the selected model; the provider and key stay.
    pub fn set_model(&mut self, model: String)
        ensures
            client_model(*final(self)) == model@,
            client_key(*final(self)) == client_key(*old(self)),
            (*final(self) is Gemini) == (*old(self) is Gemini),
            (*final(self) is OpenAI) == (*old(self) is OpenAI),
    {
        match self {
            AIClient::Gemini(c) => {
                c.model = model;
            },
            AIClient::OpenAI(c) => {
                c.model = model;
            },
        }
    }

    /// The selected model.
    pub fn model(&self) -> (r: &str)
        ensures
            r@ == client_model(*self),
    {
        match self {
            AIClient::Gemini(c) => c.model.as_str(),
            AIClient::OpenAI(c) => c.model.as_str(),
        }
    }
}

} // verus!
