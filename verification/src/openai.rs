//! Configuration for the remote AI completion/embedding service the
//! query engine can call out to: endpoint and model names, with their
//! defaults.

use vstd::prelude::*;
use vstd::string::StringExecFns;

verus! {

pub struct OpenAI {
    pub api_key: String,
    pub api_base: String,
    pub embedding_model: String,
    pub completion_model: String,
}

impl OpenAI {
    /// Builds the configuration, substituting the default endpoint and
    /// model names for empty settings. A non-empty setting and the API
    /// key are kept exactly as given.
    pub fn create(
        api_base: String,
        api_key: String,
        embedding_model: String,
        completion_model: String,
    ) -> (r: OpenAI)
        ensures
            r.api_key@ == api_key@,
            r.api_base@ == if api_base@.len() == 0 {
                "https://api.openai.com/v1/"@
            } else {
                api_base@
            },
            r.embedding_model@ == if embedding_model@.len() == 0 {
                "text-embedding-ada-002"@
            } else {
                embedding_model@
            },
            r.completion_model@ == if completion_model@.len() == 0 {
                "gpt-3.5-turbo"@
            } else {
                completion_model@
            },
    {
        let api_base = if api_base.as_str().is_empty() {
            String::from_str("https://api.openai.com/v1/")
        } else {
            api_base
        };

        let embedding_model = if embedding_model.as_str().is_empty() {
            String::from_str("text-embedding-ada-002")
        } else {
            embedding_model
        };

        let completion_model = if completion_model.as_str().is_empty() {
            String::from_str("gpt-3.5-turbo")
        } else {
            completion_model
        };

        OpenAI { api_base, api_key, embedding_model, completion_model }
    }
}

} // verus!
