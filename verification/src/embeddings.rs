//! Which embedding model is meant.
use crate::text::split_once_slash;
use vstd::prelude::*;

verus! {

/// A model identifier without a slash.
#[derive(Debug)]
pub struct ModelIdError {
    pub model_id: String,
}

impl ModelIdError {
    /// The error in words.
    pub fn message(&self) -> (text: String)
        ensures
            text@ == "embedding.model_id must be in 'owner/name' form, got '"@ + self.model_id@
                + "'"@,
    {
        "embedding.model_id must be in 'owner/name' form, got '".to_string().concat(
            self.model_id.as_str(),
        ).concat("'")
    }
}

/// Splits a model identifier at its first slash into the owner and the name.
pub fn split_model_id(model_id: &str) -> (parts: Result<(String, String), ModelIdError>)
    ensures
        match parts {
            Ok((owner, name)) => {
                &&& model_id@ == owner@.push('/') + name@
                &&& !owner@.contains('/')
            },
            Err(error) => !model_id@.contains('/') && error.model_id@ == model_id@,
        },
        parts is Ok <==> model_id@.contains('/'),
{
    match split_once_slash(model_id) {
        Some((owner, name)) => {
            proof {
                let slash = owner@.len() as int;
                assert((owner@.push('/') + name@)[slash] == '/');
            }
            Ok((owner.to_string(), name.to_string()))
        },
        None => Err(ModelIdError { model_id: model_id.to_string() }),
    }
}

} // verus!
