//! What can go wrong with an environment.
use vstd::prelude::*;

verus! {

#[verifier::external_type_specification]
#[verifier::external_body]
pub struct ExIoError(std::io::Error);

/// Why an environment could not be used.
#[derive(Debug)]
pub enum EnvError {
    /// No environment of this name exists.
    NonExistentEnv(String),
    /// The variables file could not be opened.
    OpenVariables(std::io::Error),
    /// The environment could not be created.
    Create(std::io::Error),
    /// The variables could not be written out.
    SerializeVariables,
}

} // verus!
