//! The runtime environment selector, read case-insensitively from
//! configuration.

use vstd::prelude::*;

use crate::domain::text_eq;

verus! {

use vstd::string::StringExecFns;

/// The lowercase form of a string: the result depends on the characters
/// alone.
pub uninterp spec fn lower_of(s: Seq<char>) -> Seq<char>;

/// Relies on `str::to_lowercase`: Unicode lowercasing, a pure function of the
/// string's characters.
#[verifier::external_body]
fn lowercase(s: &str) -> (r: String)
    ensures
        r@ == lower_of(s@),
{
    s.to_lowercase()
}

/// Which environment the service runs in.
#[derive(Clone, Copy, Debug, PartialEq, Eq, Structural)]
pub enum Environment {
    Local,
    Production,
}

impl Environment {
    pub fn as_str(&self) -> (r: &str)
        ensures
            *self == Environment::Local ==> r@ == "local"@,
            *self == Environment::Production ==> r@ == "production"@,
    {
        match self {
            Environment::Local => "local",
            Environment::Production => "production",
        }
    }

    /// Reads an environment name, ignoring case; rejects anything but the two
    /// known environments, naming the (lowercased) offending value.
    pub fn try_from(value: String) -> (r: Result<Self, String>)
        ensures
            lower_of(value@) == "local"@ ==> r == Ok::<Self, String>(Environment::Local),
            lower_of(value@) != "local"@ && lower_of(value@) == "production"@ ==> r == Ok::<
                Self,
                String,
            >(Environment::Production),
            lower_of(value@) != "local"@ && lower_of(value@) != "production"@ ==> (r matches Err(e)
                && e@ == lower_of(value@)
                + " is not a supported environment. Use either `local` or `production`."@),
    {
        let lowered = lowercase(value.as_str());
        if text_eq(lowered.as_str(), "local") {
            Ok(Environment::Local)
        } else if text_eq(lowered.as_str(), "production") {
            Ok(Environment::Production)
        } else {
            Err(
                lowered.concat(
                    " is not a supported environment. Use either `local` or `production`.",
                ),
            )
        }
    }
}

} // verus!
