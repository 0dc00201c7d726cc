//! The values of the JSON and YAML crates that recipes carry.

use vstd::prelude::*;

verus! {

/// A JSON value of `serde_json`, carried as it is.
#[verifier::external_type_specification]
#[verifier::external_body]
pub struct ExJsonValue(serde_json::Value);

/// A YAML value of `serde_yaml`, carried as it is.
#[verifier::external_type_specification]
#[verifier::external_body]
pub struct ExYamlValue(serde_yaml::Value);

/// Trusted: cloning a `serde_json::Value` gives an equal value.
pub assume_specification[ <serde_json::Value as Clone>::clone ](value: &serde_json::Value) -> (r:
    serde_json::Value)
    ensures
        r == *value,
;

/// Trusted: cloning a `serde_yaml::Value` gives an equal value.
pub assume_specification[ <serde_yaml::Value as Clone>::clone ](value: &serde_yaml::Value) -> (r:
    serde_yaml::Value)
    ensures
        r == *value,
;

} // verus!
