//! Validation of a loaded configuration, and `KEY=VALUE` arguments.

use vstd::prelude::*;
use crate::config_model::Config;
use crate::error::RunnerError;
use crate::text::{position_of, split_at_equals, str_eq, lemma_position_of_bounds};

verus! {

/// A name that a block may not take: one of the eight section keys.
pub open spec fn is_section_key(s: Seq<char>) -> bool {
    ||| s == "prebuild"@
    ||| s == "build"@
    ||| s == "postbuild"@
    ||| s == "test"@
    ||| s == "predeploy"@
    ||| s == "deploy"@
    ||| s == "postdeploy"@
    ||| s == "clean"@
}

/// A name that a block may not take: one of the three platform keys.
pub open spec fn is_os_key(s: Seq<char>) -> bool {
    s == "windows"@ || s == "linux"@ || s == "macos"@
}

/// A block name that collides with a section or platform key.
pub open spec fn is_reserved(s: Seq<char>) -> bool {
    is_section_key(s) || is_os_key(s)
}

/// The message for a block named `name` that collides with a reserved key.
pub open spec fn conflict_message(name: Seq<char>) -> Seq<char> {
    if is_section_key(name) {
        "Block name '"@ + name + "' conflicts with reserved section name"@
    } else {
        "Block name '"@ + name + "' conflicts with reserved operating system name"@
    }
}

/// Block `i` is the first of `config` whose name is reserved.
pub open spec fn first_reserved(config: Config, i: int) -> bool {
    &&& 0 <= i < config.blocks@.len()
    &&& is_reserved(config.blocks@[i].0@)
    &&& forall|j: int| 0 <= j < i ==> !is_reserved(#[trigger] config.blocks@[j].0@)
}

fn section_key(s: &str) -> (r: bool)
    ensures
        r == is_section_key(s@),
{
    str_eq(s, "prebuild") || str_eq(s, "build") || str_eq(s, "postbuild") || str_eq(s, "test")
        || str_eq(s, "predeploy") || str_eq(s, "deploy") || str_eq(s, "postdeploy") || str_eq(
        s,
        "clean",
    )
}

fn os_key(s: &str) -> (r: bool)
    ensures
        r == is_os_key(s@),
{
    str_eq(s, "windows") || str_eq(s, "linux") || str_eq(s, "macos")
}

/// Splits a `KEY=VALUE` argument at its first `=`; the key may not be empty.
pub fn parse_kv(s: &str) -> (r: Result<(String, String), String>)
    ensures
        position_of(s@, '=') == s@.len() ==> (r matches Err(e) && e@ == "expected KEY=VALUE"@),
        position_of(s@, '=') == 0 < s@.len() ==> (r matches Err(e) && e@ == "key cannot be empty"@),
        0 < position_of(s@, '=') < s@.len() ==> (r matches Ok(p) && p.0@ == s@.take(
            position_of(s@, '='),
        ) && p.1@ == s@.skip(position_of(s@, '=') + 1)),
{
    proof {
        lemma_position_of_bounds(s@, '=');
    }
    match split_at_equals(s) {
        None => Err(String::from_str("expected KEY=VALUE")),
        Some((k, v)) => {
            if k.as_str().unicode_len() == 0 {
                Err(String::from_str("key cannot be empty"))
            } else {
                Ok((k, v))
            }
        },
    }
}

/// Checks that no block takes a section or platform name.
pub fn validate_config(config: &Config) -> (r: Result<(), RunnerError>)
    ensures
        r is Ok <==> forall|i: int| 0 <= i < config.blocks@.len() ==> !is_reserved(#[trigger] config.blocks@[i].0@),
        r matches Err(e) ==> exists|i: int|
            first_reserved(*config, i) && (e matches RunnerError::Constraints(m) && m@
                == conflict_message(#[trigger] config.blocks@[i].0@)),
{
    let mut i: usize = 0;
    while i < config.blocks.len()
        invariant
            i <= config.blocks@.len(),
            forall|j: int| 0 <= j < i ==> !is_reserved(#[trigger] config.blocks@[j].0@),
        decreases config.blocks@.len() - i,
    {
        let name = config.blocks[i].0.as_str();
        let in_sections = section_key(name);
        if in_sections || os_key(name) {
            let mut m = String::from_str("Block name '");
            m.append(name);
            if in_sections {
                m.append("' conflicts with reserved section name");
            } else {
                m.append("' conflicts with reserved operating system name");
            }
            proof {
                assert(first_reserved(*config, i as int));
            }
            return Err(RunnerError::Constraints(m));
        }
        i += 1;
    }
    Ok(())
}

/// Accepts a configuration that loaded and passes validation; a load
/// failure becomes a parse error.
pub fn parse_yaml(parsed: Result<Config, String>) -> (r: Result<Config, RunnerError>)
    ensures
        match parsed {
            Ok(c) => {
                &&& r is Ok <==> forall|i: int|
                    0 <= i < c.blocks@.len() ==> !is_reserved(#[trigger] c.blocks@[i].0@)
                &&& r matches Ok(d) ==> d == c
                &&& r matches Err(e) ==> exists|i: int|
                    first_reserved(c, i) && (e matches RunnerError::Constraints(m) && m@
                        == conflict_message(#[trigger] c.blocks@[i].0@))
            },
            Err(e) => r matches Err(RunnerError::Yaml(m)) && m@ == "failed to parse YAML config: "@ + e@,
        },
{
    match parsed {
        Ok(cfg) => match validate_config(&cfg) {
            Ok(()) => Ok(cfg),
            Err(e) => Err(e),
        },
        Err(e) => {
            let mut m = String::from_str("failed to parse YAML config: ");
            m.append(e.as_str());
            Err(RunnerError::Yaml(m))
        },
    }
}

} // verus!
