//! A configuration resolution engine: it parses a sectioned configuration
//! text into a typed document tree, selects an active named environment,
//! merges environment-specific overrides onto shared defaults, and exposes a
//! typed view of the result. Every failure names the data a reader needs to
//! fix it: file path, source location, key name, expected and actual type.

use vstd::prelude::*;

pub mod document;
pub mod environment;
pub mod error;
pub mod locate;
pub mod merge;
pub mod parse;
pub mod resolved;
pub mod text;
pub mod value;

verus! {

use crate::document::{keys_of, merged_map, names_of, valid_section_name, Section};
use crate::environment::{from_selector, recognized, EnvironmentName};
use crate::error::ConfigError;
use crate::merge::merge;
use crate::parse::{
    all_lines_valid, names_distinct, parse_document, section_keys, section_names,
    section_value_spans, section_value_texts, value_span_matches, value_text_matches,
};
use crate::resolved::ResolvedConfig;
use crate::text::trimmed;

/// Resolves a configuration: parses the text read from `path`, validates
/// the environment selector against the closed environment set, and merges
/// the global defaults with the active environment's overrides. The whole
/// pipeline either fully succeeds with one resolved configuration or fully
/// fails with exactly one error; no partial result is ever produced.
///
/// The selector is threaded in explicitly — absence means the default
/// environment — so resolution is a pure function of its inputs.
pub fn resolve(text: &str, path: &str, selector: Option<&str>) -> (r: Result<
    ResolvedConfig,
    ConfigError,
>)
    requires
        text@.len() + 2 < usize::MAX,
    ensures
        (r is Ok) <==> ((match selector {
            None => true,
            Some(s) => recognized(s@) is Some,
        }) && all_lines_valid(text@) && names_distinct(section_names(text@, false)) && (
        forall|i: int|
            0 <= i < section_names(text@, false).len() ==> valid_section_name(
                #[trigger] section_names(text@, false)[i],
            ))),
        r matches Ok(rc) ==> rc.wf() && rc.path@ == path@ && (match selector {
            None => rc.environment == EnvironmentName::Development,
            Some(s) => recognized(s@) == Some(rc.environment),
        }),
        r matches Ok(rc) ==> (exists|ss: Seq<Section>|
            #![auto]
            names_of(ss) == section_names(text@, false) && keys_of(ss) == section_keys(
                text@,
                false,
            ) && section_value_texts(text@, false).len() == ss.len() && (forall|i: int, k: int|
                0 <= i < ss.len() && 0 <= k < ss[i].entries@.len() ==> section_value_texts(
                    text@,
                    false,
                )[i].len() == ss[i].entries@.len() && value_text_matches(
                    (#[trigger] ss[i].entries@[k]).value,
                    section_value_texts(text@, false)[i][k],
                ) && section_value_spans(text@, false, 1)[i].len() == ss[i].entries@.len()
                    && value_span_matches(
                    ss[i].entries@[k].value,
                    section_value_spans(text@, false, 1)[i][k],
                )) && rc.map() == merged_map(ss, rc.environment)),
        match selector {
            Some(s) => recognized(s@) is None ==> (r matches Err(e)
                && e matches ConfigError::BadEnvironmentSelector { selector: raw } && raw@ == s@),
            None => true,
        },
        r matches Err(e) ==> (e matches ConfigError::BadEnvironmentSelector { .. } || e matches
            ConfigError::ParseFailure { .. } || e matches ConfigError::BadEnvironmentEntry { .. }),
        match r {
            Err(e) => match e {
                ConfigError::ParseFailure { message, path: p, fragment, span } => p@ == path@
                    && span is Some && (exists|p1: int, p2: int|
                    0 <= p1 <= p2 <= text@.len() && (p1 == 0 || text@[p1 - 1] == '\n') && (p2
                        == text@.len() || text@[p2] == '\n') && (forall|k: int|
                        p1 <= k < p2 ==> text@[k] != '\n') && fragment@ == trimmed(
                        #[trigger] text@.subrange(p1, p2),
                    )),
                ConfigError::BadEnvironmentEntry { name, path: p } => p@ == path@ && (exists|
                    j: int,
                |
                    0 <= j < section_names(text@, false).len() && !valid_section_name(
                        #[trigger] section_names(text@, false)[j],
                    ) && name@ == section_names(text@, false)[j] && (forall|k: int|
                        0 <= k < j ==> valid_section_name(section_names(text@, false)[k]))),
                _ => true,
            },
            Ok(_) => true,
        },
{
    let env = match selector {
        None => EnvironmentName::Development,
        Some(s) => match from_selector(s) {
            Ok(env) => env,
            Err(e) => {
                return Err(e);
            },
        },
    };
    let doc = match parse_document(text, path) {
        Ok(d) => d,
        Err(e) => {
            return Err(e);
        },
    };
    proof {
        let ns = section_names(text@, false);
        assert(doc.sections@.len() == ns.len());
        assert forall|i: int| 0 <= i < ns.len() implies doc.sections@[i].name@ == ns[i] by {
            assert(names_of(doc.sections@)[i] == doc.sections@[i].name@);
        }
        if forall|i: int| 0 <= i < ns.len() ==> valid_section_name(#[trigger] ns[i]) {
            assert forall|j: int|
                0 <= j < doc.sections@.len() implies valid_section_name(
                doc.sections@[j].name@,
            ) by {
                assert(doc.sections@[j].name@ == ns[j]);
                assert(valid_section_name(ns[j]));
            }
        } else {
            let i = choose|i: int| 0 <= i < ns.len() && !valid_section_name(#[trigger] ns[i]);
            assert(doc.sections@[i].name@ == ns[i]);
            assert(!valid_section_name(doc.sections@[i].name@));
        }
    }
    let out = merge(doc, env, path);
    proof {
        let ns = section_names(text@, false);
        match &out {
            Ok(rc) => {
                assert(rc.environment == env);
                assert(names_of(doc.sections@) == ns && keys_of(doc.sections@) == section_keys(
                    text@,
                    false,
                ) && section_value_texts(text@, false).len() == doc.sections@.len() && (
                forall|i: int, k: int|
                    0 <= i < doc.sections@.len() && 0 <= k < doc.sections@[i].entries@.len()
                        ==> section_value_texts(text@, false)[i].len()
                        == doc.sections@[i].entries@.len() && value_text_matches(
                        (#[trigger] doc.sections@[i].entries@[k]).value,
                        section_value_texts(text@, false)[i][k],
                    ) && section_value_spans(text@, false, 1)[i].len()
                        == doc.sections@[i].entries@.len() && value_span_matches(
                        doc.sections@[i].entries@[k].value,
                        section_value_spans(text@, false, 1)[i][k],
                    )) && rc.map() == merged_map(doc.sections@, rc.environment));
            },
            Err(e) => {
                match e {
                    ConfigError::BadEnvironmentEntry { name, path: p } => {
                        let j = choose|j: int|
                            0 <= j < doc.sections@.len() && !valid_section_name(
                                doc.sections@[j].name@,
                            ) && name@ == doc.sections@[j].name@ && (forall|k: int|
                                0 <= k < j ==> valid_section_name(doc.sections@[k].name@));
                        assert(doc.sections@[j].name@ == ns[j]);
                        assert(!valid_section_name(ns[j]));
                        assert forall|k: int| 0 <= k < j implies valid_section_name(
                            ns[k],
                        ) by {
                            assert(doc.sections@[k].name@ == ns[k]);
                        }
                        assert(0 <= j < ns.len() && !valid_section_name(ns[j]) && name@ == ns[j]
                            && (forall|k: int| 0 <= k < j ==> valid_section_name(ns[k])));
                    },
                    _ => {},
                }
            },
        }
    }
    out
}

} // verus!
