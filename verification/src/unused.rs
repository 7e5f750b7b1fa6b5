//! Parsing the unused-dependency tool's output, in each of its shapes:
//! the JSON schemas the tool has used over time, and the plain text
//! sections it falls back to.

use vstd::prelude::*;
use crate::error::{ErrorCode, UpkeepError};
use crate::json::{describe_json_schema, JsonValue};
use crate::output::{Confidence, DependencyType, UnusedDep};
use crate::strings::{str_contains_fold, str_eq, str_eq_fold, strip_leading, strip_trailing,
    trim_spaces};

verus! {

/// Reads a confidence label, in any letter case.
pub fn parse_confidence(value: &str) -> (r: Option<Confidence>)
    ensures
        r == (if crate::strings::lower_seq(value@) == crate::strings::lower_seq("high"@) {
            Some(Confidence::High)
        } else if crate::strings::lower_seq(value@) == crate::strings::lower_seq("medium"@) {
            Some(Confidence::Medium)
        } else if crate::strings::lower_seq(value@) == crate::strings::lower_seq("low"@) {
            Some(Confidence::Low)
        } else {
            None
        }),
{
    if str_eq_fold(value, "high") {
        Some(Confidence::High)
    } else if str_eq_fold(value, "medium") {
        Some(Confidence::Medium)
    } else if str_eq_fold(value, "low") {
        Some(Confidence::Low)
    } else {
        None
    }
}

/// Reads a dependency-kind label, in the spellings the tool has used.
pub fn parse_dependency_type(kind: &str) -> (r: Option<DependencyType>)
    ensures
        r == (if kind@ == "normal"@ || kind@ == "dependencies"@ {
            Some(DependencyType::Normal)
        } else if kind@ == "dev"@ || kind@ == "dev-dependencies"@ || kind@
            == "dev_dependencies"@ {
            Some(DependencyType::Dev)
        } else if kind@ == "build"@ || kind@ == "build-dependencies"@ || kind@
            == "build_dependencies"@ {
            Some(DependencyType::Build)
        } else {
            None
        }),
{
    if str_eq(kind, "normal") || str_eq(kind, "dependencies") {
        Some(DependencyType::Normal)
    } else if str_eq(kind, "dev") || str_eq(kind, "dev-dependencies") || str_eq(
        kind,
        "dev_dependencies",
    ) {
        Some(DependencyType::Dev)
    } else if str_eq(kind, "build") || str_eq(kind, "build-dependencies") || str_eq(
        kind,
        "build_dependencies",
    ) {
        Some(DependencyType::Build)
    } else {
        None
    }
}

/// Reads a dependency list: a bare string is a name with the fallback
/// kind at high confidence; an object contributes its name, kind and
/// confidence fields, with the same defaults; entries without a name are
/// dropped.
pub fn parse_dependency_array(items: &Vec<JsonValue>, fallback_type: DependencyType) -> (r: Vec<
    UnusedDep,
>)
    ensures
        r@.len() <= items@.len(),
        forall|k: int| 0 <= k < r@.len() ==> (#[trigger] r@[k]).name@.len() > 0,
{
    let mut deps: Vec<UnusedDep> = Vec::new();
    let mut i: usize = 0;
    while i < items.len()
        invariant
            i <= items@.len(),
            deps@.len() <= i,
            forall|k: int| 0 <= k < deps@.len() ==> (#[trigger] deps@[k]).name@.len() > 0,
        decreases items@.len() - i,
    {
        match &items[i] {
            JsonValue::Str(name) => {
                if name.as_str().unicode_len() > 0 {
                    deps.push(
                        UnusedDep {
                            name: name.clone(),
                            dependency_type: fallback_type,
                            confidence: Confidence::High,
                        },
                    );
                }
            },
            JsonValue::Obj(_) => {
                let obj = &items[i];
                let name: Option<String> = match obj.get("name") {
                    Some(v) => match v.as_str() {
                        Some(s) => {
                            if s.as_str().unicode_len() > 0 {
                                Some(s.clone())
                            } else {
                                None
                            }
                        },
                        None => None,
                    },
                    None => None,
                };
                match name {
                    Some(name) => {
                        let kind_field = match obj.get("kind") {
                            Some(v) => Some(v),
                            None => obj.get("dependency_type"),
                        };
                        let dependency_type = match kind_field {
                            Some(v) => match v.as_str() {
                                Some(s) => match parse_dependency_type(s.as_str()) {
                                    Some(t) => t,
                                    None => fallback_type,
                                },
                                None => fallback_type,
                            },
                            None => fallback_type,
                        };
                        let confidence = match obj.get("confidence") {
                            Some(v) => match v.as_str() {
                                Some(s) => match parse_confidence(s.as_str()) {
                                    Some(c) => c,
                                    None => Confidence::High,
                                },
                                None => Confidence::High,
                            },
                            None => Confidence::High,
                        };
                        deps.push(UnusedDep { name, dependency_type, confidence });
                    },
                    None => {},
                }
            },
            _ => {},
        }
        i += 1;
    }
    deps
}

fn collect_possibly_unused(items: &Vec<JsonValue>, possibly_unused: &mut Vec<String>)
    ensures
        final(possibly_unused)@.len() >= old(possibly_unused)@.len(),
{
    let mut i: usize = 0;
    while i < items.len()
        invariant
            i <= items@.len(),
            possibly_unused@.len() >= old(possibly_unused)@.len(),
        decreases items@.len() - i,
    {
        match &items[i] {
            JsonValue::Str(name) => {
                possibly_unused.push(name.clone());
            },
            JsonValue::Obj(_) => {
                match items[i].get("name") {
                    Some(v) => match v.as_str() {
                        Some(s) => {
                            possibly_unused.push(s.clone());
                        },
                        None => {},
                    },
                    None => {},
                }
            },
            _ => {},
        }
        i += 1;
    }
}

/// `m` is an object holding an entry under `key`.
pub open spec fn obj_has(m: JsonValue, key: Seq<char>) -> bool {
    m is Obj && crate::json::spec_get(m->Obj_0@, key) is Some
}

/// A manifest object carries at least one of the tool's unused-dependency
/// sections: a direct one, a nested `unused` object with one, or a
/// `possibly_unused` list.
pub open spec fn map_recognized(m: JsonValue) -> bool {
    ||| obj_has(m, "unused_dependencies"@)
    ||| obj_has(m, "unused_dev_dependencies"@)
    ||| obj_has(m, "unused_build_dependencies"@)
    ||| (m is Obj && (crate::json::spec_get(m->Obj_0@, "unused"@) matches Some(u) && u is Obj && (
    obj_has(u, "dependencies"@) || obj_has(u, "dev_dependencies"@) || obj_has(
        u,
        "build_dependencies"@,
    ))))
    ||| (m is Obj && (crate::json::spec_get(m->Obj_0@, "possibly_unused"@) matches Some(p)
        && p is Arr))
}

/// The value fits one of the tool's output schemas: `null`, a top-level
/// list, a per-manifest list with a recognized manifest, or a direct
/// manifest object.
pub open spec fn machete_recognized(v: JsonValue) -> bool {
    ||| v is Null
    ||| v is Arr
    ||| (v is Obj && (match crate::json::spec_get(v->Obj_0@, "manifests"@) {
        Some(ms) => (ms is Arr && exists|i: int|
            0 <= i < ms->Arr_0@.len() && (#[trigger] ms->Arr_0@[i]) is Obj && map_recognized(
                ms->Arr_0@[i],
            )) || (!(ms is Arr) && map_recognized(v)),
        None => map_recognized(v),
    }))
}

fn collect_from_key(
    map: &JsonValue,
    key: &str,
    dependency_type: DependencyType,
    collected: &mut Vec<UnusedDep>,
) -> (found: bool)
    ensures
        found == obj_has(*map, key@),
{
    match map.get(key) {
        Some(value) => {
            match value.as_array() {
                Some(items) => {
                    let mut deps = parse_dependency_array(items, dependency_type);
                    collected.append(&mut deps);
                },
                None => {},
            }
            true
        },
        None => false,
    }
}

/// Collects the unused-dependency lists a manifest object may carry,
/// under any of the tool's key spellings; reports whether any recognized
/// key was present.
fn collect_from_map(
    map: &JsonValue,
    collected: &mut Vec<UnusedDep>,
    possibly_unused: &mut Vec<String>,
) -> (found: bool)
    ensures
        found == map_recognized(*map),
{
    let mut found = false;
    found = collect_from_key(map, "unused_dependencies", DependencyType::Normal, collected)
        || found;
    found = collect_from_key(map, "unused_dev_dependencies", DependencyType::Dev, collected)
        || found;
    found = collect_from_key(map, "unused_build_dependencies", DependencyType::Build, collected)
        || found;

    match map.get("unused") {
        Some(unused) => {
            if unused.as_object().is_some() {
                found = collect_from_key(unused, "dependencies", DependencyType::Normal, collected)
                    || found;
                found = collect_from_key(unused, "dev_dependencies", DependencyType::Dev, collected)
                    || found;
                found = collect_from_key(
                    unused,
                    "build_dependencies",
                    DependencyType::Build,
                    collected,
                ) || found;
            }
        },
        None => {},
    }

    match map.get("possibly_unused") {
        Some(possibly) => {
            match possibly.as_array() {
                Some(items) => {
                    collect_possibly_unused(items, possibly_unused);
                    found = true;
                },
                None => {},
            }
        },
        None => {},
    }

    found
}

/// Reads the tool's JSON output in any of its schemas: `null` means no
/// findings; a top-level array lists plain unused dependencies; an object
/// carries per-manifest or direct unused sections. `None` means none of
/// the schemas fit.
pub fn parse_machete_json(value: &JsonValue) -> (r: Option<(Vec<UnusedDep>, Vec<String>)>)
    ensures
        value is Null ==> (r matches Some(d) && d.0@.len() == 0 && d.1@.len() == 0),
        r is Some <==> machete_recognized(*value),
{
    if value.is_null() {
        return Some((Vec::new(), Vec::new()));
    }

    match value.as_array() {
        Some(items) => {
            let deps = parse_dependency_array(items, DependencyType::Normal);
            return Some((deps, Vec::new()));
        },
        None => {},
    }

    if value.as_object().is_none() {
        return None;
    }

    let mut collected: Vec<UnusedDep> = Vec::new();
    let mut possibly_unused: Vec<String> = Vec::new();

    match value.get("manifests") {
        Some(manifests) => {
            match manifests.as_array() {
                Some(items) => {
                    let mut found = false;
                    let mut i: usize = 0;
                    while i < items.len()
                        invariant
                            i <= items@.len(),
                            found == exists|j: int|
                                0 <= j < i && (#[trigger] items@[j]) is Obj && map_recognized(
                                    items@[j],
                                ),
                        decreases items@.len() - i,
                    {
                        if items[i].as_object().is_some() {
                            let here = collect_from_map(
                                &items[i],
                                &mut collected,
                                &mut possibly_unused,
                            );
                            proof {
                                if here {
                                    assert(items@[i as int] is Obj && map_recognized(
                                        items@[i as int],
                                    ));
                                }
                                if found && !here {
                                    let j = choose|j: int|
                                        0 <= j < i && (#[trigger] items@[j]) is Obj
                                            && map_recognized(items@[j]);
                                    assert(0 <= j < i + 1 && items@[j] is Obj && map_recognized(
                                        items@[j],
                                    ));
                                }
                            }
                            found = here || found;
                        } else {
                            proof {
                                if found {
                                    let j = choose|j: int|
                                        0 <= j < i && (#[trigger] items@[j]) is Obj
                                            && map_recognized(items@[j]);
                                    assert(0 <= j < i + 1 && items@[j] is Obj && map_recognized(
                                        items@[j],
                                    ));
                                }
                            }
                        }
                        i += 1;
                    }
                    if found {
                        return Some((collected, possibly_unused));
                    }
                    return None;
                },
                None => {},
            }
        },
        None => {},
    }

    let found = collect_from_map(value, &mut collected, &mut possibly_unused);
    if found {
        Some((collected, possibly_unused))
    } else {
        None
    }
}

/// Reads the tool's JSON output, or reports its schema when none of the
/// known shapes fit.
pub fn machete_from_json(value: &JsonValue) -> (r: Result<
    (Vec<UnusedDep>, Vec<String>),
    UpkeepError,
>)
    ensures
        r is Ok <==> machete_recognized(*value),
        r matches Err(e) ==> e.code == ErrorCode::InvalidData,
{
    match parse_machete_json(value) {
        Some(deps) => Ok(deps),
        None => {
            let schema = describe_json_schema(value);
            let mut msg = String::new();
            msg.append("cargo machete JSON schema is not recognized: ");
            msg.append(schema.as_str());
            Err(UpkeepError::message(ErrorCode::InvalidData, msg))
        },
    }
}

/// Handles one line of the tool's plain text: a section header switches
/// the current list, any other nonempty line names one dependency, with
/// its list markers stripped.
fn machete_text_line(
    line: &str,
    dependencies: &mut Vec<UnusedDep>,
    possibly_unused: &mut Vec<String>,
    current_type: &mut Option<DependencyType>,
    in_possibly_unused: &mut bool,
)
    requires
        forall|k: int|
            0 <= k < old(dependencies)@.len() ==> (#[trigger] old(dependencies)@[k]).confidence
                == Confidence::Medium && old(dependencies)@[k].name@.len() > 0,
        forall|k: int|
            0 <= k < old(possibly_unused)@.len() ==> (#[trigger] old(possibly_unused)@[k])@.len()
                > 0,
    ensures
        forall|k: int|
            0 <= k < final(dependencies)@.len() ==> (#[trigger] final(dependencies)@[k]).confidence
                == Confidence::Medium && final(dependencies)@[k].name@.len() > 0,
        forall|k: int|
            0 <= k < final(possibly_unused)@.len() ==> (#[trigger] final(possibly_unused)@[
                k
            ])@.len() > 0,
{
    let trimmed = trim_spaces(line);
    if trimmed.as_str().unicode_len() == 0 {
        return ;
    }
    if str_contains_fold(trimmed.as_str(), "possibly unused") {
        *in_possibly_unused = true;
        *current_type = None;
    } else if str_contains_fold(trimmed.as_str(), "unused dependencies") {
        *current_type = Some(DependencyType::Normal);
        *in_possibly_unused = false;
    } else if str_contains_fold(trimmed.as_str(), "unused dev-dependencies")
        || str_contains_fold(trimmed.as_str(), "unused dev dependencies") {
        *current_type = Some(DependencyType::Dev);
        *in_possibly_unused = false;
    } else if str_contains_fold(trimmed.as_str(), "unused build-dependencies")
        || str_contains_fold(trimmed.as_str(), "unused build dependencies") {
        *current_type = Some(DependencyType::Build);
        *in_possibly_unused = false;
    } else {
        let no_dash = strip_leading(trimmed.as_str(), '-');
        let no_star = strip_leading(no_dash.as_str(), '*');
        let retrimmed = trim_spaces(no_star.as_str());
        let name = strip_trailing(retrimmed.as_str(), ':');
        if name.as_str().unicode_len() > 0 {
            if *in_possibly_unused {
                possibly_unused.push(name);
            } else {
                match *current_type {
                    Some(dependency_type) => {
                        dependencies.push(
                            UnusedDep {
                                name,
                                dependency_type,
                                confidence: Confidence::Medium,
                            },
                        );
                    },
                    None => {},
                }
            }
        }
    }
}

/// Reads the tool's plain-text output: section headers switch between the
/// unused, dev, build and possibly-unused lists, and each following line
/// names one dependency, with its list markers stripped. Text findings
/// carry medium confidence.
pub fn parse_machete_text(stdout: &str) -> (r: (Vec<UnusedDep>, Vec<String>))
    ensures
        forall|k: int|
            0 <= k < r.0@.len() ==> (#[trigger] r.0@[k]).confidence == Confidence::Medium
                && r.0@[k].name@.len() > 0,
        forall|k: int| 0 <= k < r.1@.len() ==> (#[trigger] r.1@[k])@.len() > 0,
{
    let mut dependencies: Vec<UnusedDep> = Vec::new();
    let mut possibly_unused: Vec<String> = Vec::new();
    let mut current_type: Option<DependencyType> = None;
    let mut in_possibly_unused = false;

    let n = stdout.unicode_len();
    let mut start: usize = 0;
    let mut pos: usize = 0;
    while pos < n
        invariant
            n == stdout@.len(),
            start <= pos <= n,
            forall|k: int|
                0 <= k < dependencies@.len() ==> (#[trigger] dependencies@[k]).confidence
                    == Confidence::Medium && dependencies@[k].name@.len() > 0,
            forall|k: int|
                0 <= k < possibly_unused@.len() ==> (#[trigger] possibly_unused@[k])@.len() > 0,
        decreases n - pos,
    {
        if stdout.get_char(pos) == '\n' {
            let line_end = if pos > start && stdout.get_char(pos - 1) == '\r' {
                pos - 1
            } else {
                pos
            };
            let line = stdout.substring_char(start, line_end);
            machete_text_line(
                line,
                &mut dependencies,
                &mut possibly_unused,
                &mut current_type,
                &mut in_possibly_unused,
            );
            start = pos + 1;
        }
        pos += 1;
    }
    if start < n {
        let line_end = if n > start && stdout.get_char(n - 1) == '\r' {
            n - 1
        } else {
            n
        };
        let line = stdout.substring_char(start, line_end);
        machete_text_line(
            line,
            &mut dependencies,
            &mut possibly_unused,
            &mut current_type,
            &mut in_possibly_unused,
        );
    }

    (dependencies, possibly_unused)
}

} // verus!
