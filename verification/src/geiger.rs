//! Parsing the unsafe-usage tool's JSON output, in each of the schemas
//! the tool has used, and summing the counts over all packages.

use vstd::prelude::*;
use crate::error::{ErrorCode, UpkeepError};
use crate::json::{describe_json_schema, JsonValue};
use crate::output::{UnsafeOutput, UnsafePackage, UnsafeSummary};

verus! {

/// A blank inside a package identifier.
pub open spec fn id_blank(c: char) -> bool {
    c == ' ' || c == '\t' || c == '\n' || c == '\r'
}

/// Position of the first non-blank character at or after `from`, or the
/// length when only blanks remain.
pub open spec fn next_word(s: Seq<char>, from: int) -> int
    decreases s.len() - from,
{
    if from < 0 || from >= s.len() {
        s.len() as int
    } else if !id_blank(s[from]) {
        from
    } else {
        next_word(s, from + 1)
    }
}

/// Position of the first blank character at or after `from`, or the
/// length when none follows.
pub open spec fn next_blank(s: Seq<char>, from: int) -> int
    decreases s.len() - from,
{
    if from < 0 || from >= s.len() {
        s.len() as int
    } else if id_blank(s[from]) {
        from
    } else {
        next_blank(s, from + 1)
    }
}

proof fn lemma_scan_bounds(s: Seq<char>, from: int)
    requires
        0 <= from <= s.len(),
    ensures
        from <= next_word(s, from) <= s.len(),
        from <= next_blank(s, from) <= s.len(),
    decreases s.len() - from,
{
    if from < s.len() {
        lemma_scan_bounds(s, from + 1);
    }
}

proof fn lemma_scan_char(s: Seq<char>, from: int)
    requires
        0 <= from <= s.len(),
    ensures
        next_word(s, from) < s.len() ==> !id_blank(s[next_word(s, from)]),
    decreases s.len() - from,
{
    if from < s.len() {
        lemma_scan_char(s, from + 1);
    }
}

/// Advances past blanks, to the start of the next word.
fn scan_word_start(id: &str, from: usize) -> (r: usize)
    requires
        from <= id@.len(),
    ensures
        r == next_word(id@, from as int),
        from <= r <= id@.len(),
{
    let n = id.unicode_len();
    let mut pos = from;
    while pos < n
        invariant
            n == id@.len(),
            from <= pos <= n,
            next_word(id@, from as int) == next_word(id@, pos as int),
        decreases n - pos,
    {
        let c = id.get_char(pos);
        if !(c == ' ' || c == '\t' || c == '\n' || c == '\r') {
            return pos;
        }
        pos += 1;
    }
    pos
}

/// Advances through a word, to the blank that ends it or the text's end.
fn scan_word_end(id: &str, from: usize) -> (r: usize)
    requires
        from <= id@.len(),
    ensures
        r == next_blank(id@, from as int),
        from <= r <= id@.len(),
{
    let n = id.unicode_len();
    let mut pos = from;
    while pos < n
        invariant
            n == id@.len(),
            from <= pos <= n,
            next_blank(id@, from as int) == next_blank(id@, pos as int),
        decreases n - pos,
    {
        let c = id.get_char(pos);
        if c == ' ' || c == '\t' || c == '\n' || c == '\r' {
            return pos;
        }
        pos += 1;
    }
    pos
}

/// Splits a package identifier of the form `name version (origin)` at its
/// blanks: the first whitespace-separated word is the name, the second,
/// when one follows, the version.
pub fn parse_name_version_from_id(id: &str) -> (r: (Option<String>, Option<String>))
    ensures
        r.0 is Some <==> next_word(id@, 0) < id@.len(),
        r.0 matches Some(nm) ==> nm@ == id@.subrange(
            next_word(id@, 0),
            next_blank(id@, next_word(id@, 0)),
        ),
        r.1 is Some <==> next_word(id@, 0) < id@.len() && next_word(
            id@,
            next_blank(id@, next_word(id@, 0)),
        ) < id@.len(),
        r.1 matches Some(v) ==> v@ == ({
            let a1 = next_word(id@, next_blank(id@, next_word(id@, 0)));
            id@.subrange(a1, next_blank(id@, a1))
        }),
        r.0 matches Some(nm) ==> nm@.len() > 0,
        r.1 matches Some(v) ==> v@.len() > 0,
        r.0 is None ==> r.1 is None,
{
    let n = id.unicode_len();
    let a0 = scan_word_start(id, 0);
    if a0 >= n {
        return (None, None);
    }
    proof {
        lemma_scan_char(id@, 0);
        lemma_scan_bounds(id@, a0 as int + 1);
    }
    let b0 = scan_word_end(id, a0);
    let name = id.substring_char(a0, b0).to_owned();
    proof {
        lemma_scan_char(id@, b0 as int);
    }
    let a1 = scan_word_start(id, b0);
    if a1 >= n {
        return (Some(name), None);
    }
    proof {
        lemma_scan_bounds(id@, a1 as int + 1);
    }
    let b1 = scan_word_end(id, a1);
    let version = id.substring_char(a1, b1).to_owned();
    (Some(name), Some(version))
}

/// A value carries some usable package identity: an `id`, a `name`, a
/// `crate`, or a `package` object with a `name`.
pub fn has_package_identifier(value: &JsonValue) -> (r: bool)
{
    match value.get("id") {
        Some(v) => {
            if v.as_str().is_some() {
                return true;
            }
        },
        None => {},
    }
    match value.get("name") {
        Some(v) => {
            if v.as_str().is_some() {
                return true;
            }
        },
        None => {},
    }
    match value.get("crate") {
        Some(v) => {
            if v.as_str().is_some() {
                return true;
            }
        },
        None => {},
    }
    match value.get("package") {
        Some(p) => {
            match p.get("name") {
                Some(v) => v.as_str().is_some(),
                None => false,
            }
        },
        None => false,
    }
}

fn count_under(value: &JsonValue) -> (r: Option<u64>)
{
    match value.as_u64() {
        Some(c) => {
            return Some(c);
        },
        None => {},
    }
    if value.as_object().is_none() {
        return None;
    }
    let keys = ["unsafe", "unsafe_count", "unsafe_total", "count_unsafe"];
    let mut k: usize = 0;
    while k < keys.len()
        decreases keys@.len() - k,
    {
        match value.get(keys[k]) {
            Some(v) => {
                match v.as_u64() {
                    Some(c) => {
                        return Some(c);
                    },
                    None => {},
                }
            },
            None => {},
        }
        k += 1;
    }
    None
}

fn extract_from_stats(stats: &JsonValue, keys: &Vec<String>) -> (r: Option<u64>)
{
    let mut k: usize = 0;
    while k < keys.len()
        decreases keys@.len() - k,
    {
        match stats.get(keys[k].as_str()) {
            Some(v) => {
                match count_under(v) {
                    Some(c) => {
                        return Some(c);
                    },
                    None => {},
                }
            },
            None => {},
        }
        k += 1;
    }
    match stats.get("unsafe") {
        Some(unsafe_map) => {
            let mut k2: usize = 0;
            while k2 < keys.len()
                decreases keys@.len() - k2,
            {
                match unsafe_map.get(keys[k2].as_str()) {
                    Some(v) => {
                        match count_under(v) {
                            Some(c) => {
                                return Some(c);
                            },
                            None => {},
                        }
                    },
                    None => {},
                }
                k2 += 1;
            }
        },
        None => {},
    }
    None
}

fn extract_count(stats: Option<&JsonValue>, fallback: &JsonValue, keys: &Vec<String>) -> (r: u64)
{
    match stats {
        Some(stats) => {
            match extract_from_stats(stats, keys) {
                Some(c) => {
                    return c;
                },
                None => {},
            }
        },
        None => {},
    }
    match extract_from_stats(fallback, keys) {
        Some(c) => c,
        None => 0,
    }
}

fn key_list(a: &str, b: &str, c: Option<&str>) -> (r: Vec<String>)
{
    let mut keys: Vec<String> = Vec::new();
    keys.push(a.to_owned());
    keys.push(b.to_owned());
    match c {
        Some(c) => {
            keys.push(c.to_owned());
        },
        None => {},
    }
    keys
}

/// Reads one package entry: its name from any of the identifier fields,
/// its version likewise (or `unknown`), and its unsafe counts from the
/// stats object under any of its names; an entry with no name is dropped.
pub fn parse_package(value: &JsonValue) -> (r: Option<UnsafePackage>)
    ensures
        r matches Some(p) ==> p.name@.len() > 0 && p.total_unsafe == p.unsafe_functions
            + p.unsafe_impls + p.unsafe_traits + p.unsafe_blocks + p.unsafe_expressions,
{
    let package_id: Option<String> = match value.get("id") {
        Some(v) => match v.as_str() {
            Some(s) => Some(s.clone()),
            None => None,
        },
        None => None,
    };
    let (id_name, id_version) = match &package_id {
        Some(id) => parse_name_version_from_id(id.as_str()),
        None => (None, None),
    };

    let mut name: Option<String> = match value.get("name") {
        Some(v) => match v.as_str() {
            Some(s) => Some(s.clone()),
            None => None,
        },
        None => None,
    };
    if name.is_none() {
        name = match value.get("crate") {
            Some(v) => match v.as_str() {
                Some(s) => Some(s.clone()),
                None => None,
            },
            None => None,
        };
    }
    if name.is_none() {
        name = match value.get("package") {
            Some(p) => match p.get("name") {
                Some(v) => match v.as_str() {
                    Some(s) => Some(s.clone()),
                    None => None,
                },
                None => None,
            },
            None => None,
        };
    }
    if name.is_none() {
        name = id_name;
    }
    let name = match name {
        Some(n) => {
            if n.as_str().unicode_len() == 0 {
                return None;
            }
            n
        },
        None => {
            return None;
        },
    };

    let mut version: Option<String> = match value.get("version") {
        Some(v) => match v.as_str() {
            Some(s) => Some(s.clone()),
            None => None,
        },
        None => None,
    };
    if version.is_none() {
        version = match value.get("package") {
            Some(p) => match p.get("version") {
                Some(v) => match v.as_str() {
                    Some(s) => Some(s.clone()),
                    None => None,
                },
                None => None,
            },
            None => None,
        };
    }
    if version.is_none() {
        version = id_version;
    }
    let version = match version {
        Some(v) => v,
        None => "unknown".to_owned(),
    };

    let mut stats: Option<&JsonValue> = value.get("stats");
    if stats.is_none() {
        stats = value.get("geiger");
    }
    if stats.is_none() {
        stats = value.get("counts");
    }

    let fn_keys = key_list("functions", "fn", None);
    let impl_keys = key_list("impls", "impl", None);
    let trait_keys = key_list("traits", "trait", None);
    let block_keys = key_list("blocks", "block", None);
    let expr_keys = key_list("exprs", "expressions", Some("expr"));

    let unsafe_functions = extract_count(stats, value, &fn_keys) as usize;
    let unsafe_impls = extract_count(stats, value, &impl_keys) as usize;
    let unsafe_traits = extract_count(stats, value, &trait_keys) as usize;
    let unsafe_blocks = extract_count(stats, value, &block_keys) as usize;
    let unsafe_expressions = extract_count(stats, value, &expr_keys) as usize;
    let a = unsafe_functions.checked_add(unsafe_impls);
    let b = match a {
        Some(a) => a.checked_add(unsafe_traits),
        None => None,
    };
    let c = match b {
        Some(b) => b.checked_add(unsafe_blocks),
        None => None,
    };
    let total = match c {
        Some(c) => c.checked_add(unsafe_expressions),
        None => None,
    };
    let total_unsafe = match total {
        Some(t) => t,
        None => {
            return None;
        },
    };

    Some(
        UnsafePackage {
            name,
            version,
            package_id,
            unsafe_functions,
            unsafe_impls,
            unsafe_traits,
            unsafe_blocks,
            unsafe_expressions,
            total_unsafe,
        },
    )
}

/// The value holds one of the tool's package containers: a `packages`
/// list, a `crate_stats` list, or a top-level array.
pub open spec fn geiger_container(v: JsonValue) -> bool {
    ||| (v is Obj && (crate::json::spec_get(v->Obj_0@, "packages"@) matches Some(p) && p is Arr))
    ||| (v is Obj && (crate::json::spec_get(v->Obj_0@, "crate_stats"@) matches Some(c)
        && c is Arr))
    ||| v is Arr
}

/// Reads the package list out of any of the tool's schemas: a `packages`
/// list, a `crate_stats` list, or a top-level array; anything else is the
/// one schema error. A list whose entries all lack identifiers is
/// reported as a changed schema.
pub fn parse_geiger_packages(value: &JsonValue) -> (r: Result<Vec<UnsafePackage>, UpkeepError>)
    ensures
        !geiger_container(*value) ==> r is Err,
        r is Ok ==> geiger_container(*value),
        r matches Err(e) ==> e.code == ErrorCode::InvalidData,
        r matches Ok(pkgs) ==> forall|k: int|
            0 <= k < pkgs@.len() ==> (#[trigger] pkgs@[k]).name@.len() > 0,
{
    let mut items: Option<&Vec<JsonValue>> = None;
    match value.get("packages") {
        Some(v) => {
            items = v.as_array();
        },
        None => {},
    }
    if items.is_none() {
        match value.get("crate_stats") {
            Some(v) => {
                items = v.as_array();
            },
            None => {},
        }
    }
    if items.is_none() {
        items = value.as_array();
    }
    let items = match items {
        Some(items) => items,
        None => {
            let schema = describe_json_schema(value);
            let mut msg = String::new();
            msg.append("cargo geiger JSON schema is not recognized: ");
            msg.append(schema.as_str());
            return Err(UpkeepError::message(ErrorCode::InvalidData, msg));
        },
    };

    let mut output: Vec<UnsafePackage> = Vec::new();
    let mut missing_identifiers: usize = 0;
    let mut i: usize = 0;
    while i < items.len()
        invariant
            i <= items@.len(),
            missing_identifiers <= i,
            forall|k: int| 0 <= k < output@.len() ==> (#[trigger] output@[k]).name@.len() > 0,
        decreases items@.len() - i,
    {
        match parse_package(&items[i]) {
            Some(package) => {
                output.push(package);
            },
            None => {
                if !has_package_identifier(&items[i]) {
                    missing_identifiers += 1;
                }
            },
        }
        i += 1;
    }

    if output.len() == 0 && items.len() > 0 && missing_identifiers == items.len() {
        return Err(
            UpkeepError::message(
                ErrorCode::InvalidData,
                "cargo geiger JSON missing package identifiers; schema may have changed".to_owned(),
            ),
        );
    }

    Ok(output)
}

/// Sums the packages' unsafe counts, saturating at the integer ceiling.
pub fn summarize(packages: &Vec<UnsafePackage>) -> (r: UnsafeSummary)
    ensures
        r.packages == packages@.len(),
{
    let mut summary = UnsafeSummary {
        packages: packages.len(),
        unsafe_functions: 0,
        unsafe_impls: 0,
        unsafe_traits: 0,
        unsafe_blocks: 0,
        unsafe_expressions: 0,
        total_unsafe: 0,
    };
    let mut i: usize = 0;
    while i < packages.len()
        invariant
            i <= packages@.len(),
            summary.packages == packages@.len(),
        decreases packages@.len() - i,
    {
        let p = &packages[i];
        summary.unsafe_functions = sat_add(summary.unsafe_functions, p.unsafe_functions);
        summary.unsafe_impls = sat_add(summary.unsafe_impls, p.unsafe_impls);
        summary.unsafe_traits = sat_add(summary.unsafe_traits, p.unsafe_traits);
        summary.unsafe_blocks = sat_add(summary.unsafe_blocks, p.unsafe_blocks);
        summary.unsafe_expressions = sat_add(summary.unsafe_expressions, p.unsafe_expressions);
        summary.total_unsafe = sat_add(summary.total_unsafe, p.total_unsafe);
        i += 1;
    }
    summary
}

/// Adds, stopping at the integer ceiling instead of wrapping.
fn sat_add(a: usize, b: usize) -> (r: usize)
    ensures
        r == (if a + b <= usize::MAX {
            a + b
        } else {
            usize::MAX as int
        }),
{
    match a.checked_add(b) {
        Some(c) => c,
        None => usize::MAX,
    }
}

/// Reads the whole unsafe-usage report out of the tool's JSON.
pub fn parse_geiger_output(value: &JsonValue) -> (r: Result<UnsafeOutput, UpkeepError>)
    ensures
        !geiger_container(*value) ==> r is Err,
        r matches Err(e) ==> e.code == ErrorCode::InvalidData,
        r matches Ok(out) ==> out.summary.packages == out.packages@.len() && geiger_container(
            *value,
        ),
{
    let packages = parse_geiger_packages(value)?;
    let summary = summarize(&packages);
    Ok(UnsafeOutput { summary, packages })
}

} // verus!
