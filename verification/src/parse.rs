//! The genome parser: raw genome text into node declarations and edges.
//!
//! A genome is a sequence of one-JSON-object-per-line node declarations,
//! a literal `CONNECTIONS` separator line, and one whitespace-separated
//! integer pair per line naming the edges by declaration index. Blank
//! lines are ignored. No shape or type reasoning happens here.

use vstd::prelude::*;

use crate::dtos::NodeDtoJSON;
use crate::entities::GraphCompileError;
use crate::json::{json_as_array, json_as_bool, json_as_str, json_as_u64, json_get, json_parse};

verus! {

/// A byte a line's trim drops: space, tab, or carriage return.
pub open spec fn is_space(b: u8) -> bool {
    b == 32 || b == 9 || b == 13
}

/// A decimal digit byte.
pub open spec fn is_digit(b: u8) -> bool {
    48 <= b && b <= 57
}

/// The number a sequence of decimal digit bytes denotes.
pub open spec fn decimal_value(s: Seq<u8>) -> nat
    decreases s.len(),
{
    if s.len() == 0 {
        0
    } else {
        decimal_value(s.drop_last()) * 10 + ((s.last() - 48) as nat)
    }
}

/// A digit string denotes at least as much as any of its prefixes.
proof fn lemma_decimal_prefix_le(s: Seq<u8>, k: int)
    requires
        0 <= k <= s.len(),
    ensures
        decimal_value(s.take(k)) <= decimal_value(s),
    decreases s.len() - k,
{
    if k < s.len() {
        assert(s.take(k + 1).drop_last() =~= s.take(k));
        assert(decimal_value(s.take(k + 1)) == decimal_value(s.take(k)) * 10 + ((s.take(
            k + 1,
        ).last() - 48) as nat));
        lemma_decimal_prefix_le(s, k + 1);
    } else {
        assert(s.take(k) =~= s);
    }
}

/// Reads a whole token of decimal digits as a `usize`.
///
/// Returns the denoted number exactly when the token is non-empty, all
/// digits, and the number fits the machine word.
pub fn parse_usize(token: &[u8]) -> (r: Option<usize>)
    ensures
        r matches Some(v) ==> token@.len() > 0 && (forall|j: int|
            0 <= j < token@.len() ==> is_digit(#[trigger] token@[j])) && v == decimal_value(
            token@,
        ),
        r is None ==> token@.len() == 0 || (exists|j: int|
            0 <= j < token@.len() && !is_digit(#[trigger] token@[j])) || decimal_value(token@)
            > usize::MAX,
{
    let n = token.len();
    if n == 0 {
        return None;
    }
    let mut acc: usize = 0;
    let mut i: usize = 0;
    while i < n
        invariant
            0 <= i <= n,
            n == token@.len(),
            forall|j: int| 0 <= j < i ==> is_digit(#[trigger] token@[j]),
            acc == decimal_value(token@.take(i as int)),
        decreases n - i,
    {
        let b = token[i];
        if b < 48 || b > 57 {
            return None;
        }
        let d = (b - 48) as usize;
        proof {
            assert(token@.take(i + 1).drop_last() =~= token@.take(i as int));
            assert(token@.take(i + 1).last() == token@[i as int]);
        }
        let acc10 = match acc.checked_mul(10) {
            Some(x) => x,
            None => {
                proof {
                    if forall|j: int| 0 <= j < token@.len() ==> is_digit(#[trigger] token@[j]) {
                        lemma_decimal_prefix_le(token@, i + 1);
                    }
                }
                return None;
            },
        };
        let acc2 = match acc10.checked_add(d) {
            Some(x) => x,
            None => {
                proof {
                    if forall|j: int| 0 <= j < token@.len() ==> is_digit(#[trigger] token@[j]) {
                        lemma_decimal_prefix_le(token@, i + 1);
                    }
                }
                return None;
            },
        };
        acc = acc2;
        i += 1;
    }
    proof {
        assert(token@.take(n as int) =~= token@);
    }
    Some(acc)
}

/// The bounds of a line's non-space core: every byte before the first
/// bound and from the second bound on is a space, and a non-empty core
/// neither starts nor ends with one.
pub fn trim_bounds(line: &[u8]) -> (r: (usize, usize))
    ensures
        r.0 <= r.1 <= line@.len(),
        forall|j: int| 0 <= j < r.0 ==> is_space(#[trigger] line@[j]),
        forall|j: int| r.1 <= j < line@.len() ==> is_space(#[trigger] line@[j]),
        r.0 < r.1 ==> !is_space(line@[r.0 as int]) && !is_space(line@[r.1 - 1]),
{
    let n = line.len();
    let mut lo: usize = 0;
    while lo < n && (line[lo] == 32 || line[lo] == 9 || line[lo] == 13)
        invariant
            0 <= lo <= n,
            n == line@.len(),
            forall|j: int| 0 <= j < lo ==> is_space(#[trigger] line@[j]),
        decreases n - lo,
    {
        lo += 1;
    }
    if lo == n {
        return (n, n);
    }
    let mut hi: usize = n;
    while hi > lo + 1 && (line[hi - 1] == 32 || line[hi - 1] == 9 || line[hi - 1] == 13)
        invariant
            lo < hi <= n,
            n == line@.len(),
            forall|j: int| hi <= j < n ==> is_space(#[trigger] line@[j]),
        decreases hi,
    {
        hi -= 1;
    }
    if line[hi - 1] == 32 || line[hi - 1] == 9 || line[hi - 1] == 13 {
        // Only possible when the core would be a single space, which the
        // first scan already ruled out.
        return (lo, lo);
    }
    (lo, hi)
}

/// Whether two byte strings are equal.
pub fn bytes_eq(a: &[u8], b: &[u8]) -> (r: bool)
    ensures
        r <==> a@ == b@,
{
    if a.len() != b.len() {
        return false;
    }
    let mut i: usize = 0;
    while i < a.len()
        invariant
            0 <= i <= a@.len(),
            a@.len() == b@.len(),
            forall|j: int| 0 <= j < i ==> a@[j] == b@[j],
        decreases a@.len() - i,
    {
        if a[i] != b[i] {
            return false;
        }
        i += 1;
    }
    proof {
        assert(a@ =~= b@);
    }
    true
}

/// The member of a JSON object under `key`, read as a `u64`.
fn get_u64(obj: &serde_json::Value, key: &str) -> Option<u64> {
    match json_get(obj, key) {
        Some(v) => json_as_u64(v),
        None => None,
    }
}

/// The member of a JSON object under `key`, read as a `u8`.
fn get_u8(obj: &serde_json::Value, key: &str) -> Option<u8> {
    match get_u64(obj, key) {
        Some(x) => if x <= 255 {
            Some(x as u8)
        } else {
            None
        },
        None => None,
    }
}

/// The member of a JSON object under `key`, read as a `bool`.
fn get_bool(obj: &serde_json::Value, key: &str) -> Option<bool> {
    match json_get(obj, key) {
        Some(v) => json_as_bool(v),
        None => None,
    }
}

/// The member of a JSON object under `key`, read as an owned string.
fn get_string(obj: &serde_json::Value, key: &str) -> Option<String> {
    match json_get(obj, key) {
        Some(v) => match json_as_str(v) {
            Some(s) => Some(s.to_owned()),
            None => None,
        },
        None => None,
    }
}

/// The member of a JSON object under `key`, read as a list of `u64`.
fn get_u64_list(obj: &serde_json::Value, key: &str) -> Option<Vec<u64>> {
    let arr = match json_get(obj, key) {
        Some(v) => match json_as_array(v) {
            Some(a) => a,
            None => { return None; },
        },
        None => { return None; },
    };
    let mut out: Vec<u64> = Vec::new();
    let mut i: usize = 0;
    while i < arr.len()
        decreases arr@.len() - i,
    {
        match json_as_u64(&arr[i]) {
            Some(x) => out.push(x),
            None => { return None; },
        }
        i += 1;
    }
    Some(out)
}

/// The member of a JSON object under `key`, read as a list of `u8`.
fn get_u8_list(obj: &serde_json::Value, key: &str) -> Option<Vec<u8>> {
    let list = match get_u64_list(obj, key) {
        Some(l) => l,
        None => { return None; },
    };
    let mut out: Vec<u8> = Vec::new();
    let mut i: usize = 0;
    while i < list.len()
        decreases list@.len() - i,
    {
        let x = list[i];
        if x > 255 {
            return None;
        }
        out.push(x as u8);
        i += 1;
    }
    Some(out)
}

/// Reads one node declaration from its parsed JSON value, validating the
/// schema: a `"node"` kind tag and the parameters that kind needs under
/// `"params"`. The kinds without parameters accept a missing `"params"`.
pub(crate) fn node_from_value(v: &serde_json::Value) -> Option<NodeDtoJSON> {
    let kind = match json_get(v, "node") {
        Some(k) => match json_as_str(k) {
            Some(s) => s,
            None => { return None; },
        },
        None => { return None; },
    };
    let kb = kind.as_bytes();
    if bytes_eq(kb, "Flatten".as_bytes()) {
        return Some(NodeDtoJSON::Flatten);
    }
    if bytes_eq(kb, "Add".as_bytes()) {
        return Some(NodeDtoJSON::Add);
    }
    if bytes_eq(kb, "Concat".as_bytes()) {
        return Some(NodeDtoJSON::Concat);
    }
    let params = match json_get(v, "params") {
        Some(p) => p,
        None => { return None; },
    };
    if bytes_eq(kb, "Conv2D".as_bytes()) {
        let filters = match get_u64(params, "filters") {
            Some(x) => x,
            None => { return None; },
        };
        let kernel_size = match get_u8_list(params, "kernel_size") {
            Some(x) => x,
            None => { return None; },
        };
        let stride = match get_u8(params, "stride") {
            Some(x) => x,
            None => { return None; },
        };
        let padding = match get_u8(params, "padding") {
            Some(x) => x,
            None => { return None; },
        };
        let dilation = match get_u8(params, "dilation") {
            Some(x) => x,
            None => { return None; },
        };
        let use_bias = match get_bool(params, "use_bias") {
            Some(x) => x,
            None => { return None; },
        };
        return Some(
            NodeDtoJSON::Conv2D { filters, kernel_size, stride, padding, dilation, use_bias },
        );
    }
    if bytes_eq(kb, "Dense".as_bytes()) {
        let units = match get_u64(params, "units") {
            Some(x) => x,
            None => { return None; },
        };
        let activation = match get_string(params, "activation") {
            Some(x) => x,
            None => { return None; },
        };
        let use_bias = match get_bool(params, "use_bias") {
            Some(x) => x,
            None => { return None; },
        };
        return Some(NodeDtoJSON::Dense { units, activation, use_bias });
    }
    if bytes_eq(kb, "Input".as_bytes()) {
        let output_shape = match get_u64_list(params, "output_shape") {
            Some(x) => x,
            None => { return None; },
        };
        return Some(NodeDtoJSON::Input { output_shape });
    }
    if bytes_eq(kb, "Output".as_bytes()) {
        let input_shape = match get_u64_list(params, "input_shape") {
            Some(x) => x,
            None => { return None; },
        };
        return Some(NodeDtoJSON::Output { input_shape });
    }
    if bytes_eq(kb, "Pooling".as_bytes()) {
        let pool_type = match get_string(params, "pool_type") {
            Some(x) => x,
            None => { return None; },
        };
        let kernel_size = match get_u8_list(params, "kernel_size") {
            Some(x) => x,
            None => { return None; },
        };
        let stride = match get_u8(params, "stride") {
            Some(x) => x,
            None => { return None; },
        };
        let padding = match get_u8(params, "padding") {
            Some(x) => x,
            None => { return None; },
        };
        return Some(NodeDtoJSON::Pooling { pool_type, kernel_size, stride, padding });
    }
    None
}

/// Reads one edge line: exactly two whitespace-separated decimal numbers.
fn parse_edge_line(line: &[u8]) -> Option<(usize, usize)> {
    let n = line.len();
    let mut i: usize = 0;
    while i < n && (line[i] == 32 || line[i] == 9 || line[i] == 13)
        invariant
            i <= n,
            n == line@.len(),
        decreases n - i,
    {
        i += 1;
    }
    let a_start = i;
    while i < n && !(line[i] == 32 || line[i] == 9 || line[i] == 13)
        invariant
            a_start <= i <= n,
            n == line@.len(),
        decreases n - i,
    {
        i += 1;
    }
    let a_end = i;
    while i < n && (line[i] == 32 || line[i] == 9 || line[i] == 13)
        invariant
            a_end <= i <= n,
            n == line@.len(),
        decreases n - i,
    {
        i += 1;
    }
    let b_start = i;
    while i < n && !(line[i] == 32 || line[i] == 9 || line[i] == 13)
        invariant
            b_start <= i <= n,
            n == line@.len(),
        decreases n - i,
    {
        i += 1;
    }
    let b_end = i;
    while i < n && (line[i] == 32 || line[i] == 9 || line[i] == 13)
        invariant
            b_end <= i <= n,
            n == line@.len(),
        decreases n - i,
    {
        i += 1;
    }
    if i < n {
        // a third token follows
        return None;
    }
    let from = match parse_usize(&line[a_start..a_end]) {
        Some(x) => x,
        None => { return None; },
    };
    let to = match parse_usize(&line[b_start..b_end]) {
        Some(x) => x,
        None => { return None; },
    };
    Some((from, to))
}

/// Parses a whole genome: node declarations in order, the `CONNECTIONS`
/// separator, then one edge per line. Every returned edge references
/// declared nodes.
pub fn parse_genome(raw: &[u8]) -> (r: Result<
    (Vec<NodeDtoJSON>, Vec<(usize, usize)>),
    GraphCompileError,
>)
    ensures
        r matches Ok(g) ==> forall|k: int|
            0 <= k < g.1@.len() ==> (#[trigger] g.1@[k]).0 < g.0@.len() && g.1@[k].1 < g.0@.len(),
        r matches Err(e) ==> e is MalformedGenome,
{
    let n = raw.len();
    let mut nodes: Vec<NodeDtoJSON> = Vec::new();
    let mut edges: Vec<(usize, usize)> = Vec::new();
    let mut in_connections = false;
    let mut i: usize = 0;
    while i < n
        invariant
            i <= n,
            n == raw@.len(),
            forall|k: int|
                0 <= k < edges@.len() ==> (#[trigger] edges@[k]).0 < nodes@.len()
                    && edges@[k].1 < nodes@.len(),
        decreases n - i,
    {
        let start = i;
        while i < n && raw[i] != 10
            invariant
                start <= i <= n,
                n == raw@.len(),
            decreases n - i,
        {
            i += 1;
        }
        let line = &raw[start..i];
        if i < n {
            i += 1;
        }
        let (lo, hi) = trim_bounds(line);
        if lo < hi {
            let core = &line[lo..hi];
            if bytes_eq(core, "CONNECTIONS".as_bytes()) {
                in_connections = true;
            } else if in_connections {
                let (from, to) = match parse_edge_line(core) {
                    Some(e) => e,
                    None => {
                        return Err(
                            GraphCompileError::MalformedGenome {
                                detail: "an edge line must be two non-negative integers".to_owned(),
                            },
                        );
                    },
                };
                if from >= nodes.len() || to >= nodes.len() {
                    return Err(
                        GraphCompileError::MalformedGenome {
                            detail: "an edge references an out-of-range node id".to_owned(),
                        },
                    );
                }
                edges.push((from, to));
            } else {
                let value = match json_parse(core) {
                    Some(v) => v,
                    None => {
                        return Err(
                            GraphCompileError::MalformedGenome {
                                detail: "a node line is not valid JSON".to_owned(),
                            },
                        );
                    },
                };
                let node = match node_from_value(&value) {
                    Some(c) => c,
                    None => {
                        return Err(
                            GraphCompileError::MalformedGenome {
                                detail: "a node line does not match the node schema".to_owned(),
                            },
                        );
                    },
                };
                nodes.push(node);
            }
        }
    }
    Ok((nodes, edges))
}

} // verus!
