//! Genome-library bookkeeping that needs no file system: the metadata
//! a stored genome is indexed by, and the path of the library's index
//! file. Reading and writing the files stays with the caller.

use vstd::prelude::*;
use vstd::string::StrSliceExecFns;
use vstd::string::StringExecFns;

use crate::json::{json_as_array, json_as_str, json_get, json_parse};
use crate::parse::bytes_eq;
use crate::scan::contains_view;

verus! {

/// The path of the library's index file inside the genome directory.
pub fn get_meta_path(genomes_dir: &str) -> (r: String)
    ensures
        r@ == genomes_dir@ + "/meta.json"@,
{
    let mut s = genomes_dir.to_owned();
    s.append("/meta.json");
    s
}

/// Lexicographic order on character sequences, by code point.
pub open spec fn lex_le(a: Seq<char>, b: Seq<char>) -> bool
    decreases a.len(),
{
    if a.len() == 0 {
        true
    } else if b.len() == 0 {
        false
    } else if (a[0] as u32) == (b[0] as u32) {
        lex_le(a.drop_first(), b.drop_first())
    } else {
        (a[0] as u32) < (b[0] as u32)
    }
}

/// Strictly ascending: sorted with no name twice.
pub open spec fn strs_sorted_unique(s: Seq<String>) -> bool {
    forall|i: int, j: int|
        0 <= i < j < s.len() ==> lex_le((#[trigger] s[i])@, (#[trigger] s[j])@) && s[i]@ != s[j]@
}

/// One of two sequences always compares below the other.
proof fn lemma_lex_total(a: Seq<char>, b: Seq<char>)
    ensures
        lex_le(a, b) || lex_le(b, a),
    decreases a.len(),
{
    if a.len() > 0 && b.len() > 0 && (a[0] as u32) == (b[0] as u32) {
        lemma_lex_total(a.drop_first(), b.drop_first());
    }
}

/// Every sequence compares at or below itself.
proof fn lemma_lex_refl(a: Seq<char>)
    ensures
        lex_le(a, a),
    decreases a.len(),
{
    if a.len() > 0 {
        lemma_lex_refl(a.drop_first());
    }
}

/// The order chains through a middle element.
proof fn lemma_lex_trans(a: Seq<char>, b: Seq<char>, c: Seq<char>)
    requires
        lex_le(a, b),
        lex_le(b, c),
    ensures
        lex_le(a, c),
    decreases a.len() + b.len() + c.len(),
{
    if a.len() > 0 && b.len() > 0 && c.len() > 0 {
        if (a[0] as u32) == (b[0] as u32) && (b[0] as u32) == (c[0] as u32) {
            lemma_lex_trans(a.drop_first(), b.drop_first(), c.drop_first());
        }
    }
}

/// Whether two strings read the same.
fn str_eq(a: &str, b: &str) -> (r: bool)
    ensures
        r <==> a@ == b@,
{
    let na = a.unicode_len();
    let nb = b.unicode_len();
    if na != nb {
        return false;
    }
    let mut i: usize = 0;
    while i < na
        invariant
            i <= na,
            na == a@.len(),
            na == b@.len(),
            forall|j: int| 0 <= j < i ==> a@[j] == b@[j],
        decreases na - i,
    {
        if a.get_char(i) != b.get_char(i) {
            return false;
        }
        i += 1;
    }
    proof {
        assert(a@ =~= b@);
    }
    true
}

/// Whether `a` compares at or below `b` lexicographically.
fn str_le(a: &str, b: &str) -> (r: bool)
    ensures
        r == lex_le(a@, b@),
{
    let na = a.unicode_len();
    let nb = b.unicode_len();
    let mut i: usize = 0;
    proof {
        assert(a@.skip(0) =~= a@);
        assert(b@.skip(0) =~= b@);
    }
    while i < na && i < nb
        invariant
            i <= na,
            i <= nb,
            na == a@.len(),
            nb == b@.len(),
            lex_le(a@, b@) == lex_le(a@.skip(i as int), b@.skip(i as int)),
        decreases na - i,
    {
        let ca = a.get_char(i);
        let cb = b.get_char(i);
        proof {
            assert(a@.skip(i as int)[0] == a@[i as int]);
            assert(b@.skip(i as int)[0] == b@[i as int]);
            assert(a@.skip(i as int).drop_first() =~= a@.skip(i + 1));
            assert(b@.skip(i as int).drop_first() =~= b@.skip(i + 1));
        }
        if (ca as u32) != (cb as u32) {
            return (ca as u32) < (cb as u32);
        }
        i += 1;
    }
    proof {
        if i >= na {
            assert(a@.skip(i as int).len() == 0);
        } else {
            assert(b@.skip(i as int).len() == 0);
            assert(a@.skip(i as int).len() > 0);
        }
    }
    i >= na
}

/// Where a name stands among the sorted kinds: either it is already
/// present, or the position it belongs at.
fn find_position(v: &Vec<String>, s: &str) -> (r: (bool, usize))
    requires
        strs_sorted_unique(v@),
    ensures
        r.0 ==> exists|x: int| 0 <= x < v@.len() && (#[trigger] v@[x])@ == s@,
        !r.0 ==> r.1 <= v@.len() && (forall|x: int|
            0 <= x < r.1 ==> lex_le((#[trigger] v@[x])@, s@) && v@[x]@ != s@) && (r.1 < v@.len()
            ==> !lex_le(v@[r.1 as int]@, s@)),
{
    let mut k: usize = 0;
    while k < v.len()
        invariant
            k <= v@.len(),
            forall|x: int| 0 <= x < k ==> lex_le((#[trigger] v@[x])@, s@) && v@[x]@ != s@,
        decreases v@.len() - k,
    {
        if str_eq(v[k].as_str(), s) {
            return (true, k);
        }
        if !str_le(v[k].as_str(), s) {
            return (false, k);
        }
        k += 1;
    }
    (false, k)
}

/// Inserts a name into its sorted position, once: afterwards the list
/// holds the name, everything it held before, and nothing else.
fn insert_sorted_unique(v: &mut Vec<String>, s: &str)
    requires
        strs_sorted_unique(old(v)@),
    ensures
        strs_sorted_unique(final(v)@),
        contains_view(final(v)@, s@),
        forall|x: int|
            0 <= x < old(v)@.len() ==> contains_view(final(v)@, (#[trigger] old(v)@[x])@),
        forall|x: int|
            0 <= x < final(v)@.len() ==> contains_view(old(v)@, (#[trigger] final(v)@[x])@)
                || final(v)@[x]@ == s@,
{
    let (present, k) = find_position(v, s);
    if present {
        proof {
            let x0 = choose|x: int| 0 <= x < v@.len() && (#[trigger] v@[x])@ == s@;
            assert(contains_view(v@, s@));
            assert forall|x: int|
                0 <= x < v@.len() implies contains_view(v@, (#[trigger] v@[x])@) by {}
        }
        return ;
    }
    let ghost prev = v@;
    let ghost pos = k as int;
    proof {
        if pos < prev.len() {
            lemma_lex_total(prev[pos]@, s@);
        }
    }
    v.insert(k, s.to_owned());
    proof {
        assert forall|i: int, j: int| 0 <= i < j < v@.len() implies lex_le(
            (#[trigger] v@[i])@,
            (#[trigger] v@[j])@,
        ) && v@[i]@ != v@[j]@ by {
            if i == pos {
                // s stands before every old suffix element
                assert(v@[j] == prev[j - 1]);
                assert(lex_le(s@, prev[pos]@));
                if j - 1 > pos {
                    lemma_lex_trans(s@, prev[pos]@, prev[j - 1]@);
                    if s@ == prev[j - 1]@ {
                        // then the old order would put prev[pos] at or
                        // below s, which the search ruled out
                        assert(lex_le(prev[pos]@, prev[j - 1]@));
                    }
                } else {
                    if s@ == prev[j - 1]@ {
                        lemma_lex_refl(s@);
                    }
                }
            } else if j == pos {
                assert(v@[i] == prev[i]);
                assert(lex_le(prev[i]@, s@) && prev[i]@ != s@);
            } else if i < pos && j > pos {
                assert(v@[i] == prev[i] && v@[j] == prev[j - 1]);
            } else if j < pos {
                assert(v@[i] == prev[i] && v@[j] == prev[j]);
            } else {
                assert(v@[i] == prev[i - 1] && v@[j] == prev[j - 1]);
            }
        }
        // membership: the new name sits at the insertion position, the
        // old names moved by at most one place
        assert(v@[pos]@ == s@);
        assert(contains_view(v@, s@));
        assert forall|x: int|
            0 <= x < prev.len() implies contains_view(v@, (#[trigger] prev[x])@) by {
            if x < pos {
                assert(v@[x] == prev[x]);
            } else {
                assert(v@[x + 1] == prev[x]);
            }
        }
        assert forall|x: int|
            0 <= x < v@.len() implies contains_view(prev, (#[trigger] v@[x])@) || v@[x]@ == s@ by {
            if x < pos {
                assert(v@[x] == prev[x]);
            } else if x > pos {
                assert(v@[x] == prev[x - 1]);
            }
        }
    }
}

/// Reads a serialized genome's structural metadata: the dimensionality
/// of each declared input and output, how many node lines parse, and
/// the distinct node kinds, in ascending name order.
pub fn extract_genome_metadata(genome_str: &str) -> (r: (Vec<usize>, Vec<usize>, usize, Vec<
    String,
>))
    ensures
        strs_sorted_unique(r.3@),
{
    let bytes = genome_str.as_bytes();
    let n = bytes.len();
    let mut input_dims: Vec<usize> = Vec::new();
    let mut output_dims: Vec<usize> = Vec::new();
    let mut total_nodes: usize = 0;
    let mut layer_types: Vec<String> = Vec::new();
    let mut i: usize = 0;
    while i < n
        invariant
            i <= n,
            n == bytes@.len(),
            total_nodes <= i,
            strs_sorted_unique(layer_types@),
        decreases n - i,
    {
        let start = i;
        while i < n && bytes[i] != 10
            invariant
                start <= i <= n,
                n == bytes@.len(),
            decreases n - i,
        {
            i += 1;
        }
        let mut end = i;
        if end > start && bytes[end - 1] == 13 {
            end = end - 1;
        }
        let line = &bytes[start..end];
        if i < n {
            i += 1;
        }
        if bytes_eq(line, "CONNECTIONS".as_bytes()) {
            break ;
        }
        match json_parse(line) {
            Some(value) => {
                total_nodes += 1;
                match json_get(&value, "node") {
                    Some(nv) => match json_as_str(nv) {
                        Some(kind) => {
                            insert_sorted_unique(&mut layer_types, kind);
                            if bytes_eq(kind.as_bytes(), "Input".as_bytes()) {
                                match json_get(&value, "params") {
                                    Some(params) => match json_get(params, "output_shape") {
                                        Some(sv) => match json_as_array(sv) {
                                            Some(arr) => { input_dims.push(arr.len()) },
                                            None => {},
                                        },
                                        None => {},
                                    },
                                    None => {},
                                }
                            } else if bytes_eq(kind.as_bytes(), "Output".as_bytes()) {
                                match json_get(&value, "params") {
                                    Some(params) => match json_get(params, "input_shape") {
                                        Some(sv) => match json_as_array(sv) {
                                            Some(arr) => { output_dims.push(arr.len()) },
                                            None => {},
                                        },
                                        None => {},
                                    },
                                    None => {},
                                }
                            }
                        },
                        None => {},
                    },
                    None => {},
                }
            },
            None => {},
        }
    }
    (input_dims, output_dims, total_nodes, layer_types)
}

} // verus!
