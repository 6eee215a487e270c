//! Pure helpers of the dataset scan: mapping sample ids to their class
//! folders, filtering ids by companion-file presence, and the id-set
//! arithmetic of a scan report. All file and directory work stays with
//! the caller; these functions see paths only as text.

use vstd::prelude::*;
use vstd::string::StrSliceExecFns;
use vstd::string::StringExecFns;

verus! {

/// One stream of a dataset scan, as the caller configures it.
pub struct StreamLocatorConfig {
    pub stream_id: String,
    pub alias: String,
    /// One of `GlobPattern`, `FolderMapping`, `CompanionFile`, `None`.
    pub locator_type: String,
    /// The glob pattern of a `GlobPattern` stream.
    pub pattern: Option<String>,
    /// The path template of a `CompanionFile` stream, with `{id}` for
    /// the sample id.
    pub path_template: Option<String>,
}

/// What one stream contributed to the scan.
pub struct StreamScanReport {
    pub stream_id: String,
    pub alias: String,
    pub found_count: usize,
    pub missing_sample_ids: Vec<String>,
    /// Per class-folder sample counts of a `FolderMapping` stream, one
    /// entry per distinct class name.
    pub discovered_classes: Option<Vec<(String, usize)>>,
}

/// The outcome of a whole dataset scan.
pub struct ScanDatasetResult {
    pub total_matched: usize,
    pub dropped_count: usize,
    pub stream_reports: Vec<StreamScanReport>,
}

/// The index of the last `/` in a path, or `-1`.
pub open spec fn last_sep(s: Seq<char>) -> int
    decreases s.len(),
{
    if s.len() == 0 {
        -1
    } else if s.last() == '/' {
        s.len() - 1
    } else {
        last_sep(s.drop_last())
    }
}

/// The name of the directory a path's last component sits in: the text
/// between the two final separators. Empty when the path has no parent
/// directory with a name.
pub open spec fn folder_name_of(s: Seq<char>) -> Seq<char> {
    let li = last_sep(s);
    if li < 0 {
        Seq::empty()
    } else {
        s.subrange(last_sep(s.take(li)) + 1, li)
    }
}

/// The id-to-class map a list of `(id, path)` anchors induces: one
/// entry per anchor whose path has a named parent directory.
pub open spec fn folder_entries(entries: Seq<(String, String)>) -> Seq<(Seq<char>, Seq<char>)>
    decreases entries.len(),
{
    if entries.len() == 0 {
        Seq::empty()
    } else {
        let rest = folder_entries(entries.drop_last());
        let p = entries.last();
        if folder_name_of(p.1@).len() > 0 {
            rest.push((p.0@, folder_name_of(p.1@)))
        } else {
            rest
        }
    }
}

/// The bounds `last_sep` returns.
proof fn lemma_last_sep_bounds(s: Seq<char>)
    ensures
        -1 <= last_sep(s) < s.len(),
    decreases s.len(),
{
    if s.len() > 0 && s.last() != '/' {
        lemma_last_sep_bounds(s.drop_last());
    }
}

/// The index of the last `/` at or before `end` in `s`, as `last_sep`
/// of the prefix.
fn rfind_sep(s: &str, end: usize) -> (r: Option<usize>)
    requires
        end <= s@.len(),
    ensures
        r matches Some(i) ==> i < end && last_sep(s@.take(end as int)) == i,
        r is None ==> last_sep(s@.take(end as int)) == -1,
{
    let mut i: usize = end;
    while i > 0
        invariant
            i <= end,
            end <= s@.len(),
            last_sep(s@.take(end as int)) == last_sep(s@.take(i as int)),
        decreases i,
    {
        proof {
            assert(s@.take(i as int).drop_last() =~= s@.take(i - 1));
        }
        if s.get_char(i - 1) == '/' {
            return Some(i - 1);
        }
        i -= 1;
    }
    proof {
        assert(s@.take(0) =~= Seq::<char>::empty());
    }
    None
}

/// The class-folder name of one path, exactly `folder_name_of`; `None`
/// when the path has no named parent directory.
pub fn folder_name(path: &str) -> (r: Option<String>)
    ensures
        r matches Some(f) ==> f@ == folder_name_of(path@) && f@.len() > 0,
        r is None ==> folder_name_of(path@).len() == 0,
{
    let n = path.unicode_len();
    proof {
        assert(path@.take(n as int) =~= path@);
    }
    let li = match rfind_sep(path, n) {
        Some(i) => i,
        None => { return None },
    };
    let pi = match rfind_sep(path, li) {
        Some(i) => i + 1,
        None => 0,
    };
    proof {
        lemma_last_sep_bounds(path@.take(li as int));
    }
    if pi == li {
        return None;
    }
    let f = path.substring_char(pi, li).to_owned();
    Some(f)
}

/// Maps each anchor id to the class folder its path sits in, keeping
/// only the anchors whose paths have a named parent directory.
pub fn collect_folder_mapping_ids(anchor_ids: &Vec<(String, String)>) -> (r: Vec<(String, String)>)
    ensures
        r@.map_values(|p: (String, String)| (p.0@, p.1@)) == folder_entries(anchor_ids@),
{
    let mut out: Vec<(String, String)> = Vec::new();
    let mut i: usize = 0;
    while i < anchor_ids.len()
        invariant
            i <= anchor_ids@.len(),
            out@.map_values(|p: (String, String)| (p.0@, p.1@)) == folder_entries(
                anchor_ids@.take(i as int),
            ),
        decreases anchor_ids@.len() - i,
    {
        proof {
            assert(anchor_ids@.take(i + 1).drop_last() =~= anchor_ids@.take(i as int));
            assert(anchor_ids@.take(i + 1).last() == anchor_ids@[i as int]);
        }
        let ghost prev = out@;
        match folder_name(anchor_ids[i].1.as_str()) {
            Some(f) => {
                let id = anchor_ids[i].0.clone();
                out.push((id, f));
                proof {
                    assert(out@.map_values(|p: (String, String)| (p.0@, p.1@)) =~= prev.map_values(
                        |p: (String, String)| (p.0@, p.1@),
                    ).push((anchor_ids@[i as int].0@, folder_name_of(anchor_ids@[i as int].1@))));
                }
            },
            None => {},
        }
        i += 1;
    }
    proof {
        assert(anchor_ids@.take(anchor_ids@.len() as int) =~= anchor_ids@);
    }
    out
}

/// The ids whose companion file was found: entry `i` of `ids` is kept
/// exactly when entry `i` of `present` says so.
pub open spec fn present_filter(ids: Seq<String>, present: Seq<bool>) -> Seq<Seq<char>>
    decreases ids.len(),
{
    if ids.len() == 0 {
        Seq::empty()
    } else {
        let rest = present_filter(ids.drop_last(), present.drop_last());
        if present.last() {
            rest.push(ids.last()@)
        } else {
            rest
        }
    }
}

/// Keeps the ids whose companion file exists. The caller answers the
/// existence question (it needs the file system); entry `i` of
/// `present` answers for entry `i` of `anchor_ids`.
pub fn collect_companion_ids(anchor_ids: &Vec<String>, present: &Vec<bool>) -> (r: Vec<String>)
    requires
        anchor_ids@.len() == present@.len(),
    ensures
        r@.map_values(|s: String| s@) == present_filter(anchor_ids@, present@),
{
    let mut out: Vec<String> = Vec::new();
    let mut i: usize = 0;
    while i < anchor_ids.len()
        invariant
            i <= anchor_ids@.len(),
            anchor_ids@.len() == present@.len(),
            out@.map_values(|s: String| s@) == present_filter(
                anchor_ids@.take(i as int),
                present@.take(i as int),
            ),
        decreases anchor_ids@.len() - i,
    {
        proof {
            assert(anchor_ids@.take(i + 1).drop_last() =~= anchor_ids@.take(i as int));
            assert(present@.take(i + 1).drop_last() =~= present@.take(i as int));
        }
        let ghost prev = out@;
        if present[i] {
            out.push(anchor_ids[i].clone());
            proof {
                assert(out@.map_values(|s: String| s@) =~= prev.map_values(|s: String| s@).push(
                    anchor_ids@[i as int]@,
                ));
            }
        }
        i += 1;
    }
    proof {
        assert(anchor_ids@.take(anchor_ids@.len() as int) =~= anchor_ids@);
        assert(present@.take(present@.len() as int) =~= present@);
    }
    out
}

/// The template with every `{id}` replaced by the sample id.
pub open spec fn replace_id(t: Seq<char>, id: Seq<char>) -> Seq<char>
    decreases t.len(),
{
    if t.len() < 4 {
        t
    } else if t.take(4) == seq!['{', 'i', 'd', '}'] {
        id + replace_id(t.skip(4), id)
    } else {
        seq![t[0]] + replace_id(t.skip(1), id)
    }
}

/// The relative path a companion-file template names for one sample id.
pub fn companion_relative(path_template: &str, id: &str) -> (r: String)
    ensures
        r@ == replace_id(path_template@, id@),
{
    let n = path_template.unicode_len();
    let mut out = String::new();
    let mut i: usize = 0;
    proof {
        assert(path_template@.skip(0) =~= path_template@);
        assert(out@ + replace_id(path_template@, id@) =~= replace_id(path_template@, id@));
    }
    while i < n
        invariant
            i <= n,
            n == path_template@.len(),
            out@ + replace_id(path_template@.skip(i as int), id@) == replace_id(
                path_template@,
                id@,
            ),
        decreases n - i,
    {
        let ghost rest = path_template@.skip(i as int);
        if n >= 4 && i <= n - 4 && path_template.get_char(i) == '{' && path_template.get_char(
            i + 1,
        ) == 'i' && path_template.get_char(i + 2) == 'd' && path_template.get_char(i + 3) == '}' {
            proof {
                assert(rest.take(4) =~= seq!['{', 'i', 'd', '}']);
                assert(rest.skip(4) =~= path_template@.skip(i + 4));
            }
            out.append(id);
            i += 4;
        } else {
            proof {
                assert(rest.len() >= 1);
                if rest.len() >= 4 {
                    assert(rest.take(4)[0] == path_template@[i as int]);
                    assert(rest.take(4)[1] == path_template@[i + 1]);
                    assert(rest.take(4)[2] == path_template@[i + 2]);
                    assert(rest.take(4)[3] == path_template@[i + 3]);
                    assert(rest.take(4) != seq!['{', 'i', 'd', '}']) by {
                        if rest.take(4) == seq!['{', 'i', 'd', '}'] {
                            assert(path_template@[i as int] == '{');
                            assert(path_template@[i + 1] == 'i');
                            assert(path_template@[i + 2] == 'd');
                            assert(path_template@[i + 3] == '}');
                        }
                    }
                }
                assert(rest.skip(1) =~= path_template@.skip(i + 1));
                assert(seq![rest[0]] =~= path_template@.subrange(i as int, i + 1));
            }
            let c = path_template.substring_char(i, i + 1);
            out.append(c);
            i += 1;
        }
    }
    proof {
        assert(path_template@.skip(n as int) =~= Seq::<char>::empty());
    }
    out
}

/// Whether some entry of `s` reads `x`.
pub open spec fn contains_view(s: Seq<String>, x: Seq<char>) -> bool {
    exists|i: int| 0 <= i < s.len() && (#[trigger] s[i])@ == x
}

/// Whether some entry of `s` reads the same as `x`.
fn contains_str(s: &Vec<String>, x: &String) -> (r: bool)
    ensures
        r == contains_view(s@, x@),
{
    let mut i: usize = 0;
    while i < s.len()
        invariant
            i <= s@.len(),
            forall|j: int| 0 <= j < i ==> (#[trigger] s@[j])@ != x@,
        decreases s@.len() - i,
    {
        if s[i].eq(x) {
            return true;
        }
        i += 1;
    }
    false
}

/// The entries of `a` that `b` does not contain, in order.
pub open spec fn diff_view(a: Seq<String>, b: Seq<String>) -> Seq<Seq<char>>
    decreases a.len(),
{
    if a.len() == 0 {
        Seq::empty()
    } else {
        let rest = diff_view(a.drop_last(), b);
        if contains_view(b, a.last()@) {
            rest
        } else {
            rest.push(a.last()@)
        }
    }
}

/// The sample ids of `a` that `b` lacks (the missing ids of a stream).
pub fn ids_difference(a: &Vec<String>, b: &Vec<String>) -> (r: Vec<String>)
    ensures
        r@.map_values(|s: String| s@) == diff_view(a@, b@),
{
    let mut out: Vec<String> = Vec::new();
    let mut i: usize = 0;
    while i < a.len()
        invariant
            i <= a@.len(),
            out@.map_values(|s: String| s@) == diff_view(a@.take(i as int), b@),
        decreases a@.len() - i,
    {
        proof {
            assert(a@.take(i + 1).drop_last() =~= a@.take(i as int));
            assert(a@.take(i + 1).last() == a@[i as int]);
        }
        let ghost prev = out@;
        if !contains_str(b, &a[i]) {
            out.push(a[i].clone());
            proof {
                assert(out@.map_values(|s: String| s@) =~= prev.map_values(|s: String| s@).push(
                    a@[i as int]@,
                ));
            }
        }
        i += 1;
    }
    proof {
        assert(a@.take(a@.len() as int) =~= a@);
    }
    out
}

/// The entries of `a` that `b` also contains, in order.
pub open spec fn intersect_view(a: Seq<String>, b: Seq<String>) -> Seq<Seq<char>>
    decreases a.len(),
{
    if a.len() == 0 {
        Seq::empty()
    } else {
        let rest = intersect_view(a.drop_last(), b);
        if contains_view(b, a.last()@) {
            rest.push(a.last()@)
        } else {
            rest
        }
    }
}

/// The sample ids valid in both lists (the running intersection of a
/// scan).
pub fn ids_intersection(a: &Vec<String>, b: &Vec<String>) -> (r: Vec<String>)
    ensures
        r@.map_values(|s: String| s@) == intersect_view(a@, b@),
{
    let mut out: Vec<String> = Vec::new();
    let mut i: usize = 0;
    while i < a.len()
        invariant
            i <= a@.len(),
            out@.map_values(|s: String| s@) == intersect_view(a@.take(i as int), b@),
        decreases a@.len() - i,
    {
        proof {
            assert(a@.take(i + 1).drop_last() =~= a@.take(i as int));
            assert(a@.take(i + 1).last() == a@[i as int]);
        }
        let ghost prev = out@;
        if contains_str(b, &a[i]) {
            out.push(a[i].clone());
            proof {
                assert(out@.map_values(|s: String| s@) =~= prev.map_values(|s: String| s@).push(
                    a@[i as int]@,
                ));
            }
        }
        i += 1;
    }
    proof {
        assert(a@.take(a@.len() as int) =~= a@);
    }
    out
}

/// How often `x` occurs in `s`.
pub open spec fn occurrences(s: Seq<String>, x: Seq<char>) -> nat
    decreases s.len(),
{
    if s.len() == 0 {
        0
    } else {
        occurrences(s.drop_last(), x) + if s.last()@ == x {
            1nat
        } else {
            0nat
        }
    }
}

/// A name occurs at most once per entry.
proof fn lemma_occurrences_le(s: Seq<String>, x: Seq<char>)
    ensures
        occurrences(s, x) <= s.len(),
    decreases s.len(),
{
    if s.len() > 0 {
        lemma_occurrences_le(s.drop_last(), x);
    }
}

/// A positive occurrence count is a witness of membership.
proof fn lemma_occ_pos(s: Seq<String>, x: Seq<char>)
    requires
        occurrences(s, x) >= 1,
    ensures
        exists|j: int| 0 <= j < s.len() && (#[trigger] s[j])@ == x,
    decreases s.len(),
{
    if s.len() > 0 {
        if s.last()@ == x {
            assert(s[s.len() - 1]@ == x);
        } else {
            lemma_occ_pos(s.drop_last(), x);
            let j = choose|j: int| 0 <= j < s.drop_last().len() && (#[trigger] s.drop_last()[j])@ == x;
            assert(s[j]@ == x);
        }
    }
}

/// The position of `name` among the counted classes.
fn find_name(out: &Vec<(String, usize)>, name: &String) -> (r: Option<usize>)
    ensures
        r matches Some(p) ==> p < out@.len() && out@[p as int].0@ == name@,
        r is None ==> forall|k: int| 0 <= k < out@.len() ==> (#[trigger] out@[k]).0@ != name@,
{
    let mut k: usize = 0;
    while k < out.len()
        invariant
            k <= out@.len(),
            forall|x: int| 0 <= x < k ==> (#[trigger] out@[x]).0@ != name@,
        decreases out@.len() - k,
    {
        if out[k].0.eq(name) {
            return Some(k);
        }
        k += 1;
    }
    None
}

/// Counts the samples per class name: one entry per distinct name, with
/// how often it occurs, and no name twice; every class that occurs is
/// listed.
pub fn class_counts(folders: &Vec<String>) -> (r: Vec<(String, usize)>)
    ensures
        forall|k: int|
            0 <= k < r@.len() ==> (#[trigger] r@[k]).1 == occurrences(folders@, r@[k].0@),
        forall|k1: int, k2: int| 0 <= k1 < k2 < r@.len() ==> r@[k1].0@ != r@[k2].0@,
        forall|j: int|
            0 <= j < folders@.len() ==> exists|k: int|
                0 <= k < r@.len() && (#[trigger] r@[k]).0@ == (#[trigger] folders@[j])@,
{
    let mut out: Vec<(String, usize)> = Vec::new();
    let mut i: usize = 0;
    while i < folders.len()
        invariant
            i <= folders@.len(),
            forall|k: int|
                0 <= k < out@.len() ==> (#[trigger] out@[k]).1 == occurrences(
                    folders@.take(i as int),
                    out@[k].0@,
                ),
            forall|k1: int, k2: int| 0 <= k1 < k2 < out@.len() ==> out@[k1].0@ != out@[k2].0@,
            forall|j: int|
                0 <= j < i ==> exists|k: int|
                    0 <= k < out@.len() && (#[trigger] out@[k]).0@ == (#[trigger] folders@[j])@,
        decreases folders@.len() - i,
    {
        proof {
            assert(folders@.take(i + 1).drop_last() =~= folders@.take(i as int));
            assert(folders@.take(i + 1).last() == folders@[i as int]);
        }
        let ghost prev = out@;
        let name = folders[i].clone();
        match find_name(&out, &name) {
            Some(p) => {
                proof {
                    lemma_occurrences_le(folders@.take(i as int), prev[p as int].0@);
                }
                let cur = out[p].1;
                let nm = out[p].0.clone();
                out[p] = (nm, cur + 1);
                proof {
                    assert forall|k: int| 0 <= k < out@.len() implies (#[trigger] out@[k]).1
                        == occurrences(folders@.take(i + 1), out@[k].0@) by {
                        if k == p {
                            assert(out@[k].0@ == folders@[i as int]@);
                        } else {
                            assert(out@[k] == prev[k]);
                            assert(out@[k].0@ != prev[p as int].0@);
                        }
                    }
                    assert forall|j: int| 0 <= j < i + 1 implies exists|k: int|
                        0 <= k < out@.len() && (#[trigger] out@[k]).0@ == (#[trigger] folders@[j])@ by {
                        if j == i {
                            assert(out@[p as int].0@ == folders@[i as int]@);
                        } else {
                            let k0 = choose|k: int|
                                0 <= k < prev.len() && (#[trigger] prev[k]).0@ == folders@[j]@;
                            assert(out@[k0].0@ == prev[k0].0@);
                        }
                    }
                }
            },
            None => {
                out.push((name, 1));
                proof {
                    assert(occurrences(folders@.take(i as int), folders@[i as int]@) == 0) by {
                        if occurrences(folders@.take(i as int), folders@[i as int]@) >= 1 {
                            lemma_occ_pos(folders@.take(i as int), folders@[i as int]@);
                            let j = choose|j: int|
                                0 <= j < folders@.take(i as int).len() && (#[trigger] folders@.take(
                                    i as int,
                                )[j])@ == folders@[i as int]@;
                            assert(exists|k: int|
                                0 <= k < prev.len() && (#[trigger] prev[k]).0@ == folders@[j]@);
                        }
                    }
                    assert forall|k: int| 0 <= k < out@.len() implies (#[trigger] out@[k]).1
                        == occurrences(folders@.take(i + 1), out@[k].0@) by {
                        if k < out@.len() - 1 {
                            assert(out@[k] == prev[k]);
                        }
                    }
                    assert forall|j: int| 0 <= j < i + 1 implies exists|k: int|
                        0 <= k < out@.len() && (#[trigger] out@[k]).0@ == (#[trigger] folders@[j])@ by {
                        if j == i {
                            assert(out@[out@.len() - 1].0@ == folders@[i as int]@);
                        } else {
                            let k0 = choose|k: int|
                                0 <= k < prev.len() && (#[trigger] prev[k]).0@ == folders@[j]@;
                            assert(out@[k0].0@ == prev[k0].0@);
                        }
                    }
                }
            },
        }
        i += 1;
    }
    proof {
        assert(folders@.take(folders@.len() as int) =~= folders@);
    }
    out
}

} // verus!
