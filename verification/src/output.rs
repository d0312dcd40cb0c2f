use vstd::prelude::*;

use crate::text::text_equal;

verus! {

/// Everything a cycle writes: the feed files by relative path, `_headers`,
/// `index.html` and `state.json`.
#[derive(Debug)]
pub struct Artifacts {
    pub feed_files: Vec<(String, Vec<u8>)>,
    pub headers_bytes: Vec<u8>,
    pub index_bytes: Vec<u8>,
    pub state_bytes: Vec<u8>,
}

/// What the previous cycle left on disk: the bytes of `state.json`, of
/// `_headers` and of each feed file of the new artifacts, in their order
/// (`None` where a file is missing), whether `index.html` is a file, and
/// the relative paths of all files below the output directory.
#[derive(Debug)]
pub struct PersistedOutput {
    pub state: Option<Vec<u8>>,
    pub headers: Option<Vec<u8>>,
    pub index_is_file: bool,
    pub feed_files: Vec<Option<Vec<u8>>>,
    pub paths: Vec<String>,
}

pub open spec fn texts(v: Seq<String>) -> Seq<Seq<char>> {
    v.map_values(|s: String| s@)
}

/// The files the output directory must hold: `_headers`, `index.html` and
/// every feed file.
pub open spec fn expected_path_set(a: Artifacts) -> Set<Seq<char>> {
    set!["_headers"@, "index.html"@].union(
        Set::new(|p: Seq<char>| exists|i: int| 0 <= i < a.feed_files@.len() && #[trigger] a.feed_files@[i].0@ == p),
    )
}

pub open spec fn same_bytes(found: Option<Vec<u8>>, expected: Seq<u8>) -> bool {
    found matches Some(b) && b@ == expected
}

/// Whether feed file `i` of the artifacts is on disk with the same bytes.
pub open spec fn feed_file_same(o: PersistedOutput, a: Artifacts, i: int) -> bool {
    i < o.feed_files@.len() && same_bytes(o.feed_files@[i], a.feed_files@[i].1@)
}

/// Whether the new artifacts differ from what is on disk: `state.json`,
/// `_headers` or a feed file has other bytes or is missing, `index.html`
/// is missing, or the output directory holds another set of files.
pub open spec fn persisted_changed(o: PersistedOutput, a: Artifacts) -> bool {
    ||| !same_bytes(o.state, a.state_bytes@)
    ||| !same_bytes(o.headers, a.headers_bytes@)
    ||| !o.index_is_file
    ||| exists|i: int| 0 <= i < a.feed_files@.len() && !#[trigger] feed_file_same(o, a, i)
    ||| texts(o.paths@).to_set() != expected_path_set(a)
}

fn bytes_equal(a: &Vec<u8>, b: &Vec<u8>) -> (r: bool)
    ensures
        r == (a@ == b@),
{
    if a.len() != b.len() {
        return false;
    }
    let mut i: usize = 0;
    while i < a.len()
        invariant
            0 <= i <= a@.len(),
            a@.len() == b@.len(),
            forall|j: int| 0 <= j < i ==> a@[j] == b@[j],
        decreases a.len() - i,
    {
        if a[i] != b[i] {
            return false;
        }
        i = i + 1;
    }
    assert(a@ =~= b@);
    true
}

fn found_same(found: &Option<Vec<u8>>, expected: &Vec<u8>) -> (r: bool)
    ensures
        r == same_bytes(*found, expected@),
{
    match found {
        Some(b) => bytes_equal(b, expected),
        None => false,
    }
}

fn contains_text(v: &Vec<String>, s: &str) -> (r: bool)
    ensures
        r == texts(v@).contains(s@),
{
    let mut i: usize = 0;
    while i < v.len()
        invariant
            0 <= i <= v@.len(),
            forall|j: int| 0 <= j < i ==> v@[j]@ != s@,
        decreases v.len() - i,
    {
        if text_equal(v[i].as_str(), s) {
            assert(texts(v@)[i as int] == s@);
            return true;
        }
        i = i + 1;
    }
    assert forall|j: int| 0 <= j < texts(v@).len() implies texts(v@)[j] != s@ by {
        assert(texts(v@)[j] == v@[j]@);
    }
    false
}

/// The relative paths of every file the artifacts hold: `_headers`,
/// `index.html`, then the feed files in their order.
pub fn expected_paths(artifacts: &Artifacts) -> (r: Vec<String>)
    ensures
        r@.len() == artifacts.feed_files@.len() + 2,
        r@[0]@ == "_headers"@,
        r@[1]@ == "index.html"@,
        forall|j: int|
            0 <= j < artifacts.feed_files@.len() ==> #[trigger] r@[j + 2]@
                == artifacts.feed_files@[j].0@,
        texts(r@).to_set() == expected_path_set(*artifacts),
{
    let mut r: Vec<String> = Vec::new();
    r.push(String::from_str("_headers"));
    r.push(String::from_str("index.html"));
    let mut i: usize = 0;
    while i < artifacts.feed_files.len()
        invariant
            0 <= i <= artifacts.feed_files@.len(),
            r@.len() == i + 2,
            r@[0]@ == "_headers"@,
            r@[1]@ == "index.html"@,
            forall|j: int| 0 <= j < i ==> #[trigger] r@[j + 2]@ == artifacts.feed_files@[j].0@,
        decreases artifacts.feed_files.len() - i,
    {
        r.push(artifacts.feed_files[i].0.clone());
        i = i + 1;
    }
    let ghost t = texts(r@);
    assert forall|p: Seq<char>| t.to_set().contains(p) <==> expected_path_set(*artifacts).contains(p) by {
        if t.to_set().contains(p) {
            let k = choose|k: int| 0 <= k < t.len() && t[k] == p;
            assert(t[k] == r@[k]@);
            if k >= 2 {
                assert(r@[(k - 2) + 2]@ == artifacts.feed_files@[k - 2].0@);
            }
        }
        if expected_path_set(*artifacts).contains(p) {
            if p == "_headers"@ {
                assert(t[0] == p);
            } else if p == "index.html"@ {
                assert(t[1] == p);
            } else {
                let k = choose|k: int| 0 <= k < artifacts.feed_files@.len() && #[trigger] artifacts.feed_files@[k].0@ == p;
                assert(r@[k + 2]@ == p);
                assert(t[k + 2] == p);
            }
        }
    }
    assert(t.to_set() =~= expected_path_set(*artifacts));
    r
}

/// Whether the new artifacts differ from what the previous cycle left on
/// disk, so that they must be written.
pub fn has_persisted_changes(existing: &PersistedOutput, artifacts: &Artifacts) -> (r: bool)
    ensures
        r == persisted_changed(*existing, *artifacts),
{
    if !found_same(&existing.state, &artifacts.state_bytes) {
        return true;
    }
    if !found_same(&existing.headers, &artifacts.headers_bytes) {
        return true;
    }
    if !existing.index_is_file {
        return true;
    }
    let mut i: usize = 0;
    while i < artifacts.feed_files.len()
        invariant
            0 <= i <= artifacts.feed_files@.len(),
            forall|j: int| 0 <= j < i ==> #[trigger] feed_file_same(*existing, *artifacts, j),
        decreases artifacts.feed_files.len() - i,
    {
        if i >= existing.feed_files.len() {
            assert(!feed_file_same(*existing, *artifacts, i as int));
            return true;
        }
        if !found_same(&existing.feed_files[i], &artifacts.feed_files[i].1) {
            assert(!feed_file_same(*existing, *artifacts, i as int));
            return true;
        }
        i = i + 1;
    }
    let expected = expected_paths(artifacts);
    let ghost found = texts(existing.paths@);
    let ghost wanted = texts(expected@);
    let mut k: usize = 0;
    while k < existing.paths.len()
        invariant
            0 <= k <= existing.paths@.len(),
            found == texts(existing.paths@),
            wanted == texts(expected@),
            same_bytes(existing.state, artifacts.state_bytes@),
            same_bytes(existing.headers, artifacts.headers_bytes@),
            existing.index_is_file,
            forall|j: int|
                0 <= j < artifacts.feed_files@.len() ==> #[trigger] feed_file_same(
                    *existing,
                    *artifacts,
                    j,
                ),
            wanted.to_set() == expected_path_set(*artifacts),
            forall|j: int| 0 <= j < k ==> wanted.contains(#[trigger] found[j]),
        decreases existing.paths.len() - k,
    {
        if !contains_text(&expected, existing.paths[k].as_str()) {
            proof {
                assert(found.to_set().contains(found[k as int]));
                assert(!wanted.to_set().contains(found[k as int]));
                assert(found.to_set() != wanted.to_set());
            }
            return true;
        }
        k = k + 1;
    }
    let mut m: usize = 0;
    while m < expected.len()
        invariant
            0 <= m <= expected@.len(),
            found == texts(existing.paths@),
            wanted == texts(expected@),
            same_bytes(existing.state, artifacts.state_bytes@),
            same_bytes(existing.headers, artifacts.headers_bytes@),
            existing.index_is_file,
            forall|j: int|
                0 <= j < artifacts.feed_files@.len() ==> #[trigger] feed_file_same(
                    *existing,
                    *artifacts,
                    j,
                ),
            wanted.to_set() == expected_path_set(*artifacts),
            forall|j: int| 0 <= j < m ==> found.contains(#[trigger] wanted[j]),
        decreases expected.len() - m,
    {
        if !contains_text(&existing.paths, expected[m].as_str()) {
            proof {
                assert(wanted.to_set().contains(wanted[m as int]));
                assert(!found.to_set().contains(wanted[m as int]));
                assert(found.to_set() != wanted.to_set());
            }
            return true;
        }
        m = m + 1;
    }
    assert(found.to_set() =~= wanted.to_set()) by {
        assert forall|p: Seq<char>| found.to_set().contains(p) implies wanted.to_set().contains(p) by {
            let j = choose|j: int| 0 <= j < found.len() && found[j] == p;
            assert(wanted.contains(found[j]));
        }
        assert forall|p: Seq<char>| wanted.to_set().contains(p) implies found.to_set().contains(p) by {
            let j = choose|j: int| 0 <= j < wanted.len() && wanted[j] == p;
            assert(found.contains(wanted[j]));
        }
    }
    false
}

/// Law: when the disk holds exactly the new artifacts (the same bytes for
/// `state.json`, `_headers` and every feed file, an `index.html`, and no
/// other file), nothing is to be written; any other difference is.
pub proof fn law_identical_outputs_are_not_rewritten(o: PersistedOutput, a: Artifacts)
    requires
        same_bytes(o.state, a.state_bytes@),
        same_bytes(o.headers, a.headers_bytes@),
        o.index_is_file,
        o.feed_files@.len() == a.feed_files@.len(),
        forall|i: int|
            0 <= i < a.feed_files@.len() ==> same_bytes(
                #[trigger] o.feed_files@[i],
                a.feed_files@[i].1@,
            ),
        texts(o.paths@).to_set() == expected_path_set(a),
    ensures
        !persisted_changed(o, a),
{
    assert forall|i: int| 0 <= i < a.feed_files@.len() implies #[trigger] feed_file_same(o, a, i) by {
        assert(same_bytes(o.feed_files@[i], a.feed_files@[i].1@));
    }
}

} // verus!
