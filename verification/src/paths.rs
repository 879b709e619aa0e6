use vstd::prelude::*;

use crate::text::{contains_string, opt_string_view, eq_ignore_ascii_case, eq_ignore_ascii_case_str};

verus! {

// The names below stand for what `std::path` computes under the path rules of the platform that
// the library is built for.

/// What `Path::extension` gives for the path `path`, as text.
pub uninterp spec fn spec_path_extension(path: Seq<char>) -> Option<Seq<char>>;

/// What `Path::with_extension` gives for the path `path` and the extension `extension`, as text.
pub uninterp spec fn spec_path_with_extension(path: Seq<char>, extension: Seq<char>) -> Seq<
    char,
>;

/// What `Path::parent` gives for the path `path`, as text.
pub uninterp spec fn spec_path_parent(path: Seq<char>) -> Option<Seq<char>>;

/// What `Path::join` gives for the path `base` and the path `name`, as text.
pub uninterp spec fn spec_path_join(base: Seq<char>, name: Seq<char>) -> Seq<char>;

/// What `==` on `Path` gives for the paths `a` and `b` (equality component by component).
pub uninterp spec fn spec_paths_equal(a: Seq<char>, b: Seq<char>) -> bool;

/// Calls `Path::extension` on `path`. Its result, read back as text (the extension of a path
/// made from text is text), is named `spec_path_extension`.
#[verifier::external_body]
fn path_extension(path: &str) -> (r: Option<String>)
    ensures
        opt_string_view(r) == spec_path_extension(path@),
{
    match std::path::Path::new(path).extension() {
        Some(extension) => Some(extension.to_string_lossy().into_owned()),
        None => None,
    }
}

/// Calls `Path::with_extension` on `path`. Its result, as text, is named
/// `spec_path_with_extension`. Its documentation (through `PathBuf::set_extension`) says that it
/// panics on an extension that holds a path separator (`/`, and `\` where that is one), which
/// `requires` leaves out, that it leaves a path without a file name as it is, and that it
/// otherwise sets the extension to the one given; for an extension that is not empty and holds
/// no `.`, the contract states that: the result is `path` or its extension is `extension`.
#[verifier::external_body]
fn path_with_extension(path: &str, extension: &str) -> (r: String)
    requires
        !extension@.contains('/'),
        !extension@.contains('\\'),
    ensures
        r@ == spec_path_with_extension(path@, extension@),
        extension@.len() > 0 && !extension@.contains('.') ==> r@ == path@ || spec_path_extension(
            r@,
        ) == Some(extension@),
{
    std::path::Path::new(path).with_extension(extension).to_string_lossy().into_owned()
}

/// Calls `Path::parent` on `path`. Its result, as text, is named `spec_path_parent`. Its
/// documentation describes the parent as the path without its final component, so a parent is
/// shorter than the path; the contract states that.
#[verifier::external_body]
pub(crate) fn path_parent(path: &str) -> (r: Option<String>)
    ensures
        opt_string_view(r) == spec_path_parent(path@),
        r matches Some(p) ==> p@.len() < path@.len(),
{
    match std::path::Path::new(path).parent() {
        Some(parent) => Some(parent.to_string_lossy().into_owned()),
        None => None,
    }
}

/// Calls `Path::join` on `base` and `name`. Its result, as text, is named `spec_path_join`.
#[verifier::external_body]
fn path_join(base: &str, name: &str) -> (r: String)
    ensures
        r@ == spec_path_join(base@, name@),
{
    std::path::Path::new(base).join(name).to_string_lossy().into_owned()
}

/// Calls `==` on the paths `a` and `b`. Its result is named `spec_paths_equal`. `Path` is
/// documented as `Eq`, so a path equals itself; the contract states that for equal texts.
#[verifier::external_body]
pub(crate) fn paths_equal(a: &str, b: &str) -> (r: bool)
    ensures
        r == spec_paths_equal(a@, b@),
        a@ == b@ ==> r,
{
    std::path::Path::new(a) == std::path::Path::new(b)
}

/// The extension that output files get.
pub open spec fn json_extension() -> Seq<char> {
    seq!['j', 's', 'o', 'n']
}

/// The output path that goes with `input_path` when none is given: its extension replaced by
/// `json`.
pub open spec fn spec_default_json_path(input_path: Seq<char>) -> Seq<char> {
    spec_path_with_extension(input_path, json_extension())
}

/// Whether the extension of `path` is `json`, in any case.
pub open spec fn spec_is_json_path(path: Seq<char>) -> bool {
    match spec_path_extension(path) {
        Some(extension) => eq_ignore_ascii_case(extension, json_extension()),
        None => false,
    }
}

/// `dir`, then each of its parents in turn, up to the last one.
pub open spec fn ancestors(dir: Seq<char>) -> Seq<Seq<char>>
    decreases dir.len(),
{
    match spec_path_parent(dir) {
        Some(parent) => if parent.len() < dir.len() {
            seq![dir] + ancestors(parent)
        } else {
            seq![dir]
        },
        None => seq![dir],
    }
}

/// The places where `find_file_upwards` looks for `file_name`, in order: `file_name` joined to
/// `start` and to each of its ancestors.
pub open spec fn upward_candidates_of(start: Seq<char>, file_name: Seq<char>) -> Seq<Seq<char>> {
    ancestors(start).map_values(|dir: Seq<char>| spec_path_join(dir, file_name))
}

/// The first of `candidates` that `existing` holds.
pub open spec fn first_existing(candidates: Seq<Seq<char>>, existing: Seq<Seq<char>>) -> Option<
    Seq<char>,
>
    decreases candidates.len(),
{
    if candidates.len() == 0 {
        None
    } else if existing.contains(candidates[0]) {
        Some(candidates[0])
    } else {
        first_existing(candidates.drop_first(), existing)
    }
}

/// The output path for `input_path`: the same path with the extension `json`.
pub fn default_json_path(input_path: &str) -> (r: String)
    ensures
        r@ == spec_default_json_path(input_path@),
        r@ == input_path@ || spec_path_extension(r@) == Some(json_extension()),
{
    let extension = "json";
    proof {
        reveal_strlit("json");
        assert(extension@ =~= json_extension());
    }
    path_with_extension(input_path, extension)
}

/// Whether `path` has the extension `json`, in any case.
pub fn is_json_path(path: &str) -> (r: bool)
    ensures
        r == spec_is_json_path(path@),
{
    let json = "json";
    proof {
        reveal_strlit("json");
        assert(json@ =~= json_extension());
    }
    match path_extension(path) {
        Some(extension) => eq_ignore_ascii_case_str(extension.as_str(), json),
        None => false,
    }
}

/// The places, in order, where a file named `file_name` is looked for from `start` upwards.
pub fn upward_candidates(start: &str, file_name: &str) -> (r: Vec<String>)
    ensures
        r.deep_view() == upward_candidates_of(start@, file_name@),
{
    let mut candidates: Vec<String> = Vec::new();
    let mut current = start.to_owned();
    loop
        invariant
            candidates.deep_view() + upward_candidates_of(current@, file_name@)
                == upward_candidates_of(start@, file_name@),
        decreases current@.len(),
    {
        let ghost before = candidates.deep_view();
        let candidate = path_join(current.as_str(), file_name);
        candidates.push(candidate);
        let parent = path_parent(current.as_str());
        proof {
            assert(candidates.deep_view() =~= before.push(spec_path_join(current@, file_name@)));
        }
        match parent {
            Some(p) => {
                proof {
                    assert(ancestors(current@) =~= seq![current@] + ancestors(p@));
                    assert(upward_candidates_of(current@, file_name@) =~= seq![
                        spec_path_join(current@, file_name@),
                    ] + upward_candidates_of(p@, file_name@));
                    assert(candidates.deep_view() + upward_candidates_of(p@, file_name@)
                        =~= before + upward_candidates_of(current@, file_name@));
                }
                current = p;
            },
            None => {
                proof {
                    assert(ancestors(current@) =~= seq![current@]);
                    assert(candidates.deep_view() =~= before + upward_candidates_of(
                        current@,
                        file_name@,
                    ));
                }
                return candidates;
            },
        }
    }
}

/// The first place, from `start` upwards, where `file_name` is among `existing_files` (the
/// candidates that are files).
pub fn find_file_upwards(start: &str, file_name: &str, existing_files: &Vec<String>) -> (r:
    Option<String>)
    ensures
        opt_string_view(r) == first_existing(
            upward_candidates_of(start@, file_name@),
            existing_files.deep_view(),
        ),
{
    let mut current = start.to_owned();
    loop
        invariant
            first_existing(upward_candidates_of(current@, file_name@), existing_files.deep_view())
                == first_existing(
                upward_candidates_of(start@, file_name@),
                existing_files.deep_view(),
            ),
        decreases current@.len(),
    {
        let candidate = path_join(current.as_str(), file_name);
        let parent = path_parent(current.as_str());
        let ghost cands = upward_candidates_of(current@, file_name@);
        let ghost parent_view = opt_string_view(parent);
        proof {
            match parent_view {
                Some(pv) => {
                    assert(ancestors(current@) =~= seq![current@] + ancestors(pv));
                    assert(cands.drop_first() =~= upward_candidates_of(pv, file_name@));
                },
                None => {
                    assert(ancestors(current@) =~= seq![current@]);
                    assert(cands.drop_first() =~= Seq::<Seq<char>>::empty());
                },
            }
            assert(cands[0] == candidate@);
        }
        if contains_string(existing_files.as_slice(), candidate.as_str()) {
            return Some(candidate);
        }
        match parent {
            Some(p) => {
                current = p;
            },
            None => {
                proof {
                    assert(first_existing(cands.drop_first(), existing_files.deep_view()) is None);
                }
                return None;
            },
        }
    }
}

} // verus!

verus! {

/// Whether the `k`-th of `dirs` is the first one in which `name` is among `existing`.
pub open spec fn earliest_with(
    dirs: Seq<Seq<char>>,
    name: Seq<char>,
    existing: Seq<Seq<char>>,
    k: int,
) -> bool {
    &&& 0 <= k < dirs.len()
    &&& existing.contains(spec_path_join(dirs[k], name))
    &&& forall|j: int| 0 <= j < k ==> !existing.contains(#[trigger] spec_path_join(dirs[j], name))
}

/// Whether `name` is among `existing` in none of `dirs`.
pub open spec fn none_with(dirs: Seq<Seq<char>>, name: Seq<char>, existing: Seq<Seq<char>>) -> bool {
    forall|k: int| 0 <= k < dirs.len() ==> !existing.contains(#[trigger] spec_path_join(dirs[k], name))
}

/// The first of a list that is among `existing` is found: `None` exactly when none is, and
/// otherwise the earliest one, wherever in the list it stands.
pub proof fn law_first_existing_is_earliest(candidates: Seq<Seq<char>>, existing: Seq<Seq<char>>)
    ensures
        first_existing(candidates, existing) is None <==> forall|k: int|
            0 <= k < candidates.len() ==> !existing.contains(#[trigger] candidates[k]),
        forall|k: int|
            0 <= k < candidates.len() && existing.contains(#[trigger] candidates[k]) && (forall|
                j: int,
            |
                0 <= j < k ==> !existing.contains(candidates[j])) ==> first_existing(
                candidates,
                existing,
            ) == Some(candidates[k]),
        first_existing(candidates, existing) matches Some(found) ==> existing.contains(found)
            && candidates.contains(found),
    decreases candidates.len(),
{
    if candidates.len() > 0 {
        let rest = candidates.drop_first();
        law_first_existing_is_earliest(rest, existing);
        if !existing.contains(candidates[0]) {
            assert forall|k: int|
                0 <= k < candidates.len() && existing.contains(#[trigger] candidates[k]) && (forall|
                    j: int,
                |
                    0 <= j < k ==> !existing.contains(candidates[j])) implies first_existing(
                candidates,
                existing,
            ) == Some(candidates[k]) by {
                assert(k > 0);
                assert(rest[k - 1] == candidates[k]);
                assert forall|j: int| 0 <= j < k - 1 implies !existing.contains(rest[j]) by {
                    assert(rest[j] == candidates[j + 1]);
                }
            }
            if first_existing(candidates, existing) is None {
                assert forall|k: int| 0 <= k < candidates.len() implies !existing.contains(
                    #[trigger] candidates[k],
                ) by {
                    if k > 0 {
                        assert(rest[k - 1] == candidates[k]);
                    }
                }
            } else {
                let k = choose|k: int| 0 <= k < rest.len() && existing.contains(#[trigger] rest[k]);
                assert(candidates[k + 1] == rest[k]);
            }
            if first_existing(rest, existing) is Some {
                let f = first_existing(rest, existing)->Some_0;
                let i = choose|i: int| 0 <= i < rest.len() && rest[i] == f;
                assert(candidates[i + 1] == f);
            }
        } else {
            assert(candidates.contains(candidates[0]));
        }
    }
}

/// The climb from `dir` starts at `dir` itself and goes from each path to its parent, stopping
/// only at a path that has no parent (or a parent that is not shorter, which `Path::parent`
/// never gives).
pub proof fn law_ancestors_climb(dir: Seq<char>)
    ensures
        ancestors(dir).len() >= 1,
        ancestors(dir)[0] == dir,
        forall|k: int|
            0 <= k < ancestors(dir).len() - 1 ==> spec_path_parent(#[trigger] ancestors(dir)[k])
                == Some(ancestors(dir)[k + 1]),
        match spec_path_parent(ancestors(dir).last()) {
            Some(p) => p.len() >= ancestors(dir).last().len(),
            None => true,
        },
    decreases dir.len(),
{
    match spec_path_parent(dir) {
        Some(parent) => {
            if parent.len() < dir.len() {
                law_ancestors_climb(parent);
                let a = ancestors(dir);
                let b = ancestors(parent);
                assert(a =~= seq![dir] + b);
                assert forall|k: int| 0 <= k < a.len() - 1 implies spec_path_parent(
                    #[trigger] a[k],
                ) == Some(a[k + 1]) by {
                    if k > 0 {
                        assert(a[k] == b[k - 1]);
                        assert(a[k + 1] == b[k]);
                    }
                }
                assert(a.last() == b.last());
            }
        },
        None => {},
    }
}

/// The search for `file_name` from `start` upwards looks first in `start` itself, then in each
/// ancestor in turn, up to the last one, and gives the first place where the file exists, or
/// `None` when it exists in none of them.
pub proof fn law_find_file_upwards(start: Seq<char>, file_name: Seq<char>, existing: Seq<Seq<char>>)
    ensures
        ({
            let dirs = ancestors(start);
            let found = first_existing(upward_candidates_of(start, file_name), existing);
            &&& dirs[0] == start
            &&& existing.contains(spec_path_join(start, file_name)) ==> found == Some(
                spec_path_join(start, file_name),
            )
            &&& forall|k: int|
                #[trigger] earliest_with(dirs, file_name, existing, k) ==> found == Some(
                    spec_path_join(dirs[k], file_name),
                )
            &&& none_with(dirs, file_name, existing) <==> found is None
        }),
{
    law_ancestors_climb(start);
    let dirs = ancestors(start);
    let cands = upward_candidates_of(start, file_name);
    law_first_existing_is_earliest(cands, existing);
    assert(cands.len() == dirs.len());
    assert forall|k: int| 0 <= k < dirs.len() implies #[trigger] cands[k] == spec_path_join(
        dirs[k],
        file_name,
    ) by {}
    assert forall|k: int| #[trigger] earliest_with(dirs, file_name, existing, k) implies first_existing(
        cands,
        existing,
    ) == Some(spec_path_join(dirs[k], file_name)) by {
        assert(cands[k] == spec_path_join(dirs[k], file_name));
        assert forall|j: int| 0 <= j < k implies !existing.contains(cands[j]) by {
            assert(cands[j] == spec_path_join(dirs[j], file_name));
        }
    }
    if existing.contains(spec_path_join(start, file_name)) {
        assert(cands[0] == spec_path_join(dirs[0], file_name));
        assert(earliest_with(dirs, file_name, existing, 0));
    }
    if none_with(dirs, file_name, existing) {
        assert forall|k: int| 0 <= k < cands.len() implies !existing.contains(#[trigger] cands[k]) by {
            assert(cands[k] == spec_path_join(dirs[k], file_name));
        }
    }
    if first_existing(cands, existing) is None {
        assert forall|k: int| 0 <= k < dirs.len() implies !existing.contains(
            #[trigger] spec_path_join(dirs[k], file_name),
        ) by {
            assert(cands[k] == spec_path_join(dirs[k], file_name));
        }
    }
}

/// The places looked at from `start` upwards are `file_name` joined to `start`, then to each of
/// its ancestors in turn.
pub proof fn law_upward_candidates(start: Seq<char>, file_name: Seq<char>)
    ensures
        upward_candidates_of(start, file_name).len() == ancestors(start).len(),
        upward_candidates_of(start, file_name)[0] == spec_path_join(start, file_name),
        forall|k: int|
            0 <= k < ancestors(start).len() ==> #[trigger] upward_candidates_of(start, file_name)[k]
                == spec_path_join(ancestors(start)[k], file_name),
{
    law_ancestors_climb(start);
}

} // verus!
