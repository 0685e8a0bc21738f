//! Where the ffmpeg and ffprobe programs are looked for.
use vstd::prelude::*;
use crate::paths::{
    path_components_result, path_eq, path_join, path_join_result, path_parent, path_parent_result,
};
use crate::text::{concat2, strings_view};

verus! {

/// The paths of the two programs that the library drives.
#[derive(Debug)]
pub struct ToolPaths {
    pub ffmpeg: String,
    pub ffprobe: String,
}

/// The file name of a program: with `.exe` on Windows.
pub open spec fn executable_name_spec(name: Seq<char>, windows: bool) -> Seq<char> {
    if windows {
        name + ".exe"@
    } else {
        name
    }
}

/// The file name of a program on the platform described by `windows`.
pub fn executable_name(name: &str, windows: bool) -> (r: String)
    ensures
        r@ == executable_name_spec(name@, windows),
{
    if windows {
        concat2(name, ".exe")
    } else {
        String::from_str(name)
    }
}

/// Up to `n` successive parents of `p` by `Path::parent`, nearest first,
/// stopping at the first path that has none.
pub open spec fn ancestors_spec(p: Seq<char>, n: nat) -> Seq<Seq<char>>
    decreases n,
{
    if n == 0 {
        Seq::empty()
    } else {
        match path_parent_result(p) {
            Some(q) => seq![q] + ancestors_spec(q, (n - 1) as nat),
            None => Seq::empty(),
        }
    }
}

/// Appends `root` and then up to three of its ancestors, nearest first
/// (`Path::ancestors`, which stops where a path has no parent).
pub fn add_root_with_ancestors(roots: &mut Vec<String>, root: String)
    ensures
        strings_view(final(roots)@) == strings_view(old(roots)@).push(root@) + ancestors_spec(
            root@,
            3,
        ),
{
    let ghost start = strings_view(roots@);
    let ghost target = start.push(root@) + ancestors_spec(root@, 3);
    let mut current = root.clone();
    roots.push(root);
    proof {
        assert(strings_view(roots@) =~= start.push(current@));
    }
    let mut k: usize = 0;
    while k < 3
        invariant
            k <= 3,
            target == start.push(root@) + ancestors_spec(root@, 3),
            strings_view(roots@) + ancestors_spec(current@, (3 - k) as nat) == target,
        ensures
            strings_view(roots@) == target,
        decreases 3 - k,
    {
        match path_parent(current.as_str()) {
            Some(parent) => {
                let ghost before = strings_view(roots@);
                let ghost old_current = current@;
                current = parent.clone();
                roots.push(parent);
                proof {
                    assert(ancestors_spec(old_current, (3 - k) as nat) == seq![current@]
                        + ancestors_spec(current@, (3 - k - 1) as nat));
                    assert(strings_view(roots@) =~= before.push(current@));
                    assert(strings_view(roots@) + ancestors_spec(current@, (3 - (k + 1)) as nat)
                        =~= before + ancestors_spec(old_current, (3 - k) as nat));
                }
            },
            None => {
                assert(ancestors_spec(current@, (3 - k) as nat) =~= Seq::<Seq<char>>::empty());
                assert(strings_view(roots@) + ancestors_spec(current@, (3 - k) as nat)
                    =~= strings_view(roots@));
                break;
            },
        }
        k = k + 1;
        if k == 3 {
            assert(strings_view(roots@) + ancestors_spec(current@, 0) =~= strings_view(roots@));
        }
    }
}

/// `v` without the paths that are the same path (by components, as `Path`
/// compares them) as the one before them (`Vec::dedup` on paths).
pub open spec fn dedup_spec(v: Seq<Seq<char>>) -> Seq<Seq<char>>
    decreases v.len(),
{
    if v.len() <= 1 {
        v
    } else if path_components_result(v.last()) == path_components_result(v[v.len() - 2]) {
        dedup_spec(v.drop_last())
    } else {
        dedup_spec(v.drop_last()).push(v.last())
    }
}

/// `v` without the paths that are the same path as the one before them.
pub fn dedup_paths(v: Vec<String>) -> (r: Vec<String>)
    ensures
        strings_view(r@) == dedup_spec(strings_view(v@)),
{
    let ghost all = strings_view(v@);
    let mut r: Vec<String> = Vec::new();
    let mut i: usize = 0;
    while i < v.len()
        invariant
            i <= v@.len(),
            all == strings_view(v@),
            strings_view(r@) == dedup_spec(all.take(i as int)),
        decreases v@.len() - i,
    {
        let ghost t = all.take(i + 1);
        assert(t.drop_last() =~= all.take(i as int));
        if i == 0 {
            assert(t =~= seq![all[0]]);
            assert(r@.len() == 0);
            r.push(v[i].clone());
            assert(strings_view(r@) =~= t);
        } else if path_eq(v[i].as_str(), v[i - 1].as_str()) {
            assert(path_components_result(t.last()) == path_components_result(t[t.len() - 2]));
        } else {
            let ghost before = strings_view(r@);
            r.push(v[i].clone());
            assert(strings_view(r@) =~= before.push(all[i as int]));
        }
        i = i + 1;
    }
    assert(all.take(v@.len() as int) =~= all);
    r
}

/// The four places where a bundled copy of `executable` is looked for under
/// `root`, in order: `vendor/ffmpeg/bin`, `ffmpeg/bin`, `bin` and the root.
pub open spec fn root_candidates(root: Seq<char>, executable: Seq<char>) -> Seq<Seq<char>> {
    seq![
        path_join_result(
            path_join_result(
                path_join_result(path_join_result(root, "vendor"@), "ffmpeg"@),
                "bin"@,
            ),
            executable,
        ),
        path_join_result(
            path_join_result(path_join_result(root, "ffmpeg"@), "bin"@),
            executable,
        ),
        path_join_result(path_join_result(root, "bin"@), executable),
        path_join_result(root, executable),
    ]
}

/// The places under each root in turn, roots in order.
pub open spec fn candidates_spec(roots: Seq<Seq<char>>, executable: Seq<char>) -> Seq<Seq<char>>
    decreases roots.len(),
{
    if roots.len() == 0 {
        Seq::empty()
    } else {
        candidates_spec(roots.drop_last(), executable) + root_candidates(roots.last(), executable)
    }
}

/// The places where a bundled copy of a program is looked for under each
/// root, in order (`vendor/ffmpeg/bin`, `ffmpeg/bin`, `bin` and the root
/// itself), without repeats of the same path in a row.
pub fn candidate_paths(roots: &Vec<String>, executable: &str) -> (r: Vec<String>)
    ensures
        strings_view(r@) == dedup_spec(candidates_spec(strings_view(roots@), executable@)),
        r@.len() <= 4 * roots@.len(),
        forall|i: int|
            0 < i < r@.len() ==> path_components_result(r@[i]@) != path_components_result(
                (#[trigger] r@[i - 1])@,
            ),
{
    let ghost all = strings_view(roots@);
    let mut candidates: Vec<String> = Vec::new();
    let mut i: usize = 0;
    while i < roots.len()
        invariant
            i <= roots@.len(),
            all == strings_view(roots@),
            candidates@.len() == 4 * i,
            strings_view(candidates@) == candidates_spec(all.take(i as int), executable@),
        decreases roots@.len() - i,
    {
        let ghost before = strings_view(candidates@);
        let root = roots[i].as_str();
        let vendor = path_join(root, "vendor");
        let vendor_ffmpeg = path_join(vendor.as_str(), "ffmpeg");
        let vendor_bin = path_join(vendor_ffmpeg.as_str(), "bin");
        candidates.push(path_join(vendor_bin.as_str(), executable));
        let ffmpeg_dir = path_join(root, "ffmpeg");
        let ffmpeg_bin = path_join(ffmpeg_dir.as_str(), "bin");
        candidates.push(path_join(ffmpeg_bin.as_str(), executable));
        let bin = path_join(root, "bin");
        candidates.push(path_join(bin.as_str(), executable));
        candidates.push(path_join(root, executable));
        proof {
            let t = all.take(i + 1);
            assert(t.drop_last() =~= all.take(i as int));
            assert(t.last() == roots@[i as int]@);
            assert(strings_view(candidates@) =~= before + root_candidates(roots@[i as int]@, executable@));
        }
        i = i + 1;
    }
    assert(all.take(roots@.len() as int) =~= all);
    let r = dedup_paths(candidates);
    proof {
        lemma_dedup_properties(strings_view(candidates@));
        assert forall|k: int| 0 < k < r@.len() implies path_components_result(r@[k]@)
            != path_components_result((#[trigger] r@[k - 1])@) by {
            assert(strings_view(r@)[k] == r@[k]@);
            assert(strings_view(r@)[k - 1] == r@[k - 1]@);
        }
    }
    r
}

/// What `dedup_spec` gives is no longer than its input and has no path
/// that is the same path as the one before it.
pub proof fn lemma_dedup_properties(v: Seq<Seq<char>>)
    ensures
        dedup_spec(v).len() <= v.len(),
        forall|i: int|
            0 < i < dedup_spec(v).len() ==> path_components_result(dedup_spec(v)[i])
                != path_components_result(#[trigger] dedup_spec(v)[i - 1]),
        v.len() > 0 ==> dedup_spec(v).len() > 0 && path_components_result(dedup_spec(v).last())
            == path_components_result(v.last()),
    decreases v.len(),
{
    if v.len() > 1 {
        lemma_dedup_properties(v.drop_last());
        let d = dedup_spec(v.drop_last());
        assert(v.drop_last().last() == v[v.len() - 2]);
        if path_components_result(v.last()) != path_components_result(v[v.len() - 2]) {
            let e = d.push(v.last());
            assert forall|i: int| 0 < i < e.len() implies path_components_result(e[i])
                != path_components_result(#[trigger] e[i - 1]) by {
                if i < d.len() {
                    assert(e[i] == d[i] && e[i - 1] == d[i - 1]);
                }
            }
        }
    }
}

/// What the search for a program tries next.
pub enum ToolCheck {
    /// Check the bundled copy at this path.
    Candidate(String),
    /// Check the program of this name on the `PATH`.
    OnPath(String),
    /// Give up: nothing worked.
    NotFound,
}

/// The check at step `step` of the search for the program `name`: each
/// candidate in order, then the name on the `PATH`, then giving up.
pub fn next_tool_check(name: &str, candidates: &Vec<String>, step: usize) -> (r: ToolCheck)
    ensures
        step < candidates@.len() ==> (r matches ToolCheck::Candidate(p) && p@ == candidates@[step as int]@),
        step == candidates@.len() ==> (r matches ToolCheck::OnPath(n) && n@ == name@),
        step > candidates@.len() ==> r is NotFound,
{
    if step < candidates.len() {
        ToolCheck::Candidate(candidates[step].clone())
    } else if step == candidates.len() {
        ToolCheck::OnPath(String::from_str(name))
    } else {
        ToolCheck::NotFound
    }
}

/// The message shown when a program is found nowhere.
pub fn tool_not_found_message(name: &str) -> (r: String)
    ensures
        r@ == "No se encontro `"@ + name@
            + "`. Ejecuta `powershell -ExecutionPolicy Bypass -File tools\\install-ffmpeg-windows.ps1` para descargar la copia portable."@,
{
    let mut r = String::from_str("No se encontro `");
    r.append(name);
    r.append(
        "`. Ejecuta `powershell -ExecutionPolicy Bypass -File tools\\install-ffmpeg-windows.ps1` para descargar la copia portable.",
    );
    r
}

} // verus!
