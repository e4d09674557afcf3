//! Where to look for the program binary to hand to child processes. Which
//! candidates exist on disk, and how `PATH` splits into directories, is found
//! out by the caller; this module fixes the order in which candidates are
//! tried.

use vstd::prelude::*;

verus! {

/// A place where the program binary may be found.
#[derive(Debug, Clone, PartialEq, Eq)]
pub enum ChildExeCandidate {
    /// The path of the running executable.
    CurrentExe,
    /// `argv[0]` itself, as a path.
    Argv0,
    /// A file of this name in one of the `PATH` directories, first match wins.
    OnPath(String),
}

/// A candidate as a value: a `PATH` candidate by the characters of its name.
pub enum CandidateView {
    CurrentExe,
    Argv0,
    OnPath(Seq<char>),
}

impl View for ChildExeCandidate {
    type V = CandidateView;

    open spec fn view(&self) -> CandidateView {
        match self {
            ChildExeCandidate::CurrentExe => CandidateView::CurrentExe,
            ChildExeCandidate::Argv0 => CandidateView::Argv0,
            ChildExeCandidate::OnPath(name) => CandidateView::OnPath(name@),
        }
    }
}

/// The program's own name, searched on `PATH` as the last resort.
pub open spec fn default_program_name() -> Seq<char> {
    "herdr"@
}

/// The order of candidates: the running executable when known; then
/// `argv[0]` as a path when it has more than one path component, and the file
/// name of `argv[0]` on `PATH` when it has one; finally the program's own name
/// on `PATH`.
pub open spec fn child_exe_search_order(
    has_current_exe: bool,
    argv0_is_path: bool,
    argv0_file_name: Option<Seq<char>>,
) -> Seq<CandidateView> {
    let current = if has_current_exe { seq![CandidateView::CurrentExe] } else { Seq::empty() };
    let argv0 = if argv0_is_path { seq![CandidateView::Argv0] } else { Seq::empty() };
    let named = match argv0_file_name {
        Some(name) => seq![CandidateView::OnPath(name)],
        None => Seq::empty(),
    };
    current + argv0 + named + seq![CandidateView::OnPath(default_program_name())]
}

/// The candidates to try, in order, for the binary that child processes
/// should run. `argv0_is_path` says whether `argv[0]` has more than one path
/// component; `argv0_file_name` is its last component, if any. A caller with
/// no `argv[0]` passes `false` and `None`.
pub fn child_exe_candidates(
    has_current_exe: bool,
    argv0_is_path: bool,
    argv0_file_name: Option<String>,
) -> (r: Vec<ChildExeCandidate>)
    ensures
        r@.map_values(|c: ChildExeCandidate| c@) == child_exe_search_order(
            has_current_exe,
            argv0_is_path,
            match argv0_file_name {
                Some(name) => Some(name@),
                None => None,
            },
        ),
{
    let mut r: Vec<ChildExeCandidate> = Vec::new();
    if has_current_exe {
        r.push(ChildExeCandidate::CurrentExe);
    }
    if argv0_is_path {
        r.push(ChildExeCandidate::Argv0);
    }
    let ghost named: Option<Seq<char>> = match &argv0_file_name {
        Some(name) => Some(name@),
        None => None,
    };
    match argv0_file_name {
        Some(name) => r.push(ChildExeCandidate::OnPath(name)),
        None => {},
    }
    proof {
        reveal_strlit("herdr");
    }
    r.push(ChildExeCandidate::OnPath("herdr".to_owned()));
    assert(r@.map_values(|c: ChildExeCandidate| c@) =~= child_exe_search_order(has_current_exe, argv0_is_path, named));
    r
}


/// The first result that was found, in candidate order.
pub open spec fn first_found<T>(found: Seq<Option<T>>) -> Option<T>
    decreases found.len(),
{
    if found.len() == 0 {
        None
    } else if found[0] is Some {
        found[0]
    } else {
        first_found(found.drop_first())
    }
}

/// Picks the binary from the lookups of the candidates, made in candidate
/// order: the first candidate that was found wins.
pub fn pick_child_exe<T>(found: Vec<Option<T>>) -> (r: Option<T>)
    ensures
        r == first_found(found@),
{
    let mut rest = found;
    while rest.len() > 0
        invariant
            first_found(found@) == first_found(rest@),
        decreases rest.len(),
    {
        let next = rest.remove(0);
        if next.is_some() {
            return next;
        }
    }
    None
}


/// The pick is the first found result: when one is found, every earlier
/// lookup found nothing; when none is found, no lookup found anything.
pub proof fn lemma_first_found_is_first(found: Seq<Option<int>>)
    ensures
        first_found(found) is None <==> (forall|i: int| 0 <= i < found.len() ==> #[trigger] found[i] is None),
        first_found(found) is Some ==> exists|k: int|
            0 <= k < found.len() && #[trigger] found[k] == first_found(found) && (forall|j: int|
                0 <= j < k ==> found[j] is None),
    decreases found.len(),
{
    if found.len() > 0 {
        let t = found.drop_first();
        lemma_first_found_is_first(t);
        if found[0] is None {
            assert forall|i: int| 0 <= i < t.len() implies (t[i] is None <==> found[i + 1] is None) by {
                assert(t[i] == found[i + 1]);
            }
            if (forall|i: int| 0 <= i < t.len() ==> #[trigger] t[i] is None) {
                assert forall|i: int| 0 <= i < found.len() implies #[trigger] found[i] is None by {
                    if i > 0 {
                        assert(found[i] == t[i - 1]);
                    }
                }
            }
            if first_found(found) is Some {
                let k = choose|k: int|
                    0 <= k < t.len() && #[trigger] t[k] == first_found(t) && (forall|j: int| 0 <= j < k ==> t[j] is None);
                assert(found[k + 1] == t[k]);
                assert forall|j: int| 0 <= j < k + 1 implies found[j] is None by {
                    if j > 0 {
                        assert(found[j] == t[j - 1]);
                    }
                }
            }
        } else {
            assert(found[0] == first_found(found));
        }
    }
}

} // verus!
