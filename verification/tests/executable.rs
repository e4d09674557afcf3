use herdr::executable::{child_exe_candidates, pick_child_exe, ChildExeCandidate};

#[test]
fn candidates_run_from_current_exe_to_program_name() {
    assert_eq!(
        child_exe_candidates(true, true, Some("tool".to_string())),
        vec![
            ChildExeCandidate::CurrentExe,
            ChildExeCandidate::Argv0,
            ChildExeCandidate::OnPath("tool".to_string()),
            ChildExeCandidate::OnPath("herdr".to_string()),
        ]
    );
}

#[test]
fn bare_argv0_is_only_searched_on_path() {
    assert_eq!(
        child_exe_candidates(false, false, Some("herdr".to_string())),
        vec![
            ChildExeCandidate::OnPath("herdr".to_string()),
            ChildExeCandidate::OnPath("herdr".to_string()),
        ]
    );
    assert_eq!(
        child_exe_candidates(false, false, None),
        vec![ChildExeCandidate::OnPath("herdr".to_string())]
    );
}

#[test]
fn first_found_candidate_wins() {
    assert_eq!(pick_child_exe(vec![None, Some(2), Some(3)]), Some(2));
    assert_eq!(pick_child_exe::<u8>(vec![None, None]), None);
    assert_eq!(pick_child_exe::<u8>(vec![]), None);
}
