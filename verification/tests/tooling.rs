use quizfold_parser::tooling::{
    all_tools_passed, resolve_cli_targets, tool_checks, CliBuildSelection, CliBuildTarget,
    TargetSelectionError,
};

#[test]
fn all_expands_to_every_target_in_order() {
    let all = CliBuildSelection::All.expand();
    assert_eq!(all, CliBuildTarget::all_targets());
    assert_eq!(all.len(), 6);
    assert_eq!(all[0].target_triple(), "aarch64-apple-darwin");
    assert_eq!(all[5].target_triple(), "x86_64-pc-windows-msvc");
}

#[test]
fn a_named_selection_expands_to_its_target() {
    assert_eq!(
        CliBuildSelection::X86_64UnknownLinuxGnu.expand(),
        vec![CliBuildTarget::X86_64UnknownLinuxGnu]
    );
}

#[test]
fn windows_targets_build_an_exe() {
    assert!(CliBuildTarget::Aarch64PcWindowsMsvc.is_windows());
    assert_eq!(CliBuildTarget::X86_64PcWindowsMsvc.binary_name(), "quizfold.exe");
    assert!(!CliBuildTarget::Aarch64UnknownLinuxGnu.is_windows());
    assert_eq!(CliBuildTarget::Aarch64AppleDarwin.binary_name(), "quizfold");
}

#[test]
fn target_selection_rules() {
    assert_eq!(resolve_cli_targets(&vec![]), Err(TargetSelectionError::NoTarget));
    assert_eq!(
        resolve_cli_targets(&vec![CliBuildSelection::All, CliBuildSelection::X86_64AppleDarwin]),
        Err(TargetSelectionError::AllCombined)
    );
    assert_eq!(
        TargetSelectionError::AllCombined.message(),
        "all cannot be combined with specific cli targets"
    );
    assert_eq!(
        resolve_cli_targets(&vec![CliBuildSelection::All]),
        Ok(CliBuildTarget::all_targets())
    );
    assert_eq!(
        resolve_cli_targets(&vec![
            CliBuildSelection::X86_64PcWindowsMsvc,
            CliBuildSelection::Aarch64AppleDarwin
        ]),
        Ok(vec![CliBuildTarget::X86_64PcWindowsMsvc, CliBuildTarget::Aarch64AppleDarwin])
    );
}

#[test]
fn tool_checks_report_ok_or_fail_with_a_hint() {
    let checks = tool_checks();
    assert_eq!(checks.len(), 5);
    assert_eq!(checks[1].command, "cargo");
    assert_eq!(checks[1].args, &["zigbuild", "--help"]);
    assert_eq!(checks[0].report(true), vec!["wasm-pack \u{1b}[32mok\u{1b}[0m".to_string()]);
    assert_eq!(
        checks[4].report(false),
        vec![
            "zig \u{1b}[31mfail\u{1b}[0m".to_string(),
            "  hint: please install zig".to_string()
        ]
    );
    assert!(all_tools_passed(&vec![true, true]));
    assert!(!all_tools_passed(&vec![true, false, true]));
}
