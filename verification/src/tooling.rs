//! Decisions of the repository build tooling: which native targets a build
//! of the command-line program covers, their triples and binary names, and
//! which external tools a tool check asks for.
use vstd::prelude::*;
use vstd::string::StringExecFns;

verus! {

/// A target named on the command line, or all of them.
#[derive(Debug, Clone, Copy, PartialEq, Eq, Structural)]
pub enum CliBuildSelection {
    All,
    Aarch64AppleDarwin,
    X86_64AppleDarwin,
    Aarch64UnknownLinuxGnu,
    X86_64UnknownLinuxGnu,
    Aarch64PcWindowsMsvc,
    X86_64PcWindowsMsvc,
}

/// A native target the command-line program is built for.
#[derive(Debug, Clone, Copy, PartialEq, Eq, Structural)]
pub enum CliBuildTarget {
    Aarch64AppleDarwin,
    X86_64AppleDarwin,
    Aarch64UnknownLinuxGnu,
    X86_64UnknownLinuxGnu,
    Aarch64PcWindowsMsvc,
    X86_64PcWindowsMsvc,
}

/// Every target, in the order builds run.
pub open spec fn spec_all_targets() -> Seq<CliBuildTarget> {
    seq![
        CliBuildTarget::Aarch64AppleDarwin,
        CliBuildTarget::X86_64AppleDarwin,
        CliBuildTarget::Aarch64UnknownLinuxGnu,
        CliBuildTarget::X86_64UnknownLinuxGnu,
        CliBuildTarget::Aarch64PcWindowsMsvc,
        CliBuildTarget::X86_64PcWindowsMsvc,
    ]
}

impl CliBuildSelection {
    /// The targets a selection stands for.
    pub open spec fn spec_expand(self) -> Seq<CliBuildTarget> {
        match self {
            CliBuildSelection::All => spec_all_targets(),
            CliBuildSelection::Aarch64AppleDarwin => seq![CliBuildTarget::Aarch64AppleDarwin],
            CliBuildSelection::X86_64AppleDarwin => seq![CliBuildTarget::X86_64AppleDarwin],
            CliBuildSelection::Aarch64UnknownLinuxGnu => seq![CliBuildTarget::Aarch64UnknownLinuxGnu],
            CliBuildSelection::X86_64UnknownLinuxGnu => seq![CliBuildTarget::X86_64UnknownLinuxGnu],
            CliBuildSelection::Aarch64PcWindowsMsvc => seq![CliBuildTarget::Aarch64PcWindowsMsvc],
            CliBuildSelection::X86_64PcWindowsMsvc => seq![CliBuildTarget::X86_64PcWindowsMsvc],
        }
    }

    /// The selection's name on the command line: `all`, or the triple of the
    /// target it names.
    pub open spec fn spec_name(self) -> Seq<char> {
        match self {
            CliBuildSelection::All => "all"@,
            CliBuildSelection::Aarch64AppleDarwin => "aarch64-apple-darwin"@,
            CliBuildSelection::X86_64AppleDarwin => "x86_64-apple-darwin"@,
            CliBuildSelection::Aarch64UnknownLinuxGnu => "aarch64-unknown-linux-gnu"@,
            CliBuildSelection::X86_64UnknownLinuxGnu => "x86_64-unknown-linux-gnu"@,
            CliBuildSelection::Aarch64PcWindowsMsvc => "aarch64-pc-windows-msvc"@,
            CliBuildSelection::X86_64PcWindowsMsvc => "x86_64-pc-windows-msvc"@,
        }
    }

    pub fn expand(self) -> (r: Vec<CliBuildTarget>)
        ensures
            r@ == self.spec_expand(),
            self != CliBuildSelection::All ==> r@.len() == 1 && r@[0].spec_target_triple()
                == self.spec_name(),
            self == CliBuildSelection::All ==> forall|t: CliBuildTarget| r@.contains(t),
    {
        let mut v: Vec<CliBuildTarget> = Vec::new();
        match self {
            CliBuildSelection::All => {
                return CliBuildTarget::all_targets();
            },
            CliBuildSelection::Aarch64AppleDarwin => v.push(CliBuildTarget::Aarch64AppleDarwin),
            CliBuildSelection::X86_64AppleDarwin => v.push(CliBuildTarget::X86_64AppleDarwin),
            CliBuildSelection::Aarch64UnknownLinuxGnu => v.push(CliBuildTarget::Aarch64UnknownLinuxGnu),
            CliBuildSelection::X86_64UnknownLinuxGnu => v.push(CliBuildTarget::X86_64UnknownLinuxGnu),
            CliBuildSelection::Aarch64PcWindowsMsvc => v.push(CliBuildTarget::Aarch64PcWindowsMsvc),
            CliBuildSelection::X86_64PcWindowsMsvc => v.push(CliBuildTarget::X86_64PcWindowsMsvc),
        }
        assert(v@ =~= self.spec_expand());
        proof {
            lemma_selection_expands_to_its_target(self);
        }
        v
    }
}

/// A named selection stands for exactly one target, the one whose triple is
/// the selection's name; `all` stands for every target.
pub proof fn lemma_selection_expands_to_its_target(s: CliBuildSelection)
    ensures
        s != CliBuildSelection::All ==> s.spec_expand().len() == 1
            && s.spec_expand()[0].spec_target_triple() == s.spec_name(),
        s == CliBuildSelection::All ==> forall|t: CliBuildTarget| s.spec_expand().contains(t),
{
    reveal_strlit("all");
    if s == CliBuildSelection::All {
        assert forall|t: CliBuildTarget| s.spec_expand().contains(t) by {
            let a = spec_all_targets();
            match t {
                CliBuildTarget::Aarch64AppleDarwin => assert(a[0] == t),
                CliBuildTarget::X86_64AppleDarwin => assert(a[1] == t),
                CliBuildTarget::Aarch64UnknownLinuxGnu => assert(a[2] == t),
                CliBuildTarget::X86_64UnknownLinuxGnu => assert(a[3] == t),
                CliBuildTarget::Aarch64PcWindowsMsvc => assert(a[4] == t),
                CliBuildTarget::X86_64PcWindowsMsvc => assert(a[5] == t),
            }
        }
    }
}

/// Resolving named selections, without `all`, gives one target per
/// selection, in the order given, each the target the selection names.
pub proof fn lemma_named_selections_resolve_in_order(s: Seq<CliBuildSelection>)
    requires
        s.len() > 0,
        !s.contains(CliBuildSelection::All),
    ensures
        spec_resolve(s) is Ok,
        spec_resolve(s)->Ok_0.len() == s.len(),
        forall|i: int| 0 <= i < s.len() ==> (#[trigger] spec_resolve(s)->Ok_0[i]).spec_target_triple()
            == s[i].spec_name(),
{
    lemma_expand_all_named(s);
}

proof fn lemma_expand_all_named(s: Seq<CliBuildSelection>)
    requires
        !s.contains(CliBuildSelection::All),
    ensures
        expand_all(s).len() == s.len(),
        forall|i: int| 0 <= i < s.len() ==> (#[trigger] expand_all(s)[i]).spec_target_triple()
            == s[i].spec_name(),
    decreases s.len(),
{
    if s.len() > 0 {
        let d = s.drop_last();
        assert forall|x: CliBuildSelection| d.contains(x) implies s.contains(x) by {
            let k = choose|k: int| 0 <= k < d.len() && d[k] == x;
            assert(s[k] == x);
        }
        lemma_expand_all_named(d);
        assert(s[s.len() - 1] == s.last());
        lemma_selection_expands_to_its_target(s.last());
        assert forall|i: int| 0 <= i < s.len() implies (#[trigger] expand_all(s)[i]).spec_target_triple()
            == s[i].spec_name() by {
            if i < s.len() - 1 {
                assert(expand_all(s)[i] == expand_all(d)[i]);
                assert(s[i] == d[i]);
            }
        }
    }
}

impl CliBuildTarget {
    pub open spec fn spec_target_triple(self) -> Seq<char> {
        match self {
            CliBuildTarget::Aarch64AppleDarwin => "aarch64-apple-darwin"@,
            CliBuildTarget::X86_64AppleDarwin => "x86_64-apple-darwin"@,
            CliBuildTarget::Aarch64UnknownLinuxGnu => "aarch64-unknown-linux-gnu"@,
            CliBuildTarget::X86_64UnknownLinuxGnu => "x86_64-unknown-linux-gnu"@,
            CliBuildTarget::Aarch64PcWindowsMsvc => "aarch64-pc-windows-msvc"@,
            CliBuildTarget::X86_64PcWindowsMsvc => "x86_64-pc-windows-msvc"@,
        }
    }

    pub open spec fn spec_is_windows(self) -> bool {
        self == CliBuildTarget::Aarch64PcWindowsMsvc || self == CliBuildTarget::X86_64PcWindowsMsvc
    }

    /// Every target, in the order builds run.
    pub fn all_targets() -> (r: Vec<CliBuildTarget>)
        ensures
            r@ == spec_all_targets(),
    {
        let mut v: Vec<CliBuildTarget> = Vec::new();
        v.push(CliBuildTarget::Aarch64AppleDarwin);
        v.push(CliBuildTarget::X86_64AppleDarwin);
        v.push(CliBuildTarget::Aarch64UnknownLinuxGnu);
        v.push(CliBuildTarget::X86_64UnknownLinuxGnu);
        v.push(CliBuildTarget::Aarch64PcWindowsMsvc);
        v.push(CliBuildTarget::X86_64PcWindowsMsvc);
        assert(v@ =~= spec_all_targets());
        v
    }

    /// The Rust target triple.
    pub fn target_triple(self) -> (r: &'static str)
        ensures
            r@ == self.spec_target_triple(),
    {
        match self {
            CliBuildTarget::Aarch64AppleDarwin => "aarch64-apple-darwin",
            CliBuildTarget::X86_64AppleDarwin => "x86_64-apple-darwin",
            CliBuildTarget::Aarch64UnknownLinuxGnu => "aarch64-unknown-linux-gnu",
            CliBuildTarget::X86_64UnknownLinuxGnu => "x86_64-unknown-linux-gnu",
            CliBuildTarget::Aarch64PcWindowsMsvc => "aarch64-pc-windows-msvc",
            CliBuildTarget::X86_64PcWindowsMsvc => "x86_64-pc-windows-msvc",
        }
    }

    /// A target is a Windows target exactly when its triple names `windows`.
    pub proof fn lemma_windows_triple(self)
        ensures
            self.spec_is_windows() <==> has_infix(self.spec_target_triple(), "windows"@),
    {
        reveal_strlit("windows");
        reveal_strlit("aarch64-apple-darwin");
        reveal_strlit("x86_64-apple-darwin");
        reveal_strlit("aarch64-unknown-linux-gnu");
        reveal_strlit("x86_64-unknown-linux-gnu");
        reveal_strlit("aarch64-pc-windows-msvc");
        reveal_strlit("x86_64-pc-windows-msvc");
        let s = self.spec_target_triple();
        let w = "windows"@;
        match self {
            CliBuildTarget::Aarch64PcWindowsMsvc => {
                assert(w.len() == 7);
                assert(s.subrange(11, 11 + w.len() as int) =~= w);
                assert(has_infix(s, w));
            },
            CliBuildTarget::X86_64PcWindowsMsvc => {
                assert(w.len() == 7);
                assert(s.subrange(10, 10 + w.len() as int) =~= w);
                assert(has_infix(s, w));
            },
            _ => {
                if has_infix(s, w) {
                    let i = choose|i: int| 0 <= i && i + w.len() <= s.len() && #[trigger] s.subrange(i, i + w.len()) == w;
                    assert(s.subrange(i, i + 7)[0] == s[i]);
                    assert(s.subrange(i, i + 7)[1] == s[i + 1]);
                    assert(s[i] == 'w' && s[i + 1] == 'i');
                    assert(false);
                }
            },
        }
    }

    /// The file name of the built program: with `.exe` on Windows, that is
    /// when the target triple names `windows`.
    pub fn binary_name(self) -> (r: &'static str)
        ensures
            r@ == (if self.spec_is_windows() {
                "quizfold.exe"@
            } else {
                "quizfold"@
            }),
            r@ == (if has_infix(self.spec_target_triple(), "windows"@) {
                "quizfold.exe"@
            } else {
                "quizfold"@
            }),
    {
        proof {
            self.lemma_windows_triple();
        }
        if self.is_windows() {
            "quizfold.exe"
        } else {
            "quizfold"
        }
    }

    pub fn is_windows(self) -> (r: bool)
        ensures
            r == self.spec_is_windows(),
    {
        match self {
            CliBuildTarget::Aarch64PcWindowsMsvc => true,
            CliBuildTarget::X86_64PcWindowsMsvc => true,
            _ => false,
        }
    }
}

/// Why a list of selections names no build.
#[derive(Debug, Clone, Copy, PartialEq, Eq, Structural)]
pub enum TargetSelectionError {
    NoTarget,
    AllCombined,
}

impl TargetSelectionError {
    pub open spec fn spec_message(self) -> Seq<char> {
        match self {
            TargetSelectionError::NoTarget => "at least one cli target is required"@,
            TargetSelectionError::AllCombined => "all cannot be combined with specific cli targets"@,
        }
    }

    pub fn message(self) -> (r: &'static str)
        ensures
            r@ == self.spec_message(),
    {
        match self {
            TargetSelectionError::NoTarget => "at least one cli target is required",
            TargetSelectionError::AllCombined => "all cannot be combined with specific cli targets",
        }
    }
}

/// The targets of the selections, in the order given.
pub open spec fn expand_all(s: Seq<CliBuildSelection>) -> Seq<CliBuildTarget>
    decreases s.len(),
{
    if s.len() == 0 {
        seq![]
    } else {
        expand_all(s.drop_last()) + s.last().spec_expand()
    }
}

/// `p` occurs in `s`.
pub open spec fn has_infix(s: Seq<char>, p: Seq<char>) -> bool {
    exists|i: int| 0 <= i && i + p.len() <= s.len() && #[trigger] s.subrange(i, i + p.len()) == p
}

/// What a build of the selected targets covers: `all` alone stands for every
/// target; it cannot be combined with others; at least one selection is needed.
pub open spec fn spec_resolve(s: Seq<CliBuildSelection>) -> Result<Seq<CliBuildTarget>, TargetSelectionError> {
    if s.len() == 0 {
        Err(TargetSelectionError::NoTarget)
    } else if s.contains(CliBuildSelection::All) {
        if s.len() != 1 {
            Err(TargetSelectionError::AllCombined)
        } else {
            Ok(spec_all_targets())
        }
    } else {
        Ok(expand_all(s))
    }
}

pub fn resolve_cli_targets(selections: &Vec<CliBuildSelection>) -> (r: Result<Vec<CliBuildTarget>, TargetSelectionError>)
    ensures
        match r {
            Ok(v) => spec_resolve(selections@) == Ok::<Seq<CliBuildTarget>, TargetSelectionError>(v@),
            Err(e) => spec_resolve(selections@) == Err::<Seq<CliBuildTarget>, TargetSelectionError>(e),
        },
        selections@.len() > 0 && !selections@.contains(CliBuildSelection::All) ==> r is Ok
            && r->Ok_0@.len() == selections@.len() && forall|i: int|
            0 <= i < selections@.len() ==> (#[trigger] r->Ok_0@[i]).spec_target_triple()
                == selections@[i].spec_name(),
{
    proof {
        if selections@.len() > 0 && !selections@.contains(CliBuildSelection::All) {
            lemma_named_selections_resolve_in_order(selections@);
        }
    }
    if selections.len() == 0 {
        return Err(TargetSelectionError::NoTarget);
    }
    let mut has_all = false;
    let mut i: usize = 0;
    while i < selections.len()
        invariant
            i <= selections@.len(),
            has_all == (exists|k: int| 0 <= k < i && selections@[k] == CliBuildSelection::All),
        decreases selections@.len() - i,
    {
        if selections[i] == CliBuildSelection::All {
            has_all = true;
        }
        i = i + 1;
    }
    assert(has_all == selections@.contains(CliBuildSelection::All));
    if has_all {
        if selections.len() != 1 {
            return Err(TargetSelectionError::AllCombined);
        }
        return Ok(CliBuildSelection::All.expand());
    }
    let mut targets: Vec<CliBuildTarget> = Vec::new();
    let mut j: usize = 0;
    while j < selections.len()
        invariant
            j <= selections@.len(),
            targets@ == expand_all(selections@.subrange(0, j as int)),
        decreases selections@.len() - j,
    {
        let mut more = selections[j].expand();
        let ghost before = targets@;
        targets.append(&mut more);
        assert(selections@.subrange(0, j + 1).drop_last() =~= selections@.subrange(0, j as int));
        j = j + 1;
    }
    assert(selections@.subrange(0, j as int) =~= selections@);
    Ok(targets)
}

/// An external program the build needs, how to ask whether it is
/// installed, and how to install it.
#[derive(Debug, Clone, Copy, PartialEq, Eq)]
pub struct ToolCheck<'a> {
    pub command: &'a str,
    pub args: &'a [&'a str],
    pub install_hint: &'a str,
    pub display_name: &'a str,
}

/// A tool check by the texts it holds.
pub open spec fn tool_view(t: ToolCheck) -> (Seq<char>, Seq<Seq<char>>, Seq<char>, Seq<char>) {
    (t.command@, t.args@.map_values(|a: &str| a@), t.install_hint@, t.display_name@)
}

/// The tools a build needs, in the order they are checked.
pub open spec fn spec_tool_checks() -> Seq<(Seq<char>, Seq<Seq<char>>, Seq<char>, Seq<char>)> {
    seq![
        ("wasm-pack"@, seq!["--version"@], "cargo install --locked --force wasm-pack"@, "wasm-pack"@),
        ("cargo"@, seq!["zigbuild"@, "--help"@], "cargo install --locked cargo-zigbuild"@, "cargo-zigbuild"@),
        ("cargo"@, seq!["xwin"@, "--help"@], "cargo install --locked cargo-xwin"@, "cargo-xwin"@),
        ("clang"@, seq!["--version"@], "please install LLVM/Clang"@, "clang"@),
        ("zig"@, seq!["version"@], "please install zig"@, "zig"@),
    ]
}

pub open spec fn green_text(text: Seq<char>) -> Seq<char> {
    "\u{1b}[32m"@ + text + "\u{1b}[0m"@
}

pub open spec fn red_text(text: Seq<char>) -> Seq<char> {
    "\u{1b}[31m"@ + text + "\u{1b}[0m"@
}

/// The lines a check reports: the tool's name with `ok` in green, or with
/// `fail` in red followed by how to install the tool.
pub open spec fn spec_report(display_name: Seq<char>, install_hint: Seq<char>, success: bool) -> Seq<Seq<char>> {
    if success {
        seq![display_name + " "@ + green_text("ok"@)]
    } else {
        seq![display_name + " "@ + red_text("fail"@), "  hint: "@ + install_hint]
    }
}

/// Text in green on an ANSI terminal.
fn green(text: &str) -> (r: String)
    ensures
        r@ == green_text(text@),
{
    let mut s = String::from_str("\u{1b}[32m");
    s.append(text);
    s.append("\u{1b}[0m");
    s
}

/// Text in red on an ANSI terminal.
fn red(text: &str) -> (r: String)
    ensures
        r@ == red_text(text@),
{
    let mut s = String::from_str("\u{1b}[31m");
    s.append(text);
    s.append("\u{1b}[0m");
    s
}

impl<'a> ToolCheck<'a> {
    /// What the check prints, given whether the tool answered successfully.
    pub fn report(&self, success: bool) -> (r: Vec<String>)
        ensures
            r@.map_values(|s: String| s@) == spec_report(self.display_name@, self.install_hint@, success),
    {
        let mut lines: Vec<String> = Vec::new();
        let mut first = String::from_str(self.display_name);
        first.append(" ");
        if success {
            first.append(green("ok").as_str());
            lines.push(first);
        } else {
            first.append(red("fail").as_str());
            lines.push(first);
            let mut hint = String::from_str("  hint: ");
            hint.append(self.install_hint);
            lines.push(hint);
        }
        assert(lines@.map_values(|s: String| s@) =~= spec_report(self.display_name@, self.install_hint@, success));
        lines
    }
}

/// The tools a build needs, in the order they are checked.
pub fn tool_checks() -> (r: Vec<ToolCheck<'static>>)
    ensures
        r@.map_values(|t: ToolCheck<'static>| tool_view(t)) == spec_tool_checks(),
{
    let version: &'static [&'static str] = &["--version"];
    let zigbuild: &'static [&'static str] = &["zigbuild", "--help"];
    let xwin: &'static [&'static str] = &["xwin", "--help"];
    let zig_version: &'static [&'static str] = &["version"];
    assert(version@.map_values(|a: &str| a@) =~= seq!["--version"@]);
    assert(zigbuild@.map_values(|a: &str| a@) =~= seq!["zigbuild"@, "--help"@]);
    assert(xwin@.map_values(|a: &str| a@) =~= seq!["xwin"@, "--help"@]);
    assert(zig_version@.map_values(|a: &str| a@) =~= seq!["version"@]);
    let mut v: Vec<ToolCheck<'static>> = Vec::new();
    v.push(
        ToolCheck {
            command: "wasm-pack",
            args: version,
            install_hint: "cargo install --locked --force wasm-pack",
            display_name: "wasm-pack",
        },
    );
    v.push(
        ToolCheck {
            command: "cargo",
            args: zigbuild,
            install_hint: "cargo install --locked cargo-zigbuild",
            display_name: "cargo-zigbuild",
        },
    );
    v.push(
        ToolCheck {
            command: "cargo",
            args: xwin,
            install_hint: "cargo install --locked cargo-xwin",
            display_name: "cargo-xwin",
        },
    );
    v.push(
        ToolCheck {
            command: "clang",
            args: version,
            install_hint: "please install LLVM/Clang",
            display_name: "clang",
        },
    );
    v.push(
        ToolCheck {
            command: "zig",
            args: zig_version,
            install_hint: "please install zig",
            display_name: "zig",
        },
    );
    assert(v@.map_values(|t: ToolCheck<'static>| tool_view(t)) =~= spec_tool_checks());
    v
}

/// A tool check run passes when every tool answered successfully.
pub fn all_tools_passed(results: &Vec<bool>) -> (r: bool)
    ensures
        r == (forall|i: int| 0 <= i < results@.len() ==> results@[i]),
{
    let mut ok = true;
    let mut i: usize = 0;
    while i < results.len()
        invariant
            i <= results@.len(),
            ok == (forall|k: int| 0 <= k < i ==> results@[k]),
        decreases results@.len() - i,
    {
        ok = ok && results[i];
        i = i + 1;
    }
    ok
}

} // verus!
