//! Command lines for the package manager, and the rule that sends them to the
//! host when this program itself runs inside a sandbox.
use crate::text::string_views;
use vstd::prelude::*;

verus! {

/// A program and its arguments.
#[derive(Debug, Clone, PartialEq, Eq)]
pub struct CommandLine {
    pub program: String,
    pub args: Vec<String>,
}

/// A command line as plain values.
pub struct CommandLineView {
    pub program: Seq<char>,
    pub args: Seq<Seq<char>>,
}

impl View for CommandLine {
    type V = CommandLineView;

    open spec fn view(&self) -> CommandLineView {
        CommandLineView { program: self.program@, args: string_views(self.args@) }
    }
}

/// The command that runs `program` with `args`: as it stands outside a
/// sandbox, and handed to `flatpak-spawn --host` inside one.
pub open spec fn host_wrapped(sandboxed: bool, program: Seq<char>, args: Seq<Seq<char>>) -> CommandLineView {
    if sandboxed {
        CommandLineView { program: "flatpak-spawn"@, args: seq!["--host"@, program] + args }
    } else {
        CommandLineView { program, args }
    }
}

/// The install command for `app_id`, as typed into a shell.
pub open spec fn install_base(app_id: Seq<char>) -> Seq<char> {
    "flatpak install --user flathub "@ + app_id
}

/// `inner` run under `script`, so that it sees a terminal; on the host when
/// `sandboxed`.
pub open spec fn script_wrapped(sandboxed: bool, inner: Seq<char>) -> Seq<char> {
    if sandboxed {
        "script -q /dev/null -c \""@ + "flatpak-spawn --host "@ + inner + "\""@
    } else {
        "script -q /dev/null -c \""@ + inner + "\""@
    }
}

/// The shell line of an interactive install: nothing is answered for the user.
pub open spec fn interactive_cmd(sandboxed: bool, app_id: Seq<char>) -> Seq<char> {
    "LANG=C "@ + script_wrapped(sandboxed, install_base(app_id))
}

/// The shell line of an install whose prompts are answered from a pipe.
pub open spec fn answered_cmd(sandboxed: bool, app_id: Seq<char>) -> Seq<char> {
    "LANG=C printf \"y\\nn\\n\" | "@ + script_wrapped(sandboxed, install_base(app_id))
}

/// The shell line of the quick probe: an install that is declined at once.
pub open spec fn declined_cmd(sandboxed: bool, app_id: Seq<char>) -> Seq<char> {
    if sandboxed {
        "LANG=C echo n | "@ + "flatpak-spawn --host "@ + install_base(app_id)
    } else {
        "LANG=C echo n | "@ + install_base(app_id)
    }
}

fn script_line(sandboxed: bool, app_id: &str, lead: &str) -> (line: String)
    ensures
        line@ == lead@ + script_wrapped(sandboxed, install_base(app_id@)),
{
    let mut line = String::from_str(lead);
    line.append("script -q /dev/null -c \"");
    if sandboxed {
        line.append("flatpak-spawn --host ");
    }
    line.append("flatpak install --user flathub ");
    line.append(app_id);
    line.append("\"");
    assert(line@ =~= lead@ + script_wrapped(sandboxed, install_base(app_id@)));
    line
}

/// The shell line that installs `app_id` interactively.
pub fn build_flatpak_interactive_cmd(is_flatpak: bool, app_id: &str) -> (line: String)
    ensures
        line@ == interactive_cmd(is_flatpak, app_id@),
{
    script_line(is_flatpak, app_id, "LANG=C ")
}

/// The shell line that installs `app_id` with its prompts answered from a pipe.
pub fn build_flatpak_install_cmd(is_flatpak: bool, app_id: &str) -> (line: String)
    ensures
        line@ == answered_cmd(is_flatpak, app_id@),
{
    script_line(is_flatpak, app_id, "LANG=C printf \"y\\nn\\n\" | ")
}

/// The shell line of the quick probe for `app_id`.
pub fn build_flatpak_probe_cmd(is_flatpak: bool, app_id: &str) -> (line: String)
    ensures
        line@ == declined_cmd(is_flatpak, app_id@),
{
    let mut line = String::from_str("LANG=C echo n | ");
    if is_flatpak {
        line.append("flatpak-spawn --host ");
    }
    line.append("flatpak install --user flathub ");
    line.append(app_id);
    assert(line@ =~= declined_cmd(is_flatpak, app_id@));
    line
}

/// The command that runs `program` with `args`, sent to the host when
/// `sandboxed`.
pub fn host_command(sandboxed: bool, program: &str, args: &Vec<String>) -> (c: CommandLine)
    ensures
        c@ == host_wrapped(sandboxed, program@, string_views(args@)),
{
    let mut out: Vec<String> = Vec::new();
    let name = if sandboxed {
        out.push(String::from_str("--host"));
        out.push(String::from_str(program));
        String::from_str("flatpak-spawn")
    } else {
        String::from_str(program)
    };
    let ghost head = string_views(out@);
    let mut i: usize = 0;
    while i < args.len()
        invariant
            i <= args.len(),
            string_views(out@) == head + string_views(args@).take(i as int),
        decreases args.len() - i,
    {
        let ghost before = string_views(out@);
        out.push(args[i].clone());
        assert(string_views(out@) == before.push(args@[i as int]@));
        assert(string_views(args@).take(i + 1) == string_views(args@).take(i as int).push(
            args@[i as int]@,
        ));
        i += 1;
    }
    assert(string_views(args@).take(args@.len() as int) == string_views(args@));
    assert(sandboxed ==> head == seq!["--host"@, program@]);
    assert(!sandboxed ==> head + string_views(args@) == string_views(args@));
    CommandLine { program: name, args: out }
}

/// What the package manager is asked to do.
#[derive(Debug, Clone, PartialEq, Eq)]
pub enum Operation {
    /// List what is installed.
    ListInstalled,
    /// List the updates that the remotes offer.
    ListUpdates,
    /// Update one package.
    Update(String),
    /// Update everything.
    UpdateAll,
    /// Run an application.
    Launch(String),
    /// Remove an application.
    Uninstall(String),
    /// Show the metadata of a package on the remote.
    RemoteMetadata(String),
    /// Search for the packages of an extension point.
    Search(String),
    /// Install an extension.
    InstallExtension(String),
    /// Remove an extension.
    UninstallExtension(String),
}

/// The arguments that ask the package manager for `op`.
pub open spec fn operation_args(op: Operation) -> Seq<Seq<char>> {
    match op {
        Operation::ListInstalled => seq![
            "list"@,
            "--columns=application,name,version,description,options,ref"@,
        ],
        Operation::ListUpdates => seq![
            "remote-ls"@,
            "--updates"@,
            "--columns=application,version,branch"@,
        ],
        Operation::Update(id) => seq!["update"@, "-y"@, id@],
        Operation::UpdateAll => seq!["update"@, "-y"@],
        Operation::Launch(id) => seq!["run"@, id@],
        Operation::Uninstall(id) => seq!["uninstall"@, "-y"@, id@],
        Operation::RemoteMetadata(id) => seq![
            "remote-info"@,
            "--user"@,
            "--show-metadata"@,
            "flathub"@,
            id@,
        ],
        Operation::Search(point) => seq!["search"@, "--columns=application,name"@, point@],
        Operation::InstallExtension(id) => seq![
            "install"@,
            "-y"@,
            "--user"@,
            "flathub"@,
            id@,
        ],
        Operation::UninstallExtension(id) => seq!["uninstall"@, "-y"@, id@],
    }
}

/// What the user is told when `op` begins, where anything is told.
pub open spec fn operation_notice(op: Operation) -> Option<Seq<char>> {
    match op {
        Operation::Update(id) => Some("Iniciando actualización de "@ + id@ + "..."@),
        Operation::UpdateAll => Some("Iniciando actualización de paquetes del sistema..."@),
        Operation::Uninstall(id) => Some("Iniciando desinstalación de "@ + id@ + "..."@),
        Operation::InstallExtension(id) => Some("Installing extension "@ + id@ + "..."@),
        Operation::UninstallExtension(id) => Some("Uninstalling extension "@ + id@ + "..."@),
        _ => None,
    }
}

fn words(first: &str, second: &str) -> (v: Vec<String>)
    ensures
        string_views(v@) == seq![first@, second@],
{
    let mut v: Vec<String> = Vec::new();
    v.push(String::from_str(first));
    v.push(String::from_str(second));
    assert(string_views(v@) == seq![first@, second@]);
    v
}

fn with_word(v: Vec<String>, word: &str) -> (r: Vec<String>)
    ensures
        string_views(r@) == string_views(v@).push(word@),
{
    let mut r = v;
    r.push(String::from_str(word));
    assert(string_views(r@) == string_views(v@).push(word@));
    r
}

/// The command that asks the package manager for `op`, sent to the host when
/// `sandboxed`.
pub fn flatpak_command(sandboxed: bool, op: &Operation) -> (c: CommandLine)
    ensures
        c@ == host_wrapped(sandboxed, "flatpak"@, operation_args(*op)),
{
    let args = match op {
        Operation::ListInstalled => words(
            "list",
            "--columns=application,name,version,description,options,ref",
        ),
        Operation::ListUpdates => with_word(
            words("remote-ls", "--updates"),
            "--columns=application,version,branch",
        ),
        Operation::Update(id) => with_word(words("update", "-y"), id.as_str()),
        Operation::UpdateAll => words("update", "-y"),
        Operation::Launch(id) => words("run", id.as_str()),
        Operation::Uninstall(id) => with_word(words("uninstall", "-y"), id.as_str()),
        Operation::RemoteMetadata(id) => with_word(
            with_word(with_word(words("remote-info", "--user"), "--show-metadata"), "flathub"),
            id.as_str(),
        ),
        Operation::Search(point) => with_word(
            words("search", "--columns=application,name"),
            point.as_str(),
        ),
        Operation::InstallExtension(id) => with_word(
            with_word(with_word(words("install", "-y"), "--user"), "flathub"),
            id.as_str(),
        ),
        Operation::UninstallExtension(id) => with_word(words("uninstall", "-y"), id.as_str()),
    };
    assert(string_views(args@) =~= operation_args(*op));
    host_command(sandboxed, "flatpak", &args)
}

/// What the user is told when `op` begins, where anything is told.
pub fn notice(op: &Operation) -> (text: Option<String>)
    ensures
        match text {
            Some(t) => operation_notice(*op) == Some(t@),
            None => operation_notice(*op) is None,
        },
{
    match op {
        Operation::Update(id) => Some(framed("Iniciando actualización de ", id.as_str())),
        Operation::UpdateAll => Some(
            String::from_str("Iniciando actualización de paquetes del sistema..."),
        ),
        Operation::Uninstall(id) => Some(framed("Iniciando desinstalación de ", id.as_str())),
        Operation::InstallExtension(id) => Some(framed("Installing extension ", id.as_str())),
        Operation::UninstallExtension(id) => Some(
            framed("Uninstalling extension ", id.as_str()),
        ),
        _ => None,
    }
}

fn framed(lead: &str, id: &str) -> (text: String)
    ensures
        text@ == lead@ + id@ + "..."@,
{
    let mut text = String::from_str(lead);
    text.append(id);
    text.append("...");
    text
}

/// The command that hands `line` to the shell.
pub fn shell_command(line: &str) -> (c: CommandLine)
    ensures
        c@ == (CommandLineView { program: "sh"@, args: seq!["-c"@, line@] }),
{
    CommandLine { program: String::from_str("sh"), args: words("-c", line) }
}

} // verus!
