//! The tunnel program: where it is looked for, and how a copy of it is installed.
use crate::paths::{below, one_below, Place};
use crate::text::chars;
use crate::text::chars::same;
use crate::text::facts;
use vstd::prelude::*;

verus! {

/// A release file of the tunnel program.
#[derive(Debug, PartialEq, Eq)]
pub struct DownloadAsset {
    pub name: &'static str,
    pub url: String,
    pub archive: bool,
}

/// A release file of the tunnel program.
pub struct AssetModel {
    pub name: Seq<char>,
    pub url: Seq<char>,
    pub archive: bool,
}

impl View for DownloadAsset {
    type V = AssetModel;

    open spec fn view(&self) -> AssetModel {
        AssetModel { name: self.name@, url: self.url@, archive: self.archive }
    }
}

impl Clone for DownloadAsset {
    fn clone(&self) -> (r: DownloadAsset)
        ensures
            r@ == self@,
    {
        DownloadAsset { name: self.name, url: self.url.clone(), archive: self.archive }
    }
}

/// The release file of this name.
pub open spec fn asset_named(name: Seq<char>, archive: bool) -> AssetModel {
    AssetModel {
        name,
        url: "https://github.com/cloudflare/cloudflared/releases/latest/download/"@ + name,
        archive,
    }
}

/// The release file for an operating system and an architecture, if there is one.
pub open spec fn asset_for(os: Seq<char>, arch: Seq<char>) -> Option<AssetModel> {
    if os == "macos"@ && arch == "x86_64"@ {
        Some(asset_named("cloudflared-darwin-amd64.tgz"@, true))
    } else if os == "macos"@ && arch == "aarch64"@ {
        Some(asset_named("cloudflared-darwin-arm64.tgz"@, true))
    } else if os == "linux"@ && arch == "x86_64"@ {
        Some(asset_named("cloudflared-linux-amd64"@, false))
    } else if os == "linux"@ && arch == "aarch64"@ {
        Some(asset_named("cloudflared-linux-arm64"@, false))
    } else {
        None
    }
}

/// The release file for an operating system and an architecture, if there is one.
pub fn cloudflared_asset_for(os: &str, arch: &str) -> (r: Option<DownloadAsset>)
    ensures
        match r {
            Some(a) => asset_for(os@, arch@) == Some(a@),
            None => asset_for(os@, arch@) is None,
        },
{
    let (name, archive): (&'static str, bool) = if same(os, "macos") && same(arch, "x86_64") {
        ("cloudflared-darwin-amd64.tgz", true)
    } else if same(os, "macos") && same(arch, "aarch64") {
        ("cloudflared-darwin-arm64.tgz", true)
    } else if same(os, "linux") && same(arch, "x86_64") {
        ("cloudflared-linux-amd64", false)
    } else if same(os, "linux") && same(arch, "aarch64") {
        ("cloudflared-linux-arm64", false)
    } else {
        return None;
    };
    Some(
        DownloadAsset {
            name,
            url: "https://github.com/cloudflare/cloudflared/releases/latest/download/".to_owned().concat(
                name,
            ),
            archive,
        },
    )
}

/// The message where no release file fits the machine.
pub open spec fn unsupported(os: Seq<char>, arch: Seq<char>) -> Seq<char> {
    "automatic cloudflared install is not supported on "@ + os + " "@ + arch
        + "; install cloudflared manually or set LTG_CLOUDFLARED_PATH"@
}

/// The release file for an operating system and an architecture.
pub fn cloudflared_asset(os: &str, arch: &str) -> (r: Result<DownloadAsset, String>)
    ensures
        match r {
            Ok(a) => asset_for(os@, arch@) == Some(a@),
            Err(e) => asset_for(os@, arch@) is None && e@ == unsupported(os@, arch@),
        },
{
    match cloudflared_asset_for(os, arch) {
        Some(asset) => Ok(asset),
        None => Err(
            "automatic cloudflared install is not supported on ".to_owned().concat(os).concat(
                " ",
            ).concat(arch).concat("; install cloudflared manually or set LTG_CLOUDFLARED_PATH"),
        ),
    }
}

/// The file name of a command.
pub open spec fn file_name_of(command: Seq<char>, windows: bool) -> Seq<char> {
    if windows {
        command + ".exe"@
    } else {
        command
    }
}

/// The file name of a command.
pub fn binary_name(command: &str, windows: bool) -> (r: String)
    ensures
        r@ == file_name_of(command@, windows),
{
    if windows {
        command.to_owned().concat(".exe")
    } else {
        command.to_owned()
    }
}

/// The files that a command may stand for, one in each directory of the search path, in the order
/// in which they are tried.
pub fn command_candidates<P: Copy>(command: &str, dirs: &[P], windows: bool) -> (r: Vec<Place<P>>)
    ensures
        r@.len() == dirs@.len(),
        forall|i: int|
            0 <= i < dirs@.len() ==> (#[trigger] r@[i])@ == (
                dirs@[i],
                seq![file_name_of(command@, windows)],
            ),
{
    let mut out: Vec<Place<P>> = Vec::new();
    let mut i: usize = 0;
    while i < dirs.len()
        invariant
            i <= dirs@.len(),
            out@.len() == i,
            forall|j: int|
                0 <= j < i ==> (#[trigger] out@[j])@ == (
                    dirs@[j],
                    seq![file_name_of(command@, windows)],
                ),
        decreases dirs@.len() - i,
    {
        out.push(one_below(dirs[i], binary_name(command, windows)));
        i += 1;
    }
    out
}

/// The file that a command stands for.
#[derive(Clone, Copy, PartialEq, Eq, Structural, Debug)]
pub enum CommandFile {
    /// The command is the file's path.
    Itself,
    /// The candidate at this position.
    Candidate(usize),
}

/// The file that a command stands for: itself, if it is a path of several parts and that file is
/// there, else the first of the candidates that is there.
pub fn command_path(parts: usize, is_file: bool, present: &[bool]) -> (r: Option<CommandFile>)
    ensures
        match r {
            Some(CommandFile::Itself) => parts > 1 && is_file,
            Some(CommandFile::Candidate(i)) => !(parts > 1 && is_file) && i < present@.len()
                && present@[i as int] && forall|j: int| 0 <= j < i ==> !#[trigger] present@[j],
            None => !(parts > 1 && is_file) && forall|j: int|
                0 <= j < present@.len() ==> !#[trigger] present@[j],
        },
{
    if parts > 1 && is_file {
        return Some(CommandFile::Itself);
    }
    let mut i: usize = 0;
    while i < present.len()
        invariant
            i <= present@.len(),
            !(parts > 1 && is_file),
            forall|j: int| 0 <= j < i ==> !#[trigger] present@[j],
        decreases present@.len() - i,
    {
        if present[i] {
            return Some(CommandFile::Candidate(i));
        }
        i += 1;
    }
    None
}

/// The directory for managed programs, from the environment.
pub open spec fn bin_dir<P>(ltg_data_home: Option<P>, xdg_data_home: Option<P>, home: Option<P>) -> Result<
    (P, Seq<Seq<char>>),
    Seq<char>,
> {
    if ltg_data_home is Some {
        Ok((ltg_data_home->0, seq!["bin"@]))
    } else if xdg_data_home is Some {
        Ok((xdg_data_home->0, seq!["localtoglobal"@, "bin"@]))
    } else if home is Some {
        Ok((home->0, seq![".local"@, "share"@, "localtoglobal"@, "bin"@]))
    } else {
        Err("HOME is not set; cannot choose a directory for managed dependencies"@)
    }
}

/// The directory for managed programs, from the environment.
pub fn managed_bin_dir<P>(ltg_data_home: Option<P>, xdg_data_home: Option<P>, home: Option<P>) -> (r:
    Result<Place<P>, String>)
    ensures
        match r {
            Ok(dir) => bin_dir(ltg_data_home, xdg_data_home, home) == Ok::<
                (P, Seq<Seq<char>>),
                Seq<char>,
            >(dir@),
            Err(e) => bin_dir(ltg_data_home, xdg_data_home, home) == Err::<
                (P, Seq<Seq<char>>),
                Seq<char>,
            >(e@),
        },
{
    if let Some(base) = ltg_data_home {
        return Ok(one_below(base, "bin".to_owned()));
    }
    if let Some(base) = xdg_data_home {
        let dir = below(one_below(base, "localtoglobal".to_owned()), "bin".to_owned());
        assert(dir@.1 =~= seq!["localtoglobal"@, "bin"@]);
        return Ok(dir);
    }
    match home {
        Some(base) => {
            let share = below(one_below(base, ".local".to_owned()), "share".to_owned());
            let dir = below(below(share, "localtoglobal".to_owned()), "bin".to_owned());
            assert(dir@.1 =~= seq![".local"@, "share"@, "localtoglobal"@, "bin"@]);
            Ok(dir)
        },
        None => Err(
            "HOME is not set; cannot choose a directory for managed dependencies".to_owned(),
        ),
    }
}

/// The file of the managed tunnel program.
pub fn managed_cloudflared_path<P>(bin_dir: Place<P>, windows: bool) -> (r: Place<P>)
    ensures
        r@ == (bin_dir@.0, bin_dir@.1.push(file_name_of("cloudflared"@, windows))),
{
    below(bin_dir, binary_name("cloudflared", windows))
}

/// A file, as it is shown to the user, and whether it is there.
#[derive(Debug)]
pub struct Located {
    pub path: String,
    pub present: bool,
}

impl View for Located {
    type V = (Seq<char>, bool);

    open spec fn view(&self) -> (Seq<char>, bool) {
        (self.path@, self.present)
    }
}

/// Which tunnel program to use.
#[derive(Debug)]
pub enum TunnelProgram {
    /// The one that the environment names.
    Named,
    /// The one on the search path.
    OnPath,
    /// The managed one.
    Managed,
    /// The managed one, which has to be installed from this release file first.
    Install(DownloadAsset),
}

/// Which tunnel program to use.
pub enum ProgramModel {
    Named,
    OnPath,
    Managed,
    Install(AssetModel),
}

impl View for TunnelProgram {
    type V = ProgramModel;

    open spec fn view(&self) -> ProgramModel {
        match self {
            TunnelProgram::Named => ProgramModel::Named,
            TunnelProgram::OnPath => ProgramModel::OnPath,
            TunnelProgram::Managed => ProgramModel::Managed,
            TunnelProgram::Install(asset) => ProgramModel::Install(asset@),
        }
    }
}

/// Which tunnel program to use: the one that the environment names, which has to be there, else
/// the one on the search path, else the managed one, which is installed if it is not there yet.
pub open spec fn program(
    named: Option<(Seq<char>, bool)>,
    on_path: bool,
    managed: Result<bool, Seq<char>>,
    os: Seq<char>,
    arch: Seq<char>,
) -> Result<ProgramModel, Seq<char>> {
    match named {
        Some((path, present)) => if present {
            Ok(ProgramModel::Named)
        } else {
            Err("LTG_CLOUDFLARED_PATH points to "@ + path + ", but that file does not exist"@)
        },
        None => if on_path {
            Ok(ProgramModel::OnPath)
        } else {
            match managed {
                Err(e) => Err(e),
                Ok(present) => if present {
                    Ok(ProgramModel::Managed)
                } else {
                    match asset_for(os, arch) {
                        Some(asset) => Ok(ProgramModel::Install(asset)),
                        None => Err(unsupported(os, arch)),
                    }
                },
            }
        },
    }
}

/// A located file, if there is one.
pub open spec fn located(file: Option<Located>) -> Option<(Seq<char>, bool)> {
    match file {
        Some(f) => Some(f@),
        None => None,
    }
}

/// Whether the managed program is there, or why there can be none.
pub open spec fn managed_presence(managed: Result<bool, String>) -> Result<bool, Seq<char>> {
    match managed {
        Ok(present) => Ok(present),
        Err(e) => Err(e@),
    }
}

/// Decides which tunnel program to use, from the file that the environment names, if it does, and
/// from whether one is on the search path and the managed one is there.
pub fn ensure_cloudflared(
    named: Option<Located>,
    on_path: bool,
    managed: Result<bool, String>,
    os: &str,
    arch: &str,
) -> (r: Result<TunnelProgram, String>)
    ensures
        match r {
            Ok(p) => program(located(named), on_path, managed_presence(managed), os@, arch@)
                == Ok::<ProgramModel, Seq<char>>(p@),
            Err(e) => program(located(named), on_path, managed_presence(managed), os@, arch@)
                == Err::<ProgramModel, Seq<char>>(e@),
        },
{
    if let Some(file) = named {
        if file.present {
            return Ok(TunnelProgram::Named);
        }
        return Err(
            "LTG_CLOUDFLARED_PATH points to ".to_owned().concat(file.path.as_str()).concat(
                ", but that file does not exist",
            ),
        );
    }
    if on_path {
        return Ok(TunnelProgram::OnPath);
    }
    match managed {
        Err(e) => Err(e),
        Ok(present) => {
            if present {
                return Ok(TunnelProgram::Managed);
            }
            match cloudflared_asset(os, arch) {
                Ok(asset) => Ok(TunnelProgram::Install(asset)),
                Err(e) => Err(e),
            }
        },
    }
}

/// What is said before a copy of the tunnel program is installed.
pub fn install_notice(asset: &DownloadAsset) -> (r: Vec<String>)
    ensures
        chars::texts(r@) == seq![
            "cloudflared not found; installing managed copy..."@,
            "Downloading "@ + asset.name@,
        ],
{
    let lines = vec![
        "cloudflared not found; installing managed copy...".to_owned(),
        "Downloading ".to_owned().concat(asset.name),
    ];
    assert(chars::texts(lines@) =~= seq![
        "cloudflared not found; installing managed copy..."@,
        "Downloading "@ + asset.name@,
    ]);
    lines
}

/// How a trial run of a program went.
#[derive(Debug)]
pub enum TrialRun {
    /// It ended, successfully or not.
    Ended(bool),
    /// It could not be started, for this reason.
    NotStarted(String),
}

/// Whether a tunnel program that was asked for its version can be used.
pub fn validate_cloudflared(path: &str, trial: &TrialRun) -> (r: Result<(), String>)
    ensures
        match trial {
            TrialRun::Ended(success) => (r is Ok <==> *success) && (r matches Err(e) ==> e@ == path@
                + " exists but did not run successfully"@),
            TrialRun::NotStarted(error) => r matches Err(e) && e@ == "failed to run "@ + path@
                + " --version: "@ + error@,
        },
{
    match trial {
        TrialRun::Ended(success) => if *success {
            Ok(())
        } else {
            Err(path.to_owned().concat(" exists but did not run successfully"))
        },
        TrialRun::NotStarted(error) => Err(
            "failed to run ".to_owned().concat(path).concat(" --version: ").concat(error.as_str()),
        ),
    }
}

/// There is a release file for macOS and Linux, on Intel and on ARM: it is named after the system and
/// the machine, is an archive on macOS alone, and lies under its name with the other releases.
pub proof fn release_files_fit_the_machine(os: Seq<char>, arch: Seq<char>)
    ensures
        asset_for(os, arch) is Some <==> (os == "macos"@ || os == "linux"@) && (arch == "x86_64"@
            || arch == "aarch64"@),
        asset_for(os, arch) matches Some(a) ==> {
            &&& a.name == "cloudflared-"@ + (if os == "macos"@ {
                "darwin-"@
            } else {
                "linux-"@
            }) + (if arch == "x86_64"@ {
                "amd64"@
            } else {
                "arm64"@
            }) + (if os == "macos"@ {
                ".tgz"@
            } else {
                Seq::<char>::empty()
            })
            &&& a.archive <==> os == "macos"@
            &&& a.url == "https://github.com/cloudflare/cloudflared/releases/latest/download/"@
                + a.name
        },
{
    reveal_strlit("macos");
    reveal_strlit("linux");
    reveal_strlit("x86_64");
    reveal_strlit("aarch64");
    assert("macos"@[0] == 'm' && "linux"@[0] == 'l');
    assert("x86_64"@.len() == 6 && "aarch64"@.len() == 7);
    reveal_strlit("cloudflared-");
    reveal_strlit("darwin-");
    reveal_strlit("linux-");
    reveal_strlit("amd64");
    reveal_strlit("arm64");
    reveal_strlit(".tgz");
    reveal_strlit("cloudflared-darwin-amd64.tgz");
    reveal_strlit("cloudflared-darwin-arm64.tgz");
    reveal_strlit("cloudflared-linux-amd64");
    reveal_strlit("cloudflared-linux-arm64");
    let none = Seq::<char>::empty();
    assert("cloudflared-darwin-amd64.tgz"@ =~= "cloudflared-"@ + "darwin-"@ + "amd64"@ + ".tgz"@);
    assert("cloudflared-darwin-arm64.tgz"@ =~= "cloudflared-"@ + "darwin-"@ + "arm64"@ + ".tgz"@);
    assert("cloudflared-linux-amd64"@ =~= "cloudflared-"@ + "linux-"@ + "amd64"@ + none);
    assert("cloudflared-linux-arm64"@ =~= "cloudflared-"@ + "linux-"@ + "arm64"@ + none);
}

/// The program that the environment names outweighs every other, and has to be there. Else the one on
/// the search path is used; else the managed one; and only if that is not there is one installed,
/// where there is a release file for the machine.
pub proof fn programs_are_tried_in_order(
    named: Option<(Seq<char>, bool)>,
    on_path: bool,
    managed: Result<bool, Seq<char>>,
    os: Seq<char>,
    arch: Seq<char>,
)
    ensures
        ({
            let p = program(named, on_path, managed, os, arch);
            &&& named is Some && (named->0).1 ==> p == Ok::<ProgramModel, Seq<char>>(
                ProgramModel::Named,
            )
            &&& named is Some && !(named->0).1 ==> (p matches Err(e) && facts::occurs(
                e,
                (named->0).0,
            ))
            &&& named is None && on_path ==> p == Ok::<ProgramModel, Seq<char>>(
                ProgramModel::OnPath,
            )
            &&& named is None && !on_path && managed == Ok::<bool, Seq<char>>(true) ==> p == Ok::<
                ProgramModel,
                Seq<char>,
            >(ProgramModel::Managed)
            &&& named is None && !on_path && managed == Ok::<bool, Seq<char>>(false) ==> match (
                asset_for(os, arch),
                p,
            ) {
                (Some(asset), Ok(ProgramModel::Install(a))) => a == asset,
                (None, Err(e)) => facts::occurs(e, os + " "@ + arch),
                _ => false,
            }
            &&& named is None && !on_path && managed is Err ==> p == Err::<
                ProgramModel,
                Seq<char>,
            >(managed->Err_0)
        }),
{
    let front = "LTG_CLOUDFLARED_PATH points to "@;
    let n = front.len() as int;
    if let Some((path, _)) = named {
        let e = front + path + ", but that file does not exist"@;
        assert(e.subrange(n, n + path.len()) =~= path);
    }
    let machine = os + " "@ + arch;
    let start = "automatic cloudflared install is not supported on "@;
    let at = start.len() as int;
    assert(unsupported(os, arch).subrange(at, at + machine.len()) =~= machine);
}

/// Managed programs are kept below the tool's own data directory, or else below the user's data
/// directory, or else below the home directory; without any of these there is nowhere to keep them.
pub proof fn programs_are_kept_below_a_data_directory<P>(
    own: Option<P>,
    data: Option<P>,
    home: Option<P>,
)
    ensures
        ({
            let dir = bin_dir(own, data, home);
            &&& dir is Ok <==> own is Some || data is Some || home is Some
            &&& dir matches Ok(d) ==> {
                &&& d.1.len() > 0 && d.1.last() == "bin"@
                &&& own is Some ==> d.0 == own->0 && d.1.len() == 1
                &&& own is None && data is Some ==> d.0 == data->0 && d.1.drop_last() == seq![
                    "localtoglobal"@,
                ]
                &&& own is None && data is None ==> d.0 == home->0 && d.1.drop_last() == seq![
                    ".local"@,
                    "share"@,
                    "localtoglobal"@,
                ]
            }
        }),
{
    assert(seq!["localtoglobal"@, "bin"@].drop_last() =~= seq!["localtoglobal"@]);
    assert(seq![".local"@, "share"@, "localtoglobal"@, "bin"@].drop_last() =~= seq![
        ".local"@,
        "share"@,
        "localtoglobal"@,
    ]);
}

/// A command is a file of its own name, with the ending of programs on Windows alone.
pub proof fn commands_are_files_of_their_name(command: Seq<char>)
    ensures
        file_name_of(command, false) == command,
        file_name_of(command, true) == command + seq!['.', 'e', 'x', 'e'],
{
    reveal_strlit(".exe");
    assert(".exe"@ =~= seq!['.', 'e', 'x', 'e']);
}

} // verus!
