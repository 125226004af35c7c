//! The installation of a managed copy of the tunnel program, step by step. The caller performs
//! each action and hands back how it went.
use crate::deps::{AssetModel, DownloadAsset};
use crate::paths::{one_below, Place};
use crate::text::number;
use crate::text::number::to_decimal;
use vstd::prelude::*;

verus! {

/// The permissions of the installed program: everyone may run it, its owner may replace it.
pub const PROGRAM_MODE: u32 = 0o755;

/// The files and directories that an installation deals with, by what they are for.
#[derive(Clone, Copy, PartialEq, Eq, Structural, Debug)]
pub enum InstallFile {
    /// The file that the program is installed to.
    Destination,
    /// The directory of that file.
    Directory,
    /// The file that the release file is downloaded to.
    Download,
    /// The directory that an archive is unpacked to.
    Scratch,
    /// The program that was found below that directory.
    Unpacked,
}

/// The file in the directory of the program that a release file is downloaded to.
pub fn download_place<P>(directory: P, asset: &DownloadAsset) -> (r: Place<P>)
    ensures
        r@ == (directory, seq!["."@ + asset@.name + ".download"@]),
{
    one_below(directory, ".".to_owned().concat(asset.name).concat(".download"))
}

/// The directory in that of the program that an archive is unpacked to at `now`.
pub fn scratch_place<P>(directory: P, now: u64) -> (r: Place<P>)
    ensures
        r@ == (directory, seq![".cloudflared-"@ + number::decimal(now as nat)]),
{
    one_below(directory, ".cloudflared-".to_owned().concat(to_decimal(now).as_str()))
}

/// An argument of a command, or a part of a message: a text, or the path of a file.
#[derive(Debug)]
pub enum Piece {
    Text(String),
    File(InstallFile),
}

/// An argument of a command, or a part of a message.
pub enum PieceModel {
    Text(Seq<char>),
    File(InstallFile),
}

impl View for Piece {
    type V = PieceModel;

    open spec fn view(&self) -> PieceModel {
        match self {
            Piece::Text(text) => PieceModel::Text(text@),
            Piece::File(file) => PieceModel::File(*file),
        }
    }
}

/// The models of a list of pieces.
pub open spec fn piece_list(pieces: Seq<Piece>) -> Seq<PieceModel> {
    pieces.map_values(|p: Piece| p@)
}

/// What an installation waits for.
#[derive(Clone, Copy, PartialEq, Eq, Structural, Debug)]
pub enum Stage {
    /// The directory of the program.
    Directory,
    /// The program that downloads.
    Downloader,
    /// The release file.
    Download,
    /// The program that unpacks.
    Unpacker,
    /// The directory to unpack to.
    ScratchDirectory,
    /// The unpacked archive.
    Unpacked,
    /// The program among what was unpacked.
    Search,
    /// The removal of an earlier copy; this file is to be copied then.
    Removal(InstallFile),
    /// The copy of this file.
    Copy(InstallFile),
    /// The permissions of the copy.
    Permissions,
    /// The new permissions of the copy.
    NewPermissions,
}

/// An installation on its way.
#[derive(Debug)]
pub struct Installation {
    pub asset: DownloadAsset,
    pub stage: Stage,
}

/// An installation on its way.
pub struct InstallationModel {
    pub asset: AssetModel,
    pub stage: Stage,
}

impl View for Installation {
    type V = InstallationModel;

    open spec fn view(&self) -> InstallationModel {
        InstallationModel { asset: self.asset@, stage: self.stage }
    }
}

/// What an installation asks its caller to do.
#[derive(Debug)]
pub enum InstallAction {
    /// Make this directory, and those above it.
    MakeDirectory(InstallFile),
    /// Look for this command.
    FindCommand(String),
    /// Run this command, each piece being an argument.
    Run(String, Vec<Piece>),
    /// Look below a directory for a file of this name.
    FindFile(InstallFile, String),
    /// Remove this file, if it is there.
    Remove(InstallFile),
    /// Copy a file to another.
    Copy(InstallFile, InstallFile),
    /// Look at the permissions of this file.
    ReadPermissions(InstallFile),
    /// Set the permissions of this file.
    SetPermissions(InstallFile, u32),
    /// Nothing more: the program is installed.
    Finish,
    /// Nothing more: the installation has failed, with a message of these pieces.
    Fail(Vec<Piece>),
}

/// What an installation asks its caller to do.
pub enum ActionModel {
    MakeDirectory(InstallFile),
    FindCommand(Seq<char>),
    Run(Seq<char>, Seq<PieceModel>),
    FindFile(InstallFile, Seq<char>),
    Remove(InstallFile),
    Copy(InstallFile, InstallFile),
    ReadPermissions(InstallFile),
    SetPermissions(InstallFile, u32),
    Finish,
    Fail(Seq<PieceModel>),
}

impl View for InstallAction {
    type V = ActionModel;

    open spec fn view(&self) -> ActionModel {
        match self {
            InstallAction::MakeDirectory(dir) => ActionModel::MakeDirectory(*dir),
            InstallAction::FindCommand(name) => ActionModel::FindCommand(name@),
            InstallAction::Run(name, args) => ActionModel::Run(name@, piece_list(args@)),
            InstallAction::FindFile(dir, name) => ActionModel::FindFile(*dir, name@),
            InstallAction::Remove(file) => ActionModel::Remove(*file),
            InstallAction::Copy(from, to) => ActionModel::Copy(*from, *to),
            InstallAction::ReadPermissions(file) => ActionModel::ReadPermissions(*file),
            InstallAction::SetPermissions(file, mode) => ActionModel::SetPermissions(*file, *mode),
            InstallAction::Finish => ActionModel::Finish,
            InstallAction::Fail(message) => ActionModel::Fail(piece_list(message@)),
        }
    }
}

/// How an action went.
#[derive(Debug)]
pub enum InstallEvent {
    /// It was done.
    Done,
    /// What was looked for is there.
    Found,
    /// What was looked for is not there.
    Missing,
    /// The command ran, and failed.
    Failed,
    /// It could not be done, for this reason.
    Error(String),
}

/// How an action went.
pub enum EventModel {
    Done,
    Found,
    Missing,
    Failed,
    Error(Seq<char>),
}

impl View for InstallEvent {
    type V = EventModel;

    open spec fn view(&self) -> EventModel {
        match self {
            InstallEvent::Done => EventModel::Done,
            InstallEvent::Found => EventModel::Found,
            InstallEvent::Missing => EventModel::Missing,
            InstallEvent::Failed => EventModel::Failed,
            InstallEvent::Error(error) => EventModel::Error(error@),
        }
    }
}

/// Whether an event answers the action that an installation waits for.
pub open spec fn answers(stage: Stage, event: EventModel) -> bool {
    match stage {
        Stage::Downloader | Stage::Unpacker | Stage::Search => event is Found || event is Missing,
        Stage::Download | Stage::Unpacked => event is Done || event is Failed || event is Error,
        _ => event is Done || event is Error,
    }
}

/// A step of an installation: whether the download and the directory that was unpacked to are
/// removed first, the action to take then, and the installation that waits for it.
#[derive(Debug)]
pub struct InstallStep {
    pub remove_download: bool,
    pub remove_scratch: bool,
    pub action: InstallAction,
    pub next: Installation,
}

/// A step of an installation.
pub struct InstallStepModel {
    pub remove_download: bool,
    pub remove_scratch: bool,
    pub action: ActionModel,
    pub next: InstallationModel,
}

impl View for InstallStep {
    type V = InstallStepModel;

    open spec fn view(&self) -> InstallStepModel {
        InstallStepModel {
            remove_download: self.remove_download,
            remove_scratch: self.remove_scratch,
            action: self.action@,
            next: self.next@,
        }
    }
}

/// A step that removes nothing.
pub open spec fn onward(m: InstallationModel, stage: Stage, action: ActionModel) -> InstallStepModel {
    InstallStepModel {
        remove_download: false,
        remove_scratch: false,
        action,
        next: InstallationModel { stage, ..m },
    }
}

/// The end of an installation that has failed and leaves everything as it is.
pub open spec fn given_up(m: InstallationModel, message: Seq<PieceModel>) -> InstallStepModel {
    InstallStepModel {
        remove_download: false,
        remove_scratch: false,
        action: ActionModel::Fail(message),
        next: m,
    }
}

/// A message that is a text alone.
pub open spec fn plain(text: Seq<char>) -> Seq<PieceModel> {
    seq![PieceModel::Text(text)]
}

/// A message on what could not be done with a file, and why.
pub open spec fn about(text: Seq<char>, file: InstallFile, error: Seq<char>) -> Seq<PieceModel> {
    seq![PieceModel::Text(text), PieceModel::File(file), PieceModel::Text(": "@ + error)]
}

/// The arguments of the download.
pub open spec fn download_line(m: InstallationModel) -> Seq<PieceModel> {
    seq![
        PieceModel::Text("-fL"@),
        PieceModel::Text("--retry"@),
        PieceModel::Text("3"@),
        PieceModel::Text("--connect-timeout"@),
        PieceModel::Text("20"@),
        PieceModel::Text("-o"@),
        PieceModel::File(InstallFile::Download),
        PieceModel::Text(m.asset.url),
    ]
}

/// The arguments of the unpacking.
pub open spec fn unpack_line() -> Seq<PieceModel> {
    seq![
        PieceModel::Text("-xzf"@),
        PieceModel::File(InstallFile::Download),
        PieceModel::Text("-C"@),
        PieceModel::File(InstallFile::Scratch),
    ]
}

/// The message on a copy that could not be made.
pub open spec fn copy_failure(source: InstallFile, error: Seq<char>) -> Seq<PieceModel> {
    seq![
        PieceModel::Text("failed to install "@),
        PieceModel::File(source),
        PieceModel::Text(" to "@),
        PieceModel::File(InstallFile::Destination),
        PieceModel::Text(": "@ + error),
    ]
}

/// The next step of an installation, after the action that it waits for went as the event says.
pub open spec fn install_step(m: InstallationModel, event: EventModel) -> InstallStepModel {
    match (m.stage, event) {
        (Stage::Directory, EventModel::Done) => onward(
            m,
            Stage::Downloader,
            ActionModel::FindCommand("curl"@),
        ),
        (Stage::Directory, EventModel::Error(e)) => given_up(
            m,
            about("failed to create "@, InstallFile::Directory, e),
        ),
        (Stage::Downloader, EventModel::Found) => onward(
            m,
            Stage::Download,
            ActionModel::Run("curl"@, download_line(m)),
        ),
        (Stage::Downloader, EventModel::Missing) => given_up(
            m,
            plain("curl is required to download managed cloudflared"@),
        ),
        (Stage::Download, EventModel::Done) => if m.asset.archive {
            onward(m, Stage::Unpacker, ActionModel::FindCommand("tar"@))
        } else {
            onward(
                m,
                Stage::Removal(InstallFile::Download),
                ActionModel::Remove(InstallFile::Destination),
            )
        },
        (Stage::Download, EventModel::Failed) => InstallStepModel {
            remove_download: true,
            ..given_up(m, plain("failed to download "@ + m.asset.url))
        },
        (Stage::Download, EventModel::Error(e)) => given_up(
            m,
            plain("failed to run curl: "@ + e),
        ),
        (Stage::Unpacker, EventModel::Found) => onward(
            m,
            Stage::ScratchDirectory,
            ActionModel::MakeDirectory(InstallFile::Scratch),
        ),
        (Stage::Unpacker, EventModel::Missing) => InstallStepModel {
            remove_download: true,
            ..given_up(m, plain("tar is required to unpack cloudflared on macOS"@))
        },
        (Stage::ScratchDirectory, EventModel::Done) => onward(
            m,
            Stage::Unpacked,
            ActionModel::Run("tar"@, unpack_line()),
        ),
        (Stage::ScratchDirectory, EventModel::Error(e)) => given_up(
            m,
            about("failed to create "@, InstallFile::Scratch, e),
        ),
        (Stage::Unpacked, EventModel::Done) => onward(
            m,
            Stage::Search,
            ActionModel::FindFile(InstallFile::Scratch, "cloudflared"@),
        ),
        (Stage::Unpacked, EventModel::Failed) => InstallStepModel {
            remove_download: true,
            remove_scratch: true,
            ..given_up(
                m,
                seq![
                    PieceModel::Text("failed to unpack "@),
                    PieceModel::File(InstallFile::Download),
                ],
            )
        },
        (Stage::Unpacked, EventModel::Error(e)) => given_up(m, plain("failed to run tar: "@ + e)),
        (Stage::Search, EventModel::Found) => onward(
            m,
            Stage::Removal(InstallFile::Unpacked),
            ActionModel::Remove(InstallFile::Destination),
        ),
        (Stage::Search, EventModel::Missing) => given_up(
            m,
            plain("cloudflared archive did not contain a cloudflared binary"@),
        ),
        (Stage::Removal(source), EventModel::Done) => onward(
            m,
            Stage::Copy(source),
            ActionModel::Copy(source, InstallFile::Destination),
        ),
        (Stage::Removal(_), EventModel::Error(e)) => given_up(
            m,
            about("failed to replace "@, InstallFile::Destination, e),
        ),
        (Stage::Copy(source), EventModel::Done) => InstallStepModel {
            remove_download: true,
            remove_scratch: source is Unpacked,
            ..onward(
                m,
                Stage::Permissions,
                ActionModel::ReadPermissions(InstallFile::Destination),
            )
        },
        (Stage::Copy(source), EventModel::Error(e)) => given_up(m, copy_failure(source, e)),
        (Stage::Permissions, EventModel::Done) => onward(
            m,
            Stage::NewPermissions,
            ActionModel::SetPermissions(InstallFile::Destination, PROGRAM_MODE),
        ),
        (Stage::Permissions, EventModel::Error(e)) => given_up(
            m,
            about("failed to inspect "@, InstallFile::Destination, e),
        ),
        (Stage::NewPermissions, EventModel::Done) => onward(
            m,
            Stage::NewPermissions,
            ActionModel::Finish,
        ),
        (Stage::NewPermissions, EventModel::Error(e)) => given_up(
            m,
            about("failed to chmod "@, InstallFile::Destination, e),
        ),
        _ => given_up(m, seq![]),
    }
}

/// The first step of an installation.
pub open spec fn first_step(asset: AssetModel) -> InstallStepModel {
    onward(
        InstallationModel { asset, stage: Stage::Directory },
        Stage::Directory,
        ActionModel::MakeDirectory(InstallFile::Directory),
    )
}

/// Begins the installation of a release file. The destination has to stand in a directory.
pub fn download_cloudflared(asset: DownloadAsset, has_directory: bool) -> (r: Result<
    InstallStep,
    Vec<Piece>,
>)
    ensures
        match r {
            Ok(step) => has_directory && step@ == first_step(asset@),
            Err(message) => !has_directory && piece_list(message@) == seq![
                PieceModel::Text("invalid cloudflared destination "@),
                PieceModel::File(InstallFile::Destination),
            ],
        },
{
    if !has_directory {
        let message = vec![
            Piece::Text("invalid cloudflared destination ".to_owned()),
            Piece::File(InstallFile::Destination),
        ];
        assert(piece_list(message@) =~= seq![
            PieceModel::Text("invalid cloudflared destination "@),
            PieceModel::File(InstallFile::Destination),
        ]);
        return Err(message);
    }
    Ok(
        InstallStep {
            remove_download: false,
            remove_scratch: false,
            action: InstallAction::MakeDirectory(InstallFile::Directory),
            next: Installation { asset, stage: Stage::Directory },
        },
    )
}

/// A message that is a text alone.
fn say(text: String) -> (r: Vec<Piece>)
    ensures
        piece_list(r@) == plain(text@),
{
    let r = vec![Piece::Text(text)];
    assert(piece_list(r@) =~= plain(text@));
    r
}

/// A message on what could not be done with a file, and why.
fn say_about(text: &str, file: InstallFile, error: &str) -> (r: Vec<Piece>)
    ensures
        piece_list(r@) == about(text@, file, error@),
{
    let r = vec![
        Piece::Text(text.to_owned()),
        Piece::File(file),
        Piece::Text(": ".to_owned().concat(error)),
    ];
    assert(piece_list(r@) =~= about(text@, file, error@));
    r
}

/// The message on a copy that could not be made.
fn say_copy_failed(source: InstallFile, error: &str) -> (r: Vec<Piece>)
    ensures
        piece_list(r@) == copy_failure(source, error@),
{
    let r = vec![
        Piece::Text("failed to install ".to_owned()),
        Piece::File(source),
        Piece::Text(" to ".to_owned()),
        Piece::File(InstallFile::Destination),
        Piece::Text(": ".to_owned().concat(error)),
    ];
    assert(piece_list(r@) =~= copy_failure(source, error@));
    r
}

impl Installation {
    /// A step that removes nothing.
    fn onward(self, stage: Stage, action: InstallAction) -> (r: InstallStep)
        ensures
            r@ == onward(self@, stage, action@),
    {
        InstallStep {
            remove_download: false,
            remove_scratch: false,
            action,
            next: Installation { asset: self.asset, stage },
        }
    }

    /// The end of an installation that has failed, with what it removes.
    fn given_up(self, message: Vec<Piece>, remove_download: bool, remove_scratch: bool) -> (r:
        InstallStep)
        ensures
            r@ == (InstallStepModel {
                remove_download,
                remove_scratch,
                ..given_up(self@, piece_list(message@))
            }),
    {
        InstallStep {
            remove_download,
            remove_scratch,
            action: InstallAction::Fail(message),
            next: self,
        }
    }

    /// Runs the download.
    fn run_download(self) -> (r: InstallStep)
        ensures
            r@ == onward(
                self@,
                Stage::Download,
                ActionModel::Run("curl"@, download_line(self@)),
            ),
    {
        let args = vec![
            Piece::Text("-fL".to_owned()),
            Piece::Text("--retry".to_owned()),
            Piece::Text("3".to_owned()),
            Piece::Text("--connect-timeout".to_owned()),
            Piece::Text("20".to_owned()),
            Piece::Text("-o".to_owned()),
            Piece::File(InstallFile::Download),
            Piece::Text(self.asset.url.clone()),
        ];
        assert(piece_list(args@) =~= download_line(self@));
        self.onward(Stage::Download, InstallAction::Run("curl".to_owned(), args))
    }

    /// Runs the unpacking.
    fn run_unpack(self) -> (r: InstallStep)
        ensures
            r@ == onward(self@, Stage::Unpacked, ActionModel::Run("tar"@, unpack_line())),
    {
        let args = vec![
            Piece::Text("-xzf".to_owned()),
            Piece::File(InstallFile::Download),
            Piece::Text("-C".to_owned()),
            Piece::File(InstallFile::Scratch),
        ];
        assert(piece_list(args@) =~= unpack_line());
        self.onward(Stage::Unpacked, InstallAction::Run("tar".to_owned(), args))
    }

    /// The end of an installation whose archive could not be unpacked.
    fn not_unpacked(self) -> (r: InstallStep)
        requires
            self@.stage is Unpacked,
        ensures
            r@ == install_step(self@, EventModel::Failed),
    {
        let message = vec![
            Piece::Text("failed to unpack ".to_owned()),
            Piece::File(InstallFile::Download),
        ];
        assert(piece_list(message@) =~= seq![
            PieceModel::Text("failed to unpack "@),
            PieceModel::File(InstallFile::Download),
        ]);
        self.given_up(message, true, true)
    }

    /// Takes an installation a step further, after the action that it waits for went as the event
    /// says.
    pub fn advance(self, event: InstallEvent) -> (r: InstallStep)
        requires
            answers(self@.stage, event@),
        ensures
            r@ == install_step(self@, event@),
    {
        match self.stage {
            Stage::Directory => match event {
                InstallEvent::Error(e) => self.given_up(
                    say_about("failed to create ", InstallFile::Directory, e.as_str()),
                    false,
                    false,
                ),
                _ => self.onward(
                    Stage::Downloader,
                    InstallAction::FindCommand("curl".to_owned()),
                ),
            },
            Stage::Downloader => match event {
                InstallEvent::Found => self.run_download(),
                _ => self.given_up(
                    say("curl is required to download managed cloudflared".to_owned()),
                    false,
                    false,
                ),
            },
            Stage::Download => match event {
                InstallEvent::Error(e) => self.given_up(
                    say("failed to run curl: ".to_owned().concat(e.as_str())),
                    false,
                    false,
                ),
                InstallEvent::Failed => {
                    let message = say(
                        "failed to download ".to_owned().concat(self.asset.url.as_str()),
                    );
                    self.given_up(message, true, false)
                },
                _ => if self.asset.archive {
                    self.onward(Stage::Unpacker, InstallAction::FindCommand("tar".to_owned()))
                } else {
                    self.onward(
                        Stage::Removal(InstallFile::Download),
                        InstallAction::Remove(InstallFile::Destination),
                    )
                },
            },
            Stage::Unpacker => match event {
                InstallEvent::Found => self.onward(
                    Stage::ScratchDirectory,
                    InstallAction::MakeDirectory(InstallFile::Scratch),
                ),
                _ => self.given_up(
                    say("tar is required to unpack cloudflared on macOS".to_owned()),
                    true,
                    false,
                ),
            },
            Stage::ScratchDirectory => match event {
                InstallEvent::Error(e) => self.given_up(
                    say_about("failed to create ", InstallFile::Scratch, e.as_str()),
                    false,
                    false,
                ),
                _ => self.run_unpack(),
            },
            Stage::Unpacked => match event {
                InstallEvent::Error(e) => self.given_up(
                    say("failed to run tar: ".to_owned().concat(e.as_str())),
                    false,
                    false,
                ),
                InstallEvent::Failed => self.not_unpacked(),
                _ => self.onward(
                    Stage::Search,
                    InstallAction::FindFile(InstallFile::Scratch, "cloudflared".to_owned()),
                ),
            },
            Stage::Search => match event {
                InstallEvent::Found => self.onward(
                    Stage::Removal(InstallFile::Unpacked),
                    InstallAction::Remove(InstallFile::Destination),
                ),
                _ => self.given_up(
                    say("cloudflared archive did not contain a cloudflared binary".to_owned()),
                    false,
                    false,
                ),
            },
            Stage::Removal(source) => match event {
                InstallEvent::Error(e) => self.given_up(
                    say_about("failed to replace ", InstallFile::Destination, e.as_str()),
                    false,
                    false,
                ),
                _ => self.onward(
                    Stage::Copy(source),
                    InstallAction::Copy(source, InstallFile::Destination),
                ),
            },
            Stage::Copy(source) => match event {
                InstallEvent::Error(e) => self.given_up(
                    say_copy_failed(source, e.as_str()),
                    false,
                    false,
                ),
                _ => InstallStep {
                    remove_download: true,
                    remove_scratch: source == InstallFile::Unpacked,
                    action: InstallAction::ReadPermissions(InstallFile::Destination),
                    next: Installation { asset: self.asset, stage: Stage::Permissions },
                },
            },
            Stage::Permissions => match event {
                InstallEvent::Error(e) => self.given_up(
                    say_about("failed to inspect ", InstallFile::Destination, e.as_str()),
                    false,
                    false,
                ),
                _ => self.onward(
                    Stage::NewPermissions,
                    InstallAction::SetPermissions(InstallFile::Destination, PROGRAM_MODE),
                ),
            },
            Stage::NewPermissions => match event {
                InstallEvent::Error(e) => self.given_up(
                    say_about("failed to chmod ", InstallFile::Destination, e.as_str()),
                    false,
                    false,
                ),
                _ => self.onward(Stage::NewPermissions, InstallAction::Finish),
            },
        }
    }
}

/// After its first step an installation asks for no directory but the one to unpack to, and removes
/// that one only after it was unpacked to. The only file that it asks to remove, to copy to or to
/// make a program is the destination.
pub proof fn installing_keeps_to_its_files(m: InstallationModel, event: EventModel)
    requires
        answers(m.stage, event),
    ensures
        ({
            let step = install_step(m, event);
            &&& step.next.asset == m.asset
            &&& step.action matches ActionModel::MakeDirectory(dir) ==> dir is Scratch
            &&& step.action matches ActionModel::Remove(file) ==> file is Destination
            &&& step.action matches ActionModel::Copy(_, file) ==> file is Destination
            &&& step.action matches ActionModel::SetPermissions(file, mode) ==> file is Destination
                && mode == PROGRAM_MODE
            &&& step.remove_scratch ==> m.stage is Unpacked || m.stage == Stage::Copy(
                InstallFile::Unpacked,
            )
        }),
{
}

/// An installation that has gone well leaves nothing behind but the program: once the copy is
/// made, the download is removed, and what was unpacked, if it was.
pub proof fn installing_cleans_up(m: InstallationModel, source: InstallFile)
    requires
        m.stage == Stage::Copy(source),
    ensures
        install_step(m, EventModel::Done).remove_download,
        install_step(m, EventModel::Done).remove_scratch <==> source is Unpacked,
{
}

/// Whether the step is to take that action and removes nothing.
pub open spec fn just(step: InstallStepModel, action: ActionModel) -> bool {
    step.action == action && !step.remove_download && !step.remove_scratch
}

/// What an installation does from the release file on, if everything goes well: it downloads the file
/// from its address into the program's directory.
pub proof fn installing_downloads_the_release_file(asset: AssetModel)
    ensures
        ({
            let s0 = first_step(asset);
            let s1 = install_step(s0.next, EventModel::Done);
            let s2 = install_step(s1.next, EventModel::Found);
            &&& just(s0, ActionModel::MakeDirectory(InstallFile::Directory))
            &&& just(s1, ActionModel::FindCommand("curl"@))
            &&& s2.action matches ActionModel::Run(program, args) && program == "curl"@ && {
                &&& args.len() == 8
                &&& args[0] == PieceModel::Text("-fL"@)
                &&& args[1] == PieceModel::Text("--retry"@) && args[2] == PieceModel::Text("3"@)
                &&& args[3] == PieceModel::Text("--connect-timeout"@) && args[4]
                    == PieceModel::Text("20"@)
                &&& args[5] == PieceModel::Text("-o"@) && args[6] == PieceModel::File(
                    InstallFile::Download,
                )
                &&& args[7] == PieceModel::Text(asset.url)
            }
            &&& s2.next == (InstallationModel { asset, stage: Stage::Download })
        }),
{
}

/// A release file that is no archive is copied to the destination, in place of what was there; then
/// it is removed, and the copy is made a program that everyone may run.
pub proof fn installing_copies_a_plain_file(asset: AssetModel)
    requires
        !asset.archive,
    ensures
        ({
            let m = InstallationModel { asset, stage: Stage::Download };
            let s1 = install_step(m, EventModel::Done);
            let s2 = install_step(s1.next, EventModel::Done);
            let s3 = install_step(s2.next, EventModel::Done);
            &&& just(s1, ActionModel::Remove(InstallFile::Destination))
            &&& just(s2, ActionModel::Copy(InstallFile::Download, InstallFile::Destination))
            &&& s3.remove_download && !s3.remove_scratch
            &&& makes_a_program(s3)
        }),
{
}

/// Whether what is left is to make a program of the destination.
pub open spec fn makes_a_program(step: InstallStepModel) -> bool {
    let set = install_step(step.next, EventModel::Done);
    let end = install_step(set.next, EventModel::Done);
    &&& step.action == ActionModel::ReadPermissions(InstallFile::Destination)
    &&& just(set, ActionModel::SetPermissions(InstallFile::Destination, 493))
    &&& just(end, ActionModel::Finish)
}

/// An archive is unpacked to a directory of its own, and the program in it is copied to the
/// destination, in place of what was there; then the archive and that directory are removed, and the
/// copy is made a program that everyone may run.
pub proof fn installing_unpacks_an_archive(asset: AssetModel)
    requires
        asset.archive,
    ensures
        ({
            let m = InstallationModel { asset, stage: Stage::Download };
            let s1 = install_step(m, EventModel::Done);
            let s2 = install_step(s1.next, EventModel::Found);
            let s3 = install_step(s2.next, EventModel::Done);
            let s4 = install_step(s3.next, EventModel::Done);
            let s5 = install_step(s4.next, EventModel::Found);
            let s6 = install_step(s5.next, EventModel::Done);
            let s7 = install_step(s6.next, EventModel::Done);
            &&& just(s1, ActionModel::FindCommand("tar"@))
            &&& just(s2, ActionModel::MakeDirectory(InstallFile::Scratch))
            &&& just(
                s3,
                ActionModel::Run(
                    "tar"@,
                    seq![
                        PieceModel::Text("-xzf"@),
                        PieceModel::File(InstallFile::Download),
                        PieceModel::Text("-C"@),
                        PieceModel::File(InstallFile::Scratch),
                    ],
                ),
            )
            &&& just(s4, ActionModel::FindFile(InstallFile::Scratch, "cloudflared"@))
            &&& just(s5, ActionModel::Remove(InstallFile::Destination))
            &&& just(s6, ActionModel::Copy(InstallFile::Unpacked, InstallFile::Destination))
            &&& s7.remove_download && s7.remove_scratch
            &&& makes_a_program(s7)
        }),
{
}

/// An installation gives up exactly if something was missing, failed or could not be done; if it
/// could not be done, the message ends in the reason. What was downloaded is removed where a command
/// failed or where nothing is there to unpack it, and what was unpacked where unpacking failed.
pub proof fn setbacks_end_an_installation(m: InstallationModel, event: EventModel)
    requires
        answers(m.stage, event),
    ensures
        install_step(m, event).action is Fail <==> !(event is Done || event is Found),
        install_step(m, event).action matches ActionModel::Fail(message) ==> message.len() > 0 && (
        event matches EventModel::Error(e) ==> (message.last() matches PieceModel::Text(text)
            && text.len() >= e.len() && text.skip(text.len() - e.len()) == e)),
        !(event is Done || event is Found) ==> {
            let step = install_step(m, event);
            &&& step.remove_download <==> event is Failed || (m.stage is Unpacker
                && event is Missing)
            &&& step.remove_scratch <==> m.stage is Unpacked && event is Failed
            &&& step.next == m
        },
{
    if let EventModel::Error(e) = event {
        assert((": "@ + e).skip((": "@ + e).len() - e.len()) =~= e);
        let curl = "failed to run curl: "@ + e;
        let tar = "failed to run tar: "@ + e;
        assert(curl.skip(curl.len() - e.len()) =~= e);
        assert(tar.skip(tar.len() - e.len()) =~= e);
    }
}

} // verus!
