use localtoglobal::deps::{
    binary_name, cloudflared_asset, cloudflared_asset_for, command_candidates, command_path,
    ensure_cloudflared, install_notice, managed_bin_dir, managed_cloudflared_path,
    validate_cloudflared, CommandFile, Located, TrialRun, TunnelProgram,
};
use localtoglobal::install::{
    download_cloudflared, download_place, scratch_place, InstallAction, InstallEvent, InstallStep,
    Piece,
};
use std::path::Path;

#[test]
fn maps_supported_cloudflared_assets() {
    assert_eq!(
        cloudflared_asset_for("macos", "aarch64").unwrap().name,
        "cloudflared-darwin-arm64.tgz"
    );
    assert_eq!(
        cloudflared_asset_for("macos", "x86_64").unwrap().name,
        "cloudflared-darwin-amd64.tgz"
    );
    assert_eq!(
        cloudflared_asset_for("linux", "aarch64").unwrap().name,
        "cloudflared-linux-arm64"
    );
    assert_eq!(
        cloudflared_asset_for("linux", "x86_64").unwrap().name,
        "cloudflared-linux-amd64"
    );
}

#[test]
fn assets_have_their_urls() {
    let asset = cloudflared_asset_for("linux", "x86_64").unwrap();
    assert_eq!(
        asset.url,
        "https://github.com/cloudflare/cloudflared/releases/latest/download/cloudflared-linux-amd64"
    );
    assert!(!asset.archive);
    assert!(cloudflared_asset_for("macos", "x86_64").unwrap().archive);
    assert_eq!(cloudflared_asset_for("windows", "x86_64"), None);
    assert_eq!(cloudflared_asset("linux", "x86_64"), Ok(asset));
    assert_eq!(
        cloudflared_asset("plan9", "mips").unwrap_err(),
        "automatic cloudflared install is not supported on plan9 mips; install cloudflared manually or set LTG_CLOUDFLARED_PATH"
    );
}

fn texts(list: &[&str]) -> Vec<String> {
    list.iter().map(|s| s.to_string()).collect()
}

#[test]
fn looks_for_commands() {
    assert_eq!(binary_name("curl", false), "curl");
    assert_eq!(binary_name("curl", true), "curl.exe");
    let dirs = [Path::new("bin"), Path::new("")];
    let places = command_candidates("curl", &dirs, false);
    assert_eq!(places.len(), 2);
    assert_eq!((places[0].base, places[1].base), (dirs[0], dirs[1]));
    assert_eq!((&places[0].below, &places[1].below), (&texts(&["curl"]), &texts(&["curl"])));
    assert_eq!(command_candidates("curl", &dirs, true)[0].below, texts(&["curl.exe"]));
}

#[test]
fn takes_the_first_command_that_is_there() {
    assert_eq!(command_path(1, true, &[false, true, true]), Some(CommandFile::Candidate(1)));
    assert_eq!(command_path(2, true, &[true]), Some(CommandFile::Itself));
    assert_eq!(command_path(2, false, &[true]), Some(CommandFile::Candidate(0)));
    assert_eq!(command_path(2, false, &[false]), None);
    assert_eq!(command_path(1, true, &[]), None);
}

#[test]
fn chooses_the_directory_for_programs() {
    let place = managed_bin_dir(Some("/l"), Some("/x"), Some("/h")).unwrap();
    assert_eq!((place.base, place.below), ("/l", texts(&["bin"])));
    let place = managed_bin_dir(None, Some("/x"), Some("/h")).unwrap();
    assert_eq!((place.base, place.below), ("/x", texts(&["localtoglobal", "bin"])));
    let place = managed_bin_dir(None, None, Some("/h")).unwrap();
    assert_eq!((place.base, &place.below), ("/h", &texts(&[".local", "share", "localtoglobal", "bin"])));
    let place = managed_cloudflared_path(place, true);
    assert_eq!(
        (place.base, place.below),
        ("/h", texts(&[".local", "share", "localtoglobal", "bin", "cloudflared.exe"]))
    );
    let nothing: Option<&str> = None;
    assert_eq!(
        managed_bin_dir(nothing, None, None).unwrap_err(),
        "HOME is not set; cannot choose a directory for managed dependencies"
    );
}

fn named(present: bool) -> Option<Located> {
    Some(Located { path: "/n".to_string(), present })
}

#[test]
fn chooses_the_tunnel_program() {
    assert!(matches!(
        ensure_cloudflared(named(true), true, Ok(false), "linux", "x86_64"),
        Ok(TunnelProgram::Named)
    ));
    assert_eq!(
        ensure_cloudflared(named(false), true, Ok(false), "linux", "x86_64").unwrap_err(),
        "LTG_CLOUDFLARED_PATH points to /n, but that file does not exist"
    );
    assert!(matches!(
        ensure_cloudflared(None, true, Err("no".to_string()), "linux", "x86_64"),
        Ok(TunnelProgram::OnPath)
    ));
    assert_eq!(
        ensure_cloudflared(None, false, Err("no".to_string()), "linux", "x86_64").unwrap_err(),
        "no"
    );
    assert!(matches!(
        ensure_cloudflared(None, false, Ok(true), "plan9", "x86_64"),
        Ok(TunnelProgram::Managed)
    ));
    assert!(matches!(
        ensure_cloudflared(None, false, Ok(false), "linux", "x86_64"),
        Ok(TunnelProgram::Install(asset)) if asset.name == "cloudflared-linux-amd64"
    ));
    assert_eq!(
        ensure_cloudflared(None, false, Ok(false), "plan9", "x86_64").unwrap_err(),
        "automatic cloudflared install is not supported on plan9 x86_64; install cloudflared manually or set LTG_CLOUDFLARED_PATH"
    );
}

#[test]
fn announces_an_installation() {
    let asset = cloudflared_asset_for("linux", "aarch64").unwrap();
    assert_eq!(
        install_notice(&asset),
        texts(&["cloudflared not found; installing managed copy...", "Downloading cloudflared-linux-arm64"])
    );
}

#[test]
fn tries_a_program_out() {
    assert_eq!(validate_cloudflared("/c", &TrialRun::Ended(true)), Ok(()));
    assert_eq!(
        validate_cloudflared("/c", &TrialRun::Ended(false)).unwrap_err(),
        "/c exists but did not run successfully"
    );
    assert_eq!(
        validate_cloudflared("/c", &TrialRun::NotStarted("denied".to_string())).unwrap_err(),
        "failed to run /c --version: denied"
    );
}

/// Pieces with every file by its name in angle brackets.
fn shown(pieces: &[Piece]) -> Vec<String> {
    pieces
        .iter()
        .map(|piece| match piece {
            Piece::Text(text) => text.clone(),
            Piece::File(file) => format!("<{:?}>", file),
        })
        .collect()
}

fn described(action: &InstallAction) -> String {
    match action {
        InstallAction::MakeDirectory(dir) => format!("mkdir {:?}", dir),
        InstallAction::FindCommand(name) => format!("which {}", name),
        InstallAction::Run(name, args) => format!("{} {}", name, shown(args).join(" ")),
        InstallAction::FindFile(dir, name) => format!("find {:?} {}", dir, name),
        InstallAction::Remove(file) => format!("rm {:?}", file),
        InstallAction::Copy(from, to) => format!("cp {:?} {:?}", from, to),
        InstallAction::ReadPermissions(file) => format!("stat {:?}", file),
        InstallAction::SetPermissions(file, mode) => format!("chmod {:o} {:?}", mode, file),
        InstallAction::Finish => "finish".to_string(),
        InstallAction::Fail(message) => shown(message).concat(),
    }
}

fn run_through(os: &str, events: Vec<InstallEvent>) -> (Vec<String>, InstallStep) {
    let asset = cloudflared_asset_for(os, "x86_64").unwrap();
    let mut step = download_cloudflared(asset, true).unwrap();
    let mut actions = vec![described(&step.action)];
    for event in events {
        step = step.next.advance(event);
        actions.push(described(&step.action));
    }
    (actions, step)
}

#[test]
fn installs_a_plain_program() {
    let (actions, step) = run_through(
        "linux",
        vec![
            InstallEvent::Done,
            InstallEvent::Found,
            InstallEvent::Done,
            InstallEvent::Done,
            InstallEvent::Done,
        ],
    );
    assert_eq!(
        actions,
        texts(&[
            "mkdir Directory",
            "which curl",
            "curl -fL --retry 3 --connect-timeout 20 -o <Download> https://github.com/cloudflare/cloudflared/releases/latest/download/cloudflared-linux-amd64",
            "rm Destination",
            "cp Download Destination",
            "stat Destination",
        ])
    );
    assert!(step.remove_download && !step.remove_scratch);
    let step = step.next.advance(InstallEvent::Done);
    assert_eq!(described(&step.action), "chmod 755 Destination");
    assert!(!step.remove_download);
    let step = step.next.advance(InstallEvent::Done);
    assert!(matches!(step.action, InstallAction::Finish));
}

#[test]
fn installs_an_archive() {
    let (actions, step) = run_through(
        "macos",
        vec![
            InstallEvent::Done,
            InstallEvent::Found,
            InstallEvent::Done,
            InstallEvent::Found,
            InstallEvent::Done,
            InstallEvent::Done,
            InstallEvent::Found,
            InstallEvent::Done,
            InstallEvent::Done,
        ],
    );
    assert_eq!(
        actions[3..],
        texts(&[
            "which tar",
            "mkdir Scratch",
            "tar -xzf <Download> -C <Scratch>",
            "find Scratch cloudflared",
            "rm Destination",
            "cp Unpacked Destination",
            "stat Destination",
        ])
    );
    assert!(step.remove_download && step.remove_scratch);
}

#[test]
fn keeps_the_download_beside_the_program() {
    let asset = cloudflared_asset_for("macos", "aarch64").unwrap();
    let place = download_place(Path::new("bin"), &asset);
    assert_eq!(place.base, Path::new("bin"));
    assert_eq!(place.below, texts(&[".cloudflared-darwin-arm64.tgz.download"]));
    let place = scratch_place("bin", 77);
    assert_eq!((place.base, place.below), ("bin", texts(&[".cloudflared-77"])));
}

#[test]
fn an_installation_may_fail_at_each_step() {
    let error = || InstallEvent::Error("why".to_string());
    let done = || InstallEvent::Done;
    let found = || InstallEvent::Found;
    let fails = |os: &str, events: Vec<InstallEvent>| {
        let (actions, step) = run_through(os, events);
        assert!(matches!(step.action, InstallAction::Fail(_)));
        (actions[actions.len() - 1].clone(), step.remove_download, step.remove_scratch)
    };
    let kept = |message: &str| (message.to_string(), false, false);
    let removed = |message: &str| (message.to_string(), true, false);
    assert_eq!(fails("linux", vec![error()]), kept("failed to create <Directory>: why"));
    assert_eq!(
        fails("linux", vec![done(), InstallEvent::Missing]),
        kept("curl is required to download managed cloudflared")
    );
    assert_eq!(fails("linux", vec![done(), found(), error()]), kept("failed to run curl: why"));
    assert_eq!(
        fails("linux", vec![done(), found(), InstallEvent::Failed]),
        removed("failed to download https://github.com/cloudflare/cloudflared/releases/latest/download/cloudflared-linux-amd64")
    );
    assert_eq!(
        fails("linux", vec![done(), found(), done(), error()]),
        kept("failed to replace <Destination>: why")
    );
    assert_eq!(
        fails("linux", vec![done(), found(), done(), done(), error()]),
        kept("failed to install <Download> to <Destination>: why")
    );
    assert_eq!(
        fails("linux", vec![done(), found(), done(), done(), done(), error()]),
        kept("failed to inspect <Destination>: why")
    );
    assert_eq!(
        fails("linux", vec![done(), found(), done(), done(), done(), done(), error()]),
        kept("failed to chmod <Destination>: why")
    );
    assert_eq!(
        fails("macos", vec![done(), found(), done(), InstallEvent::Missing]),
        removed("tar is required to unpack cloudflared on macOS")
    );
    assert_eq!(
        fails("macos", vec![done(), found(), done(), found(), error()]),
        kept("failed to create <Scratch>: why")
    );
    assert_eq!(
        fails("macos", vec![done(), found(), done(), found(), done(), error()]),
        kept("failed to run tar: why")
    );
    assert_eq!(
        fails("macos", vec![done(), found(), done(), found(), done(), InstallEvent::Failed]),
        ("failed to unpack <Download>".to_string(), true, true)
    );
    assert_eq!(
        fails("macos", vec![done(), found(), done(), found(), done(), done(), InstallEvent::Missing]),
        kept("cloudflared archive did not contain a cloudflared binary")
    );
}

#[test]
fn a_program_needs_a_directory() {
    let asset = cloudflared_asset_for("linux", "x86_64").unwrap();
    let message = download_cloudflared(asset, false).unwrap_err();
    assert_eq!(shown(&message).concat(), "invalid cloudflared destination <Destination>");
}
