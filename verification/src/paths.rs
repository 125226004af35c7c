//! The files of a project, and of the tool, as names below a base.
use crate::text::chars;
use crate::text::chars::chars_of;
use crate::text::class;
use crate::text::class::{split_by, CharClass};
use crate::text::laws;
use vstd::prelude::*;

verus! {

/// A file or directory: the one that is reached from a base by joining these names to it, one
/// after the other. How a base is written, and how names are joined to it, is the platform's.
#[derive(Debug)]
pub struct Place<P> {
    pub base: P,
    pub below: Vec<String>,
}

impl<P> View for Place<P> {
    type V = (P, Seq<Seq<char>>);

    open spec fn view(&self) -> (P, Seq<Seq<char>>) {
        (self.base, chars::texts(self.below@))
    }
}

/// One name below a base.
pub fn one_below<P>(base: P, name: String) -> (r: Place<P>)
    ensures
        r@ == (base, seq![name@]),
{
    let below = vec![name];
    assert(chars::texts(below@) =~= seq![name@]);
    Place { base, below }
}

/// Another name below a place.
pub fn below<P>(place: Place<P>, name: String) -> (r: Place<P>)
    ensures
        r@ == (place@.0, place@.1.push(name@)),
{
    let ghost before = place.below@;
    let mut below = place.below;
    below.push(name);
    assert(chars::texts(below@) =~= chars::texts(before).push(name@));
    Place { base: place.base, below }
}

/// The names of the directory for the states of a project's shares, below the project.
pub open spec fn state_names() -> Seq<Seq<char>> {
    seq![".localtoglobal"@, "state"@]
}

/// The names of the directory for the logs of a project's shares, below the project.
pub open spec fn log_names() -> Seq<Seq<char>> {
    seq![".localtoglobal"@, "logs"@]
}

/// The directory for the states of a project's shares.
pub fn state_dir<P>(project_root: P) -> (r: Place<P>)
    ensures
        r@ == (project_root, state_names()),
{
    let r = below(one_below(project_root, ".localtoglobal".to_owned()), "state".to_owned());
    assert(r@.1 =~= state_names());
    r
}

/// The directory for the logs of a project's shares.
pub fn logs_dir<P>(project_root: P) -> (r: Place<P>)
    ensures
        r@ == (project_root, log_names()),
{
    let r = below(one_below(project_root, ".localtoglobal".to_owned()), "logs".to_owned());
    assert(r@.1 =~= log_names());
    r
}

/// The file that the state of a share is kept in.
pub fn state_path<P>(project_root: P, share_id: &str) -> (r: Place<P>)
    ensures
        r@ == (project_root, state_names().push(share_id@ + ".state"@)),
{
    below(state_dir(project_root), share_id.to_owned().concat(".state"))
}

/// The file that the output of a share's worker goes to.
pub fn runner_log_path<P>(project_root: P, share_id: &str) -> (r: Place<P>)
    ensures
        r@ == (project_root, log_names().push(share_id@ + ".runner.log"@)),
{
    below(logs_dir(project_root), share_id.to_owned().concat(".runner.log"))
}

/// The file that the requests to a share are logged in.
pub fn access_log_path<P>(project_root: P, share_id: &str) -> (r: Place<P>)
    ensures
        r@ == (project_root, log_names().push(share_id@ + ".access.log"@)),
{
    below(logs_dir(project_root), share_id.to_owned().concat(".access.log"))
}

/// The file that the output of a share's tunnel goes to.
pub fn tunnel_log_path<P>(project_root: P, share_id: &str) -> (r: Place<P>)
    ensures
        r@ == (project_root, log_names().push(share_id@ + ".cloudflared.log"@)),
{
    below(logs_dir(project_root), share_id.to_owned().concat(".cloudflared.log"))
}

/// Whether a file's name ends in the extension of state files and has something before it.
pub open spec fn names_state_file(name: Seq<char>) -> bool {
    let parts = class::split(name, CharClass::Char('.'));
    parts.len() > 1 && parts.last() == "state"@ && name.len() > "state"@.len() + 1
}

/// Whether a file's name is that of a state file.
pub fn is_state_file(name: &str) -> (r: bool)
    ensures
        r == names_state_file(name@),
{
    proof {
        reveal_strlit("state");
    }
    let parts = split_by(name, CharClass::Char('.'));
    let n = parts.len();
    let ghost texts = chars::texts(parts@);
    if n > 1 {
        assert(texts.last() == parts@[n - 1]@);
        chars::same(parts[n - 1].as_str(), "state") && chars_of(name).len() > 6
    } else {
        false
    }
}

/// The states and the logs of a project are kept apart, in directories of their own within the hidden
/// directory of the project, and so are the files of different shares.
pub proof fn runtime_files_differ(id: Seq<char>, other: Seq<char>, ending: Seq<char>)
    ensures
        state_names() != log_names(),
        state_names().len() == 2 && state_names()[0] == ".localtoglobal"@ && state_names()[1]
            == "state"@,
        log_names().len() == 2 && log_names()[0] == ".localtoglobal"@ && log_names()[1] == "logs"@,
        id + ending == other + ending <==> id == other,
{
    reveal_strlit("state");
    reveal_strlit("logs");
    assert(state_names()[1] == "state"@);
    assert(log_names()[1] == "logs"@);
    assert("state"@.len() != "logs"@.len());
    if id + ending == other + ending {
        assert((id + ending).take(id.len() as int) =~= id);
        assert((other + ending).take(other.len() as int) =~= other);
        assert(id.len() + ending.len() == other.len() + ending.len());
    }
}

/// The state of a share that was recorded is found again: its file is a state file.
pub proof fn recorded_states_are_found(share_id: Seq<char>)
    requires
        share_id.len() > 0,
    ensures
        names_state_file(share_id + ".state"@),
{
    reveal_strlit(".state");
    reveal_strlit("state");
    let name = share_id + seq!['.'] + "state"@;
    assert(share_id + ".state"@ =~= name);
    laws::split_appended(share_id, '.', "state"@);
    assert(laws::lacks("state"@, '.'));
    laws::split_whole("state"@, '.');
    let parts = class::split(name, CharClass::Char('.'));
    assert(parts.last() == "state"@);
    assert(class::split(share_id, CharClass::Char('.')).len() > 0);
}

} // verus!
