//! The folder chooser: the app asks for one, the event loop that owns the
//! window opens it, and the folder picked is handed back to the app once.

use vstd::prelude::*;
use crate::strs::contains_char;

verus! {

/// Whether the app has asked for a folder chooser the event loop has not
/// opened yet.
#[derive(Debug)]
pub struct FolderRequest {
    requested: bool,
}

impl FolderRequest {
    /// Whether a chooser is asked for.
    pub closed spec fn view(&self) -> bool {
        self.requested
    }
}

impl Default for FolderRequest {
    /// No chooser asked for.
    fn default() -> (r: FolderRequest)
        ensures
            !r@,
    {
        FolderRequest { requested: false }
    }
}

/// Asks for a chooser.
pub fn request_open_folder(request: &mut FolderRequest)
    ensures
        final(request)@,
{
    request.requested = true;
}

/// Whether a chooser was asked for since the last call; the request is
/// consumed.
pub fn take_request(request: &mut FolderRequest) -> (asked: bool)
    ensures
        asked == old(request)@,
        !final(request)@,
{
    let asked = request.requested;
    request.requested = false;
    asked
}

/// The folder picked and not yet handed to the app.
#[derive(Debug)]
pub struct PickedFolder {
    picked: Option<String>,
}

impl PickedFolder {
    /// The path waiting for the app.
    pub closed spec fn view(&self) -> Option<Seq<char>> {
        match self.picked {
            Some(p) => Some(p@),
            None => None,
        }
    }
}

impl Default for PickedFolder {
    /// No path waiting.
    fn default() -> (p: PickedFolder)
        ensures
            p.view() is None,
    {
        PickedFolder { picked: None }
    }
}

/// What a chooser's answer leaves for the app: the path, unless the
/// chooser was dismissed or the path cannot be handed over as a C string
/// because it holds a NUL.
pub open spec fn stored_path(path: Option<Seq<char>>) -> Option<Seq<char>> {
    match path {
        Some(p) => if p.contains('\0') {
            None
        } else {
            Some(p)
        },
        None => None,
    }
}

/// A picked path that can be handed over is handed over unchanged, and a
/// dismissed chooser leaves nothing.
pub proof fn law_picked_path_is_kept(p: Seq<char>)
    ensures
        !p.contains('\0') ==> stored_path(Some(p)) == Some(p),
        stored_path(None) is None,
{
}

/// Records the chooser's answer, replacing one not yet taken.
pub fn store_picked(slot: &mut PickedFolder, path: Option<String>)
    ensures
        final(slot)@ == stored_path(crate::project::owned_view(path)),
{
    let value = match path {
        Some(p) => {
            if contains_char(p.as_str(), '\0') {
                None
            } else {
                Some(p)
            }
        },
        None => None,
    };
    slot.picked = value;
}

/// The folder picked since the last call, exactly once.
pub fn take_picked(slot: &mut PickedFolder) -> (r: Option<String>)
    ensures
        crate::project::owned_view(r) == old(slot)@,
        final(slot)@ is None,
{
    let r = slot.picked.take();
    r
}

} // verus!
