//! Changes to single acts of the registry: position, name and description,
//! the checked mark and the song.
//!
//! Each change reaches every act with the given identifier and succeeds
//! whether or not there is one.

use crate::auth::Auth;
use crate::http_server::{HttpError, HttpErrorView, BAD_REQUEST, FORBIDDEN};
use crate::registry::{ActView, Registry, RegistryView};
use crate::system_status::Capabilities;
use crate::timeplan::text;
use vstd::prelude::*;

verus! {

/// What is submitted to set the position of an act.
#[derive(Clone, Debug, PartialEq, Eq)]
pub struct ActOrderBody {
    pub act_id: u128,
    pub order: Option<i64>,
}

/// The answer to a position set.
#[derive(Clone, Debug, PartialEq, Eq)]
pub struct SetActOrderResponse {}

/// What is submitted to edit an act.
#[derive(Clone, Debug, PartialEq, Eq)]
pub struct EditClubActBody {
    pub id: u128,
    pub name: String,
    pub description: Option<String>,
}

/// The answer to an edited act.
#[derive(Clone, Debug, PartialEq, Eq)]
pub struct EditClubActResponse {}

/// What is submitted to mark the song of an act as checked or not.
#[derive(Clone, Debug, PartialEq, Eq)]
pub struct SongCheckedBody {
    pub act_id: u128,
    pub checked: bool,
}

/// The answer to a checked mark set.
#[derive(Clone, Debug, PartialEq, Eq)]
pub struct SetSongCheckedResponse {}

/// The act whose song is uploaded.
#[derive(Clone, Debug, PartialEq, Eq)]
pub struct SaveActSongQuery {
    pub act_id: u128,
}

/// The answer to a saved song.
#[derive(Clone, Debug, PartialEq, Eq)]
pub struct SaveActSongResponse {}

/// The two names of an uploaded song: the one under which it was uploaded
/// and the one under which it is stored.
#[derive(Clone, Debug, PartialEq, Eq)]
pub struct SongFiles {
    pub file_name: String,
    pub save_file_name: String,
}

/// The acts with `change` applied to every act of the identifier `id`.
pub open spec fn changed(acts: Seq<ActView>, id: u128, change: spec_fn(ActView) -> ActView) -> Seq<
    ActView,
> {
    Seq::new(
        acts.len(),
        |k: int|
            if acts[k].id == id {
                change(acts[k])
            } else {
                acts[k]
            },
    )
}

/// The act at another position.
pub open spec fn with_order(order: Option<i64>) -> spec_fn(ActView) -> ActView {
    |a: ActView| ActView { order: order, ..a }
}

/// The act with another name and description.
pub open spec fn with_text(name: Seq<char>, description: Option<Seq<char>>) -> spec_fn(
    ActView,
) -> ActView {
    |a: ActView| ActView { name: name, description: description, ..a }
}

/// The act with its song marked as checked or not.
pub open spec fn with_checked(checked: bool) -> spec_fn(ActView) -> ActView {
    |a: ActView| ActView { song_checked: checked, ..a }
}

/// The act with the two names of its song.
pub open spec fn with_song(file_name: Seq<char>, save_file_name: Seq<char>) -> spec_fn(
    ActView,
) -> ActView {
    |a: ActView| ActView { song_file_name: Some(file_name), song_file: Some(save_file_name), ..a }
}

/// The registry with other acts.
pub open spec fn with_acts(reg: RegistryView, acts: Seq<ActView>) -> RegistryView {
    RegistryView { acts: acts, ..reg }
}

/// Sets the position of an act in its category. Only an administrator may.
pub fn set_act_order(db: &mut Registry, auth: &Auth, body: ActOrderBody) -> (res: Result<
    SetActOrderResponse,
    HttpError,
>)
    ensures
        !auth.is_admin ==> res is Err && res.unwrap_err()@ == HttpErrorView::StatusCode(FORBIDDEN)
            && final(db)@ == old(db)@,
        auth.is_admin ==> res is Ok && final(db)@ == with_acts(
            old(db)@,
            changed(old(db)@.acts, body.act_id, with_order(body.order)),
        ),
{
    if !auth.is_admin() {
        return Err(HttpError::StatusCode(FORBIDDEN));
    }
    let mut k: usize = 0;
    while k < db.acts.len()
        invariant
            k <= db.acts.len(),
            db.acts@.len() == old(db).acts@.len(),
            db.starters == old(db).starters,
            forall|m: int|
                0 <= m < k ==> (#[trigger] db.acts@[m])@ == changed(
                    old(db)@.acts,
                    body.act_id,
                    with_order(body.order),
                )[m],
            forall|m: int| k <= m < db.acts@.len() ==> #[trigger] db.acts@[m] == old(db).acts@[m],
        decreases db.acts.len() - k,
    {
        if db.acts[k].id == body.act_id {
            db.acts[k].order = body.order;
        }
        k = k + 1;
    }
    assert(db@.acts =~= changed(old(db)@.acts, body.act_id, with_order(body.order)));
    assert(db@.starters =~= old(db)@.starters);
    Ok(SetActOrderResponse {  })
}

/// Gives an act a name and a description. Allowed while music may be
/// uploaded.
pub fn edit_club_act(db: &mut Registry, capabilities: &Capabilities, body: EditClubActBody) -> (res:
    Result<EditClubActResponse, HttpError>)
    ensures
        !capabilities.can_upload_music ==> res is Err && res.unwrap_err()@
            == HttpErrorView::StatusCode(FORBIDDEN) && final(db)@ == old(db)@,
        capabilities.can_upload_music ==> res is Ok && final(db)@ == with_acts(
            old(db)@,
            changed(old(db)@.acts, body.id, with_text(body.name@, text(body.description))),
        ),
{
    if !capabilities.can_upload_music {
        return Err(HttpError::StatusCode(FORBIDDEN));
    }
    let mut k: usize = 0;
    while k < db.acts.len()
        invariant
            k <= db.acts.len(),
            db.acts@.len() == old(db).acts@.len(),
            db.starters == old(db).starters,
            forall|m: int|
                0 <= m < k ==> (#[trigger] db.acts@[m])@ == changed(
                    old(db)@.acts,
                    body.id,
                    with_text(body.name@, text(body.description)),
                )[m],
            forall|m: int| k <= m < db.acts@.len() ==> #[trigger] db.acts@[m] == old(db).acts@[m],
        decreases db.acts.len() - k,
    {
        if db.acts[k].id == body.id {
            db.acts[k].name = body.name.clone();
            db.acts[k].description = match &body.description {
                Some(d) => Some(d.clone()),
                None => None,
            };
        }
        k = k + 1;
    }
    assert(db@.acts =~= changed(
        old(db)@.acts,
        body.id,
        with_text(body.name@, text(body.description)),
    ));
    assert(db@.starters =~= old(db)@.starters);
    Ok(EditClubActResponse {  })
}

/// Marks the song of an act as checked or not. Only an administrator may.
pub fn set_song_checked(db: &mut Registry, auth: &Auth, body: SongCheckedBody) -> (res: Result<
    SetSongCheckedResponse,
    HttpError,
>)
    ensures
        !auth.is_admin ==> res is Err && res.unwrap_err()@ == HttpErrorView::StatusCode(FORBIDDEN)
            && final(db)@ == old(db)@,
        auth.is_admin ==> res is Ok && final(db)@ == with_acts(
            old(db)@,
            changed(old(db)@.acts, body.act_id, with_checked(body.checked)),
        ),
{
    if !auth.is_admin() {
        return Err(HttpError::StatusCode(FORBIDDEN));
    }
    let mut k: usize = 0;
    while k < db.acts.len()
        invariant
            k <= db.acts.len(),
            db.acts@.len() == old(db).acts@.len(),
            db.starters == old(db).starters,
            forall|m: int|
                0 <= m < k ==> (#[trigger] db.acts@[m])@ == changed(
                    old(db)@.acts,
                    body.act_id,
                    with_checked(body.checked),
                )[m],
            forall|m: int| k <= m < db.acts@.len() ==> #[trigger] db.acts@[m] == old(db).acts@[m],
        decreases db.acts.len() - k,
    {
        if db.acts[k].id == body.act_id {
            db.acts[k].song_checked = body.checked;
        }
        k = k + 1;
    }
    assert(db@.acts =~= changed(old(db)@.acts, body.act_id, with_checked(body.checked)));
    assert(db@.starters =~= old(db)@.starters);
    Ok(SetSongCheckedResponse {  })
}

/// The text of the UUID with the 128-bit value `id`, as `uuid::Uuid` displays
/// it: lower-case hexadecimal digits in five hyphenated groups.
pub uninterp spec fn hyphenated(id: u128) -> Seq<char>;

/// Makes the UUID of the value `id` with `uuid::Uuid::from_u128` and renders it
/// with `to_string`; the result is named, nothing more is claimed of it.
#[verifier::external_body]
fn uuid_text(id: u128) -> (r: String)
    ensures
        r@ == hyphenated(id),
{
    uuid::Uuid::from_u128(id).to_string()
}

/// Calls `std::path::Path::extension` on the file name and takes the text of
/// what it returns. How a path is taken apart depends on the platform;
/// nothing is claimed of the result.
#[verifier::external_body]
fn extension_of(file_name: &str) -> Option<String> {
    std::path::Path::new(file_name).extension().map(|e| e.to_string_lossy().into_owned())
}

/// The name under which the song of an act is stored: the identifier of the
/// act, a dot and the extension.
pub open spec fn stored_name(act_id: u128, extension: Seq<char>) -> Seq<char> {
    hyphenated(act_id) + seq!['.'] + extension
}

/// The name under which the song of the act is stored, given the extension of
/// the uploaded file. A file without an extension is a bad request.
pub fn song_file_for(act_id: u128, extension: Option<String>) -> (res: Result<String, HttpError>)
    ensures
        match extension {
            Some(e) => res is Ok && res.unwrap()@ == stored_name(act_id, e@),
            None => res is Err && res.unwrap_err()@ == HttpErrorView::StatusCode(BAD_REQUEST),
        },
{
    match extension {
        Some(e) => {
            let mut name = uuid_text(act_id);
            name.append(".");
            name.append(e.as_str());
            proof {
                reveal_strlit(".");
                assert("."@ =~= seq!['.']);
            }
            Ok(name)
        },
        None => Err(HttpError::StatusCode(BAD_REQUEST)),
    }
}

/// The two names of an uploaded song. An upload without a file name, or with
/// one that has no extension, is a bad request.
pub fn name_song(query: &SaveActSongQuery, file_name: Option<String>) -> (res: Result<
    SongFiles,
    HttpError,
>)
    ensures
        file_name is None ==> res is Err,
        res matches Err(e) ==> e@ == HttpErrorView::StatusCode(BAD_REQUEST),
        res matches Ok(files) ==> file_name is Some && files.file_name@ == file_name.unwrap()@
            && exists|extension: Seq<char>|
            files.save_file_name@ == #[trigger] stored_name(query.act_id, extension),
{
    let file_name = match file_name {
        Some(f) => f,
        None => {
            return Err(HttpError::StatusCode(BAD_REQUEST));
        },
    };
    let extension = extension_of(file_name.as_str());
    let ghost found = extension;
    match song_file_for(query.act_id, extension) {
        Ok(save_file_name) => {
            assert(save_file_name@ == stored_name(query.act_id, found.unwrap()@));
            Ok(SongFiles { file_name, save_file_name })
        },
        Err(e) => Err(e),
    }
}

/// Records the two names of the uploaded song with the act.
pub fn save_act_song(db: &mut Registry, query: SaveActSongQuery, files: SongFiles) -> (res:
    SaveActSongResponse)
    ensures
        final(db)@ == with_acts(
            old(db)@,
            changed(
                old(db)@.acts,
                query.act_id,
                with_song(files.file_name@, files.save_file_name@),
            ),
        ),
{
    let mut k: usize = 0;
    while k < db.acts.len()
        invariant
            k <= db.acts.len(),
            db.acts@.len() == old(db).acts@.len(),
            db.starters == old(db).starters,
            forall|m: int|
                0 <= m < k ==> (#[trigger] db.acts@[m])@ == changed(
                    old(db)@.acts,
                    query.act_id,
                    with_song(files.file_name@, files.save_file_name@),
                )[m],
            forall|m: int| k <= m < db.acts@.len() ==> #[trigger] db.acts@[m] == old(db).acts@[m],
        decreases db.acts.len() - k,
    {
        if db.acts[k].id == query.act_id {
            db.acts[k].song_file_name = Some(files.file_name.clone());
            db.acts[k].song_file = Some(files.save_file_name.clone());
        }
        k = k + 1;
    }
    assert(db@.acts =~= changed(
        old(db)@.acts,
        query.act_id,
        with_song(files.file_name@, files.save_file_name@),
    ));
    assert(db@.starters =~= old(db)@.starters);
    SaveActSongResponse {  }
}

} // verus!
