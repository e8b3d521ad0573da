//! The photos of each session, and where each of them stands.
//!
//! A photo enters the table once for a session, under its file name. Its
//! status follows its upload, and a session counts what was sent and what
//! failed.

use crate::horloge;
use crate::texte;
use vstd::prelude::*;

verus! {

// ─── Where the data is kept ────────────────────────────────────────────

/// The directory of the production edition.
pub const DOSSIER_DONNEES: &'static str = "com.attimo-gallery.agent";

/// The lower case of a text, in the sense of Unicode.
pub uninterp spec fn bas_de_casse(s: Seq<char>) -> Seq<char>;

/// `str::to_lowercase` of std: a text in lower case, in the sense of Unicode.
#[verifier::external_body]
fn en_bas_de_casse(s: &str) -> (r: String)
    ensures
        r@ == bas_de_casse(s@),
{
    s.to_lowercase()
}

/// The directory of an edition, whose name is trimmed and in lower case: each
/// edition has its own, so that none reads the data of another.
pub open spec fn dossier_edition(edition: Seq<char>) -> Seq<char> {
    if edition.len() == 0 {
        "com.attimo-gallery.agent"@
    } else {
        "com.attimo-gallery.agent."@ + edition
    }
}

pub fn dossier_de(edition: &str) -> (r: String)
    ensures
        r@ == dossier_edition(edition@),
{
    let v = texte::caracteres(edition);
    if v.len() == 0 {
        "com.attimo-gallery.agent".to_owned()
    } else {
        texte::joindre("com.attimo-gallery.agent.", edition)
    }
}

/// The directory of the edition named when the agent was built.
pub fn dossier_donnees(edition: &str) -> (r: String)
    ensures
        r@ == dossier_edition(bas_de_casse(texte::rogne(edition@))),
{
    let nom = texte::en_texte(&texte::rogner(&texte::caracteres(edition)));
    dossier_de(en_bas_de_casse(nom.as_str()).as_str())
}

/// Two editions never share a directory.
pub proof fn loi_editions_separees(a: Seq<char>, b: Seq<char>)
    requires
        dossier_edition(a) == dossier_edition(b),
    ensures
        a == b,
{
    reveal_strlit("com.attimo-gallery.agent");
    reveal_strlit("com.attimo-gallery.agent.");
    let p = "com.attimo-gallery.agent."@;
    assert(p.len() == 25 && "com.attimo-gallery.agent"@.len() == 24);
    if a.len() > 0 && b.len() > 0 {
        assert((p + a).skip(25) =~= a);
        assert((p + b).skip(25) =~= b);
    } else if a.len() == 0 && b.len() == 0 {
        assert(a =~= b);
    }
}

/// The seconds of a reading of the clock, since the epoch.
pub fn horodater(lecture: Option<u128>) -> (r: String)
    ensures
        r@ == texte::decimal(
            match lecture {
                Some(ms) => ((ms / 1000) as u64) as nat,
                None => 0nat,
            },
        ),
{
    texte::ecrire(horloge::secondes(lecture))
}

/// The seconds since the epoch, now; see `horodater`.
pub fn chrono_now() -> (r: String)
    ensures
        exists|n: u64| r@ == texte::decimal(n as nat),
{
    let lecture = horloge::lire();
    let r = horodater(lecture);
    proof {
        let n: u64 = match lecture {
            Some(ms) => (ms / 1000) as u64,
            None => 0u64,
        };
        assert(r@ == texte::decimal(n as nat));
    }
    r
}

// ─── The tables ────────────────────────────────────────────────────────

/// Where a photo stands.
#[derive(Clone, Copy, PartialEq, Eq, Structural, Debug)]
pub enum StatutPhoto {
    Pending,
    Uploading,
    Success,
    Failed,
}

impl StatutPhoto {
    /// The name under which a status is stored.
    pub open spec fn nom(self) -> Seq<char> {
        match self {
            StatutPhoto::Pending => "pending"@,
            StatutPhoto::Uploading => "uploading"@,
            StatutPhoto::Success => "success"@,
            StatutPhoto::Failed => "failed"@,
        }
    }

    pub fn as_str(&self) -> (r: &'static str)
        ensures
            r@ == self.nom(),
    {
        match self {
            StatutPhoto::Pending => "pending",
            StatutPhoto::Uploading => "uploading",
            StatutPhoto::Success => "success",
            StatutPhoto::Failed => "failed",
        }
    }

    /// The status stored under a name.
    pub fn lire(nom: &str) -> (r: Option<Self>)
        ensures
            match r {
                Some(s) => nom@ == s.nom(),
                None => forall|s: StatutPhoto| nom@ != #[trigger] s.nom(),
            },
    {
        if texte::memes(nom, "pending") {
            Some(StatutPhoto::Pending)
        } else if texte::memes(nom, "uploading") {
            Some(StatutPhoto::Uploading)
        } else if texte::memes(nom, "success") {
            Some(StatutPhoto::Success)
        } else if texte::memes(nom, "failed") {
            Some(StatutPhoto::Failed)
        } else {
            None
        }
    }
}

/// A photo, as it is shown.
pub struct UploadFile {
    pub id: i64,
    pub session_id: i64,
    pub filename: String,
    pub file_path: String,
    pub file_size: i64,
    pub status: String,
    pub attempts: i64,
    pub last_error: Option<String>,
    pub uploaded_at: Option<String>,
    pub server_photo_id: Option<i64>,
}

/// A row of the table of photos.
pub struct LignePhoto {
    pub id: i64,
    pub session_id: i64,
    pub filename: String,
    pub file_path: String,
    pub file_size: i64,
    pub file_modified: String,
    pub status: StatutPhoto,
    pub attempts: i64,
    pub last_error: Option<String>,
    pub uploaded_at: Option<String>,
    pub server_photo_id: Option<i64>,
}

/// The view of a row of the table of photos.
#[verifier::ext_equal]
pub ghost struct PhotoVue {
    pub id: int,
    pub session_id: int,
    pub filename: Seq<char>,
    pub file_path: Seq<char>,
    pub file_size: int,
    pub file_modified: Seq<char>,
    pub status: StatutPhoto,
    pub attempts: int,
    pub last_error: Option<Seq<char>>,
    pub uploaded_at: Option<Seq<char>>,
    pub server_photo_id: Option<i64>,
}

impl View for LignePhoto {
    type V = PhotoVue;

    open spec fn view(&self) -> PhotoVue {
        PhotoVue {
            id: self.id as int,
            session_id: self.session_id as int,
            filename: self.filename@,
            file_path: self.file_path@,
            file_size: self.file_size as int,
            file_modified: self.file_modified@,
            status: self.status,
            attempts: self.attempts as int,
            last_error: texte::vue(self.last_error),
            uploaded_at: texte::vue(self.uploaded_at),
            server_photo_id: self.server_photo_id,
        }
    }
}

/// A row of the table of sessions.
pub struct LigneSession {
    pub id: i64,
    pub event_id: i64,
    pub event_name: String,
    pub checkpoint_id: Option<i64>,
    pub checkpoint_name: Option<String>,
    pub watch_folder: String,
    pub include_existing: bool,
    pub parallel_uploads: i32,
    pub started_at: String,
    pub stopped_at: Option<String>,
    pub photos_sent: i64,
    pub photos_failed: i64,
}

/// The view of a row of the table of sessions.
#[verifier::ext_equal]
pub ghost struct SessionVue {
    pub id: int,
    pub event_id: int,
    pub event_name: Seq<char>,
    pub checkpoint_id: Option<i64>,
    pub checkpoint_name: Option<Seq<char>>,
    pub watch_folder: Seq<char>,
    pub include_existing: bool,
    pub parallel_uploads: int,
    pub started_at: Seq<char>,
    pub stopped_at: Option<Seq<char>>,
    pub photos_sent: int,
    pub photos_failed: int,
}

impl View for LigneSession {
    type V = SessionVue;

    open spec fn view(&self) -> SessionVue {
        SessionVue {
            id: self.id as int,
            event_id: self.event_id as int,
            event_name: self.event_name@,
            checkpoint_id: self.checkpoint_id,
            checkpoint_name: texte::vue(self.checkpoint_name),
            watch_folder: self.watch_folder@,
            include_existing: self.include_existing,
            parallel_uploads: self.parallel_uploads as int,
            started_at: self.started_at@,
            stopped_at: texte::vue(self.stopped_at),
            photos_sent: self.photos_sent as int,
            photos_failed: self.photos_failed as int,
        }
    }
}

/// The figures of a session.
#[derive(Clone, Copy, PartialEq, Eq, Structural, Debug)]
pub struct SessionStats {
    pub total: i64,
    pub sent: i64,
    pub pending: i64,
    pub uploading: i64,
    pub failed: i64,
}

/// The two tables, their rows in the order of their numbers, and the
/// greatest number given in each.
pub struct BasePhotos {
    pub sessions: Vec<LigneSession>,
    pub photos: Vec<LignePhoto>,
    pub compteur_sessions: i64,
    pub compteur_photos: i64,
}

/// The views of the rows of a table of photos.
pub open spec fn photos_vues(v: Seq<LignePhoto>) -> Seq<PhotoVue> {
    v.map_values(|l: LignePhoto| l@)
}

/// The views of the rows of a table of sessions.
pub open spec fn sessions_vues(v: Seq<LigneSession>) -> Seq<SessionVue> {
    v.map_values(|l: LigneSession| l@)
}

/// Photos are numbered in increasing order, and no file name stands twice in
/// a session.
pub open spec fn photos_saines(s: Seq<PhotoVue>, compteur: int) -> bool {
    &&& forall|i: int|
        0 <= i < s.len() ==> 1 <= (#[trigger] s[i]).id <= compteur && s[i].attempts >= 0
    &&& forall|i: int, j: int|
        0 <= i < j < s.len() ==> (#[trigger] s[i]).id < (#[trigger] s[j]).id && !(s[i].session_id
            == s[j].session_id && s[i].filename == s[j].filename)
}

/// Sessions are numbered in increasing order.
pub open spec fn sessions_saines(s: Seq<SessionVue>, compteur: int) -> bool {
    &&& forall|i: int| 0 <= i < s.len() ==> 1 <= (#[trigger] s[i]).id <= compteur
    &&& forall|i: int, j: int|
        0 <= i < j < s.len() ==> (#[trigger] s[i]).id < (#[trigger] s[j]).id
}

impl BasePhotos {
    pub open spec fn les_photos(self) -> Seq<PhotoVue> {
        photos_vues(self.photos@)
    }

    pub open spec fn les_sessions(self) -> Seq<SessionVue> {
        sessions_vues(self.sessions@)
    }

    pub open spec fn inv(self) -> bool {
        &&& 0 <= self.compteur_photos
        &&& 0 <= self.compteur_sessions
        &&& photos_saines(self.les_photos(), self.compteur_photos as int)
        &&& sessions_saines(self.les_sessions(), self.compteur_sessions as int)
    }
}

/// Empty tables.
pub fn init_db() -> (r: BasePhotos)
    ensures
        r.inv(),
        r.les_photos() == Seq::<PhotoVue>::empty(),
        r.les_sessions() == Seq::<SessionVue>::empty(),
        r.compteur_photos == 0,
        r.compteur_sessions == 0,
{
    let r = BasePhotos {
        sessions: Vec::new(),
        photos: Vec::new(),
        compteur_sessions: 0,
        compteur_photos: 0,
    };
    assert(r.les_photos() =~= Seq::<PhotoVue>::empty());
    assert(r.les_sessions() =~= Seq::<SessionVue>::empty());
    r
}

/// Opens a session and gives its number.
pub fn create_session(
    base: &mut BasePhotos,
    event_id: i64,
    event_name: &str,
    checkpoint_id: Option<i64>,
    checkpoint_name: Option<&str>,
    watch_folder: &str,
    include_existing: bool,
    parallel_uploads: i32,
    maintenant: &str,
) -> (r: i64)
    requires
        old(base).inv(),
        old(base).compteur_sessions < i64::MAX,
    ensures
        final(base).inv(),
        r == old(base).compteur_sessions + 1,
        final(base).compteur_sessions == r,
        final(base).compteur_photos == old(base).compteur_photos,
        final(base).les_photos() == old(base).les_photos(),
        final(base).les_sessions() == old(base).les_sessions().push(
            SessionVue {
                id: r as int,
                event_id: event_id as int,
                event_name: event_name@,
                checkpoint_id,
                checkpoint_name: texte::vue_ref(checkpoint_name),
                watch_folder: watch_folder@,
                include_existing,
                parallel_uploads: parallel_uploads as int,
                started_at: maintenant@,
                stopped_at: None,
                photos_sent: 0,
                photos_failed: 0,
            },
        ),
{
    let ghost avant = base.les_sessions();
    let id: i64 = base.compteur_sessions + 1;
    let ligne = LigneSession {
        id,
        event_id,
        event_name: event_name.to_owned(),
        checkpoint_id,
        checkpoint_name: texte::retenir(checkpoint_name),
        watch_folder: watch_folder.to_owned(),
        include_existing,
        parallel_uploads,
        started_at: maintenant.to_owned(),
        stopped_at: None,
        photos_sent: 0,
        photos_failed: 0,
    };
    let ghost vue = ligne@;
    base.sessions.push(ligne);
    base.compteur_sessions = id;
    assert(base.les_sessions() =~= avant.push(vue));
    id
}

/// A session is open under this number.
pub open spec fn session_connue(s: Seq<SessionVue>, id: int) -> bool {
    exists|i: int| 0 <= i < s.len() && (#[trigger] s[i]).id == id
}

/// A session already has a photo of this name.
pub open spec fn deja_inscrite(s: Seq<PhotoVue>, session_id: int, filename: Seq<char>) -> bool {
    exists|i: int|
        0 <= i < s.len() && (#[trigger] s[i]).session_id == session_id && s[i].filename == filename
}

/// Enters a photo, waiting: its number, or none when the session already has
/// a photo of this name. A session that does not exist is an error.
pub fn insert_file(
    base: &mut BasePhotos,
    session_id: i64,
    filename: &str,
    file_path: &str,
    file_size: i64,
    file_modified: &str,
) -> (r: Result<Option<i64>, String>)
    requires
        old(base).inv(),
        old(base).compteur_photos < i64::MAX,
    ensures
        final(base).inv(),
        final(base).les_sessions() == old(base).les_sessions(),
        final(base).compteur_sessions == old(base).compteur_sessions,
        deja_inscrite(old(base).les_photos(), session_id as int, filename@) ==> r == Ok::<
            Option<i64>,
            String,
        >(None) && *final(base) == *old(base),
        !deja_inscrite(old(base).les_photos(), session_id as int, filename@) && !session_connue(
            old(base).les_sessions(),
            session_id as int,
        ) ==> *final(base) == *old(base) && (r matches Err(m) && m@
            == "FOREIGN KEY constraint failed"@),
        !deja_inscrite(old(base).les_photos(), session_id as int, filename@) && session_connue(
            old(base).les_sessions(),
            session_id as int,
        ) ==> {
            &&& r == Ok::<Option<i64>, String>(Some((old(base).compteur_photos + 1) as i64))
            &&& final(base).compteur_photos == old(base).compteur_photos + 1
            &&& final(base).les_photos() == old(base).les_photos().push(
                PhotoVue {
                    id: old(base).compteur_photos + 1,
                    session_id: session_id as int,
                    filename: filename@,
                    file_path: file_path@,
                    file_size: file_size as int,
                    file_modified: file_modified@,
                    status: StatutPhoto::Pending,
                    attempts: 0,
                    last_error: None,
                    uploaded_at: None,
                    server_photo_id: None,
                },
            )
        },
{
    let mut i: usize = 0;
    while i < base.photos.len()
        invariant
            *base == *old(base),
            base.inv(),
            i <= base.photos@.len(),
            forall|k: int|
                0 <= k < i ==> !((#[trigger] base.les_photos()[k]).session_id == session_id
                    && base.les_photos()[k].filename == filename@),
        decreases base.photos@.len() - i,
    {
        assert(base.les_photos()[i as int] == base.photos@[i as int]@);
        if base.photos[i].session_id == session_id && texte::memes(
            base.photos[i].filename.as_str(),
            filename,
        ) {
            return Ok(None);
        }
        i += 1;
    }
    let mut connue = false;
    let mut j: usize = 0;
    while j < base.sessions.len()
        invariant
            *base == *old(base),
            base.inv(),
            j <= base.sessions@.len(),
            connue == exists|k: int|
                0 <= k < j && (#[trigger] base.les_sessions()[k]).id == session_id,
        decreases base.sessions@.len() - j,
    {
        assert(base.les_sessions()[j as int] == base.sessions@[j as int]@);
        if base.sessions[j].id == session_id {
            connue = true;
        }
        j += 1;
    }
    if !connue {
        return Err("FOREIGN KEY constraint failed".to_owned());
    }
    let ghost avant = base.les_photos();
    let id: i64 = base.compteur_photos + 1;
    let ligne = LignePhoto {
        id,
        session_id,
        filename: filename.to_owned(),
        file_path: file_path.to_owned(),
        file_size,
        file_modified: file_modified.to_owned(),
        status: StatutPhoto::Pending,
        attempts: 0,
        last_error: None,
        uploaded_at: None,
        server_photo_id: None,
    };
    let ghost vue = ligne@;
    base.photos.push(ligne);
    base.compteur_photos = id;
    assert(base.les_photos() =~= avant.push(vue));
    Ok(Some(id))
}

// ─── Changes ───────────────────────────────────────────────────────────

/// The photos that satisfy `p`, changed by `f`; the others as they were.
pub open spec fn photos_modifiees(
    s: Seq<PhotoVue>,
    p: spec_fn(PhotoVue) -> bool,
    f: spec_fn(PhotoVue) -> PhotoVue,
) -> Seq<PhotoVue> {
    s.map_values(
        |l: PhotoVue|
            if p(l) {
                f(l)
            } else {
                l
            },
    )
}

/// The photo after an upload has reached that status.
pub open spec fn avec_statut(
    l: PhotoVue,
    status: StatutPhoto,
    error: Option<Seq<char>>,
    server_photo_id: Option<i64>,
    maintenant: Seq<char>,
) -> PhotoVue {
    PhotoVue {
        status,
        last_error: error,
        server_photo_id,
        uploaded_at: if status == StatutPhoto::Success {
            Some(maintenant)
        } else {
            None
        },
        attempts: l.attempts + 1,
        ..l
    }
}

/// The session after one of its photos has reached that status: what was
/// sent and what failed is counted.
pub open spec fn comptee(l: SessionVue, status: StatutPhoto) -> SessionVue {
    SessionVue {
        photos_sent: l.photos_sent + if status == StatutPhoto::Success {
            1int
        } else {
            0int
        },
        photos_failed: l.photos_failed + if status == StatutPhoto::Failed {
            1int
        } else {
            0int
        },
        ..l
    }
}

/// That count can still be raised.
pub open spec fn comptable(l: SessionVue, status: StatutPhoto) -> bool {
    &&& status == StatutPhoto::Success ==> l.photos_sent < i64::MAX
    &&& status == StatutPhoto::Failed ==> l.photos_failed < i64::MAX
}

/// The session of a photo.
pub open spec fn est_de_session(s: Seq<PhotoVue>, file_id: int, session_id: int) -> bool {
    exists|i: int| 0 <= i < s.len() && (#[trigger] s[i]).id == file_id && s[i].session_id == session_id
}

proof fn lemme_photos_maj(v: Seq<LignePhoto>, i: int, l: LignePhoto)
    requires
        0 <= i < v.len(),
    ensures
        photos_vues(v.update(i, l)) == photos_vues(v).update(i, l@),
{
    assert(photos_vues(v.update(i, l)) =~= photos_vues(v).update(i, l@));
}

proof fn lemme_sessions_maj(v: Seq<LigneSession>, i: int, l: LigneSession)
    requires
        0 <= i < v.len(),
    ensures
        sessions_vues(v.update(i, l)) == sessions_vues(v).update(i, l@),
{
    assert(sessions_vues(v.update(i, l)) =~= sessions_vues(v).update(i, l@));
}

/// A change that leaves alone what identifies a photo keeps the table sound.
proof fn lemme_photos_saines(s: Seq<PhotoVue>, t: Seq<PhotoVue>, compteur: int)
    requires
        photos_saines(s, compteur),
        t.len() == s.len(),
        forall|i: int|
            0 <= i < s.len() ==> (#[trigger] t[i]).id == s[i].id && t[i].session_id == s[i].session_id
                && t[i].filename == s[i].filename && t[i].attempts >= 0,
    ensures
        photos_saines(t, compteur),
{
    assert forall|i: int, j: int| 0 <= i < j < t.len() implies (#[trigger] t[i]).id < (
    #[trigger] t[j]).id && !(t[i].session_id == t[j].session_id && t[i].filename == t[j].filename) by {
        assert(s[i].id < s[j].id);
    }
}

proof fn lemme_sessions_saines(s: Seq<SessionVue>, t: Seq<SessionVue>, compteur: int)
    requires
        sessions_saines(s, compteur),
        t.len() == s.len(),
        forall|i: int| 0 <= i < s.len() ==> (#[trigger] t[i]).id == s[i].id,
    ensures
        sessions_saines(t, compteur),
{
    assert forall|i: int, j: int| 0 <= i < j < t.len() implies (#[trigger] t[i]).id < (
    #[trigger] t[j]).id by {
        assert(s[i].id < s[j].id);
    }
}

/// Records where the upload of a photo stands.
pub fn update_file_status(
    base: &mut BasePhotos,
    file_id: i64,
    status: StatutPhoto,
    error: Option<&str>,
    server_photo_id: Option<i64>,
    maintenant: &str,
)
    requires
        old(base).inv(),
        forall|i: int|
            0 <= i < old(base).les_photos().len() && (#[trigger] old(base).les_photos()[i]).id
                == file_id ==> old(base).les_photos()[i].attempts < i64::MAX,
        forall|i: int|
            0 <= i < old(base).les_sessions().len() && est_de_session(
                old(base).les_photos(),
                file_id as int,
                (#[trigger] old(base).les_sessions()[i]).id,
            ) ==> comptable(old(base).les_sessions()[i], status),
    ensures
        final(base).inv(),
        final(base).compteur_photos == old(base).compteur_photos,
        final(base).compteur_sessions == old(base).compteur_sessions,
        final(base).les_photos() == photos_modifiees(
            old(base).les_photos(),
            |l: PhotoVue| l.id == file_id,
            |l: PhotoVue|
                avec_statut(l, status, texte::vue_ref(error), server_photo_id, maintenant@),
        ),
        final(base).les_sessions().len() == old(base).les_sessions().len(),
        forall|i: int|
            0 <= i < old(base).les_sessions().len() ==> #[trigger] final(base).les_sessions()[i]
                == if est_de_session(
                old(base).les_photos(),
                file_id as int,
                old(base).les_sessions()[i].id,
            ) {
                comptee(old(base).les_sessions()[i], status)
            } else {
                old(base).les_sessions()[i]
            },
{
    let ghost photos = base.les_photos();
    let ghost sessions = base.les_sessions();
    let ghost compteur = base.compteur_photos;
    let mut session: Option<i64> = None;
    let mut i: usize = 0;
    while i < base.photos.len()
        invariant
            base.compteur_photos == compteur,
            base.compteur_sessions == old(base).compteur_sessions,
            base.sessions == old(base).sessions,
            photos_saines(photos, compteur as int),
            i <= base.photos@.len() == photos.len(),
            forall|k: int|
                0 <= k < photos.len() && (#[trigger] photos[k]).id == file_id
                    ==> photos[k].attempts < i64::MAX,
            match session {
                Some(s) => exists|k: int|
                    0 <= k < i && (#[trigger] photos[k]).id == file_id && photos[k].session_id == s,
                None => forall|k: int| 0 <= k < i ==> (#[trigger] photos[k]).id != file_id,
            },
            forall|k: int|
                0 <= k < i ==> #[trigger] base.les_photos()[k] == if photos[k].id == file_id {
                    avec_statut(
                        photos[k],
                        status,
                        texte::vue_ref(error),
                        server_photo_id,
                        maintenant@,
                    )
                } else {
                    photos[k]
                },
            forall|k: int| i <= k < photos.len() ==> #[trigger] base.les_photos()[k] == photos[k],
        decreases base.photos@.len() - i,
    {
        let ghost ici = base.photos@;
        assert(base.les_photos()[i as int] == photos[i as int]);
        if base.photos[i].id == file_id {
            session = Some(base.photos[i].session_id);
            let tentatives: i64 = base.photos[i].attempts + 1;
            base.photos[i].status = status;
            base.photos[i].last_error = texte::retenir(error);
            base.photos[i].server_photo_id = server_photo_id;
            base.photos[i].uploaded_at = if status == StatutPhoto::Success {
                Some(maintenant.to_owned())
            } else {
                None
            };
            base.photos[i].attempts = tentatives;
            proof {
                lemme_photos_maj(ici, i as int, base.photos@[i as int]);
                assert(base.photos@ =~= ici.update(i as int, base.photos@[i as int]));
                assert(base.photos@[i as int]@ =~= avec_statut(
                    photos[i as int],
                    status,
                    texte::vue_ref(error),
                    server_photo_id,
                    maintenant@,
                ));
                assert(photos[i as int].id == file_id);
            }
        }
        i += 1;
    }
    proof {
        assert(base.les_photos() =~= photos_modifiees(
            photos,
            |l: PhotoVue| l.id == file_id,
            |l: PhotoVue|
                avec_statut(l, status, texte::vue_ref(error), server_photo_id, maintenant@),
        ));
        lemme_photos_saines(photos, base.les_photos(), compteur as int);
        assert forall|s: int|
            (match session {
                Some(x) => x == s,
                None => false,
            }) == est_de_session(photos, file_id as int, s) by {
            match session {
                Some(x) => {
                    let k = choose|k: int|
                        0 <= k < photos.len() && (#[trigger] photos[k]).id == file_id
                            && photos[k].session_id == x;
                    if est_de_session(photos, file_id as int, s) {
                        let m = choose|m: int|
                            0 <= m < photos.len() && (#[trigger] photos[m]).id == file_id
                                && photos[m].session_id == s;
                        if k < m {
                            assert(photos[k].id < photos[m].id);
                        } else if m < k {
                            assert(photos[m].id < photos[k].id);
                        }
                    }
                },
                None => {},
            }
        }
    }
    let mut j: usize = 0;
    while j < base.sessions.len()
        invariant
            base.compteur_photos == compteur,
            base.compteur_sessions == old(base).compteur_sessions,
            base.les_photos() == photos_modifiees(
                photos,
                |l: PhotoVue| l.id == file_id,
                |l: PhotoVue|
                    avec_statut(l, status, texte::vue_ref(error), server_photo_id, maintenant@),
            ),
            j <= base.sessions@.len() == sessions.len(),
            forall|k: int|
                0 <= k < sessions.len() && est_de_session(
                    photos,
                    file_id as int,
                    (#[trigger] sessions[k]).id,
                ) ==> comptable(sessions[k], status),
            forall|s: int|
                (match session {
                    Some(x) => x == s,
                    None => false,
                }) == #[trigger] est_de_session(photos, file_id as int, s),
            forall|k: int|
                0 <= k < j ==> #[trigger] base.les_sessions()[k] == if est_de_session(
                    photos,
                    file_id as int,
                    sessions[k].id,
                ) {
                    comptee(sessions[k], status)
                } else {
                    sessions[k]
                },
            forall|k: int|
                j <= k < sessions.len() ==> #[trigger] base.les_sessions()[k] == sessions[k],
        decreases base.sessions@.len() - j,
    {
        let ghost ici = base.sessions@;
        assert(base.les_sessions()[j as int] == sessions[j as int]);
        assert(base.sessions@[j as int]@ == sessions[j as int]);
        let la_sienne: bool = match session {
            Some(x) => base.sessions[j].id == x,
            None => false,
        };
        assert(la_sienne == est_de_session(photos, file_id as int, sessions[j as int].id));
        if la_sienne {
            if status == StatutPhoto::Success {
                let n: i64 = base.sessions[j].photos_sent + 1;
                base.sessions[j].photos_sent = n;
            } else if status == StatutPhoto::Failed {
                let n: i64 = base.sessions[j].photos_failed + 1;
                base.sessions[j].photos_failed = n;
            }
            proof {
                lemme_sessions_maj(ici, j as int, base.sessions@[j as int]);
                assert(base.sessions@ =~= ici.update(j as int, base.sessions@[j as int]));
                assert(base.sessions@[j as int]@ =~= comptee(sessions[j as int], status));
            }
        }
        j += 1;
    }
    proof {
        lemme_sessions_saines(sessions, base.les_sessions(), base.compteur_sessions as int);
    }
}

/// Marks a session as over.
pub fn stop_session(base: &mut BasePhotos, session_id: i64, maintenant: &str)
    requires
        old(base).inv(),
    ensures
        final(base).inv(),
        final(base).compteur_photos == old(base).compteur_photos,
        final(base).compteur_sessions == old(base).compteur_sessions,
        final(base).les_photos() == old(base).les_photos(),
        final(base).les_sessions() == old(base).les_sessions().map_values(
            |l: SessionVue|
                if l.id == session_id {
                    SessionVue { stopped_at: Some(maintenant@), ..l }
                } else {
                    l
                },
        ),
{
    let ghost sessions = base.les_sessions();
    let ghost photos = base.photos;
    let mut j: usize = 0;
    while j < base.sessions.len()
        invariant
            base.compteur_photos == old(base).compteur_photos,
            base.compteur_sessions == old(base).compteur_sessions,
            base.photos == photos,
            j <= base.sessions@.len() == sessions.len(),
            forall|k: int|
                0 <= k < j ==> #[trigger] base.les_sessions()[k] == if sessions[k].id == session_id {
                    SessionVue { stopped_at: Some(maintenant@), ..sessions[k] }
                } else {
                    sessions[k]
                },
            forall|k: int|
                j <= k < sessions.len() ==> #[trigger] base.les_sessions()[k] == sessions[k],
        decreases base.sessions@.len() - j,
    {
        let ghost ici = base.sessions@;
        assert(base.les_sessions()[j as int] == sessions[j as int]);
        if base.sessions[j].id == session_id {
            base.sessions[j].stopped_at = Some(maintenant.to_owned());
            proof {
                lemme_sessions_maj(ici, j as int, base.sessions@[j as int]);
                assert(base.sessions@ =~= ici.update(j as int, base.sessions@[j as int]));
                assert(base.sessions@[j as int]@ =~= (SessionVue {
                    stopped_at: Some(maintenant@),
                    ..sessions[j as int]
                }));
            }
        }
        j += 1;
    }
    proof {
        assert(base.les_sessions() =~= sessions.map_values(
            |l: SessionVue|
                if l.id == session_id {
                    SessionVue { stopped_at: Some(maintenant@), ..l }
                } else {
                    l
                },
        ));
        lemme_sessions_saines(sessions, base.les_sessions(), base.compteur_sessions as int);
    }
}

/// A photo of this session that failed.
pub open spec fn echouee(l: PhotoVue, session_id: int) -> bool {
    l.session_id == session_id && l.status == StatutPhoto::Failed
}

/// The photo put back to wait as if it had never been tried.
pub open spec fn remise_a_zero(l: PhotoVue) -> PhotoVue {
    PhotoVue { status: StatutPhoto::Pending, attempts: 0, last_error: None, ..l }
}

proof fn lemme_filtre_pas(s: Seq<PhotoVue>, i: int, p: spec_fn(PhotoVue) -> bool)
    requires
        0 <= i < s.len(),
    ensures
        s.take(i + 1).filter(p) == if p(s[i]) {
            s.take(i).filter(p).push(s[i])
        } else {
            s.take(i).filter(p)
        },
{
    assert(s.take(i + 1) =~= s.take(i).push(s[i]));
    s.take(i).lemma_filter_push(s[i], p);
}

/// Puts the photos of a session that failed back to wait. Gives how many
/// there were.
pub fn reset_failed_files(base: &mut BasePhotos, session_id: i64) -> (r: u64)
    requires
        old(base).inv(),
    ensures
        final(base).inv(),
        final(base).compteur_photos == old(base).compteur_photos,
        final(base).compteur_sessions == old(base).compteur_sessions,
        final(base).les_sessions() == old(base).les_sessions(),
        r == old(base).les_photos().filter(|l: PhotoVue| echouee(l, session_id as int)).len(),
        final(base).les_photos() == photos_modifiees(
            old(base).les_photos(),
            |l: PhotoVue| echouee(l, session_id as int),
            |l: PhotoVue| remise_a_zero(l),
        ),
{
    let ghost photos = base.les_photos();
    let ghost p = |l: PhotoVue| echouee(l, session_id as int);
    let mut n: u64 = 0;
    let mut i: usize = 0;
    proof {
        assert(photos.take(0) =~= Seq::<PhotoVue>::empty());
        reveal(Seq::filter);
    }
    while i < base.photos.len()
        invariant
            base.compteur_photos == old(base).compteur_photos,
            base.compteur_sessions == old(base).compteur_sessions,
            base.sessions == old(base).sessions,
            i <= base.photos@.len() == photos.len(),
            forall|l: PhotoVue| #[trigger] p(l) == echouee(l, session_id as int),
            n == photos.take(i as int).filter(p).len(),
            n <= i,
            forall|k: int|
                0 <= k < i ==> #[trigger] base.les_photos()[k] == if p(photos[k]) {
                    remise_a_zero(photos[k])
                } else {
                    photos[k]
                },
            forall|k: int| i <= k < photos.len() ==> #[trigger] base.les_photos()[k] == photos[k],
        decreases base.photos@.len() - i,
    {
        let ghost ici = base.photos@;
        assert(base.les_photos()[i as int] == photos[i as int]);
        assert(base.photos@[i as int]@ == photos[i as int]);
        proof {
            lemme_filtre_pas(photos, i as int, p);
        }
        if base.photos[i].session_id == session_id && base.photos[i].status == StatutPhoto::Failed {
            assert(p(photos[i as int]));
            base.photos[i].status = StatutPhoto::Pending;
            base.photos[i].attempts = 0;
            base.photos[i].last_error = None;
            n += 1;
            proof {
                lemme_photos_maj(ici, i as int, base.photos@[i as int]);
                assert(base.photos@ =~= ici.update(i as int, base.photos@[i as int]));
                assert(base.photos@[i as int]@ =~= remise_a_zero(photos[i as int]));
            }
        }
        i += 1;
    }
    proof {
        assert(photos.take(photos.len() as int) =~= photos);
        assert(base.les_photos() =~= photos_modifiees(photos, p, |l: PhotoVue| remise_a_zero(l)));
        lemme_photos_saines(photos, base.les_photos(), base.compteur_photos as int);
    }
    n
}

/// Puts one photo that failed back to wait. Its attempts are kept.
pub fn reset_file(base: &mut BasePhotos, file_id: i64)
    requires
        old(base).inv(),
    ensures
        final(base).inv(),
        final(base).compteur_photos == old(base).compteur_photos,
        final(base).compteur_sessions == old(base).compteur_sessions,
        final(base).les_sessions() == old(base).les_sessions(),
        final(base).les_photos() == photos_modifiees(
            old(base).les_photos(),
            |l: PhotoVue| l.id == file_id && l.status == StatutPhoto::Failed,
            |l: PhotoVue| PhotoVue { status: StatutPhoto::Pending, last_error: None, ..l },
        ),
{
    let ghost photos = base.les_photos();
    let ghost compteur = base.compteur_photos;
    let mut i: usize = 0;
    while i < base.photos.len()
        invariant
            base.compteur_photos == compteur,
            base.compteur_sessions == old(base).compteur_sessions,
            base.sessions == old(base).sessions,
            i <= base.photos@.len() == photos.len(),
            forall|k: int|
                0 <= k < i ==> #[trigger] base.les_photos()[k] == if photos[k].id == file_id
                    && photos[k].status == StatutPhoto::Failed {
                    PhotoVue { status: StatutPhoto::Pending, last_error: None, ..photos[k] }
                } else {
                    photos[k]
                },
            forall|k: int| i <= k < photos.len() ==> #[trigger] base.les_photos()[k] == photos[k],
        decreases base.photos@.len() - i,
    {
        let ghost ici = base.photos@;
        assert(base.les_photos()[i as int] == photos[i as int]);
        if base.photos[i].id == file_id && base.photos[i].status == StatutPhoto::Failed {
            base.photos[i].status = StatutPhoto::Pending;
            base.photos[i].last_error = None;
            proof {
                lemme_photos_maj(ici, i as int, base.photos@[i as int]);
                assert(base.photos@ =~= ici.update(i as int, base.photos@[i as int]));
                assert(base.photos@[i as int]@ =~= (PhotoVue {
                    status: StatutPhoto::Pending,
                    last_error: None,
                    ..photos[i as int]
                }));
            }
        }
        i += 1;
    }
    proof {
        assert(base.les_photos() =~= photos_modifiees(
            photos,
            |l: PhotoVue| l.id == file_id && l.status == StatutPhoto::Failed,
            |l: PhotoVue| PhotoVue { status: StatutPhoto::Pending, last_error: None, ..l },
        ));
        lemme_photos_saines(photos, base.les_photos(), compteur as int);
    }
}

// ─── Reading ───────────────────────────────────────────────────────────

/// The photos of a session with this status.
pub open spec fn de_statut(s: Seq<PhotoVue>, session_id: int, status: StatutPhoto) -> Seq<PhotoVue> {
    s.filter(|l: PhotoVue| l.session_id == session_id && l.status == status)
}

/// The photos of a session.
pub open spec fn de_session(s: Seq<PhotoVue>, session_id: int) -> Seq<PhotoVue> {
    s.filter(|l: PhotoVue| l.session_id == session_id)
}

proof fn lemme_longueur(s: Seq<PhotoVue>, compteur: int, k: int)
    requires
        photos_saines(s, compteur),
        0 <= k < s.len(),
    ensures
        s[k].id >= k + 1,
    decreases k,
{
    if k > 0 {
        lemme_longueur(s, compteur, k - 1);
        assert(s[k - 1].id < s[k].id);
    }
}

/// The figures of a session.
pub fn get_session_stats(base: &BasePhotos, session_id: i64) -> (r: SessionStats)
    requires
        base.inv(),
    ensures
        r.total == de_session(base.les_photos(), session_id as int).len(),
        r.sent == de_statut(base.les_photos(), session_id as int, StatutPhoto::Success).len(),
        r.pending == de_statut(base.les_photos(), session_id as int, StatutPhoto::Pending).len(),
        r.uploading == de_statut(base.les_photos(), session_id as int, StatutPhoto::Uploading).len(),
        r.failed == de_statut(base.les_photos(), session_id as int, StatutPhoto::Failed).len(),
        r.total == r.sent + r.pending + r.uploading + r.failed,
{
    let ghost s = base.les_photos();
    let ghost id = session_id as int;
    let ghost tout = |l: PhotoVue| l.session_id == id;
    let ghost succes = |l: PhotoVue| l.session_id == id && l.status == StatutPhoto::Success;
    let ghost attente = |l: PhotoVue| l.session_id == id && l.status == StatutPhoto::Pending;
    let ghost envoi = |l: PhotoVue| l.session_id == id && l.status == StatutPhoto::Uploading;
    let ghost echec = |l: PhotoVue| l.session_id == id && l.status == StatutPhoto::Failed;
    let mut total: i64 = 0;
    let mut sent: i64 = 0;
    let mut pending: i64 = 0;
    let mut uploading: i64 = 0;
    let mut failed: i64 = 0;
    let mut i: usize = 0;
    proof {
        assert(s.take(0) =~= Seq::<PhotoVue>::empty());
        reveal(Seq::filter);
        if s.len() > 0 {
            lemme_longueur(s, base.compteur_photos as int, s.len() - 1);
            assert(s[s.len() - 1].id <= base.compteur_photos);
        }
    }
    while i < base.photos.len()
        invariant
            s == base.les_photos(),
            id == session_id,
            i <= base.photos@.len() == s.len() <= i64::MAX,
            forall|l: PhotoVue| #[trigger] tout(l) == (l.session_id == id),
            forall|l: PhotoVue| #[trigger]
                succes(l) == (l.session_id == id && l.status == StatutPhoto::Success),
            forall|l: PhotoVue| #[trigger]
                attente(l) == (l.session_id == id && l.status == StatutPhoto::Pending),
            forall|l: PhotoVue| #[trigger]
                envoi(l) == (l.session_id == id && l.status == StatutPhoto::Uploading),
            forall|l: PhotoVue| #[trigger]
                echec(l) == (l.session_id == id && l.status == StatutPhoto::Failed),
            total == s.take(i as int).filter(tout).len(),
            sent == s.take(i as int).filter(succes).len(),
            pending == s.take(i as int).filter(attente).len(),
            uploading == s.take(i as int).filter(envoi).len(),
            failed == s.take(i as int).filter(echec).len(),
            total <= i,
            total == sent + pending + uploading + failed,
            sent >= 0,
            pending >= 0,
            uploading >= 0,
            failed >= 0,
        decreases base.photos@.len() - i,
    {
        assert(s[i as int] == base.photos@[i as int]@);
        proof {
            lemme_filtre_pas(s, i as int, tout);
            lemme_filtre_pas(s, i as int, succes);
            lemme_filtre_pas(s, i as int, attente);
            lemme_filtre_pas(s, i as int, envoi);
            lemme_filtre_pas(s, i as int, echec);
        }
        if base.photos[i].session_id == session_id {
            assert(tout(s[i as int]));
            total += 1;
            match base.photos[i].status {
                StatutPhoto::Success => {
                    assert(succes(s[i as int]));
                    sent += 1;
                },
                StatutPhoto::Pending => {
                    assert(attente(s[i as int]));
                    pending += 1;
                },
                StatutPhoto::Uploading => {
                    assert(envoi(s[i as int]));
                    uploading += 1;
                },
                StatutPhoto::Failed => {
                    assert(echec(s[i as int]));
                    failed += 1;
                },
            }
        }
        i += 1;
    }
    assert(s.take(s.len() as int) =~= s);
    SessionStats { total, sent, pending, uploading, failed }
}

/// A photo as it is shown.
pub open spec fn est_montree(f: UploadFile, l: PhotoVue) -> bool {
    &&& f.id == l.id
    &&& f.session_id == l.session_id
    &&& f.filename@ == l.filename
    &&& f.file_path@ == l.file_path
    &&& f.file_size == l.file_size
    &&& f.status@ == l.status.nom()
    &&& f.attempts == l.attempts
    &&& texte::vue(f.last_error) == l.last_error
    &&& texte::vue(f.uploaded_at) == l.uploaded_at
    &&& f.server_photo_id == l.server_photo_id
}

/// The photos of a session that failed, oldest first.
pub fn get_failed_files(base: &BasePhotos, session_id: i64) -> (r: Vec<UploadFile>)
    ensures
        r@.len() == de_statut(base.les_photos(), session_id as int, StatutPhoto::Failed).len(),
        forall|k: int|
            0 <= k < r@.len() ==> est_montree(
                #[trigger] r@[k],
                de_statut(base.les_photos(), session_id as int, StatutPhoto::Failed)[k],
            ),
{
    let ghost s = base.les_photos();
    let ghost p = |l: PhotoVue| l.session_id == session_id as int && l.status == StatutPhoto::Failed;
    let mut r: Vec<UploadFile> = Vec::new();
    let mut i: usize = 0;
    proof {
        assert(s.take(0) =~= Seq::<PhotoVue>::empty());
        reveal(Seq::filter);
    }
    while i < base.photos.len()
        invariant
            s == base.les_photos(),
            i <= base.photos@.len() == s.len(),
            forall|l: PhotoVue| #[trigger]
                p(l) == (l.session_id == session_id as int && l.status == StatutPhoto::Failed),
            r@.len() == s.take(i as int).filter(p).len(),
            forall|k: int|
                0 <= k < r@.len() ==> est_montree(#[trigger] r@[k], s.take(i as int).filter(p)[k]),
        decreases base.photos@.len() - i,
    {
        let l = &base.photos[i];
        assert(s[i as int] == l@);
        proof {
            lemme_filtre_pas(s, i as int, p);
        }
        if l.session_id == session_id && l.status == StatutPhoto::Failed {
            assert(p(s[i as int]));
            r.push(
                UploadFile {
                    id: l.id,
                    session_id: l.session_id,
                    filename: l.filename.clone(),
                    file_path: l.file_path.clone(),
                    file_size: l.file_size,
                    status: l.status.as_str().to_owned(),
                    attempts: l.attempts,
                    last_error: texte::copie_option(&l.last_error),
                    uploaded_at: texte::copie_option(&l.uploaded_at),
                    server_photo_id: l.server_photo_id,
                },
            );
        }
        i += 1;
    }
    assert(s.take(s.len() as int) =~= s);
    r
}

/// What is shown of a session: sent, still to send, failed.
pub fn resumer(s: &SessionStats) -> (r: (i64, i64, i64))
    requires
        s.pending + s.uploading <= i64::MAX,
        s.pending >= 0,
        s.uploading >= 0,
    ensures
        r.0 == s.sent,
        r.1 == s.pending + s.uploading,
        r.2 == s.failed,
{
    (s.sent, s.pending + s.uploading, s.failed)
}

/// Nothing is left to send.
pub fn tout_est_parti(s: &SessionStats) -> (r: bool)
    ensures
        r == (s.pending == 0 && s.uploading == 0),
{
    s.pending == 0 && s.uploading == 0
}

// ─── Laws ──────────────────────────────────────────────────────────────

/// Once its failed photos are put back, a session has none left, and no
/// photo is gone.
pub proof fn loi_relance_vide_les_echecs(s: Seq<PhotoVue>, session_id: int)
    ensures
        ({
            let t = photos_modifiees(
                s,
                |l: PhotoVue| echouee(l, session_id),
                |l: PhotoVue| remise_a_zero(l),
            );
            &&& de_statut(t, session_id, StatutPhoto::Failed).len() == 0
            &&& t.len() == s.len()
            &&& forall|i: int|
                0 <= i < s.len() ==> (#[trigger] t[i]).id == s[i].id && t[i].filename
                    == s[i].filename && (s[i].session_id != session_id ==> t[i] == s[i])
        }),
{
    let t = photos_modifiees(
        s,
        |l: PhotoVue| echouee(l, session_id),
        |l: PhotoVue| remise_a_zero(l),
    );
    let p = |l: PhotoVue| l.session_id == session_id && l.status == StatutPhoto::Failed;
    assert forall|i: int| 0 <= i < t.len() implies !p(#[trigger] t[i]) by {}
    t.lemma_all_neg_filter_empty(p);
}

/// A photo entered twice in a session stands there once.
pub proof fn loi_inscription_unique(s: Seq<PhotoVue>, l: PhotoVue)
    ensures
        deja_inscrite(s.push(l), l.session_id, l.filename),
{
    assert(s.push(l)[s.len() as int] == l);
}

// ─── Laws in terms of rows ─────────────────────────────────────────────

/// The directory of an edition bears its name after that of the agent; without
/// an edition, that of the agent alone.
pub proof fn loi_dossier(edition: Seq<char>)
    ensures
        dossier_edition(Seq::empty()) == "com.attimo-gallery.agent"@,
        edition.len() > 0 ==> dossier_edition(edition) == dossier_edition(Seq::empty()) + seq!['.']
            + edition,
        DOSSIER_DONNEES@ == "com.attimo-gallery.agent"@,
{
    reveal_strlit("com.attimo-gallery.agent");
    reveal_strlit("com.attimo-gallery.agent.");
    assert("com.attimo-gallery.agent."@ =~= "com.attimo-gallery.agent"@ + seq!['.']);
}

/// The words of a status are those of the table, all different.
pub proof fn loi_mots_des_statuts(a: StatutPhoto, b: StatutPhoto)
    ensures
        StatutPhoto::Pending.nom() == "pending"@,
        StatutPhoto::Uploading.nom() == "uploading"@,
        StatutPhoto::Success.nom() == "success"@,
        StatutPhoto::Failed.nom() == "failed"@,
        a.nom() == b.nom() ==> a == b,
{
    reveal_strlit("pending");
    reveal_strlit("uploading");
    reveal_strlit("success");
    reveal_strlit("failed");
    assert("pending"@[0] == 'p' && "uploading"@[0] == 'u' && "success"@[0] == 's' && "failed"@[0]
        == 'f');
}

/// The view of a row says of each field what the field holds.
pub proof fn loi_vue_des_photos(l: LignePhoto)
    ensures
        l@.id == l.id,
        l@.session_id == l.session_id,
        l@.filename == l.filename@,
        l@.file_path == l.file_path@,
        l@.file_size == l.file_size,
        l@.file_modified == l.file_modified@,
        l@.status == l.status,
        l@.attempts == l.attempts,
        l@.last_error == texte::vue(l.last_error),
        l@.uploaded_at == texte::vue(l.uploaded_at),
        l@.server_photo_id == l.server_photo_id,
{
}

/// The view of a session says of each field what the field holds.
pub proof fn loi_vue_des_sessions(l: LigneSession)
    ensures
        l@.id == l.id,
        l@.event_id == l.event_id,
        l@.event_name == l.event_name@,
        l@.checkpoint_id == l.checkpoint_id,
        l@.checkpoint_name == texte::vue(l.checkpoint_name),
        l@.watch_folder == l.watch_folder@,
        l@.include_existing == l.include_existing,
        l@.parallel_uploads == l.parallel_uploads,
        l@.started_at == l.started_at@,
        l@.stopped_at == texte::vue(l.stopped_at),
        l@.photos_sent == l.photos_sent,
        l@.photos_failed == l.photos_failed,
{
}

/// The tables are seen row by row, in their order.
pub proof fn loi_vue_des_tables(base: BasePhotos, i: int)
    ensures
        base.les_photos().len() == base.photos@.len(),
        base.les_sessions().len() == base.sessions@.len(),
        0 <= i < base.photos@.len() ==> base.les_photos()[i] == base.photos@[i]@,
        0 <= i < base.sessions@.len() ==> base.les_sessions()[i] == base.sessions@[i]@,
{
}

/// In sound tables, no two rows have the same number, and no session has two
/// photos of one name; numbers were all given out, in the order of the rows.
pub proof fn loi_tables_saines(base: BasePhotos, i: int, j: int)
    requires
        base.inv(),
        i < j,
    ensures
        0 <= i && j < base.les_photos().len() ==> {
            let s = base.les_photos();
            &&& 1 <= s[i].id < s[j].id <= base.compteur_photos
            &&& s[i].session_id == s[j].session_id ==> s[i].filename != s[j].filename
            &&& s[i].attempts >= 0 && s[j].attempts >= 0
        },
        0 <= i && j < base.les_sessions().len() ==> 1 <= base.les_sessions()[i].id
            < base.les_sessions()[j].id <= base.compteur_sessions,
{
    if 0 <= i && j < base.les_photos().len() {
        assert(base.les_photos()[i].id < base.les_photos()[j].id);
    }
    if 0 <= i && j < base.les_sessions().len() {
        assert(base.les_sessions()[i].id < base.les_sessions()[j].id);
    }
}

/// A session is known, a photo recorded, a photo of a session, when some row
/// says so.
pub proof fn loi_recherches(
    s: Seq<PhotoVue>,
    t: Seq<SessionVue>,
    id: int,
    session_id: int,
    filename: Seq<char>,
)
    ensures
        session_connue(t, id) <==> t.map_values(|l: SessionVue| l.id).contains(id),
        deja_inscrite(s, session_id, filename) <==> s.map_values(
            |l: PhotoVue| (l.session_id, l.filename),
        ).contains((session_id, filename)),
        est_de_session(s, id, session_id) <==> s.map_values(
            |l: PhotoVue| (l.id, l.session_id),
        ).contains((id, session_id)),
{
    let a = t.map_values(|l: SessionVue| l.id);
    let b = s.map_values(|l: PhotoVue| (l.session_id, l.filename));
    let c = s.map_values(|l: PhotoVue| (l.id, l.session_id));
    if session_connue(t, id) {
        let k = choose|k: int| 0 <= k < t.len() && (#[trigger] t[k]).id == id;
        assert(a[k] == id);
    }
    if a.contains(id) {
        let k = a.index_of(id);
        assert(t[k].id == id);
    }
    if deja_inscrite(s, session_id, filename) {
        let k = choose|k: int|
            0 <= k < s.len() && (#[trigger] s[k]).session_id == session_id && s[k].filename
                == filename;
        assert(b[k] == (session_id, filename));
    }
    if b.contains((session_id, filename)) {
        let k = b.index_of((session_id, filename));
        assert(s[k].session_id == session_id);
    }
    if est_de_session(s, id, session_id) {
        let k = choose|k: int|
            0 <= k < s.len() && (#[trigger] s[k]).id == id && s[k].session_id == session_id;
        assert(c[k] == (id, session_id));
    }
    if c.contains((id, session_id)) {
        let k = c.index_of((id, session_id));
        assert(s[k].id == id);
    }
}

/// A change of chosen photos changes those, in place, and no other.
pub proof fn loi_photos_choisies(
    s: Seq<PhotoVue>,
    p: spec_fn(PhotoVue) -> bool,
    f: spec_fn(PhotoVue) -> PhotoVue,
    i: int,
)
    requires
        0 <= i < s.len(),
    ensures
        photos_modifiees(s, p, f).len() == s.len(),
        p(s[i]) ==> photos_modifiees(s, p, f)[i] == f(s[i]),
        !p(s[i]) ==> photos_modifiees(s, p, f)[i] == s[i],
{
}

/// A new status counts one attempt, keeps what is known of the file, and dates
/// the photo exactly when the server has it.
pub proof fn loi_nouveau_statut(
    l: PhotoVue,
    status: StatutPhoto,
    error: Option<Seq<char>>,
    server_photo_id: Option<i64>,
    maintenant: Seq<char>,
)
    ensures
        ({
            let m = avec_statut(l, status, error, server_photo_id, maintenant);
            &&& m.status == status
            &&& m.attempts - l.attempts == 1
            &&& m.last_error == error
            &&& m.server_photo_id == server_photo_id
            &&& m.uploaded_at is Some <==> status is Success
            &&& m.uploaded_at matches Some(d) ==> d == maintenant
            &&& m.id == l.id && m.session_id == l.session_id
            &&& m.filename == l.filename && m.file_path == l.file_path
            &&& m.file_size == l.file_size && m.file_modified == l.file_modified
        }),
{
}

/// A session counts what was sent and what failed, each on its own side, one
/// by one; nothing else of it changes.
pub proof fn loi_compte_de_session(l: SessionVue, status: StatutPhoto)
    ensures
        comptee(l, StatutPhoto::Success).photos_sent == l.photos_sent + 1,
        comptee(l, StatutPhoto::Success).photos_failed == l.photos_failed,
        comptee(l, StatutPhoto::Failed).photos_failed == l.photos_failed + 1,
        comptee(l, StatutPhoto::Failed).photos_sent == l.photos_sent,
        status is Pending || status is Uploading ==> comptee(l, status) == l && comptable(l, status),
        comptee(l, status) == (SessionVue {
            photos_sent: comptee(l, status).photos_sent,
            photos_failed: comptee(l, status).photos_failed,
            ..l
        }),
        comptable(l, StatutPhoto::Success) <==> l.photos_sent < 0x7fff_ffff_ffff_ffff,
        comptable(l, StatutPhoto::Failed) <==> l.photos_failed < 0x7fff_ffff_ffff_ffff,
{
}

/// What failed in a session is put back: it waits again, without attempts and
/// without error, and its file is as it was.
pub proof fn loi_remise_a_zero(l: PhotoVue, session_id: int)
    ensures
        echouee(l, session_id) <==> l.status is Failed && l.session_id == session_id,
        remise_a_zero(l).status is Pending,
        remise_a_zero(l).attempts == 0,
        remise_a_zero(l).last_error is None,
        remise_a_zero(l).id == l.id,
        remise_a_zero(l).session_id == l.session_id,
        remise_a_zero(l).filename == l.filename,
        remise_a_zero(l).file_path == l.file_path,
        remise_a_zero(l).file_size == l.file_size,
        remise_a_zero(l).file_modified == l.file_modified,
        remise_a_zero(l).uploaded_at == l.uploaded_at,
        remise_a_zero(l).server_photo_id == l.server_photo_id,
{
}

/// One more photo is counted in its own session, under its own status, and
/// nowhere else; photos are given in the order of the table.
pub proof fn loi_photos_comptees(s: Seq<PhotoVue>, l: PhotoVue, session_id: int, status: StatutPhoto)
    ensures
        de_session(Seq::empty(), session_id) == Seq::<PhotoVue>::empty(),
        de_statut(Seq::empty(), session_id, status) == Seq::<PhotoVue>::empty(),
        l.session_id == session_id ==> de_session(s.push(l), session_id) == de_session(
            s,
            session_id,
        ).push(l),
        l.session_id != session_id ==> de_session(s.push(l), session_id) == de_session(
            s,
            session_id,
        ),
        l.session_id == session_id && l.status == status ==> de_statut(
            s.push(l),
            session_id,
            status,
        ) == de_statut(s, session_id, status).push(l),
        l.session_id != session_id || l.status != status ==> de_statut(
            s.push(l),
            session_id,
            status,
        ) == de_statut(s, session_id, status),
{
    s.lemma_filter_push(l, |x: PhotoVue| x.session_id == session_id);
    s.lemma_filter_push(l, |x: PhotoVue| x.session_id == session_id && x.status == status);
    assert(de_session(Seq::empty(), session_id) =~= Seq::<PhotoVue>::empty()) by {
        reveal(Seq::filter);
    }
    assert(de_statut(Seq::empty(), session_id, status) =~= Seq::<PhotoVue>::empty()) by {
        reveal(Seq::filter);
    }
}

/// A photo is shown with all that its row holds.
pub proof fn loi_photo_montree(f: UploadFile, l: PhotoVue)
    requires
        est_montree(f, l),
    ensures
        f.id == l.id,
        f.session_id == l.session_id,
        f.filename@ == l.filename,
        f.file_path@ == l.file_path,
        f.file_size == l.file_size,
        f.status@ == l.status.nom(),
        f.attempts == l.attempts,
        texte::vue(f.last_error) == l.last_error,
        texte::vue(f.uploaded_at) == l.uploaded_at,
        f.server_photo_id == l.server_photo_id,
{
}

} // verus!
