//! The agent's commands: sessions, the video queue, the end of a recording.
//!
//! Each command alternates decisions, taken here, and outside work: the
//! network, the disk, FFmpeg. What is decided depends only on the state and
//! on what that work gave.

use crate::assembler::{AssembledClip, ClipTracker};
use crate::auth::{AuthData, UserInfo};
use crate::chrono_simple::Instant;
use crate::database::UploadFile;
use crate::frames::ExtractedFrame;
use crate::manifest::ManifestWriter;
use crate::recorder::RecordingHandle;
use crate::texte;
use crate::uploader;
use crate::uploader::{CompteurPhotos, Regulateur, MAX_PARALLEL};
use crate::video_queue;
use crate::video_queue::{ElementVu, LigneVue, QueueItem, QueueKind, StatutVideo, VideoQueue};
use crate::video_uploader::{
    ClipInfo, ClipStatus, ClipVariant, ErreurVideo, FrameToUpload, FrameTotals, LotImages,
    FRAMES_PAR_LOT,
};
use crate::watcher::FileJob;
use vstd::prelude::*;

verus! {

/// Video uploads at once.
pub const ENVOIS_VIDEO_SIMULTANES: usize = 2;

// ─── Logging in ────────────────────────────────────────────────────────

pub struct LoginResponse {
    pub token: String,
    pub user: UserInfo,
}

/// What the interface is told of a login.
pub fn connecter(auth: AuthData) -> (r: LoginResponse)
    ensures
        r.token == auth.token,
        r.user == auth.user,
{
    LoginResponse { token: auth.token, user: auth.user }
}

/// The edition shown, if any.
pub fn edition_affichee(edition: Option<&str>) -> (r: Option<String>)
    ensures
        texte::vue(r) == match edition {
            Some(e) => if texte::rogne(e@).len() > 0 {
                Some(texte::rogne(e@))
            } else {
                None
            },
            None => None,
        },
{
    match edition {
        None => None,
        Some(e) => {
            let v = texte::rogner(&texte::caracteres(e));
            if v.len() > 0 {
                Some(texte::en_texte(&v))
            } else {
                None
            }
        },
    }
}

// ─── The photo session ─────────────────────────────────────────────────

pub struct StartSessionResponse {
    pub session_id: i64,
    pub message: String,
}

/// The session under way.
#[derive(Clone, Copy, PartialEq, Eq, Structural, Debug)]
pub struct SessionEnCours {
    pub session_id: i64,
    pub running: bool,
    pub paused: bool,
}

/// Why a directory cannot be watched.
pub fn dossier_refuse(folder: &str, est_dossier: bool) -> (r: Option<String>)
    ensures
        est_dossier ==> r is None,
        !est_dossier ==> (r matches Some(m) && m@ == "Le dossier n'existe pas : "@ + folder@),
{
    if est_dossier {
        None
    } else {
        Some(texte::joindre("Le dossier n'existe pas : ", folder))
    }
}

/// The number of uploads asked for, within bounds.
pub fn parallele_demande(parallel: i32) -> (r: u32)
    ensures
        r == uploader::borne(parallel as int, 1, MAX_PARALLEL as int),
{
    if parallel < 1 {
        1
    } else if parallel > MAX_PARALLEL as i32 {
        MAX_PARALLEL
    } else {
        parallel as u32
    }
}

/// Starts a session in place of the one under way. Gives the number of the
/// latter, to be closed.
pub fn demarrer_session(
    session: &mut Option<SessionEnCours>,
    photos: &mut CompteurPhotos,
    session_id: i64,
) -> (r: Option<i64>)
    ensures
        *final(session) == Some(SessionEnCours { session_id, running: true, paused: false }),
        final(photos).en_cours == 0,
        !final(photos).en_pause,
        r == match *old(session) {
            Some(s) => Some(s.session_id),
            None => None,
        },
{
    let precedente: Option<i64> = match session {
        Some(s) => Some(s.session_id),
        None => None,
    };
    uploader::reinitialiser_photos_en_cours(photos);
    *session = Some(SessionEnCours { session_id, running: true, paused: false });
    precedente
}

/// What the interface is told of a session that starts.
pub fn reponse_demarrage(session_id: i64, event_name: &str) -> (r: StartSessionResponse)
    ensures
        r.session_id == session_id,
        r.message@ == "Surveillance démarrée pour '"@ + event_name@ + "'"@,
{
    StartSessionResponse {
        session_id,
        message: texte::joindre3("Surveillance démarrée pour '", event_name, "'"),
    }
}

/// Pauses photos, or resumes them. Video yields nothing to paused photos.
pub fn pauser_session(session: &mut Option<SessionEnCours>, photos: &mut CompteurPhotos, pause: bool) -> (r:
    Result<(), String>)
    ensures
        match *old(session) {
            Some(s) => {
                &&& r is Ok
                &&& *final(session) == Some(SessionEnCours { paused: pause, ..s })
                &&& final(photos).en_pause == pause
                &&& final(photos).en_cours == old(photos).en_cours
            },
            None => {
                &&& r matches Err(m) && m@ == "Aucune session active."@
                &&& *final(session) is None
                &&& *final(photos) == *old(photos)
            },
        },
{
    let s: SessionEnCours = match session {
        Some(s) => *s,
        None => {
            return Err("Aucune session active.".to_owned());
        },
    };
    *session = Some(SessionEnCours { session_id: s.session_id, running: s.running, paused: pause });
    uploader::photos_en_pause(photos, pause);
    Ok(())
}

/// Changes the number of uploads without starting the session again.
pub fn regler_parallele(
    session: &Option<SessionEnCours>,
    regulateur: &mut Regulateur,
    parallel: i32,
) -> (r: Result<u32, String>)
    ensures
        match *session {
            Some(_) => {
                &&& r == Ok::<u32, String>(
                    uploader::borne(parallel as int, 1, MAX_PARALLEL as int) as u32,
                )
                &&& final(regulateur).reglage() == uploader::borne(
                    parallel as int,
                    1,
                    MAX_PARALLEL as int,
                )
                &&& final(regulateur).parallele() == final(regulateur).reglage()
                &&& final(regulateur).echeance() == old(regulateur).echeance()
                &&& final(regulateur).changement() == old(regulateur).changement()
            },
            None => {
                &&& r matches Err(m) && m@ == "Aucune session active."@
                &&& *final(regulateur) == *old(regulateur)
            },
        },
{
    match session {
        Some(_) => {
            let n: u32 = parallele_demande(parallel);
            regulateur.regler(n);
            Ok(n)
        },
        None => Err("Aucune session active.".to_owned()),
    }
}

/// Ends the session. Gives its number, to be closed.
pub fn terminer_session(session: &mut Option<SessionEnCours>, photos: &mut CompteurPhotos) -> (r:
    Result<i64, String>)
    ensures
        *final(session) is None,
        match *old(session) {
            Some(s) => {
                &&& r == Ok::<i64, String>(s.session_id)
                &&& final(photos).en_cours == 0
                &&& !final(photos).en_pause
            },
            None => {
                &&& r matches Err(m) && m@ == "Aucune session active."@
                &&& *final(photos) == *old(photos)
            },
        },
{
    let id: i64 = match session {
        Some(s) => s.session_id,
        None => {
            return Err("Aucune session active.".to_owned());
        },
    };
    *session = None;
    uploader::reinitialiser_photos_en_cours(photos);
    Ok(id)
}

/// The photos that failed, as they are handed to the workers again.
pub fn travaux_a_reprendre(files: &Vec<UploadFile>) -> (r: Vec<FileJob>)
    ensures
        r@.len() == files@.len(),
        forall|i: int|
            0 <= i < r@.len() ==> {
                &&& (#[trigger] r@[i]).db_file_id == files@[i].id
                &&& r@[i].session_id == files@[i].session_id
                &&& r@[i].file_path@ == files@[i].file_path@
                &&& r@[i].filename@ == files@[i].filename@
                &&& r@[i].file_size == files@[i].file_size as u64
            },
{
    let mut r: Vec<FileJob> = Vec::new();
    let mut i: usize = 0;
    while i < files.len()
        invariant
            i <= files@.len(),
            r@.len() == i,
            forall|k: int|
                0 <= k < i ==> {
                    &&& (#[trigger] r@[k]).db_file_id == files@[k].id
                    &&& r@[k].session_id == files@[k].session_id
                    &&& r@[k].file_path@ == files@[k].file_path@
                    &&& r@[k].filename@ == files@[k].filename@
                    &&& r@[k].file_size == files@[k].file_size as u64
                },
        decreases files@.len() - i,
    {
        let f = &files[i];
        r.push(
            FileJob {
                db_file_id: f.id,
                session_id: f.session_id,
                file_path: f.file_path.clone(),
                filename: f.filename.clone(),
                file_size: #[verifier::truncate]
                (f.file_size as u64),
            },
        );
        i += 1;
    }
    r
}

// ─── The video queue ───────────────────────────────────────────────────

/// The kind of a file to be put in the queue.
pub fn nature_demandee(kind: &str) -> (r: Result<QueueKind, String>)
    ensures
        match r {
            Ok(k) => kind@ == k.nom(),
            Err(m) => m@ == "Nature inconnue : "@ + kind@ && forall|k: QueueKind|
                kind@ != #[trigger] k.nom(),
        },
{
    if texte::memes(kind, "frames") {
        Ok(QueueKind::Frames)
    } else if texte::memes(kind, "clip_proxy") {
        Ok(QueueKind::ClipProxy)
    } else if texte::memes(kind, "clip_hd") {
        Ok(QueueKind::ClipHd)
    } else {
        Err(texte::joindre("Nature inconnue : ", kind))
    }
}

/// What the interface is told after a turn of the queue.
pub enum ReponseFile {
    /// Two uploads are already running.
    Occupe,
    /// The server asks to wait that many seconds.
    Sature { attente: u64 },
    /// The server already had some of the files.
    Recoupee { skipped: usize, bytes_saved: i64 },
    /// A batch of frames was answered.
    Images { totaux: FrameTotals, envoyees: usize, echecs: usize, abandonnes: usize },
    /// A clip was received.
    Clip { id: i64, fichier: String, variante: ClipVariant, clip: ClipInfo },
    /// The upload failed.
    Echec { premier: Option<i64>, chemin: Option<String>, erreur: String, abandonne: bool },
}

/// What a turn of the queue does first.
pub enum Tour {
    /// Nothing waits.
    Vide,
    /// Ask the server what it holds of this session, before its first upload.
    Recouper(String),
    /// Take the next upload.
    Prendre,
}

/// The first step of a turn: a session is checked against the server once
/// before anything of it is sent.
pub fn commencer_tour(
    file: &VideoQueue,
    event_id: i64,
    autoriser_hd: bool,
    recoupees: &Vec<String>,
) -> (r: Tour)
    ensures
        ({
            let o = video_queue::ordre(file@, event_id, autoriser_hd);
            if o.len() == 0 {
                r is Vide
            } else if texte::vues(recoupees@).contains(o[0].session_id) {
                r is Prendre
            } else {
                r matches Tour::Recouper(s) && s@ == o[0].session_id
            }
        }),
{
    let tete = video_queue::prochains(file, event_id, autoriser_hd, 1);
    let ghost o = video_queue::ordre(file@, event_id, autoriser_hd);
    if tete.len() == 0 {
        assert(video_queue::elements(tete@).len() == 0);
        return Tour::Vide;
    }
    assert(video_queue::elements(tete@)[0] == o[0]);
    assert(tete@[0]@ == o[0]);
    if texte::figure(recoupees, tete[0].session_id.as_str()) {
        Tour::Prendre
    } else {
        Tour::Recouper(tete[0].session_id.clone())
    }
}

/// What the server holds, clip by clip.
pub open spec fn rapports(clips: Seq<ClipStatus>) -> Seq<(u32, bool, bool)> {
    clips.map_values(|c: ClipStatus| (c.index, c.has_proxy, c.has_hd))
}

fn en_rapports(clips: &Vec<ClipStatus>) -> (r: Vec<(u32, bool, bool)>)
    ensures
        r@ == rapports(clips@),
{
    let mut r: Vec<(u32, bool, bool)> = Vec::new();
    let mut i: usize = 0;
    while i < clips.len()
        invariant
            i <= clips@.len(),
            r@.len() == i,
            forall|k: int| 0 <= k < i ==> #[trigger] r@[k] == rapports(clips@)[k],
        decreases clips@.len() - i,
    {
        r.push((clips[i].index, clips[i].has_proxy, clips[i].has_hd));
        i += 1;
    }
    assert(r@ =~= rapports(clips@));
    r
}

/// The server told what it holds of a session: what it has is set aside, and
/// the session will not be checked again. Gives the answer of the turn when
/// something was set aside; otherwise the turn goes on.
pub fn recouper(
    file: &mut VideoQueue,
    recoupees: &mut Vec<String>,
    session_id: &str,
    clips: &Vec<ClipStatus>,
    maintenant: &str,
) -> (r: Option<ReponseFile>)
    requires
        old(file).inv(),
        video_queue::octets(
            old(file)@.filter(
                |l: LigneVue| video_queue::ecartee(l, session_id@, rapports(clips@)),
            ),
        ) <= i64::MAX,
    ensures
        final(file).inv(),
        final(file).compteur == old(file).compteur,
        final(file).dernier_insere == old(file).dernier_insere,
        final(file)@ == video_queue::modifiees(
            old(file)@,
            |l: LigneVue| video_queue::ecartee(l, session_id@, rapports(clips@)),
            |l: LigneVue| video_queue::envoyee(l, maintenant@),
        ),
        texte::vues(final(recoupees)@) == texte::vues(old(recoupees)@).push(session_id@),
        ({
            let ecartees = old(file)@.filter(
                |l: LigneVue| video_queue::ecartee(l, session_id@, rapports(clips@)),
            );
            if ecartees.len() > 0 {
                r matches Some(ReponseFile::Recoupee { skipped, bytes_saved }) && skipped
                    == ecartees.len() && bytes_saved == video_queue::octets(ecartees)
            } else {
                r is None
            }
        }),
{
    let deja = en_rapports(clips);
    let bilan = video_queue::reconcilier(file, session_id, &deja, maintenant);
    texte::ajouter(recoupees, session_id);
    if bilan.skipped > 0 {
        Some(ReponseFile::Recoupee { skipped: bilan.skipped, bytes_saved: bilan.bytes_saved })
    } else {
        None
    }
}

/// The server did not tell what it holds: a saturation is an answer, anything
/// else an error. The session stays to be checked.
pub fn echec_recoupement(e: ErreurVideo) -> (r: Result<ReponseFile, ErreurVideo>)
    ensures
        match e {
            ErreurVideo::Saturation { attente: a } => r matches Ok(ReponseFile::Sature { attente })
                && attente == a,
            _ => r == Err::<ReponseFile, ErreurVideo>(e),
        },
{
    match e {
        ErreurVideo::Saturation { attente } => Ok(ReponseFile::Sature { attente }),
        autre => Err(autre),
    }
}

/// An upload to perform.
pub enum Envoi {
    /// A batch of frames.
    Images { elements: Vec<QueueItem>, images: Vec<FrameToUpload> },
    /// A clip.
    Clip { element: QueueItem, variante: ClipVariant, index: u32, debut: String, fin: String },
}

/// A text, empty when there is none.
pub open spec fn ou_vide(o: Option<Seq<char>>) -> Seq<char> {
    match o {
        Some(s) => s,
        None => Seq::empty(),
    }
}

fn texte_ou_vide(o: &Option<String>) -> (r: String)
    ensures
        r@ == ou_vide(texte::vue(*o)),
{
    match o {
        Some(s) => s.clone(),
        None => {
            let r = String::new();
            assert(r@ =~= Seq::<char>::empty());
            r
        },
    }
}

/// The queue once every row of these elements that had no event has this one.
pub open spec fn rattachees(s: Seq<LigneVue>, lot: Seq<ElementVu>, event_id: i64) -> Seq<LigneVue>
    decreases lot.len(),
{
    if lot.len() == 0 {
        s
    } else {
        video_queue::modifiees(
            rattachees(s, lot.drop_last(), event_id),
            |l: LigneVue| l.element.id == lot.last().id && l.event_id is None,
            |l: LigneVue| LigneVue { event_id: Some(event_id), ..l },
        )
    }
}

/// Takes the next upload: its elements are reserved, and belong to the event
/// from then on.
pub fn prendre(file: &mut VideoQueue, event_id: i64, autoriser_hd: bool) -> (r: Option<Envoi>)
    requires
        old(file).inv(),
    ensures
        final(file).inv(),
        final(file).compteur == old(file).compteur,
        final(file).dernier_insere == old(file).dernier_insere,
        ({
            let lot = video_queue::prochain_lot(
                old(file)@,
                event_id,
                autoriser_hd,
                FRAMES_PAR_LOT as nat,
            );
            &&& final(file)@ == rattachees(
                video_queue::reservees(old(file)@, lot),
                lot,
                event_id,
            )
            &&& match r {
                None => lot.len() == 0,
                Some(Envoi::Images { elements, images }) => {
                    &&& lot.len() > 0
                    &&& lot[0].kind == QueueKind::Frames
                    &&& video_queue::elements(elements@) == lot
                    &&& images@.len() == lot.len()
                    &&& forall|k: int|
                        0 <= k < lot.len() ==> (#[trigger] images@[k]).path@ == lot[k].file_path
                            && images@[k].instant_at@ == ou_vide(lot[k].instant_at)
                },
                Some(Envoi::Clip { element, variante, index, debut, fin }) => {
                    &&& lot.len() == 1
                    &&& element@ == lot[0]
                    &&& lot[0].kind != QueueKind::Frames
                    &&& (variante == ClipVariant::Proxy) == (lot[0].kind == QueueKind::ClipProxy)
                    &&& index == match lot[0].clip_index {
                        Some(i) => i,
                        None => 0u32,
                    }
                    &&& debut@ == ou_vide(lot[0].started_at)
                    &&& fin@ == ou_vide(lot[0].ended_at)
                },
            }
        }),
{
    let ghost avant = file@;
    let mut elements = video_queue::reserver_prochain_envoi(
        file,
        event_id,
        autoriser_hd,
        FRAMES_PAR_LOT,
    );
    let ghost lot = video_queue::elements(elements@);
    let ghost reservee = file@;
    let mut i: usize = 0;
    assert(rattachees(reservee, lot.take(0), event_id) == reservee);
    while i < elements.len()
        invariant
            file.inv(),
            file.compteur == old(file).compteur,
            file.dernier_insere == old(file).dernier_insere,
            i <= elements@.len(),
            lot == video_queue::elements(elements@),
            file@ == rattachees(reservee, lot.take(i as int), event_id),
        decreases elements@.len() - i,
    {
        assert(lot.take(i + 1).drop_last() =~= lot.take(i as int));
        assert(lot.take(i + 1).last() == elements@[i as int]@);
        video_queue::attribuer_evenement(file, elements[i].id, event_id);
        i += 1;
    }
    assert(lot.take(lot.len() as int) =~= lot);
    if elements.len() == 0 {
        return None;
    }
    assert(lot[0] == elements@[0]@);
    if elements[0].kind == QueueKind::Frames {
        let mut images: Vec<FrameToUpload> = Vec::new();
        let mut k: usize = 0;
        while k < elements.len()
            invariant
                k <= elements@.len(),
                lot == video_queue::elements(elements@),
                images@.len() == k,
                forall|m: int|
                    0 <= m < k ==> (#[trigger] images@[m]).path@ == lot[m].file_path
                        && images@[m].instant_at@ == ou_vide(lot[m].instant_at),
            decreases elements@.len() - k,
        {
            assert(lot[k as int] == elements@[k as int]@);
            images.push(
                FrameToUpload {
                    path: elements[k].file_path.clone(),
                    instant_at: texte_ou_vide(&elements[k].instant_at),
                },
            );
            k += 1;
        }
        return Some(Envoi::Images { elements, images });
    }
    proof {
        let o = video_queue::ordre(avant, event_id, autoriser_hd);
        assert(lot == seq![o[0]]) by {
            if o[0].kind == QueueKind::Frames {
                lemme_images_frames(avant, event_id, o[0].session_id, FRAMES_PAR_LOT as nat);
            }
        }
    }
    let element = elements.remove(0);
    let variante = if element.kind == QueueKind::ClipProxy {
        ClipVariant::Proxy
    } else {
        ClipVariant::Hd
    };
    let index: u32 = match element.clip_index {
        Some(i) => i,
        None => 0,
    };
    let debut = texte_ou_vide(&element.started_at);
    let fin = texte_ou_vide(&element.ended_at);
    Some(Envoi::Clip { element, variante, index, debut, fin })
}

/// The frames of a session are frames.
proof fn lemme_images_frames(s: Seq<LigneVue>, event_id: i64, session_id: Seq<char>, max: nat)
    ensures
        forall|i: int|
            0 <= i < video_queue::premiers(
                video_queue::images_de_session(s, event_id, session_id),
                max,
            ).len() ==> (#[trigger] video_queue::premiers(
                video_queue::images_de_session(s, event_id, session_id),
                max,
            )[i]).kind == QueueKind::Frames,
{
    let p = |l: LigneVue|
        video_queue::attend(l, event_id, QueueKind::Frames) && l.element.session_id == session_id;
    let f = s.filter(p);
    let t = video_queue::images_de_session(s, event_id, session_id);
    let q = video_queue::premiers(t, max);
    assert forall|i: int| 0 <= i < q.len() implies (#[trigger] q[i]).kind == QueueKind::Frames by {
        broadcast use vstd::seq_lib::group_filter_ensures;

        assert(q[i] == f[i].element);
        assert(p(f[i]));
    }
}

// ─── Conclusions ───────────────────────────────────────────────────────

/// The queue once these elements are released.
pub open spec fn liberees(s: Seq<LigneVue>, lot: Seq<ElementVu>) -> Seq<LigneVue>
    decreases lot.len(),
{
    if lot.len() == 0 {
        s
    } else {
        video_queue::modifiees(
            liberees(s, lot.drop_last()),
            |l: LigneVue| l.element.id == lot.last().id && l.status == StatutVideo::Sending,
            |l: LigneVue| video_queue::avec_statut(l, StatutVideo::Pending),
        )
    }
}

/// The queue once these elements have failed.
pub open spec fn echouees(s: Seq<LigneVue>, lot: Seq<ElementVu>, erreur: Seq<char>) -> Seq<LigneVue>
    decreases lot.len(),
{
    if lot.len() == 0 {
        s
    } else {
        video_queue::modifiees(
            echouees(s, lot.drop_last(), erreur),
            |l: LigneVue| l.element.id == lot.last().id,
            |l: LigneVue| video_queue::echouee(l, erreur),
        )
    }
}

/// One of these elements is given up by this failure.
pub open spec fn un_abandon(s: Seq<LigneVue>, lot: Seq<ElementVu>, erreur: Seq<char>) -> bool
    decreases lot.len(),
{
    lot.len() > 0 && (un_abandon(s, lot.drop_last(), erreur) || abandonne(
        echouees(s, lot.drop_last(), erreur),
        lot.last().id,
    ))
}

/// The next failure of this element is its last.
pub open spec fn abandonne(s: Seq<LigneVue>, id: int) -> bool {
    exists|i: int|
        0 <= i < s.len() && (#[trigger] s[i]).element.id == id && s[i].element.attempts + 1
            >= video_queue::ECHECS_ADMIS
}

/// Is the element of this rank refused? All are when no rank is named.
pub open spec fn refuse(echecs: Option<Seq<usize>>, rang: int) -> bool {
    match echecs {
        None => true,
        Some(e) => e.contains(rang as usize),
    }
}

/// How often, from the rank `depuis` on, the element of that number is
/// refused.
pub open spec fn refus(lot: Seq<ElementVu>, echecs: Option<Seq<usize>>, depuis: int, id: int) -> nat
    decreases lot.len() - depuis,
{
    if depuis >= lot.len() {
        0
    } else {
        refus(lot, echecs, depuis + 1, id) + if lot[depuis].id == id && refuse(echecs, depuis) {
            1nat
        } else {
            0nat
        }
    }
}

/// The refusals of these elements, from the rank `depuis` on, can be counted:
/// none of them has been tried too often already.
pub open spec fn essais_comptables(
    s: Seq<LigneVue>,
    lot: Seq<ElementVu>,
    echecs: Option<Seq<usize>>,
    depuis: int,
) -> bool {
    forall|i: int|
        0 <= i < s.len() && refus(lot, echecs, depuis, (#[trigger] s[i]).element.id) > 0
            ==> s[i].element.attempts + refus(lot, echecs, depuis, s[i].element.id) <= i64::MAX
}

/// What a failed upload leaves. After an expired session, or when the server
/// is saturated, the elements wait again as if nothing had been tried;
/// otherwise each has failed once more.
pub fn conclure_echec(file: &mut VideoQueue, elements: &Vec<QueueItem>, e: ErreurVideo) -> (r: Result<
    ReponseFile,
    ErreurVideo,
>)
    requires
        old(file).inv(),
        !e.expiree() && !(e is Saturation) ==> essais_comptables(
            old(file)@,
            video_queue::elements(elements@),
            None,
            0,
        ),
    ensures
        final(file).inv(),
        final(file).compteur == old(file).compteur,
        final(file).dernier_insere == old(file).dernier_insere,
        ({
            let lot = video_queue::elements(elements@);
            if e.expiree() {
                &&& final(file)@ == liberees(old(file)@, lot)
                &&& r == Err::<ReponseFile, ErreurVideo>(e)
            } else if e is Saturation {
                &&& final(file)@ == liberees(old(file)@, lot)
                &&& r matches Ok(ReponseFile::Sature { attente })
                &&& attente == e->attente
            } else {
                &&& final(file)@ == echouees(old(file)@, lot, e.dit())
                &&& r matches Ok(ReponseFile::Echec { premier: id, chemin: fichier, erreur, abandonne })
                &&& erreur@ == e.dit()
                &&& abandonne == un_abandon(old(file)@, lot, e.dit())
                &&& id == if lot.len() > 0 {
                    Some(elements@[0].id)
                } else {
                    None
                }
                &&& texte::vue(fichier) == if lot.len() > 0 {
                    Some(lot[0].file_path)
                } else {
                    None
                }
            }
        }),
{
    let ghost avant = file@;
    let ghost lot = video_queue::elements(elements@);
    let expiree: bool = e.est_expiree();
    let attente: Option<u64> = crate::video_uploader::attente_si_sature(&e);
    let mut i: usize = 0;
    if expiree || attente.is_some() {
        assert(liberees(avant, lot.take(0)) == avant);
        while i < elements.len()
            invariant
                file.inv(),
                file.compteur == old(file).compteur,
                file.dernier_insere == old(file).dernier_insere,
                i <= elements@.len(),
                lot == video_queue::elements(elements@),
                file@ == liberees(avant, lot.take(i as int)),
            decreases elements@.len() - i,
        {
            assert(lot.take(i + 1).drop_last() =~= lot.take(i as int));
            assert(lot.take(i + 1).last() == elements@[i as int]@);
            video_queue::liberer(file, elements[i].id);
            i += 1;
        }
        assert(lot.take(lot.len() as int) =~= lot);
        return match attente {
            Some(attente) => Ok(ReponseFile::Sature { attente }),
            None => Err(e),
        };
    }
    let erreur = e.texte();
    let mut un_abandonne = false;
    assert(echouees(avant, lot.take(0), erreur@) == avant);
    while i < elements.len()
        invariant
            file.inv(),
            file.compteur == old(file).compteur,
            file.dernier_insere == old(file).dernier_insere,
            i <= elements@.len(),
            lot == video_queue::elements(elements@),
            essais_comptables(file@, lot, None, i as int),
            file@ == echouees(avant, lot.take(i as int), erreur@),
            un_abandonne == un_abandon(avant, lot.take(i as int), erreur@),
        decreases elements@.len() - i,
    {
        assert(lot.take(i + 1).drop_last() =~= lot.take(i as int));
        assert(lot.take(i + 1).last() == elements@[i as int]@);
        let ghost ici = file@;
        assert(lot[i as int] == elements@[i as int]@);
        assert forall|k: int|
            0 <= k < ici.len() && (#[trigger] ici[k]).element.id
                == elements@[i as int].id implies ici[k].element.attempts < i64::MAX by {
            assert(refus(lot, None, i as int, ici[k].element.id) > 0);
        }
        let dernier: bool = video_queue::marquer_echec(file, elements[i].id, erreur.as_str());
        assert(dernier == abandonne(ici, elements@[i as int]@.id));
        assert forall|k: int|
            0 <= k < file@.len() && refus(lot, None, i + 1, (#[trigger] file@[k]).element.id)
                > 0 implies file@[k].element.attempts + refus(lot, None, i + 1, file@[k].element.id)
            <= i64::MAX by {
            assert(ici[k].element.id == file@[k].element.id);
        }
        un_abandonne = un_abandonne || dernier;
        i += 1;
    }
    assert(lot.take(lot.len() as int) =~= lot);
    let (id, fichier) = if elements.len() > 0 {
        assert(lot[0] == elements@[0]@);
        (Some(elements[0].id), Some(elements[0].file_path.clone()))
    } else {
        (None, None)
    };
    Ok(
        ReponseFile::Echec { premier: id, chemin: fichier, erreur, abandonne: un_abandonne },
    )
}

/// The queue after a batch of frames: the element of rank `k` has failed if
/// `k` is among the refusals, and is sent otherwise.
pub open spec fn lot_conclu(
    s: Seq<LigneVue>,
    lot: Seq<ElementVu>,
    echecs: Seq<usize>,
    maintenant: Seq<char>,
) -> Seq<LigneVue>
    decreases lot.len(),
{
    if lot.len() == 0 {
        s
    } else {
        let avant = lot_conclu(s, lot.drop_last(), echecs, maintenant);
        if echecs.contains((lot.len() - 1) as usize) {
            video_queue::modifiees(
                avant,
                |l: LigneVue| l.element.id == lot.last().id,
                |l: LigneVue| video_queue::echouee(l, "Analyse refusée"@),
            )
        } else {
            video_queue::modifiees(
                avant,
                |l: LigneVue| l.element.id == lot.last().id,
                |l: LigneVue| video_queue::envoyee(l, maintenant),
            )
        }
    }
}

/// How many elements of a batch are given up.
pub open spec fn abandons(
    s: Seq<LigneVue>,
    lot: Seq<ElementVu>,
    echecs: Seq<usize>,
    maintenant: Seq<char>,
) -> int
    decreases lot.len(),
{
    if lot.len() == 0 {
        0
    } else {
        let d = lot.drop_last();
        abandons(s, d, echecs, maintenant) + if echecs.contains((lot.len() - 1) as usize)
            && abandonne(lot_conclu(s, d, echecs, maintenant), lot.last().id) {
            1int
        } else {
            0int
        }
    }
}

fn figure_parmi(v: &Vec<usize>, n: usize) -> (r: bool)
    ensures
        r == v@.contains(n),
{
    let mut i: usize = 0;
    while i < v.len()
        invariant
            i <= v@.len(),
            forall|k: int| 0 <= k < i ==> v@[k] != n,
        decreases v@.len() - i,
    {
        if v[i] == n {
            assert(v@[i as int] == n);
            return true;
        }
        i += 1;
    }
    false
}

/// Concludes a batch of frames: what the server refused has failed once
/// more, the rest is sent.
pub fn conclure_images(
    file: &mut VideoQueue,
    elements: &Vec<QueueItem>,
    resultat: Result<LotImages, ErreurVideo>,
    maintenant: &str,
) -> (r: Result<ReponseFile, ErreurVideo>)
    requires
        old(file).inv(),
        resultat matches Ok(lot) ==> lot.echecs@.len() <= elements@.len() && essais_comptables(
            old(file)@,
            video_queue::elements(elements@),
            Some(lot.echecs@),
            0,
        ),
        resultat matches Err(e) ==> !e.expiree() && !(e is Saturation) ==> essais_comptables(
            old(file)@,
            video_queue::elements(elements@),
            None,
            0,
        ),
    ensures
        final(file).inv(),
        final(file).compteur == old(file).compteur,
        final(file).dernier_insere == old(file).dernier_insere,
        resultat matches Ok(lot) ==> {
            let vus = video_queue::elements(elements@);
            &&& final(file)@ == lot_conclu(old(file)@, vus, lot.echecs@, maintenant@)
            &&& r matches Ok(ReponseFile::Images { totaux, envoyees, echecs, abandonnes })
            &&& totaux == lot.totaux
            &&& envoyees == elements@.len() - lot.echecs@.len()
            &&& echecs == lot.echecs@.len()
            &&& abandonnes == abandons(old(file)@, vus, lot.echecs@, maintenant@)
        },
        resultat matches Err(e) ==> {
            let vus = video_queue::elements(elements@);
            if e.expiree() {
                &&& final(file)@ == liberees(old(file)@, vus)
                &&& r == Err::<ReponseFile, ErreurVideo>(e)
            } else if e is Saturation {
                &&& final(file)@ == liberees(old(file)@, vus)
                &&& r matches Ok(ReponseFile::Sature { attente })
                &&& attente == e->attente
            } else {
                &&& final(file)@ == echouees(old(file)@, vus, e.dit())
                &&& r matches Ok(ReponseFile::Echec { premier, chemin, erreur, abandonne })
                &&& erreur@ == e.dit()
                &&& abandonne == un_abandon(old(file)@, vus, e.dit())
                &&& vus.len() > 0 ==> premier == Some(elements@[0].id) && texte::vue(chemin) == Some(
                    vus[0].file_path,
                )
                &&& vus.len() == 0 ==> premier is None && chemin is None
            }
        },
{
    let lot = match resultat {
        Ok(lot) => lot,
        Err(e) => {
            return conclure_echec(file, elements, e);
        },
    };
    let ghost avant = file@;
    let ghost vus = video_queue::elements(elements@);
    let ghost echecs = lot.echecs@;
    let mut abandonnes: usize = 0;
    let mut i: usize = 0;
    assert(lot_conclu(avant, vus.take(0), echecs, maintenant@) == avant);
    while i < elements.len()
        invariant
            file.inv(),
            file.compteur == old(file).compteur,
            file.dernier_insere == old(file).dernier_insere,
            i <= elements@.len(),
            vus == video_queue::elements(elements@),
            echecs == lot.echecs@,
            essais_comptables(file@, vus, Some(echecs), i as int),
            file@ == lot_conclu(avant, vus.take(i as int), echecs, maintenant@),
            abandonnes == abandons(avant, vus.take(i as int), echecs, maintenant@),
            abandonnes <= i,
        decreases elements@.len() - i,
    {
        assert(vus.take(i + 1).drop_last() =~= vus.take(i as int));
        assert(vus.take(i + 1).last() == elements@[i as int]@);
        let ghost ici = file@;
        assert(vus[i as int] == elements@[i as int]@);
        if figure_parmi(&lot.echecs, i) {
            assert forall|k: int|
                0 <= k < ici.len() && (#[trigger] ici[k]).element.id
                    == elements@[i as int].id implies ici[k].element.attempts < i64::MAX by {
                assert(refuse(Some(echecs), i as int));
                assert(refus(vus, Some(echecs), i as int, ici[k].element.id) > 0);
            }
            let dernier: bool = video_queue::marquer_echec(file, elements[i].id, "Analyse refusée");
            assert(dernier == abandonne(ici, elements@[i as int]@.id));
            if dernier {
                abandonnes += 1;
            }
        } else {
            video_queue::marquer_envoye(file, elements[i].id, maintenant);
        }
        assert forall|k: int|
            0 <= k < file@.len() && refus(
                vus,
                Some(echecs),
                i + 1,
                (#[trigger] file@[k]).element.id,
            ) > 0 implies file@[k].element.attempts + refus(
            vus,
            Some(echecs),
            i + 1,
            file@[k].element.id,
        ) <= i64::MAX by {
            assert(ici[k].element.id == file@[k].element.id);
        }
        i += 1;
    }
    assert(vus.take(vus.len() as int) =~= vus);
    Ok(
        ReponseFile::Images {
            totaux: lot.totaux,
            envoyees: elements.len() - lot.echecs.len(),
            echecs: lot.echecs.len(),
            abandonnes,
        },
    )
}

/// Concludes the upload of a clip.
pub fn conclure_clip(
    file: &mut VideoQueue,
    element: QueueItem,
    variante: ClipVariant,
    resultat: Result<ClipInfo, ErreurVideo>,
    maintenant: &str,
) -> (r: Result<ReponseFile, ErreurVideo>)
    requires
        old(file).inv(),
        resultat matches Err(e) ==> !e.expiree() && !(e is Saturation) ==> essais_comptables(
            old(file)@,
            seq![element@],
            None,
            0,
        ),
    ensures
        final(file).inv(),
        final(file).compteur == old(file).compteur,
        final(file).dernier_insere == old(file).dernier_insere,
        match resultat {
            Ok(c) => {
                &&& final(file)@ == video_queue::modifiees(
                    old(file)@,
                    |l: LigneVue| l.element.id == element.id,
                    |l: LigneVue| video_queue::envoyee(l, maintenant@),
                )
                &&& r matches Ok(ReponseFile::Clip { id, fichier, variante: v, clip })
                &&& id == element.id
                &&& fichier@ == element.file_path@
                &&& v == variante
                &&& clip == c
            },
            Err(e) => if e.expiree() {
                &&& final(file)@ == liberees(old(file)@, seq![element@])
                &&& r == Err::<ReponseFile, ErreurVideo>(e)
            } else if e is Saturation {
                &&& final(file)@ == liberees(old(file)@, seq![element@])
                &&& r matches Ok(ReponseFile::Sature { attente })
                &&& attente == e->attente
            } else {
                &&& final(file)@ == echouees(old(file)@, seq![element@], e.dit())
                &&& r matches Ok(ReponseFile::Echec { premier: id, chemin: fichier, erreur, abandonne })
                &&& id == Some(element.id)
                &&& texte::vue(fichier) == Some(element.file_path@)
                &&& erreur@ == e.dit()
                &&& abandonne == un_abandon(old(file)@, seq![element@], e.dit())
            },
        },
{
    match resultat {
        Ok(clip) => {
            video_queue::marquer_envoye(file, element.id, maintenant);
            Ok(ReponseFile::Clip { id: element.id, fichier: element.file_path, variante, clip })
        },
        Err(e) => {
            let mut seul: Vec<QueueItem> = Vec::new();
            let ghost vu = element@;
            seul.push(element);
            assert(video_queue::elements(seul@) =~= seq![vu]);
            conclure_echec(file, &seul, e)
        },
    }
}

/// An element of the batch has this number.
pub open spec fn du_lot(lot: Seq<ElementVu>, id: int) -> bool {
    exists|k: int| 0 <= k < lot.len() && (#[trigger] lot[k]).id == id
}

proof fn lemme_du_lot(lot: Seq<ElementVu>, id: int)
    requires
        lot.len() > 0,
    ensures
        du_lot(lot, id) == (du_lot(lot.drop_last(), id) || lot.last().id == id),
{
    let d = lot.drop_last();
    if du_lot(d, id) {
        let k = choose|k: int| 0 <= k < d.len() && (#[trigger] d[k]).id == id;
        assert(lot[k].id == id);
    }
    if lot.last().id == id {
        assert(lot[lot.len() - 1].id == id);
    }
    if du_lot(lot, id) && lot.last().id != id {
        let k = choose|k: int| 0 <= k < lot.len() && (#[trigger] lot[k]).id == id;
        assert(d[k].id == id);
    }
}

proof fn lemme_liberees(s: Seq<LigneVue>, lot: Seq<ElementVu>, i: int)
    requires
        0 <= i < s.len(),
    ensures
        liberees(s, lot).len() == s.len(),
        liberees(s, lot)[i] == if du_lot(lot, s[i].element.id) && s[i].status
            == StatutVideo::Sending {
            video_queue::avec_statut(s[i], StatutVideo::Pending)
        } else {
            s[i]
        },
    decreases lot.len(),
{
    if lot.len() > 0 {
        lemme_liberees(s, lot.drop_last(), i);
        lemme_du_lot(lot, s[i].element.id);
    }
}

proof fn lemme_rattachees(s: Seq<LigneVue>, lot: Seq<ElementVu>, event_id: i64, i: int)
    requires
        0 <= i < s.len(),
    ensures
        rattachees(s, lot, event_id).len() == s.len(),
        rattachees(s, lot, event_id)[i].element == s[i].element,
        rattachees(s, lot, event_id)[i].status == s[i].status,
        rattachees(s, lot, event_id)[i].event_id == if du_lot(lot, s[i].element.id)
            && s[i].event_id is None {
            Some(event_id)
        } else {
            s[i].event_id
        },
    decreases lot.len(),
{
    if lot.len() > 0 {
        lemme_rattachees(s, lot.drop_last(), event_id, i);
        lemme_du_lot(lot, s[i].element.id);
    }
}

/// What an upload takes was waiting: the row of each of its elements waits.
proof fn lemme_lot_en_attente(
    s: Seq<LigneVue>,
    compteur: int,
    event_id: i64,
    autoriser_hd: bool,
    max: nat,
    i: int,
)
    requires
        video_queue::file_saine(s, compteur),
        0 <= i < s.len(),
    ensures
        ({
            let lot = video_queue::prochain_lot(s, event_id, autoriser_hd, max);
            &&& du_lot(lot, s[i].element.id) == lot.contains(s[i].element)
            &&& du_lot(lot, s[i].element.id) ==> s[i].status == StatutVideo::Pending
        }),
{
    let lot = video_queue::prochain_lot(s, event_id, autoriser_hd, max);
    let o = video_queue::ordre(s, event_id, autoriser_hd);
    if lot.contains(s[i].element) {
        let k = lot.index_of(s[i].element);
        assert(lot[k].id == s[i].element.id);
    }
    if du_lot(lot, s[i].element.id) {
        let k = choose|k: int| 0 <= k < lot.len() && (#[trigger] lot[k]).id == s[i].element.id;
        let j = if o[0].kind == QueueKind::Frames {
            let session = o[0].session_id;
            let p = |l: LigneVue|
                video_queue::attend(l, event_id, QueueKind::Frames) && l.element.session_id
                    == session;
            let f = s.filter(p);
            assert(lot[k] == f[k].element);
            broadcast use vstd::seq_lib::group_filter_ensures;

            assert(p(f[k]));
            s.lemma_filter_contains_rev(p, f[k]);
            s.index_of(f[k])
        } else {
            video_queue::lemme_ordre_ligne(s, event_id, autoriser_hd, 0);
            choose|j: int|
                0 <= j < s.len() && (#[trigger] s[j]).element == o[0] && video_queue::attend(
                    s[j],
                    event_id,
                    s[j].element.kind,
                )
        };
        assert(s[j].element == lot[k] && s[j].status == StatutVideo::Pending);
        if i < j {
            assert(s[i].element.id < s[j].element.id);
        } else if j < i {
            assert(s[j].element.id < s[i].element.id);
        }
        assert(lot.contains(lot[k]));
    }
}

/// A saturation costs nothing: what the upload had taken waits again, as
/// often tried as before, and every other element stands where it stood.
pub proof fn loi_saturation_sans_tentative(
    s: Seq<LigneVue>,
    compteur: int,
    event_id: i64,
    autoriser_hd: bool,
    max: nat,
    i: int,
)
    requires
        video_queue::file_saine(s, compteur),
        0 <= i < s.len(),
    ensures
        ({
            let lot = video_queue::prochain_lot(s, event_id, autoriser_hd, max);
            let prise = rattachees(video_queue::reservees(s, lot), lot, event_id);
            let rendue = liberees(prise, lot);
            &&& rendue.len() == s.len()
            &&& rendue[i].element == s[i].element
            &&& rendue[i].status == s[i].status
        }),
{
    let lot = video_queue::prochain_lot(s, event_id, autoriser_hd, max);
    let reservee = video_queue::reservees(s, lot);
    let prise = rattachees(reservee, lot, event_id);
    lemme_lot_en_attente(s, compteur, event_id, autoriser_hd, max, i);
    lemme_rattachees(reservee, lot, event_id, i);
    lemme_liberees(prise, lot, i);
}

/// After a batch of frames was answered, none of its elements is still held:
/// each is sent, waits again, or is given up. Other elements are untouched.
pub proof fn loi_lot_conclu(
    s: Seq<LigneVue>,
    lot: Seq<ElementVu>,
    echecs: Seq<usize>,
    maintenant: Seq<char>,
    i: int,
)
    requires
        0 <= i < s.len(),
    ensures
        lot_conclu(s, lot, echecs, maintenant).len() == s.len(),
        lot_conclu(s, lot, echecs, maintenant)[i].element.id == s[i].element.id,
        du_lot(lot, s[i].element.id) ==> lot_conclu(s, lot, echecs, maintenant)[i].status
            != StatutVideo::Sending,
        !du_lot(lot, s[i].element.id) ==> lot_conclu(s, lot, echecs, maintenant)[i] == s[i],
    decreases lot.len(),
{
    if lot.len() > 0 {
        loi_lot_conclu(s, lot.drop_last(), echecs, maintenant, i);
        lemme_du_lot(lot, s[i].element.id);
    }
}

// ─── How many uploads at once ──────────────────────────────────────────

/// The video uploads under way.
pub struct EnvoisVideo {
    en_cours: usize,
}

impl EnvoisVideo {
    /// Never more than may run at once.
    #[verifier::type_invariant]
    spec fn bornes(self) -> bool {
        self.en_cours <= ENVOIS_VIDEO_SIMULTANES
    }

    /// How many there are.
    pub closed spec fn nombre(self) -> nat {
        self.en_cours as nat
    }

    pub fn new() -> (r: Self)
        ensures
            r.nombre() == 0,
    {
        EnvoisVideo { en_cours: 0 }
    }

    /// Takes a place for an upload; false when all are taken.
    pub fn commencer(&mut self) -> (r: bool)
        ensures
            r == (old(self).nombre() < ENVOIS_VIDEO_SIMULTANES),
            final(self).nombre() == if r {
                old(self).nombre() + 1
            } else {
                old(self).nombre()
            },
            final(self).nombre() <= ENVOIS_VIDEO_SIMULTANES,
    {
        proof {
            use_type_invariant(&*self);
        }
        if self.en_cours < ENVOIS_VIDEO_SIMULTANES {
            self.en_cours = self.en_cours + 1;
            true
        } else {
            false
        }
    }

    /// Gives a place back.
    pub fn finir(&mut self)
        requires
            old(self).nombre() > 0,
        ensures
            final(self).nombre() == old(self).nombre() - 1,
    {
        proof {
            use_type_invariant(&*self);
        }
        self.en_cours = self.en_cours - 1;
    }
}

// ─── The end of a recording ────────────────────────────────────────────

/// What the end of a recording could save.
pub struct FinDeCaptation {
    pub session_id: String,
    /// The piece that FFmpeg still had open.
    pub morceau_final: Option<u32>,
    /// False when that piece could not be closed: the last seconds are lost.
    pub morceau_final_exploitable: bool,
    /// What to tell the photographer.
    pub avertissement: Option<String>,
    pub frames: Vec<ExtractedFrame>,
    pub clips: Vec<AssembledClip>,
}

/// Asks a recording to stop: there must be one, and no stop under way.
pub fn demander_arret(captation: &mut Option<RecordingHandle>) -> (r: Result<(), String>)
    ensures
        match *old(captation) {
            None => *final(captation) is None && (r matches Err(m) && m@
                == "Aucune captation en cours."@),
            Some(h) => {
                &&& *final(captation) == Some(RecordingHandle { arret_demande: true, ..h })
                &&& h.arret_demande ==> (r matches Err(m) && m@ == "ARRET_EN_COURS"@)
                &&& !h.arret_demande ==> r is Ok
            },
        },
{
    match captation.take() {
        None => Err("Aucune captation en cours.".to_owned()),
        Some(mut h) => {
            let r = h.demander_arret();
            *captation = Some(h);
            r
        },
    }
}

impl FinDeCaptation {
    /// The photographer is warned exactly when a piece was left open and
    /// cannot be read.
    pub open spec fn averti(self) -> bool {
        self.avertissement is Some <==> self.morceau_final is Some
            && !self.morceau_final_exploitable
    }

    /// A recording that has stopped, with the piece left open.
    pub fn new(session_id: &str, morceau_final: Option<u32>) -> (r: Self)
        ensures
            r.session_id@ == session_id@,
            r.morceau_final == morceau_final,
            !r.morceau_final_exploitable,
            r.avertissement is None,
            r.frames@.len() == 0,
            r.clips@.len() == 0,
    {
        FinDeCaptation {
            session_id: session_id.to_owned(),
            morceau_final,
            morceau_final_exploitable: false,
            avertissement: None,
            frames: Vec::new(),
            clips: Vec::new(),
        }
    }

    /// Takes note of whether the last piece can be read: a piece that was not
    /// closed has no duration. Gives the piece to save, if any.
    pub fn constater(&mut self, lisible: bool) -> (r: Option<u32>)
        ensures
            final(self).session_id == old(self).session_id,
            final(self).morceau_final == old(self).morceau_final,
            final(self).frames == old(self).frames,
            final(self).clips == old(self).clips,
            match old(self).morceau_final {
                None => r is None && *final(self) == *old(self),
                Some(index) => if lisible {
                    &&& r == Some(index)
                    &&& final(self).morceau_final_exploitable
                    &&& final(self).avertissement == old(self).avertissement
                } else {
                    &&& r is None
                    &&& final(self).morceau_final_exploitable == old(
                        self,
                    ).morceau_final_exploitable
                    &&& final(self).avertissement matches Some(m) && m@ == "Le morceau "@
                        + texte::decimal(index as nat)
                        + " n'a pas pu être refermé : les dernières secondes filmées sont perdues."@
                },
            },
    {
        match self.morceau_final {
            None => None,
            Some(index) => {
                if lisible {
                    self.morceau_final_exploitable = true;
                    Some(index)
                } else {
                    self.avertissement = Some(
                        texte::joindre3(
                            "Le morceau ",
                            texte::ecrire(index as u64).as_str(),
                            " n'a pas pu être refermé : les dernières secondes filmées sont perdues.",
                        ),
                    );
                    None
                }
            },
        }
    }
}

// ─── Stopping, step by step ────────────────────────────────────────────

/// What remains to be done once FFmpeg has stopped. The frames of the last
/// piece come before its clip, for they tell who passed; the shorter last clip
/// comes after the full ones, and the recording is closed when nothing needs
/// it any more.
#[derive(Clone, Copy, PartialEq, Eq, Structural, Debug)]
pub enum EtapeArret {
    /// See whether the last piece can be read.
    Sonder(u32),
    /// Extract the frames of the last piece.
    Images(u32),
    /// Announce the last piece, and make the clip that it completes.
    Assembler(u32),
    /// Make a last clip with what is left.
    ClipFinal,
    /// Close the recording.
    Clore,
}

/// How many steps are left.
pub open spec fn etapes_restantes(e: EtapeArret) -> int {
    match e {
        EtapeArret::Sonder(_) => 4,
        EtapeArret::Images(_) => 3,
        EtapeArret::Assembler(_) => 2,
        EtapeArret::ClipFinal => 1,
        EtapeArret::Clore => 0,
    }
}

/// The end of a recording: where it stands, and what it saved so far.
pub struct Rattrapage {
    pub etape: EtapeArret,
    pub fin: FinDeCaptation,
}

impl Rattrapage {
    /// The piece at hand is the one left open. Once it was looked at, the
    /// photographer is warned exactly when there is one that cannot be read.
    pub open spec fn inv(self) -> bool {
        match self.etape {
            EtapeArret::Sonder(index) => {
                &&& self.fin.morceau_final == Some(index)
                &&& !self.fin.morceau_final_exploitable
                &&& self.fin.avertissement is None
            },
            EtapeArret::Images(index) | EtapeArret::Assembler(index) => {
                &&& self.fin.morceau_final == Some(index)
                &&& self.fin.averti()
            },
            EtapeArret::ClipFinal | EtapeArret::Clore => self.fin.averti(),
        }
    }

    /// FFmpeg has stopped, and left that piece open.
    pub fn new(session_id: &str, morceau_final: Option<u32>) -> (r: Self)
        ensures
            r.inv(),
            r.etape == match morceau_final {
                Some(index) => EtapeArret::Sonder(index),
                None => EtapeArret::ClipFinal,
            },
            r.fin.session_id@ == session_id@,
            r.fin.morceau_final == morceau_final,
            !r.fin.morceau_final_exploitable,
            r.fin.avertissement is None,
            r.fin.frames@.len() == 0,
            r.fin.clips@.len() == 0,
    {
        let etape = match morceau_final {
            Some(index) => EtapeArret::Sonder(index),
            None => EtapeArret::ClipFinal,
        };
        Rattrapage { etape, fin: FinDeCaptation::new(session_id, morceau_final) }
    }

    /// The last piece was looked at: only one that can be read is saved.
    pub fn sonde(&mut self, lisible: bool)
        requires
            old(self).inv(),
            old(self).etape is Sonder,
        ensures
            final(self).inv(),
            final(self).etape == if lisible {
                EtapeArret::Images(old(self).etape->Sonder_0)
            } else {
                EtapeArret::ClipFinal
            },
            final(self).fin.morceau_final == old(self).fin.morceau_final,
            final(self).fin.session_id == old(self).fin.session_id,
            final(self).fin.frames == old(self).fin.frames,
            final(self).fin.clips == old(self).fin.clips,
            lisible ==> final(self).fin.morceau_final_exploitable && final(self).fin.avertissement
                == old(self).fin.avertissement,
            !lisible ==> final(self).fin.morceau_final_exploitable
                == old(self).fin.morceau_final_exploitable && (
            final(self).fin.avertissement matches Some(m) && m@ == "Le morceau "@ + texte::decimal(
                old(self).etape->Sonder_0 as nat,
            ) + " n'a pas pu être refermé : les dernières secondes filmées sont perdues."@),
            etapes_restantes(final(self).etape) < etapes_restantes(old(self).etape),
    {
        self.etape = match self.fin.constater(lisible) {
            Some(index) => EtapeArret::Images(index),
            None => EtapeArret::ClipFinal,
        };
    }

    /// The frames of the last piece were extracted, or none could be: its
    /// clip is made all the same.
    pub fn images(&mut self, frames: Option<Vec<ExtractedFrame>>)
        requires
            old(self).inv(),
            old(self).etape is Images,
        ensures
            final(self).inv(),
            final(self).etape == EtapeArret::Assembler(old(self).etape->Images_0),
            final(self).fin == (FinDeCaptation {
                frames: match frames {
                    Some(f) => f,
                    None => old(self).fin.frames,
                },
                ..old(self).fin
            }),
            etapes_restantes(final(self).etape) < etapes_restantes(old(self).etape),
    {
        match self.etape {
            EtapeArret::Images(index) => {
                self.etape = EtapeArret::Assembler(index);
            },
            _ => {},
        }
        match frames {
            Some(f) => {
                self.fin.frames = f;
            },
            None => {},
        }
    }

    /// A clip was made, or none could be.
    pub fn clip(&mut self, clip: Option<AssembledClip>)
        requires
            old(self).inv(),
            old(self).etape is Assembler || old(self).etape is ClipFinal,
        ensures
            final(self).inv(),
            final(self).etape == if old(self).etape is Assembler {
                EtapeArret::ClipFinal
            } else {
                EtapeArret::Clore
            },
            final(self).fin.clips@ == match clip {
                Some(c) => old(self).fin.clips@.push(c),
                None => old(self).fin.clips@,
            },
            final(self).fin.session_id == old(self).fin.session_id,
            final(self).fin.morceau_final == old(self).fin.morceau_final,
            final(self).fin.morceau_final_exploitable == old(self).fin.morceau_final_exploitable,
            final(self).fin.avertissement == old(self).fin.avertissement,
            final(self).fin.frames == old(self).fin.frames,
            etapes_restantes(final(self).etape) < etapes_restantes(old(self).etape),
    {
        self.etape = match self.etape {
            EtapeArret::Assembler(_) => EtapeArret::ClipFinal,
            _ => EtapeArret::Clore,
        };
        match clip {
            Some(c) => self.fin.clips.push(c),
            None => {},
        }
    }

    /// Closes the recording, now that nothing needs it any more: neither it
    /// nor the follower of its clips remains, the manifest has its end, and
    /// the photographer is warned exactly when the last piece is lost.
    pub fn clore(
        self,
        captation: &mut Option<RecordingHandle>,
        suivi: &mut Option<ClipTracker>,
        manifeste: &mut Option<ManifestWriter>,
        instant: &Instant,
    ) -> (r: FinDeCaptation)
        requires
            self.inv(),
            self.etape is Clore,
        ensures
            r == self.fin,
            r.averti(),
            *final(captation) is None,
            *final(suivi) is None,
            match *old(manifeste) {
                Some(avant) => *final(manifeste) matches Some(m) && m.cloture_de(avant, instant@),
                None => *final(manifeste) is None,
            },
    {
        *captation = None;
        *suivi = None;
        match manifeste.take() {
            Some(mut m) => {
                m.cloturer(instant);
                *manifeste = Some(m);
            },
            None => {},
        }
        self.fin
    }
}

// ─── Laws of what becomes of a batch ───────────────────────────────────

/// No element stands twice in a batch.
pub open spec fn sans_doublon(lot: Seq<ElementVu>) -> bool {
    forall|a: int, b: int|
        0 <= a < b < lot.len() ==> (#[trigger] lot[a]).id != (#[trigger] lot[b]).id
}

/// What the server reports of each clip is taken as it is, in order.
pub proof fn loi_rapports(clips: Seq<ClipStatus>, k: int)
    requires
        0 <= k < clips.len(),
    ensures
        rapports(clips).len() == clips.len(),
        rapports(clips)[k].0 == clips[k].index,
        rapports(clips)[k].1 == clips[k].has_proxy,
        rapports(clips)[k].2 == clips[k].has_hd,
{
}

/// A missing text is an empty one.
pub proof fn loi_ou_vide(s: Seq<char>)
    ensures
        ou_vide(Some(s)) == s,
        ou_vide(None).len() == 0,
{
}

/// After a cross-check with what the server reports, a waiting or given-up row
/// of the session is sent if and only if the server reports its own clip with
/// its own variant.
pub proof fn loi_recoupement(
    s: Seq<LigneVue>,
    session_id: Seq<char>,
    clips: Seq<ClipStatus>,
    maintenant: Seq<char>,
    i: int,
)
    requires
        0 <= i < s.len(),
        s[i].status == StatutVideo::Pending || s[i].status == StatutVideo::Failed,
    ensures
        ({
            let t = video_queue::modifiees(
                s,
                |l: LigneVue| video_queue::ecartee(l, session_id, rapports(clips)),
                |l: LigneVue| video_queue::envoyee(l, maintenant),
            );
            t[i].status == StatutVideo::Sent <==> s[i].element.session_id == session_id && exists|
                k: int,
            |
                0 <= k < clips.len() && s[i].element.clip_index == Some((#[trigger] clips[k]).index)
                    && (s[i].element.kind == QueueKind::ClipProxy && clips[k].has_proxy
                    || s[i].element.kind == QueueKind::ClipHd && clips[k].has_hd)
        }),
{
    let r = rapports(clips);
    let l = s[i];
    video_queue::loi_reconciliation_exacte(s, session_id, r, maintenant, i);
    if exists|k: int|
        0 <= k < r.len() && l.element.clip_index == Some(#[trigger] r[k].0) && ((l.element.kind
            == QueueKind::ClipProxy && r[k].1) || (l.element.kind == QueueKind::ClipHd && r[k].2)) {
        let k = choose|k: int|
            0 <= k < r.len() && l.element.clip_index == Some(#[trigger] r[k].0) && ((l.element.kind
                == QueueKind::ClipProxy && r[k].1) || (l.element.kind == QueueKind::ClipHd
                && r[k].2));
        assert(clips[k].index == r[k].0);
    }
    if exists|k: int|
        0 <= k < clips.len() && l.element.clip_index == Some((#[trigger] clips[k]).index) && (
        l.element.kind == QueueKind::ClipProxy && clips[k].has_proxy || l.element.kind
            == QueueKind::ClipHd && clips[k].has_hd) {
        let k = choose|k: int|
            0 <= k < clips.len() && l.element.clip_index == Some((#[trigger] clips[k]).index) && (
            l.element.kind == QueueKind::ClipProxy && clips[k].has_proxy || l.element.kind
                == QueueKind::ClipHd && clips[k].has_hd);
        assert(r[k].0 == clips[k].index);
        assert(l.element.clip_index == Some(r[k].0));
    }
}

/// An element that is taken for an event is tied to it when it had none, and
/// only then; nothing else of its row changes.
pub proof fn loi_rattachement(s: Seq<LigneVue>, lot: Seq<ElementVu>, event_id: i64, i: int)
    requires
        0 <= i < s.len(),
    ensures
        ({
            let t = rattachees(s, lot, event_id);
            let prise = exists|k: int| 0 <= k < lot.len() && (#[trigger] lot[k]).id == s[i].element.id;
            &&& t.len() == s.len()
            &&& prise && s[i].event_id is None ==> t[i] == (LigneVue {
                event_id: Some(event_id),
                ..s[i]
            })
            &&& !prise || s[i].event_id is Some ==> t[i] == s[i]
        }),
    decreases lot.len(),
{
    if lot.len() > 0 {
        loi_rattachement(s, lot.drop_last(), event_id, i);
        lemme_du_lot(lot, s[i].element.id);
    }
}

/// What is given back waits again, without an attempt more: the rows of the
/// batch that were being sent, and no other.
pub proof fn loi_liberation(s: Seq<LigneVue>, lot: Seq<ElementVu>, i: int)
    requires
        0 <= i < s.len(),
    ensures
        ({
            let t = liberees(s, lot);
            let prise = exists|k: int| 0 <= k < lot.len() && (#[trigger] lot[k]).id == s[i].element.id;
            &&& t.len() == s.len()
            &&& prise && s[i].status == StatutVideo::Sending ==> t[i] == (LigneVue {
                status: StatutVideo::Pending,
                ..s[i]
            })
            &&& !prise || s[i].status != StatutVideo::Sending ==> t[i] == s[i]
        }),
{
    lemme_liberees(s, lot, i);
}

/// A failure counts once for each element of the batch: its words are kept,
/// one attempt is added, and a third one gives the element up. The other rows
/// are left.
pub proof fn loi_lot_echoue(s: Seq<LigneVue>, lot: Seq<ElementVu>, erreur: Seq<char>, i: int)
    requires
        sans_doublon(lot),
        0 <= i < s.len(),
    ensures
        ({
            let t = echouees(s, lot, erreur);
            let prise = exists|k: int| 0 <= k < lot.len() && (#[trigger] lot[k]).id == s[i].element.id;
            &&& t.len() == s.len()
            &&& t[i].element.id == s[i].element.id
            &&& prise ==> {
                &&& t[i].element.attempts == s[i].element.attempts + 1
                &&& t[i].element.last_error == Some(erreur)
                &&& t[i].status == if s[i].element.attempts >= 2 {
                    StatutVideo::Failed
                } else {
                    StatutVideo::Pending
                }
            }
            &&& !prise ==> t[i] == s[i]
        }),
    decreases lot.len(),
{
    if lot.len() > 0 {
        let d = lot.drop_last();
        loi_lot_echoue(s, d, erreur, i);
        lemme_du_lot(lot, s[i].element.id);
        if lot.last().id == s[i].element.id && du_lot(d, s[i].element.id) {
            let k = choose|k: int| 0 <= k < d.len() && (#[trigger] d[k]).id == s[i].element.id;
            assert(lot[k].id != lot[lot.len() - 1].id);
        }
    }
}

/// A failed batch gives something up exactly when one of its elements had
/// failed twice before.
pub proof fn loi_abandon_du_lot(s: Seq<LigneVue>, lot: Seq<ElementVu>, erreur: Seq<char>)
    requires
        sans_doublon(lot),
    ensures
        un_abandon(s, lot, erreur) <==> exists|i: int, k: int|
            0 <= i < s.len() && 0 <= k < lot.len() && (#[trigger] s[i]).element.id == (
            #[trigger] lot[k]).id && s[i].element.attempts >= 2,
    decreases lot.len(),
{
    if lot.len() > 0 {
        let d = lot.drop_last();
        let e = echouees(s, d, erreur);
        let n = lot.len() - 1;
        loi_abandon_du_lot(s, d, erreur);
        if s.len() > 0 {
            loi_lot_echoue(s, d, erreur, 0);
        } else {
            lemme_rien_a_echouer(s, d, erreur);
        }
        assert forall|i: int| 0 <= i < s.len() && s[i].element.id == lot.last().id implies e[i]
            == #[trigger] s[i] by {
            loi_lot_echoue(s, d, erreur, i);
            if du_lot(d, s[i].element.id) {
                let k = choose|k: int| 0 <= k < d.len() && (#[trigger] d[k]).id == s[i].element.id;
                assert(lot[k].id != lot[n].id);
            }
        }
        if abandonne(e, lot.last().id) {
            let i = choose|i: int|
                0 <= i < e.len() && (#[trigger] e[i]).element.id == lot.last().id
                    && e[i].element.attempts + 1 >= video_queue::ECHECS_ADMIS;
            loi_lot_echoue(s, d, erreur, i);
            assert(e[i] == s[i]);
            assert(s[i].element.id == lot[n].id);
        }
        if un_abandon(s, d, erreur) {
            let (i, k) = choose|i: int, k: int|
                0 <= i < s.len() && 0 <= k < d.len() && (#[trigger] s[i]).element.id == (
                #[trigger] d[k]).id && s[i].element.attempts >= 2;
            assert(lot[k] == d[k]);
        }
        if exists|i: int, k: int|
            0 <= i < s.len() && 0 <= k < lot.len() && (#[trigger] s[i]).element.id == (
            #[trigger] lot[k]).id && s[i].element.attempts >= 2 {
            let (i, k) = choose|i: int, k: int|
                0 <= i < s.len() && 0 <= k < lot.len() && (#[trigger] s[i]).element.id == (
                #[trigger] lot[k]).id && s[i].element.attempts >= 2;
            if k < n {
                assert(d[k] == lot[k]);
            } else {
                assert(e[i] == s[i]);
                assert(abandonne(e, lot.last().id));
            }
        }
    }
}

proof fn lemme_rien_a_echouer(s: Seq<LigneVue>, lot: Seq<ElementVu>, erreur: Seq<char>)
    ensures
        echouees(s, lot, erreur).len() == s.len(),
    decreases lot.len(),
{
    if lot.len() > 0 {
        lemme_rien_a_echouer(s, lot.drop_last(), erreur);
    }
}

/// The frames of an answered batch: those that the server refused have one
/// more attempt, and are given up at the third; the others are sent.
pub proof fn loi_sort_de_chaque_image(
    s: Seq<LigneVue>,
    lot: Seq<ElementVu>,
    echecs: Seq<usize>,
    maintenant: Seq<char>,
    i: int,
    k: int,
)
    requires
        sans_doublon(lot),
        0 <= i < s.len(),
        0 <= k < lot.len() <= usize::MAX,
        lot[k].id == s[i].element.id,
    ensures
        ({
            let t = lot_conclu(s, lot, echecs, maintenant);
            &&& echecs.contains(k as usize) ==> {
                &&& t[i].element.attempts == s[i].element.attempts + 1
                &&& t[i].element.last_error == Some("Analyse refusée"@)
                &&& t[i].status == if s[i].element.attempts >= 2 {
                    StatutVideo::Failed
                } else {
                    StatutVideo::Pending
                }
                &&& t[i].sent_at == s[i].sent_at
            }
            &&& !echecs.contains(k as usize) ==> {
                &&& t[i].status == StatutVideo::Sent
                &&& t[i].sent_at == Some(maintenant)
                &&& t[i].element.last_error is None
                &&& t[i].element.attempts == s[i].element.attempts
            }
        }),
    decreases lot.len(),
{
    let d = lot.drop_last();
    let n = lot.len() - 1;
    loi_lot_conclu(s, d, echecs, maintenant, i);
    if k < n {
        assert(d[k] == lot[k]);
        assert(lot[k].id != lot[n].id);
        loi_sort_de_chaque_image(s, d, echecs, maintenant, i, k);
    } else {
        assert(!du_lot(d, s[i].element.id)) by {
            if du_lot(d, s[i].element.id) {
                let j = choose|j: int| 0 <= j < d.len() && (#[trigger] d[j]).id == s[i].element.id;
                assert(lot[j].id != lot[n].id);
            }
        }
    }
}

/// One more frame in a batch is one more given up exactly when it was refused
/// and had failed twice before.
pub proof fn loi_abandons_comptes(
    s: Seq<LigneVue>,
    lot: Seq<ElementVu>,
    e: ElementVu,
    echecs: Seq<usize>,
    maintenant: Seq<char>,
)
    requires
        sans_doublon(lot.push(e)),
        lot.len() < usize::MAX,
    ensures
        abandons(s, Seq::empty(), echecs, maintenant) == 0,
        abandons(s, lot.push(e), echecs, maintenant) == abandons(s, lot, echecs, maintenant) + if (
        exists|i: int|
            0 <= i < s.len() && (#[trigger] s[i]).element.id == e.id && s[i].element.attempts >= 2)
            && echecs.contains(lot.len() as usize) {
            1int
        } else {
            0int
        },
{
    let l = lot.push(e);
    let n = lot.len() as int;
    assert(l.drop_last() =~= lot);
    assert(l[n] == e);
    let t = lot_conclu(s, lot, echecs, maintenant);
    assert(t.len() == s.len()) by {
        lemme_lot_conclu_len(s, lot, echecs, maintenant);
    }
    assert forall|i: int| 0 <= i < s.len() && s[i].element.id == e.id implies t[i]
        == #[trigger] s[i] by {
        loi_lot_conclu(s, lot, echecs, maintenant, i);
        if du_lot(lot, e.id) {
            let k = choose|k: int| 0 <= k < lot.len() && (#[trigger] lot[k]).id == e.id;
            assert(l[k].id != l[n].id);
        }
    }
    if abandonne(t, e.id) {
        let i = choose|i: int|
            0 <= i < t.len() && (#[trigger] t[i]).element.id == e.id && t[i].element.attempts + 1
                >= video_queue::ECHECS_ADMIS;
        loi_lot_conclu(s, lot, echecs, maintenant, i);
        assert(t[i] == s[i]);
    }
    if exists|i: int|
        0 <= i < s.len() && (#[trigger] s[i]).element.id == e.id && s[i].element.attempts >= 2 {
        let i = choose|i: int|
            0 <= i < s.len() && (#[trigger] s[i]).element.id == e.id && s[i].element.attempts >= 2;
        assert(t[i] == s[i]);
        assert(abandonne(t, e.id));
    }
}

proof fn lemme_lot_conclu_len(
    s: Seq<LigneVue>,
    lot: Seq<ElementVu>,
    echecs: Seq<usize>,
    maintenant: Seq<char>,
)
    ensures
        lot_conclu(s, lot, echecs, maintenant).len() == s.len(),
    decreases lot.len(),
{
    if lot.len() > 0 {
        lemme_lot_conclu_len(s, lot.drop_last(), echecs, maintenant);
    }
}

/// The attempts of a queue can be counted as long as those of each row, with
/// one more for each element of the batch, hold in 64 bits.
pub proof fn loi_essais_comptables(s: Seq<LigneVue>, lot: Seq<ElementVu>, echecs: Option<Seq<usize>>)
    requires
        forall|i: int|
            0 <= i < s.len() ==> (#[trigger] s[i]).element.attempts + lot.len() <= i64::MAX,
    ensures
        essais_comptables(s, lot, echecs, 0),
{
    assert forall|i: int|
        0 <= i < s.len() && refus(lot, echecs, 0, (#[trigger] s[i]).element.id) > 0 implies s[i].element.attempts
        + refus(lot, echecs, 0, s[i].element.id) <= i64::MAX by {
        lemme_refus(lot, echecs, 0, s[i].element.id);
    }
}

proof fn lemme_refus(lot: Seq<ElementVu>, echecs: Option<Seq<usize>>, depuis: int, id: int)
    requires
        0 <= depuis <= lot.len(),
    ensures
        refus(lot, echecs, depuis, id) <= lot.len() - depuis,
    decreases lot.len() - depuis,
{
    if depuis < lot.len() {
        lemme_refus(lot, echecs, depuis + 1, id);
    }
}

/// A recording ends with a warning exactly when its last piece could not be
/// used, and when there was one.
pub proof fn loi_avertissement(f: FinDeCaptation)
    requires
        f.averti(),
    ensures
        f.avertissement is Some ==> f.morceau_final is Some && !f.morceau_final_exploitable,
        f.morceau_final is Some && !f.morceau_final_exploitable ==> f.avertissement is Some,
{
}

/// A stop takes four steps at most, and is over at the last.
pub proof fn loi_arret_en_quatre_etapes(e: EtapeArret)
    ensures
        0 <= etapes_restantes(e) <= 4,
        etapes_restantes(e) == 0 <==> e is Clore,
{
}

/// Two videos are sent at once.
pub proof fn loi_deux_envois()
    ensures
        ENVOIS_VIDEO_SIMULTANES == 2,
{
}

/// While a stop goes on, what is told of the last piece is what is known of
/// it: nothing before it was looked at, and from there on a warning exactly
/// when it could not be used.
pub proof fn loi_arret_sincere(r: Rattrapage)
    requires
        r.inv(),
    ensures
        r.etape matches EtapeArret::Sonder(i) ==> r.fin.morceau_final == Some(i)
            && r.fin.avertissement is None && !r.fin.morceau_final_exploitable,
        r.etape matches EtapeArret::Images(i) ==> r.fin.morceau_final == Some(i),
        r.etape matches EtapeArret::Assembler(i) ==> r.fin.morceau_final == Some(i),
        !(r.etape is Sonder) ==> (r.fin.avertissement is Some <==> r.fin.morceau_final is Some
            && !r.fin.morceau_final_exploitable),
{
}

} // verus!
