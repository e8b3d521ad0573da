//! Sending clips and analysis frames.
//!
//! A clip goes up in pieces of five megabytes, then is put together by the
//! server. Frames go up ten at a time. Photos come first: video waits for
//! them before each request, but not for ever.

use crate::texte;
use crate::uploader;
use vstd::arithmetic::div_mod::lemma_fundamental_div_mod;
use vstd::prelude::*;

verus! {

/// Bytes in a piece of a clip, the last one excepted.
pub const CHUNK_SIZE: usize = 5_242_880;

/// Seconds given to a piece of a clip, to a batch of frames, and to a
/// question about a session.
pub const TIMEOUT_CLIP_SECS: u64 = 300;

pub const TIMEOUT_FRAMES_SECS: u64 = 180;

pub const TIMEOUT_ETAT_SECS: u64 = 60;

/// Frames in a batch.
pub const FRAMES_PAR_LOT: usize = 10;

/// Milliseconds that video yields to photos, at most, before each request.
pub const ATTENTE_PHOTOS_MS: u64 = 20_000;

/// To whom video is sent.
pub struct VideoUploadConfig {
    pub token: String,
    pub event_id: i64,
    pub checkpoint_id: Option<i64>,
    pub session_id: String,
}

/// Which version of a clip.
#[derive(Clone, Copy, PartialEq, Eq, Structural, Debug)]
pub enum ClipVariant {
    /// The light one, sent during the race.
    Proxy,
    /// The full-quality one.
    Hd,
}

impl ClipVariant {
    pub open spec fn nom(self) -> Seq<char> {
        match self {
            ClipVariant::Proxy => "proxy"@,
            ClipVariant::Hd => "hd"@,
        }
    }

    pub fn as_str(&self) -> (r: &'static str)
        ensures
            r@ == self.nom(),
    {
        match self {
            ClipVariant::Proxy => "proxy",
            ClipVariant::Hd => "hd",
        }
    }

    /// The version of that name.
    pub fn lire(variant: &str) -> (r: Result<Self, String>)
        ensures
            variant@ == "proxy"@ ==> r == Ok::<ClipVariant, String>(ClipVariant::Proxy),
            variant@ == "hd"@ ==> r == Ok::<ClipVariant, String>(ClipVariant::Hd),
            variant@ != "proxy"@ && variant@ != "hd"@ ==> (r matches Err(m) && m@
                == "Variante inconnue : "@ + variant@),
    {
        proof {
            reveal_strlit("proxy");
            reveal_strlit("hd");
            assert("proxy"@.len() != "hd"@.len());
        }
        if texte::memes(variant, "proxy") {
            Ok(ClipVariant::Proxy)
        } else if texte::memes(variant, "hd") {
            Ok(ClipVariant::Hd)
        } else {
            Err(texte::joindre("Variante inconnue : ", variant))
        }
    }
}

/// What the server says of a clip it has received.
pub struct ClipInfo {
    pub video_id: i64,
    pub index: u32,
    pub has_proxy: bool,
    pub has_hd: bool,
    pub status: String,
}

/// What the server found in frames.
#[derive(Clone, Copy, PartialEq, Eq, Structural, Debug)]
pub struct FrameTotals {
    pub bibs: u32,
    pub faces: u32,
    pub kept: u32,
    pub discarded: u32,
}

/// A frame to send.
pub struct FrameToUpload {
    pub path: String,
    pub instant_at: String,
}

/// What the server holds of a session.
pub struct SessionStatus {
    pub success: bool,
    pub session_id: String,
    pub clips: Vec<ClipStatus>,
}

/// What the server holds of a clip.
pub struct ClipStatus {
    pub index: u32,
    pub has_proxy: bool,
    pub has_hd: bool,
    pub status: String,
}

// ─── Errors ────────────────────────────────────────────────────────────

/// Why video could not be sent.
pub enum ErreurVideo {
    /// The photographer must log in again.
    SessionExpiree,
    /// The event runs without recognition: frames are of no use.
    AnalyseDesactivee,
    /// The server asks to wait that many seconds.
    Saturation { attente: u64 },
    /// Anything else.
    Autre(String),
}

impl ErreurVideo {
    /// The text of an error.
    pub open spec fn dit(self) -> Seq<char> {
        match self {
            ErreurVideo::SessionExpiree => "SESSION_EXPIRED"@,
            ErreurVideo::AnalyseDesactivee => "ANALYSE_DESACTIVEE"@,
            ErreurVideo::Saturation { attente } => "Serveur saturé : pause de "@ + texte::decimal(
                attente as nat,
            ) + " s"@,
            ErreurVideo::Autre(m) => m@,
        }
    }

    pub fn texte(&self) -> (r: String)
        ensures
            r@ == self.dit(),
    {
        match self {
            ErreurVideo::SessionExpiree => "SESSION_EXPIRED".to_owned(),
            ErreurVideo::AnalyseDesactivee => "ANALYSE_DESACTIVEE".to_owned(),
            ErreurVideo::Saturation { attente } => texte::joindre3(
                "Serveur saturé : pause de ",
                texte::ecrire(*attente).as_str(),
                " s",
            ),
            ErreurVideo::Autre(m) => m.clone(),
        }
    }
}

impl ErreurVideo {
    /// The session has expired: the status of the answer says so, or the
    /// server's own words do.
    pub open spec fn expiree(self) -> bool {
        match self {
            ErreurVideo::SessionExpiree => true,
            ErreurVideo::Autre(m) => m@ == "SESSION_EXPIRED"@,
            _ => false,
        }
    }

    pub fn est_expiree(&self) -> (r: bool)
        ensures
            r == self.expiree(),
    {
        match self {
            ErreurVideo::SessionExpiree => true,
            ErreurVideo::Autre(m) => texte::memes(m.as_str(), "SESSION_EXPIRED"),
            _ => false,
        }
    }
}

/// The seconds to wait, when that is what the error says.
pub fn attente_si_sature(e: &ErreurVideo) -> (r: Option<u64>)
    ensures
        r == match *e {
            ErreurVideo::Saturation { attente } => Some(attente),
            _ => None,
        },
{
    match e {
        ErreurVideo::Saturation { attente } => Some(*attente),
        _ => None,
    }
}

/// Why no answer came.
pub enum PanneReseau {
    Delai,
    Connexion,
    Autre(String),
}

/// What is said of a request that got no answer.
pub fn message_erreur(cause: PanneReseau) -> (r: ErreurVideo)
    ensures
        r matches ErreurVideo::Autre(m) && m@ == match cause {
            PanneReseau::Delai => "Délai dépassé — réseau trop lent ou saturé."@,
            PanneReseau::Connexion => "Serveur injoignable — vérifier la connexion."@,
            PanneReseau::Autre(e) => "Erreur réseau : "@ + e@,
        },
{
    ErreurVideo::Autre(
        match cause {
            PanneReseau::Delai => "Délai dépassé — réseau trop lent ou saturé.".to_owned(),
            PanneReseau::Connexion => "Serveur injoignable — vérifier la connexion.".to_owned(),
            PanneReseau::Autre(e) => texte::joindre("Erreur réseau : ", e.as_str()),
        },
    )
}

/// What the status of an answer means, before its body is read: none when
/// the body decides. `images` tells a batch of frames from a clip.
pub fn classer_reponse(status: u16, retry_after: Option<&str>, images: bool) -> (r: Option<
    ErreurVideo,
>)
    ensures
        status == 401 ==> (r matches Some(e) && e is SessionExpiree),
        status == 422 && images ==> (r matches Some(e) && e is AnalyseDesactivee),
        status == 429 || status == 503 ==> {
            &&& r matches Some(ErreurVideo::Saturation { attente })
            &&& attente == uploader::attente(
                status,
                uploader::delai_demande(texte::vue_ref(retry_after)),
                0,
            )
        },
        status != 401 && status != 429 && status != 503 && !(status == 422 && images) ==> r is None,
{
    if status == 401 {
        Some(ErreurVideo::SessionExpiree)
    } else if status == 422 && images {
        Some(ErreurVideo::AnalyseDesactivee)
    } else if status == 429 || status == 503 {
        let delai = uploader::lire_retry_after(retry_after);
        Some(ErreurVideo::Saturation { attente: uploader::attente_saturation(status, delai, 0) })
    } else {
        None
    }
}

/// What an error message becomes, with a default when there is none.
fn refus(message: Option<String>, defaut: &str) -> (r: ErreurVideo)
    ensures
        r matches ErreurVideo::Autre(m) && m@ == match message {
            Some(t) => t@,
            None => defaut@,
        },
{
    ErreurVideo::Autre(
        match message {
            Some(m) => m,
            None => defaut.to_owned(),
        },
    )
}

// ─── Photos first ──────────────────────────────────────────────────────

/// Must video still wait for photos before its next request?
pub fn doit_ceder(photos_prioritaires: bool, deja_attendu_ms: u64) -> (r: bool)
    ensures
        r == (photos_prioritaires && deja_attendu_ms < ATTENTE_PHOTOS_MS),
{
    photos_prioritaires && deja_attendu_ms < ATTENTE_PHOTOS_MS
}

// ─── A clip, piece by piece ────────────────────────────────────────────

/// The identifier that ties the pieces of an upload together.
pub open spec fn identifiant(session_id: Seq<char>, variant: ClipVariant, clip_index: u32) -> Seq<
    char,
> {
    session_id + "_"@ + variant.nom() + "_"@ + texte::decimal(clip_index as nat)
}

pub fn identifiant_envoi(session_id: &str, variant: ClipVariant, clip_index: u32) -> (r: String)
    ensures
        r@ == identifiant(session_id@, variant, clip_index),
{
    let mut r = texte::joindre3(session_id, "_", variant.as_str());
    r.append("_");
    r.append(texte::ecrire(clip_index as u64).as_str());
    r
}

/// Two different uploads of a session never share an identifier.
pub proof fn loi_identifiants_distincts(
    session_id: Seq<char>,
    v: ClipVariant,
    i: u32,
    w: ClipVariant,
    j: u32,
)
    requires
        identifiant(session_id, v, i) == identifiant(session_id, w, j),
    ensures
        v == w,
        i == j,
{
    reveal_strlit("_");
    reveal_strlit("proxy");
    reveal_strlit("hd");
    let a = identifiant(session_id, v, i);
    let b = identifiant(session_id, w, j);
    let n = session_id.len() as int;
    assert(v.nom()[0] == a[n + 1] && w.nom()[0] == b[n + 1]);
    assert("proxy"@[0] == 'p' && "hd"@[0] == 'h');
    assert(v == w);
    let d = n + 1 + v.nom().len() + 1;
    assert(a.skip(d) =~= texte::decimal(i as nat));
    assert(b.skip(d) =~= texte::decimal(j as nat));
    texte::lemme_decimal_relu(i as nat);
    texte::lemme_decimal_relu(j as nat);
}

/// How many pieces a file of that size takes.
pub open spec fn morceaux(taille: int) -> int {
    (taille + CHUNK_SIZE - 1) / CHUNK_SIZE as int
}

/// The first byte of a piece.
pub open spec fn debut_morceau(k: int) -> int {
    k * CHUNK_SIZE
}

/// The end of a piece: the next one's start, or the end of the file.
pub open spec fn fin_morceau(taille: int, k: int) -> int {
    if (k + 1) * CHUNK_SIZE < taille {
        (k + 1) * CHUNK_SIZE
    } else {
        taille
    }
}

pub fn nombre_morceaux(taille: usize) -> (r: usize)
    ensures
        r == morceaux(taille as int),
{
    let entiers: usize = taille / CHUNK_SIZE;
    if taille % CHUNK_SIZE == 0 {
        entiers
    } else {
        entiers + 1
    }
}

/// Every byte of a file is in one piece and one only; no piece is empty or
/// larger than a piece may be.
pub proof fn loi_morceaux_couvrent(taille: int, octet: int)
    requires
        0 <= octet < taille,
    ensures
        ({
            let k = octet / CHUNK_SIZE as int;
            &&& 0 <= k < morceaux(taille)
            &&& debut_morceau(k) <= octet < fin_morceau(taille, k)
            &&& forall|m: int|
                0 <= m < morceaux(taille) && #[trigger] debut_morceau(m) <= octet < fin_morceau(
                    taille,
                    m,
                ) ==> m == k
        }),
        forall|m: int|
            0 <= m < morceaux(taille) ==> 0 < fin_morceau(taille, m) - #[trigger] debut_morceau(m)
                <= CHUNK_SIZE,
{
}

/// Pieces follow one another without a gap, from the first byte to the last.
pub proof fn loi_morceaux_contigus(taille: int, k: int)
    requires
        0 <= k,
        k + 1 < morceaux(taille),
    ensures
        debut_morceau(0) == 0,
        fin_morceau(taille, k) == debut_morceau(k + 1),
        fin_morceau(taille, morceaux(taille) - 1) == taille,
{
}

/// The upload of a clip: its size, and the pieces that the server has.
pub struct EnvoiClip {
    pub taille: usize,
    pub recus: usize,
}

/// The piece to send next.
#[derive(Clone, Copy, PartialEq, Eq, Structural, Debug)]
pub struct MorceauClip {
    pub index: usize,
    /// Bytes from `debut` (included) to `fin` (excluded).
    pub debut: usize,
    pub fin: usize,
}

impl EnvoiClip {
    pub open spec fn inv(self) -> bool {
        0 < self.taille && self.recus <= morceaux(self.taille as int)
    }

    /// Starts the upload of a file of that size. An empty clip is refused.
    pub fn new(taille: usize) -> (r: Result<Self, ErreurVideo>)
        ensures
            taille == 0 ==> (r matches Err(ErreurVideo::Autre(m)) && m@ == "Le clip est vide."@),
            taille > 0 ==> (r matches Ok(e) && e.inv() && e.taille == taille && e.recus == 0),
    {
        if taille == 0 {
            return Err(ErreurVideo::Autre("Le clip est vide.".to_owned()));
        }
        Ok(EnvoiClip { taille, recus: 0 })
    }

    /// The next piece, or none when all are received.
    pub fn prochain(&self) -> (r: Option<MorceauClip>)
        requires
            self.inv(),
        ensures
            match r {
                Some(m) => {
                    &&& self.recus < morceaux(self.taille as int)
                    &&& m.index == self.recus
                    &&& m.debut == debut_morceau(self.recus as int)
                    &&& m.fin == fin_morceau(self.taille as int, self.recus as int)
                },
                None => self.recus == morceaux(self.taille as int),
            },
    {
        let total: usize = nombre_morceaux(self.taille);
        if self.recus >= total {
            return None;
        }
        let debut: usize = self.recus * CHUNK_SIZE;
        let fin: usize = if self.taille - debut > CHUNK_SIZE {
            debut + CHUNK_SIZE
        } else {
            self.taille
        };
        Some(MorceauClip { index: self.recus, debut, fin })
    }

    /// The server's answer to a piece.
    pub fn confirmer(&mut self, success: bool, message: Option<String>) -> (r: Result<
        (),
        ErreurVideo,
    >)
        requires
            old(self).inv(),
            old(self).recus < morceaux(old(self).taille as int),
        ensures
            final(self).inv(),
            final(self).taille == old(self).taille,
            success ==> r is Ok && final(self).recus == old(self).recus + 1,
            !success ==> final(self).recus == old(self).recus && (r matches Err(ErreurVideo::Autre(m))
                && m@ == match message {
                Some(t) => t@,
                None => "Le serveur a refusé le morceau."@,
            }),
    {
        if !success {
            return Err(refus(message, "Le serveur a refusé le morceau."));
        }
        self.recus = self.recus + 1;
        Ok(())
    }
}

/// The text fields of the form that carries a piece.
pub fn champs_morceau(identifiant: &str, index: usize, total: usize, nom_fichier: &str) -> (r: Vec<
    (String, String),
>)
    ensures
        r@.len() == 4,
        r@[0].0@ == "upload_id"@ && r@[0].1@ == identifiant@,
        r@[1].0@ == "chunk_index"@ && r@[1].1@ == texte::decimal(index as nat),
        r@[2].0@ == "total_chunks"@ && r@[2].1@ == texte::decimal(total as nat),
        r@[3].0@ == "filename"@ && r@[3].1@ == nom_fichier@,
{
    let mut r: Vec<(String, String)> = Vec::new();
    r.push(("upload_id".to_owned(), identifiant.to_owned()));
    r.push(("chunk_index".to_owned(), texte::ecrire(index as u64)));
    r.push(("total_chunks".to_owned(), texte::ecrire(total as u64)));
    r.push(("filename".to_owned(), nom_fichier.to_owned()));
    r
}

/// A value in the body of a request.
pub enum Valeur {
    Texte(String),
    Nombre(i64),
}

/// What such a value holds.
pub ghost enum ValeurVue {
    Texte(Seq<char>),
    Nombre(int),
}

impl View for Valeur {
    type V = ValeurVue;

    open spec fn view(&self) -> ValeurVue {
        match self {
            Valeur::Texte(t) => ValeurVue::Texte(t@),
            Valeur::Nombre(n) => ValeurVue::Nombre(*n as int),
        }
    }
}

/// The names and values of fields.
pub open spec fn champs_vus(v: Seq<(String, Valeur)>) -> Seq<(Seq<char>, ValeurVue)> {
    v.map_values(|c: (String, Valeur)| (c.0@, c.1@))
}

/// The body of the request that ends the upload of a clip: what the server
/// needs to pair the two versions of the same clip. A checkpoint is named only
/// when there is one.
pub fn champs_finalisation(
    config: &VideoUploadConfig,
    identifiant: &str,
    variant: ClipVariant,
    clip_index: u32,
    debut: &str,
    fin: &str,
) -> (r: Vec<(String, Valeur)>)
    ensures
        champs_vus(r@) == seq![
            ("upload_id"@, ValeurVue::Texte(identifiant@)),
            ("variant"@, ValeurVue::Texte(variant.nom())),
            ("session_id"@, ValeurVue::Texte(config.session_id@)),
            ("clip_index"@, ValeurVue::Nombre(clip_index as int)),
            ("started_at"@, ValeurVue::Texte(debut@)),
            ("ended_at"@, ValeurVue::Texte(fin@)),
        ] + match config.checkpoint_id {
            Some(id) => seq![("checkpoint_id"@, ValeurVue::Nombre(id as int))],
            None => Seq::empty(),
        },
{
    let mut r: Vec<(String, Valeur)> = Vec::new();
    r.push(("upload_id".to_owned(), Valeur::Texte(identifiant.to_owned())));
    r.push(("variant".to_owned(), Valeur::Texte(variant.as_str().to_owned())));
    r.push(("session_id".to_owned(), Valeur::Texte(config.session_id.clone())));
    r.push(("clip_index".to_owned(), Valeur::Nombre(clip_index as i64)));
    r.push(("started_at".to_owned(), Valeur::Texte(debut.to_owned())));
    r.push(("ended_at".to_owned(), Valeur::Texte(fin.to_owned())));
    match config.checkpoint_id {
        Some(id) => r.push(("checkpoint_id".to_owned(), Valeur::Nombre(id))),
        None => {},
    }
    r
}

/// The name under which a clip goes up.
pub fn nom_envoye(nom: Option<String>) -> (r: String)
    ensures
        r@ == match nom {
            Some(n) => n@,
            None => "clip.mp4"@,
        },
{
    match nom {
        Some(n) => n,
        None => "clip.mp4".to_owned(),
    }
}

/// The server's last word on a clip.
pub fn conclure_clip(success: bool, clip: Option<ClipInfo>, message: Option<String>) -> (r: Result<
    ClipInfo,
    ErreurVideo,
>)
    ensures
        !success ==> (r matches Err(ErreurVideo::Autre(m)) && m@ == match message {
            Some(t) => t@,
            None => "Le serveur a refusé le clip."@,
        }),
        success && clip is None ==> (r matches Err(ErreurVideo::Autre(m)) && m@
            == "Le serveur n'a pas renvoyé les informations du clip."@),
        success && clip is Some ==> r == Ok::<ClipInfo, ErreurVideo>(clip->Some_0),
{
    if !success {
        return Err(refus(message, "Le serveur a refusé le clip."));
    }
    match clip {
        Some(c) => Ok(c),
        None => Err(
            ErreurVideo::Autre(
                "Le serveur n'a pas renvoyé les informations du clip.".to_owned(),
            ),
        ),
    }
}

// ─── Frames, batch by batch ────────────────────────────────────────────

/// The addresses of the server, for an event.
pub fn adresse(base: &str, event_id: i64, suite: &str) -> (r: String)
    ensures
        r@ == base@ + "/api/sport/events/"@ + texte::decimal_signe(event_id as int) + suite@,
{
    let mut r = texte::joindre3(
        base,
        "/api/sport/events/",
        texte::ecrire_signe(event_id).as_str(),
    );
    r.append(suite);
    r
}

/// The text fields of the form that carries a batch of frames, its own
/// first, then the instant of each frame.
pub fn champs_lot(config: &VideoUploadConfig, lot: &Vec<FrameToUpload>) -> (r: Vec<(String, String)>)
    ensures
        ({
            let tete = if config.checkpoint_id is Some {
                2int
            } else {
                1int
            };
            &&& r@.len() == tete + lot@.len()
            &&& r@[0].0@ == "session_id"@ && r@[0].1@ == config.session_id@
            &&& config.checkpoint_id matches Some(id) ==> r@[1].0@ == "checkpoint_id"@ && r@[1].1@
                == texte::decimal_signe(id as int)
            &&& forall|k: int|
                0 <= k < lot@.len() ==> (#[trigger] r@[tete + k]).0@ == "frames["@ + texte::decimal(
                    k as nat,
                ) + "][instant_at]"@ && r@[tete + k].1@ == lot@[k].instant_at@
        }),
{
    let mut r: Vec<(String, String)> = Vec::new();
    r.push(("session_id".to_owned(), config.session_id.clone()));
    match config.checkpoint_id {
        Some(id) => r.push(("checkpoint_id".to_owned(), texte::ecrire_signe(id))),
        None => {},
    }
    let ghost tete = r@;
    let mut k: usize = 0;
    while k < lot.len()
        invariant
            k <= lot@.len(),
            r@.len() == tete.len() + k,
            forall|i: int| 0 <= i < tete.len() ==> #[trigger] r@[i] == tete[i],
            forall|i: int|
                0 <= i < k ==> (#[trigger] r@[tete.len() + i]).0@ == "frames["@ + texte::decimal(
                    i as nat,
                ) + "][instant_at]"@ && r@[tete.len() + i].1@ == lot@[i].instant_at@,
        decreases lot@.len() - k,
    {
        let nom = texte::joindre3(
            "frames[",
            texte::ecrire(k as u64).as_str(),
            "][instant_at]",
        );
        r.push((nom, lot[k].instant_at.clone()));
        k += 1;
    }
    r
}

/// The field that carries the image of rank `rang`.
pub fn champ_image(rang: usize) -> (r: String)
    ensures
        r@ == "frames["@ + texte::decimal(rang as nat) + "][image]"@,
{
    texte::joindre3("frames[", texte::ecrire(rang as u64).as_str(), "][image]")
}

/// The name under which a frame goes up.
pub fn nom_image(nom: Option<String>, rang: usize) -> (r: String)
    ensures
        r@ == match nom {
            Some(n) => n@,
            None => "img_"@ + texte::decimal(rang as nat) + ".jpg"@,
        },
{
    match nom {
        Some(n) => n,
        None => texte::joindre3("img_", texte::ecrire(rang as u64).as_str(), ".jpg"),
    }
}

/// The totals of two batches.
pub open spec fn cumul(a: FrameTotals, b: FrameTotals) -> FrameTotals {
    FrameTotals {
        bibs: (a.bibs + b.bibs) as u32,
        faces: (a.faces + b.faces) as u32,
        kept: (a.kept + b.kept) as u32,
        discarded: (a.discarded + b.discarded) as u32,
    }
}

/// The totals of two batches fit in 32 bits.
pub open spec fn cumulables(a: FrameTotals, b: FrameTotals) -> bool {
    &&& a.bibs + b.bibs <= u32::MAX
    &&& a.faces + b.faces <= u32::MAX
    &&& a.kept + b.kept <= u32::MAX
    &&& a.discarded + b.discarded <= u32::MAX
}

/// The upload of some frames: how many, how many of them the server has, and
/// what it found in those.
pub struct EnvoiImages {
    pub total: usize,
    pub recues: usize,
    pub cumul: FrameTotals,
}

/// The end of the batch that starts at `debut`.
pub open spec fn fin_lot(total: int, debut: int) -> int {
    if debut + FRAMES_PAR_LOT < total {
        debut + FRAMES_PAR_LOT
    } else {
        total
    }
}

impl EnvoiImages {
    /// Batches are taken in order, whole.
    pub open spec fn inv(self) -> bool {
        self.recues <= self.total && (self.recues as int % FRAMES_PAR_LOT as int == 0 || self.recues
            == self.total)
    }

    pub fn new(total: usize) -> (r: Self)
        ensures
            r.inv(),
            r.total == total,
            r.recues == 0,
            r.cumul == (FrameTotals { bibs: 0, faces: 0, kept: 0, discarded: 0 }),
    {
        EnvoiImages {
            total,
            recues: 0,
            cumul: FrameTotals { bibs: 0, faces: 0, kept: 0, discarded: 0 },
        }
    }

    /// The next batch, as a range of ranks; none when all frames are
    /// received.
    pub fn prochain(&self) -> (r: Option<(usize, usize)>)
        requires
            self.inv(),
        ensures
            match r {
                Some(lot) => {
                    &&& self.recues < self.total
                    &&& lot.0 == self.recues
                    &&& lot.1 == fin_lot(self.total as int, self.recues as int)
                    &&& 0 < lot.1 - lot.0 <= FRAMES_PAR_LOT
                },
                None => self.recues == self.total,
            },
    {
        if self.recues >= self.total {
            return None;
        }
        let fin: usize = if self.total - self.recues > FRAMES_PAR_LOT {
            self.recues + FRAMES_PAR_LOT
        } else {
            self.total
        };
        Some((self.recues, fin))
    }

    /// The server's answer to a batch.
    pub fn confirmer(
        &mut self,
        success: bool,
        totaux: Option<FrameTotals>,
        message: Option<String>,
    ) -> (r: Result<(), ErreurVideo>)
        requires
            old(self).inv(),
            old(self).recues < old(self).total,
            totaux matches Some(t) ==> cumulables(old(self).cumul, t),
        ensures
            final(self).inv(),
            final(self).total == old(self).total,
            success ==> {
                &&& r is Ok
                &&& final(self).recues == fin_lot(old(self).total as int, old(self).recues as int)
                &&& final(self).cumul == match totaux {
                    Some(t) => cumul(old(self).cumul, t),
                    None => old(self).cumul,
                }
            },
            !success ==> {
                &&& final(self).recues == old(self).recues
                &&& final(self).cumul == old(self).cumul
                &&& r matches Err(ErreurVideo::Autre(m))
                &&& m@ == match message {
                    Some(t) => t@,
                    None => "Le serveur a refusé les images."@,
                }
            },
    {
        if !success {
            return Err(refus(message, "Le serveur a refusé les images."));
        }
        match totaux {
            Some(t) => {
                self.cumul = FrameTotals {
                    bibs: self.cumul.bibs + t.bibs,
                    faces: self.cumul.faces + t.faces,
                    kept: self.cumul.kept + t.kept,
                    discarded: self.cumul.discarded + t.discarded,
                };
            },
            None => {},
        }
        self.recues = if self.total - self.recues > FRAMES_PAR_LOT {
            self.recues + FRAMES_PAR_LOT
        } else {
            self.total
        };
        Ok(())
    }
}

/// A batch that the server answered: what it found, and the ranks of the
/// frames it refused.
pub struct LotImages {
    pub totaux: FrameTotals,
    pub echecs: Vec<usize>,
}

/// The ranks of the frames refused, in order.
pub open spec fn refusees(acceptees: Seq<bool>) -> Seq<usize>
    decreases acceptees.len(),
{
    if acceptees.len() == 0 {
        Seq::empty()
    } else if acceptees.last() {
        refusees(acceptees.drop_last())
    } else {
        refusees(acceptees.drop_last()).push((acceptees.len() - 1) as usize)
    }
}

/// The server's answer to one batch, frame by frame: only the frames it
/// refused have failed.
pub fn conclure_lot(
    success: bool,
    totaux: Option<FrameTotals>,
    acceptees: &Vec<bool>,
    message: Option<String>,
) -> (r: Result<LotImages, ErreurVideo>)
    ensures
        !success ==> (r matches Err(ErreurVideo::Autre(m)) && m@ == match message {
            Some(t) => t@,
            None => "Le serveur a refusé les images."@,
        }),
        success ==> {
            &&& r matches Ok(lot)
            &&& lot.echecs@ == refusees(acceptees@)
            &&& lot.totaux == match totaux {
                Some(t) => t,
                None => FrameTotals { bibs: 0, faces: 0, kept: 0, discarded: 0 },
            }
        },
{
    if !success {
        return Err(refus(message, "Le serveur a refusé les images."));
    }
    let mut echecs: Vec<usize> = Vec::new();
    let mut i: usize = 0;
    while i < acceptees.len()
        invariant
            i <= acceptees@.len(),
            echecs@ == refusees(acceptees@.take(i as int)),
        decreases acceptees@.len() - i,
    {
        assert(acceptees@.take(i + 1).drop_last() =~= acceptees@.take(i as int));
        if !acceptees[i] {
            echecs.push(i);
        }
        i += 1;
    }
    assert(acceptees@.take(acceptees@.len() as int) =~= acceptees@);
    Ok(
        LotImages {
            totaux: match totaux {
                Some(t) => t,
                None => FrameTotals { bibs: 0, faces: 0, kept: 0, discarded: 0 },
            },
            echecs,
        },
    )
}

// ─── Frames named in JSON ──────────────────────────────────────────────

/// A JSON value.
#[verifier::external_type_specification]
#[verifier::external_body]
pub struct ExValue(serde_json::Value);

/// The members of a JSON object, by key: the text of a member that is a
/// string, none for another. A value that is no object has no member.
pub uninterp spec fn membres(v: serde_json::Value) -> Map<Seq<char>, Option<Seq<char>>>;

/// `serde_json::Value::get` with a key, its result read by
/// `serde_json::Value::as_str`: the text of the member of that key, none when
/// there is no such member or it is no string.
#[verifier::external_body]
fn texte_du_membre(v: &serde_json::Value, cle: &str) -> (r: Option<String>)
    ensures
        texte::vue(r) == if membres(*v).dom().contains(cle@) {
            membres(*v)[cle@]
        } else {
            None
        },
{
    v.get(cle).and_then(|m| m.as_str()).map(|t| t.to_string())
}

/// A frame, from its path and its instant: both are needed.
pub open spec fn image(path: Option<Seq<char>>, instant_at: Option<Seq<char>>) -> Option<
    (Seq<char>, Seq<char>),
> {
    if path is Some && instant_at is Some {
        Some((path->Some_0, instant_at->Some_0))
    } else {
        None
    }
}

/// The view of a frame.
pub open spec fn image_vue(f: FrameToUpload) -> (Seq<char>, Seq<char>) {
    (f.path@, f.instant_at@)
}

pub fn image_complete(path: Option<String>, instant_at: Option<String>) -> (r: Option<
    FrameToUpload,
>)
    ensures
        match r {
            Some(f) => image(texte::vue(path), texte::vue(instant_at)) == Some(image_vue(f)),
            None => image(texte::vue(path), texte::vue(instant_at)) is None,
        },
{
    match path {
        Some(path) => match instant_at {
            Some(instant_at) => Some(FrameToUpload { path, instant_at }),
            None => None,
        },
        None => None,
    }
}

/// The text member of a JSON object.
pub open spec fn membre(v: serde_json::Value, cle: Seq<char>) -> Option<Seq<char>> {
    if membres(v).dom().contains(cle) {
        membres(v)[cle]
    } else {
        None
    }
}

/// The frames that these JSON objects name, in order: those that give both a
/// `path` and an `instant_at`, as text.
pub open spec fn images_nommees(v: Seq<serde_json::Value>) -> Seq<(Seq<char>, Seq<char>)>
    decreases v.len(),
{
    if v.len() == 0 {
        Seq::empty()
    } else {
        let avant = images_nommees(v.drop_last());
        match image(membre(v.last(), "path"@), membre(v.last(), "instant_at"@)) {
            Some(f) => avant.push(f),
            None => avant,
        }
    }
}

/// The frames named by a list of JSON values; what names none is passed over.
pub fn images_recues(frames: &Vec<serde_json::Value>) -> (r: Vec<FrameToUpload>)
    ensures
        r@.map_values(|f: FrameToUpload| image_vue(f)) == images_nommees(frames@),
{
    let mut r: Vec<FrameToUpload> = Vec::new();
    let mut i: usize = 0;
    assert(r@.map_values(|f: FrameToUpload| image_vue(f)) =~= images_nommees(frames@.take(0)));
    while i < frames.len()
        invariant
            i <= frames@.len(),
            r@.map_values(|f: FrameToUpload| image_vue(f)) == images_nommees(
                frames@.take(i as int),
            ),
        decreases frames@.len() - i,
    {
        let v = &frames[i];
        assert(frames@.take(i + 1).drop_last() =~= frames@.take(i as int));
        assert(frames@.take(i + 1).last() == *v);
        let path = texte_du_membre(v, "path");
        let instant_at = texte_du_membre(v, "instant_at");
        let ghost ici = r@;
        match image_complete(path, instant_at) {
            Some(f) => {
                let ghost g = image_vue(f);
                r.push(f);
                assert(r@.map_values(|f: FrameToUpload| image_vue(f)) =~= ici.map_values(
                    |f: FrameToUpload| image_vue(f),
                ).push(g));
            },
            None => {},
        }
        i += 1;
    }
    assert(frames@.take(frames@.len() as int) =~= frames@);
    r
}

// ─── Laws of the video uploads, in numbers ─────────────────────────────

/// The pieces of a clip are of five mebibytes, but the last, which holds what
/// is left; there are as many as it takes, and no more.
pub proof fn loi_morceaux_de_cinq_mebioctets(taille: int, k: int)
    requires
        0 < taille,
        0 <= k < morceaux(taille),
    ensures
        debut_morceau(k) == k * (5 * 1024 * 1024),
        debut_morceau(k) < fin_morceau(taille, k) <= taille,
        k + 1 < morceaux(taille) ==> fin_morceau(taille, k) - debut_morceau(k) == 5 * 1024 * 1024,
        k + 1 == morceaux(taille) ==> fin_morceau(taille, k) == taille && taille - debut_morceau(k)
            <= 5 * 1024 * 1024,
        morceaux(0) == 0,
        (morceaux(taille) - 1) * (5 * 1024 * 1024) < taille <= morceaux(taille) * (5 * 1024 * 1024),
{
    let c = CHUNK_SIZE as int;
    let m = morceaux(taille);
    assert(c == 5 * 1024 * 1024);
    lemma_fundamental_div_mod(taille + c - 1, c);
    assert(c * m == m * c && (m - 1) * c == m * c - c) by (nonlinear_arith);
    assert((k + 1) * c == k * c + c) by (nonlinear_arith);
    assert(k + 1 < m ==> (k + 1) * c <= (m - 1) * c) by (nonlinear_arith)
        requires
            c > 0,
    ;
    assert(k * c <= (m - 1) * c) by (nonlinear_arith)
        requires
            c > 0,
            k <= m - 1,
    ;
}

/// The name of an upload is made of its session, its variant and its clip.
pub proof fn loi_identifiant_lu(session_id: Seq<char>, clip_index: u32)
    ensures
        identifiant(session_id, ClipVariant::Proxy, clip_index) == session_id + "_proxy_"@
            + texte::decimal(clip_index as nat),
        identifiant(session_id, ClipVariant::Hd, clip_index) == session_id + "_hd_"@
            + texte::decimal(clip_index as nat),
        ClipVariant::Proxy.nom() == "proxy"@,
        ClipVariant::Hd.nom() == "hd"@,
{
    reveal_strlit("_");
    reveal_strlit("proxy");
    reveal_strlit("hd");
    reveal_strlit("_proxy_");
    reveal_strlit("_hd_");
    let n = texte::decimal(clip_index as nat);
    assert(identifiant(session_id, ClipVariant::Proxy, clip_index) =~= session_id + "_proxy_"@ + n);
    assert(identifiant(session_id, ClipVariant::Hd, clip_index) =~= session_id + "_hd_"@ + n);
}

/// Frames leave by ten, the last batch with what is left.
pub proof fn loi_lots_de_dix(total: int, debut: int)
    requires
        0 <= debut < total,
    ensures
        debut < fin_lot(total, debut) <= total,
        total - debut >= 10 ==> fin_lot(total, debut) - debut == 10,
        total - debut < 10 ==> fin_lot(total, debut) == total,
{
}

/// An upload of frames has taken whole batches of ten, or everything.
pub proof fn loi_lots_entiers(e: EnvoiImages)
    requires
        e.inv(),
    ensures
        e.recues <= e.total,
        e.recues < e.total ==> e.recues % 10 == 0,
{
}

/// An upload of a clip is never empty, and takes no more pieces than there
/// are.
pub proof fn loi_clip_jamais_vide(e: EnvoiClip)
    requires
        e.inv(),
    ensures
        e.taille > 0,
        e.recus <= morceaux(e.taille as int),
{
}

/// What two batches found adds up, each number with its own, as long as the
/// sums hold in 32 bits; batches add up in any order.
pub proof fn loi_cumul(a: FrameTotals, b: FrameTotals)
    ensures
        cumulables(a, b) == cumulables(b, a),
        cumul(a, b) == cumul(b, a),
        cumulables(a, b) <==> a.bibs + b.bibs < 0x1_0000_0000 && a.faces + b.faces < 0x1_0000_0000
            && a.kept + b.kept < 0x1_0000_0000 && a.discarded + b.discarded < 0x1_0000_0000,
        cumulables(a, b) ==> {
            &&& cumul(a, b).bibs - a.bibs == b.bibs
            &&& cumul(a, b).faces - a.faces == b.faces
            &&& cumul(a, b).kept - a.kept == b.kept
            &&& cumul(a, b).discarded - a.discarded == b.discarded
        },
{
}

/// The refused frames are told by their places, in order: each one that was
/// not accepted, and no other.
pub proof fn loi_refusees(acceptees: Seq<bool>, derniere: bool)
    requires
        acceptees.len() <= usize::MAX,
    ensures
        refusees(Seq::empty()) == Seq::<usize>::empty(),
        derniere ==> refusees(acceptees.push(derniere)) == refusees(acceptees),
        !derniere ==> refusees(acceptees.push(derniere)) == refusees(acceptees).push(
            acceptees.len() as usize,
        ),
        forall|i: int|
            0 <= i < acceptees.len() ==> (refusees(acceptees).contains(i as usize)
                <==> !#[trigger] acceptees[i]),
    decreases acceptees.len(),
{
    assert(acceptees.push(derniere).drop_last() =~= acceptees);
    if acceptees.len() > 0 {
        let d = acceptees.drop_last();
        loi_refusees(d, derniere);
        lemme_places_refusees(d);
        let n = d.len() as usize;
        assert forall|i: int| 0 <= i < acceptees.len() implies (refusees(acceptees).contains(
            i as usize,
        ) <==> !#[trigger] acceptees[i]) by {
            let r = refusees(d);
            if i < d.len() {
                assert(d[i] == acceptees[i]);
                if r.contains(i as usize) {
                    let k = r.index_of(i as usize);
                    assert(refusees(acceptees)[k] == i as usize);
                }
            } else {
                if !acceptees[i] {
                    assert(refusees(acceptees)[r.len() as int] == n);
                }
            }
        }
    }
}

proof fn lemme_places_refusees(acceptees: Seq<bool>)
    requires
        acceptees.len() <= usize::MAX,
    ensures
        forall|k: int|
            0 <= k < refusees(acceptees).len() ==> (#[trigger] refusees(acceptees)[k])
                < acceptees.len(),
    decreases acceptees.len(),
{
    if acceptees.len() > 0 {
        let d = acceptees.drop_last();
        lemme_places_refusees(d);
        assert forall|k: int| 0 <= k < refusees(acceptees).len() implies (#[trigger] refusees(
            acceptees,
        )[k]) < acceptees.len() by {
            if k < refusees(d).len() {
                assert(refusees(acceptees)[k] == refusees(d)[k]);
            }
        }
    }
}

/// A frame has a path and an instant, or it is left out; of a list, those that
/// have both are kept, in their order.
pub proof fn loi_images_nommees(
    v: Seq<serde_json::Value>,
    w: serde_json::Value,
    path: Option<Seq<char>>,
    instant_at: Option<Seq<char>>,
)
    ensures
        image(path, instant_at) is Some <==> path is Some && instant_at is Some,
        image(path, instant_at) matches Some(f) ==> path == Some(f.0) && instant_at == Some(f.1),
        images_nommees(Seq::empty()) == Seq::<(Seq<char>, Seq<char>)>::empty(),
        membre(w, "path"@) is None || membre(w, "instant_at"@) is None ==> images_nommees(v.push(w))
            == images_nommees(v),
        membre(w, "path"@) matches Some(p) ==> membre(w, "instant_at"@) matches Some(i)
            ==> images_nommees(v.push(w)) == images_nommees(v).push((p, i)),
{
    assert(v.push(w).drop_last() =~= v);
}

/// A member is what the object holds under its key, when it holds it.
pub proof fn loi_membre(v: serde_json::Value, cle: Seq<char>)
    ensures
        membres(v).dom().contains(cle) ==> membre(v, cle) == membres(v)[cle],
        !membres(v).dom().contains(cle) ==> membre(v, cle) is None,
{
}

/// The view of a frame is its path and its instant; the view of a field is its
/// name and its value.
pub proof fn loi_vues_des_champs(f: FrameToUpload, v: Seq<(String, Valeur)>, k: int)
    requires
        0 <= k < v.len(),
    ensures
        image_vue(f).0 == f.path@,
        image_vue(f).1 == f.instant_at@,
        champs_vus(v).len() == v.len(),
        champs_vus(v)[k].0 == v[k].0@,
        v[k].1 matches Valeur::Texte(t) ==> champs_vus(v)[k].1 == ValeurVue::Texte(t@),
        v[k].1 matches Valeur::Nombre(n) ==> champs_vus(v)[k].1 == ValeurVue::Nombre(n as int),
{
}

/// Each error says its own words; the delay of a saturation reads back from
/// them. An error tells that the session expired when it is that error, or
/// says its words.
pub proof fn loi_mots_des_erreurs(e: ErreurVideo)
    ensures
        e is SessionExpiree ==> e.dit() == "SESSION_EXPIRED"@,
        e is AnalyseDesactivee ==> e.dit() == "ANALYSE_DESACTIVEE"@,
        e matches ErreurVideo::Autre(m) ==> e.dit() == m@,
        e matches ErreurVideo::Saturation { attente } ==> {
            let m = e.dit();
            &&& texte::debute_par(m, "Serveur saturé : pause de "@)
            &&& texte::finit_par(m, " s"@)
            &&& texte::valeur(
                m.subrange("Serveur saturé : pause de "@.len() as int, m.len() - 2),
            ) == attente
        },
        e.expiree() <==> e.dit() == "SESSION_EXPIRED"@,
{
    reveal_strlit("SESSION_EXPIRED");
    reveal_strlit("ANALYSE_DESACTIVEE");
    reveal_strlit("Serveur saturé : pause de ");
    reveal_strlit(" s");
    assert("SESSION_EXPIRED"@.len() == 15 && "ANALYSE_DESACTIVEE"@.len() == 18);
    if let ErreurVideo::Saturation { attente } = e {
        let p = "Serveur saturé : pause de "@;
        let d = texte::decimal(attente as nat);
        let m = e.dit();
        texte::lemme_decimal_relu(attente as nat);
        assert(m =~= p + (d + " s"@));
        assert(m =~= (p + d) + " s"@);
        texte::loi_bouts(p, d + " s"@, p);
        texte::loi_bouts(" s"@, p + d, " s"@);
        assert(m.subrange(p.len() as int, m.len() - 2) =~= d);
        assert(m[1] == 'e');
        assert("SESSION_EXPIRED"@[1] == 'E');
    }
}

/// The sizes and delays of the video uploads.
pub proof fn loi_limites_video()
    ensures
        CHUNK_SIZE == 5 * 1024 * 1024,
        FRAMES_PAR_LOT == 10,
        ATTENTE_PHOTOS_MS == 20_000,
        TIMEOUT_CLIP_SECS == 300,
        TIMEOUT_FRAMES_SECS == 180,
        TIMEOUT_ETAT_SECS == 60,
{
}

} // verus!
