//! Sending photos: how many at once, how long to wait, when to give up.
//!
//! Six workers run at all times, and only the first ones may send. A server
//! that asks to slow down halves their number and suspends every upload for
//! the delay it asks for; calm restores one worker every thirty seconds.

use crate::database::StatutPhoto;
use crate::texte;
use vstd::prelude::*;

verus! {

/// Uploads that the photographer may run at once, at most.
pub const MAX_PARALLEL: u32 = 6;

/// Counted attempts for a photo.
pub const MAX_ATTEMPTS: u32 = 3;

/// Seconds given to an upload.
pub const UPLOAD_TIMEOUT_SECS: u64 = 60;

/// Seconds between two checks of the connection.
pub const PING_INTERVAL_SECS: u64 = 10;

/// Seconds to wait after a 429 and after a 503, when the server gives none.
pub const ATTENTE_429_DEFAUT_SECS: u64 = 5;

pub const ATTENTE_503_DEFAUT_SECS: u64 = 10;

/// No wait exceeds this many seconds.
pub const ATTENTE_MAX_SECS: u64 = 300;

/// Seconds of calm before one more upload is allowed.
pub const REMONTEE_SECS: u64 = 30;

/// Nanoseconds in a second: instants and delays are counted in these.
pub const SECONDE: u64 = 1_000_000_000;

/// A waiting worker looks again after this many nanoseconds.
pub const PAS_ATTENTE: u64 = 500_000_000;

/// Path of the photo uploads on the server.
pub const UPLOAD_ENDPOINT: &'static str = "/api/sport/upload";

// ─── Photos under way ──────────────────────────────────────────────────

/// The photos that wait or are being sent, and whether they are paused.
pub struct CompteurPhotos {
    pub en_cours: usize,
    pub en_pause: bool,
}

/// One more photo waits.
pub fn photo_ajoutee(c: &mut CompteurPhotos)
    ensures
        final(c).en_cours == if old(c).en_cours == usize::MAX {
            0
        } else {
            old(c).en_cours + 1
        },
        final(c).en_pause == old(c).en_pause,
{
    c.en_cours = if c.en_cours == usize::MAX {
        0
    } else {
        c.en_cours + 1
    };
}

/// A photo is over and done with. The count never goes below zero, even when
/// a stop has already brought it there.
pub fn photo_terminee(c: &mut CompteurPhotos)
    ensures
        final(c).en_cours == if old(c).en_cours == 0 {
            0
        } else {
            old(c).en_cours - 1
        },
        final(c).en_pause == old(c).en_pause,
{
    if c.en_cours > 0 {
        c.en_cours = c.en_cours - 1;
    }
}

pub fn photos_en_cours(c: &CompteurPhotos) -> (r: usize)
    ensures
        r == c.en_cours,
{
    c.en_cours
}

/// Back to nothing under way, and no pause.
pub fn reinitialiser_photos_en_cours(c: &mut CompteurPhotos)
    ensures
        final(c).en_cours == 0,
        !final(c).en_pause,
{
    c.en_cours = 0;
    c.en_pause = false;
}

pub fn photos_en_pause(c: &mut CompteurPhotos, pause: bool)
    ensures
        final(c).en_pause == pause,
        final(c).en_cours == old(c).en_cours,
{
    c.en_pause = pause;
}

/// Must video wait for photos? Not when photos are paused: they go nowhere.
pub fn photos_prioritaires(c: &CompteurPhotos) -> (r: bool)
    ensures
        r == (c.en_cours > 0 && !c.en_pause),
{
    c.en_cours > 0 && !c.en_pause
}

// ─── Regulation ────────────────────────────────────────────────────────

/// How many uploads may run at once, and from when.
pub struct Regulateur {
    configure: u32,
    actif: u32,
    /// No upload leaves before this instant. It may lie beyond the last one
    /// that the clock can tell.
    reprise: Option<u128>,
    /// The last saturation, or the last step up.
    dernier_changement: Option<u64>,
}

/// A number brought between two bounds.
pub open spec fn borne(n: int, bas: int, haut: int) -> int {
    if n < bas {
        bas
    } else if n > haut {
        haut
    } else {
        n
    }
}

fn borner_parallele(n: u32) -> (r: u32)
    ensures
        r == borne(n as int, 1, MAX_PARALLEL as int),
{
    if n < 1 {
        1
    } else if n > MAX_PARALLEL {
        MAX_PARALLEL
    } else {
        n
    }
}

impl Regulateur {
    /// What the photographer asked for.
    pub closed spec fn reglage(self) -> int {
        self.configure as int
    }

    /// What is allowed at present.
    pub closed spec fn parallele(self) -> int {
        self.actif as int
    }

    /// Before which instant no upload leaves.
    pub closed spec fn echeance(self) -> Option<u128> {
        self.reprise
    }

    /// When the number last changed by itself.
    pub closed spec fn changement(self) -> Option<u64> {
        self.dernier_changement
    }

    #[verifier::type_invariant]
    spec fn bornes(self) -> bool {
        1 <= self.actif <= self.configure <= MAX_PARALLEL
    }

    /// At least one upload is always allowed, never more than asked for, and
    /// never more than the maximum.
    pub open spec fn mesure(self) -> bool {
        1 <= self.parallele() <= self.reglage() <= MAX_PARALLEL
    }

    /// What a success makes of `avant`: one more upload if fewer run than was
    /// asked for, and the last change is old enough.
    pub open spec fn apres_succes(self, avant: Self, maintenant: u64) -> bool {
        let calme = match avant.changement() {
            Some(t) => maintenant - t >= REMONTEE_SECS * SECONDE,
            None => true,
        };
        &&& self.reglage() == avant.reglage()
        &&& self.echeance() == avant.echeance()
        &&& if avant.parallele() < avant.reglage() && calme {
            self.parallele() == avant.parallele() + 1 && self.changement() == Some(maintenant)
        } else {
            self.parallele() == avant.parallele() && self.changement() == avant.changement()
        }
    }

    /// What a saturation makes of `avant`: half as many uploads, at least
    /// one, and none before the latest of the two deadlines.
    pub open spec fn apres_saturation(self, avant: Self, attente: int, maintenant: int) -> bool {
        &&& self.reglage() == avant.reglage()
        &&& self.parallele() == if avant.parallele() / 2 < 1 {
            1
        } else {
            avant.parallele() / 2
        }
        &&& self.echeance() == Some(
            match avant.echeance() {
                Some(e) if e > maintenant + attente => e,
                _ => (maintenant + attente) as u128,
            },
        )
        &&& self.changement() == Some(maintenant as u64)
    }

    /// What a new setting makes of `avant`: it applies at once, and a delay
    /// asked for by the server stays.
    pub open spec fn apres_reglage(self, avant: Self, parallele: u32) -> bool {
        &&& self.reglage() == borne(parallele as int, 1, MAX_PARALLEL as int)
        &&& self.parallele() == self.reglage()
        &&& self.echeance() == avant.echeance()
        &&& self.changement() == avant.changement()
    }

    pub fn new(configure: u32) -> (r: Self)
        ensures
            r.reglage() == borne(configure as int, 1, MAX_PARALLEL as int),
            r.parallele() == r.reglage(),
            r.mesure(),
            r.echeance() is None,
            r.changement() is None,
    {
        let configure: u32 = borner_parallele(configure);
        Regulateur { configure, actif: configure, reprise: None, dernier_changement: None }
    }

    /// Uploads allowed at present.
    pub fn actif(&self) -> (r: u32)
        ensures
            r == self.parallele(),
            self.mesure(),
    {
        proof {
            use_type_invariant(self);
        }
        self.actif
    }

    /// May worker `worker`, counted from 0, take a file?
    pub fn autorise(&self, worker: u32) -> (r: bool)
        ensures
            r == (worker < self.parallele()),
    {
        worker < self.actif
    }

    /// The server is saturated: half as many uploads, none before the delay
    /// has passed. A delay already set is never shortened. Gives the new
    /// number of uploads.
    pub fn saturation(&mut self, attente: u64, maintenant: u64) -> (r: u32)
        ensures
            r == final(self).parallele(),
            final(self).apres_saturation(*old(self), attente as int, maintenant as int),
            final(self).mesure(),
    {
        proof {
            use_type_invariant(&*self);
        }
        let moitie: u32 = self.actif / 2;
        let nouveau: u32 = if moitie < 1 {
            1
        } else {
            moitie
        };
        self.actif = nouveau;
        let fin: u128 = maintenant as u128 + attente as u128;
        let echeance: u128 = match self.reprise {
            Some(existante) => if existante > fin {
                existante
            } else {
                fin
            },
            None => fin,
        };
        self.reprise = Some(echeance);
        self.dernier_changement = Some(maintenant);
        nouveau
    }

    /// An upload has succeeded: one more is allowed if the calm has lasted,
    /// never beyond what was asked for.
    pub fn succes(&mut self, maintenant: u64)
        ensures
            final(self).apres_succes(*old(self), maintenant),
            final(self).mesure(),
    {
        proof {
            use_type_invariant(&*self);
        }
        if self.actif >= self.configure {
            return ;
        }
        let calme: bool = match self.dernier_changement {
            Some(t) => maintenant >= t && maintenant - t >= REMONTEE_SECS * SECONDE,
            None => true,
        };
        if calme {
            self.actif = self.actif + 1;
            self.dernier_changement = Some(maintenant);
        }
    }

    /// The photographer changes the number during the session: it applies at
    /// once. A delay asked for by the server stays.
    pub fn regler(&mut self, parallele: u32)
        ensures
            final(self).apres_reglage(*old(self), parallele),
            final(self).mesure(),
    {
        let parallele: u32 = borner_parallele(parallele);
        *self = Regulateur {
            configure: parallele,
            actif: parallele,
            reprise: self.reprise,
            dernier_changement: self.dernier_changement,
        };
    }

    /// How long to wait before sending, if at all.
    pub fn attente_restante(&self, maintenant: u64) -> (r: Option<u128>)
        ensures
            r == match self.echeance() {
                Some(fin) if fin > maintenant => Some((fin - maintenant) as u128),
                _ => None,
            },
    {
        match self.reprise {
            Some(fin) => if fin > maintenant as u128 {
                Some(fin - maintenant as u128)
            } else {
                None
            },
            None => None,
        }
    }
}

// ─── Delays asked for by the server ────────────────────────────────────

/// The number of seconds that a `Retry-After` header gives. A date gives
/// none.
pub open spec fn delai_demande(valeur: Option<Seq<char>>) -> Option<u64> {
    match valeur {
        None => None,
        Some(v) => match texte::lecture(texte::rogne(v), u64::MAX as nat) {
            Some(n) => Some(n as u64),
            None => None,
        },
    }
}

pub fn lire_retry_after(valeur: Option<&str>) -> (r: Option<u64>)
    ensures
        r == delai_demande(texte::vue_ref(valeur)),
{
    match valeur {
        None => None,
        Some(v) => texte::lire(&texte::rogner(&texte::caracteres(v)), u64::MAX),
    }
}

/// Two to the power `n`.
pub open spec fn doublements(n: nat) -> nat
    decreases n,
{
    if n == 0 {
        1
    } else {
        2 * doublements((n - 1) as nat)
    }
}

/// The seconds to wait after a saturation: what the server asks for, or a
/// default that doubles at each repetition; at least one, at most the
/// maximum.
pub open spec fn attente(code: u16, retry_after: Option<u64>, consecutives: u32) -> int {
    let defaut = if code == 503 {
        ATTENTE_503_DEFAUT_SECS as int
    } else {
        ATTENTE_429_DEFAUT_SECS as int
    };
    let voulue = match retry_after {
        Some(s) => s as int,
        None => defaut * doublements(borne(consecutives as int, 0, 6) as nat),
    };
    borne(voulue, 1, ATTENTE_MAX_SECS as int)
}

pub fn attente_saturation(code: u16, retry_after: Option<u64>, consecutives: u32) -> (r: u64)
    ensures
        r == attente(code, retry_after, consecutives),
        1 <= r <= ATTENTE_MAX_SECS,
{
    let defaut: u64 = if code == 503 {
        ATTENTE_503_DEFAUT_SECS
    } else {
        ATTENTE_429_DEFAUT_SECS
    };
    let voulue: u64 = match retry_after {
        Some(s) => s,
        None => {
            let fois: u32 = if consecutives > 6 {
                6
            } else {
                consecutives
            };
            let mut facteur: u64 = 1;
            let mut k: u32 = 0;
            proof {
                reveal_with_fuel(doublements, 7);
            }
            while k < fois
                invariant
                    k <= fois <= 6,
                    facteur == doublements(k as nat),
                    doublements(6) == 64,
                    facteur * doublements((6 - k) as nat) == 64,
                    facteur <= 64,
                decreases fois - k,
            {
                proof {
                    let d = doublements((6 - k - 1) as nat);
                    assert(doublements((6 - k) as nat) == 2 * d);
                    assert(d >= 1) by {
                        reveal_with_fuel(doublements, 7);
                    }
                    assert((2 * facteur) * d == 64 && 2 * facteur <= 64) by (nonlinear_arith)
                        requires
                            facteur * (2 * d) == 64,
                            d >= 1,
                            facteur >= 0,
                    ;
                }
                facteur = 2 * facteur;
                k += 1;
            }
            defaut * facteur
        },
    };
    if voulue < 1 {
        1
    } else if voulue > ATTENTE_MAX_SECS {
        ATTENTE_MAX_SECS
    } else {
        voulue
    }
}

// ─── The server's own time ─────────────────────────────────────────────

/// A measure of a `Server-Timing` header: its name, and the texts given as
/// its duration.
pub struct Mesure {
    pub nom: String,
    pub durees: Vec<String>,
}

/// The durations among the trimmed parts of a measure.
pub open spec fn durees_de(parts: Seq<Seq<char>>) -> Seq<Seq<char>>
    decreases parts.len(),
{
    if parts.len() == 0 {
        Seq::empty()
    } else {
        let p = texte::rogne(parts.last());
        let reste = durees_de(parts.drop_last());
        if texte::debute_par(p, "dur="@) {
            reste.push(texte::sans_bords(p.skip("dur="@.len() as int), '"'))
        } else {
            reste
        }
    }
}

/// A measure reads so: a name, then durations, between semicolons.
pub open spec fn est_mesure(m: Mesure, texte: Seq<char>) -> bool {
    let parts = texte::champs(texte, ';');
    &&& m.nom@ == texte::rogne(parts[0])
    &&& texte::vues(m.durees@) == durees_de(parts.skip(1))
}

fn lire_mesure(v: &Vec<char>) -> (r: Mesure)
    ensures
        est_mesure(r, v@),
{
    let parts = texte::decouper(v, ';');
    let ghost vues = texte::vues_car(parts@);
    let prefixe = texte::caracteres("dur=");
    let nom = texte::en_texte(&texte::rogner(&parts[0]));
    assert(nom@ == texte::rogne(vues[0]));
    let mut durees: Vec<String> = Vec::new();
    let mut i: usize = 1;
    assert(texte::vues(durees@) =~= durees_de(vues.subrange(1, 1)));
    while i < parts.len()
        invariant
            1 <= i <= parts@.len(),
            vues == texte::vues_car(parts@),
            prefixe@ == "dur="@,
            texte::vues(durees@) == durees_de(vues.subrange(1, i as int)),
        decreases parts@.len() - i,
    {
        let p = texte::rogner(&parts[i]);
        assert(vues.subrange(1, i + 1).drop_last() =~= vues.subrange(1, i as int));
        assert(vues.subrange(1, i + 1).last() == parts@[i as int]@);
        if texte::debute(&p, &prefixe) {
            let reste = texte::tranche(&p, prefixe.len(), p.len());
            assert(reste@ =~= p@.skip(prefixe@.len() as int));
            let valeur = texte::en_texte(&texte::oter_bords(&reste, '"'));
            texte::ajouter(&mut durees, valeur.as_str());
        }
        i += 1;
    }
    assert(vues.subrange(1, vues.len() as int) =~= vues.skip(1));
    Mesure { nom, durees }
}

/// The measures of a `Server-Timing` header, in order.
pub fn mesures(valeur: &str) -> (r: Vec<Mesure>)
    ensures
        r@.len() == texte::champs(valeur@, ',').len(),
        forall|i: int|
            0 <= i < r@.len() ==> est_mesure(#[trigger] r@[i], texte::champs(valeur@, ',')[i]),
{
    let parts = texte::decouper(&texte::caracteres(valeur), ',');
    let ghost vues = texte::vues_car(parts@);
    let mut r: Vec<Mesure> = Vec::new();
    let mut i: usize = 0;
    while i < parts.len()
        invariant
            i <= parts@.len(),
            r@.len() == i,
            vues == texte::vues_car(parts@),
            forall|k: int| 0 <= k < i ==> est_mesure(#[trigger] r@[k], vues[k]),
        decreases parts@.len() - i,
    {
        let m = lire_mesure(&parts[i]);
        assert(vues[i as int] == parts@[i as int]@);
        r.push(m);
        i += 1;
    }
    r
}

/// A measure of the application itself, whose duration could be read.
pub open spec fn mesure_app(m: Seq<Mesure>, lues: Seq<bool>, i: int) -> bool {
    0 <= i < m.len() && lues[i] && m[i].nom@ == "app"@
}

/// Which measure tells the server's time, given which of them hold a
/// duration that reads as a number: the first named `app`, or else the first
/// of all.
pub fn retenir_mesure(m: &Vec<Mesure>, lues: &Vec<bool>) -> (r: Option<usize>)
    requires
        m@.len() == lues@.len(),
    ensures
        match r {
            Some(i) => {
                &&& i < m@.len()
                &&& lues@[i as int]
                &&& mesure_app(m@, lues@, i as int) ==> forall|j: int|
                    0 <= j < i ==> !mesure_app(m@, lues@, j)
                &&& !mesure_app(m@, lues@, i as int) ==> (forall|j: int|
                    !mesure_app(m@, lues@, j)) && (forall|j: int|
                    0 <= j < i ==> !#[trigger] lues@[j])
            },
            None => forall|j: int| 0 <= j < lues@.len() ==> !#[trigger] lues@[j],
        },
{
    let mut premiere: Option<usize> = None;
    let mut i: usize = 0;
    while i < m.len()
        invariant
            i <= m@.len() == lues@.len(),
            forall|j: int| 0 <= j < i ==> !mesure_app(m@, lues@, j),
            match premiere {
                Some(k) => k < i && lues@[k as int] && forall|j: int|
                    0 <= j < k ==> !#[trigger] lues@[j],
                None => forall|j: int| 0 <= j < i ==> !#[trigger] lues@[j],
            },
        decreases m@.len() - i,
    {
        if lues[i] {
            if texte::memes(m[i].nom.as_str(), "app") {
                assert(mesure_app(m@, lues@, i as int));
                return Some(i);
            }
            if premiere.is_none() {
                premiere = Some(i);
            }
        }
        i += 1;
    }
    premiere
}

/// Of a transfer that took `total_ms`, what was not the server's time.
pub fn temps_reseau(total_ms: u64, serveur_ms: Option<u64>) -> (r: Option<u64>)
    ensures
        r == match serveur_ms {
            Some(s) => Some(
                if total_ms < s {
                    0u64
                } else {
                    (total_ms - s) as u64
                },
            ),
            None => None,
        },
{
    match serveur_ms {
        Some(s) => Some(
            if total_ms < s {
                0
            } else {
                total_ms - s
            },
        ),
        None => None,
    }
}

// ─── One upload ────────────────────────────────────────────────────────

/// To whom photos are sent, and how many at once.
pub struct UploadConfig {
    pub token: String,
    pub event_id: i64,
    /// None: no checkpoint.
    pub checkpoint_id: Option<i64>,
    /// Uploads at once, from 1 to 6.
    pub parallel: u32,
}

/// A photo that the server has.
#[derive(Clone, Copy, PartialEq, Eq, Structural, Debug)]
pub struct EnvoiReussi {
    pub photo_id: Option<i64>,
    /// From the request to the whole of the answer.
    pub total_ms: u64,
    /// Time spent in the server, when it says.
    pub serveur_ms: Option<u64>,
}

/// Why an upload failed.
pub enum Echec {
    /// The photographer must log in again.
    SessionExpiree,
    /// The server asks to slow down.
    Saturation { code: u16, retry_after: Option<u64> },
    /// Anything else: it counts as an attempt.
    Erreur(String),
}

/// Why a file could not be read.
pub enum LectureImpossible {
    Introuvable,
    AccesRefuse,
    Autre(String),
}

/// Why no answer came.
pub enum SansReponse {
    Delai,
    Connexion,
    Requete,
    Autre(String),
}

/// The text fields of the form that carries a photo.
pub fn champs_photo(config: &UploadConfig) -> (r: Vec<(String, String)>)
    ensures
        r@.len() == if config.checkpoint_id is Some {
            2int
        } else {
            1int
        },
        r@[0].0@ == "event_id"@,
        r@[0].1@ == texte::decimal_signe(config.event_id as int),
        config.checkpoint_id matches Some(id) ==> r@[1].0@ == "checkpoint_id"@ && r@[1].1@
            == texte::decimal_signe(id as int),
{
    let mut r: Vec<(String, String)> = Vec::new();
    r.push(("event_id".to_owned(), texte::ecrire_signe(config.event_id)));
    match config.checkpoint_id {
        Some(id) => r.push(("checkpoint_id".to_owned(), texte::ecrire_signe(id))),
        None => {},
    }
    r
}

/// What is said of a file that cannot be read.
pub fn echec_lecture(cause: LectureImpossible, chemin: &str) -> (r: Echec)
    ensures
        r matches Echec::Erreur(m) && m@ == match cause {
            LectureImpossible::Introuvable => "Fichier introuvable: "@ + chemin@,
            LectureImpossible::AccesRefuse => "Accès refusé: "@ + chemin@,
            LectureImpossible::Autre(e) => "Erreur lecture fichier: "@ + e@,
        },
{
    Echec::Erreur(
        match cause {
            LectureImpossible::Introuvable => texte::joindre("Fichier introuvable: ", chemin),
            LectureImpossible::AccesRefuse => texte::joindre("Accès refusé: ", chemin),
            LectureImpossible::Autre(e) => texte::joindre("Erreur lecture fichier: ", e.as_str()),
        },
    )
}

/// What is said of a request that got no answer.
pub fn echec_reseau(cause: SansReponse) -> (r: Echec)
    ensures
        r matches Echec::Erreur(m) && m@ == match cause {
            SansReponse::Delai => "Timeout (60s dépassées)"@,
            SansReponse::Connexion => "Impossible de contacter le serveur"@,
            SansReponse::Requete => "Erreur d'envoi de la requête"@,
            SansReponse::Autre(e) => "Erreur réseau: "@ + e@,
        },
{
    Echec::Erreur(
        match cause {
            SansReponse::Delai => "Timeout (60s dépassées)".to_owned(),
            SansReponse::Connexion => "Impossible de contacter le serveur".to_owned(),
            SansReponse::Requete => "Erreur d'envoi de la requête".to_owned(),
            SansReponse::Autre(e) => texte::joindre("Erreur réseau: ", e.as_str()),
        },
    )
}

/// A status that says the request succeeded.
pub open spec fn statut_succes(status: u16) -> bool {
    200 <= status < 300
}

/// What the server's status means: none when the photo was received.
///
/// An expired session, and a server that asks to slow down, stand apart from
/// the errors.
pub fn classer_statut(status: u16, retry_after: Option<&str>) -> (r: Option<Echec>)
    ensures
        status == 401 ==> (r matches Some(e) && e is SessionExpiree),
        status == 429 || status == 503 ==> {
            &&& r matches Some(Echec::Saturation { code, retry_after: delai })
            &&& code == status
            &&& delai == delai_demande(texte::vue_ref(retry_after))
        },
        status == 413 ==> (r matches Some(Echec::Erreur(m)) && m@
            == "Fichier trop volumineux pour le serveur"@),
        500 <= status < 600 && status != 503 ==> (r matches Some(Echec::Erreur(m)) && m@
            == "Erreur serveur ("@ + texte::decimal(status as nat) + ")"@),
        statut_succes(status) ==> r is None,
        !statut_succes(status) && !(500 <= status < 600) && status != 401 && status != 429 && status
            != 413 ==> (r matches Some(Echec::Erreur(m)) && m@ == "Erreur HTTP ("@ + texte::decimal(
            status as nat,
        ) + ")"@),
{
    if status == 401 {
        return Some(Echec::SessionExpiree);
    }
    if status == 429 || status == 503 {
        return Some(
            Echec::Saturation { code: status, retry_after: lire_retry_after(retry_after) },
        );
    }
    if status == 413 {
        return Some(Echec::Erreur("Fichier trop volumineux pour le serveur".to_owned()));
    }
    if 500 <= status && status < 600 {
        return Some(
            Echec::Erreur(
                texte::joindre3("Erreur serveur (", texte::ecrire(status as u64).as_str(), ")"),
            ),
        );
    }
    if !(200 <= status && status < 300) {
        return Some(
            Echec::Erreur(
                texte::joindre3("Erreur HTTP (", texte::ecrire(status as u64).as_str(), ")"),
            ),
        );
    }
    None
}

/// What the body of a successful answer means.
pub fn conclure_reponse(
    success: bool,
    photo_id: Option<i64>,
    message: Option<String>,
    total_ms: u64,
    serveur_ms: Option<u64>,
) -> (r: Result<EnvoiReussi, Echec>)
    ensures
        success ==> r == Ok::<EnvoiReussi, Echec>(EnvoiReussi { photo_id, total_ms, serveur_ms }),
        !success ==> (r matches Err(Echec::Erreur(m)) && m@ == match message {
            Some(t) => t@,
            None => "Erreur inconnue du serveur"@,
        }),
{
    if !success {
        return Err(
            Echec::Erreur(
                match message {
                    Some(m) => m,
                    None => "Erreur inconnue du serveur".to_owned(),
                },
            ),
        );
    }
    Ok(EnvoiReussi { photo_id, total_ms, serveur_ms })
}

// ─── A worker ──────────────────────────────────────────────────────────

/// What a worker does between two photos.
#[derive(Clone, Copy, PartialEq, Eq, Structural, Debug)]
pub enum Tour {
    /// The session is over.
    Arreter,
    /// Photos are paused, or this worker is one too many: look again later.
    Patienter,
    /// Take the next photo.
    Prendre,
}

/// The next step of worker `worker`.
pub fn tour_ouvrier(running: bool, paused: bool, regulateur: &Regulateur, worker: u32) -> (r: Tour)
    ensures
        r == if !running {
            Tour::Arreter
        } else if paused || worker >= regulateur.parallele() {
            Tour::Patienter
        } else {
            Tour::Prendre
        },
{
    if !running {
        Tour::Arreter
    } else if paused || !regulateur.autorise(worker) {
        Tour::Patienter
    } else {
        Tour::Prendre
    }
}

/// What a worker does with the photo it holds, before sending it.
pub enum AvantEnvoi {
    /// Wait that many nanoseconds, then ask again.
    Patienter(u64),
    /// The session is over: the photo goes back to waiting, with this reason.
    Rendre(String),
    /// Send; this is the attempt of that number.
    Envoyer(u32),
}

/// What becomes of a photo after an upload was tried.
pub enum Suite {
    /// The server has it.
    Envoyee { photo_id: Option<i64>, total_ms: u64, serveur_ms: Option<u64>, reseau_ms: Option<u64> },
    /// The session has expired: the photo failed and the worker leaves.
    Expiree,
    /// The server is saturated: try again after the delay, with fewer uploads.
    Ralentie { code: u16, attente: u64, parallele: u32 },
    /// The server has been unavailable too often: the photo failed.
    Indisponible { code: u16, attente: u64, parallele: u32, message: String },
    /// Try again after that many seconds.
    AReessayer { tentatives: u32, delai: u64 },
    /// Too many attempts: the photo failed.
    Abandonnee { message: String },
}

/// Seconds before the attempt that follows attempt `tentatives`.
pub open spec fn delai_apres(tentatives: int) -> int {
    if tentatives == 1 {
        5
    } else if tentatives == 2 {
        15
    } else {
        45
    }
}

/// The upload of one photo: its counted attempts, and the saturations met.
#[derive(Clone, Copy, PartialEq, Eq, Structural, Debug)]
pub struct EnvoiPhoto {
    pub tentatives: u32,
    pub saturations: u32,
}

impl EnvoiPhoto {
    /// The photo may still be tried.
    pub open spec fn en_jeu(self) -> bool {
        self.tentatives < MAX_ATTEMPTS
    }

    pub fn new() -> (r: Self)
        ensures
            r.tentatives == 0,
            r.saturations == 0,
            r.en_jeu(),
    {
        EnvoiPhoto { tentatives: 0, saturations: 0 }
    }

    /// The step before an upload: the delay asked for by the server is
    /// respected, unless the session ends.
    pub fn avant(&self, running: bool, regulateur: &Regulateur, maintenant: u64) -> (r: AvantEnvoi)
        requires
            self.en_jeu(),
        ensures
            !running ==> (r matches AvantEnvoi::Rendre(m) && m@ == "Arrêt pendant l'attente"@),
            running ==> match regulateur.echeance() {
                Some(fin) if fin > maintenant => r == AvantEnvoi::Patienter(
                    if fin - maintenant < PAS_ATTENTE {
                        (fin - maintenant) as u64
                    } else {
                        PAS_ATTENTE
                    },
                ),
                _ => r == AvantEnvoi::Envoyer((self.tentatives + 1) as u32),
            },
    {
        if !running {
            return AvantEnvoi::Rendre("Arrêt pendant l'attente".to_owned());
        }
        match regulateur.attente_restante(maintenant) {
            Some(reste) => AvantEnvoi::Patienter(
                if reste < PAS_ATTENTE as u128 {
                    reste as u64
                } else {
                    PAS_ATTENTE
                },
            ),
            None => AvantEnvoi::Envoyer(self.tentatives + 1),
        }
    }

    /// The step after an upload.
    ///
    /// A 429 is never a failure: it counts as no attempt. A 503 counts, for
    /// the server may really be down.
    pub fn apres(
        &mut self,
        resultat: Result<EnvoiReussi, Echec>,
        regulateur: &mut Regulateur,
        maintenant: u64,
    ) -> (r: Suite)
        requires
            old(self).en_jeu(),
            old(self).saturations < u32::MAX,
        ensures
            final(regulateur).mesure(),
            final(self).tentatives <= MAX_ATTEMPTS,
            match resultat {
                Ok(envoi) => {
                    &&& *final(self) == *old(self)
                    &&& r == (Suite::Envoyee {
                        photo_id: envoi.photo_id,
                        total_ms: envoi.total_ms,
                        serveur_ms: envoi.serveur_ms,
                        reseau_ms: match envoi.serveur_ms {
                            Some(s) => Some(
                                if envoi.total_ms < s {
                                    0u64
                                } else {
                                    (envoi.total_ms - s) as u64
                                },
                            ),
                            None => None,
                        },
                    })
                    &&& final(regulateur).apres_succes(*old(regulateur), maintenant)
                },
                Err(Echec::SessionExpiree) => {
                    &&& *final(self) == *old(self)
                    &&& *final(regulateur) == *old(regulateur)
                    &&& r is Expiree
                },
                Err(Echec::Saturation { code, retry_after }) => {
                    let pause = attente(code, retry_after, old(self).saturations);
                    &&& final(self).saturations == old(self).saturations + 1
                    &&& final(self).tentatives == old(self).tentatives + if code == 503 {
                        1int
                    } else {
                        0int
                    }
                    &&& final(regulateur).apres_saturation(
                        *old(regulateur),
                        pause * SECONDE,
                        maintenant as int,
                    )
                    &&& if code == 503 && !final(self).en_jeu() {
                        &&& r matches Suite::Indisponible { code: c, attente: a, parallele: p, message }
                        &&& c == code && a == pause && p == final(regulateur).parallele()
                        &&& message@ == "Serveur indisponible ("@ + texte::decimal(code as nat)
                            + ")"@
                    } else {
                        &&& r matches Suite::Ralentie { code: c, attente: a, parallele: p }
                        &&& c == code && a == pause && p == final(regulateur).parallele()
                        &&& final(self).en_jeu()
                    }
                },
                Err(Echec::Erreur(m)) => {
                    &&& final(self).tentatives == old(self).tentatives + 1
                    &&& final(self).saturations == old(self).saturations
                    &&& *final(regulateur) == *old(regulateur)
                    &&& if final(self).en_jeu() {
                        r == (Suite::AReessayer {
                            tentatives: final(self).tentatives,
                            delai: delai_apres(final(self).tentatives as int) as u64,
                        })
                    } else {
                        r matches Suite::Abandonnee { message } && message@ == m@
                    }
                },
            },
    {
        match resultat {
            Ok(envoi) => {
                regulateur.succes(maintenant);
                Suite::Envoyee {
                    photo_id: envoi.photo_id,
                    total_ms: envoi.total_ms,
                    serveur_ms: envoi.serveur_ms,
                    reseau_ms: temps_reseau(envoi.total_ms, envoi.serveur_ms),
                }
            },
            Err(Echec::SessionExpiree) => {
                proof {
                    use_type_invariant(&*regulateur);
                }
                Suite::Expiree
            },
            Err(Echec::Saturation { code, retry_after }) => {
                let pause: u64 = attente_saturation(code, retry_after, self.saturations);
                self.saturations = self.saturations + 1;
                let parallele: u32 = regulateur.saturation(pause * SECONDE, maintenant);
                if code == 503 {
                    self.tentatives = self.tentatives + 1;
                    if self.tentatives >= MAX_ATTEMPTS {
                        let message = texte::joindre3(
                            "Serveur indisponible (",
                            texte::ecrire(code as u64).as_str(),
                            ")",
                        );
                        return Suite::Indisponible { code, attente: pause, parallele, message };
                    }
                }
                Suite::Ralentie { code, attente: pause, parallele }
            },
            Err(Echec::Erreur(message)) => {
                proof {
                    use_type_invariant(&*regulateur);
                }
                self.tentatives = self.tentatives + 1;
                if self.tentatives < MAX_ATTEMPTS {
                    let delai: u64 = if self.tentatives == 1 {
                        5
                    } else {
                        15
                    };
                    Suite::AReessayer { tentatives: self.tentatives, delai }
                } else {
                    Suite::Abandonnee { message }
                }
            },
        }
    }

    /// After the delay before a new attempt: none to go on, or the reason for
    /// which the photo goes back to waiting.
    pub fn apres_delai(running: bool) -> (r: Option<String>)
        ensures
            running ==> r is None,
            !running ==> (r matches Some(m) && m@ == "Arrêt pendant le retry"@),
    {
        if running {
            None
        } else {
            Some("Arrêt pendant le retry".to_owned())
        }
    }
}

// ─── What an upload leaves ─────────────────────────────────────────────

/// What the table of photos is told of a photo.
pub struct Inscription {
    pub statut: StatutPhoto,
    pub erreur: Option<String>,
    pub photo_id: Option<i64>,
}

/// What is recorded after an upload: its status, the reason of a failure, and
/// the number that the server gave. Nothing as long as the photo is tried
/// again.
pub open spec fn inscrite(s: Suite) -> Option<(StatutPhoto, Option<Seq<char>>, Option<i64>)> {
    match s {
        Suite::Envoyee { photo_id, .. } => Some((StatutPhoto::Success, None, photo_id)),
        Suite::Expiree => Some((StatutPhoto::Failed, Some("SESSION_EXPIRED"@), None)),
        Suite::Indisponible { message, .. } => Some((StatutPhoto::Failed, Some(message@), None)),
        Suite::Abandonnee { message } => Some((StatutPhoto::Failed, Some(message@), None)),
        Suite::Ralentie { .. } => None,
        Suite::AReessayer { .. } => None,
    }
}

/// What to record after an upload, if anything.
pub fn inscription(s: &Suite) -> (r: Option<Inscription>)
    ensures
        match r {
            Some(i) => inscrite(*s) == Some((i.statut, texte::vue(i.erreur), i.photo_id)),
            None => inscrite(*s) is None,
        },
{
    match s {
        Suite::Envoyee { photo_id, total_ms: _, serveur_ms: _, reseau_ms: _ } => Some(
            Inscription { statut: StatutPhoto::Success, erreur: None, photo_id: *photo_id },
        ),
        Suite::Expiree => Some(
            Inscription {
                statut: StatutPhoto::Failed,
                erreur: Some("SESSION_EXPIRED".to_owned()),
                photo_id: None,
            },
        ),
        Suite::Indisponible { code: _, attente: _, parallele: _, message } => Some(
            Inscription {
                statut: StatutPhoto::Failed,
                erreur: Some(message.clone()),
                photo_id: None,
            },
        ),
        Suite::Abandonnee { message } => Some(
            Inscription {
                statut: StatutPhoto::Failed,
                erreur: Some(message.clone()),
                photo_id: None,
            },
        ),
        Suite::Ralentie { code: _, attente: _, parallele: _ } => None,
        Suite::AReessayer { tentatives: _, delai: _ } => None,
    }
}

/// What a worker does after an upload.
#[derive(Clone, Copy, PartialEq, Eq, Structural, Debug)]
pub enum Devenir {
    /// It keeps the photo, and tries it again.
    Garder,
    /// It is done with the photo, and takes the next one.
    Suivante,
    /// It is done with the photo, and leaves.
    Partir,
}

pub open spec fn devient(s: Suite) -> Devenir {
    match s {
        Suite::Envoyee { .. } => Devenir::Suivante,
        Suite::Indisponible { .. } => Devenir::Suivante,
        Suite::Abandonnee { .. } => Devenir::Suivante,
        Suite::Expiree => Devenir::Partir,
        Suite::Ralentie { .. } => Devenir::Garder,
        Suite::AReessayer { .. } => Devenir::Garder,
    }
}

pub fn devenir(s: &Suite) -> (r: Devenir)
    ensures
        r == devient(*s),
{
    match s {
        Suite::Envoyee { photo_id: _, total_ms: _, serveur_ms: _, reseau_ms: _ } =>
            Devenir::Suivante,
        Suite::Indisponible { code: _, attente: _, parallele: _, message: _ } => Devenir::Suivante,
        Suite::Abandonnee { message: _ } => Devenir::Suivante,
        Suite::Expiree => Devenir::Partir,
        Suite::Ralentie { code: _, attente: _, parallele: _ } => Devenir::Garder,
        Suite::AReessayer { tentatives: _, delai: _ } => Devenir::Garder,
    }
}

/// A worker lets go of a photo exactly when its end is recorded: it is then
/// sent or failed, and a failure has a reason.
pub proof fn loi_fin_inscrite(s: Suite)
    ensures
        (devient(s) == Devenir::Garder) == (inscrite(s) is None),
        inscrite(s) matches Some((statut, erreur, _)) ==> {
            ||| statut == StatutPhoto::Success && erreur is None
            ||| statut == StatutPhoto::Failed && erreur is Some
        },
{
}

// ─── The connection ────────────────────────────────────────────────────

/// Whether the server answered last time.
#[derive(Clone, Copy, PartialEq, Eq, Structural, Debug)]
pub struct Connexion {
    pub en_ligne: bool,
}

impl Connexion {
    pub fn new() -> (r: Self)
        ensures
            r.en_ligne,
    {
        Connexion { en_ligne: true }
    }

    /// Takes note of a check; gives the new state when it changed.
    pub fn controler(&mut self, en_ligne: bool) -> (r: Option<bool>)
        ensures
            final(self).en_ligne == en_ligne,
            r == if en_ligne != old(self).en_ligne {
                Some(en_ligne)
            } else {
                None
            },
    {
        if en_ligne != self.en_ligne {
            self.en_ligne = en_ligne;
            Some(en_ligne)
        } else {
            None
        }
    }
}

// ─── Laws of regulation ────────────────────────────────────────────────

/// A saturation never shortens a delay already set, whatever the order in
/// which the answers come.
pub proof fn loi_delai_jamais_raccourci(
    avant: Regulateur,
    apres: Regulateur,
    attente: u64,
    maintenant: u64,
)
    requires
        avant.mesure(),
        apres.apres_saturation(avant, attente as int, maintenant as int),
    ensures
        apres.mesure(),
        apres.parallele() <= avant.parallele(),
        apres.reglage() == avant.reglage(),
        apres.echeance() matches Some(e) && e - maintenant >= attente && (
        avant.echeance() matches Some(f) ==> e >= f),
{
}

/// What happens to the pacing of a session.
pub ghost enum Appel {
    Saturation { attente: u64, maintenant: u64 },
    Succes { maintenant: u64 },
    Reglage { parallele: u32 },
}

/// What a call makes of `avant`.
pub open spec fn apres_appel(avant: Regulateur, a: Appel, apres: Regulateur) -> bool {
    match a {
        Appel::Saturation { attente, maintenant } => apres.apres_saturation(
            avant,
            attente as int,
            maintenant as int,
        ),
        Appel::Succes { maintenant } => apres.apres_succes(avant, maintenant),
        Appel::Reglage { parallele } => apres.apres_reglage(avant, parallele),
    }
}

/// The states through which these calls lead, from a pacing that has not
/// heard of any saturation.
pub open spec fn deroulement(etats: Seq<Regulateur>, appels: Seq<Appel>) -> bool {
    &&& etats.len() == appels.len() + 1
    &&& etats[0].mesure()
    &&& etats[0].echeance() is None
    &&& forall|k: int|
        0 <= k < appels.len() ==> apres_appel(#[trigger] etats[k], appels[k], etats[k + 1])
}

/// The latest instant to which any of these calls puts uploads off, if one
/// does.
pub open spec fn derniere_echeance(appels: Seq<Appel>) -> Option<int>
    decreases appels.len(),
{
    if appels.len() == 0 {
        None
    } else {
        let avant = derniere_echeance(appels.drop_last());
        match appels.last() {
            Appel::Saturation { attente, maintenant } => match avant {
                Some(e) if e > maintenant + attente => Some(e),
                _ => Some(maintenant + attente),
            },
            _ => avant,
        }
    }
}

/// Whatever the calls and their order, no upload leaves before the latest
/// instant asked for, and only saturations set it: neither a success nor a
/// new setting brings it nearer. At least one upload is allowed throughout,
/// and never more than asked for.
pub proof fn loi_echeance_la_plus_lointaine(etats: Seq<Regulateur>, appels: Seq<Appel>)
    requires
        deroulement(etats, appels),
    ensures
        etats.last().mesure(),
        match (etats.last().echeance(), derniere_echeance(appels)) {
            (Some(e), Some(f)) => e == f,
            (None, None) => true,
            _ => false,
        },
    decreases appels.len(),
{
    if appels.len() > 0 {
        let n = appels.len() - 1;
        let d = etats.drop_last();
        let b = appels.drop_last();
        assert forall|k: int| 0 <= k < b.len() implies apres_appel(
            #[trigger] d[k],
            b[k],
            d[k + 1],
        ) by {
            assert(apres_appel(etats[k], appels[k], etats[k + 1]));
        }
        loi_echeance_la_plus_lointaine(d, b);
        assert(apres_appel(etats[n], appels[n], etats[n + 1]));
        assert(d.last() == etats[n]);
    }
}

/// Two saturations at the same instant end in the same state whichever is
/// heard first.
pub proof fn loi_saturations_commutent(
    avant: Regulateur,
    ab: Regulateur,
    a: Regulateur,
    ba: Regulateur,
    b: Regulateur,
    d: u64,
    e: u64,
    maintenant: u64,
)
    requires
        a.apres_saturation(avant, d as int, maintenant as int),
        ab.apres_saturation(a, e as int, maintenant as int),
        b.apres_saturation(avant, e as int, maintenant as int),
        ba.apres_saturation(b, d as int, maintenant as int),
    ensures
        ab.echeance() == ba.echeance(),
        ab.parallele() == ba.parallele(),
        ab.reglage() == ba.reglage(),
{
}

/// Within thirty seconds of a change, successes allow no further upload.
pub proof fn loi_un_cran_par_periode(avant: Regulateur, apres: Regulateur, t: u64, maintenant: u64)
    requires
        avant.changement() == Some(t),
        maintenant - t < REMONTEE_SECS * SECONDE,
        apres.apres_succes(avant, maintenant),
    ensures
        apres.parallele() == avant.parallele(),
{
}

/// The longer the server has been saturated, the longer the wait.
pub proof fn loi_attente_croissante(code: u16, a: u32, b: u32)
    requires
        a <= b,
    ensures
        attente(code, None, a) <= attente(code, None, b),
{
    let x = borne(a as int, 0, 6) as nat;
    let y = borne(b as int, 0, 6) as nat;
    lemme_doublements(x, y);
    let defaut = if code == 503 {
        ATTENTE_503_DEFAUT_SECS as int
    } else {
        ATTENTE_429_DEFAUT_SECS as int
    };
    vstd::arithmetic::mul::lemma_mul_inequality(
        doublements(x) as int,
        doublements(y) as int,
        defaut,
    );
    vstd::arithmetic::mul::lemma_mul_is_commutative(doublements(x) as int, defaut);
    vstd::arithmetic::mul::lemma_mul_is_commutative(doublements(y) as int, defaut);
}

proof fn lemme_doublements(x: nat, y: nat)
    requires
        x <= y,
    ensures
        doublements(x) <= doublements(y),
    decreases y,
{
    if x < y {
        lemme_doublements(x, (y - 1) as nat);
    }
}

// ─── Laws of the regulation, in numbers ────────────────────────────────

/// A bounded number stays between its bounds, and is as near as can be to the
/// number asked for.
pub proof fn loi_borne(n: int, bas: int, haut: int, autre: int)
    requires
        bas <= autre <= haut,
    ensures
        bas <= borne(n, bas, haut) <= haut,
        borne(autre, bas, haut) == autre,
        n <= borne(n, bas, haut) ==> borne(n, bas, haut) - n <= if autre < n {
            n - autre
        } else {
            autre - n
        },
        n >= borne(n, bas, haut) ==> n - borne(n, bas, haut) <= if autre < n {
            n - autre
        } else {
            autre - n
        },
{
}

/// Between one upload at once and six, and never more than the setting.
pub proof fn loi_de_un_a_six(r: Regulateur)
    requires
        r.mesure(),
    ensures
        1 <= r.parallele() <= r.reglage() <= 6,
{
}

/// A success adds one upload at once, when there is room below the setting
/// and thirty seconds have gone by since the last change; it never removes
/// any, and never shortens a delay.
pub proof fn loi_succes_pas_a_pas(avant: Regulateur, apres: Regulateur, maintenant: u64)
    requires
        apres.apres_succes(avant, maintenant),
        avant.mesure(),
    ensures
        apres.mesure(),
        apres.reglage() == avant.reglage(),
        apres.echeance() == avant.echeance(),
        apres.parallele() == avant.parallele() || apres.parallele() == avant.parallele() + 1,
        apres.parallele() == avant.parallele() ==> apres.changement() == avant.changement(),
        apres.parallele() == avant.parallele() + 1 ==> apres.changement() == Some(maintenant),
        avant.parallele() == avant.reglage() ==> apres.parallele() == avant.parallele(),
        avant.changement() is None && avant.parallele() < avant.reglage() ==> apres.parallele()
            == avant.parallele() + 1,
        avant.changement() matches Some(t) ==> avant.parallele() < avant.reglage() ==> (
        apres.parallele() == avant.parallele() + 1 <==> maintenant >= t + 30_000_000_000),
{
}

/// A saturation halves the uploads at once, one at least, and nothing leaves
/// before the later of the two delays.
pub proof fn loi_saturation_par_moitie(
    avant: Regulateur,
    apres: Regulateur,
    attente: u64,
    maintenant: u64,
)
    requires
        apres.apres_saturation(avant, attente as int, maintenant as int),
        avant.mesure(),
    ensures
        apres.mesure(),
        apres.reglage() == avant.reglage(),
        apres.changement() == Some(maintenant),
        avant.parallele() == 1 ==> apres.parallele() == 1,
        avant.parallele() > 1 ==> avant.parallele() - 1 <= 2 * apres.parallele()
            <= avant.parallele(),
        apres.echeance() == Some((maintenant + attente) as u128) || apres.echeance()
            == avant.echeance(),
        apres.echeance() matches Some(e) && e >= maintenant + attente && (
        avant.echeance() matches Some(f) ==> e >= f),
{
}

/// A setting takes effect at once, brought between one and six, and touches
/// no delay.
pub proof fn loi_reglage_immediat(avant: Regulateur, apres: Regulateur, parallele: u32)
    requires
        apres.apres_reglage(avant, parallele),
    ensures
        apres.mesure(),
        apres.parallele() == apres.reglage(),
        1 <= parallele <= 6 ==> apres.reglage() == parallele,
        parallele < 1 ==> apres.reglage() == 1,
        parallele > 6 ==> apres.reglage() == 6,
        apres.echeance() == avant.echeance(),
        apres.changement() == avant.changement(),
{
}

/// A delay asked for by the server is read from its digits, whatever blanks
/// stand round them; anything but a number is no delay.
pub proof fn loi_delai_lu(v: Seq<char>, n: nat)
    ensures
        delai_demande(None) is None,
        texte::rogne(v) == texte::decimal(n) && n <= u64::MAX ==> delai_demande(Some(v)) == Some(
            n as u64,
        ),
        texte::rogne(v) == texte::decimal(n) && n > u64::MAX ==> delai_demande(Some(v)) is None,
        texte::rogne(v).len() == 0 ==> delai_demande(Some(v)) is None,
        forall|i: int|
            1 <= i < texte::rogne(v).len() && !"0123456789"@.contains(#[trigger] texte::rogne(v)[i])
                ==> delai_demande(Some(v)) is None,
        texte::rogne(v).len() > 0 && texte::rogne(v)[0] != '+' && !"0123456789"@.contains(
            texte::rogne(v)[0],
        ) ==> delai_demande(Some(v)) is None,
{
    texte::loi_lecture(texte::rogne(v), n, u64::MAX as nat);
}

/// A delay that the server gives is kept as it is, between one second and
/// five minutes.
pub proof fn loi_delai_du_serveur(code: u16, secondes: u64, consecutives: u32)
    ensures
        1 <= secondes <= 300 ==> attente(code, Some(secondes), consecutives) == secondes,
        secondes == 0 ==> attente(code, Some(secondes), consecutives) == 1,
        secondes > 300 ==> attente(code, Some(secondes), consecutives) == 300,
{
}

/// Without one, the first delay is of five seconds, or ten when the server is
/// unavailable; each saturation in a row doubles it, up to five minutes.
pub proof fn loi_delai_double(code: u16, k: u32)
    requires
        k < u32::MAX,
    ensures
        code == 503 ==> attente(code, None, 0) == 10,
        code != 503 ==> attente(code, None, 0) == 5,
        2 * attente(code, None, k) <= 300 ==> attente(code, None, (k + 1) as u32) == 2 * attente(
            code,
            None,
            k,
        ),
        2 * attente(code, None, k) > 300 ==> attente(code, None, (k + 1) as u32) == 300,
        doublements(0) == 1,
        doublements(k as nat + 1) == 2 * doublements(k as nat),
{
    reveal_with_fuel(doublements, 8);
    let d = if code == 503 {
        10int
    } else {
        5int
    };
    let a = borne(k as int, 0, 6) as nat;
    let b = borne(k + 1, 0, 6) as nat;
    assert(borne(0u32 as int, 0, 6) == 0);
    assert(doublements(0) == 1 && doublements(1) == 2 && doublements(2) == 4 && doublements(3) == 8
        && doublements(4) == 16 && doublements(5) == 32 && doublements(6) == 64);
    if k < 6 {
        assert(b == a + 1);
        assert(d * doublements(b) == 2 * (d * doublements(a))) by (nonlinear_arith)
            requires
                doublements(b) == 2 * doublements(a),
        ;
        assert(d * doublements(a) >= 5) by (nonlinear_arith)
            requires
                d >= 5,
                doublements(a) >= 1,
        ;
    } else {
        assert(a == 6 && b == 6);
    }
}

/// Of the parts of a measure, those that give a duration are kept, in their
/// order, without their key and their quotes.
pub proof fn loi_durees(parts: Seq<Seq<char>>, p: Seq<char>, d: Seq<char>)
    ensures
        durees_de(Seq::empty()) == Seq::<Seq<char>>::empty(),
        texte::rogne(p) == "dur="@ + d ==> durees_de(parts.push(p)) == durees_de(parts).push(
            texte::sans_bords(d, '"'),
        ),
        texte::rogne(p).len() < 4 || texte::rogne(p).take(4) != "dur="@ ==> durees_de(parts.push(p))
            == durees_de(parts),
{
    reveal_strlit("dur=");
    let s = parts.push(p);
    assert(s.drop_last() =~= parts);
    let r = texte::rogne(p);
    if r == "dur="@ + d {
        texte::loi_bouts("dur="@, d, "dur="@);
        assert(r.skip(4) =~= d);
    } else if r.len() < 4 || r.take(4) != "dur="@ {
        if texte::debute_par(r, "dur="@) {
            assert(r.take(4) =~= "dur="@);
        }
    }
}

/// A measure is its name, then its parts, each after a semicolon: the name is
/// trimmed, a part that gives a duration gives it, and a measure without parts
/// has none.
pub proof fn loi_mesure_lue(m: Mesure, nom: Seq<char>, p: Seq<char>, d: Seq<char>)
    requires
        !nom.contains(';'),
        !p.contains(';'),
    ensures
        est_mesure(m, nom) ==> m.nom@ == texte::rogne(nom) && m.durees@.len() == 0,
        est_mesure(m, nom + seq![';'] + p) ==> m.nom@ == texte::rogne(nom) && (texte::rogne(p)
            == "dur="@ + d ==> m.durees@.len() == 1 && m.durees@[0]@ == texte::sans_bords(d, '"')),
{
    let t = nom + seq![';'] + p;
    texte::loi_champs(nom, ';', p);
    texte::loi_champs(p, ';', p);
    let vide = Seq::<Seq<char>>::empty();
    loi_durees(vide, p, d);
    assert(seq![nom].skip(1) =~= vide);
    assert((seq![nom] + seq![p]).skip(1) =~= vide.push(p));
    if est_mesure(m, nom) {
        assert(texte::vues(m.durees@).len() == m.durees@.len());
    }
    if est_mesure(m, t) && texte::rogne(p) == "dur="@ + d {
        assert(texte::vues(m.durees@).len() == m.durees@.len());
        assert(texte::vues(m.durees@)[0] == texte::sans_bords(d, '"'));
    }
}

/// A measure is read at its name and at all its durations.
pub proof fn loi_mesure_complete(m: Mesure, t: Seq<char>)
    requires
        est_mesure(m, t),
    ensures
        m.nom@ == texte::rogne(texte::champs(t, ';')[0]),
        texte::vues(m.durees@) == durees_de(
            texte::champs(t, ';').subrange(1, texte::champs(t, ';').len() as int),
        ),
{
    let c = texte::champs(t, ';');
    assert(c.skip(1) =~= c.subrange(1, c.len() as int));
}

/// The server's own measure is one named `app` whose duration was read.
pub proof fn loi_mesure_du_serveur(m: Seq<Mesure>, lues: Seq<bool>, i: int)
    ensures
        mesure_app(m, lues, i) ==> 0 <= i < m.len() && lues[i] && m[i].nom@ == "app"@,
        0 <= i < m.len() && lues[i] && m[i].nom@ == "app"@ ==> mesure_app(m, lues, i),
{
}

/// A status is a success when it is one of the two hundreds.
pub proof fn loi_statut_de_succes(status: u16)
    ensures
        statut_succes(status) <==> status / 100 == 2,
{
}

/// Five seconds before the second attempt, and each time three times more, up
/// to the third.
pub proof fn loi_delais_entre_tentatives(n: int)
    ensures
        delai_apres(1) == 5,
        1 <= n < 3 ==> delai_apres(n + 1) == 3 * delai_apres(n),
        n >= 3 ==> delai_apres(n) == delai_apres(3),
{
}

/// A photo is tried three times.
pub proof fn loi_trois_tentatives(e: EnvoiPhoto)
    ensures
        e.en_jeu() <==> e.tentatives < 3,
{
}

/// A photo that the server has is recorded with its number and no error; one
/// that failed with its reason and no number; one still tried is not recorded.
/// The worker goes on in every case, but leaves when the session expired.
pub proof fn loi_inscription_exacte(s: Suite)
    ensures
        s matches Suite::Envoyee { photo_id, .. } ==> inscrite(s) == Some(
            (StatutPhoto::Success, None::<Seq<char>>, photo_id),
        ),
        s is Expiree ==> inscrite(s) == Some(
            (StatutPhoto::Failed, Some("SESSION_EXPIRED"@), None::<i64>),
        ),
        s matches Suite::Indisponible { message, .. } ==> inscrite(s) == Some(
            (StatutPhoto::Failed, Some(message@), None::<i64>),
        ),
        s matches Suite::Abandonnee { message } ==> inscrite(s) == Some(
            (StatutPhoto::Failed, Some(message@), None::<i64>),
        ),
        s is Ralentie || s is AReessayer ==> inscrite(s) is None && devient(s) == Devenir::Garder,
        s is Expiree <==> devient(s) == Devenir::Partir,
        s is Envoyee || s is Indisponible || s is Abandonnee ==> devient(s) == Devenir::Suivante,
{
}

/// The delays and limits of the uploads.
pub proof fn loi_limites_des_envois()
    ensures
        MAX_PARALLEL == 6,
        MAX_ATTEMPTS == 3,
        UPLOAD_TIMEOUT_SECS == 60,
        PING_INTERVAL_SECS == 10,
        ATTENTE_MAX_SECS == 300,
        SECONDE == 1_000_000_000,
        2 * PAS_ATTENTE == SECONDE,
        UPLOAD_ENDPOINT@ == "/api/sport/upload"@,
{
}

} // verus!
