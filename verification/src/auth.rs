//! Logging in with an application password, and reading the photographer's
//! events.

use crate::texte;
use crate::video_uploader::PanneReseau;
use vstd::prelude::*;

verus! {

/// What every application password starts with.
pub const APP_PASSWORD_PREFIX: &'static str = "attimo_pat_";

/// Bytes in an application password: the prefix and forty more.
pub const APP_PASSWORD_LEN: usize = 51;

pub struct UserInfo {
    pub id: i64,
    pub name: String,
    pub email: String,
}

pub struct AuthData {
    pub token: String,
    pub user: UserInfo,
}

pub struct SportEvent {
    pub id: i64,
    pub name: String,
    pub event_date: Option<String>,
    pub sport_type: String,
    pub photo_count: i64,
    pub is_live: bool,
    pub checkpoints: Vec<Checkpoint>,
}

pub struct Checkpoint {
    pub id: i64,
    pub name: String,
    pub sort_order: i64,
}

/// The shape of an application password: its prefix, and its length in
/// bytes.
pub open spec fn bien_forme(token: Seq<char>) -> bool {
    &&& texte::debute_par(token, "attimo_pat_"@)
    &&& vstd::utf8::encode_utf8(token).len() == APP_PASSWORD_LEN
}

/// Does a text have the shape of an application password? The server alone
/// tells whether it is one.
pub fn is_well_formed_app_password(token: &str) -> (r: bool)
    ensures
        r == bien_forme(token@),
{
    if !texte::debute(&texte::caracteres(token), &texte::caracteres("attimo_pat_")) {
        return false;
    }
    token.as_bytes().len() == APP_PASSWORD_LEN
}

/// Why a password is refused without asking the server.
pub fn refus_local(app_password: &str) -> (r: Option<String>)
    ensures
        bien_forme(app_password@) ==> r is None,
        !bien_forme(app_password@) ==> (r matches Some(m) && m@
            == "Format de mot de passe invalide. Le token doit commencer par 'attimo_pat_'."@),
{
    if is_well_formed_app_password(app_password) {
        None
    } else {
        Some(
            "Format de mot de passe invalide. Le token doit commencer par 'attimo_pat_'.".to_owned(),
        )
    }
}

/// What is said of a validation that got no answer.
pub fn panne_validation(cause: PanneReseau) -> (r: String)
    ensures
        r@ == match cause {
            PanneReseau::Delai =>
                "Délai d'attente dépassé. Vérifiez votre connexion internet."@,
            PanneReseau::Connexion =>
                "Impossible de contacter le serveur Attimo. Vérifiez votre connexion internet."@,
            PanneReseau::Autre(e) => "Erreur réseau: "@ + e@,
        },
{
    match cause {
        PanneReseau::Delai =>
            "Délai d'attente dépassé. Vérifiez votre connexion internet.".to_owned(),
        PanneReseau::Connexion =>
            "Impossible de contacter le serveur Attimo. Vérifiez votre connexion internet.".to_owned(),
        PanneReseau::Autre(e) => texte::joindre("Erreur réseau: ", e.as_str()),
    }
}

/// What is said of an answer whose status is no success: an expired session
/// has its own words, given by the caller.
pub open spec fn statut_refuse(status: u16, expiree: Seq<char>) -> Option<Seq<char>> {
    if status == 401 {
        Some(expiree)
    } else if !(200 <= status < 300) {
        Some("Erreur serveur ("@ + texte::decimal(status as nat) + ")"@)
    } else {
        None
    }
}

fn refuser_statut(status: u16, expiree: &str) -> (r: Option<String>)
    ensures
        texte::vue(r) == statut_refuse(status, expiree@),
{
    if status == 401 {
        Some(expiree.to_owned())
    } else if !(200 <= status && status < 300) {
        Some(texte::joindre3("Erreur serveur (", texte::ecrire(status as u64).as_str(), ")"))
    } else {
        None
    }
}

/// What the status of a validation means: none when the body decides.
pub fn classer_validation(status: u16) -> (r: Option<String>)
    ensures
        texte::vue(r) == statut_refuse(
            status,
            "Mot de passe d'application invalide ou révoqué."@,
        ),
{
    refuser_statut(status, "Mot de passe d'application invalide ou révoqué.")
}

/// What the body of a validation means: the password and its owner, ready to
/// be kept.
pub fn conclure_validation(
    app_password: &str,
    success: bool,
    user: Option<UserInfo>,
    message: Option<String>,
) -> (r: Result<AuthData, String>)
    ensures
        !success ==> (r matches Err(m) && m@ == match message {
            Some(t) => t@,
            None => "Échec de validation."@,
        }),
        success && user is None ==> (r matches Err(m) && m@
            == "Données utilisateur manquantes dans la réponse."@),
        success && user is Some ==> (r matches Ok(a) && a.token@ == app_password@ && a.user
            == user->Some_0),
{
    if !success {
        return Err(
            match message {
                Some(m) => m,
                None => "Échec de validation.".to_owned(),
            },
        );
    }
    match user {
        Some(user) => Ok(AuthData { token: app_password.to_owned(), user }),
        None => Err("Données utilisateur manquantes dans la réponse.".to_owned()),
    }
}

/// What the status of a list of events or checkpoints means: none when the
/// body decides.
pub fn classer_liste(status: u16) -> (r: Option<String>)
    ensures
        texte::vue(r) == statut_refuse(status, "SESSION_EXPIRED"@),
{
    refuser_statut(status, "SESSION_EXPIRED")
}

/// What the body of a list means: its elements, none when it gives none.
pub fn conclure_liste<T>(success: bool, data: Option<Vec<T>>, message: Option<String>) -> (r: Result<
    Vec<T>,
    String,
>)
    ensures
        !success ==> (r matches Err(m) && m@ == match message {
            Some(t) => t@,
            None => "Erreur inconnue."@,
        }),
        success ==> (r matches Ok(v) && v@ == match data {
            Some(d) => d@,
            None => Seq::<T>::empty(),
        }),
{
    if !success {
        return Err(
            match message {
                Some(m) => m,
                None => "Erreur inconnue.".to_owned(),
            },
        );
    }
    match data {
        Some(d) => Ok(d),
        None => Ok(Vec::new()),
    }
}

proof fn lemme_octets_simples(s: Seq<char>)
    requires
        forall|i: int| 0 <= i < s.len() ==> (#[trigger] s[i]) as u32 <= 0x7F,
    ensures
        vstd::utf8::encode_utf8(s).len() == s.len(),
    decreases s.len(),
{
    if s.len() > 0 {
        lemme_octets_simples(s.drop_first());
        assert(s[0] as u32 <= 0x7F);
        assert(vstd::utf8::encode_scalar(s[0] as u32).len() == 1);
    }
}

/// An application password is its prefix and forty bytes more: of plain
/// characters exactly forty, neither fewer nor more. Nothing that starts
/// otherwise is one.
pub proof fn loi_mot_de_passe(debut: Seq<char>, suite: Seq<char>)
    requires
        debut.len() == 11,
        forall|i: int| 0 <= i < suite.len() ==> (#[trigger] suite[i]) as u32 <= 0x7F,
    ensures
        bien_forme("attimo_pat_"@ + suite) == (suite.len() == 40),
        debut != "attimo_pat_"@ ==> !bien_forme(debut + suite),
        APP_PASSWORD_PREFIX@ == "attimo_pat_"@,
{
    reveal_strlit("attimo_pat_");
    let p = "attimo_pat_"@;
    let t = p + suite;
    assert(p.len() == 11);
    assert forall|i: int| 0 <= i < t.len() implies (#[trigger] t[i]) as u32 <= 0x7F by {
        if i >= 11 {
            assert(t[i] == suite[i - 11]);
        }
    }
    lemme_octets_simples(t);
    texte::loi_bouts(p, suite, debut);
    texte::loi_bouts(debut, suite, p);
}

/// A password has fifty-one bytes, whatever its characters, and starts with
/// the prefix.
pub proof fn loi_taille_du_mot_de_passe(token: Seq<char>)
    requires
        bien_forme(token),
    ensures
        vstd::utf8::encode_utf8(token).len() == 51,
        token == "attimo_pat_"@ + token.skip(11),
{
    reveal_strlit("attimo_pat_");
    assert(token =~= "attimo_pat_"@ + token.skip(11));
}

/// The server's answer is accepted exactly when its status is one of the two
/// hundreds; a refused identity gives the words of the caller, and any other
/// status a message from which it reads back.
pub proof fn loi_statuts(status: u16, expiree: Seq<char>)
    ensures
        statut_refuse(status, expiree) is None <==> status / 100 == 2,
        status == 401 ==> statut_refuse(status, expiree) == Some(expiree),
        status / 100 != 2 && status != 401 ==> {
            let m = statut_refuse(status, expiree)->Some_0;
            &&& m.take(16) == "Erreur serveur ("@
            &&& m.last() == ')'
            &&& texte::numerique(m.subrange(16, m.len() - 1))
            &&& texte::valeur(m.subrange(16, m.len() - 1)) == status
        },
{
    reveal_strlit("Erreur serveur (");
    reveal_strlit(")");
    let d = texte::decimal(status as nat);
    let m = "Erreur serveur ("@ + d + ")"@;
    texte::lemme_decimal_relu(status as nat);
    assert(m.take(16) =~= "Erreur serveur ("@);
    assert(m.subrange(16, m.len() - 1) =~= d);
}

} // verus!
