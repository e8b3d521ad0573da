use agent_terrain::auth::{
    classer_liste, classer_validation, conclure_liste, conclure_validation,
    is_well_formed_app_password, panne_validation, refus_local, UserInfo, APP_PASSWORD_LEN,
    APP_PASSWORD_PREFIX,
};
use agent_terrain::video_uploader::PanneReseau;

fn utilisateur() -> UserInfo {
    UserInfo { id: 5, name: "N".to_string(), email: "e".to_string() }
}

#[test]
fn un_mot_de_passe_a_un_prefixe_et_une_longueur() {
    let bon = format!("{}{}", APP_PASSWORD_PREFIX, "x".repeat(40));
    assert_eq!(bon.len(), APP_PASSWORD_LEN);
    assert!(is_well_formed_app_password(&bon));
    assert!(refus_local(&bon).is_none());

    assert!(!is_well_formed_app_password(&bon[..50]));
    assert!(!is_well_formed_app_password(&"y".repeat(51)));
    // The length is counted in bytes.
    let accents = format!("{}{}", APP_PASSWORD_PREFIX, "é".repeat(20));
    assert!(is_well_formed_app_password(&accents));

    assert_eq!(
        refus_local("court").unwrap(),
        "Format de mot de passe invalide. Le token doit commencer par 'attimo_pat_'."
    );
}

#[test]
fn chaque_panne_de_validation_a_son_message() {
    assert_eq!(
        panne_validation(PanneReseau::Delai),
        "Délai d'attente dépassé. Vérifiez votre connexion internet."
    );
    assert_eq!(
        panne_validation(PanneReseau::Connexion),
        "Impossible de contacter le serveur Attimo. Vérifiez votre connexion internet."
    );
    assert_eq!(panne_validation(PanneReseau::Autre("x".to_string())), "Erreur réseau: x");
}

#[test]
fn chaque_statut_de_validation_a_son_message() {
    assert_eq!(classer_validation(200), None);
    assert_eq!(
        classer_validation(401).unwrap(),
        "Mot de passe d'application invalide ou révoqué."
    );
    assert_eq!(classer_validation(503).unwrap(), "Erreur serveur (503)");
    assert_eq!(classer_liste(401).unwrap(), "SESSION_EXPIRED");
    assert_eq!(classer_liste(199).unwrap(), "Erreur serveur (199)");
    assert_eq!(classer_liste(299), None);
}

#[test]
fn la_validation_rend_le_mot_de_passe_et_son_porteur() {
    let a = conclure_validation("t", true, Some(utilisateur()), None).ok().unwrap();
    assert_eq!((a.token.as_str(), a.user.id), ("t", 5));

    assert_eq!(
        conclure_validation("t", true, None, None).err().unwrap(),
        "Données utilisateur manquantes dans la réponse."
    );
    assert_eq!(
        conclure_validation("t", false, Some(utilisateur()), None).err().unwrap(),
        "Échec de validation."
    );
    assert_eq!(
        conclure_validation("t", false, None, Some("non".to_string())).err().unwrap(),
        "non"
    );
}

#[test]
fn une_liste_absente_est_vide() {
    assert_eq!(conclure_liste(true, Some(vec![1, 2]), None), Ok(vec![1, 2]));
    assert_eq!(conclure_liste::<i64>(true, None, None), Ok(vec![]));
    assert_eq!(
        conclure_liste::<i64>(false, Some(vec![1]), None),
        Err("Erreur inconnue.".to_string())
    );
    assert_eq!(conclure_liste::<i64>(false, None, Some("non".to_string())), Err("non".to_string()));
}
