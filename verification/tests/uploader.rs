use agent_terrain::database::StatutPhoto;
use agent_terrain::uploader::{
    attente_saturation, champs_photo, classer_statut, conclure_reponse, devenir, echec_lecture,
    echec_reseau, inscription, lire_retry_after, mesures, photo_ajoutee, photo_terminee, photos_en_cours,
    photos_en_pause, photos_prioritaires, reinitialiser_photos_en_cours, retenir_mesure,
    temps_reseau, tour_ouvrier, AvantEnvoi, CompteurPhotos, Connexion, Devenir, Echec, EnvoiPhoto,
    EnvoiReussi, LectureImpossible, Regulateur, SansReponse, Suite, Tour, UploadConfig,
    ATTENTE_MAX_SECS, SECONDE,
};

fn secs(n: u64) -> u64 {
    n * SECONDE
}

#[test]
fn le_parallelisme_est_borne_de_1_a_6() {
    assert_eq!(Regulateur::new(0).actif(), 1);
    assert_eq!(Regulateur::new(3).actif(), 3);
    assert_eq!(Regulateur::new(6).actif(), 6);
    assert_eq!(Regulateur::new(12).actif(), 6);
}

#[test]
fn une_saturation_divise_le_parallelisme_par_deux() {
    let mut r = Regulateur::new(6);
    let t0 = secs(1000);

    assert_eq!(r.saturation(secs(5), t0), 3);
    assert!(r.autorise(2));
    assert!(!r.autorise(3));

    // Never below 1: something must leave.
    r.saturation(secs(5), t0);
    assert_eq!(r.saturation(secs(5), t0), 1);
    assert!(r.autorise(0));
}

#[test]
fn les_envois_attendent_le_delai_demande() {
    let mut r = Regulateur::new(3);
    let t0 = secs(1000);

    r.saturation(secs(10), t0);

    assert!(r.attente_restante(t0 + secs(4)).is_some());
    assert!(r.attente_restante(t0 + secs(10)).is_none());
    assert_eq!(r.attente_restante(t0 + secs(4)), Some(secs(6) as u128));
}

#[test]
fn le_delai_le_plus_long_lemporte() {
    let mut r = Regulateur::new(3);
    let t0 = secs(1000);

    r.saturation(secs(30), t0);
    r.saturation(secs(5), t0);

    assert!(r.attente_restante(t0 + secs(20)).is_some());
}

#[test]
fn ni_un_succes_ni_un_reglage_ne_rapprochent_lecheance() {
    let mut r = Regulateur::new(6);

    assert!(r.attente_restante(0).is_none());
    r.saturation(secs(30), secs(100));
    r.succes(secs(131));
    r.regler(2);
    r.saturation(secs(5), secs(101));
    assert_eq!(r.attente_restante(secs(101)), Some(secs(29) as u128));
    assert!(r.attente_restante(secs(130)).is_none());

    // The instant asked for lies beyond the clock.
    r.saturation(u64::MAX, 7);
    assert_eq!(r.attente_restante(7), Some(u64::MAX as u128));
    assert_eq!(r.attente_restante(0), Some(u64::MAX as u128 + 7));
}

#[test]
fn le_parallelisme_remonte_apres_une_periode_calme() {
    let mut r = Regulateur::new(4);
    let t0 = secs(1000);

    r.saturation(secs(5), t0);
    assert_eq!(r.actif(), 2);

    // Too soon.
    r.succes(t0 + secs(10));
    assert_eq!(r.actif(), 2);

    // One step every 30 s.
    r.succes(t0 + secs(31));
    assert_eq!(r.actif(), 3);
    r.succes(t0 + secs(40));
    assert_eq!(r.actif(), 3);
    r.succes(t0 + secs(62));
    assert_eq!(r.actif(), 4);

    // Never beyond what was asked for.
    r.succes(t0 + secs(200));
    assert_eq!(r.actif(), 4);
}

#[test]
fn le_reglage_change_en_cours_de_session() {
    let mut r = Regulateur::new(3);

    r.regler(6);
    assert_eq!(r.actif(), 6);
    assert!(r.autorise(5));

    r.regler(1);
    assert_eq!(r.actif(), 1);
    assert!(!r.autorise(1));

    // Bounded as at the start.
    r.regler(20);
    assert_eq!(r.actif(), 6);
}

#[test]
fn lit_retry_after_en_secondes() {
    assert_eq!(lire_retry_after(Some("30")), Some(30));
    assert_eq!(lire_retry_after(Some(" 5 ")), Some(5));
    assert_eq!(lire_retry_after(Some("Wed, 21 Oct 2026 07:28:00 GMT")), None);
    assert_eq!(lire_retry_after(None), None);
}

#[test]
fn lit_les_nombres_comme_rust() {
    for texte in [
        "0", "+7", "+", "-1", "", " ", "18446744073709551615", "18446744073709551616", "1 2", "٣",
        "\u{a0}12\u{2003}", "007",
    ] {
        assert_eq!(lire_retry_after(Some(texte)), texte.trim().parse::<u64>().ok(), "{:?}", texte);
    }
}

#[test]
fn lattente_suit_le_serveur_sinon_double() {
    assert_eq!(attente_saturation(429, Some(12), 0), 12);
    assert_eq!(attente_saturation(429, None, 0), 5);
    assert_eq!(attente_saturation(429, None, 1), 10);
    assert_eq!(attente_saturation(503, None, 0), 10);

    // Capped: an absurd header does not freeze the agent.
    assert_eq!(attente_saturation(429, Some(86_400), 0), ATTENTE_MAX_SECS);
    assert_eq!(attente_saturation(429, None, 30), ATTENTE_MAX_SECS);
    assert_eq!(attente_saturation(429, Some(0), 0), 1);
    assert_eq!(attente_saturation(429, None, 5), 160);
    assert_eq!(attente_saturation(503, None, 4), 160);
}

fn lire_server_timing(valeur: &str) -> Option<f64> {
    let m = mesures(valeur);
    let valeurs: Vec<Option<f64>> = m
        .iter()
        .map(|m| m.durees.iter().filter_map(|d| d.parse::<f64>().ok()).next())
        .collect();
    let lues: Vec<bool> = valeurs.iter().map(|v| v.is_some()).collect();

    retenir_mesure(&m, &lues).and_then(|i| valeurs[i])
}

#[test]
fn lit_le_temps_serveur() {
    assert_eq!(lire_server_timing("app;dur=123.4"), Some(123.4));
    assert_eq!(lire_server_timing("db;dur=3, app;dur=250"), Some(250.0));
    assert_eq!(lire_server_timing("cache;desc=\"hit\", total;dur=\"42\""), Some(42.0));
    assert_eq!(lire_server_timing("miss"), None);
    assert_eq!(lire_server_timing(""), None);
}

#[test]
fn le_temps_serveur_prefere_lapplication() {
    assert_eq!(lire_server_timing("db;dur=3, cache;dur=4"), Some(3.0));
    assert_eq!(lire_server_timing("app;dur=x, db;dur=3"), Some(3.0));
    assert_eq!(lire_server_timing("app;dur=x;dur=9, db;dur=3"), Some(9.0));

    assert_eq!(temps_reseau(1200, Some(300)), Some(900));
    assert_eq!(temps_reseau(200, Some(300)), Some(0));
    assert_eq!(temps_reseau(200, None), None);
}

#[test]
fn le_compteur_de_photos_ne_passe_jamais_sous_zero() {
    let mut c = CompteurPhotos { en_cours: 3, en_pause: true };

    reinitialiser_photos_en_cours(&mut c);
    photo_terminee(&mut c);
    assert_eq!(photos_en_cours(&c), 0);

    photo_ajoutee(&mut c);
    photo_ajoutee(&mut c);
    photo_terminee(&mut c);
    assert_eq!(photos_en_cours(&c), 1);

    // Paused photos go nowhere: video yields nothing to them.
    assert!(photos_prioritaires(&c));
    photos_en_pause(&mut c, true);
    assert!(!photos_prioritaires(&c));
    photos_en_pause(&mut c, false);
    assert!(photos_prioritaires(&c));

    reinitialiser_photos_en_cours(&mut c);
    assert_eq!(photos_en_cours(&c), 0);
    assert!(!photos_prioritaires(&c));
}

#[test]
fn le_formulaire_porte_levenement() {
    let mut config = UploadConfig {
        token: "t".to_string(),
        event_id: -12,
        checkpoint_id: Some(7),
        parallel: 3,
    };
    let champs = champs_photo(&config);
    assert_eq!(champs[0], ("event_id".to_string(), "-12".to_string()));
    assert_eq!(champs[1], ("checkpoint_id".to_string(), "7".to_string()));

    config.checkpoint_id = None;
    assert_eq!(champs_photo(&config).len(), 1);
}

fn message(e: Echec) -> String {
    match e {
        Echec::Erreur(m) => m,
        Echec::SessionExpiree => "expiree".to_string(),
        Echec::Saturation { code, retry_after } => format!("{} {:?}", code, retry_after),
    }
}

#[test]
fn chaque_statut_a_son_sens() {
    assert!(classer_statut(200, None).is_none());
    assert!(classer_statut(299, None).is_none());
    assert_eq!(message(classer_statut(401, None).unwrap()), "expiree");
    assert_eq!(message(classer_statut(429, Some("12")).unwrap()), "429 Some(12)");
    assert_eq!(message(classer_statut(503, None).unwrap()), "503 None");
    assert_eq!(
        message(classer_statut(413, None).unwrap()),
        "Fichier trop volumineux pour le serveur"
    );
    assert_eq!(message(classer_statut(500, None).unwrap()), "Erreur serveur (500)");
    assert_eq!(message(classer_statut(302, None).unwrap()), "Erreur HTTP (302)");
    assert_eq!(message(classer_statut(404, None).unwrap()), "Erreur HTTP (404)");
}

#[test]
fn chaque_panne_a_son_message() {
    assert_eq!(
        message(echec_lecture(LectureImpossible::Introuvable, "a.jpg")),
        "Fichier introuvable: a.jpg"
    );
    assert_eq!(
        message(echec_lecture(LectureImpossible::AccesRefuse, "a.jpg")),
        "Accès refusé: a.jpg"
    );
    assert_eq!(
        message(echec_lecture(LectureImpossible::Autre("io".to_string()), "a.jpg")),
        "Erreur lecture fichier: io"
    );
    assert_eq!(message(echec_reseau(SansReponse::Delai)), "Timeout (60s dépassées)");
    assert_eq!(
        message(echec_reseau(SansReponse::Connexion)),
        "Impossible de contacter le serveur"
    );
    assert_eq!(message(echec_reseau(SansReponse::Requete)), "Erreur d'envoi de la requête");
    assert_eq!(
        message(echec_reseau(SansReponse::Autre("x".to_string()))),
        "Erreur réseau: x"
    );
}

#[test]
fn le_corps_de_la_reponse_decide() {
    let envoi = conclure_reponse(true, Some(9), None, 120, Some(20)).ok().unwrap();
    assert_eq!(envoi, EnvoiReussi { photo_id: Some(9), total_ms: 120, serveur_ms: Some(20) });

    assert_eq!(
        message(conclure_reponse(false, None, None, 1, None).err().unwrap()),
        "Erreur inconnue du serveur"
    );
    assert_eq!(
        message(conclure_reponse(false, None, Some("non".to_string()), 1, None).err().unwrap()),
        "non"
    );
}

#[test]
fn un_ouvrier_en_trop_patiente() {
    let mut r = Regulateur::new(2);
    assert_eq!(tour_ouvrier(true, false, &r, 1), Tour::Prendre);
    assert_eq!(tour_ouvrier(true, false, &r, 2), Tour::Patienter);
    assert_eq!(tour_ouvrier(true, true, &r, 0), Tour::Patienter);
    assert_eq!(tour_ouvrier(false, true, &r, 0), Tour::Arreter);

    r.saturation(secs(5), 0);
    assert_eq!(tour_ouvrier(true, false, &r, 1), Tour::Patienter);
}

#[test]
fn un_429_ne_compte_jamais_comme_une_tentative() {
    let mut r = Regulateur::new(6);
    let mut envoi = EnvoiPhoto::new();

    for i in 0..20u64 {
        let echec = Echec::Saturation { code: 429, retry_after: Some(2) };
        match envoi.apres(Err(echec), &mut r, secs(100 * i)) {
            Suite::Ralentie { code, attente, parallele } => {
                assert_eq!((code, attente), (429, 2));
                assert!(parallele >= 1);
            }
            _ => panic!("a 429 must only slow down"),
        }
    }

    assert_eq!(envoi.tentatives, 0);
    assert_eq!(envoi.saturations, 20);
}

#[test]
fn un_503_repete_trois_fois_est_un_echec() {
    let mut r = Regulateur::new(6);
    let mut envoi = EnvoiPhoto::new();

    for attendue in [10, 20] {
        let echec = Echec::Saturation { code: 503, retry_after: None };
        match envoi.apres(Err(echec), &mut r, 0) {
            Suite::Ralentie { attente, .. } => assert_eq!(attente, attendue),
            _ => panic!("not yet a failure"),
        }
    }

    let echec = Echec::Saturation { code: 503, retry_after: None };
    match envoi.apres(Err(echec), &mut r, 0) {
        Suite::Indisponible { message, attente, parallele, .. } => {
            assert_eq!(message, "Serveur indisponible (503)");
            assert_eq!(attente, 40);
            assert_eq!(parallele, 1);
        }
        _ => panic!("the third 503 is a failure"),
    }
}

#[test]
fn trois_erreurs_abandonnent_la_photo() {
    let mut r = Regulateur::new(3);
    let mut envoi = EnvoiPhoto::new();

    for attendu in [5, 15] {
        match envoi.apres(Err(Echec::Erreur("panne".to_string())), &mut r, 0) {
            Suite::AReessayer { delai, .. } => assert_eq!(delai, attendu),
            _ => panic!("it should be tried again"),
        }
    }

    match envoi.apres(Err(Echec::Erreur("panne".to_string())), &mut r, 0) {
        Suite::Abandonnee { message } => assert_eq!(message, "panne"),
        _ => panic!("the third error is a failure"),
    }
    assert_eq!(r.actif(), 3);
}

#[test]
fn un_succes_donne_le_temps_du_reseau() {
    let mut r = Regulateur::new(3);
    let mut envoi = EnvoiPhoto::new();
    let reussi = EnvoiReussi { photo_id: Some(4), total_ms: 1200, serveur_ms: Some(300) };

    match envoi.apres(Ok(reussi), &mut r, 0) {
        Suite::Envoyee { photo_id, total_ms, reseau_ms, .. } => {
            assert_eq!(photo_id, Some(4));
            assert_eq!(total_ms, 1200);
            assert_eq!(reseau_ms, Some(900));
        }
        _ => panic!("the photo was received"),
    }

    match envoi.apres(Err(Echec::SessionExpiree), &mut r, 0) {
        Suite::Expiree => {}
        _ => panic!("the session has expired"),
    }
}

#[test]
fn larret_rend_la_photo() {
    let mut r = Regulateur::new(3);
    let envoi = EnvoiPhoto::new();

    match envoi.avant(true, &r, 0) {
        AvantEnvoi::Envoyer(n) => assert_eq!(n, 1),
        _ => panic!("nothing holds it back"),
    }

    r.saturation(secs(2), 0);
    match envoi.avant(true, &r, 0) {
        AvantEnvoi::Patienter(n) => assert_eq!(n, 500_000_000),
        _ => panic!("it must wait"),
    }
    match envoi.avant(true, &r, secs(2) - 7) {
        AvantEnvoi::Patienter(n) => assert_eq!(n, 7),
        _ => panic!("it must wait"),
    }
    match envoi.avant(false, &r, 0) {
        AvantEnvoi::Rendre(m) => assert_eq!(m, "Arrêt pendant l'attente"),
        _ => panic!("the session is over"),
    }

    assert_eq!(EnvoiPhoto::apres_delai(true), None);
    assert_eq!(EnvoiPhoto::apres_delai(false), Some("Arrêt pendant le retry".to_string()));
}

#[test]
fn la_connexion_ne_notifie_que_les_changements() {
    let mut c = Connexion::new();

    assert_eq!(c.controler(true), None);
    assert_eq!(c.controler(false), Some(false));
    assert_eq!(c.controler(false), None);
    assert_eq!(c.controler(true), Some(true));
}

#[test]
fn la_fin_dune_photo_est_inscrite() {
    let envoyee = Suite::Envoyee {
        photo_id: Some(4),
        total_ms: 1,
        serveur_ms: None,
        reseau_ms: None,
    };
    let i = inscription(&envoyee).unwrap();
    assert_eq!((i.statut, i.erreur, i.photo_id), (StatutPhoto::Success, None, Some(4)));
    assert_eq!(devenir(&envoyee), Devenir::Suivante);

    let i = inscription(&Suite::Expiree).unwrap();
    assert_eq!(i.statut, StatutPhoto::Failed);
    assert_eq!(i.erreur, Some("SESSION_EXPIRED".to_string()));
    assert_eq!(devenir(&Suite::Expiree), Devenir::Partir);

    let abandonnee = Suite::Abandonnee { message: "panne".to_string() };
    assert_eq!(inscription(&abandonnee).unwrap().erreur, Some("panne".to_string()));
    assert_eq!(devenir(&abandonnee), Devenir::Suivante);

    let indisponible = Suite::Indisponible {
        code: 503,
        attente: 40,
        parallele: 1,
        message: "Serveur indisponible (503)".to_string(),
    };
    assert_eq!(
        inscription(&indisponible).unwrap().erreur,
        Some("Serveur indisponible (503)".to_string())
    );
    assert_eq!(devenir(&indisponible), Devenir::Suivante);

    let ralentie = Suite::Ralentie { code: 429, attente: 5, parallele: 1 };
    assert!(inscription(&ralentie).is_none());
    assert_eq!(devenir(&ralentie), Devenir::Garder);
    let a_reessayer = Suite::AReessayer { tentatives: 1, delai: 5 };
    assert!(inscription(&a_reessayer).is_none());
    assert_eq!(devenir(&a_reessayer), Devenir::Garder);
}
