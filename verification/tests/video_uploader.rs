use agent_terrain::video_uploader::{
    adresse, attente_si_sature, champ_image, champs_finalisation, champs_lot, champs_morceau,
    classer_reponse, conclure_clip, conclure_lot, doit_ceder, identifiant_envoi, image_complete, images_recues,
    message_erreur, nom_envoye, nom_image, nombre_morceaux, ClipInfo, ClipVariant, EnvoiClip,
    EnvoiImages, ErreurVideo, FrameToUpload, FrameTotals, PanneReseau, Valeur,
    VideoUploadConfig, CHUNK_SIZE, FRAMES_PAR_LOT,
};
use serde_json::Value;

#[test]
fn les_variantes_ont_les_bons_libelles() {
    assert_eq!(ClipVariant::Proxy.as_str(), "proxy");
    assert_eq!(ClipVariant::Hd.as_str(), "hd");
}

#[test]
fn les_variantes_se_relisent() {
    assert!(matches!(ClipVariant::lire("proxy"), Ok(ClipVariant::Proxy)));
    assert!(matches!(ClipVariant::lire("hd"), Ok(ClipVariant::Hd)));
    assert_eq!(ClipVariant::lire("HD").err().unwrap(), "Variante inconnue : HD");
}

#[test]
fn le_decoupage_en_morceaux_couvre_tout_le_fichier() {
    // A file of 12 MB takes 3 pieces of 5 MB.
    let taille: usize = 12 * 1024 * 1024;
    let morceaux = taille.div_ceil(CHUNK_SIZE);

    assert_eq!(morceaux, 3);
    assert_eq!(nombre_morceaux(taille), 3);

    let mut envoi = EnvoiClip::new(taille).ok().unwrap();
    let mut attendu = 0;
    while let Some(m) = envoi.prochain() {
        assert_eq!(m.debut, attendu);
        assert!(m.fin - m.debut <= CHUNK_SIZE);
        attendu = m.fin;
        assert!(envoi.confirmer(true, None).is_ok());
    }
    assert_eq!(attendu, taille);
    assert_eq!(envoi.recus, 3);
}

#[test]
fn un_fichier_plus_petit_quun_morceau_tient_en_un_seul() {
    let taille: usize = 2 * 1024 * 1024;
    let morceaux = taille.div_ceil(CHUNK_SIZE);

    assert_eq!(morceaux, 1);
    assert_eq!(nombre_morceaux(taille), 1);
    assert_eq!(nombre_morceaux(CHUNK_SIZE), 1);
    assert_eq!(nombre_morceaux(CHUNK_SIZE + 1), 2);
}

#[test]
fn les_images_partent_par_lots_de_dix() {
    let images: Vec<FrameToUpload> = (0..25)
        .map(|i| FrameToUpload {
            path: format!("img_{}.jpg", i),
            instant_at: "2026-08-13T20:00:00.000Z".to_string(),
        })
        .collect();

    let lots: Vec<_> = images.chunks(FRAMES_PAR_LOT).collect();

    assert_eq!(lots.len(), 3);
    assert_eq!(lots[0].len(), 10);
    assert_eq!(lots[2].len(), 5);

    let mut envoi = EnvoiImages::new(images.len());
    let mut tailles = Vec::new();
    while let Some((debut, fin)) = envoi.prochain() {
        tailles.push(fin - debut);
        let totaux = FrameTotals { bibs: 1, faces: 2, kept: 3, discarded: 4 };
        assert!(envoi.confirmer(true, Some(totaux), None).is_ok());
    }
    assert_eq!(tailles, vec![10, 10, 5]);
    assert_eq!(envoi.cumul, FrameTotals { bibs: 3, faces: 6, kept: 9, discarded: 12 });
}

#[test]
fn lidentifiant_denvoi_distingue_les_variantes() {
    let session = "test_123";

    let proxy = identifiant_envoi(session, ClipVariant::Proxy, 1);
    let hd = identifiant_envoi(session, ClipVariant::Hd, 1);

    assert_ne!(proxy, hd);
    assert_eq!(proxy, "test_123_proxy_1");
    assert_eq!(hd, "test_123_hd_1");
    assert_ne!(hd, identifiant_envoi(session, ClipVariant::Hd, 11));
}

fn dit(e: Option<ErreurVideo>) -> Option<String> {
    e.map(|e| e.texte())
}

#[test]
fn chaque_reponse_a_son_sens() {
    assert_eq!(dit(classer_reponse(200, None, true)), None);
    assert_eq!(dit(classer_reponse(500, None, true)), None);
    assert_eq!(dit(classer_reponse(401, None, false)), Some("SESSION_EXPIRED".to_string()));
    assert_eq!(dit(classer_reponse(422, None, true)), Some("ANALYSE_DESACTIVEE".to_string()));
    assert_eq!(dit(classer_reponse(422, None, false)), None);
    assert_eq!(
        dit(classer_reponse(429, Some("7"), false)),
        Some("Serveur saturé : pause de 7 s".to_string())
    );
    assert_eq!(
        classer_reponse(503, None, false).and_then(|e| attente_si_sature(&e)),
        Some(10)
    );
    assert_eq!(attente_si_sature(&ErreurVideo::SessionExpiree), None);
}

#[test]
fn chaque_coupure_a_son_message() {
    assert_eq!(
        message_erreur(PanneReseau::Delai).texte(),
        "Délai dépassé — réseau trop lent ou saturé."
    );
    assert_eq!(
        message_erreur(PanneReseau::Connexion).texte(),
        "Serveur injoignable — vérifier la connexion."
    );
    assert_eq!(
        message_erreur(PanneReseau::Autre("x".to_string())).texte(),
        "Erreur réseau : x"
    );
}

#[test]
fn la_video_cede_aux_photos_mais_pas_toujours() {
    assert!(doit_ceder(true, 0));
    assert!(doit_ceder(true, 19_999));
    assert!(!doit_ceder(true, 20_000));
    assert!(!doit_ceder(false, 0));
}

#[test]
fn un_clip_vide_est_refuse() {
    assert_eq!(EnvoiClip::new(0).err().unwrap().texte(), "Le clip est vide.");
    assert_eq!(nombre_morceaux(0), 0);
}

#[test]
fn un_morceau_refuse_reste_a_envoyer() {
    let mut envoi = EnvoiClip::new(10).ok().unwrap();

    assert_eq!(
        envoi.confirmer(false, None).err().unwrap().texte(),
        "Le serveur a refusé le morceau."
    );
    assert_eq!(envoi.recus, 0);
    assert_eq!(envoi.confirmer(false, Some("non".to_string())).err().unwrap().texte(), "non");

    let champs = champs_morceau("u", 1, 3, "c.mp4");
    assert_eq!(champs[1], ("chunk_index".to_string(), "1".to_string()));
    assert_eq!(champs[2], ("total_chunks".to_string(), "3".to_string()));
    assert_eq!(champs[3], ("filename".to_string(), "c.mp4".to_string()));
    assert_eq!(nom_envoye(None), "clip.mp4");
    assert_eq!(nom_envoye(Some("c.mp4".to_string())), "c.mp4");
}

#[test]
fn la_finalisation_dit_de_quel_clip_il_sagit() {
    let mut config = VideoUploadConfig {
        token: "t".to_string(),
        event_id: 7,
        checkpoint_id: None,
        session_id: "s".to_string(),
    };
    let ecrire = |config: &VideoUploadConfig| -> Vec<String> {
        champs_finalisation(config, "s_hd_3", ClipVariant::Hd, 3, "d", "f")
            .into_iter()
            .map(|(cle, valeur)| match valeur {
                Valeur::Texte(t) => format!("{}='{}'", cle, t),
                Valeur::Nombre(n) => format!("{}={}", cle, n),
            })
            .collect()
    };
    let mut attendu = vec![
        "upload_id='s_hd_3'",
        "variant='hd'",
        "session_id='s'",
        "clip_index=3",
        "started_at='d'",
        "ended_at='f'",
    ];
    assert_eq!(ecrire(&config), attendu);

    config.checkpoint_id = Some(412);
    attendu.push("checkpoint_id=412");
    assert_eq!(ecrire(&config), attendu);
}

#[test]
fn la_fiche_du_clip_est_exigee() {
    let fiche = ClipInfo {
        video_id: 4,
        index: 1,
        has_proxy: true,
        has_hd: false,
        status: "ok".to_string(),
    };
    assert_eq!(conclure_clip(true, Some(fiche), None).ok().unwrap().video_id, 4);
    assert_eq!(
        conclure_clip(true, None, None).err().unwrap().texte(),
        "Le serveur n'a pas renvoyé les informations du clip."
    );
    assert_eq!(
        conclure_clip(false, None, None).err().unwrap().texte(),
        "Le serveur a refusé le clip."
    );
}

#[test]
fn le_formulaire_date_chaque_image() {
    let config = VideoUploadConfig {
        token: "t".to_string(),
        event_id: 12,
        checkpoint_id: Some(5),
        session_id: "s".to_string(),
    };
    let lot = vec![
        FrameToUpload { path: "a".to_string(), instant_at: "i0".to_string() },
        FrameToUpload { path: "b".to_string(), instant_at: "i1".to_string() },
    ];
    let champs = champs_lot(&config, &lot);

    assert_eq!(champs.len(), 4);
    assert_eq!(champs[0], ("session_id".to_string(), "s".to_string()));
    assert_eq!(champs[1], ("checkpoint_id".to_string(), "5".to_string()));
    assert_eq!(champs[3], ("frames[1][instant_at]".to_string(), "i1".to_string()));
    assert_eq!(champ_image(3), "frames[3][image]");
    assert_eq!(nom_image(None, 3), "img_3.jpg");
    assert_eq!(nom_image(Some("z.jpg".to_string()), 3), "z.jpg");
    assert_eq!(
        adresse("https://x", -4, "/frames"),
        "https://x/api/sport/events/-4/frames"
    );
}

#[test]
fn seules_les_images_refusees_echouent() {
    let lot = conclure_lot(true, None, &vec![true, false, true, false], None).ok().unwrap();
    assert_eq!(lot.echecs, vec![1, 3]);
    assert_eq!(lot.totaux, FrameTotals { bibs: 0, faces: 0, kept: 0, discarded: 0 });

    assert_eq!(
        conclure_lot(false, None, &vec![], None).err().unwrap().texte(),
        "Le serveur a refusé les images."
    );

    let mut envoi = EnvoiImages::new(3);
    assert_eq!(
        envoi.confirmer(false, None, None).err().unwrap().texte(),
        "Le serveur a refusé les images."
    );
    assert_eq!(envoi.recues, 0);
}

fn objet(membres: &[(&str, Value)]) -> Value {
    let mut carte = serde_json::Map::new();
    for (cle, valeur) in membres {
        carte.insert(cle.to_string(), valeur.clone());
    }
    Value::Object(carte)
}

#[test]
fn les_images_incompletes_sont_ignorees() {
    let texte = |t: &str| Value::String(t.to_string());
    let valeurs = vec![
        objet(&[("path", texte("a.jpg")), ("instant_at", texte("i"))]),
        objet(&[("path", texte("b.jpg"))]),
        objet(&[("path", Value::Bool(true)), ("instant_at", texte("i"))]),
        texte("path"),
        Value::Null,
        objet(&[("instant_at", texte("j")), ("autre", Value::Null), ("path", texte("c.jpg"))]),
    ];

    let images = images_recues(&valeurs);

    assert_eq!(images.len(), 2);
    assert_eq!((images[0].path.as_str(), images[0].instant_at.as_str()), ("a.jpg", "i"));
    assert_eq!((images[1].path.as_str(), images[1].instant_at.as_str()), ("c.jpg", "j"));

    assert!(image_complete(None, Some("i".to_string())).is_none());
    assert!(image_complete(Some("p".to_string()), None).is_none());
}
