use agent_terrain::assembler::{AssembledClip, ClipTracker};
use agent_terrain::auth::{AuthData, UserInfo};
use agent_terrain::chrono_simple::Instant;
use agent_terrain::commands::{
    commencer_tour, conclure_clip, conclure_echec, conclure_images, connecter, demander_arret,
    demarrer_session, dossier_refuse, echec_recoupement, edition_affichee, nature_demandee,
    parallele_demande, pauser_session, prendre, recouper, regler_parallele, reponse_demarrage,
    terminer_session, travaux_a_reprendre, Envoi, EnvoisVideo, EtapeArret, FinDeCaptation,
    Rattrapage, ReponseFile, Tour,
};
use agent_terrain::database::UploadFile;
use agent_terrain::frames::ExtractedFrame;
use agent_terrain::manifest::{AttimoInfo, ManifestWriter};
use agent_terrain::recorder::{RecordingConfig, RecordingHandle, SegmentPlan};
use agent_terrain::uploader::{photo_ajoutee, photos_en_cours, CompteurPhotos, Regulateur};
use agent_terrain::video_queue::{
    enfiler, init_schema, prochains, statistiques, QueueKind, StatutVideo, VideoQueue,
};
use agent_terrain::video_uploader::{
    ClipInfo, ClipStatus, ClipVariant, ErreurVideo, FrameTotals, LotImages,
};

const EVT: i64 = 7;

fn ajouter(file: &mut VideoQueue, session: &str, kind: QueueKind, chemin: &str) -> i64 {
    enfiler(
        file, session, EVT, kind, chemin, Some(1), Some("debut"), Some("fin"), Some("instant"), 10,
        "@1",
    )
}

fn zero() -> FrameTotals {
    FrameTotals { bibs: 0, faces: 0, kept: 0, discarded: 0 }
}

#[test]
fn la_connexion_rend_le_porteur() {
    let user = UserInfo { id: 1, name: "N".to_string(), email: "e".to_string() };
    let r = connecter(AuthData { token: "t".to_string(), user });
    assert_eq!((r.token.as_str(), r.user.id), ("t", 1));

    assert_eq!(edition_affichee(Some(" Dev ")), Some("Dev".to_string()));
    assert_eq!(edition_affichee(Some("  ")), None);
    assert_eq!(edition_affichee(None), None);
}

#[test]
fn une_session_remplace_la_precedente() {
    let mut session = None;
    let mut photos = CompteurPhotos { en_cours: 3, en_pause: true };

    assert_eq!(demarrer_session(&mut session, &mut photos, 1), None);
    assert_eq!(photos_en_cours(&photos), 0);
    assert!(!photos.en_pause);
    assert_eq!(demarrer_session(&mut session, &mut photos, 2), Some(1));
    assert_eq!(session.unwrap().session_id, 2);

    let r = reponse_demarrage(2, "Trail");
    assert_eq!((r.session_id, r.message.as_str()), (2, "Surveillance démarrée pour 'Trail'"));
    assert_eq!(dossier_refuse("X:", false).unwrap(), "Le dossier n'existe pas : X:");
    assert_eq!(dossier_refuse("X:", true), None);
}

#[test]
fn une_session_se_pause_et_se_termine() {
    let mut session = None;
    let mut photos = CompteurPhotos { en_cours: 0, en_pause: false };
    let mut regulateur = Regulateur::new(3);

    assert_eq!(
        pauser_session(&mut session, &mut photos, true),
        Err("Aucune session active.".to_string())
    );
    assert!(regler_parallele(&session, &mut regulateur, 5).is_err());
    assert_eq!(regulateur.actif(), 3);
    assert!(terminer_session(&mut session, &mut photos).is_err());

    demarrer_session(&mut session, &mut photos, 4);
    photo_ajoutee(&mut photos);
    assert!(pauser_session(&mut session, &mut photos, true).is_ok());
    assert!(session.unwrap().paused && photos.en_pause);
    assert_eq!(regler_parallele(&session, &mut regulateur, 50), Ok(6));
    assert_eq!(regulateur.actif(), 6);

    assert_eq!(terminer_session(&mut session, &mut photos), Ok(4));
    assert!(session.is_none());
    assert_eq!((photos.en_cours, photos.en_pause), (0, false));

    assert_eq!(parallele_demande(-3), 1);
    assert_eq!(parallele_demande(4), 4);
    assert_eq!(parallele_demande(9), 6);
}

#[test]
fn les_photos_echouees_repartent() {
    let fichier = UploadFile {
        id: 8,
        session_id: 2,
        filename: "a.jpg".to_string(),
        file_path: "C:\\a.jpg".to_string(),
        file_size: 70_000,
        status: "failed".to_string(),
        attempts: 3,
        last_error: None,
        uploaded_at: None,
        server_photo_id: None,
    };
    let t = travaux_a_reprendre(&vec![fichier]);
    assert_eq!(t.len(), 1);
    assert_eq!((t[0].db_file_id, t[0].session_id, t[0].file_size), (8, 2, 70_000));
    assert_eq!(t[0].file_path, "C:\\a.jpg");
}

#[test]
fn la_nature_demandee_doit_etre_connue() {
    assert_eq!(nature_demandee("frames"), Ok(QueueKind::Frames));
    assert_eq!(nature_demandee("clip_proxy"), Ok(QueueKind::ClipProxy));
    assert_eq!(nature_demandee("clip_hd"), Ok(QueueKind::ClipHd));
    assert_eq!(nature_demandee("photo"), Err("Nature inconnue : photo".to_string()));
}

#[test]
fn une_session_est_recoupee_une_fois() {
    let mut file = init_schema();
    let mut recoupees = Vec::new();

    assert!(matches!(commencer_tour(&file, EVT, true, &recoupees), Tour::Vide));
    ajouter(&mut file, "s1", QueueKind::ClipHd, "h.mp4");
    ajouter(&mut file, "s1", QueueKind::ClipProxy, "p.mp4");

    match commencer_tour(&file, EVT, true, &recoupees) {
        Tour::Recouper(s) => assert_eq!(s, "s1"),
        _ => panic!("the session was never checked"),
    }

    let clips = vec![ClipStatus {
        index: 1,
        has_proxy: true,
        has_hd: false,
        status: "ok".to_string(),
    }];
    match recouper(&mut file, &mut recoupees, "s1", &clips, "@2") {
        Some(ReponseFile::Recoupee { skipped, bytes_saved }) => {
            assert_eq!((skipped, bytes_saved), (1, 10));
        }
        _ => panic!("the server has the light version"),
    }
    assert!(matches!(commencer_tour(&file, EVT, true, &recoupees), Tour::Prendre));
    assert!(recouper(&mut file, &mut recoupees, "s1", &clips, "@3").is_none());
}

#[test]
fn un_recoupement_manque_est_une_erreur_ou_une_attente() {
    match echec_recoupement(ErreurVideo::Saturation { attente: 9 }) {
        Ok(ReponseFile::Sature { attente }) => assert_eq!(attente, 9),
        _ => panic!("a saturation is an answer"),
    }
    assert_eq!(
        echec_recoupement(ErreurVideo::Autre("x".to_string())).err().unwrap().texte(),
        "x"
    );
}

#[test]
fn un_lot_dimages_se_conclut_image_par_image() {
    let mut file = init_schema();
    for nom in ["a.jpg", "b.jpg", "c.jpg"] {
        ajouter(&mut file, "s1", QueueKind::Frames, nom);
    }

    let (elements, images) = match prendre(&mut file, EVT, true) {
        Some(Envoi::Images { elements, images }) => (elements, images),
        _ => panic!("frames come first"),
    };
    assert_eq!(images.len(), 3);
    assert_eq!(images[1].path, "b.jpg");
    assert_eq!(images[1].instant_at, "instant");
    assert!(prendre(&mut file, EVT, true).is_none());

    let lot = LotImages { totaux: zero(), echecs: vec![1] };
    match conclure_images(&mut file, &elements, Ok(lot), "@2") {
        Ok(ReponseFile::Images { envoyees, echecs, abandonnes, .. }) => {
            assert_eq!((envoyees, echecs, abandonnes), (2, 1, 0));
        }
        _ => panic!("the batch was answered"),
    }
    let reste = prochains(&file, EVT, true, 10);
    assert_eq!(reste.len(), 1);
    assert_eq!(reste[0].file_path, "b.jpg");
    assert_eq!(reste[0].last_error, Some("Analyse refusée".to_string()));
    assert_eq!(statistiques(&file, EVT).frames_sent, 2);
    assert!(file.lignes.iter().all(|l| l.status != StatutVideo::Sending));
}

#[test]
fn un_clip_se_conclut() {
    let mut file = init_schema();
    let id = ajouter(&mut file, "s1", QueueKind::ClipHd, "h.mp4");

    let (element, variante) = match prendre(&mut file, EVT, true) {
        Some(Envoi::Clip { element, variante, index, debut, fin }) => {
            assert_eq!((index, debut.as_str(), fin.as_str()), (1, "debut", "fin"));
            (element, variante)
        }
        _ => panic!("a clip waits"),
    };
    assert_eq!(variante, ClipVariant::Hd);

    let fiche = ClipInfo {
        video_id: 3,
        index: 1,
        has_proxy: false,
        has_hd: true,
        status: "ok".to_string(),
    };
    match conclure_clip(&mut file, element, variante, Ok(fiche), "@2") {
        Ok(ReponseFile::Clip { id: i, fichier, variante, clip }) => {
            assert_eq!((i, fichier.as_str(), clip.video_id), (id, "h.mp4", 3));
            assert_eq!(variante, ClipVariant::Hd);
        }
        _ => panic!("the clip was received"),
    }
    assert_eq!(file.lignes[0].status, StatutVideo::Sent);
}

#[test]
fn une_saturation_ne_coute_aucune_tentative() {
    let mut file = init_schema();
    ajouter(&mut file, "s1", QueueKind::ClipHd, "h.mp4");

    for _ in 0..5 {
        let elements = match prendre(&mut file, EVT, true) {
            Some(Envoi::Clip { element, .. }) => vec![element],
            _ => panic!("a clip waits"),
        };
        match conclure_echec(&mut file, &elements, ErreurVideo::Saturation { attente: 5 }) {
            Ok(ReponseFile::Sature { attente }) => assert_eq!(attente, 5),
            _ => panic!("the server is saturated"),
        }
    }
    assert_eq!(prochains(&file, EVT, true, 10)[0].attempts, 0);

    let elements = match prendre(&mut file, EVT, true) {
        Some(Envoi::Clip { element, .. }) => vec![element],
        _ => panic!("a clip waits"),
    };
    assert!(conclure_echec(&mut file, &elements, ErreurVideo::SessionExpiree).is_err());
    assert_eq!(prochains(&file, EVT, true, 10)[0].attempts, 0);
}

#[test]
fn trois_erreurs_abandonnent_un_envoi() {
    let mut file = init_schema();
    let id = ajouter(&mut file, "s1", QueueKind::ClipProxy, "p.mp4");

    for essai in 1..=3 {
        let (element, variante) = match prendre(&mut file, EVT, false) {
            Some(Envoi::Clip { element, variante, .. }) => (element, variante),
            _ => panic!("a clip waits"),
        };
        assert_eq!(variante, ClipVariant::Proxy);
        let panne = Err(ErreurVideo::Autre("panne".to_string()));
        match conclure_clip(&mut file, element, variante, panne, "@2") {
            Ok(ReponseFile::Echec { premier, chemin, erreur, abandonne }) => {
                assert_eq!(premier, Some(id));
                assert_eq!(chemin, Some("p.mp4".to_string()));
                assert_eq!(erreur, "panne");
                assert_eq!(abandonne, essai == 3);
            }
            _ => panic!("the upload failed"),
        }
    }
    assert!(prendre(&mut file, EVT, false).is_none());
    assert_eq!(statistiques(&file, EVT).failed, 1);
}

#[test]
fn un_seul_arret_a_la_fois() {
    let plan = SegmentPlan {
        segment_secs: 30,
        segments_per_clip: 5,
        segments_step: 4,
        step_secs: 120,
    };
    let mut captation = None;
    assert_eq!(demander_arret(&mut captation), Err("Aucune captation en cours.".to_string()));

    captation = Some(RecordingHandle::new("s", plan, "C:", Instant::depuis_millis(0)));
    assert_eq!(demander_arret(&mut captation), Ok(()));
    assert_eq!(demander_arret(&mut captation), Err("ARRET_EN_COURS".to_string()));
}

#[test]
fn le_dernier_morceau_est_sauve_sil_se_lit() {
    let mut fin = FinDeCaptation::new("s", Some(4));
    assert_eq!(fin.constater(true), Some(4));
    assert!(fin.morceau_final_exploitable);
    assert!(fin.avertissement.is_none());

    let mut fin = FinDeCaptation::new("s", Some(4));
    assert_eq!(fin.constater(false), None);
    assert!(!fin.morceau_final_exploitable);
    assert_eq!(
        fin.avertissement.unwrap(),
        "Le morceau 4 n'a pas pu être refermé : les dernières secondes filmées sont perdues."
    );

    let mut fin = FinDeCaptation::new("s", None);
    assert_eq!(fin.constater(true), None);
    assert!(fin.avertissement.is_none());
}

fn clip(index: u32) -> AssembledClip {
    AssembledClip {
        index,
        filename: format!("clip_{:04}.mp4", index),
        path: String::new(),
        size_bytes: 2048,
        offset_secs: 0,
        duration_secs: 150,
        segments: vec![],
    }
}

fn image() -> ExtractedFrame {
    ExtractedFrame {
        filename: "img_000004_001.jpg".to_string(),
        path: String::new(),
        size_bytes: 1,
        instant_at: "i".to_string(),
        segment_index: 4,
    }
}

#[test]
fn larret_sauve_tout_dans_lordre() {
    let mut r = Rattrapage::new("s", Some(4));
    assert_eq!(r.etape, EtapeArret::Sonder(4));

    r.sonde(true);
    assert_eq!(r.etape, EtapeArret::Images(4));
    r.images(Some(vec![image()]));
    assert_eq!(r.etape, EtapeArret::Assembler(4));
    r.clip(Some(clip(1)));
    assert_eq!(r.etape, EtapeArret::ClipFinal);
    r.clip(Some(clip(2)));
    assert_eq!(r.etape, EtapeArret::Clore);

    assert_eq!(r.fin.session_id, "s");
    assert_eq!(r.fin.frames.len(), 1);
    assert_eq!((r.fin.clips[0].index, r.fin.clips[1].index), (1, 2));
    assert!(r.fin.morceau_final_exploitable);
}

#[test]
fn larret_ne_laisse_rien_en_place() {
    let config = RecordingConfig {
        device_name: "Test".to_string(),
        audio_device: None,
        width: 1920,
        height: 1080,
        fps: 30,
        bitrate_mbps: 12,
        clip_duration_secs: 150,
        overlap_secs: 30,
        output_dir: "C:".to_string(),
    };
    let plan = config.plan().unwrap();
    let debut = Instant::depuis_millis(0);
    let attimo = AttimoInfo { tenant_id: 3, event_id: EVT, checkpoint_id: None };
    let mut captation = Some(RecordingHandle::new("s", plan, "C:", debut));
    let mut suivi = Some(ClipTracker::new(plan, "m", "c"));
    let mut manifeste = Some(ManifestWriter::new("s", &config, &plan, attimo, debut));

    let mut r = Rattrapage::new("s", Some(4));
    r.sonde(false);
    r.clip(None);
    let fin = r.clore(&mut captation, &mut suivi, &mut manifeste, &Instant::depuis_millis(1000));

    assert!(captation.is_none());
    assert!(suivi.is_none());
    assert_eq!(
        manifeste.unwrap().manifeste().session.fin.as_deref(),
        Some("1970-01-01T00:00:01.000Z")
    );
    assert!(fin.avertissement.is_some());
    assert!(!fin.morceau_final_exploitable);

    // A recording without a piece left open warns of nothing.
    let mut r = Rattrapage::new("s", None);
    r.clip(None);
    let fin = r.clore(&mut captation, &mut suivi, &mut None, &Instant::depuis_millis(1000));
    assert!(fin.avertissement.is_none());
}

#[test]
fn deux_envois_video_au_plus() {
    let mut envois = EnvoisVideo::new();

    assert!(envois.commencer());
    assert!(envois.commencer());
    assert!(!envois.commencer());
    envois.finir();
    assert!(envois.commencer());
    assert!(!envois.commencer());
}

#[test]
fn un_echec_nempeche_pas_la_suite_de_larret() {
    let mut r = Rattrapage::new("s", Some(4));
    r.sonde(true);
    r.images(None);
    assert_eq!(r.etape, EtapeArret::Assembler(4));
    r.clip(None);
    r.clip(None);
    assert_eq!(r.etape, EtapeArret::Clore);
    assert_eq!((r.fin.frames.len(), r.fin.clips.len()), (0, 0));

    let mut r = Rattrapage::new("s", Some(4));
    r.sonde(false);
    assert_eq!(r.etape, EtapeArret::ClipFinal);
    assert!(r.fin.avertissement.is_some());

    assert_eq!(Rattrapage::new("s", None).etape, EtapeArret::ClipFinal);
}

#[test]
fn le_serveur_peut_dire_lui_meme_que_la_session_a_expire() {
    let mut file = init_schema();
    ajouter(&mut file, "s1", QueueKind::ClipHd, "h.mp4");
    let elements = match prendre(&mut file, EVT, true) {
        Some(Envoi::Clip { element, .. }) => vec![element],
        _ => panic!("a clip waits"),
    };

    let e = ErreurVideo::Autre("SESSION_EXPIRED".to_string());
    assert!(e.est_expiree());
    assert_eq!(conclure_echec(&mut file, &elements, e).err().unwrap().texte(), "SESSION_EXPIRED");
    assert_eq!(prochains(&file, EVT, true, 10)[0].attempts, 0);
}
