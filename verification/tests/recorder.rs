use agent_terrain::chrono_simple::Instant;
use agent_terrain::recorder::{
    chrono_maintenant, construire_arguments, dater, debut_morceau, detecter_ouverture_morceau,
    nom_morceau, pgcd, EcouteFfmpeg, RecordingConfig, RecordingHandle,
};

fn config_type(duree: u32, chevauchement: u32) -> RecordingConfig {
    RecordingConfig {
        device_name: "Test".to_string(),
        audio_device: None,
        width: 1920,
        height: 1080,
        fps: 30,
        bitrate_mbps: 12,
        clip_duration_secs: duree,
        overlap_secs: chevauchement,
        output_dir: "C:\\tmp".to_string(),
    }
}

#[test]
fn decoupe_le_reglage_de_reference() {
    let plan = config_type(150, 30).plan().unwrap();

    assert_eq!(plan.step_secs, 120);
    assert_eq!(plan.segment_secs, 30);
    assert_eq!(plan.segments_per_clip, 5);
    assert_eq!(plan.segments_step, 4);
}

#[test]
fn decoupe_des_clips_longs() {
    let plan = config_type(300, 30).plan().unwrap();

    assert_eq!(plan.segment_secs, 30);
    assert_eq!(plan.segments_per_clip, 10);
    assert_eq!(plan.segments_step, 9);
}

#[test]
fn decoupe_des_clips_courts() {
    let plan = config_type(20, 5).plan().unwrap();

    assert_eq!(plan.segment_secs, 5);
    assert_eq!(plan.segments_per_clip, 4);
    assert_eq!(plan.segments_step, 3);
}

#[test]
fn refuse_un_chevauchement_trop_grand() {
    assert!(config_type(60, 60).plan().is_err());
    assert!(config_type(60, 90).plan().is_err());
}

#[test]
fn refuse_une_duree_nulle() {
    assert!(config_type(0, 0).plan().is_err());
}

#[test]
fn les_refus_sont_explicites() {
    assert_eq!(
        config_type(0, 0).plan().err().unwrap(),
        "La durée d'un clip ne peut pas être nulle."
    );
    assert_eq!(
        config_type(60, 60).plan().err().unwrap(),
        "Le chevauchement doit rester inférieur à la durée du clip, sans quoi les clips se répéteraient sans jamais avancer."
    );
}

#[test]
fn le_chevauchement_reel_correspond_au_demande() {
    for (duree, chevauchement) in [(150, 30), (300, 30), (120, 20), (60, 15)] {
        let plan = config_type(duree, chevauchement).plan().unwrap();

        let morceaux_communs = plan.segments_per_clip - plan.segments_step;
        let chevauchement_reel = morceaux_communs * plan.segment_secs;

        assert_eq!(
            chevauchement_reel, chevauchement,
            "clip de {} s avec {} s de chevauchement",
            duree, chevauchement
        );
    }
}

#[test]
fn calcule_le_plus_grand_diviseur_commun() {
    assert_eq!(pgcd(150, 120), 30);
    assert_eq!(pgcd(7, 5), 1);
    assert_eq!(pgcd(0, 9), 9);
    assert_eq!(pgcd(0, 0), 0);
}

#[test]
fn lit_le_numero_du_morceau_ouvert() {
    let texte = "[segment @ 0000] Opening 'C:\\Video\\_morceaux\\m_000003.mp4' for writing";

    assert_eq!(detecter_ouverture_morceau(texte), Some(3));
}

#[test]
fn ignore_le_bavardage_ordinaire() {
    let texte = "frame= 120 fps= 30 q=28.0 size=  1024kB time=00:00:04.00 bitrate=2097.2kbits/s";

    assert_eq!(detecter_ouverture_morceau(texte), None);
}

#[test]
fn lit_parmi_plusieurs_lignes() {
    // A number that does not hold in 32 bits is passed over.
    let texte = "frame=1\r\nOpening 'm_99999999999.mp4' for writing\nOpening 'm_12.mp4' for writing\n";
    assert_eq!(detecter_ouverture_morceau(texte), Some(12));

    // A file that is no piece is passed over.
    let texte = "Opening 'autre.mp4' for writing\nOpening 'm_12.mp4' for writing";
    assert_eq!(detecter_ouverture_morceau(texte), Some(12));

    assert_eq!(detecter_ouverture_morceau("Opening 'm_.mp4' for writing"), None);
    assert_eq!(detecter_ouverture_morceau("Opening 'm_+12.mp4' for writing"), None);
    assert_eq!(detecter_ouverture_morceau("Opening 'm_12.mkv' for writing"), Some(12));
    assert_eq!(detecter_ouverture_morceau("Opening m_12.mp4 for writing"), Some(12));
    assert_eq!(detecter_ouverture_morceau("Opening /v/cam_1/m_12 for writing, 3 kB/s"), Some(12));
    assert_eq!(detecter_ouverture_morceau("Opening 'm_12"), None);
    assert_eq!(detecter_ouverture_morceau("Opening 'm_12.mp4' for reading"), None);
    assert_eq!(detecter_ouverture_morceau(""), None);
}

#[test]
fn lit_le_numero_dans_le_nom_du_fichier() {
    let lire = |chemin: &str| {
        detecter_ouverture_morceau(&format!("[segment @ 0000] Opening '{}' for writing", chemin))
    };

    assert_eq!(lire("C:\\cam_1\\_morceaux\\m_000003.mp4"), Some(3));
    assert_eq!(lire("/video/m_7.mp4/m_000012.mp4"), Some(12));
    assert_eq!(lire("C:\\l'arrivée\\m_000004.mp4"), Some(4));
    assert_eq!(lire("/video/m_7/autre.mp4"), None);
    assert_eq!(lire("/video/cam_7.mp4"), Some(7));
    assert_eq!(lire("/for writing/m_000005.mp4"), Some(5));
    assert_eq!(lire(&format!("d/{}", nom_morceau(4_294_967_295))), Some(4_294_967_295));
}

#[test]
fn place_bien_les_arguments_de_decoupe() {
    let config = config_type(150, 30);
    let plan = config.plan().unwrap();
    let args = construire_arguments(&config, &plan, "C:\\tmp\\m_%06d.mp4");

    let position = args.iter().position(|a| a == "-segment_time").unwrap();
    assert_eq!(args[position + 1], "30");

    assert!(args.contains(&"-reset_timestamps".to_string()));
    assert!(args.contains(&"segment".to_string()));
    assert_eq!(args[4], "1920x1080");
    assert_eq!(args[10], "video=Test");
    assert_eq!(args[16], "12M");
    assert!(args.contains(&"expr:gte(t,n_forced*30)".to_string()));
    assert_eq!(args.last().unwrap(), "C:\\tmp\\m_%06d.mp4");
}

#[test]
fn coupe_le_son_quand_aucun_micro_nest_choisi() {
    let config = config_type(150, 30);
    let plan = config.plan().unwrap();
    let args = construire_arguments(&config, &plan, "C:\\tmp\\m_%06d.mp4");

    assert!(args.contains(&"-an".to_string()));
}

#[test]
fn enregistre_le_micro_choisi() {
    let mut config = config_type(150, 30);
    config.audio_device = Some("Micro".to_string());
    let plan = config.plan().unwrap();
    let args = construire_arguments(&config, &plan, "m");

    assert_eq!(args[10], "video=Test:audio=Micro");
    assert!(args.contains(&"128k".to_string()));
    assert!(!args.contains(&"-an".to_string()));
}

#[test]
fn annonce_le_morceau_que_le_suivant_vient_de_clore() {
    let mut ecoute = EcouteFfmpeg::new("s1");

    assert!(ecoute.sortie("Opening 'm_000000.mp4' for writing", "@10").is_none());
    assert_eq!(ecoute.dernier_morceau(), Some(0));

    let evenement = ecoute.sortie("Opening 'm_000001.mp4' for writing", "@40").unwrap();
    assert_eq!(evenement.session_id, "s1");
    assert_eq!(evenement.index, 0);
    assert_eq!(evenement.filename, "m_000000.mp4");
    assert_eq!(evenement.started_at, "@40");

    // The piece left open is announced by nothing.
    assert!(ecoute.sortie("frame= 12", "@41").is_none());
    assert_eq!(ecoute.dernier_morceau(), Some(1));
}

#[test]
fn ne_garde_que_les_dernieres_lignes() {
    let mut ecoute = EcouteFfmpeg::new("s1");

    for i in 0..30 {
        ecoute.sortie(&format!("  ligne {}  \n\n", i), "@0");
    }

    assert_eq!(ecoute.lignes().len(), 25);
    assert_eq!(ecoute.lignes()[0], "ligne 5");
    assert_eq!(ecoute.lignes()[24], "ligne 29");
}

#[test]
fn distingue_un_depart_attendu_dune_panne() {
    assert!(EcouteFfmpeg::fin_normale(false, Some(255)));
    assert!(EcouteFfmpeg::fin_normale(true, Some(0)));
    assert!(!EcouteFfmpeg::fin_normale(true, Some(1)));
    assert!(!EcouteFfmpeg::fin_normale(true, None));
}

#[test]
fn date_en_secondes() {
    assert_eq!(dater(Some(1_767_268_800_999)), "@1767268800");
    assert_eq!(dater(None), "@0");

    let maintenant = chrono_maintenant();
    assert!(maintenant.starts_with('@'));
    assert!(maintenant[1..].parse::<u64>().unwrap() > 1_700_000_000);
}

#[test]
fn un_second_arret_repart_aussitot() {
    let plan = config_type(150, 30).plan().unwrap();
    let mut h = RecordingHandle::new("s1", plan, "C:\\tmp", Instant::depuis_millis(0));

    assert!(h.demander_arret().is_ok());
    assert_eq!(h.demander_arret(), Err("ARRET_EN_COURS".to_string()));

    assert_eq!(h.commencer_arret(), Some(10));
    assert!(!h.running);
    assert!(h.finir_arret(false));

    // FFmpeg has been let go of: nobody waits for it again.
    assert_eq!(h.commencer_arret(), None);
    assert!(!h.finir_arret(false));
}

#[test]
fn chaque_morceau_commence_quand_le_precedent_finit() {
    let plan = config_type(150, 30).plan().unwrap();
    let debut = Instant::depuis_millis(1_767_268_800_000);

    assert_eq!(debut_morceau(&debut, &plan, 0).to_iso8601(), "2026-01-01T12:00:00.000Z");
    assert_eq!(debut_morceau(&debut, &plan, 5).to_iso8601(), "2026-01-01T12:02:30.000Z");
    assert_eq!(nom_morceau(5), "m_000005.mp4");
}
