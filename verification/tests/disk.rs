use agent_terrain::disk::{
    au_lecteur, autoriser_depart, estimer, evaluer, premier_parent_existant, reserve_pour,
    sur_lecteur, Debits, DiskLevel, FluxParams, GIO, POIDS_IMAGE_SUPPOSE, RESERVE_DISQUE_DONNEES,
    RESERVE_DISQUE_SYSTEME,
};
use agent_terrain::recorder::RecordingConfig;

fn flux_reference() -> FluxParams {
    // 1080p at 8 Mb/s, clips of 150 s overlapping by 30 s, no microphone.
    FluxParams {
        bitrate_mbps: 8,
        avec_audio: false,
        clip_duration_secs: 150,
        step_secs: 120,
        proxy_bitrate_mbps: 2,
        frame_avg_bytes: POIDS_IMAGE_SUPPOSE,
    }
}

fn debits_reference() -> Debits {
    Debits { morceaux: 1_000_000, clips: 1_250_000, proxies: 312_500, images: 150_000 }
}

#[test]
fn compte_les_morceaux_au_debit_source() {
    // 8 Mb/s = 1 000 000 bytes per second.
    assert_eq!(flux_reference().debit_source(), 1_000_000);
}

#[test]
fn le_son_alourdit_le_debit() {
    let mut flux = flux_reference();
    assert_eq!(flux.debit_proxy(), 250_000);

    flux.avec_audio = true;
    assert_eq!(flux.debit_source(), 1_016_000);
    assert_eq!(flux.debit_proxy(), 262_000);
}

#[test]
fn reserve_cinquante_giga_sur_le_disque_systeme() {
    let reserve = reserve_pour(&flux_reference(), true);

    assert_eq!(reserve, RESERVE_DISQUE_SYSTEME);
}

#[test]
fn reserve_au_moins_dix_giga_sur_un_disque_de_donnees() {
    let reserve = reserve_pour(&flux_reference(), false);

    assert_eq!(reserve, RESERVE_DISQUE_DONNEES);
}

#[test]
fn la_reserve_suit_la_taille_des_clips_quand_ils_sont_enormes() {
    // Clips of an hour at 50 Mb/s: three of them are far beyond ten GiB.
    let mut flux = flux_reference();
    flux.bitrate_mbps = 50;
    flux.clip_duration_secs = 3600;
    flux.step_secs = 3000;

    let reserve = reserve_pour(&flux, false);

    assert!(
        reserve > RESERVE_DISQUE_DONNEES,
        "la réserve devrait suivre la taille des clips : {}",
        reserve
    );
    assert_eq!(reserve, 67_500_000_000);
}

#[test]
fn les_reglages_suivent_la_captation() {
    let config = RecordingConfig {
        device_name: "Test".to_string(),
        audio_device: Some("Micro".to_string()),
        width: 1920,
        height: 1080,
        fps: 30,
        bitrate_mbps: 12,
        clip_duration_secs: 150,
        overlap_secs: 30,
        output_dir: String::new(),
    };
    let plan = config.plan().unwrap();

    let flux = FluxParams::depuis_config(&config, &plan, None);
    assert_eq!(flux.bitrate_mbps, 12);
    assert!(flux.avec_audio);
    assert_eq!(flux.clip_duration_secs, 150);
    assert_eq!(flux.step_secs, 120);
    assert_eq!(flux.proxy_bitrate_mbps, 2);
    assert_eq!(flux.frame_avg_bytes, POIDS_IMAGE_SUPPOSE);
    assert_eq!(FluxParams::depuis_config(&config, &plan, Some(3)).proxy_bitrate_mbps, 3);
}

#[test]
fn lestimation_retranche_la_reserve() {
    let libre = RESERVE_DISQUE_DONNEES + 2_712_500 * 1000;
    let e = estimer(libre, false, &flux_reference(), &debits_reference(), "/data");

    assert_eq!(e.total_per_hour, 9_765_000_000);
    assert_eq!(e.segments_per_hour, 3_600_000_000);
    assert_eq!(e.clips_per_hour, 4_500_000_000);
    assert_eq!(e.proxies_per_hour, 1_125_000_000);
    assert_eq!(e.frames_per_hour, 540_000_000);
    assert_eq!(e.usable_bytes, 2_712_500_000);
    assert_eq!(e.autonomy_secs, 1000);
    assert_eq!(e.measured_path, "/data");
    assert!(!e.on_system_disk);
    assert!(autoriser_depart(&e).is_ok());

    let e = estimer(libre, true, &flux_reference(), &debits_reference(), "/data");
    assert_eq!(e.usable_bytes, 0);
    assert_eq!(e.autonomy_secs, 0);
}

#[test]
fn un_disque_trop_plein_empeche_le_depart() {
    let libre = RESERVE_DISQUE_DONNEES + GIO + 5;
    let e = estimer(libre, false, &flux_reference(), &debits_reference(), "/data");

    assert_eq!(
        autoriser_depart(&e).err().unwrap(),
        "Espace disque insuffisant : 1 Go utilisables pour 9 Go/h. Libérez de la place ou choisissez un autre disque."
    );
}

#[test]
fn lalerte_suit_lautonomie() {
    let reserve = 1000;
    let niveau = |secondes: u64| evaluer(reserve + 10 * secondes, 0, 0, 0, 10, reserve).level;

    assert_eq!(niveau(299), DiskLevel::Stopped);
    assert_eq!(niveau(300), DiskLevel::Critical);
    assert_eq!(niveau(899), DiskLevel::Critical);
    assert_eq!(niveau(900), DiskLevel::Warning);
    assert_eq!(niveau(1799), DiskLevel::Warning);
    assert_eq!(niveau(1800), DiskLevel::Normal);

    // The reserve is already entered.
    assert_eq!(evaluer(999, 0, 0, 0, 10, reserve).level, DiskLevel::Stopped);
    // Nothing is written: nothing presses.
    let s = evaluer(999, 0, 0, 0, 0, reserve);
    assert_eq!((s.level, s.autonomy_secs), (DiskLevel::Normal, 0));
}

#[test]
fn le_debit_est_mesure_apres_deux_minutes() {
    let avant = evaluer(1_000_000, 5_000, 2_000, 119, 10, 0);
    assert!(!avant.rate_measured);
    assert_eq!(avant.rate_bytes_per_sec, 10);
    assert_eq!(avant.written_bytes, 3_000);

    let apres = evaluer(1_000_000, 5_000, 2_000, 120, 10, 0);
    assert!(apres.rate_measured);
    assert_eq!(apres.rate_bytes_per_sec, 25);
    assert_eq!(apres.autonomy_secs, 40_000);
    assert_eq!(apres.elapsed_secs, 120);

    // The directory was emptied meanwhile: nothing to measure.
    assert!(!evaluer(1_000_000, 1_000, 2_000, 300, 10, 0).rate_measured);
}

#[test]
fn remonte_au_premier_dossier_existant() {
    assert_eq!(premier_parent_existant("/a/b/c", &vec![false, false, true, true]), Ok(2));
    assert_eq!(premier_parent_existant("/a", &vec![true]), Ok(0));
    assert_eq!(
        premier_parent_existant("/a", &vec![false]),
        Err("Aucun dossier accessible sur ce chemin : /a".to_string())
    );
}

#[test]
fn reconnait_le_lecteur() {
    assert!(sur_lecteur("C:\\VIDEO", "C:"));
    assert!(sur_lecteur("c:\\vidéo", "C:"));
    assert!(sur_lecteur("\\\\?\\C:\\Vidéo", "c:"));
    assert!(!au_lecteur("c:\\VIDEO", "C:"));
    assert!(au_lecteur("\\\\?\\\\\\?\\C:\\VIDEO", "C:"));
    assert!(sur_lecteur("\\\\?\\C:\\VIDEO", "C:"));
    assert!(!sur_lecteur("D:\\VIDEO", "C:"));
}
