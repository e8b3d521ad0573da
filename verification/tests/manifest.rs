use agent_terrain::assembler::AssembledClip;
use agent_terrain::chrono_simple::Instant;
use agent_terrain::frames::ExtractedFrame;
use agent_terrain::manifest::{AttimoInfo, ManifestWriter};
use agent_terrain::recorder::{debut_morceau, RecordingConfig};

fn config_type() -> RecordingConfig {
    RecordingConfig {
        device_name: "Iriun Webcam".to_string(),
        audio_device: None,
        width: 1920,
        height: 1080,
        fps: 30,
        bitrate_mbps: 12,
        clip_duration_secs: 150,
        overlap_secs: 30,
        output_dir: String::new(),
    }
}

fn attimo_type() -> AttimoInfo {
    AttimoInfo { tenant_id: 3, event_id: 128, checkpoint_id: Some(412) }
}

fn writer_de_test() -> ManifestWriter {
    let config = config_type();
    let plan = config.plan().unwrap();

    ManifestWriter::new(
        "2026-08-13_21h30",
        &config,
        &plan,
        attimo_type(),
        Instant::depuis_millis(1_767_268_800_000),
    )
}

fn clip(index: u32, size_bytes: u64, offset_secs: u32, segments: Vec<u32>) -> AssembledClip {
    AssembledClip {
        index,
        filename: format!("clip_{:04}.mp4", index),
        path: String::new(),
        size_bytes,
        offset_secs,
        duration_secs: 150,
        segments,
    }
}

#[test]
fn cree_un_manifeste_exploitable_des_le_depart() {
    let writer = writer_de_test();

    assert_eq!(writer.manifeste().version, "1.3");
    assert_eq!(writer.manifeste().clips.len(), 0);
    assert_eq!(writer.manifeste().capture.duree_morceau_secondes, 30);

    assert_eq!(writer.duree_morceau(), 30);
    assert_eq!(writer.manifeste().session.identifiant, "2026-08-13_21h30");
    assert_eq!(writer.manifeste().session.debut, "2026-01-01T12:00:00.000Z");
    assert_eq!(writer.manifeste().session.attimo, attimo_type());
    assert_eq!(writer.manifeste().capture.resolution, "1920x1080");
    assert_eq!(writer.manifeste().analyse.index, "_analyse/images.jsonl");
    assert_eq!(writer.manifeste().analyse.largeur_pixels, 1920);
}

#[test]
fn horodate_les_clips_par_rapport_au_depart() {
    let mut writer = writer_de_test();

    writer.ajouter_clip(&clip(1, 12_000_000, 0, vec![0, 1, 2, 3, 4]), true);

    let entree = &writer.manifeste().clips[0];

    assert_eq!(entree.debut, "2026-01-01T12:00:00.000Z");
    assert_eq!(entree.fin, "2026-01-01T12:02:30.000Z");
    assert_eq!(entree.fichier, "clips/clip_0001.mp4");
    assert_eq!(entree.octets, 12_000_000);
    assert!(entree.complet);
}

#[test]
fn les_clips_consecutifs_se_chevauchent_vraiment() {
    let mut writer = writer_de_test();

    writer.ajouter_clip(&clip(1, 1, 0, vec![0, 1, 2, 3, 4]), true);
    writer.ajouter_clip(&clip(2, 1, 120, vec![4, 5, 6, 7, 8]), true);

    // The second starts before the first ends.
    assert_eq!(writer.manifeste().clips[0].fin, "2026-01-01T12:02:30.000Z");
    assert_eq!(writer.manifeste().clips[1].debut, "2026-01-01T12:02:00.000Z");

    // Piece 4 belongs to both.
    assert!(writer.manifeste().clips[0].morceaux.contains(&4));
    assert!(writer.manifeste().clips[1].morceaux.contains(&4));
}

#[test]
fn lindex_des_images_sajoute_sans_reecriture() {
    let mut writer = writer_de_test();

    let images = vec![
        ExtractedFrame {
            filename: "img_000000_001.jpg".to_string(),
            path: String::new(),
            size_bytes: 330_000,
            instant_at: "2026-01-01T12:00:00.000Z".to_string(),
            segment_index: 0,
        },
        ExtractedFrame {
            filename: "img_000000_002.jpg".to_string(),
            path: String::new(),
            size_bytes: 328_000,
            instant_at: "2026-01-01T12:00:02.000Z".to_string(),
            segment_index: 0,
        },
    ];

    let mut contenu = writer.ajouter_images(&images);
    contenu.push_str(&writer.ajouter_images(&images));

    let lignes: Vec<&str> = contenu.lines().filter(|l| !l.is_empty()).collect();

    // Four lines: the second call adds, it does not replace.
    assert_eq!(lignes.len(), 4);
    assert_eq!(writer.manifeste().analyse.images_produites, 4);
    assert_eq!(
        lignes[3],
        "{\"fichier\":\"img_000000_002.jpg\",\"instant\":\"2026-01-01T12:00:02.000Z\",\"octets\":328000}"
    );
}

#[test]
fn la_cloture_renseigne_la_fin() {
    let mut writer = writer_de_test();

    assert!(writer.manifeste().session.fin.is_none());

    writer.cloturer(&Instant::depuis_millis(1_767_272_400_000));

    assert_eq!(
        writer.manifeste().session.fin.as_deref(),
        Some("2026-01-01T13:00:00.000Z")
    );
}

#[test]
fn une_image_tombe_dans_les_clips_de_son_morceau() {
    let mut writer = writer_de_test();
    let plan = config_type().plan().unwrap();
    let debut = Instant::depuis_millis(1_767_268_800_000);

    writer.ajouter_clip(&clip(1, 1, 0, vec![0, 1, 2, 3, 4]), true);
    writer.ajouter_clip(&clip(2, 1, 120, vec![4, 5, 6, 7, 8]), true);

    for c in &writer.manifeste().clips {
        for morceau in &c.morceaux {
            let premiere = debut_morceau(&debut, &plan, *morceau);
            let derniere = premiere.plus_millis(29_999);
            assert!(c.debut <= premiere.to_iso8601() && premiere.to_iso8601() < c.fin);
            assert!(c.debut <= derniere.to_iso8601() && derniere.to_iso8601() < c.fin);
        }
    }
}
