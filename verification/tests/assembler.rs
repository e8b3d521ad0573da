use agent_terrain::assembler::{
    ajuster_duree, arguments_assemblage, arguments_duree, arguments_proxy, clip_complet,
    conclure_assemblage, conclure_proxy, nom_clip, nom_liste, nom_proxy, preparer_liste, AssembledClip, ClipTracker,
};
use agent_terrain::recorder::SegmentPlan;

fn plan_reference() -> SegmentPlan {
    // Clip of 150 s, overlap of 30 s.
    SegmentPlan { segment_secs: 30, segments_per_clip: 5, segments_step: 4, step_secs: 120 }
}

fn tracker_de_test() -> ClipTracker {
    ClipTracker {
        plan: plan_reference(),
        dossier_morceaux: "/tmp/m".to_string(),
        dossier_clips: "/tmp/c".to_string(),
        morceaux_prets: Vec::new(),
        prochain_clip: 1,
    }
}

fn clip_de_test() -> AssembledClip {
    AssembledClip {
        index: 1,
        filename: "clip_0001.mp4".to_string(),
        path: String::new(),
        size_bytes: 10,
        offset_secs: 0,
        duration_secs: 150,
        segments: vec![0, 1],
    }
}

#[test]
fn attend_davoir_tous_les_morceaux() {
    let mut t = tracker_de_test();

    assert!(t.segment_ready(0).is_none());
    assert!(t.segment_ready(1).is_none());
    assert!(t.segment_ready(2).is_none());
    assert!(t.segment_ready(3).is_none());

    // The fifth completes the clip.
    let morceaux = t.segment_ready(4).unwrap();
    assert_eq!(morceaux, vec![0, 1, 2, 3, 4]);
}

#[test]
fn le_second_clip_reprend_le_dernier_morceau_du_premier() {
    let mut t = tracker_de_test();

    for i in 0..=4 {
        t.segment_ready(i);
    }
    t.clip_termine();

    for i in 5..=7 {
        assert!(t.segment_ready(i).is_none());
    }

    let morceaux = t.segment_ready(8).unwrap();

    // Piece 4 belongs to both clips: it is the overlap.
    assert_eq!(morceaux, vec![4, 5, 6, 7, 8]);
}

#[test]
fn le_chevauchement_dure_bien_ce_qui_est_demande() {
    let mut t = tracker_de_test();

    for i in 0..=4 {
        t.segment_ready(i);
    }
    let premier = t.clip_assemblable().unwrap();
    t.clip_termine();

    for i in 5..=8 {
        t.segment_ready(i);
    }
    let second = t.clip_assemblable().unwrap();

    let communs: Vec<u32> = premier.iter().filter(|i| second.contains(i)).copied().collect();

    assert_eq!(communs.len(), 1);
    assert_eq!(communs[0] * 0 + t.plan.segment_secs, 30);
}

#[test]
fn oublie_les_morceaux_devenus_inutiles() {
    let mut t = tracker_de_test();

    for i in 0..=4 {
        t.segment_ready(i);
    }
    t.clip_termine();

    // Pieces 0 to 3 serve no other clip.
    assert!(!t.morceaux_prets.contains(&0));
    assert!(!t.morceaux_prets.contains(&3));

    // Piece 4 stays: it opens the next clip.
    assert!(t.morceaux_prets.contains(&4));
}

#[test]
fn supporte_un_ordre_darrivee_desordonne() {
    let mut t = tracker_de_test();

    t.segment_ready(2);
    t.segment_ready(0);
    t.segment_ready(4);
    t.segment_ready(1);

    let morceaux = t.segment_ready(3).unwrap();
    assert_eq!(morceaux, vec![0, 1, 2, 3, 4]);
}

#[test]
fn propose_un_clip_final_avec_ce_qui_reste() {
    let mut t = tracker_de_test();

    for i in 0..=4 {
        t.segment_ready(i);
    }
    t.clip_termine();

    // Clip 2 waits for pieces 4 to 8; the recording stops at 6.
    t.segment_ready(5);
    t.segment_ready(6);

    assert_eq!(t.clip_final(), Some(vec![4, 5, 6]));
}

#[test]
fn refuse_un_clip_final_deja_contenu_dans_le_precedent() {
    let mut t = tracker_de_test();

    for i in 0..=4 {
        t.segment_ready(i);
    }
    t.clip_termine();

    // Only the overlap is there: clip 1 has all of it.
    assert_eq!(t.clip_final(), None);
}

#[test]
fn accepte_un_premier_clip_final_meme_tres_court() {
    let mut t = tracker_de_test();

    t.segment_ready(0);
    t.segment_ready(1);

    assert_eq!(t.clip_final(), Some(vec![0, 1]));
}

#[test]
fn le_clip_final_sarrete_au_premier_trou() {
    let mut t = tracker_de_test();

    t.segment_ready(0);
    t.segment_ready(1);
    t.segment_ready(3);

    assert_eq!(t.clip_final(), Some(vec![0, 1]));
}

#[test]
fn calcule_la_position_de_chaque_clip() {
    let mut t = tracker_de_test();

    assert_eq!(t.offset_du_clip_courant(), 0);

    t.clip_termine();
    assert_eq!(t.offset_du_clip_courant(), 120);

    t.clip_termine();
    assert_eq!(t.offset_du_clip_courant(), 240);
}

#[test]
fn un_morceau_annonce_deux_fois_ne_compte_quune_fois() {
    let mut t = ClipTracker::new(plan_reference(), "/tmp/m", "/tmp/c");

    t.segment_ready(3);
    t.segment_ready(1);
    t.segment_ready(3);

    assert_eq!(t.morceaux_prets, vec![1, 3]);
    assert_eq!(t.clip_courant(), 1);
    assert_eq!(t.dossier_clips, "/tmp/c");
}

#[test]
fn loubli_ne_retarde_aucun_clip_suivant() {
    let mut t = tracker_de_test();

    // Piece 8 is closed early; it must survive the end of clip 1.
    for i in [0, 1, 2, 3, 4, 8, 7, 6] {
        t.segment_ready(i);
    }
    t.clip_termine();

    assert_eq!(t.segment_ready(5), Some(vec![4, 5, 6, 7, 8]));
}

#[test]
fn tous_les_morceaux_appartiennent_a_un_clip() {
    let mut t = tracker_de_test();
    let mut vus: Vec<u32> = Vec::new();

    for i in 0..25u32 {
        if let Some(clip) = t.segment_ready(i) {
            vus.extend(clip);
            t.clip_termine();
        }
    }

    for i in 0..25u32 {
        assert!(vus.contains(&i), "piece {} is in no clip", i);
    }
}

#[test]
fn les_noms_sont_numerotes() {
    assert_eq!(nom_clip(7), "clip_0007.mp4");
    assert_eq!(nom_clip(12_345), "clip_12345.mp4");
    assert_eq!(nom_liste(7), ".liste_7.txt");
    assert_eq!(nom_proxy(None), "clip.mp4");
    assert_eq!(nom_proxy(Some("a.mp4".to_string())), "a.mp4");
}

#[test]
fn la_liste_protege_les_chemins() {
    let chemins = vec![
        "C:\\Course d'été\\m_000000.mp4".to_string(),
        "C:\\Course d'été\\m_000001.mp4".to_string(),
    ];

    let liste = preparer_liste(&vec![0, 1], &chemins, &vec![true, true]).unwrap();

    assert_eq!(
        liste,
        "file 'C:/Course d'\\''été/m_000000.mp4'\nfile 'C:/Course d'\\''été/m_000001.mp4'\n"
    );
}

#[test]
fn un_morceau_manquant_empeche_lassemblage() {
    let chemins = vec!["a".to_string(), "b".to_string(), "c".to_string()];

    let erreur = preparer_liste(&vec![4, 5, 6], &chemins, &vec![true, false, false]).unwrap_err();

    assert_eq!(erreur, "Le morceau 5 est introuvable — le clip ne peut pas être assemblé.");
}

#[test]
fn les_arguments_recopient_les_morceaux() {
    let args = arguments_assemblage("liste.txt", "clip.mp4");

    assert_eq!(args[6], "liste.txt");
    assert_eq!(args[7], "-c");
    assert_eq!(args[8], "copy");
    assert_eq!(args.last().unwrap(), "clip.mp4");
    assert_eq!(args.len(), 13);

    let duree = arguments_duree("clip.mp4");
    assert_eq!(duree.len(), 7);
    assert_eq!(duree[3], "format=duration");
    assert_eq!(duree[6], "clip.mp4");

    let proxy = arguments_proxy("clip.mp4", 540, 2, "proxy.mp4");
    assert_eq!(proxy.len(), 21);
    assert_eq!(proxy[4], "scale=-2:540");
    assert_eq!(proxy[10], "2M");
    assert_eq!(proxy[20], "proxy.mp4");
}

#[test]
fn lassemblage_se_juge_au_fichier_produit() {
    let mut t = tracker_de_test();
    t.clip_termine();

    let clip = conclure_assemblage(&t, &vec![4, 5, 6, 7, 8], "/c/x.mp4", Some(2048), "").unwrap_or_else(
        |m| panic!("{}", m),
    );
    assert_eq!(clip.index, 2);
    assert_eq!(clip.filename, "clip_0002.mp4");
    assert_eq!(clip.path, "/c/x.mp4");
    assert_eq!(clip.size_bytes, 2048);
    assert_eq!(clip.offset_secs, 120);
    assert_eq!(clip.duration_secs, 150);
    assert_eq!(clip.segments, vec![4, 5, 6, 7, 8]);

    let vide = conclure_assemblage(&t, &vec![4], "/c/x.mp4", Some(1023), "panne");
    assert_eq!(
        vide.err().unwrap(),
        "Le clip produit est vide (1023 octets).\n\nJournal FFmpeg :\npanne"
    );

    let journal = "x".repeat(600);
    let absent = conclure_assemblage(&t, &vec![4], "/c/x.mp4", None, &journal);
    assert_eq!(
        absent.err().unwrap(),
        format!(
            "L'assemblage n'a produit aucun fichier.\n\nJournal FFmpeg :\n{}",
            "x".repeat(500)
        )
    );
}

#[test]
fn la_version_legere_se_juge_au_fichier_produit() {
    assert_eq!(conclure_proxy(Some(1024)), Ok(1024));
    assert_eq!(
        conclure_proxy(Some(12)),
        Err("La version légère est vide (12 octets).".to_string())
    );
    assert_eq!(
        conclure_proxy(None),
        Err("La conversion n'a produit aucun fichier.".to_string())
    );
}

#[test]
fn le_clip_final_nest_jamais_complet() {
    for mesure in [false, true] {
        assert!(!clip_complet(true, true, mesure));
        assert!(!clip_complet(false, true, mesure));
        assert!(clip_complet(false, false, mesure));
        assert_eq!(clip_complet(true, false, mesure), mesure);
    }
}

#[test]
fn la_duree_mesuree_remplace_la_duree_prevue() {
    let mut clip = clip_de_test();
    assert!(!ajuster_duree(&mut clip, Some(97)));
    assert_eq!(clip.duration_secs, 97);

    let mut clip = clip_de_test();
    assert!(ajuster_duree(&mut clip, Some(150)));
    assert_eq!(clip.duration_secs, 150);

    let mut clip = clip_de_test();
    assert!(ajuster_duree(&mut clip, Some(151)));
    assert_eq!(clip.duration_secs, 150);

    let mut clip = clip_de_test();
    assert!(!ajuster_duree(&mut clip, Some(0)));
    assert_eq!(clip.duration_secs, 0);

    let mut clip = clip_de_test();
    assert!(!ajuster_duree(&mut clip, None));
    assert_eq!(clip.duration_secs, 150);
}
