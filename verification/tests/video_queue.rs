use agent_terrain::video_queue::{
    attribuer_evenement, enfiler, init_schema, liberer, liberer_orphelins, marquer_echec,
    marquer_envoye, prochains, purger_envoyes, reconcilier, relancer_echecs, reserver,
    reserver_prochain_envoi, statistiques, statistiques_filtrees, QueueKind, StatutVideo,
    VideoQueue,
};

const EVT: i64 = 7;

fn base_de_test() -> VideoQueue {
    init_schema()
}

fn ajouter(file: &mut VideoQueue, session: &str, kind: QueueKind, chemin: &str, clip: u32) -> i64 {
    enfiler(file, session, EVT, kind, chemin, Some(clip), None, None, None, 0, "@1")
}

fn enfiler_simple(file: &mut VideoQueue, kind: QueueKind, chemin: &str) -> i64 {
    ajouter(file, "session_1", kind, chemin, 1)
}

#[test]
fn les_images_passent_avant_les_clips() {
    let mut conn = base_de_test();

    // Added in the reverse order of priority.
    enfiler_simple(&mut conn, QueueKind::ClipHd, "hd.mp4");
    enfiler_simple(&mut conn, QueueKind::ClipProxy, "proxy.mp4");
    enfiler_simple(&mut conn, QueueKind::Frames, "img.jpg");

    let file = prochains(&conn, EVT, true, 10);

    assert_eq!(file[0].kind, QueueKind::Frames);
    assert_eq!(file[1].kind, QueueKind::ClipProxy);
    assert_eq!(file[2].kind, QueueKind::ClipHd);
}

#[test]
fn le_toggle_eteint_retient_la_pleine_qualite() {
    let mut conn = base_de_test();

    enfiler_simple(&mut conn, QueueKind::Frames, "img.jpg");
    enfiler_simple(&mut conn, QueueKind::ClipProxy, "proxy.mp4");
    enfiler_simple(&mut conn, QueueKind::ClipHd, "hd.mp4");

    let file = prochains(&conn, EVT, false, 10);

    assert_eq!(file.len(), 2);
    assert!(file.iter().all(|e| e.kind != QueueKind::ClipHd));

    // It is not lost: it still waits.
    let stats = statistiques(&conn, EVT);
    assert_eq!(stats.hd_pending, 1);
}

#[test]
fn le_meme_fichier_nest_pas_enfile_deux_fois() {
    let mut conn = base_de_test();

    enfiler_simple(&mut conn, QueueKind::ClipHd, "clip.mp4");
    enfiler_simple(&mut conn, QueueKind::ClipHd, "clip.mp4");

    let file = prochains(&conn, EVT, true, 10);

    assert_eq!(file.len(), 1);
}

#[test]
fn un_element_envoye_quitte_la_file() {
    let mut conn = base_de_test();

    let id = enfiler_simple(&mut conn, QueueKind::Frames, "img.jpg");
    marquer_envoye(&mut conn, id, "@2");

    assert_eq!(prochains(&conn, EVT, true, 10).len(), 0);
}

#[test]
fn trois_echecs_sortent_lelement_de_la_file() {
    let mut conn = base_de_test();

    let id = enfiler_simple(&mut conn, QueueKind::ClipHd, "clip.mp4");

    assert!(!marquer_echec(&mut conn, id, "réseau"));
    assert!(!marquer_echec(&mut conn, id, "réseau"));

    // The third failure is the last.
    assert!(marquer_echec(&mut conn, id, "réseau"));

    assert_eq!(prochains(&conn, EVT, true, 10).len(), 0);
    assert_eq!(statistiques(&conn, EVT).failed, 1);
}

#[test]
fn les_echecs_peuvent_etre_relances() {
    let mut conn = base_de_test();

    let id = enfiler_simple(&mut conn, QueueKind::ClipHd, "clip.mp4");

    for _ in 0..3 {
        let _ = marquer_echec(&mut conn, id, "réseau");
    }

    assert_eq!(relancer_echecs(&mut conn), 1);
    let file = prochains(&conn, EVT, true, 10);
    assert_eq!(file.len(), 1);
    assert_eq!(file[0].attempts, 0);
}

#[test]
fn les_statistiques_distinguent_les_natures() {
    let mut conn = base_de_test();

    enfiler_simple(&mut conn, QueueKind::Frames, "a.jpg");
    enfiler_simple(&mut conn, QueueKind::Frames, "b.jpg");
    enfiler_simple(&mut conn, QueueKind::ClipProxy, "p.mp4");
    enfiler_simple(&mut conn, QueueKind::ClipHd, "h1.mp4");
    enfiler_simple(&mut conn, QueueKind::ClipHd, "h2.mp4");

    let stats = statistiques(&conn, EVT);

    assert_eq!(stats.frames_pending, 2);
    assert_eq!(stats.proxy_pending, 1);
    assert_eq!(stats.hd_pending, 2);
}

#[test]
fn la_purge_ne_touche_que_les_envoyes() {
    let mut conn = base_de_test();

    let envoye = enfiler_simple(&mut conn, QueueKind::Frames, "a.jpg");
    enfiler_simple(&mut conn, QueueKind::ClipHd, "b.mp4");

    marquer_envoye(&mut conn, envoye, "@2");

    assert_eq!(purger_envoyes(&mut conn, "session_1"), 1);
    assert_eq!(prochains(&conn, EVT, true, 10).len(), 1);
}

#[test]
fn la_reprise_ecarte_ce_que_le_serveur_detient() {
    let mut conn = base_de_test();

    ajouter(&mut conn, "session_1", QueueKind::ClipProxy, "p1.mp4", 1);
    ajouter(&mut conn, "session_1", QueueKind::ClipHd, "h1.mp4", 1);
    ajouter(&mut conn, "session_1", QueueKind::ClipProxy, "p2.mp4", 2);

    // The server has all of clip 1, and nothing of clip 2.
    let bilan = reconcilier(&mut conn, "session_1", &vec![(1, true, true)], "@2");

    assert_eq!(bilan.skipped, 2);

    let reste = prochains(&conn, EVT, true, 10);
    assert_eq!(reste.len(), 1);
    assert_eq!(reste[0].clip_index, Some(2));
}

#[test]
fn la_reprise_distingue_les_deux_variantes() {
    let mut conn = base_de_test();

    ajouter(&mut conn, "session_1", QueueKind::ClipProxy, "p1.mp4", 1);
    ajouter(&mut conn, "session_1", QueueKind::ClipHd, "h1.mp4", 1);

    let bilan = reconcilier(&mut conn, "session_1", &vec![(1, true, false)], "@2");

    assert_eq!(bilan.skipped, 1);

    let reste = prochains(&conn, EVT, true, 10);
    assert_eq!(reste.len(), 1);
    assert_eq!(reste[0].kind, QueueKind::ClipHd);
}

#[test]
fn la_reprise_ne_touche_pas_les_autres_sessions() {
    let mut conn = base_de_test();

    ajouter(&mut conn, "session_1", QueueKind::ClipHd, "a.mp4", 1);
    ajouter(&mut conn, "session_2", QueueKind::ClipHd, "b.mp4", 1);

    reconcilier(&mut conn, "session_1", &vec![(1, true, true)], "@2");

    let reste = prochains(&conn, EVT, true, 10);
    assert_eq!(reste.len(), 1);
    assert_eq!(reste[0].session_id, "session_2");
}

#[test]
fn la_reprise_recupere_aussi_les_abandonnes() {
    let mut conn = base_de_test();

    let id = ajouter(&mut conn, "session_1", QueueKind::ClipHd, "a.mp4", 1);

    // Three network failures took it out, though the server had it.
    for _ in 0..3 {
        let _ = marquer_echec(&mut conn, id, "réseau");
    }

    assert_eq!(statistiques(&conn, EVT).failed, 1);

    reconcilier(&mut conn, "session_1", &vec![(1, false, true)], "@2");

    assert_eq!(statistiques(&conn, EVT).failed, 0);
}

#[test]
fn un_serveur_vide_ne_retire_rien() {
    let mut conn = base_de_test();

    enfiler_simple(&mut conn, QueueKind::ClipHd, "a.mp4");

    let bilan = reconcilier(&mut conn, "session_1", &vec![], "@2");

    assert_eq!(bilan.skipped, 0);
    assert_eq!(prochains(&conn, EVT, true, 10).len(), 1);
}

#[test]
fn la_reprise_mesure_ce_quelle_epargne_une_seule_fois() {
    let mut conn = base_de_test();

    enfiler(
        &mut conn, "session_1", EVT, QueueKind::ClipProxy, "p1.mp4", Some(1), Some("a"), Some("b"),
        None, 40, "@1",
    );
    enfiler(
        &mut conn, "session_1", EVT, QueueKind::ClipHd, "h1.mp4", Some(1), None, None, None, 600,
        "@1",
    );
    let rapport = vec![(1, true, true)];

    let bilan = reconcilier(&mut conn, "session_1", &rapport, "@2");
    assert_eq!((bilan.skipped, bilan.bytes_saved), (2, 640));

    let bilan = reconcilier(&mut conn, "session_1", &rapport, "@3");
    assert_eq!((bilan.skipped, bilan.bytes_saved), (0, 0));
    assert_eq!(conn.lignes[0].sent_at, Some("@2".to_string()));
}

#[test]
fn une_nature_se_relit() {
    for kind in [QueueKind::Frames, QueueKind::ClipProxy, QueueKind::ClipHd] {
        assert_eq!(QueueKind::from_str(kind.as_str()), kind);
    }
    assert_eq!(QueueKind::ClipHd.as_str(), "clip_hd");
    assert_eq!(QueueKind::from_str("autre"), QueueKind::Frames);
}

#[test]
fn un_element_enfile_garde_tout_ce_quon_en_dit() {
    let mut conn = base_de_test();

    let id = enfiler(
        &mut conn, "s", EVT, QueueKind::ClipHd, "h.mp4", Some(3), Some("debut"), Some("fin"), None,
        12, "@9",
    );
    let e = &prochains(&conn, EVT, true, 10)[0];

    assert_eq!(e.id, id);
    assert_eq!(e.session_id, "s");
    assert_eq!(e.file_path, "h.mp4");
    assert_eq!(e.clip_index, Some(3));
    assert_eq!(e.started_at, Some("debut".to_string()));
    assert_eq!(e.ended_at, Some("fin".to_string()));
    assert_eq!(e.instant_at, None);
    assert_eq!(e.size_bytes, 12);
    assert_eq!(e.attempts, 0);
    assert_eq!(e.last_error, None);
    assert_eq!(conn.lignes[0].queued_at, "@9");
    assert_eq!(conn.lignes[0].event_id, Some(EVT));
}

#[test]
fn chaque_evenement_a_sa_file() {
    let mut conn = base_de_test();

    let id = enfiler_simple(&mut conn, QueueKind::Frames, "a.jpg");

    assert_eq!(prochains(&conn, EVT + 1, true, 10).len(), 0);
    assert_eq!(statistiques(&conn, EVT + 1).frames_pending, 0);

    // A row without an event may be sent for any, until it belongs to one.
    conn.lignes[0].event_id = None;
    assert_eq!(prochains(&conn, EVT + 1, true, 10).len(), 1);
    attribuer_evenement(&mut conn, id, EVT);
    assert_eq!(prochains(&conn, EVT + 1, true, 10).len(), 0);
    attribuer_evenement(&mut conn, id, EVT + 1);
    assert_eq!(conn.lignes[0].event_id, Some(EVT));
}

#[test]
fn un_element_reserve_nest_pris_quune_fois() {
    let mut conn = base_de_test();
    let id = enfiler_simple(&mut conn, QueueKind::ClipHd, "a.mp4");

    assert!(reserver(&mut conn, id));
    assert!(!reserver(&mut conn, id));
    assert_eq!(prochains(&conn, EVT, true, 10).len(), 0);

    liberer(&mut conn, id);
    assert_eq!(conn.lignes[0].status, StatutVideo::Pending);
    assert!(reserver(&mut conn, id));

    assert_eq!(liberer_orphelins(&mut conn), 1);
    assert_eq!(liberer_orphelins(&mut conn), 0);
    assert_eq!(prochains(&conn, EVT, true, 10).len(), 1);
}

#[test]
fn liberer_ne_touche_que_les_envois_en_cours() {
    let mut conn = base_de_test();
    let id = enfiler_simple(&mut conn, QueueKind::ClipHd, "a.mp4");
    marquer_envoye(&mut conn, id, "@2");

    liberer(&mut conn, id);
    assert_eq!(conn.lignes[0].status, StatutVideo::Sent);
    assert!(!reserver(&mut conn, id));
}

#[test]
fn un_envoi_prend_un_lot_dimages_dune_session() {
    let mut conn = base_de_test();
    for i in 0..12 {
        enfiler_simple(&mut conn, QueueKind::Frames, &format!("a{}.jpg", i));
    }
    ajouter(&mut conn, "session_2", QueueKind::Frames, "b.jpg", 1);
    enfiler_simple(&mut conn, QueueKind::ClipProxy, "p.mp4");

    let premier = reserver_prochain_envoi(&mut conn, EVT, true, 10);
    assert_eq!(premier.len(), 10);
    assert!(premier.iter().all(|e| e.session_id == "session_1"));

    assert_eq!(reserver_prochain_envoi(&mut conn, EVT, true, 10).len(), 2);
    assert_eq!(reserver_prochain_envoi(&mut conn, EVT, true, 10)[0].file_path, "b.jpg");
    assert_eq!(reserver_prochain_envoi(&mut conn, EVT, true, 10)[0].kind, QueueKind::ClipProxy);
    assert_eq!(reserver_prochain_envoi(&mut conn, EVT, true, 10).len(), 0);
}

#[test]
fn les_statistiques_pesent_ce_qui_attend() {
    let mut conn = base_de_test();
    enfiler(
        &mut conn, "s1", EVT, QueueKind::Frames, "a", None, None, None, Some("i"), 10, "@1",
    );
    enfiler(&mut conn, "s2", EVT, QueueKind::ClipHd, "b", None, None, None, None, 500, "@1");
    let c = enfiler(&mut conn, "s1", EVT, QueueKind::ClipProxy, "c", None, None, None, None, 7, "@1");
    marquer_envoye(&mut conn, c, "@2");

    let s = statistiques(&conn, EVT);
    assert_eq!((s.total_bytes, s.hd_bytes), (510, 500));
    assert_eq!((s.frames_sent, s.proxy_sent, s.hd_sent), (0, 1, 0));

    let s = statistiques_filtrees(&conn, EVT, &vec!["s1".to_string()]);
    assert_eq!((s.total_bytes, s.hd_bytes, s.hd_pending), (10, 0, 0));
    assert_eq!((s.frames_pending, s.proxy_sent), (1, 1));
}

#[test]
fn un_echec_en_dit_la_raison() {
    let mut conn = base_de_test();
    let id = enfiler_simple(&mut conn, QueueKind::ClipHd, "a.mp4");

    marquer_echec(&mut conn, id, "réseau");

    let e = &prochains(&conn, EVT, true, 10)[0];
    assert_eq!(e.attempts, 1);
    assert_eq!(e.last_error, Some("réseau".to_string()));
    assert!(!marquer_echec(&mut conn, 99, "inconnu"));
}

#[test]
fn seul_ce_qui_attend_est_propose_et_rien_nest_oublie() {
    let mut file = base_de_test();
    let envoye = ajouter(&mut file, "session_1", QueueKind::Frames, "a.jpg", 1);
    let attend = ajouter(&mut file, "session_1", QueueKind::Frames, "b.jpg", 2);
    let abandonne = ajouter(&mut file, "session_2", QueueKind::ClipProxy, "c.mp4", 3);
    let pris = ajouter(&mut file, "session_2", QueueKind::ClipHd, "d.mp4", 4);
    let autre = ajouter(&mut file, "session_3", QueueKind::ClipHd, "e.mp4", 5);

    marquer_envoye(&mut file, envoye, "@2");
    for _ in 0..3 {
        marquer_echec(&mut file, abandonne, "refus");
    }
    assert!(reserver(&mut file, pris));

    let ids: Vec<i64> = prochains(&file, EVT, true, 10).iter().map(|e| e.id).collect();
    assert_eq!(ids, vec![attend, autre]);
}
