use agent_terrain::database::{
    chrono_now, create_session, dossier_de, dossier_donnees, get_failed_files, get_session_stats,
    horodater, init_db, insert_file, reset_failed_files, reset_file, resumer, stop_session,
    tout_est_parti, update_file_status, BasePhotos, StatutPhoto, DOSSIER_DONNEES,
};

fn base_de_test() -> (BasePhotos, i64) {
    let mut base = init_db();
    let session = create_session(
        &mut base, 12, "Trail", Some(4), Some("Col"), "C:\\Photos", true, 3, "100",
    );
    (base, session)
}

fn ajouter(base: &mut BasePhotos, session: i64, nom: &str) -> i64 {
    insert_file(base, session, nom, &format!("C:\\Photos\\{}", nom), 60_000, "99")
        .unwrap()
        .unwrap()
}

#[test]
fn la_production_garde_son_dossier_de_donnees() {
    for edition in [None, Some(""), Some("  "), Some("DEV"), Some(" Préprod ")] {
        let dossier = dossier_donnees(edition.unwrap_or(""));

        match edition.map(str::trim).filter(|e| !e.is_empty()) {
            None => {
                assert_eq!(dossier, "com.attimo-gallery.agent");
                assert_eq!(DOSSIER_DONNEES, "com.attimo-gallery.agent");
            }
            Some(edition) => assert_eq!(
                dossier,
                format!("com.attimo-gallery.agent.{}", edition.to_lowercase())
            ),
        }
    }
}

#[test]
fn chaque_edition_a_son_dossier() {
    assert_eq!(dossier_donnees("DEV"), "com.attimo-gallery.agent.dev");
    assert_eq!(dossier_donnees(" ÉTÉ "), "com.attimo-gallery.agent.été");
    assert_eq!(dossier_de("dev"), "com.attimo-gallery.agent.dev");
    assert_ne!(dossier_de("dev"), dossier_de("dev2"));
    assert_ne!(dossier_de("dev"), dossier_de(""));
}

#[test]
fn lheure_secrit_en_secondes() {
    assert_eq!(horodater(Some(1_767_268_800_999)), "1767268800");
    assert_eq!(horodater(None), "0");
    assert!(chrono_now().parse::<u64>().unwrap() > 1_700_000_000);
}

#[test]
fn une_photo_nest_inscrite_quune_fois_par_session() {
    let (mut base, session) = base_de_test();

    assert_eq!(insert_file(&mut base, session, "a.jpg", "p", 1, "d"), Ok(Some(1)));
    assert_eq!(insert_file(&mut base, session, "a.jpg", "autre", 2, "d"), Ok(None));
    assert_eq!(insert_file(&mut base, session, "b.jpg", "p", 1, "d"), Ok(Some(2)));

    let autre = create_session(&mut base, 12, "Trail", None, None, "D:", false, 3, "200");
    assert_ne!(autre, session);
    assert_eq!(insert_file(&mut base, autre, "a.jpg", "p", 1, "d"), Ok(Some(3)));

    assert!(insert_file(&mut base, 99, "a.jpg", "p", 1, "d").is_err());
    assert_eq!(base.photos.len(), 3);
    assert_eq!(base.photos[0].file_path, "p");
}

#[test]
fn les_comptes_dune_session_saccordent() {
    let (mut base, session) = base_de_test();
    let a = ajouter(&mut base, session, "a.jpg");
    let b = ajouter(&mut base, session, "b.jpg");
    let c = ajouter(&mut base, session, "c.jpg");
    ajouter(&mut base, session, "d.jpg");

    update_file_status(&mut base, a, StatutPhoto::Success, None, Some(77), "150");
    update_file_status(&mut base, b, StatutPhoto::Failed, Some("réseau"), None, "151");
    update_file_status(&mut base, c, StatutPhoto::Uploading, None, None, "152");

    let s = get_session_stats(&base, session);
    assert_eq!((s.total, s.sent, s.pending, s.uploading, s.failed), (4, 1, 1, 1, 1));
    assert_eq!(resumer(&s), (1, 2, 1));
    assert!(!tout_est_parti(&s));

    assert_eq!(base.photos[0].server_photo_id, Some(77));
    assert_eq!(base.photos[0].uploaded_at, Some("150".to_string()));

    let inconnue = get_session_stats(&base, 99);
    assert_eq!(inconnue.total, 0);
}

#[test]
fn les_echecs_se_listent_et_se_relancent() {
    let (mut base, session) = base_de_test();
    let a = ajouter(&mut base, session, "a.jpg");
    let b = ajouter(&mut base, session, "b.jpg");
    update_file_status(&mut base, a, StatutPhoto::Failed, Some("réseau"), None, "1");
    update_file_status(&mut base, b, StatutPhoto::Failed, Some("délai"), None, "2");

    let echecs = get_failed_files(&base, session);
    assert_eq!(echecs.len(), 2);
    assert_eq!(echecs[0].filename, "a.jpg");
    assert_eq!(echecs[0].status, "failed");
    assert_eq!(echecs[0].last_error, Some("réseau".to_string()));
    assert_eq!(echecs[0].attempts, 1);

    reset_file(&mut base, a);
    assert_eq!(get_failed_files(&base, session).len(), 1);

    assert_eq!(reset_failed_files(&mut base, session), 1);
    assert_eq!(get_failed_files(&base, session).len(), 0);
    assert_eq!(get_session_stats(&base, session).pending, 2);
}

#[test]
fn une_session_arretee_garde_sa_date() {
    let (mut base, session) = base_de_test();
    let a = ajouter(&mut base, session, "a.jpg");
    update_file_status(&mut base, a, StatutPhoto::Success, None, None, "150");

    stop_session(&mut base, session, "200");

    assert_eq!(base.sessions[0].stopped_at, Some("200".to_string()));
    assert_eq!(base.sessions[0].started_at, "100");
    assert!(tout_est_parti(&get_session_stats(&base, session)));
}

#[test]
fn un_statut_se_relit() {
    for s in [
        StatutPhoto::Pending,
        StatutPhoto::Uploading,
        StatutPhoto::Success,
        StatutPhoto::Failed,
    ] {
        assert_eq!(StatutPhoto::lire(s.as_str()), Some(s));
    }
    assert_eq!(StatutPhoto::lire("autre"), None);
    assert_eq!(StatutPhoto::Success.as_str(), "success");
}
