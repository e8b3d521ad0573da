use agent_terrain::watcher::{
    accueillir, date_modification, is_excluded_dir, is_valid_jpeg, photos_presentes, raison_refus,
    travail, Accueil, Annonce, Etape, Registre, Stabilite, MAX_FILE_SIZE, MIN_FILE_SIZE,
    VERIFICATIONS_SIMULTANEES,
};

fn annoncer(r: &mut Registre, chemin: &str) -> Annonce {
    r.annoncer(chemin, Some("a.jpg"))
}

#[test]
fn reconnait_une_photo() {
    for nom in ["a.jpg", "A.JPG", "a.b.jpeg", "IMG_1.JPeG"] {
        assert!(is_valid_jpeg(nom), "{}", nom);
    }
    for nom in ["a.png", "a", ".jpg", ".a.jpg", "~a.jpg", "a.jpg.tmp", "a.jpg.TMP", "jpg", "a.", ""] {
        assert!(!is_valid_jpeg(nom), "{}", nom);
    }
}

#[test]
fn ecarte_les_dossiers_de_service() {
    for nom in ["Rejects", "RAW", ".thumbnails", "@eaDir", "Thumbs", ".git"] {
        assert!(is_excluded_dir(nom), "{}", nom);
    }
    for nom in ["Photos", "raw", "Thumbs2"] {
        assert!(!is_excluded_dir(nom), "{}", nom);
    }
}

#[test]
fn prend_les_photos_dans_lordre_de_leur_chemin() {
    let chemins: Vec<Vec<String>> = [
        vec!["c", "b.jpg"],
        vec!["c", "a.png"],
        vec!["c", "a", "z.jpg"],
        vec!["c", "a.jpg"],
    ]
    .iter()
    .map(|c| c.iter().map(|s| s.to_string()).collect())
    .collect();

    assert_eq!(photos_presentes(&chemins), vec![2, 3, 0]);
}

#[test]
fn deux_mesures_egales_suffisent() {
    let mut s = Stabilite::new();

    assert_eq!(s.mesurer(Some(60_000)), Etape::Attendre);
    assert_eq!(s.mesurer(Some(60_000)), Etape::Verdict(Some(60_000)));
}

#[test]
fn un_fichier_qui_grossit_encore_est_refuse() {
    let mut s = Stabilite::new();
    let mut taille = 60_000;

    for essai in 0..3 {
        assert_eq!(s.mesurer(Some(taille)), Etape::Attendre);
        taille += 1;
        let attendu = if essai < 2 { Etape::Remesurer } else { Etape::Attendre };
        assert_eq!(s.mesurer(Some(taille)), attendu);
    }
    let mut immobile = s;

    // It has grown again at the last measure.
    assert_eq!(s.mesurer(Some(taille + 1)), Etape::Verdict(None));
    // It has held still since the measure before.
    assert_eq!(immobile.mesurer(Some(taille)), Etape::Verdict(Some(taille)));
}

#[test]
fn un_fichier_trop_petit_est_refuse() {
    let mut s = Stabilite::new();
    for essai in 0..3 {
        assert_eq!(s.mesurer(Some(MIN_FILE_SIZE - 1)), Etape::Attendre);
        let attendu = if essai < 2 { Etape::Remesurer } else { Etape::Attendre };
        assert_eq!(s.mesurer(Some(MIN_FILE_SIZE - 1)), attendu);
    }
    assert_eq!(s.mesurer(Some(MIN_FILE_SIZE - 1)), Etape::Verdict(None));

    let mut s = Stabilite::new();
    assert_eq!(s.mesurer(None), Etape::Verdict(None));
}

#[test]
fn une_seule_verification_a_la_fois() {
    let mut r = Registre::new();

    assert_eq!(annoncer(&mut r, "a"), Annonce::Verifier);
    assert_eq!(annoncer(&mut r, "a"), Annonce::Noter);
    assert_eq!(annoncer(&mut r, "b"), Annonce::Verifier);

    // It moved during the check, which did not take it.
    assert!(r.conclure("a", false));
    assert_eq!(annoncer(&mut r, "a"), Annonce::Noter);

    // It is taken: a new announcement starts over.
    assert!(!r.conclure("a", true));
    assert_eq!(annoncer(&mut r, "a"), Annonce::Verifier);
    assert!(!r.conclure("b", false));
    assert!(!r.conclure("inconnu", false));
}

#[test]
fn seules_des_photos_sont_verifiees() {
    let mut r = Registre::new();

    assert_eq!(r.annoncer("d/notes.txt", Some("notes.txt")), Annonce::Ignorer);
    assert_eq!(r.annoncer("d/.cachee.jpg", Some(".cachee.jpg")), Annonce::Ignorer);
    assert_eq!(r.annoncer("d", None), Annonce::Ignorer);
    assert!(r.suivis.is_empty());
    assert_eq!(r.annoncer("d/a.jpg", Some("a.jpg")), Annonce::Verifier);
}

#[test]
fn seize_verifications_au_plus() {
    let mut r = Registre::new();

    for i in 0..VERIFICATIONS_SIMULTANEES {
        assert_eq!(annoncer(&mut r, &format!("p{}", i)), Annonce::Verifier);
    }
    assert_eq!(annoncer(&mut r, "de_trop"), Annonce::Patienter);
    // A file that is being checked is still noted.
    assert_eq!(annoncer(&mut r, "p3"), Annonce::Noter);
    assert!(r.conclure("p3", false));
    assert_eq!(annoncer(&mut r, "de_trop"), Annonce::Patienter);

    // A check has ended: there is room.
    assert!(!r.conclure("p3", true));
    assert_eq!(annoncer(&mut r, "de_trop"), Annonce::Verifier);
}

#[test]
fn un_fichier_stable_est_inscrit() {
    let nom = Some("a.jpg".to_string());

    assert_eq!(accueillir(&nom, MAX_FILE_SIZE), Accueil::Inscrire);
    assert_eq!(accueillir(&nom, MAX_FILE_SIZE + 1), Accueil::TropVolumineux);
    assert_eq!(accueillir(&None, 60_000), Accueil::Ignorer);
    assert_eq!(raison_refus("21.5"), "Trop volumineux (21.5 Mo, max 20 Mo)");
    assert_eq!(date_modification(Some(12)), "12");
    assert_eq!(date_modification(None), "");

    assert!(travail(None, 1, "c", "n", 5).is_none());
    let t = travail(Some(9), 1, "c", "n", 5).unwrap();
    assert_eq!((t.db_file_id, t.session_id, t.file_size), (9, 1, 5));
    assert_eq!((t.file_path.as_str(), t.filename.as_str()), ("c", "n"));
}
