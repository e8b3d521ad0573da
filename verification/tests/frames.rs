use agent_terrain::chrono_simple::{bissextile, decomposer, Instant};
use agent_terrain::frames::{
    arguments_extraction, dater_images, derniers_caracteres, morceau_introuvable, motif_images,
    prefixe_images, recenser_images, ImageTrouvee,
};

#[test]
fn formate_une_date_connue() {
    // Noon, 1 January 2026, universal time.
    let instant = Instant::depuis_millis(1_767_268_800_000);

    assert_eq!(instant.to_iso8601(), "2026-01-01T12:00:00.000Z");
}

#[test]
fn ajoute_correctement_les_millisecondes() {
    let depart = Instant::depuis_millis(1_767_268_800_000);
    let deux_secondes_plus_tard = depart.plus_millis(2000);

    assert_eq!(deux_secondes_plus_tard.to_iso8601(), "2026-01-01T12:00:02.000Z");
}

#[test]
fn gere_le_passage_a_lheure_suivante() {
    let instant = Instant::depuis_millis(1_767_272_399_000);
    let apres = instant.plus_millis(1000);

    assert_eq!(apres.to_iso8601(), "2026-01-01T13:00:00.000Z");
}

#[test]
fn reconnait_les_annees_bissextiles() {
    // 29 February 2024.
    let instant = Instant::depuis_millis(1_709_208_000_000);
    let texte = instant.to_iso8601();

    assert!(texte.starts_with("2024-02-29"), "obtenu : {}", texte);
}

#[test]
fn le_calendrier_suit_la_regle_gregorienne() {
    assert!(bissextile(2000));
    assert!(!bissextile(2100));
    assert!(bissextile(2024));
    assert!(!bissextile(2023));
    assert!(bissextile(-4));
    assert!(!bissextile(-100));
    assert!(bissextile(-400));

    assert_eq!(decomposer(0), (1970, 1, 1, 0, 0, 0));
    assert_eq!(decomposer(951_782_399), (2000, 2, 28, 23, 59, 59));
    assert_eq!(decomposer(951_782_400), (2000, 2, 29, 0, 0, 0));
    assert_eq!(decomposer(4_107_542_399), (2100, 2, 28, 23, 59, 59));
    assert_eq!(decomposer(4_107_542_400), (2100, 3, 1, 0, 0, 0));
}

#[test]
fn ecrit_les_instants_davant_1970() {
    let iso = |millis: i64| Instant::depuis_millis(millis).to_iso8601();

    assert_eq!(iso(-1), "1969-12-31T23:59:59.999Z");
    assert_eq!(iso(-86_400_000), "1969-12-31T00:00:00.000Z");
    assert_eq!(iso(-90_061_001), "1969-12-30T22:58:58.999Z");
    // 1900 is no leap year.
    assert_eq!(iso(-2_203_891_200_000), "1900-03-01T00:00:00.000Z");
    assert_eq!(iso(-2_203_891_200_001), "1900-02-28T23:59:59.999Z");
    assert_eq!(iso(-62_167_219_200_000), "0000-01-01T00:00:00.000Z");
    assert_eq!(decomposer(-1), (1969, 12, 31, 23, 59, 59));
}

#[test]
fn les_dates_se_comparent_comme_du_texte() {
    let instants = [
        -62_167_219_200_000, -86_400_001, -86_400_000, -1, 0, 999, 1000, 59_999, 60_000,
        86_399_999, 86_400_000, 951_782_399_999, 951_782_400_000, 1_767_268_800_000,
        253_402_300_799_999,
    ];

    for i in 1..instants.len() {
        let avant = Instant::depuis_millis(instants[i - 1]).to_iso8601();
        let apres = Instant::depuis_millis(instants[i]).to_iso8601();
        assert!(avant < apres, "{} {}", avant, apres);
    }
    assert_eq!(
        Instant::depuis_millis(253_402_300_799_999).to_iso8601(),
        "9999-12-31T23:59:59.999Z"
    );
}

#[test]
fn lhorloge_donne_linstant_present() {
    assert!(Instant::maintenant().millis() > 1_700_000_000_000);
    assert_eq!(Instant::depuis_lecture(Some(12)).millis(), 12);
    assert_eq!(Instant::depuis_lecture(None).millis(), 0);
}

#[test]
fn tronque_les_journaux_trop_longs() {
    let long = "x".repeat(1000);
    let court = derniers_caracteres(&long, 100);

    assert_eq!(court.len(), 100);
}

#[test]
fn conserve_les_journaux_courts_entiers() {
    let texte = "erreur brève";

    assert_eq!(derniers_caracteres(texte, 400), texte);
    assert_eq!(derniers_caracteres(texte, 5), "brève");
}

#[test]
fn nomme_les_images_dapres_leur_morceau() {
    assert_eq!(prefixe_images(3), "img_000003_");
    assert_eq!(motif_images(3), "img_000003_%03d.jpg");
    assert_eq!(
        morceau_introuvable(3),
        "Le morceau 3 est introuvable — extraction impossible."
    );

    let args = arguments_extraction("m.mp4", "0.5", "img_%03d.jpg");
    assert_eq!(args[4], "fps=0.5,scale='min(1920,iw)':-2");
    assert_eq!(args[6], "6");
    assert_eq!(args[8], "img_%03d.jpg");
}

#[test]
fn recense_les_images_dans_lordre() {
    let noms: Vec<String> = [
        "img_000003_010.jpg",
        "img_000003_002.jpg",
        "img_000004_001.jpg",
        "images.jsonl",
        "img_000003_001.jpg",
    ]
    .iter()
    .map(|n| n.to_string())
    .collect();

    assert_eq!(recenser_images(3, &noms), vec![4, 1, 0]);
    assert_eq!(recenser_images(9, &noms), Vec::<usize>::new());
}

#[test]
fn date_chaque_image_a_son_rang() {
    let debut = Instant::depuis_millis(1_767_268_800_000);
    let image = |n: u32, taille: Option<u64>, decalage_ms: i64| ImageTrouvee {
        filename: format!("img_{}", n),
        path: format!("/a/img_{}", n),
        taille,
        decalage_ms,
    };

    let images = vec![image(1, Some(10), 0), image(2, None, 2000), image(3, Some(7), 4000)];
    let resultat = dater_images(5, &debut, &images, "").ok().unwrap();

    assert_eq!(resultat.segment_index, 5);
    assert_eq!(resultat.total_bytes, 17);
    assert_eq!(resultat.frames.len(), 2);
    assert_eq!(resultat.frames[1].filename, "img_3");
    assert_eq!(resultat.frames[1].path, "/a/img_3");
    assert_eq!(resultat.frames[1].size_bytes, 7);
    assert_eq!(resultat.frames[1].instant_at, "2026-01-01T12:00:04.000Z");

    let erreur = dater_images(5, &debut, &vec![image(2, None, 0)], "panne").err().unwrap();
    assert_eq!(erreur, "Aucune image extraite du morceau 5.\n\nJournal FFmpeg :\npanne");
}
