use agent_terrain::capture::{
    arguments_liste, arguments_options, extraire_apres, extraire_dernier,
    extraire_entre_guillemets, extraire_valeur, parser_liste_peripheriques, parser_options,
    parser_resolution, suggest_best_option, version_annoncee, DeviceKind, DeviceOption,
};

fn option(width: u32, height: u32, max_fps: f32, pixel_format: &str) -> DeviceOption {
    let cadence = if max_fps.is_nan() { None } else { Some((max_fps * 1000.0) as i64) };

    DeviceOption { width, height, cadence, pixel_format: pixel_format.to_string() }
}

#[test]
fn separe_bien_video_et_audio() {
    let sortie = r#"
[dshow @ 000] DirectShow video devices (some may be both video and audio devices)
[dshow @ 000]  "Iriun Webcam"
[dshow @ 000]     Alternative name "@device_pnp_\\?\usb#vid_046d"
[dshow @ 000] DirectShow audio devices
[dshow @ 000]  "Microphone (Iriun Webcam)"
[dshow @ 000]     Alternative name "@device_cm_{33D9A762}"
"#;

    let peripheriques = parser_liste_peripheriques(sortie);

    assert_eq!(peripheriques.len(), 2);
    assert_eq!(peripheriques[0].name, "Iriun Webcam");
    assert_eq!(peripheriques[0].kind, DeviceKind::Video);
    assert_eq!(peripheriques[1].kind, DeviceKind::Audio);
}

#[test]
fn ignore_les_noms_techniques() {
    let sortie = r#"
[dshow @ 000] DirectShow video devices
[dshow @ 000]  "Canon EOS Webcam Utility"
[dshow @ 000]     Alternative name "@device_pnp_\\?\usb#vid_04a9#pid_32c1"
"#;

    let peripheriques = parser_liste_peripheriques(sortie);

    assert_eq!(peripheriques.len(), 1);
    assert_eq!(peripheriques[0].name, "Canon EOS Webcam Utility");
}

#[test]
fn lit_aussi_le_type_en_fin_de_ligne() {
    let sortie = "[in#0 @ 1] \"Iriun Webcam\" (video)\r\n[in#0 @ 1]   Alternative name \"@dev\"\n[in#0 @ 1] \"Microphone (Iriun Webcam)\" (audio)  \n[in#0 @ 1] \"Inconnu\" (none)\n[in#0 @ 1] \"\" (video)\n";

    let peripheriques = parser_liste_peripheriques(sortie);

    assert_eq!(peripheriques.len(), 2);
    assert_eq!(peripheriques[0].name, "Iriun Webcam");
    assert_eq!(peripheriques[0].kind, DeviceKind::Video);
    assert_eq!(peripheriques[1].name, "Microphone (Iriun Webcam)");
    assert_eq!(peripheriques[1].kind, DeviceKind::Audio);
}

#[test]
fn lit_les_resolutions_annoncees() {
    let sortie = r#"
[dshow @ 000]   pixel_format=yuyv422  min s=640x480 fps=5 max s=1920x1080 fps=30
[dshow @ 000]   pixel_format=mjpeg  min s=640x480 fps=5 max s=1280x720 fps=60
"#;

    let options = parser_options(sortie);

    assert_eq!(options.len(), 2);
    assert_eq!(options[0].width, 1920);
    assert_eq!(options[0].height, 1080);
    assert_eq!(options[0].pixel_format, "yuyv422");
    assert_eq!(options[0].fps_min, Some("5".to_string()));
    assert_eq!(options[0].fps_max, Some("30".to_string()));
}

#[test]
fn un_mode_repete_nest_liste_quune_fois() {
    let ligne = "vcodec=mjpeg  max s=1280x720 fps=60.0002\n";
    let sortie = format!(
        "{}{}max s=1280x720 fps=60\nmax s=12x fps=3\nmax s=\nautre chose\n",
        ligne, ligne
    );

    let options = parser_options(&sortie);

    assert_eq!(options.len(), 2);
    assert_eq!(options[0].pixel_format, "mjpeg");
    assert_eq!(options[0].fps_min, None);
    assert_eq!(options[0].fps_max, Some("60.0002".to_string()));
    assert_eq!(options[1].pixel_format, "inconnu");
}

#[test]
fn propose_le_full_hd_en_priorite() {
    let options = vec![
        option(640, 480, 30.0, "yuyv422"),
        option(1920, 1080, 30.0, "mjpeg"),
        option(1280, 720, 60.0, "mjpeg"),
    ];

    let choix = suggest_best_option(&options).unwrap();

    assert_eq!(options[choix].width, 1920);
}

#[test]
fn se_rabat_sur_la_plus_haute_definition() {
    let options = vec![option(640, 480, 30.0, "yuyv422"), option(1280, 720, 60.0, "mjpeg")];

    let choix = suggest_best_option(&options).unwrap();

    assert_eq!(options[choix].width, 1280);
}

#[test]
fn prefere_la_cadence_puis_le_dernier() {
    let options = vec![
        option(1920, 1080, 60.0, "a"),
        option(1920, 1080, 30.0, "b"),
        option(1920, 1080, 60.0, "c"),
        option(1920, 1080, 25.0, "d"),
    ];
    assert_eq!(suggest_best_option(&options), Some(2));

    let options = vec![
        option(100, 50, 60.0, "a"),
        option(50, 100, 30.0, "b"),
        option(70, 70, 60.0, "c"),
    ];
    assert_eq!(suggest_best_option(&options), Some(1));

    assert_eq!(suggest_best_option(&vec![]), None);
}

#[test]
fn lit_les_valeurs_dune_ligne() {
    let ligne = "min s=640x480 fps=5 max s=1920x1080 fps=30";

    assert_eq!(extraire_valeur(ligne, "max s="), Some("1920x1080".to_string()));
    assert_eq!(extraire_apres(ligne, "fps="), Some("5".to_string()));
    assert_eq!(extraire_dernier(ligne, "fps="), Some("30".to_string()));
    assert_eq!(extraire_valeur(ligne, "vcodec="), None);
    assert_eq!(extraire_valeur("fps= 3", "fps="), None);

    assert_eq!(extraire_entre_guillemets("a \"b c\" \"d\""), Some("b c".to_string()));
    assert_eq!(extraire_entre_guillemets("a \"b"), None);
    assert_eq!(extraire_entre_guillemets("\"\""), Some(String::new()));

    assert_eq!(parser_resolution("1920x1080"), Some((1920, 1080)));
    assert_eq!(parser_resolution("1920"), None);
    assert_eq!(parser_resolution("1x2x3"), None);
    assert_eq!(parser_resolution("4294967296x1"), None);
}

#[test]
fn interroge_ffmpeg() {
    assert_eq!(arguments_liste()[1], "-list_devices");
    assert_eq!(arguments_liste()[6], "dummy");
    assert_eq!(arguments_options("Cam")[6], "video=Cam");

    assert_eq!(version_annoncee(" ffmpeg version 7 \nautre"), Ok("ffmpeg version 7".to_string()));
    assert_eq!(
        version_annoncee(""),
        Err("FFmpeg n'a produit aucune réponse.".to_string())
    );
}

#[test]
fn un_nom_peut_porter_les_mots_dun_titre() {
    let sortie = r#"
[dshow @ 000] DirectShow audio devices
[in#0 @ 000] "DirectShow video devices" (audio)
[in#0 @ 000] "Micro DirectShow audio devices" (video)
[dshow @ 000]  "Boîtier DirectShow video devices"
[dshow @ 000]  "Micro"
"#;
    let vus: Vec<(String, DeviceKind)> =
        parser_liste_peripheriques(sortie).into_iter().map(|d| (d.name, d.kind)).collect();

    assert_eq!(
        vus,
        vec![
            ("DirectShow video devices".to_string(), DeviceKind::Audio),
            ("Micro DirectShow audio devices".to_string(), DeviceKind::Video),
            ("Boîtier DirectShow video devices".to_string(), DeviceKind::Audio),
            ("Micro".to_string(), DeviceKind::Audio),
        ]
    );
}
