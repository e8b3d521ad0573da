//! Capture devices: which ones are plugged in, and what they can do.
//!
//! FFmpeg answers in prose; this module reads it.

use crate::texte;
use vstd::prelude::*;

verus! {

/// What a device captures.
#[derive(Clone, Copy, PartialEq, Eq, Structural, Debug)]
pub enum DeviceKind {
    Video,
    Audio,
}

/// A device, under the exact name that opens it.
pub struct VideoDevice {
    pub name: String,
    pub kind: DeviceKind,
}

// ─── The list of devices ───────────────────────────────────────────────

/// The arguments by which FFmpeg lists the devices.
pub fn arguments_liste() -> (r: Vec<String>)
    ensures
        texte::vues(r@) == seq![
            "-hide_banner"@,
            "-list_devices"@,
            "true"@,
            "-f"@,
            "dshow"@,
            "-i"@,
            "dummy"@,
        ],
{
    let mut args: Vec<String> = Vec::new();
    texte::ajouter(&mut args, "-hide_banner");
    texte::ajouter(&mut args, "-list_devices");
    texte::ajouter(&mut args, "true");
    texte::ajouter(&mut args, "-f");
    texte::ajouter(&mut args, "dshow");
    texte::ajouter(&mut args, "-i");
    texte::ajouter(&mut args, "dummy");
    args
}

/// The arguments by which FFmpeg lists the modes of a device.
pub fn arguments_options(device_name: &str) -> (r: Vec<String>)
    ensures
        texte::vues(r@) == seq![
            "-hide_banner"@,
            "-list_options"@,
            "true"@,
            "-f"@,
            "dshow"@,
            "-i"@,
            "video="@ + device_name@,
        ],
{
    let mut args: Vec<String> = Vec::new();
    texte::ajouter(&mut args, "-hide_banner");
    texte::ajouter(&mut args, "-list_options");
    texte::ajouter(&mut args, "true");
    texte::ajouter(&mut args, "-f");
    texte::ajouter(&mut args, "dshow");
    texte::ajouter(&mut args, "-i");
    let entree = texte::joindre("video=", device_name);
    texte::ajouter(&mut args, entree.as_str());
    args
}

/// The kind that a line states in brackets at its end. A name may hold
/// brackets too: only the last ones count.
pub open spec fn marque(ligne: Seq<char>) -> Option<DeviceKind> {
    let l = texte::rogne_fin(ligne);
    if texte::finit_par(l, "(audio)"@) {
        Some(DeviceKind::Audio)
    } else if texte::finit_par(l, "(video)"@) {
        Some(DeviceKind::Video)
    } else {
        None
    }
}

/// What stands before the first quotation mark.
pub open spec fn hors_guillemets(ligne: Seq<char>) -> Seq<char> {
    match texte::saut(ligne, '"') {
        None => ligne,
        Some(debut) => ligne.take(debut),
    }
}

/// A section header: the devices below it are of this kind. A line that
/// states a kind of its own is no header, and neither is one that has the
/// words of a header within a name only.
pub open spec fn entete(ligne: Seq<char>) -> Option<DeviceKind> {
    let titre = hors_guillemets(ligne);
    if marque(ligne) is Some {
        None
    } else if texte::contient(titre, "DirectShow video devices"@) {
        Some(DeviceKind::Video)
    } else if texte::contient(titre, "DirectShow audio devices"@) {
        Some(DeviceKind::Audio)
    } else {
        None
    }
}

/// The section in which the line after these stands.
pub open spec fn section(lignes: Seq<Seq<char>>) -> Option<DeviceKind>
    decreases lignes.len(),
{
    if lignes.len() == 0 {
        None
    } else if entete(lignes.last()) is Some {
        entete(lignes.last())
    } else {
        section(lignes.drop_last())
    }
}

/// The text between the first two quotation marks.
pub open spec fn entre_guillemets(ligne: Seq<char>) -> Option<Seq<char>> {
    match texte::saut(ligne, '"') {
        None => None,
        Some(debut) => {
            let reste = ligne.skip(debut + 1);
            match texte::saut(reste, '"') {
                None => None,
                Some(fin) => Some(reste.take(fin)),
            }
        },
    }
}

/// The kind that a line states: in brackets at its end, or else by its
/// section.
pub open spec fn nature(ligne: Seq<char>, section: Option<DeviceKind>) -> Option<DeviceKind> {
    match marque(ligne) {
        Some(kind) => Some(kind),
        None => section,
    }
}

/// The device that a line names, if it names one. System identifiers are not
/// names.
pub open spec fn appareil(ligne: Seq<char>, section: Option<DeviceKind>) -> Option<
    (Seq<char>, DeviceKind),
> {
    if entete(ligne) is Some || texte::contient(ligne, "Alternative name"@) {
        None
    } else {
        match (nature(ligne, section), entre_guillemets(ligne)) {
            (Some(kind), Some(nom)) => if nom.len() > 0 {
                Some((nom, kind))
            } else {
                None
            },
            _ => None,
        }
    }
}

/// The devices that these lines name, in order.
pub open spec fn appareils(lignes: Seq<Seq<char>>) -> Seq<(Seq<char>, DeviceKind)>
    decreases lignes.len(),
{
    if lignes.len() == 0 {
        Seq::empty()
    } else {
        let avant = appareils(lignes.drop_last());
        match appareil(lignes.last(), section(lignes.drop_last())) {
            Some(a) => avant.push(a),
            None => avant,
        }
    }
}

/// The view of a list of devices.
pub open spec fn vues(v: Seq<VideoDevice>) -> Seq<(Seq<char>, DeviceKind)> {
    v.map_values(|d: VideoDevice| (d.name@, d.kind))
}

fn lire_marque(ligne: &Vec<char>) -> (r: Option<DeviceKind>)
    ensures
        r == marque(ligne@),
{
    let nettoyee = texte::rogner_fin(ligne);
    if texte::finit(&nettoyee, &texte::caracteres("(audio)")) {
        Some(DeviceKind::Audio)
    } else if texte::finit(&nettoyee, &texte::caracteres("(video)")) {
        Some(DeviceKind::Video)
    } else {
        None
    }
}

fn lire_entete(ligne: &Vec<char>) -> (r: Option<DeviceKind>)
    ensures
        r == entete(ligne@),
{
    if lire_marque(ligne).is_some() {
        return None;
    }
    assert(ligne@.skip(0) =~= ligne@);
    let fin: usize = match texte::chercher_saut(ligne, '"', 0) {
        None => ligne.len(),
        Some(debut) => debut,
    };
    let titre = texte::tranche(ligne, 0, fin);
    assert(titre@ =~= hors_guillemets(ligne@));
    if texte::contient_motif(&titre, &texte::caracteres("DirectShow video devices")) {
        Some(DeviceKind::Video)
    } else if texte::contient_motif(&titre, &texte::caracteres("DirectShow audio devices")) {
        Some(DeviceKind::Audio)
    } else {
        None
    }
}

fn lire_guillemets(v: &Vec<char>) -> (r: Option<Vec<char>>)
    ensures
        match r {
            Some(n) => entre_guillemets(v@) == Some(n@),
            None => entre_guillemets(v@) is None,
        },
{
    assert(v@.skip(0) =~= v@);
    match texte::chercher_saut(v, '"', 0) {
        None => None,
        Some(debut) => {
            assert(debut < v.len());
            match texte::chercher_saut(v, '"', debut + 1) {
                None => None,
                Some(fin) => {
                    let nom = texte::tranche(v, debut + 1, fin);
                    assert(nom@ =~= v@.skip(debut + 1).take(fin - debut - 1));
                    Some(nom)
                },
            }
        },
    }
}

/// The text between the first two quotation marks of a line.
pub fn extraire_entre_guillemets(ligne: &str) -> (r: Option<String>)
    ensures
        texte::vue(r) == entre_guillemets(ligne@),
{
    match lire_guillemets(&texte::caracteres(ligne)) {
        Some(n) => Some(texte::en_texte(&n)),
        None => None,
    }
}

/// Reads the devices in FFmpeg's output.
///
/// The kind of a device is written in brackets at the end of its line, or
/// given once for a whole section:
///
/// ```text
/// [in#0 @ ...] "Microphone (Iriun Webcam)" (audio)
///
/// [dshow @ ...] DirectShow audio devices
/// [dshow @ ...]  "Microphone (Iriun Webcam)"
/// [dshow @ ...]     Alternative name "@device_cm_..."
/// ```
pub fn parser_liste_peripheriques(sortie: &str) -> (r: Vec<VideoDevice>)
    ensures
        vues(r@) == appareils(texte::lignes(sortie@)),
{
    let lignes = texte::en_lignes(&texte::caracteres(sortie));
    let technique = texte::caracteres("Alternative name");
    let ghost toutes = texte::vues_car(lignes@);
    let mut courante: Option<DeviceKind> = None;
    let mut r: Vec<VideoDevice> = Vec::new();
    let mut i: usize = 0;
    assert(vues(r@) =~= appareils(toutes.take(0)));
    while i < lignes.len()
        invariant
            i <= lignes@.len(),
            toutes == texte::vues_car(lignes@),
            technique@ == "Alternative name"@,
            courante == section(toutes.take(i as int)),
            vues(r@) == appareils(toutes.take(i as int)),
        decreases lignes@.len() - i,
    {
        let ligne = &lignes[i];
        assert(toutes.take(i + 1).drop_last() =~= toutes.take(i as int));
        assert(toutes.take(i + 1).last() == ligne@);
        let titre = lire_entete(ligne);
        if titre.is_some() {
            courante = titre;
        } else if !texte::contient_motif(ligne, &technique) {
            let kind: Option<DeviceKind> = match lire_marque(ligne) {
                Some(kind) => Some(kind),
                None => courante,
            };
            match kind {
                Some(kind) => {
                    match lire_guillemets(ligne) {
                        Some(nom) => if nom.len() > 0 {
                            let ghost avant = r@;
                            r.push(VideoDevice { name: texte::en_texte(&nom), kind });
                            assert(vues(r@) =~= vues(avant).push((nom@, kind)));
                        },
                        None => {},
                    }
                },
                None => {},
            }
        }
        i += 1;
    }
    assert(toutes.take(toutes.len() as int) =~= toutes);
    r
}

// ─── Modes of a device ─────────────────────────────────────────────────

/// What follows the first occurrence of a key, up to the next blank.
pub open spec fn valeur_de(ligne: Seq<char>, cle: Seq<char>) -> Option<Seq<char>> {
    match texte::premiere(ligne, cle) {
        None => None,
        Some(p) => non_vide(texte::tete(ligne.skip(p + cle.len()))),
    }
}

/// What follows the last occurrence of a key, up to the next blank.
pub open spec fn derniere_valeur(ligne: Seq<char>, cle: Seq<char>) -> Option<Seq<char>> {
    match texte::derniere(ligne, cle) {
        None => None,
        Some(p) => non_vide(texte::tete(ligne.skip(p + cle.len()))),
    }
}

pub open spec fn non_vide(s: Seq<char>) -> Option<Seq<char>> {
    if s.len() == 0 {
        None
    } else {
        Some(s)
    }
}

/// A size written as a width, an `x` and a height.
pub open spec fn dimensions(s: Seq<char>) -> Option<(nat, nat)> {
    match texte::saut(s, 'x') {
        None => None,
        Some(p) => match (
            texte::lecture(s.take(p), u32::MAX as nat),
            texte::lecture(s.skip(p + 1), u32::MAX as nat),
        ) {
            (Some(l), Some(h)) => Some((l, h)),
            _ => None,
        },
    }
}

fn lire_valeur(ligne: &Vec<char>, cle: &str, derniere: bool) -> (r: Option<String>)
    ensures
        texte::vue(r) == if derniere {
            derniere_valeur(ligne@, cle@)
        } else {
            valeur_de(ligne@, cle@)
        },
{
    let motif = texte::caracteres(cle);
    let position = if derniere {
        texte::chercher_dernier(ligne, &motif)
    } else {
        texte::chercher(ligne, &motif)
    };
    match position {
        None => None,
        Some(p) => {
            assert(p + motif@.len() <= ligne.len());
            let v = texte::prendre_tete(ligne, p + motif.len());
            if v.len() == 0 {
                None
            } else {
                Some(texte::en_texte(&v))
            }
        },
    }
}

/// What follows a key, up to the next blank.
pub fn extraire_valeur(ligne: &str, cle: &str) -> (r: Option<String>)
    ensures
        texte::vue(r) == valeur_de(ligne@, cle@),
{
    lire_valeur(&texte::caracteres(ligne), cle, false)
}

/// What follows the first occurrence of a key: for the lowest rate.
pub fn extraire_apres(ligne: &str, cle: &str) -> (r: Option<String>)
    ensures
        texte::vue(r) == valeur_de(ligne@, cle@),
{
    extraire_valeur(ligne, cle)
}

/// What follows the last occurrence of a key: for the highest rate.
pub fn extraire_dernier(ligne: &str, cle: &str) -> (r: Option<String>)
    ensures
        texte::vue(r) == derniere_valeur(ligne@, cle@),
{
    lire_valeur(&texte::caracteres(ligne), cle, true)
}

/// Reads a size such as `1920x1080`.
pub fn parser_resolution(texte: &str) -> (r: Option<(u32, u32)>)
    ensures
        match r {
            Some(d) => dimensions(texte@) == Some((d.0 as nat, d.1 as nat)),
            None => dimensions(texte@) is None,
        },
{
    let v = texte::caracteres(texte);
    assert(v@.skip(0) =~= v@);
    match texte::chercher_saut(&v, 'x', 0) {
        None => None,
        Some(p) => {
            assert(p < v.len());
            let gauche = texte::tranche(&v, 0, p);
            let droite = texte::tranche(&v, p + 1, v.len());
            assert(gauche@ =~= v@.take(p as int));
            assert(droite@ =~= v@.skip(p + 1));
            match (texte::lire(&gauche, u32::MAX as u64), texte::lire(&droite, u32::MAX as u64)) {
                (Some(l), Some(h)) => Some((l as u32, h as u32)),
                _ => None,
            }
        },
    }
}

/// A mode that a device announces. The rates are left as they were written.
pub struct ModeAnnonce {
    pub width: u32,
    pub height: u32,
    /// The lowest rate, when the line states a minimum.
    pub fps_min: Option<String>,
    /// The highest rate.
    pub fps_max: Option<String>,
    pub pixel_format: String,
}

/// The view of a mode.
#[verifier::ext_equal]
pub ghost struct ModeVu {
    pub width: nat,
    pub height: nat,
    pub fps_min: Option<Seq<char>>,
    pub fps_max: Option<Seq<char>>,
    pub pixel_format: Seq<char>,
}

impl View for ModeAnnonce {
    type V = ModeVu;

    open spec fn view(&self) -> ModeVu {
        ModeVu {
            width: self.width as nat,
            height: self.height as nat,
            fps_min: texte::vue(self.fps_min),
            fps_max: texte::vue(self.fps_max),
            pixel_format: self.pixel_format@,
        }
    }
}

/// The mode that a line announces: its highest size, its rates, its format.
pub open spec fn mode_annonce(ligne: Seq<char>) -> Option<ModeVu> {
    match valeur_de(ligne, "max s="@) {
        None => None,
        Some(taille) => match dimensions(taille) {
            None => None,
            Some(d) => Some(
                ModeVu {
                    width: d.0,
                    height: d.1,
                    fps_min: if valeur_de(ligne, "min s="@) is Some {
                        valeur_de(ligne, "fps="@)
                    } else {
                        None
                    },
                    fps_max: derniere_valeur(ligne, "fps="@),
                    pixel_format: match valeur_de(ligne, "pixel_format="@) {
                        Some(f) => f,
                        None => match valeur_de(ligne, "vcodec="@) {
                            Some(f) => f,
                            None => "inconnu"@,
                        },
                    },
                },
            ),
        },
    }
}

/// Two announcements of one mode: same size, same format.
pub open spec fn meme_mode(a: ModeVu, b: ModeVu) -> bool {
    a.width == b.width && a.height == b.height && a.pixel_format == b.pixel_format
}

/// A mode is already among these.
pub open spec fn deja_annonce(modes: Seq<ModeVu>, m: ModeVu) -> bool {
    exists|i: int| 0 <= i < modes.len() && meme_mode(#[trigger] modes[i], m)
}

/// The modes that these lines announce, each once, in order.
pub open spec fn modes(lignes: Seq<Seq<char>>) -> Seq<ModeVu>
    decreases lignes.len(),
{
    if lignes.len() == 0 {
        Seq::empty()
    } else {
        let avant = modes(lignes.drop_last());
        match mode_annonce(lignes.last()) {
            Some(m) => if deja_annonce(avant, m) {
                avant
            } else {
                avant.push(m)
            },
            None => avant,
        }
    }
}

/// The view of a list of modes.
pub open spec fn modes_vus(v: Seq<ModeAnnonce>) -> Seq<ModeVu> {
    v.map_values(|m: ModeAnnonce| m@)
}

fn lire_mode(ligne: &Vec<char>) -> (r: Option<ModeAnnonce>)
    ensures
        match r {
            Some(m) => mode_annonce(ligne@) == Some(m@),
            None => mode_annonce(ligne@) is None,
        },
{
    match lire_valeur(ligne, "max s=", false) {
        None => None,
        Some(taille) => match parser_resolution(taille.as_str()) {
            None => None,
            Some((width, height)) => {
                let pixel_format = match lire_valeur(ligne, "pixel_format=", false) {
                    Some(f) => f,
                    None => match lire_valeur(ligne, "vcodec=", false) {
                        Some(f) => f,
                        None => "inconnu".to_owned(),
                    },
                };
                let fps_min = match lire_valeur(ligne, "min s=", false) {
                    Some(_) => lire_valeur(ligne, "fps=", false),
                    None => None,
                };
                let fps_max = lire_valeur(ligne, "fps=", true);
                Some(ModeAnnonce { width, height, fps_min, fps_max, pixel_format })
            },
        },
    }
}

fn est_annonce(modes: &Vec<ModeAnnonce>, m: &ModeAnnonce) -> (r: bool)
    ensures
        r == deja_annonce(modes_vus(modes@), m@),
{
    let mut i: usize = 0;
    while i < modes.len()
        invariant
            i <= modes@.len(),
            forall|k: int| 0 <= k < i ==> !meme_mode(#[trigger] modes_vus(modes@)[k], m@),
        decreases modes@.len() - i,
    {
        assert(modes_vus(modes@)[i as int] == modes@[i as int]@);
        if modes[i].width == m.width && modes[i].height == m.height && texte::memes(
            modes[i].pixel_format.as_str(),
            m.pixel_format.as_str(),
        ) {
            return true;
        }
        i += 1;
    }
    false
}

/// Reads the modes of a device in FFmpeg's output:
///
/// ```text
/// [dshow @ ...]   pixel_format=yuyv422  min s=640x480 fps=5 max s=1920x1080 fps=30
/// ```
pub fn parser_options(sortie: &str) -> (r: Vec<ModeAnnonce>)
    ensures
        modes_vus(r@) == modes(texte::lignes(sortie@)),
{
    let lignes = texte::en_lignes(&texte::caracteres(sortie));
    let ghost toutes = texte::vues_car(lignes@);
    let mut r: Vec<ModeAnnonce> = Vec::new();
    let mut i: usize = 0;
    assert(modes_vus(r@) =~= modes(toutes.take(0)));
    while i < lignes.len()
        invariant
            i <= lignes@.len(),
            toutes == texte::vues_car(lignes@),
            modes_vus(r@) == modes(toutes.take(i as int)),
        decreases lignes@.len() - i,
    {
        assert(toutes.take(i + 1).drop_last() =~= toutes.take(i as int));
        assert(toutes.take(i + 1).last() == lignes@[i as int]@);
        match lire_mode(&lignes[i]) {
            Some(m) => {
                if !est_annonce(&r, &m) {
                    let ghost avant = r@;
                    let ghost vu = m@;
                    r.push(m);
                    assert(modes_vus(r@) =~= modes_vus(avant).push(vu));
                }
            },
            None => {},
        }
        i += 1;
    }
    assert(toutes.take(toutes.len() as int) =~= toutes);
    r
}

/// No mode is listed twice.
pub proof fn loi_modes_distincts(lignes: Seq<Seq<char>>, i: int, j: int)
    requires
        0 <= i < j < modes(lignes).len(),
    ensures
        !meme_mode(modes(lignes)[i], modes(lignes)[j]),
    decreases lignes.len(),
{
    if lignes.len() > 0 {
        let avant = modes(lignes.drop_last());
        if j < avant.len() {
            loi_modes_distincts(lignes.drop_last(), i, j);
        } else {
            assert(modes(lignes)[i] == avant[i]);
        }
    }
}

/// Every device listed has a name, and none comes from a header or from a
/// system identifier.
pub proof fn loi_appareils_nommes(lignes: Seq<Seq<char>>, i: int)
    requires
        0 <= i < appareils(lignes).len(),
    ensures
        appareils(lignes)[i].0.len() > 0,
        exists|k: int|
            0 <= k < lignes.len() && entre_guillemets(#[trigger] lignes[k]) == Some(
                appareils(lignes)[i].0,
            ) && entete(lignes[k]) is None && !texte::contient(lignes[k], "Alternative name"@),
    decreases lignes.len(),
{
    let d = lignes.drop_last();
    let avant = appareils(d);
    if i < avant.len() {
        loi_appareils_nommes(d, i);
        let k = choose|k: int|
            0 <= k < d.len() && entre_guillemets(#[trigger] d[k]) == Some(avant[i].0) && entete(
                d[k],
            ) is None && !texte::contient(d[k], "Alternative name"@);
        assert(lignes[k] == d[k]);
    } else {
        assert(entre_guillemets(lignes[lignes.len() - 1]) == Some(appareils(lignes)[i].0));
    }
}

// ─── The mode to propose ───────────────────────────────────────────────

/// A mode to choose from. `cadence` orders the highest rates: a faster one
/// has a greater value, and a rate that is no number has none.
pub struct DeviceOption {
    pub width: u32,
    pub height: u32,
    pub cadence: Option<i64>,
    pub pixel_format: String,
}

/// The size wanted for the analysis.
pub open spec fn full_hd(o: DeviceOption) -> bool {
    o.width == 1920 && o.height == 1080
}

/// `a` is faster than `b`, both being numbers.
pub open spec fn plus_rapide(a: DeviceOption, b: DeviceOption) -> bool {
    a.cadence is Some && b.cadence is Some && a.cadence->Some_0 > b.cadence->Some_0
}

/// The fastest mode of the wanted size: a mode gives way to a later one that
/// is not slower.
pub open spec fn meilleur_full_hd(s: Seq<DeviceOption>) -> Option<int>
    decreases s.len(),
{
    if s.len() == 0 {
        None
    } else {
        let avant = meilleur_full_hd(s.drop_last());
        if !full_hd(s.last()) {
            avant
        } else {
            match avant {
                Some(k) => if plus_rapide(s[k], s.last()) {
                    Some(k)
                } else {
                    Some(s.len() - 1)
                },
                None => Some(s.len() - 1),
            }
        }
    }
}

/// The points of an image.
pub open spec fn surface(o: DeviceOption) -> int {
    o.width * o.height
}

/// `i` is the last of the modes with the most points.
pub open spec fn plus_grande(s: Seq<DeviceOption>, i: int) -> bool {
    &&& 0 <= i < s.len()
    &&& forall|j: int| 0 <= j < i ==> surface(#[trigger] s[j]) <= surface(s[i])
    &&& forall|j: int| i < j < s.len() ==> surface(#[trigger] s[j]) < surface(s[i])
}

proof fn lemme_meilleur_borne(s: Seq<DeviceOption>)
    ensures
        match meilleur_full_hd(s) {
            Some(k) => 0 <= k < s.len() && full_hd(s[k]),
            None => forall|j: int| 0 <= j < s.len() ==> !full_hd(#[trigger] s[j]),
        },
    decreases s.len(),
{
    if s.len() > 0 {
        lemme_meilleur_borne(s.drop_last());
        assert forall|j: int| 0 <= j < s.len() - 1 implies s.drop_last()[j] == #[trigger] s[j] by {}
    }
}

/// When every rate is a number, the mode proposed among those of the wanted
/// size is the fastest, and the last of the fastest.
pub proof fn loi_full_hd_le_plus_rapide(s: Seq<DeviceOption>)
    requires
        meilleur_full_hd(s) is Some,
        forall|j: int| 0 <= j < s.len() && full_hd(#[trigger] s[j]) ==> s[j].cadence is Some,
    ensures
        ({
            let k = meilleur_full_hd(s)->Some_0;
            &&& 0 <= k < s.len()
            &&& full_hd(s[k])
            &&& forall|j: int|
                0 <= j < s.len() && full_hd(#[trigger] s[j]) ==> s[j].cadence->Some_0
                    <= s[k].cadence->Some_0 && (j > k ==> s[j].cadence->Some_0
                    < s[k].cadence->Some_0)
        }),
    decreases s.len(),
{
    lemme_meilleur_borne(s);
    let d = s.drop_last();
    lemme_meilleur_borne(d);
    assert forall|j: int| 0 <= j < d.len() implies d[j] == #[trigger] s[j] by {}
    if meilleur_full_hd(d) is Some {
        loi_full_hd_le_plus_rapide(d);
    }
}

/// The mode proposed by default: the fastest of the size wanted for the
/// analysis, or else the one with the most points. Gives its rank.
pub fn suggest_best_option(options: &Vec<DeviceOption>) -> (r: Option<usize>)
    ensures
        options@.len() == 0 ==> r is None,
        meilleur_full_hd(options@) matches Some(k) ==> (r matches Some(i) && i == k),
        options@.len() > 0 && meilleur_full_hd(options@) is None ==> (r matches Some(i)
            && plus_grande(options@, i as int)),
{
    let mut full: Option<usize> = None;
    let mut grande: Option<usize> = None;
    let mut i: usize = 0;
    while i < options.len()
        invariant
            i <= options@.len(),
            match full {
                Some(k) => k < i && meilleur_full_hd(options@.take(i as int)) == Some(k as int),
                None => meilleur_full_hd(options@.take(i as int)) is None,
            },
            match grande {
                Some(k) => plus_grande(options@.take(i as int), k as int),
                None => i == 0,
            },
        decreases options@.len() - i,
    {
        let ghost t = options@.take(i + 1);
        assert(t.drop_last() =~= options@.take(i as int));
        let o = &options[i];
        if o.width == 1920 && o.height == 1080 {
            let remplace: bool = match full {
                Some(k) => match (options[k].cadence, o.cadence) {
                    (Some(a), Some(b)) => a <= b,
                    _ => true,
                },
                None => true,
            };
            if remplace {
                full = Some(i);
            }
        }
        let points: u64 = produit(o.width, o.height);
        let remplace: bool = match grande {
            Some(k) => produit(options[k].width, options[k].height) <= points,
            None => true,
        };
        proof {
            assert forall|j: int| 0 <= j < i implies t[j] == #[trigger] options@.take(i as int)[j] by {}
        }
        if remplace {
            grande = Some(i);
        }
        i += 1;
    }
    assert(options@.take(options@.len() as int) =~= options@);
    match full {
        Some(k) => Some(k),
        None => grande,
    }
}

fn produit(a: u32, b: u32) -> (r: u64)
    ensures
        r == a * b,
{
    proof {
        assert(0 <= a * b <= 0xFFFF_FFFF * 0xFFFF_FFFF) by (nonlinear_arith)
            requires
                0 <= a <= 0xFFFF_FFFF,
                0 <= b <= 0xFFFF_FFFF,
        ;
    }
    a as u64 * b as u64
}

/// The first line of FFmpeg's answer: its version.
pub fn version_annoncee(sortie: &str) -> (r: Result<String, String>)
    ensures
        texte::lignes(sortie@).len() > 0 ==> (r matches Ok(v) && v@ == texte::rogne(
            texte::lignes(sortie@)[0],
        )),
        texte::lignes(sortie@).len() == 0 ==> (r matches Err(m) && m@
            == "FFmpeg n'a produit aucune réponse."@),
{
    let lignes = texte::en_lignes(&texte::caracteres(sortie));
    let ghost toutes = texte::vues_car(lignes@);
    if lignes.len() == 0 {
        return Err("FFmpeg n'a produit aucune réponse.".to_owned());
    }
    assert(toutes[0] == lignes@[0]@);
    Ok(texte::en_texte(&texte::rogner(&lignes[0])))
}

// ─── Laws of what is read ──────────────────────────────────────────────

/// Every mode that a line announces is listed, under its width, its height
/// and its pixel format, and no two modes listed share all three.
pub proof fn loi_modes_complets(lignes: Seq<Seq<char>>, k: int, i: int, j: int)
    requires
        0 <= k < lignes.len(),
        0 <= i < j < modes(lignes).len(),
    ensures
        mode_annonce(lignes[k]) matches Some(m) ==> exists|n: int|
            0 <= n < modes(lignes).len() && (#[trigger] modes(lignes)[n]).width == m.width
                && modes(lignes)[n].height == m.height && modes(lignes)[n].pixel_format
                == m.pixel_format,
        modes(lignes)[i].width != modes(lignes)[j].width || modes(lignes)[i].height != modes(
            lignes,
        )[j].height || modes(lignes)[i].pixel_format != modes(lignes)[j].pixel_format,
{
    lemme_mode_liste(lignes, k);
    loi_modes_distincts(lignes, i, j);
}

/// The mode that a line announces is listed, whatever the number of modes.
pub proof fn lemme_mode_liste(lignes: Seq<Seq<char>>, k: int)
    requires
        0 <= k < lignes.len(),
    ensures
        mode_annonce(lignes[k]) matches Some(m) ==> exists|n: int|
            0 <= n < modes(lignes).len() && (#[trigger] modes(lignes)[n]).width == m.width
                && modes(lignes)[n].height == m.height && modes(lignes)[n].pixel_format
                == m.pixel_format,
    decreases lignes.len(),
{
    let d = lignes.drop_last();
    let avant = modes(d);
    match mode_annonce(lignes[k]) {
        Some(m) => {
            if k < d.len() {
                lemme_mode_liste(d, k);
                let n = choose|n: int|
                    0 <= n < avant.len() && (#[trigger] avant[n]).width == m.width
                        && avant[n].height == m.height && avant[n].pixel_format == m.pixel_format;
                assert(modes(lignes)[n] == avant[n]);
            } else if deja_annonce(avant, m) {
                let n = choose|n: int| 0 <= n < avant.len() && meme_mode(#[trigger] avant[n], m);
                assert(modes(lignes)[n] == avant[n]);
            } else {
                assert(modes(lignes)[avant.len() as int] == m);
            }
        },
        None => {},
    }
}

/// Two lines that announce different sizes, or different formats, give two
/// modes; a line that repeats a mode gives none.
pub proof fn loi_deux_modes(a: Seq<char>, b: Seq<char>)
    requires
        mode_annonce(a) is Some,
        mode_annonce(b) is Some,
    ensures
        ({
            let m = mode_annonce(a)->Some_0;
            let n = mode_annonce(b)->Some_0;
            modes(seq![a, b]) == if m.width == n.width && m.height == n.height && m.pixel_format
                == n.pixel_format {
                seq![m]
            } else {
                seq![m, n]
            }
        }),
{
    let m = mode_annonce(a)->Some_0;
    let n = mode_annonce(b)->Some_0;
    reveal_with_fuel(modes, 3);
    assert(seq![a, b].drop_last() =~= seq![a]);
    assert(seq![a].drop_last() =~= Seq::<Seq<char>>::empty());
    assert(modes(seq![a]) =~= seq![m]);
    assert(seq![m][0] == m);
    assert(seq![m].push(n) =~= seq![m, n]);
}

/// Nothing is listed that no line announces.
pub proof fn loi_modes_annonces(lignes: Seq<Seq<char>>, i: int)
    requires
        0 <= i < modes(lignes).len(),
    ensures
        exists|k: int|
            0 <= k < lignes.len() && mode_annonce(#[trigger] lignes[k]) == Some(modes(lignes)[i]),
    decreases lignes.len(),
{
    let d = lignes.drop_last();
    if i < modes(d).len() {
        loi_modes_annonces(d, i);
        let k = choose|k: int|
            0 <= k < d.len() && mode_annonce(#[trigger] d[k]) == Some(modes(d)[i]);
        assert(lignes[k] == d[k]);
    } else {
        assert(mode_annonce(lignes[lignes.len() - 1]) == Some(modes(lignes)[i]));
    }
}

/// The value of a key is what follows its first place in the line, or its
/// last, up to the next blank; a key without a value counts as missing.
pub proof fn loi_valeurs(ligne: Seq<char>, cle: Seq<char>, p: int, v: Seq<char>)
    requires
        0 <= p,
        p + cle.len() + v.len() <= ligne.len(),
        v.len() > 0,
        v == ligne.subrange(p + cle.len(), p + cle.len() + v.len()),
        forall|i: int| 0 <= i < v.len() ==> !texte::blanc(#[trigger] v[i]),
        p + cle.len() + v.len() == ligne.len() || texte::blanc(ligne[p + cle.len() + v.len()]),
    ensures
        texte::premiere(ligne, cle) == Some(p) ==> valeur_de(ligne, cle) == Some(v),
        texte::derniere(ligne, cle) == Some(p) ==> derniere_valeur(ligne, cle) == Some(v),
        texte::premiere(ligne, cle) is None ==> valeur_de(ligne, cle) is None && derniere_valeur(
            ligne,
            cle,
        ) is None,
{
    let s = ligne.skip(p + cle.len());
    texte::loi_tete(s);
    texte::loi_derniere(ligne, cle);
    let n = texte::tete(s).len();
    if n < v.len() {
        assert(!texte::blanc(v[n as int]));
        assert(s[n as int] == v[n as int]);
    } else if v.len() < n {
        assert(!texte::blanc(s[v.len() as int]));
        assert(s[v.len() as int] == ligne[p + cle.len() + v.len()]);
    }
    assert(texte::tete(s) =~= v);
}

/// A size reads as its width, then its height.
pub proof fn loi_dimensions(w: nat, h: nat)
    requires
        w <= u32::MAX,
        h <= u32::MAX,
    ensures
        dimensions(texte::decimal(w) + seq!['x'] + texte::decimal(h)) == Some((w, h)),
{
    let a = texte::decimal(w);
    let b = texte::decimal(h);
    let s = a + seq!['x'] + b;
    texte::lemme_decimal_relu(w);
    texte::lemme_decimal_relu(h);
    texte::loi_lecture(a, w, u32::MAX as nat);
    texte::loi_lecture(b, h, u32::MAX as nat);
    assert(!a.contains('x')) by {
        if a.contains('x') {
            assert(texte::est_chiffre(a[a.index_of('x')]));
        }
    }
    texte::lemme_saut(a, 'x', b);
    assert(s.take(a.len() as int) =~= a);
    assert(s.skip((a.len() + 1) as int) =~= b);
}

/// A line announces the size that it gives as the highest, the last rate as
/// the fastest, the first as the slowest when it gives a lowest size, and its
/// pixel format, or else its codec.
pub proof fn loi_mode_lu(ligne: Seq<char>, w: nat, h: nat)
    requires
        w <= u32::MAX,
        h <= u32::MAX,
        valeur_de(ligne, "max s="@) == Some(texte::decimal(w) + seq!['x'] + texte::decimal(h)),
    ensures
        mode_annonce(ligne) matches Some(m) && {
            &&& m.width == w
            &&& m.height == h
            &&& m.fps_max == derniere_valeur(ligne, "fps="@)
            &&& valeur_de(ligne, "min s="@) is Some ==> m.fps_min == valeur_de(ligne, "fps="@)
            &&& valeur_de(ligne, "min s="@) is None ==> m.fps_min is None
            &&& valeur_de(ligne, "pixel_format="@) matches Some(f) ==> m.pixel_format == f
            &&& valeur_de(ligne, "pixel_format="@) is None ==> (valeur_de(
                ligne,
                "vcodec="@,
            ) matches Some(f) ==> m.pixel_format == f)
            &&& valeur_de(ligne, "pixel_format="@) is None && valeur_de(ligne, "vcodec="@) is None
                ==> m.pixel_format == "inconnu"@
        },
{
    loi_dimensions(w, h);
}

/// When a camera has modes of 1920 by 1080 points whose rates are all
/// numbers, one of them is proposed, and none of them is faster; without such
/// a mode there is none of that size to propose.
pub proof fn loi_full_hd_propose(s: Seq<DeviceOption>, j: int)
    requires
        0 <= j < s.len(),
        s[j].width == 1920,
        s[j].height == 1080,
        forall|i: int|
            0 <= i < s.len() && (#[trigger] s[i]).width == 1920 && s[i].height == 1080
                ==> s[i].cadence is Some,
    ensures
        meilleur_full_hd(s) matches Some(k) && 0 <= k < s.len() && s[k].width == 1920
            && s[k].height == 1080 && s[j].cadence->Some_0 <= s[k].cadence->Some_0 && (j > k
            ==> s[j].cadence->Some_0 < s[k].cadence->Some_0),
{
    lemme_meilleur_borne(s);
    loi_full_hd_le_plus_rapide(s);
}

/// Only a mode of 1920 by 1080 points is preferred to the largest.
pub proof fn loi_sinon_le_plus_grand(s: Seq<DeviceOption>, i: int, j: int)
    requires
        0 <= j < s.len(),
    ensures
        meilleur_full_hd(s) matches Some(k) ==> 0 <= k < s.len() && s[k].width == 1920
            && s[k].height == 1080,
        plus_grande(s, i) ==> 0 <= i < s.len() && s[j].width * s[j].height <= s[i].width
            * s[i].height && (j > i ==> s[j].width * s[j].height < s[i].width * s[i].height),
{
    lemme_meilleur_borne(s);
    if plus_grande(s, i) {
        assert(surface(s[j]) == s[j].width * s[j].height);
    }
}

proof fn lemme_rogne_fin_blancs(l: Seq<char>, z: Seq<char>)
    requires
        l.len() > 0,
        !texte::blanc(l.last()),
        forall|i: int| 0 <= i < z.len() ==> texte::blanc(#[trigger] z[i]),
    ensures
        texte::rogne_fin(l + z) == l,
    decreases z.len(),
{
    let s = l + z;
    if z.len() > 0 {
        assert(s.last() == z[z.len() - 1]);
        assert(s.drop_last() =~= l + z.drop_last());
        lemme_rogne_fin_blancs(l, z.drop_last());
    } else {
        assert(s =~= l);
    }
}

proof fn lemme_guillemets(a: Seq<char>, nom: Seq<char>, b: Seq<char>)
    requires
        !a.contains('"'),
        !nom.contains('"'),
    ensures
        entre_guillemets(a + seq!['"'] + nom + seq!['"'] + b) == Some(nom),
        hors_guillemets(a + seq!['"'] + nom + seq!['"'] + b) == a,
{
    let l = a + seq!['"'] + nom + seq!['"'] + b;
    let reste = nom + seq!['"'] + b;
    assert(l =~= a + seq!['"'] + reste);
    texte::lemme_saut(a, '"', reste);
    assert(l.skip((a.len() + 1) as int) =~= reste);
    texte::lemme_saut(nom, '"', b);
    assert(reste.take(nom.len() as int) =~= nom);
    assert(l.take(a.len() as int) =~= a);
}

/// A line with a quoted name and a kind in brackets at its end lists that
/// name under that kind, whatever the section it stands in and whatever the
/// name holds, and changes no section.
pub proof fn loi_appareil_marque(
    lignes: Seq<Seq<char>>,
    a: Seq<char>,
    nom: Seq<char>,
    b: Seq<char>,
    z: Seq<char>,
    video: bool,
)
    requires
        !a.contains('"'),
        !nom.contains('"'),
        nom.len() > 0,
        forall|i: int| 0 <= i < z.len() ==> texte::blanc(#[trigger] z[i]),
    ensures
        ({
            let fin = if video {
                "(video)"@
            } else {
                "(audio)"@
            };
            let l = a + seq!['"'] + nom + seq!['"'] + (b + fin + z);
            &&& section(lignes.push(l)) == section(lignes)
            &&& !texte::contient(l, "Alternative name"@) ==> appareils(lignes.push(l))
                == appareils(lignes).push(
                (
                    nom,
                    if video {
                        DeviceKind::Video
                    } else {
                        DeviceKind::Audio
                    },
                ),
            )
            &&& texte::contient(l, "Alternative name"@) ==> appareils(lignes.push(l))
                == appareils(lignes)
        }),
{
    reveal_strlit("(video)");
    reveal_strlit("(audio)");
    let fin = if video {
        "(video)"@
    } else {
        "(audio)"@
    };
    let l = a + seq!['"'] + nom + seq!['"'] + (b + fin + z);
    let debut = a + seq!['"'] + nom + seq!['"'] + b;
    assert(l =~= (debut + fin) + z);
    assert((debut + fin).last() == fin.last());
    lemme_rogne_fin_blancs(debut + fin, z);
    texte::loi_bouts(fin, debut, "(audio)"@);
    texte::loi_bouts(fin, debut, "(video)"@);
    assert("(video)"@[1] != "(audio)"@[1]);
    lemme_guillemets(a, nom, b + fin + z);
    assert(lignes.push(l).drop_last() =~= lignes);
}

/// A header gives its kind to the quoted names below it, up to the next
/// header. It lists no device itself, and neither does a system identifier.
pub proof fn loi_sections(
    lignes: Seq<Seq<char>>,
    a: Seq<char>,
    nom: Seq<char>,
    b: Seq<char>,
    h: Seq<char>,
    video: bool,
)
    requires
        !a.contains('"'),
        !nom.contains('"'),
        nom.len() > 0,
        !texte::contient(a, "DirectShow video devices"@),
        !texte::contient(a, "DirectShow audio devices"@),
        !texte::finit_par(texte::rogne_fin(a + seq!['"'] + nom + seq!['"'] + b), "(video)"@),
        !texte::finit_par(texte::rogne_fin(a + seq!['"'] + nom + seq!['"'] + b), "(audio)"@),
        !h.contains('"'),
        !texte::finit_par(texte::rogne_fin(h), "(video)"@),
        !texte::finit_par(texte::rogne_fin(h), "(audio)"@),
        video ==> texte::contient(h, "DirectShow video devices"@),
        !video ==> texte::contient(h, "DirectShow audio devices"@) && !texte::contient(
            h,
            "DirectShow video devices"@,
        ),
    ensures
        ({
            let l = a + seq!['"'] + nom + seq!['"'] + b;
            let kind = if video {
                DeviceKind::Video
            } else {
                DeviceKind::Audio
            };
            &&& section(lignes.push(h)) == Some(kind)
            &&& appareils(lignes.push(h)) == appareils(lignes)
            &&& section(lignes.push(l)) == section(lignes)
            &&& !texte::contient(l, "Alternative name"@) ==> (match section(lignes) {
                Some(k) => appareils(lignes.push(l)) == appareils(lignes).push((nom, k)),
                None => appareils(lignes.push(l)) == appareils(lignes),
            })
            &&& texte::contient(l, "Alternative name"@) ==> appareils(lignes.push(l))
                == appareils(lignes)
        }),
{
    let l = a + seq!['"'] + nom + seq!['"'] + b;
    lemme_guillemets(a, nom, b);
    texte::lemme_saut(h, '"', h);
    assert(lignes.push(l).drop_last() =~= lignes);
    assert(lignes.push(h).drop_last() =~= lignes);
}

} // verus!
