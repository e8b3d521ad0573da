//! Recording in short pieces, from which overlapping clips are made.
//!
//! The recorder does not write clips. It writes pieces of equal duration,
//! and a clip is a run of consecutive pieces. Since pieces are copied without
//! being encoded again, a piece must last a divisor of both the clip's
//! duration and the step between two clips: the greatest common divisor of
//! the two is taken.

use crate::chrono_simple::Instant;
use crate::horloge;
use crate::texte;
use vstd::arithmetic::div_mod::{
    lemma_fundamental_div_mod, lemma_mod_multiples_vanish, lemma_small_mod,
};
use vstd::prelude::*;

verus! {

/// Seconds left to FFmpeg to close its last file.
pub const DELAI_ARRET_SECS: u64 = 10;

/// Lines of FFmpeg's output kept for a diagnosis.
pub const LIGNES_GARDEES: usize = 25;

// ─── Settings ──────────────────────────────────────────────────────────

/// What the photographer chooses before a recording.
pub struct RecordingConfig {
    /// Exact name of the capture device.
    pub device_name: String,
    /// The microphone; none records without sound.
    pub audio_device: Option<String>,
    pub width: u32,
    pub height: u32,
    pub fps: u32,
    /// Video rate, in megabits per second.
    pub bitrate_mbps: u32,
    pub clip_duration_secs: u32,
    pub overlap_secs: u32,
    /// Working directory: pieces are written there, then clips.
    pub output_dir: String,
}

/// The division of time that follows from the settings.
#[derive(Clone, Copy, Debug)]
pub struct SegmentPlan {
    /// Duration of a piece, in seconds.
    pub segment_secs: u32,
    /// Pieces in a clip.
    pub segments_per_clip: u32,
    /// Pieces between the starts of two clips.
    pub segments_step: u32,
    /// Seconds between the starts of two clips.
    pub step_secs: u32,
}

impl SegmentPlan {
    /// Clips advance, and leave no gap between them.
    pub open spec fn valide(self) -> bool {
        &&& 1 <= self.segment_secs
        &&& 1 <= self.segments_step <= self.segments_per_clip
        &&& self.step_secs == self.segments_step * self.segment_secs
        &&& self.segments_per_clip * self.segment_secs <= u32::MAX
    }
}

// ─── Greatest common divisor ───────────────────────────────────────────

/// `d` divides `n`.
pub open spec fn divise(d: int, n: int) -> bool {
    d > 0 && n % d == 0
}

/// `g` is the greatest common divisor of `a` and `b`.
pub open spec fn est_pgcd(g: int, a: int, b: int) -> bool {
    &&& divise(g, a)
    &&& divise(g, b)
    &&& forall|d: int| #[trigger] divise(d, a) && divise(d, b) ==> d <= g
}

proof fn lemme_reste(d: int, a: int, b: int)
    requires
        a >= 0,
        b > 0,
        divise(d, b),
    ensures
        divise(d, a) == divise(d, a % b),
{
    let q = a / b;
    let k = b / d;
    lemma_fundamental_div_mod(a, b);
    lemma_fundamental_div_mod(b, d);
    assert(b * q == d * (k * q)) by (nonlinear_arith)
        requires
            b == d * k,
    ;
    lemma_mod_multiples_vanish(k * q, a % b, d);
}

/// Greatest common divisor, by Euclid's algorithm.
pub fn pgcd(a: u32, b: u32) -> (g: u32)
    ensures
        a == 0 && b == 0 ==> g == 0,
        a > 0 || b > 0 ==> est_pgcd(g as int, a as int, b as int),
    decreases b,
{
    if b == 0 {
        proof {
            if a > 0 {
                assert(a as int % a as int == 0) by (nonlinear_arith)
                    requires
                        a > 0,
                ;
                lemma_small_mod(0, a as nat);
                assert forall|d: int| #[trigger] divise(d, a as int) && divise(d, 0) implies d
                    <= a by {
                    if d > a {
                        lemma_small_mod(a as nat, d as nat);
                    }
                }
            }
        }
        a
    } else {
        let g = pgcd(b, a % b);
        proof {
            lemme_reste(g as int, a as int, b as int);
            assert forall|d: int| #[trigger] divise(d, a as int) && divise(d, b as int) implies d
                <= g by {
                lemme_reste(d, a as int, b as int);
                assert(divise(d, b as int));
            }
        }
        g
    }
}

/// The greatest common divisor is unique.
pub proof fn loi_pgcd_unique(g: int, h: int, a: int, b: int)
    requires
        est_pgcd(g, a, b),
        est_pgcd(h, a, b),
    ensures
        g == h,
{
    assert(divise(g, a) && divise(h, a));
}

impl RecordingConfig {
    /// The division of time for these settings, or why they do not fit.
    pub fn plan(&self) -> (r: Result<SegmentPlan, String>)
        ensures
            self.clip_duration_secs == 0 ==> (r matches Err(m) && m@
                == "La durée d'un clip ne peut pas être nulle."@),
            self.clip_duration_secs > 0 && self.overlap_secs >= self.clip_duration_secs ==> (
            r matches Err(m) && m@
                == "Le chevauchement doit rester inférieur à la durée du clip, sans quoi les clips se répéteraient sans jamais avancer."@),
            self.clip_duration_secs > 0 && self.overlap_secs < self.clip_duration_secs ==> {
                &&& r matches Ok(p)
                &&& p.step_secs == self.clip_duration_secs - self.overlap_secs
                &&& est_pgcd(
                    p.segment_secs as int,
                    self.clip_duration_secs as int,
                    p.step_secs as int,
                )
                &&& p.segments_per_clip * p.segment_secs == self.clip_duration_secs
                &&& p.segments_step * p.segment_secs == p.step_secs
                &&& (p.segments_per_clip - p.segments_step) * p.segment_secs == self.overlap_secs
                &&& p.valide()
            },
    {
        if self.clip_duration_secs == 0 {
            return Err("La durée d'un clip ne peut pas être nulle.".to_owned());
        }
        if self.overlap_secs >= self.clip_duration_secs {
            return Err(
                "Le chevauchement doit rester inférieur à la durée du clip, sans quoi les clips se répéteraient sans jamais avancer.".to_owned(),
            );
        }
        let step_secs: u32 = self.clip_duration_secs - self.overlap_secs;
        let segment_secs: u32 = pgcd(self.clip_duration_secs, step_secs);
        let segments_per_clip: u32 = self.clip_duration_secs / segment_secs;
        let segments_step: u32 = step_secs / segment_secs;
        proof {
            let c = self.clip_duration_secs as int;
            let s = step_secs as int;
            let g = segment_secs as int;
            lemma_fundamental_div_mod(c, g);
            lemma_fundamental_div_mod(s, g);
            let n = segments_per_clip as int;
            let p = segments_step as int;
            assert(n * g == g * n && p * g == g * p) by (nonlinear_arith);
            assert((n - p) * g == n * g - p * g) by (nonlinear_arith);
            assert(1 <= p <= n) by (nonlinear_arith)
                requires
                    g > 0,
                    p * g == s,
                    n * g == c,
                    0 < s <= c,
            ;
        }
        Ok(SegmentPlan { segment_secs, segments_per_clip, segments_step, step_secs })
    }
}

// ─── The command ───────────────────────────────────────────────────────

/// The name of a piece.
pub open spec fn nom_de_morceau(index: u32) -> Seq<char> {
    "m_"@ + texte::cadre(index as int, 6) + ".mp4"@
}

pub fn nom_morceau(index: u32) -> (r: String)
    ensures
        r@ == nom_de_morceau(index),
{
    texte::joindre3("m_", texte::ecrire_cadre(index as i64, 6).as_str(), ".mp4")
}

/// The device, as FFmpeg wants it named.
pub open spec fn entree(config: RecordingConfig) -> Seq<char> {
    match config.audio_device {
        Some(micro) => "video="@ + config.device_name@ + ":audio="@ + micro@,
        None => "video="@ + config.device_name@,
    }
}

/// What FFmpeg is told of the sound.
pub open spec fn arguments_son(config: RecordingConfig) -> Seq<Seq<char>> {
    if config.audio_device is Some {
        seq!["-c:a"@, "aac"@, "-b:a"@, "128k"@]
    } else {
        seq!["-an"@]
    }
}

/// What FFmpeg is told of the picture.
pub open spec fn arguments_image(config: RecordingConfig) -> Seq<Seq<char>> {
    let fps = texte::decimal(config.fps as nat);
    seq![
        "-hide_banner"@,
        "-f"@,
        "dshow"@,
        "-video_size"@,
        texte::decimal(config.width as nat) + "x"@ + texte::decimal(config.height as nat),
        "-framerate"@,
        fps,
        "-rtbufsize"@,
        "512M"@,
        "-i"@,
        entree(config),
        "-c:v"@,
        "libx264"@,
        "-preset"@,
        "veryfast"@,
        "-b:v"@,
        texte::decimal(config.bitrate_mbps as nat) + "M"@,
        "-g"@,
        fps,
        "-keyint_min"@,
        fps,
        "-sc_threshold"@,
        "0"@,
        "-pix_fmt"@,
        "yuv420p"@,
    ]
}

/// What FFmpeg is told of the pieces.
pub open spec fn arguments_decoupe(plan: SegmentPlan, motif: Seq<char>) -> Seq<Seq<char>> {
    let duree = texte::decimal(plan.segment_secs as nat);
    seq![
        "-f"@,
        "segment"@,
        "-segment_time"@,
        duree,
        "-reset_timestamps"@,
        "1"@,
        "-force_key_frames"@,
        "expr:gte(t,n_forced*"@ + duree + ")"@,
        "-segment_format"@,
        "mp4"@,
        "-y"@,
        motif,
    ]
}

/// The arguments of the recording.
pub open spec fn arguments(config: RecordingConfig, plan: SegmentPlan, motif: Seq<char>) -> Seq<
    Seq<char>,
> {
    arguments_image(config) + arguments_son(config) + arguments_decoupe(plan, motif)
}

fn dire_image(config: &RecordingConfig) -> (args: Vec<String>)
    ensures
        texte::vues(args@) == arguments_image(*config),
{
    let fps = texte::ecrire(config.fps as u64);
    let mut args: Vec<String> = Vec::new();
    texte::ajouter(&mut args, "-hide_banner");
    texte::ajouter(&mut args, "-f");
    texte::ajouter(&mut args, "dshow");
    texte::ajouter(&mut args, "-video_size");
    let taille = texte::joindre3(
        texte::ecrire(config.width as u64).as_str(),
        "x",
        texte::ecrire(config.height as u64).as_str(),
    );
    texte::ajouter(&mut args, taille.as_str());
    texte::ajouter(&mut args, "-framerate");
    texte::ajouter(&mut args, fps.as_str());
    texte::ajouter(&mut args, "-rtbufsize");
    texte::ajouter(&mut args, "512M");
    texte::ajouter(&mut args, "-i");
    let video = texte::joindre("video=", config.device_name.as_str());
    match &config.audio_device {
        Some(micro) => {
            let source = texte::joindre3(video.as_str(), ":audio=", micro.as_str());
            texte::ajouter(&mut args, source.as_str());
        },
        None => texte::ajouter(&mut args, video.as_str()),
    }
    texte::ajouter(&mut args, "-c:v");
    texte::ajouter(&mut args, "libx264");
    texte::ajouter(&mut args, "-preset");
    texte::ajouter(&mut args, "veryfast");
    texte::ajouter(&mut args, "-b:v");
    let debit = texte::joindre(texte::ecrire(config.bitrate_mbps as u64).as_str(), "M");
    texte::ajouter(&mut args, debit.as_str());
    texte::ajouter(&mut args, "-g");
    texte::ajouter(&mut args, fps.as_str());
    texte::ajouter(&mut args, "-keyint_min");
    texte::ajouter(&mut args, fps.as_str());
    texte::ajouter(&mut args, "-sc_threshold");
    texte::ajouter(&mut args, "0");
    texte::ajouter(&mut args, "-pix_fmt");
    texte::ajouter(&mut args, "yuv420p");
    assert(texte::vues(args@) =~= arguments_image(*config));
    args
}

fn dire_decoupe(args: &mut Vec<String>, plan: &SegmentPlan, motif_sortie: &str)
    ensures
        texte::vues(final(args)@) == texte::vues(old(args)@) + arguments_decoupe(
            *plan,
            motif_sortie@,
        ),
{
    let duree = texte::ecrire(plan.segment_secs as u64);
    let ghost debut = texte::vues(args@);
    texte::ajouter(args, "-f");
    texte::ajouter(args, "segment");
    texte::ajouter(args, "-segment_time");
    texte::ajouter(args, duree.as_str());
    texte::ajouter(args, "-reset_timestamps");
    texte::ajouter(args, "1");
    texte::ajouter(args, "-force_key_frames");
    let force = texte::joindre3("expr:gte(t,n_forced*", duree.as_str(), ")");
    texte::ajouter(args, force.as_str());
    texte::ajouter(args, "-segment_format");
    texte::ajouter(args, "mp4");
    texte::ajouter(args, "-y");
    texte::ajouter(args, motif_sortie);
    assert(texte::vues(args@) =~= debut + arguments_decoupe(*plan, motif_sortie@));
}

/// The arguments passed to FFmpeg to record with these settings.
pub fn construire_arguments(
    config: &RecordingConfig,
    plan: &SegmentPlan,
    motif_sortie: &str,
) -> (r: Vec<String>)
    ensures
        texte::vues(r@) == arguments(*config, *plan, motif_sortie@),
{
    let mut args = dire_image(config);
    let ghost image = texte::vues(args@);
    if config.audio_device.is_some() {
        texte::ajouter(&mut args, "-c:a");
        texte::ajouter(&mut args, "aac");
        texte::ajouter(&mut args, "-b:a");
        texte::ajouter(&mut args, "128k");
    } else {
        texte::ajouter(&mut args, "-an");
    }
    assert(texte::vues(args@) =~= image + arguments_son(*config));
    dire_decoupe(&mut args, plan, motif_sortie);
    args
}

// ─── Reading FFmpeg's output ───────────────────────────────────────────

/// FFmpeg says on this line that it opens a file for writing.
pub open spec fn annonce(ligne: Seq<char>) -> bool {
    texte::contient(ligne, "Opening"@) && texte::contient(ligne, "for writing"@)
}

/// What stands before a text, or all when it does not occur.
pub open spec fn avant_motif(s: Seq<char>, motif: Seq<char>) -> Seq<char> {
    match texte::premiere(s, motif) {
        None => s,
        Some(p) => s.take(p),
    }
}

/// The part of such a line that gives the path: what follows the opening, up
/// to the closing quote, or to the end of the phrase when there is no quote.
pub open spec fn chemin_ouvert(ligne: Seq<char>) -> Seq<char> {
    match texte::premiere(ligne, "Opening"@) {
        None => Seq::empty(),
        Some(o) => {
            let suite = ligne.skip(o + 7);
            if texte::contient(suite, "' for writing"@) {
                avant_motif(suite, "' for writing"@)
            } else {
                avant_motif(suite, "for writing"@)
            }
        },
    }
}

/// A character that parts the components of a path.
pub open spec fn separateur(c: char) -> bool {
    c == '/' || c == '\\'
}

/// The last component of a path: what follows its last separator.
pub open spec fn nom_fichier(chemin: Seq<char>) -> Seq<char>
    decreases chemin.len(),
{
    if chemin.len() == 0 || separateur(chemin.last()) {
        Seq::empty()
    } else {
        nom_fichier(chemin.drop_last()).push(chemin.last())
    }
}

/// The number of the piece kept under that name: the digits that follow the
/// mark of a piece, if there are any and the number holds in 32 bits.
pub open spec fn numero_morceau(nom: Seq<char>) -> Option<nat> {
    match texte::premiere(nom, "m_"@) {
        None => None,
        Some(d) => {
            let chiffres = texte::tete_numerique(nom.skip(d + 2));
            if chiffres.len() > 0 && texte::valeur(chiffres) <= u32::MAX {
                Some(texte::valeur(chiffres))
            } else {
                None
            }
        },
    }
}

/// The piece that FFmpeg says it opens on this line. The number is that of
/// the file: a directory may bear the mark of a piece too.
pub open spec fn morceau_ouvert(ligne: Seq<char>) -> Option<nat> {
    if annonce(ligne) {
        numero_morceau(nom_fichier(chemin_ouvert(ligne)))
    } else {
        None
    }
}

/// The number of the piece opened first among these lines. A line that opens
/// none is passed over.
pub open spec fn ouverture(lignes: Seq<Seq<char>>) -> Option<nat>
    decreases lignes.len(),
{
    if lignes.len() == 0 {
        None
    } else {
        match morceau_ouvert(lignes[0]) {
            Some(n) => Some(n),
            None => ouverture(lignes.skip(1)),
        }
    }
}

/// The number read in a file name, if it is that of a piece.
fn lire_numero(nom: &Vec<char>) -> (r: Option<u32>)
    ensures
        match r {
            Some(n) => numero_morceau(nom@) == Some(n as nat),
            None => numero_morceau(nom@) is None,
        },
{
    proof {
        reveal_strlit("m_");
    }
    match texte::chercher(nom, &texte::caracteres("m_")) {
        None => None,
        Some(d) => {
            assert(d + 2 <= nom.len());
            let chiffres = texte::prendre_chiffres(nom, d + 2);
            if chiffres.len() == 0 {
                return None;
            }
            assert(texte::sans_plus(chiffres@) == chiffres@) by {
                assert(texte::est_chiffre(chiffres@[0]));
            }
            match texte::lire(&chiffres, u32::MAX as u64) {
                Some(n) => Some(n as u32),
                None => None,
            }
        },
    }
}

/// Where the last component of a path starts.
fn debut_nom(chemin: &Vec<char>) -> (r: usize)
    ensures
        r <= chemin@.len(),
        nom_fichier(chemin@) == chemin@.skip(r as int),
{
    let mut i: usize = chemin.len();
    assert(chemin@.take(chemin@.len() as int) =~= chemin@);
    assert(chemin@.skip(chemin@.len() as int) =~= Seq::<char>::empty());
    assert(nom_fichier(chemin@) =~= nom_fichier(chemin@) + Seq::<char>::empty());
    while i > 0 && chemin[i - 1] != '/' && chemin[i - 1] != '\\'
        invariant
            i <= chemin@.len(),
            nom_fichier(chemin@) == nom_fichier(chemin@.take(i as int)) + chemin@.skip(i as int),
        decreases i,
    {
        proof {
            let t = chemin@.take(i as int);
            assert(t.drop_last() =~= chemin@.take(i - 1));
            assert(nom_fichier(t) + chemin@.skip(i as int) =~= nom_fichier(t.drop_last())
                + chemin@.skip(i - 1));
        }
        i -= 1;
    }
    assert(Seq::<char>::empty() + chemin@.skip(i as int) =~= chemin@.skip(i as int));
    i
}

/// The piece that FFmpeg says it opens on this line.
fn lire_ouverture(ligne: &Vec<char>) -> (r: Option<u32>)
    ensures
        match r {
            Some(n) => morceau_ouvert(ligne@) == Some(n as nat),
            None => morceau_ouvert(ligne@) is None,
        },
{
    let ecriture = texte::caracteres("for writing");
    proof {
        reveal_strlit("Opening");
    }
    let o: usize = match texte::chercher(ligne, &texte::caracteres("Opening")) {
        None => {
            return None;
        },
        Some(o) => o,
    };
    if !texte::contient_motif(ligne, &ecriture) {
        return None;
    }
    assert(o + 7 <= ligne.len());
    let suite = texte::tranche(ligne, o + 7, ligne.len());
    assert(suite@ =~= ligne@.skip(o + 7));
    let fin: usize = match texte::chercher(&suite, &texte::caracteres("' for writing")) {
        Some(f) => f,
        None => match texte::chercher(&suite, &ecriture) {
            Some(f) => f,
            None => suite.len(),
        },
    };
    let chemin = texte::tranche(&suite, 0, fin);
    assert(chemin@ =~= chemin_ouvert(ligne@));
    let d: usize = debut_nom(&chemin);
    let nom = texte::tranche(&chemin, d, chemin.len());
    assert(nom@ =~= chemin@.skip(d as int));
    lire_numero(&nom)
}

/// Finds the opening of a new piece in FFmpeg's output.
///
/// The opening of a piece means that the one before is closed, hence
/// complete.
pub fn detecter_ouverture_morceau(texte: &str) -> (r: Option<u32>)
    ensures
        match r {
            Some(n) => ouverture(texte::lignes(texte@)) == Some(n as nat),
            None => ouverture(texte::lignes(texte@)) is None,
        },
{
    let lignes = texte::en_lignes(&texte::caracteres(texte));
    let ghost toutes = texte::vues_car(lignes@);
    let mut i: usize = 0;
    assert(toutes.skip(0) =~= toutes);
    while i < lignes.len()
        invariant
            i <= lignes@.len(),
            toutes == texte::vues_car(lignes@),
            toutes == texte::lignes(texte@),
            ouverture(toutes) == ouverture(toutes.skip(i as int)),
        decreases lignes@.len() - i,
    {
        assert(toutes.skip(i as int)[0] == lignes@[i as int]@);
        assert(toutes.skip(i as int).skip(1) =~= toutes.skip(i + 1));
        let numero = lire_ouverture(&lignes[i]);
        if numero.is_some() {
            return numero;
        }
        i += 1;
    }
    None
}

proof fn lemme_nom_fichier(dossier: Seq<char>, nom: Seq<char>)
    requires
        dossier.len() > 0 ==> separateur(dossier.last()),
        forall|i: int| 0 <= i < nom.len() ==> !separateur(#[trigger] nom[i]),
    ensures
        nom_fichier(dossier + nom) == nom,
    decreases nom.len(),
{
    let c = dossier + nom;
    if nom.len() == 0 {
        assert(c =~= dossier);
        assert(nom =~= Seq::<char>::empty());
    } else {
        assert(c.last() == nom[nom.len() - 1]);
        assert(c.drop_last() =~= dossier + nom.drop_last());
        lemme_nom_fichier(dossier, nom.drop_last());
        assert(nom.drop_last().push(nom.last()) =~= nom);
    }
}

/// The number of a piece is read in its name alone, and reads back as it was
/// given, whatever directory the piece is in.
pub proof fn loi_morceau_relu(ligne: Seq<char>, dossier: Seq<char>, index: u32)
    requires
        annonce(ligne),
        dossier.len() > 0,
        separateur(dossier.last()),
        chemin_ouvert(ligne) == dossier + nom_de_morceau(index),
    ensures
        morceau_ouvert(ligne) == Some(index as nat),
{
    reveal_strlit("m_");
    reveal_strlit(".mp4");
    let nom = nom_de_morceau(index);
    let chiffres = texte::cadre(index as int, 6);
    texte::lemme_cadre_relu(index as nat, 6);
    assert forall|i: int| 0 <= i < nom.len() implies !separateur(#[trigger] nom[i]) by {
        if 2 <= i < nom.len() - 4 {
            assert(texte::est_chiffre(chiffres[i - 2]));
        }
    }
    lemme_nom_fichier(dossier, nom);
    assert(nom.subrange(0, 2) =~= "m_"@);
    texte::lemme_premiere(nom, "m_"@, 0);
    assert(nom.skip(2) =~= chiffres + ".mp4"@);
    assert(!texte::est_chiffre(".mp4"@[0]));
    texte::lemme_tete_numerique(chiffres, ".mp4"@);
}

/// What is told of each finished piece.
pub struct SegmentEvent {
    pub session_id: String,
    pub index: u32,
    pub filename: String,
    pub started_at: String,
}

/// The lines worth keeping: trimmed, and not empty.
pub open spec fn utiles(lignes: Seq<Seq<char>>) -> Seq<Seq<char>>
    decreases lignes.len(),
{
    if lignes.len() == 0 {
        Seq::empty()
    } else {
        let l = texte::rogne(lignes.last());
        if l.len() == 0 {
            utiles(lignes.drop_last())
        } else {
            utiles(lignes.drop_last()).push(l)
        }
    }
}

/// The last `n` elements, or all when there are fewer.
pub open spec fn derniers<T>(s: Seq<T>, n: nat) -> Seq<T> {
    if s.len() <= n {
        s
    } else {
        s.skip(s.len() - n)
    }
}

/// What is remembered while FFmpeg speaks.
pub struct EcouteFfmpeg {
    session_id: String,
    ouvert: Option<u32>,
    dernieres_lignes: Vec<String>,
}

impl EcouteFfmpeg {
    /// The recording listened to.
    pub closed spec fn session(self) -> Seq<char> {
        self.session_id@
    }

    /// The piece being written.
    pub closed spec fn en_cours(self) -> Option<u32> {
        self.ouvert
    }

    /// The last lines heard.
    pub closed spec fn journal(self) -> Seq<Seq<char>> {
        texte::vues(self.dernieres_lignes@)
    }

    pub fn new(session_id: &str) -> (r: Self)
        ensures
            r.session() == session_id@,
            r.en_cours() is None,
            r.journal() == Seq::<Seq<char>>::empty(),
    {
        let r = EcouteFfmpeg {
            session_id: session_id.to_owned(),
            ouvert: None,
            dernieres_lignes: Vec::new(),
        };
        assert(r.journal() =~= Seq::<Seq<char>>::empty());
        r
    }

    /// Takes in some output. The opening of a piece tells that the piece
    /// opened before it is finished.
    pub fn sortie(&mut self, texte: &str, maintenant: &str) -> (r: Option<SegmentEvent>)
        ensures
            final(self).session() == old(self).session(),
            final(self).journal() == derniers(
                old(self).journal() + utiles(texte::lignes(texte@)),
                LIGNES_GARDEES as nat,
            ),
            match ouverture(texte::lignes(texte@)) {
                None => final(self).en_cours() == old(self).en_cours() && r is None,
                Some(n) => {
                    &&& final(self).en_cours() == Some(n as u32)
                    &&& match old(self).en_cours() {
                        None => r is None,
                        Some(termine) => {
                            &&& r matches Some(e)
                            &&& e.session_id@ == old(self).session()
                            &&& e.index == termine
                            &&& e.filename@ == nom_de_morceau(termine)
                            &&& e.started_at@ == maintenant@
                        },
                    }
                },
            },
    {
        let lignes = texte::en_lignes(&texte::caracteres(texte));
        let ghost toutes = texte::vues_car(lignes@);
        let ghost avant = self.journal();
        let ghost ouvert_avant = self.ouvert;
        let ghost session = self.session_id;
        let mut i: usize = 0;
        assert(avant + utiles(toutes.take(0)) =~= avant);
        while i < lignes.len()
            invariant
                i <= lignes@.len(),
                toutes == texte::vues_car(lignes@),
                self.ouvert == ouvert_avant,
                self.session_id == session,
                self.journal() == avant + utiles(toutes.take(i as int)),
            decreases lignes@.len() - i,
        {
            let l = texte::rogner(&lignes[i]);
            assert(toutes.take(i + 1).drop_last() =~= toutes.take(i as int));
            assert(toutes.take(i + 1).last() == lignes@[i as int]@);
            if l.len() > 0 {
                texte::ajouter(&mut self.dernieres_lignes, texte::en_texte(&l).as_str());
                assert(self.journal() =~= avant + utiles(toutes.take(i + 1)));
            }
            i += 1;
        }
        assert(toutes.take(toutes.len() as int) =~= toutes);
        let ghost complet = self.journal();
        assert(complet.skip(0) =~= complet);
        assert(complet.len() == self.dernieres_lignes.len());
        let mut oublies: usize = 0;
        while self.dernieres_lignes.len() > LIGNES_GARDEES
            invariant
                oublies + self.dernieres_lignes@.len() == complet.len(),
                oublies <= complet.len() <= usize::MAX,
                oublies > 0 ==> self.dernieres_lignes@.len() >= LIGNES_GARDEES,
                self.ouvert == ouvert_avant,
                self.session_id == session,
                self.journal() == complet.skip(oublies as int),
            decreases self.dernieres_lignes@.len(),
        {
            let ghost ici = self.dernieres_lignes@;
            let _ = self.dernieres_lignes.remove(0);
            proof {
                assert(texte::vues(self.dernieres_lignes@) =~= texte::vues(ici).skip(1));
                assert(complet.skip(oublies as int).skip(1) =~= complet.skip(oublies + 1));
            }
            oublies += 1;
        }
        assert(self.journal() =~= derniers(complet, LIGNES_GARDEES as nat));
        match detecter_ouverture_morceau(texte) {
            None => None,
            Some(index) => {
                let evenement = match self.ouvert {
                    Some(termine) => Some(
                        SegmentEvent {
                            session_id: self.session_id.clone(),
                            index: termine,
                            filename: nom_morceau(termine),
                            started_at: maintenant.to_owned(),
                        },
                    ),
                    None => None,
                };
                self.ouvert = Some(index);
                evenement
            },
        }
    }

    /// FFmpeg has left: was that expected? It is when the recording was
    /// asked to stop, or when FFmpeg reports success.
    pub fn fin_normale(running: bool, code: Option<i32>) -> (r: bool)
        ensures
            r == (!running || code == Some(0i32)),
    {
        !running || match code {
            Some(c) => c == 0,
            None => false,
        }
    }

    /// The piece that nothing will announce: the one left open.
    pub fn dernier_morceau(&self) -> (r: Option<u32>)
        ensures
            r == self.en_cours(),
    {
        self.ouvert
    }

    /// The last lines heard, to be shown when FFmpeg fails.
    pub fn lignes(&self) -> (r: &Vec<String>)
        ensures
            texte::vues(r@) == self.journal(),
    {
        &self.dernieres_lignes
    }
}

/// The absolute date of a reading of the clock: an `@` and the seconds since
/// the epoch.
pub fn dater(lecture: Option<u128>) -> (r: String)
    ensures
        r@ == "@"@ + texte::decimal(
            match lecture {
                Some(ms) => ((ms / 1000) as u64) as nat,
                None => 0nat,
            },
        ),
{
    texte::joindre("@", texte::ecrire(horloge::secondes(lecture)).as_str())
}

/// The absolute date of now; see `dater`.
pub fn chrono_maintenant() -> (r: String)
    ensures
        exists|n: u64| r@ == "@"@ + texte::decimal(n as nat),
{
    let lecture = horloge::lire();
    let r = dater(lecture);
    proof {
        let n: u64 = match lecture {
            Some(ms) => (ms / 1000) as u64,
            None => 0u64,
        };
        assert(r@ == "@"@ + texte::decimal(n as nat));
    }
    r
}

// ─── A recording under way ─────────────────────────────────────────────

/// A recording: what it is, and how far its end has come.
pub struct RecordingHandle {
    pub session_id: String,
    pub running: bool,
    pub plan: SegmentPlan,
    /// Where pieces and clips are.
    pub work_dir: String,
    /// From this instant all dates are counted.
    pub started_at: Instant,
    /// The last piece that FFmpeg opened: nothing will announce it.
    pub dernier_morceau: Option<u32>,
    /// A stop is under way.
    pub arret_demande: bool,
    /// FFmpeg has not been let go of yet.
    pub ffmpeg_present: bool,
}

impl RecordingHandle {
    pub fn new(session_id: &str, plan: SegmentPlan, work_dir: &str, started_at: Instant) -> (r: Self)
        ensures
            r.session_id@ == session_id@,
            r.work_dir@ == work_dir@,
            r.plan == plan,
            r.started_at == started_at,
            r.running,
            r.ffmpeg_present,
            !r.arret_demande,
            r.dernier_morceau is None,
    {
        RecordingHandle {
            session_id: session_id.to_owned(),
            running: true,
            plan,
            work_dir: work_dir.to_owned(),
            started_at,
            dernier_morceau: None,
            arret_demande: false,
            ffmpeg_present: true,
        }
    }

    /// Asks for the stop. A second request is turned away while the first is
    /// under way.
    pub fn demander_arret(&mut self) -> (r: Result<(), String>)
        ensures
            *final(self) == (RecordingHandle { arret_demande: true, ..*old(self) }),
            old(self).arret_demande ==> (r matches Err(m) && m@ == "ARRET_EN_COURS"@),
            !old(self).arret_demande ==> r is Ok,
    {
        if self.arret_demande {
            return Err("ARRET_EN_COURS".to_owned());
        }
        self.arret_demande = true;
        Ok(())
    }

    /// Starts the stop: how many seconds FFmpeg has to leave after it was
    /// asked to, or nothing when it has already left.
    pub fn commencer_arret(&mut self) -> (r: Option<u64>)
        ensures
            *final(self) == (RecordingHandle { running: false, ..*old(self) }),
            r == if old(self).ffmpeg_present {
                Some(DELAI_ARRET_SECS)
            } else {
                None
            },
    {
        self.running = false;
        if self.ffmpeg_present {
            Some(DELAI_ARRET_SECS)
        } else {
            None
        }
    }

    /// Ends the stop: must FFmpeg be killed? Only if it is still there and
    /// did not leave in time.
    pub fn finir_arret(&mut self, parti_a_temps: bool) -> (r: bool)
        ensures
            *final(self) == (RecordingHandle { ffmpeg_present: false, ..*old(self) }),
            r == (old(self).ffmpeg_present && !parti_a_temps),
    {
        let tuer: bool = self.ffmpeg_present && !parti_a_temps;
        self.ffmpeg_present = false;
        tuer
    }
}

/// Milliseconds from the start of a recording to that of a piece.
pub open spec fn decalage_morceau(plan: SegmentPlan, index: u32) -> int {
    index * plan.segment_secs * 1000
}

/// The instant at which a piece starts.
pub fn debut_morceau(debut: &Instant, plan: &SegmentPlan, index: u32) -> (r: Instant)
    requires
        decalage_morceau(*plan, index) <= i64::MAX,
        debut@ + decalage_morceau(*plan, index) <= i64::MAX,
    ensures
        r@ == debut@ + decalage_morceau(*plan, index),
{
    proof {
        debut.lemme_borne();
        let i = index as int;
        let d = plan.segment_secs as int;
        assert(0 <= i * d <= i * d * 1000) by (nonlinear_arith)
            requires
                i >= 0,
                d >= 0,
        ;
    }
    let decalage: i64 = (index as i64) * (plan.segment_secs as i64) * 1000;
    debut.plus_millis(decalage)
}

/// Pieces follow one another without a gap: each starts when the one before
/// it ends.
pub proof fn loi_morceaux_consecutifs(plan: SegmentPlan, index: u32)
    requires
        index < u32::MAX,
    ensures
        decalage_morceau(plan, (index + 1) as u32) == decalage_morceau(plan, index)
            + plan.segment_secs * 1000,
{
    let i = index as int;
    let d = plan.segment_secs as int;
    assert((i + 1) * d * 1000 == i * d * 1000 + d * 1000) by (nonlinear_arith);
}

// ─── Laws of a recording ───────────────────────────────────────────────

/// The greatest common divisor measures both numbers exactly, and whatever
/// measures both is no greater.
pub proof fn loi_pgcd(g: int, a: int, b: int, d: int, x: int, y: int)
    requires
        est_pgcd(g, a, b),
        d > 0,
        a == d * x,
        b == d * y,
    ensures
        g > 0,
        a == g * (a / g),
        b == g * (b / g),
        d <= g,
{
    lemma_fundamental_div_mod(a, g);
    lemma_fundamental_div_mod(b, g);
    lemma_mod_multiples_vanish(x, 0, d);
    lemma_mod_multiples_vanish(y, 0, d);
    lemma_small_mod(0, d as nat);
    assert(divise(d, a) && divise(d, b));
}

/// Clips advance by whole pieces, a piece at least, and never skip one.
pub proof fn loi_plan_valide(p: SegmentPlan)
    requires
        p.valide(),
    ensures
        p.segment_secs > 0,
        0 < p.segments_step <= p.segments_per_clip,
        p.step_secs == p.segments_step * p.segment_secs,
        0 < p.step_secs <= p.segments_per_clip * p.segment_secs,
{
    assert(0 < p.segments_step * p.segment_secs <= p.segments_per_clip * p.segment_secs)
        by (nonlinear_arith)
        requires
            0 < p.segments_step <= p.segments_per_clip,
            p.segment_secs > 0,
    ;
}

/// The camera is opened at the size and at the rate of the settings: the value
/// after `-framerate` reads back as the number of images per second, as do
/// those of the key frames; the size reads as the width, then the height.
pub proof fn loi_camera_ouverte(config: RecordingConfig, plan: SegmentPlan, motif: Seq<char>)
    ensures
        ({
            let a = arguments(config, plan, motif);
            &&& a.len() > 25
            &&& a[1] == "-f"@ && a[2] == "dshow"@
            &&& a[3] == "-video_size"@
            &&& crate::capture::dimensions(a[4]) == Some(
                (config.width as nat, config.height as nat),
            )
            &&& a[5] == "-framerate"@
            &&& texte::numerique(a[6]) && texte::valeur(a[6]) == config.fps
            &&& a[9] == "-i"@
            &&& a[10] == "video="@ + config.device_name@ + match config.audio_device {
                Some(micro) => ":audio="@ + micro@,
                None => Seq::empty(),
            }
            &&& a[15] == "-b:v"@
            &&& a[16].last() == 'M'
            &&& texte::numerique(a[16].drop_last()) && texte::valeur(a[16].drop_last())
                == config.bitrate_mbps
            &&& a[17] == "-g"@ && a[18] == a[6]
            &&& a[19] == "-keyint_min"@ && a[20] == a[6]
        }),
{
    reveal_strlit("x");
    reveal_strlit("M");
    let a = arguments(config, plan, motif);
    let image = arguments_image(config);
    assert(forall|k: int| 0 <= k < image.len() ==> a[k] == #[trigger] image[k]);
    texte::lemme_decimal_relu(config.fps as nat);
    texte::lemme_decimal_relu(config.bitrate_mbps as nat);
    crate::capture::loi_dimensions(config.width as nat, config.height as nat);
    assert("x"@ =~= seq!['x']);
    let debit = texte::decimal(config.bitrate_mbps as nat);
    assert(a[16] == image[16] && image[16] == debit + "M"@);
    assert(a[16].drop_last() =~= debit);
    assert(a[4] == image[4]);
    assert(a[6] == image[6]);
    assert(a[10] == image[10]);
    match config.audio_device {
        Some(micro) => {
            assert(a[10] =~= "video="@ + config.device_name@ + (":audio="@ + micro@));
        },
        None => {
            assert(a[10] =~= "video="@ + config.device_name@ + Seq::<char>::empty());
        },
    }
    assert(a[1] == image[1] && a[2] == image[2] && a[3] == image[3] && a[5] == image[5] && a[9]
        == image[9] && a[15] == image[15] && a[17] == image[17] && a[18] == image[18] && a[19]
        == image[19] && a[20] == image[20]);
}

/// Each setting acts on its own arguments only: the bit rate on the value
/// after `-b:v`, the size on the value after `-video_size`, the rate on the
/// three values that repeat it, the names on the input, the pieces on what
/// cuts them.
pub proof fn loi_reglages_independants(
    c: RecordingConfig,
    d: RecordingConfig,
    plan: SegmentPlan,
    motif: Seq<char>,
    k: int,
)
    requires
        c.audio_device is Some == d.audio_device is Some,
        0 <= k < arguments(c, plan, motif).len(),
        k == 4 ==> c.width == d.width && c.height == d.height,
        k == 6 || k == 18 || k == 20 ==> c.fps == d.fps,
        k == 10 ==> c.device_name@ == d.device_name@ && texte::vue(c.audio_device) == texte::vue(
            d.audio_device,
        ),
        k == 16 ==> c.bitrate_mbps == d.bitrate_mbps,
    ensures
        arguments(c, plan, motif).len() == arguments(d, plan, motif).len(),
        arguments(c, plan, motif)[k] == arguments(d, plan, motif)[k],
{
    let a = arguments(c, plan, motif);
    let b = arguments(d, plan, motif);
    let i = arguments_image(c);
    let j = arguments_image(d);
    assert(i.len() == j.len() == 25);
    if k < 25 {
        assert(a[k] == i[k]);
        assert(b[k] == j[k]);
    } else {
        assert(arguments_son(c) == arguments_son(d));
        let n = arguments_son(c).len();
        if k < 25 + n {
            assert(a[k] == arguments_son(c)[k - 25]);
            assert(b[k] == arguments_son(d)[k - 25]);
        } else {
            assert(a[k] == arguments_decoupe(plan, motif)[k - 25 - n]);
            assert(b[k] == arguments_decoupe(plan, motif)[k - 25 - n]);
        }
    }
}

/// The recording is cut into pieces of the planned duration, a key frame at
/// each cut, written where asked; sound is recorded when there is a
/// microphone, and only then.
pub proof fn loi_decoupe(config: RecordingConfig, plan: SegmentPlan, motif: Seq<char>)
    ensures
        ({
            let a = arguments(config, plan, motif);
            let n = a.len() as int;
            &&& a[n - 12] == "-f"@ && a[n - 11] == "segment"@
            &&& a[n - 10] == "-segment_time"@
            &&& texte::numerique(a[n - 9]) && texte::valeur(a[n - 9]) == plan.segment_secs
            &&& a[n - 8] == "-reset_timestamps"@ && a[n - 7] == "1"@
            &&& a[n - 6] == "-force_key_frames"@ && a[n - 5] == "expr:gte(t,n_forced*"@ + a[n - 9]
                + ")"@
            &&& a[n - 4] == "-segment_format"@ && a[n - 3] == "mp4"@
            &&& a[n - 2] == "-y"@ && a[n - 1] == motif
            &&& a.subrange(25, n - 12) == if config.audio_device is Some {
                seq!["-c:a"@, "aac"@, "-b:a"@, "128k"@]
            } else {
                seq!["-an"@]
            }
        }),
{
    let a = arguments(config, plan, motif);
    let n = a.len() as int;
    let d = arguments_decoupe(plan, motif);
    let son = arguments_son(config);
    texte::lemme_decimal_relu(plan.segment_secs as nat);
    assert(d.len() == 12);
    assert(forall|k: int| 0 <= k < 12 ==> a[n - 12 + k] == #[trigger] d[k]);
    assert(a[n - 12] == d[0] && a[n - 11] == d[1] && a[n - 10] == d[2] && a[n - 9] == d[3] && a[n
        - 8] == d[4] && a[n - 7] == d[5] && a[n - 6] == d[6] && a[n - 5] == d[7] && a[n - 4] == d[8]
        && a[n - 3] == d[9] && a[n - 2] == d[10] && a[n - 1] == d[11]);
    assert(a.subrange(25, n - 12) =~= son);
}

proof fn lemme_ligne_annonce(avant: Seq<char>, milieu: Seq<char>, apres: Seq<char>)
    ensures
        annonce(avant + "Opening"@ + (milieu + ("' for writing"@ + apres))),
{
    reveal_strlit("Opening");
    reveal_strlit("' for writing");
    reveal_strlit("for writing");
    let ligne = avant + "Opening"@ + (milieu + ("' for writing"@ + apres));
    let p = avant.len() as int;
    let q = avant.len() + 7 + milieu.len() + 2int;
    assert(ligne.subrange(p, p + 7) =~= "Opening"@);
    assert(texte::occurrence(ligne, "Opening"@, p));
    assert(ligne.subrange(q, q + 11) =~= "for writing"@);
    assert(texte::occurrence(ligne, "for writing"@, q));
}

/// FFmpeg's announcement of a piece is heard, whatever stands before and after
/// it on the line and whatever directory the piece is in: the first piece
/// announced is the one told, and lines that announce none are passed over.
pub proof fn loi_annonce_entendue(
    avant: Seq<char>,
    dossier: Seq<char>,
    index: u32,
    apres: Seq<char>,
    suite: Seq<Seq<char>>,
)
    requires
        dossier.len() > 0,
        dossier.last() == '/' || dossier.last() == '\\',
        ({
            let nom = "m_"@ + texte::cadre(index as int, 6) + ".mp4"@;
            let reste = " '"@ + dossier + nom + ("' for writing"@ + apres);
            &&& texte::premiere(avant + "Opening"@ + reste, "Opening"@) == Some(avant.len() as int)
            &&& texte::premiere(reste, "' for writing"@) == Some(
                2 + dossier.len() + nom.len() as int,
            )
        }),
    ensures
        ({
            let nom = "m_"@ + texte::cadre(index as int, 6) + ".mp4"@;
            let reste = " '"@ + dossier + nom + ("' for writing"@ + apres);
            ouverture(seq![avant + "Opening"@ + reste] + suite) == Some(index as nat)
        }),
{
    reveal_strlit(" '");
    let nom = "m_"@ + texte::cadre(index as int, 6) + ".mp4"@;
    let debut = " '"@ + dossier;
    let fin = "' for writing"@ + apres;
    let reste = debut + nom + fin;
    let ligne = avant + "Opening"@ + reste;
    loi_chemin_annonce(avant, reste);
    assert(reste.take(2 + dossier.len() + nom.len() as int) =~= debut + nom);
    assert(annonce(ligne)) by {
        lemme_ligne_annonce(avant, debut + nom, apres);
    }
    loi_morceau_relu(ligne, debut, index);
    let l = seq![ligne] + suite;
    assert(l[0] == ligne);
}

/// A line that does not say that a file is opened for writing tells nothing.
pub proof fn loi_bavardage(ligne: Seq<char>, suite: Seq<Seq<char>>)
    requires
        texte::premiere(ligne, "Opening"@) is None || texte::premiere(ligne, "for writing"@) is None,
    ensures
        ouverture(Seq::empty()) is None,
        ouverture(seq![ligne] + suite) == ouverture(suite),
{
    texte::loi_premiere(ligne, "Opening"@);
    texte::loi_premiere(ligne, "for writing"@);
    let l = seq![ligne] + suite;
    assert(l[0] == ligne);
    assert(l.skip(1) =~= suite);
}

/// A number is read in the name of the file alone, from the first mark of a
/// piece on: the digits that follow it, if there are any and they hold in 32
/// bits.
pub proof fn loi_numero_lu(debut: Seq<char>, n: nat, suite: Seq<char>)
    requires
        texte::premiere(debut + "m_"@ + texte::decimal(n) + suite, "m_"@) == Some(
            debut.len() as int,
        ),
        suite.len() > 0 ==> !texte::est_chiffre(suite[0]),
    ensures
        numero_morceau(debut + "m_"@ + texte::decimal(n) + suite) == if n <= u32::MAX {
            Some(n)
        } else {
            None::<nat>
        },
{
    reveal_strlit("m_");
    let nom = debut + "m_"@ + texte::decimal(n) + suite;
    texte::lemme_decimal_relu(n);
    texte::lemme_tete_numerique(texte::decimal(n), suite);
    assert(nom.skip(debut.len() + 2int) =~= texte::decimal(n) + suite);
}

/// Of what FFmpeg says, the last lines are kept, trimmed, without the empty
/// ones, in their order.
pub proof fn loi_journal(lignes: Seq<Seq<char>>, l: Seq<char>, a: Seq<Seq<char>>, b: Seq<Seq<char>>)
    ensures
        utiles(Seq::empty()) == Seq::<Seq<char>>::empty(),
        utiles(lignes.push(l)) == if texte::rogne(l).len() > 0 {
            utiles(lignes).push(texte::rogne(l))
        } else {
            utiles(lignes)
        },
        derniers(a + b, b.len()) == b,
        derniers(b, b.len() + a.len()) == b,
{
    assert(lignes.push(l).drop_last() =~= lignes);
    assert((a + b).skip(a.len() as int) =~= b);
    if a.len() == 0 {
        assert(a + b =~= b);
    }
}

/// The first piece starts with the recording, and each one when the one
/// before ends.
pub proof fn loi_premier_morceau(plan: SegmentPlan, i: u32, j: u32)
    ensures
        decalage_morceau(plan, 0) == 0,
        decalage_morceau(plan, j) - decalage_morceau(plan, i) == 1000 * ((j - i)
            * plan.segment_secs),
{
    let d = plan.segment_secs as int;
    assert((j - i) * d == j * d - i * d) by (nonlinear_arith);
}

/// The words between the values never change: how the camera is read, and how
/// its images are compressed.
pub proof fn loi_mots_de_la_commande(config: RecordingConfig, plan: SegmentPlan, motif: Seq<char>)
    ensures
        ({
            let a = arguments(config, plan, motif);
            &&& a[0] == "-hide_banner"@
            &&& a.subrange(7, 9) == seq!["-rtbufsize"@, "512M"@]
            &&& a.subrange(11, 15) == seq!["-c:v"@, "libx264"@, "-preset"@, "veryfast"@]
            &&& a.subrange(21, 25) == seq!["-sc_threshold"@, "0"@, "-pix_fmt"@, "yuv420p"@]
        }),
{
    let a = arguments(config, plan, motif);
    let image = arguments_image(config);
    assert(a.subrange(0, 25) =~= image);
    assert(a[0] == image[0]);
    assert(a.subrange(7, 9) =~= image.subrange(7, 9));
    assert(a.subrange(11, 15) =~= image.subrange(11, 15));
    assert(a.subrange(21, 25) =~= image.subrange(21, 25));
    assert(image.subrange(7, 9) =~= seq!["-rtbufsize"@, "512M"@]);
    assert(image.subrange(11, 15) =~= seq!["-c:v"@, "libx264"@, "-preset"@, "veryfast"@]);
    assert(image.subrange(21, 25) =~= seq!["-sc_threshold"@, "0"@, "-pix_fmt"@, "yuv420p"@]);
}

/// The path that a line announces stands between the opening and the closing
/// words: up to the quote when there is one, otherwise up to the words.
pub proof fn loi_chemin_annonce(avant: Seq<char>, suite: Seq<char>)
    requires
        texte::premiere(avant + "Opening"@ + suite, "Opening"@) == Some(avant.len() as int),
    ensures
        ({
            let c = chemin_ouvert(avant + "Opening"@ + suite);
            &&& texte::premiere(suite, "' for writing"@) matches Some(p) ==> c == suite.take(p)
            &&& texte::premiere(suite, "' for writing"@) is None ==> (
            texte::premiere(suite, "for writing"@) matches Some(q) ==> c == suite.take(q))
            &&& texte::premiere(suite, "for writing"@) is None ==> c == suite
        }),
{
    reveal_strlit("Opening");
    reveal_strlit("' for writing");
    reveal_strlit("for writing");
    let ligne = avant + "Opening"@ + suite;
    assert(ligne.skip(avant.len() + 7int) =~= suite);
    texte::loi_premiere(suite, "' for writing"@);
    texte::loi_premiere(suite, "for writing"@);
    if let Some(p) = texte::premiere(suite, "' for writing"@) {
        let r = suite.take(p) + "' for writing"@ + suite.skip(p + 13);
        assert(suite == r);
        assert(suite.subrange(p + 2, p + 13) =~= "for writing"@);
        assert(texte::occurrence(suite, "for writing"@, p + 2));
    }
}

/// The name of a file is what follows the last bar of its path, of either
/// kind.
pub proof fn loi_nom_de_fichier(dossier: Seq<char>, nom: Seq<char>)
    requires
        dossier.len() == 0 || dossier.last() == '/' || dossier.last() == '\\',
        !nom.contains('/'),
        !nom.contains('\\'),
    ensures
        nom_fichier(dossier + nom) == nom,
{
    lemme_nom_fichier(dossier, nom);
}

/// A name without the mark of a piece has no number, nor has one whose mark
/// no digit follows.
pub proof fn loi_sans_numero(debut: Seq<char>, suite: Seq<char>)
    ensures
        texte::premiere(debut, "m_"@) is None ==> numero_morceau(debut) is None,
        texte::premiere(debut + "m_"@ + suite, "m_"@) == Some(debut.len() as int) && (suite.len()
            == 0 || !texte::est_chiffre(suite[0])) ==> numero_morceau(debut + "m_"@ + suite) is None,
{
    reveal_strlit("m_");
    let nom = debut + "m_"@ + suite;
    assert(nom.skip(debut.len() + 2int) =~= suite);
    if suite.len() == 0 || !texte::est_chiffre(suite[0]) {
        texte::lemme_tete_numerique(Seq::empty(), suite);
        assert(Seq::<char>::empty() + suite =~= suite);
    }
}

} // verus!
