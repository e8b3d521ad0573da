//! The manifest of a recording session: what was filmed, when, in which
//! files. It can be used at any time during the session.

use crate::assembler;
use crate::assembler::AssembledClip;
use crate::chrono_simple::{iso, Instant};
use crate::frames::{ExtractedFrame, LARGEUR_ANALYSE};
use crate::recorder;
use crate::recorder::{RecordingConfig, SegmentPlan};
use crate::texte;
use vstd::prelude::*;

verus! {

/// The manifest.
pub struct Manifest {
    /// Version of the format.
    pub version: String,
    pub session: SessionInfo,
    pub capture: CaptureInfo,
    pub analyse: AnalyseInfo,
    pub clips: Vec<ClipEntry>,
}

/// The session: with a clip's number, its identifier joins the versions of a
/// clip.
pub struct SessionInfo {
    pub identifiant: String,
    pub debut: String,
    pub fin: Option<String>,
    pub attimo: AttimoInfo,
}

/// The event filmed.
#[derive(Clone, Copy, PartialEq, Eq, Structural, Debug)]
pub struct AttimoInfo {
    pub tenant_id: i64,
    pub event_id: i64,
    pub checkpoint_id: Option<i64>,
}

/// The settings of the recording.
pub struct CaptureInfo {
    pub peripherique: String,
    pub resolution: String,
    pub fps: u32,
    pub debit_mbps: u32,
    pub duree_clip_secondes: u32,
    pub chevauchement_secondes: u32,
    pub duree_morceau_secondes: u32,
}

/// The analysis frames.
pub struct AnalyseInfo {
    pub actif: bool,
    pub dossier: String,
    pub index: String,
    pub largeur_pixels: u32,
    pub images_produites: u64,
}

/// A clip, with its absolute dates.
pub struct ClipEntry {
    pub numero: u32,
    pub fichier: String,
    pub debut: String,
    pub fin: String,
    pub octets: u64,
    /// All the pieces expected were there.
    pub complet: bool,
    pub morceaux: Vec<u32>,
}

/// Keeps the manifest up to date.
pub struct ManifestWriter {
    pub manifeste: Manifest,
    pub debut_session: Instant,
    pub duree_morceau: u32,
}

/// A clip starts and ends that long after the session, in milliseconds.
pub open spec fn debut_clip(debut_session: int, clip: AssembledClip) -> int {
    debut_session + clip.offset_secs * 1000
}

pub open spec fn fin_clip(debut_session: int, clip: AssembledClip) -> int {
    debut_clip(debut_session, clip) + clip.duration_secs * 1000
}

/// The entry is that of a clip of a session.
pub open spec fn est_entree(e: ClipEntry, clip: AssembledClip, debut_session: int, complet: bool) -> bool {
    &&& e.numero == clip.index
    &&& e.fichier@ == "clips/"@ + clip.filename@
    &&& e.debut@ == iso(debut_clip(debut_session, clip))
    &&& e.fin@ == iso(fin_clip(debut_session, clip))
    &&& e.octets == clip.size_bytes
    &&& e.complet == complet
    &&& e.morceaux@ == clip.segments@
}

/// A line of the index of frames.
pub open spec fn ligne_image(image: ExtractedFrame) -> Seq<char> {
    "{\"fichier\":\""@ + image.filename@ + "\",\"instant\":\""@ + image.instant_at@
        + "\",\"octets\":"@ + texte::decimal(image.size_bytes as nat) + "}\n"@
}

/// The lines of the index for these frames.
pub open spec fn lignes_images(images: Seq<ExtractedFrame>) -> Seq<char>
    decreases images.len(),
{
    if images.len() == 0 {
        Seq::empty()
    } else {
        lignes_images(images.drop_last()) + ligne_image(images.last())
    }
}

impl ManifestWriter {
    /// The manifest of a session that starts.
    pub fn new(
        session_id: &str,
        config: &RecordingConfig,
        plan: &SegmentPlan,
        attimo: AttimoInfo,
        debut_session: Instant,
    ) -> (r: Self)
        ensures
            r.debut_session == debut_session,
            r.duree_morceau == plan.segment_secs,
            r.manifeste.version@ == "1.3"@,
            r.manifeste.session.identifiant@ == session_id@,
            r.manifeste.session.debut@ == iso(debut_session@),
            r.manifeste.session.fin is None,
            r.manifeste.session.attimo == attimo,
            r.manifeste.capture.peripherique@ == config.device_name@,
            r.manifeste.capture.resolution@ == texte::decimal(config.width as nat) + "x"@
                + texte::decimal(config.height as nat),
            r.manifeste.capture.fps == config.fps,
            r.manifeste.capture.debit_mbps == config.bitrate_mbps,
            r.manifeste.capture.duree_clip_secondes == config.clip_duration_secs,
            r.manifeste.capture.chevauchement_secondes == config.overlap_secs,
            r.manifeste.capture.duree_morceau_secondes == plan.segment_secs,
            r.manifeste.analyse.actif,
            r.manifeste.analyse.dossier@ == "_analyse"@,
            r.manifeste.analyse.index@ == "_analyse/images.jsonl"@,
            r.manifeste.analyse.largeur_pixels == LARGEUR_ANALYSE,
            r.manifeste.analyse.images_produites == 0,
            r.manifeste.clips@ == Seq::<ClipEntry>::empty(),
    {
        let manifeste = Manifest {
            version: "1.3".to_owned(),
            session: SessionInfo {
                identifiant: session_id.to_owned(),
                debut: debut_session.to_iso8601(),
                fin: None,
                attimo,
            },
            capture: CaptureInfo {
                peripherique: config.device_name.clone(),
                resolution: texte::joindre3(
                    texte::ecrire(config.width as u64).as_str(),
                    "x",
                    texte::ecrire(config.height as u64).as_str(),
                ),
                fps: config.fps,
                debit_mbps: config.bitrate_mbps,
                duree_clip_secondes: config.clip_duration_secs,
                chevauchement_secondes: config.overlap_secs,
                duree_morceau_secondes: plan.segment_secs,
            },
            analyse: AnalyseInfo {
                actif: true,
                dossier: "_analyse".to_owned(),
                index: "_analyse/images.jsonl".to_owned(),
                largeur_pixels: LARGEUR_ANALYSE,
                images_produites: 0,
            },
            clips: Vec::new(),
        };
        ManifestWriter { manifeste, debut_session, duree_morceau: plan.segment_secs }
    }

    /// Adds a clip, dated from the start of the session.
    pub fn ajouter_clip(&mut self, clip: &AssembledClip, complet: bool)
        requires
            fin_clip(old(self).debut_session@, *clip) <= i64::MAX,
        ensures
            final(self).manifeste.clips@.len() == old(self).manifeste.clips@.len() + 1,
            final(self).manifeste.clips@.drop_last() == old(self).manifeste.clips@,
            est_entree(
                final(self).manifeste.clips@.last(),
                *clip,
                old(self).debut_session@,
                complet,
            ),
            final(self).manifeste.version == old(self).manifeste.version,
            final(self).manifeste.session == old(self).manifeste.session,
            final(self).manifeste.capture == old(self).manifeste.capture,
            final(self).manifeste.analyse == old(self).manifeste.analyse,
            final(self).debut_session == old(self).debut_session,
            final(self).duree_morceau == old(self).duree_morceau,
    {
        proof {
            self.debut_session.lemme_borne();
        }
        let debut = self.debut_session.plus_millis(clip.offset_secs as i64 * 1000);
        let fin = debut.plus_millis(clip.duration_secs as i64 * 1000);
        let entree = ClipEntry {
            numero: clip.index,
            fichier: texte::joindre("clips/", clip.filename.as_str()),
            debut: debut.to_iso8601(),
            fin: fin.to_iso8601(),
            octets: clip.size_bytes,
            complet,
            morceaux: assembler::copier(&clip.segments),
        };
        self.manifeste.clips.push(entree);
        assert(self.manifeste.clips@.drop_last() =~= old(self).manifeste.clips@);
    }

    /// Counts the frames of a piece, and gives the lines to add to their
    /// index: it is only ever added to.
    pub fn ajouter_images(&mut self, images: &Vec<ExtractedFrame>) -> (r: String)
        requires
            old(self).manifeste.analyse.images_produites + images@.len() <= u64::MAX,
        ensures
            r@ == lignes_images(images@),
            final(self).manifeste.analyse == (AnalyseInfo {
                images_produites: (old(self).manifeste.analyse.images_produites
                    + images@.len()) as u64,
                ..old(self).manifeste.analyse
            }),
            final(self).manifeste.version == old(self).manifeste.version,
            final(self).manifeste.session == old(self).manifeste.session,
            final(self).manifeste.capture == old(self).manifeste.capture,
            final(self).manifeste.clips == old(self).manifeste.clips,
            final(self).debut_session == old(self).debut_session,
            final(self).duree_morceau == old(self).duree_morceau,
    {
        let mut r = String::new();
        let mut i: usize = 0;
        while i < images.len()
            invariant
                i <= images@.len(),
                r@ == lignes_images(images@.take(i as int)),
            decreases images@.len() - i,
        {
            assert(images@.take(i + 1).drop_last() =~= images@.take(i as int));
            let ghost avant = r@;
            r.append("{\"fichier\":\"");
            r.append(images[i].filename.as_str());
            r.append("\",\"instant\":\"");
            r.append(images[i].instant_at.as_str());
            r.append("\",\"octets\":");
            r.append(texte::ecrire(images[i].size_bytes).as_str());
            r.append("}\n");
            assert(r@ =~= avant + ligne_image(images@[i as int]));
            i += 1;
        }
        assert(images@.take(images@.len() as int) =~= images@);
        self.manifeste.analyse.images_produites = self.manifeste.analyse.images_produites
            + images.len() as u64;
        r
    }

    /// The session of `avant` was closed at that instant: it has its end, and
    /// nothing else changed.
    pub open spec fn cloture_de(self, avant: Self, fin: int) -> bool {
        &&& self.manifeste.session.fin matches Some(f) && f@ == iso(fin)
        &&& self.manifeste.session.identifiant == avant.manifeste.session.identifiant
        &&& self.manifeste.session.debut == avant.manifeste.session.debut
        &&& self.manifeste.session.attimo == avant.manifeste.session.attimo
        &&& self.manifeste.version == avant.manifeste.version
        &&& self.manifeste.capture == avant.manifeste.capture
        &&& self.manifeste.analyse == avant.manifeste.analyse
        &&& self.manifeste.clips == avant.manifeste.clips
        &&& self.debut_session == avant.debut_session
        &&& self.duree_morceau == avant.duree_morceau
    }

    /// Closes the session.
    pub fn cloturer(&mut self, fin: &Instant)
        ensures
            final(self).cloture_de(*old(self), fin@),
    {
        self.manifeste.session.fin = Some(fin.to_iso8601());
    }

    pub fn manifeste(&self) -> (r: &Manifest)
        ensures
            *r == self.manifeste,
    {
        &self.manifeste
    }

    /// Seconds in a piece.
    pub fn duree_morceau(&self) -> (r: u32)
        ensures
            r == self.duree_morceau,
    {
        self.duree_morceau
    }
}

/// Two full clips in a row overlap in the manifest by exactly the seconds
/// that the plan repeats: the second starts that long before the first ends.
pub proof fn loi_clips_se_chevauchent(
    plan: SegmentPlan,
    debut_session: int,
    premier: AssembledClip,
    second: AssembledClip,
    n: int,
)
    requires
        plan.valide(),
        1 <= n,
        premier.offset_secs == (n - 1) * plan.step_secs,
        second.offset_secs == n * plan.step_secs,
        premier.duration_secs == plan.segments_per_clip * plan.segment_secs,
    ensures
        fin_clip(debut_session, premier) - debut_clip(debut_session, second) == (
        plan.segments_per_clip - plan.segments_step) * plan.segment_secs * 1000,
        debut_clip(debut_session, second) <= fin_clip(debut_session, premier),
{
    let s = plan.step_secs as int;
    let p = plan.segments_per_clip as int;
    let t = plan.segments_step as int;
    let d = plan.segment_secs as int;
    assert(n * s == (n - 1) * s + s) by (nonlinear_arith);
    assert((p - t) * d == p * d - t * d) by (nonlinear_arith);
    assert((p - t) * d >= 0) by (nonlinear_arith)
        requires
            p >= t,
            d >= 0,
    ;
}

/// A frame is covered by every full clip that holds its piece: it was filmed
/// neither before the clip starts nor after it ends. This is how a clip is
/// found from the instant at which someone passed.
pub proof fn loi_image_dans_ses_clips(
    plan: SegmentPlan,
    debut_session: int,
    clip: AssembledClip,
    n: int,
    morceau: u32,
    decalage_ms: int,
)
    requires
        plan.valide(),
        1 <= n,
        clip.offset_secs == (n - 1) * plan.step_secs,
        clip.duration_secs == plan.segments_per_clip * plan.segment_secs,
        assembler::morceaux_du_clip(plan, n).contains(morceau),
        assembler::clip_numerote(plan, n),
        0 <= decalage_ms < plan.segment_secs * 1000,
    ensures
        ({
            let instant = debut_session + recorder::decalage_morceau(plan, morceau) + decalage_ms;
            debut_clip(debut_session, clip) <= instant < fin_clip(debut_session, clip)
        }),
{
    let k = assembler::morceaux_du_clip(plan, n).index_of(morceau);
    let premier = (n - 1) * plan.segments_step;
    let d = plan.segment_secs as int;
    let p = plan.segments_per_clip as int;
    assert(morceau == premier + k);
    assert((n - 1) * plan.step_secs == premier * d) by (nonlinear_arith)
        requires
            plan.step_secs == plan.segments_step * plan.segment_secs,
            premier == (n - 1) * plan.segments_step,
            d == plan.segment_secs,
    ;
    assert((premier + k) * d == premier * d + k * d) by (nonlinear_arith);
    assert(0 <= k * d && (k + 1) * d <= p * d && (k + 1) * d == k * d + d) by (nonlinear_arith)
        requires
            0 <= k < p,
            d >= 1,
    ;
}

/// An entry of the manifest says where its clip is, and when it was filmed: it
/// lasts as long as the clip, and starts as late after the session as the clip
/// does.
pub proof fn loi_entree_du_clip(e: ClipEntry, clip: AssembledClip, debut_session: int, complet: bool)
    requires
        est_entree(e, clip, debut_session, complet),
    ensures
        e.numero == clip.index,
        e.fichier@.take(6) == "clips/"@,
        e.fichier@.skip(6) == clip.filename@,
        e.debut@ == iso(debut_session + 1000 * clip.offset_secs),
        e.fin@ == iso(debut_session + 1000 * (clip.offset_secs + clip.duration_secs)),
        fin_clip(debut_session, clip) - debut_clip(debut_session, clip) == 1000 * clip.duration_secs,
        debut_clip(debut_session, clip) - debut_session == 1000 * clip.offset_secs,
        e.octets == clip.size_bytes,
        e.complet == complet,
        e.morceaux@ == clip.segments@,
{
    reveal_strlit("clips/");
    assert(e.fichier@.take(6) =~= "clips/"@);
    assert(e.fichier@.skip(6) =~= clip.filename@);
}

/// A line of the index of frames, cut at its quotes, gives back the name of the
/// file, its instant and its size, each after its key.
pub proof fn loi_ligne_relue(image: ExtractedFrame)
    requires
        !image.filename@.contains('"'),
        !image.instant_at@.contains('"'),
    ensures
        ({
            let c = texte::champs(ligne_image(image), '"');
            &&& c.len() == 11
            &&& c[0] == "{"@ && c[1] == "fichier"@ && c[2] == ":"@
            &&& c[3] == image.filename@
            &&& c[4] == ","@ && c[5] == "instant"@ && c[6] == ":"@
            &&& c[7] == image.instant_at@
            &&& c[8] == ","@ && c[9] == "octets"@
            &&& c[10] == ":"@ + texte::decimal(image.size_bytes as nat) + "}\n"@
        }),
{
    reveal_strlit("{\"fichier\":\"");
    reveal_strlit("\",\"instant\":\"");
    reveal_strlit("\",\"octets\":");
    reveal_strlit("}\n");
    reveal_strlit("{");
    reveal_strlit("fichier");
    reveal_strlit(":");
    reveal_strlit(",");
    reveal_strlit("instant");
    reveal_strlit("octets");
    let n = texte::decimal(image.size_bytes as nat);
    texte::lemme_decimal_relu(image.size_bytes as nat);
    let q = seq!['"'];
    let r10 = ":"@ + n + "}\n"@;
    assert(!r10.contains('"')) by {
        if r10.contains('"') {
            let i = r10.index_of('"');
            if 1 <= i < 1 + n.len() {
                assert(texte::est_chiffre(n[i - 1]));
            }
        }
    }
    let r9 = "octets"@ + q + r10;
    let r8 = ","@ + q + r9;
    let r7 = image.instant_at@ + q + r8;
    let r6 = ":"@ + q + r7;
    let r5 = "instant"@ + q + r6;
    let r4 = ","@ + q + r5;
    let r3 = image.filename@ + q + r4;
    let r2 = ":"@ + q + r3;
    let r1 = "fichier"@ + q + r2;
    let r0 = "{"@ + q + r1;
    assert(ligne_image(image) =~= r0);
    texte::loi_champs(r10, '"', r10);
    texte::loi_champs("octets"@, '"', r10);
    texte::loi_champs(","@, '"', r9);
    texte::loi_champs(image.instant_at@, '"', r8);
    texte::loi_champs(":"@, '"', r7);
    texte::loi_champs("instant"@, '"', r6);
    texte::loi_champs(","@, '"', r5);
    texte::loi_champs(image.filename@, '"', r4);
    texte::loi_champs(":"@, '"', r3);
    texte::loi_champs("fichier"@, '"', r2);
    texte::loi_champs("{"@, '"', r1);
}

/// The index has one line for each frame, in their order, and what is written
/// in two goes reads as what is written in one.
pub proof fn loi_index_continu(a: Seq<ExtractedFrame>, b: Seq<ExtractedFrame>, image: ExtractedFrame)
    ensures
        lignes_images(Seq::empty()) == Seq::<char>::empty(),
        lignes_images(seq![image]) == ligne_image(image),
        lignes_images(a + b) == lignes_images(a) + lignes_images(b),
    decreases b.len(),
{
    reveal_with_fuel(lignes_images, 2);
    assert(seq![image].drop_last() =~= Seq::<ExtractedFrame>::empty());
    assert(lignes_images(seq![image]) =~= ligne_image(image));
    if b.len() == 0 {
        assert(a + b =~= a);
        assert(lignes_images(a + b) =~= lignes_images(a) + lignes_images(b));
    } else {
        loi_index_continu(a, b.drop_last(), image);
        assert((a + b).drop_last() =~= a + b.drop_last());
        assert(lignes_images(a + b) =~= lignes_images(a) + lignes_images(b));
    }
}

/// Closing a session writes its end, and changes nothing else of what was
/// recorded.
pub proof fn loi_cloture(m: ManifestWriter, avant: ManifestWriter, fin: int)
    requires
        m.cloture_de(avant, fin),
    ensures
        texte::vue(m.manifeste.session.fin) == Some(iso(fin)),
        m.manifeste.session.identifiant == avant.manifeste.session.identifiant,
        m.manifeste.session.debut == avant.manifeste.session.debut,
        m.manifeste.session.attimo == avant.manifeste.session.attimo,
        m.manifeste.version == avant.manifeste.version,
        m.manifeste.capture == avant.manifeste.capture,
        m.manifeste.analyse == avant.manifeste.analyse,
        m.manifeste.clips == avant.manifeste.clips,
        m.debut_session == avant.debut_session,
        m.duree_morceau == avant.duree_morceau,
{
}

} // verus!
