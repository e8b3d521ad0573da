//! Disk space: what a recording writes, what must stay free, when to stop.

use crate::recorder::{RecordingConfig, SegmentPlan};
use crate::texte;
use vstd::arithmetic::div_mod::{
    lemma_div_is_ordered, lemma_div_multiples_vanish, lemma_fundamental_div_mod,
};
use vstd::prelude::*;

verus! {

/// A gibibyte.
pub const GIO: u64 = 1_073_741_824;

/// What stays free on the system's disk: 50 GiB.
pub const RESERVE_DISQUE_SYSTEME: u64 = 53_687_091_200;

/// What stays free at least on another disk: 10 GiB.
pub const RESERVE_DISQUE_DONNEES: u64 = 10_737_418_240;

/// The weight of a frame, before any is measured.
pub const POIDS_IMAGE_SUPPOSE: u64 = 300_000;

/// Bits per second of the sound, in the source and in the light version.
pub const DEBIT_AUDIO_SOURCE: u64 = 128_000;

pub const DEBIT_AUDIO_PROXY: u64 = 96_000;

/// Megabits per second of the light version, unless told otherwise.
pub const PROXY_DEBIT_MBPS_DEFAUT: u32 = 2;

/// Seconds between two looks at the disk.
pub const PERIODE_SURVEILLANCE_SECS: u64 = 15;

/// Seconds before the rate is measured rather than computed.
pub const DELAI_AVANT_MESURE_SECS: u64 = 120;

/// Seconds left below which the photographer is warned, then pressed, then
/// the recording stopped.
pub const SEUIL_ALERTE_SECS: u64 = 1_800;

pub const SEUIL_ALERTE_FORTE_SECS: u64 = 900;

pub const SEUIL_ARRET_SECS: u64 = 300;

/// Seconds left below which a recording does not start.
pub const AUTONOMIE_MINIMALE_SECS: u64 = 600;

// ─── What a recording writes ───────────────────────────────────────────

/// The settings on which the amount written depends.
#[derive(Clone, Copy, PartialEq, Eq, Structural, Debug)]
pub struct FluxParams {
    pub bitrate_mbps: u32,
    pub avec_audio: bool,
    pub clip_duration_secs: u32,
    pub step_secs: u32,
    pub proxy_bitrate_mbps: u32,
    pub frame_avg_bytes: u64,
}

/// Bytes per second, by what is written.
#[derive(Clone, Copy, PartialEq, Eq, Structural, Debug)]
pub struct Debits {
    pub morceaux: u64,
    pub clips: u64,
    pub proxies: u64,
    pub images: u64,
}

impl Debits {
    pub open spec fn somme(self) -> int {
        self.morceaux + self.clips + self.proxies + self.images
    }

    /// Bytes per second, in all.
    pub fn total(&self) -> (r: u64)
        requires
            self.somme() <= u64::MAX,
        ensures
            r == self.somme(),
    {
        self.morceaux + self.clips + self.proxies + self.images
    }
}

impl FluxParams {
    /// Bytes per second of the source: image and sound.
    pub open spec fn source(self) -> int {
        self.bitrate_mbps * 1_000_000 / 8 + if self.avec_audio {
            DEBIT_AUDIO_SOURCE as int / 8
        } else {
            0
        }
    }

    /// Bytes per second of the light version: image and sound.
    pub open spec fn proxy(self) -> int {
        self.proxy_bitrate_mbps * 1_000_000 / 8 + if self.avec_audio {
            DEBIT_AUDIO_PROXY as int / 8
        } else {
            0
        }
    }

    /// The settings of a recording.
    pub fn depuis_config(
        config: &RecordingConfig,
        plan: &SegmentPlan,
        proxy_bitrate_mbps: Option<u32>,
    ) -> (r: Self)
        ensures
            r == (FluxParams {
                bitrate_mbps: config.bitrate_mbps,
                avec_audio: config.audio_device is Some,
                clip_duration_secs: config.clip_duration_secs,
                step_secs: plan.step_secs,
                proxy_bitrate_mbps: match proxy_bitrate_mbps {
                    Some(d) => d,
                    None => PROXY_DEBIT_MBPS_DEFAUT,
                },
                frame_avg_bytes: POIDS_IMAGE_SUPPOSE,
            }),
    {
        FluxParams {
            bitrate_mbps: config.bitrate_mbps,
            avec_audio: config.audio_device.is_some(),
            clip_duration_secs: config.clip_duration_secs,
            step_secs: plan.step_secs,
            proxy_bitrate_mbps: match proxy_bitrate_mbps {
                Some(d) => d,
                None => PROXY_DEBIT_MBPS_DEFAUT,
            },
            frame_avg_bytes: POIDS_IMAGE_SUPPOSE,
        }
    }

    /// Bytes per second of the source.
    pub fn debit_source(&self) -> (r: u64)
        ensures
            r == self.source(),
    {
        let video: u64 = (self.bitrate_mbps as u64 * 1_000_000) / 8;
        let audio: u64 = if self.avec_audio {
            DEBIT_AUDIO_SOURCE / 8
        } else {
            0
        };
        video + audio
    }

    /// Bytes per second of the light version.
    pub fn debit_proxy(&self) -> (r: u64)
        ensures
            r == self.proxy(),
    {
        let video: u64 = (self.proxy_bitrate_mbps as u64 * 1_000_000) / 8;
        let audio: u64 = if self.avec_audio {
            DEBIT_AUDIO_PROXY / 8
        } else {
            0
        };
        video + audio
    }
}

// ─── What must stay free ───────────────────────────────────────────────

/// What must stay free: fifty gibibytes on the system's disk; elsewhere ten
/// gibibytes or the size of three clips, whichever is more.
pub open spec fn reserve(flux: FluxParams, systeme: bool) -> int {
    if systeme {
        RESERVE_DISQUE_SYSTEME as int
    } else if flux.source() * flux.clip_duration_secs * 3 > RESERVE_DISQUE_DONNEES {
        flux.source() * flux.clip_duration_secs * 3
    } else {
        RESERVE_DISQUE_DONNEES as int
    }
}

pub fn reserve_pour(flux: &FluxParams, systeme: bool) -> (r: u64)
    requires
        reserve(*flux, systeme) <= u64::MAX,
    ensures
        r == reserve(*flux, systeme),
        r >= RESERVE_DISQUE_DONNEES,
{
    if systeme {
        return RESERVE_DISQUE_SYSTEME;
    }
    let source: u64 = flux.debit_source();
    proof {
        let s = source as int;
        let d = flux.clip_duration_secs as int;
        assert(0 <= s * d <= s * d * 3) by (nonlinear_arith)
            requires
                s >= 0,
                d >= 0,
        ;
    }
    let taille_clip: u64 = source * flux.clip_duration_secs as u64;
    if taille_clip * 3 > RESERVE_DISQUE_DONNEES {
        taille_clip * 3
    } else {
        RESERVE_DISQUE_DONNEES
    }
}

/// The difference, or zero.
pub open spec fn reste(a: int, b: int) -> int {
    if a < b {
        0
    } else {
        a - b
    }
}

/// What a recording would write in an hour, and for how long there is room.
pub struct DiskEstimate {
    pub segments_per_hour: u64,
    pub clips_per_hour: u64,
    pub proxies_per_hour: u64,
    pub frames_per_hour: u64,
    pub total_per_hour: u64,
    pub free_bytes: u64,
    pub reserve_bytes: u64,
    pub usable_bytes: u64,
    pub autonomy_secs: u64,
    pub on_system_disk: bool,
    pub measured_path: String,
}

/// The estimate for these settings and rates, with `libre` bytes free on the
/// disk of `chemin`.
pub fn estimer(libre: u64, systeme: bool, flux: &FluxParams, debits: &Debits, chemin: &str) -> (r:
    DiskEstimate)
    requires
        reserve(*flux, systeme) <= u64::MAX,
        debits.somme() * 3600 <= u64::MAX,
    ensures
        r.segments_per_hour == debits.morceaux * 3600,
        r.clips_per_hour == debits.clips * 3600,
        r.proxies_per_hour == debits.proxies * 3600,
        r.frames_per_hour == debits.images * 3600,
        r.total_per_hour == debits.somme() * 3600,
        r.total_per_hour == r.segments_per_hour + r.clips_per_hour + r.proxies_per_hour
            + r.frames_per_hour,
        r.free_bytes == libre,
        r.reserve_bytes == reserve(*flux, systeme),
        r.usable_bytes == reste(libre as int, reserve(*flux, systeme)),
        r.autonomy_secs == if debits.somme() > 0 {
            r.usable_bytes as int / debits.somme()
        } else {
            0
        },
        r.on_system_disk == systeme,
        r.measured_path@ == chemin@,
{
    let reserve: u64 = reserve_pour(flux, systeme);
    let utilisable: u64 = libre.saturating_sub(reserve);
    let total: u64 = debits.total();
    let autonomie: u64 = if total > 0 {
        utilisable / total
    } else {
        0
    };
    DiskEstimate {
        segments_per_hour: debits.morceaux * 3600,
        clips_per_hour: debits.clips * 3600,
        proxies_per_hour: debits.proxies * 3600,
        frames_per_hour: debits.images * 3600,
        total_per_hour: total * 3600,
        free_bytes: libre,
        reserve_bytes: reserve,
        usable_bytes: utilisable,
        autonomy_secs: autonomie,
        on_system_disk: systeme,
        measured_path: chemin.to_owned(),
    }
}

/// May a recording start? Not with less than ten minutes of room.
pub fn autoriser_depart(e: &DiskEstimate) -> (r: Result<(), String>)
    ensures
        e.autonomy_secs >= AUTONOMIE_MINIMALE_SECS ==> r is Ok,
        e.autonomy_secs < AUTONOMIE_MINIMALE_SECS ==> (r matches Err(m) && m@
            == "Espace disque insuffisant : "@ + texte::decimal((e.usable_bytes / GIO) as nat)
            + " Go utilisables pour "@ + texte::decimal((e.total_per_hour / GIO) as nat)
            + " Go/h. Libérez de la place ou choisissez un autre disque."@),
{
    if e.autonomy_secs >= AUTONOMIE_MINIMALE_SECS {
        return Ok(());
    }
    let mut m = texte::joindre3(
        "Espace disque insuffisant : ",
        texte::ecrire(e.usable_bytes / GIO).as_str(),
        " Go utilisables pour ",
    );
    m.append(texte::ecrire(e.total_per_hour / GIO).as_str());
    m.append(" Go/h. Libérez de la place ou choisissez un autre disque.");
    Err(m)
}

// ─── Watching the disk ─────────────────────────────────────────────────

/// How pressing the lack of room is.
#[derive(Clone, Copy, PartialEq, Eq, Structural, Debug)]
pub enum DiskLevel {
    /// There is room enough.
    Normal,
    Warning,
    Critical,
    /// The recording is stopped.
    Stopped,
}

/// The state of the disk during a recording.
#[derive(Clone, Copy, PartialEq, Eq, Structural, Debug)]
pub struct DiskStatus {
    pub level: DiskLevel,
    pub free_bytes: u64,
    pub usable_bytes: u64,
    pub written_bytes: u64,
    pub rate_bytes_per_sec: u64,
    /// The rate was measured, not computed from the settings.
    pub rate_measured: bool,
    /// Zero when nothing is being written.
    pub autonomy_secs: u64,
    pub elapsed_secs: u64,
}

/// The level for so many seconds left; none when nothing is being written.
pub open spec fn niveau(autonomie: Option<int>) -> DiskLevel {
    match autonomie {
        None => DiskLevel::Normal,
        Some(s) => if s < SEUIL_ARRET_SECS {
            DiskLevel::Stopped
        } else if s < SEUIL_ALERTE_FORTE_SECS {
            DiskLevel::Critical
        } else if s < SEUIL_ALERTE_SECS {
            DiskLevel::Warning
        } else {
            DiskLevel::Normal
        },
    }
}

/// The rate of writing: measured once two minutes have passed and something
/// was written, computed until then.
pub open spec fn debit_retenu(ecrit: int, ecoule: int, theorique: int) -> int {
    if ecoule >= DELAI_AVANT_MESURE_SECS && ecrit > 0 {
        ecrit / ecoule
    } else {
        theorique
    }
}

/// How long there is room, at this rate.
pub open spec fn autonomie(utilisable: int, debit: int) -> Option<int> {
    if debit > 0 {
        Some(utilisable / debit)
    } else {
        None
    }
}

/// The state of the disk, from what is free, what the directory weighs and
/// weighed at the start, the seconds since then, the rate computed from the
/// settings and what must stay free.
pub fn evaluer(
    libre: u64,
    taille: u64,
    reference: u64,
    ecoule: u64,
    debit_theorique: u64,
    reserve: u64,
) -> (r: DiskStatus)
    ensures
        r.free_bytes == libre,
        r.usable_bytes == reste(libre as int, reserve as int),
        r.written_bytes == reste(taille as int, reference as int),
        r.rate_measured == (ecoule >= DELAI_AVANT_MESURE_SECS && r.written_bytes > 0),
        r.rate_bytes_per_sec == debit_retenu(
            r.written_bytes as int,
            ecoule as int,
            debit_theorique as int,
        ),
        r.autonomy_secs == match autonomie(r.usable_bytes as int, r.rate_bytes_per_sec as int) {
            Some(s) if s < u64::MAX => s,
            _ => 0int,
        },
        r.level == niveau(autonomie(r.usable_bytes as int, r.rate_bytes_per_sec as int)),
        r.elapsed_secs == ecoule,
        // A measured rate is the mean over the whole time elapsed.
        r.rate_measured ==> r.rate_bytes_per_sec * ecoule <= r.written_bytes < (
        r.rate_bytes_per_sec + 1) * ecoule,
{
    let ecrit: u64 = taille.saturating_sub(reference);
    let mesure_fiable: bool = ecoule >= DELAI_AVANT_MESURE_SECS && ecrit > 0;
    let debit: u64 = if mesure_fiable {
        ecrit / ecoule
    } else {
        debit_theorique
    };
    proof {
        if mesure_fiable {
            loi_debit_moyen(ecrit as int, ecoule as int, debit_theorique as int, 1);
        }
    }
    let utilisable: u64 = libre.saturating_sub(reserve);
    let autonomie: u64 = if debit > 0 {
        utilisable / debit
    } else {
        u64::MAX
    };
    let level = if autonomie < SEUIL_ARRET_SECS {
        DiskLevel::Stopped
    } else if autonomie < SEUIL_ALERTE_FORTE_SECS {
        DiskLevel::Critical
    } else if autonomie < SEUIL_ALERTE_SECS {
        DiskLevel::Warning
    } else {
        DiskLevel::Normal
    };
    DiskStatus {
        level,
        free_bytes: libre,
        usable_bytes: utilisable,
        written_bytes: ecrit,
        rate_bytes_per_sec: debit,
        rate_measured: mesure_fiable,
        autonomy_secs: if autonomie == u64::MAX {
            0
        } else {
            autonomie
        },
        elapsed_secs: ecoule,
    }
}

/// How severe a level is.
pub open spec fn gravite(l: DiskLevel) -> int {
    match l {
        DiskLevel::Normal => 0,
        DiskLevel::Warning => 1,
        DiskLevel::Critical => 2,
        DiskLevel::Stopped => 3,
    }
}

/// Less room is never less pressing, at the same rate.
pub proof fn loi_moins_de_place_plus_grave(moins: int, plus: int, debit: int)
    requires
        0 <= moins <= plus,
    ensures
        gravite(niveau(autonomie(moins, debit))) >= gravite(niveau(autonomie(plus, debit))),
{
    if debit > 0 {
        lemma_div_is_ordered(moins, plus, debit);
    }
}

/// A recording is stopped while the reserve is still whole: the room that
/// was counted is what lies beyond it.
pub proof fn loi_reserve_intacte(libre: int, reserve: int, debit: int)
    requires
        0 <= libre < reserve,
        debit > 0,
    ensures
        niveau(autonomie(reste(libre, reserve), debit)) == DiskLevel::Stopped,
{
    assert(0int / debit == 0) by (nonlinear_arith)
        requires
            debit > 0,
    ;
}

// ─── Paths ─────────────────────────────────────────────────────────────

/// The rank of the first existing directory among a path and those above it,
/// from whether each exists, in that order.
pub fn premier_parent_existant(dossier: &str, existe: &Vec<bool>) -> (r: Result<usize, String>)
    ensures
        match r {
            Ok(i) => i < existe@.len() && existe@[i as int] && forall|j: int|
                0 <= j < i ==> !#[trigger] existe@[j],
            Err(m) => m@ == "Aucun dossier accessible sur ce chemin : "@ + dossier@ && forall|j: int|
                0 <= j < existe@.len() ==> !#[trigger] existe@[j],
        },
{
    let mut i: usize = 0;
    while i < existe.len()
        invariant
            i <= existe@.len(),
            forall|j: int| 0 <= j < i ==> !#[trigger] existe@[j],
        decreases existe@.len() - i,
    {
        if existe[i] {
            return Ok(i);
        }
        i += 1;
    }
    Err(texte::joindre("Aucun dossier accessible sur ce chemin : ", dossier))
}

/// A path without the marks that Windows puts before a drive.
pub open spec fn sans_marque(chemin: Seq<char>, marque: Seq<char>) -> Seq<char>
    decreases chemin.len(),
{
    if marque.len() > 0 && texte::debute_par(chemin, marque) {
        sans_marque(chemin.skip(marque.len() as int), marque)
    } else {
        chemin
    }
}

/// The upper case of a text, in the sense of Unicode.
pub uninterp spec fn haut_de_casse(s: Seq<char>) -> Seq<char>;

/// `str::to_uppercase` of std: a text in upper case, in the sense of Unicode.
#[verifier::external_body]
fn en_haut_de_casse(s: &str) -> (r: String)
    ensures
        r@ == haut_de_casse(s@),
{
    s.to_uppercase()
}

/// Is a path on this drive, whatever the case in which both are written?
pub fn sur_lecteur(chemin: &str, lecteur: &str) -> (r: bool)
    ensures
        r == debute_au_lecteur(haut_de_casse(chemin@), haut_de_casse(lecteur@)),
{
    au_lecteur(en_haut_de_casse(chemin).as_str(), en_haut_de_casse(lecteur).as_str())
}

/// A path starts at this drive, once the marks of an extended path are taken
/// off.
pub open spec fn debute_au_lecteur(chemin: Seq<char>, lecteur: Seq<char>) -> bool {
    texte::debute_par(sans_marque(chemin, "\\\\?\\"@), lecteur)
}

/// Does a path start at this drive? Both are in the same case.
pub fn au_lecteur(chemin: &str, lecteur: &str) -> (r: bool)
    ensures
        r == debute_au_lecteur(chemin@, lecteur@),
{
    let marque = texte::caracteres("\\\\?\\");
    let mut v = texte::caracteres(chemin);
    proof {
        reveal_strlit("\\\\?\\");
    }
    while texte::debute(&v, &marque)
        invariant
            marque@ == "\\\\?\\"@,
            marque@.len() == 4,
            sans_marque(chemin@, "\\\\?\\"@) == sans_marque(v@, "\\\\?\\"@),
        decreases v@.len(),
    {
        let reste = texte::tranche(&v, marque.len(), v.len());
        assert(reste@ =~= v@.skip(4));
        v = reste;
    }
    texte::debute(&v, &texte::caracteres(lecteur))
}

// ─── Laws of the estimate and of the watch ─────────────────────────────

/// A measured rate is the mean over the whole time elapsed: at that rate, the
/// bytes written since the start take that time, to within one byte per
/// second. A directory that grows evenly is measured at its own rate, however
/// long the recording has lasted.
pub proof fn loi_debit_moyen(ecrit: int, ecoule: int, theorique: int, d: int)
    requires
        ecoule >= 120,
        ecrit > 0,
        d > 0,
    ensures
        debit_retenu(ecrit, ecoule, theorique) * ecoule <= ecrit < (debit_retenu(
            ecrit,
            ecoule,
            theorique,
        ) + 1) * ecoule,
        debit_retenu(d * ecoule, ecoule, theorique) == d,
{
    let r = debit_retenu(ecrit, ecoule, theorique);
    lemma_fundamental_div_mod(ecrit, ecoule);
    assert(r * ecoule <= ecrit < (r + 1) * ecoule) by (nonlinear_arith)
        requires
            ecrit == ecoule * r + ecrit % ecoule,
            0 <= ecrit % ecoule < ecoule,
    ;
    assert(d * ecoule > 0) by (nonlinear_arith)
        requires
            d > 0,
            ecoule > 0,
    ;
    lemma_div_multiples_vanish(d, ecoule);
    assert(d * ecoule == ecoule * d) by (nonlinear_arith);
}

/// Before two minutes, or as long as nothing is written, the rate is the one
/// computed from the settings.
pub proof fn loi_debit_calcule(ecrit: int, ecoule: int, theorique: int)
    requires
        ecoule < 120 || ecrit <= 0,
    ensures
        debit_retenu(ecrit, ecoule, theorique) == theorique,
{
}

/// The room left lasts as long as said: writing at that rate for that long
/// fits in it, and one more second would not.
pub proof fn loi_autonomie(utilisable: int, debit: int)
    requires
        0 <= utilisable,
    ensures
        autonomie(utilisable, debit) is Some == (debit > 0),
        autonomie(utilisable, debit) matches Some(s) ==> 0 <= s && s * debit <= utilisable < (s
            + 1) * debit,
{
    if debit > 0 {
        let s = utilisable / debit;
        lemma_fundamental_div_mod(utilisable, debit);
        assert(0 <= s && s * debit <= utilisable < (s + 1) * debit) by (nonlinear_arith)
            requires
                utilisable == debit * s + utilisable % debit,
                0 <= utilisable % debit < debit,
                0 <= utilisable,
                debit > 0,
        ;
    }
}

/// With less than five minutes of room the recording is stopped, with less
/// than fifteen the warning is strong, with less than thirty there is one, and
/// otherwise none. Nothing presses when nothing is written.
pub proof fn loi_seuils(minutes: int, s: int)
    requires
        0 <= s < 60,
    ensures
        (niveau(Some(60 * minutes + s)) == DiskLevel::Stopped) == (minutes < 5),
        (niveau(Some(60 * minutes + s)) == DiskLevel::Critical) == (5 <= minutes < 15),
        (niveau(Some(60 * minutes + s)) == DiskLevel::Warning) == (15 <= minutes < 30),
        (niveau(Some(60 * minutes + s)) == DiskLevel::Normal) == (minutes >= 30),
        niveau(None) == DiskLevel::Normal,
{
}

/// Each megabit per second is 125 000 bytes per second, of the source as of
/// the light version; sound adds 128 kilobits to the one and 96 to the other.
/// Neither depends on the bit rate of the other.
pub proof fn loi_debits(f: FluxParams, g: FluxParams)
    requires
        f.avec_audio == g.avec_audio,
    ensures
        f.source() - g.source() == 125_000 * (f.bitrate_mbps - g.bitrate_mbps),
        f.proxy() - g.proxy() == 125_000 * (f.proxy_bitrate_mbps - g.proxy_bitrate_mbps),
        f.bitrate_mbps == 0 ==> 8 * f.source() == if f.avec_audio {
            128_000int
        } else {
            0int
        },
        f.proxy_bitrate_mbps == 0 ==> 8 * f.proxy() == if f.avec_audio {
            96_000int
        } else {
            0int
        },
{
}

/// What stays free holds fifty gibibytes on the system's disk; elsewhere it
/// holds ten, and three clips, and no more than one of the two asks for.
pub proof fn loi_reserve(f: FluxParams)
    ensures
        reserve(f, true) == 50 * 1024 * 1024 * 1024,
        reserve(f, false) >= 10 * 1024 * 1024 * 1024,
        reserve(f, false) >= 3 * (f.source() * f.clip_duration_secs),
        reserve(f, false) == 10 * 1024 * 1024 * 1024 || reserve(f, false) == 3 * (f.source()
            * f.clip_duration_secs),
{
    let c = f.source() * f.clip_duration_secs;
    assert(f.source() * f.clip_duration_secs * 3 == 3 * c) by (nonlinear_arith)
        requires
            c == f.source() * f.clip_duration_secs,
    ;
}

/// What is usable and what is kept make up what is free, and nothing kept is
/// usable.
pub proof fn loi_reste(a: int, b: int)
    requires
        0 <= a,
        0 <= b,
    ensures
        0 <= reste(a, b) <= a,
        reste(a + b, b) == a,
        reste(a, a + b) == 0,
{
}

/// The rates add up.
pub proof fn loi_somme(d: Debits, e: Debits)
    ensures
        d.somme() - e.somme() == (d.morceaux - e.morceaux) + (d.clips - e.clips) + (d.proxies
            - e.proxies) + (d.images - e.images),
        d.morceaux == 0 && d.clips == 0 && d.proxies == 0 && d.images == 0 ==> d.somme() == 0,
{
}

/// A path is on the drive with which it starts, be it written as an extended
/// path or not, and on no other of that length.
pub proof fn loi_lecteur(lecteur: Seq<char>, autre: Seq<char>, suite: Seq<char>)
    requires
        lecteur.len() == autre.len() > 0,
        lecteur[0] != '\\',
    ensures
        debute_au_lecteur(lecteur + suite, lecteur),
        debute_au_lecteur("\\\\?\\"@ + lecteur + suite, lecteur),
        debute_au_lecteur(lecteur + suite, autre) ==> autre == lecteur,
        debute_au_lecteur("\\\\?\\"@ + lecteur + suite, autre) ==> autre == lecteur,
{
    reveal_strlit("\\\\?\\");
    let m = "\\\\?\\"@;
    let c = lecteur + suite;
    let e = m + lecteur + suite;
    assert(m.len() == 4 && m[0] == '\\');
    assert(!texte::debute_par(c, m)) by {
        if texte::debute_par(c, m) {
            assert(c.subrange(0, 4)[0] == c[0]);
        }
    }
    assert(e.subrange(0, 4) =~= m);
    assert(texte::debute_par(e, m));
    assert(e.skip(4) =~= c);
    assert(sans_marque(c, m) == c);
    assert(sans_marque(e, m) == sans_marque(e.skip(4), m));
    texte::loi_bouts(lecteur, suite, autre);
}

/// The levels are told apart by how serious they are.
pub proof fn loi_gravites(a: DiskLevel, b: DiskLevel)
    ensures
        gravite(a) == gravite(b) ==> a == b,
        gravite(DiskLevel::Normal) < gravite(DiskLevel::Warning) < gravite(DiskLevel::Critical)
            < gravite(DiskLevel::Stopped),
{
}

/// The mark of an extended path never matters, however often it is repeated.
pub proof fn loi_marque_sans_effet(chemin: Seq<char>, lecteur: Seq<char>)
    ensures
        debute_au_lecteur("\\\\?\\"@ + chemin, lecteur) == debute_au_lecteur(chemin, lecteur),
{
    reveal_strlit("\\\\?\\");
    let m = "\\\\?\\"@;
    let e = m + chemin;
    assert(m.len() == 4);
    assert(e.subrange(0, 4) =~= m);
    assert(texte::debute_par(e, m));
    assert(e.skip(4) =~= chemin);
    assert(sans_marque(e, m) == sans_marque(e.skip(4), m));
}

} // verus!
