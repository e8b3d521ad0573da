//! Analysis frames: taken from each piece, and dated to the millisecond.
//!
//! A frame's date ties it to the clips that cover it. The first frame of a
//! piece is dated at the piece's start, and each of the others by its rank.

use crate::chrono_simple::{iso, Instant};
use crate::texte;
use vstd::prelude::*;

verus! {

/// Width of the frames, in pixels. Below it, numbers are misread.
pub const LARGEUR_ANALYSE: u32 = 1920;

/// JPEG quality, on FFmpeg's scale from 2 (best) to 31.
pub const QUALITE_JPEG: u32 = 6;

/// Characters of FFmpeg's output shown with an error.
pub const JOURNAL_MONTRE: usize = 400;

/// A frame, ready to be sent.
pub struct ExtractedFrame {
    pub filename: String,
    pub path: String,
    pub size_bytes: u64,
    /// Absolute date, in ISO 8601.
    pub instant_at: String,
    /// The piece it comes from.
    pub segment_index: u32,
}

/// The frames of a piece.
pub struct ExtractionResult {
    pub segment_index: u32,
    pub frames: Vec<ExtractedFrame>,
    pub total_bytes: u64,
}

// ─── The command ───────────────────────────────────────────────────────

/// What the frames of a piece are named after.
pub open spec fn prefixe(segment_index: u32) -> Seq<char> {
    "img_"@ + texte::cadre(segment_index as int, 6) + "_"@
}

pub fn prefixe_images(segment_index: u32) -> (r: String)
    ensures
        r@ == prefixe(segment_index),
{
    texte::joindre3("img_", texte::ecrire_cadre(segment_index as i64, 6).as_str(), "_")
}

/// The pattern by which FFmpeg names the frames of a piece.
pub fn motif_images(segment_index: u32) -> (r: String)
    ensures
        r@ == prefixe(segment_index) + "%03d.jpg"@,
{
    texte::joindre(prefixe_images(segment_index).as_str(), "%03d.jpg")
}

/// The arguments of the extraction: `cadence` frames per second, never
/// enlarged.
pub fn arguments_extraction(morceau: &str, cadence: &str, motif: &str) -> (r: Vec<String>)
    ensures
        texte::vues(r@) == seq![
            "-hide_banner"@,
            "-i"@,
            morceau@,
            "-vf"@,
            "fps="@ + cadence@ + ",scale='min("@ + texte::decimal(LARGEUR_ANALYSE as nat)
                + ",iw)':-2"@,
            "-q:v"@,
            texte::decimal(QUALITE_JPEG as nat),
            "-y"@,
            motif@,
        ],
{
    let mut filtre = texte::joindre3("fps=", cadence, ",scale='min(");
    filtre.append(texte::ecrire(LARGEUR_ANALYSE as u64).as_str());
    filtre.append(",iw)':-2");
    let mut args: Vec<String> = Vec::new();
    texte::ajouter(&mut args, "-hide_banner");
    texte::ajouter(&mut args, "-i");
    texte::ajouter(&mut args, morceau);
    texte::ajouter(&mut args, "-vf");
    texte::ajouter(&mut args, filtre.as_str());
    texte::ajouter(&mut args, "-q:v");
    texte::ajouter(&mut args, texte::ecrire(QUALITE_JPEG as u64).as_str());
    texte::ajouter(&mut args, "-y");
    texte::ajouter(&mut args, motif);
    args
}

/// What is said of a piece whose file is missing.
pub fn morceau_introuvable(segment_index: u32) -> (r: String)
    ensures
        r@ == "Le morceau "@ + texte::decimal(segment_index as nat)
            + " est introuvable — extraction impossible."@,
{
    texte::joindre3(
        "Le morceau ",
        texte::ecrire(segment_index as u64).as_str(),
        " est introuvable — extraction impossible.",
    )
}

// ─── The frames found ──────────────────────────────────────────────────

/// The names of one directory, each as a path of one component.
pub open spec fn seuls(noms: Seq<Seq<char>>) -> Seq<Seq<Seq<char>>> {
    noms.map_values(|n: Seq<char>| seq![n])
}

/// Which names are those of the frames of a piece.
pub open spec fn du_morceau(noms: Seq<Seq<char>>, segment_index: u32) -> Seq<bool> {
    noms.map_values(|n: Seq<char>| texte::debute_par(n, prefixe(segment_index)))
}

/// The ranks, among the names of a directory, of the frames of a piece, in
/// the order of their names, which is the order of time.
pub fn recenser_images(segment_index: u32, noms: &Vec<String>) -> (r: Vec<usize>)
    ensures
        texte::trie(
            seuls(texte::vues(noms@)),
            du_morceau(texte::vues(noms@), segment_index),
            r@,
        ),
{
    let ghost vus = texte::vues(noms@);
    let debut = texte::caracteres(prefixe_images(segment_index).as_str());
    let mut chemins: Vec<Vec<String>> = Vec::new();
    let mut retenus: Vec<bool> = Vec::new();
    let mut i: usize = 0;
    while i < noms.len()
        invariant
            i <= noms@.len(),
            chemins@.len() == i,
            retenus@.len() == i,
            vus == texte::vues(noms@),
            debut@ == prefixe(segment_index),
            forall|k: int| 0 <= k < i ==> texte::vues((#[trigger] chemins@[k])@) == seq![vus[k]],
            forall|k: int|
                0 <= k < i ==> #[trigger] retenus@[k] == texte::debute_par(
                    vus[k],
                    prefixe(segment_index),
                ),
        decreases noms@.len() - i,
    {
        let mut seul: Vec<String> = Vec::new();
        texte::ajouter(&mut seul, noms[i].as_str());
        assert(texte::vues(seul@) =~= seq![vus[i as int]]);
        chemins.push(seul);
        retenus.push(texte::debute(&texte::caracteres(noms[i].as_str()), &debut));
        i += 1;
    }
    assert(texte::chemins_vus(chemins@) =~= seuls(vus));
    assert(retenus@ =~= du_morceau(vus, segment_index));
    texte::trier(&chemins, &retenus)
}

/// A frame file, with its size when it could be read, and its delay after
/// the start of the piece.
pub struct ImageTrouvee {
    pub filename: String,
    pub path: String,
    pub taille: Option<u64>,
    pub decalage_ms: i64,
}

/// The files whose size could be read.
pub open spec fn lisibles(images: Seq<ImageTrouvee>) -> Seq<ImageTrouvee> {
    images.filter(|i: ImageTrouvee| i.taille is Some)
}

/// The bytes of the files whose size could be read.
pub open spec fn poids(images: Seq<ImageTrouvee>) -> int
    decreases images.len(),
{
    if images.len() == 0 {
        0
    } else {
        poids(images.drop_last()) + match images.last().taille {
            Some(t) => t as int,
            None => 0,
        }
    }
}

/// A frame is that of a file: same name, path and size, dated from the
/// piece's start.
pub open spec fn est_image(f: ExtractedFrame, i: ImageTrouvee, debut: int, segment_index: u32) -> bool {
    &&& f.filename@ == i.filename@
    &&& f.path@ == i.path@
    &&& i.taille == Some(f.size_bytes)
    &&& f.instant_at@ == iso(debut + i.decalage_ms)
    &&& f.segment_index == segment_index
}

proof fn lemme_poids(images: Seq<ImageTrouvee>, k: int)
    requires
        0 <= k <= images.len(),
    ensures
        0 <= poids(images.take(k)) <= poids(images),
    decreases images.len() - k, k,
{
    if k == images.len() {
        assert(images.take(k) =~= images);
        if k > 0 {
            assert(images.drop_last() =~= images.take(k - 1));
            lemme_poids(images.drop_last(), k - 1);
            assert(images.drop_last().take(k - 1) =~= images.take(k - 1));
        }
    } else {
        lemme_poids(images, k + 1);
        assert(images.take(k + 1).drop_last() =~= images.take(k));
        lemme_poids(images.take(k), k);
        assert(images.take(k).take(k) =~= images.take(k));
    }
}

/// Dates the frames of a piece, in order. A file that cannot be read is
/// passed over and keeps its rank.
pub fn dater_images(
    segment_index: u32,
    debut: &Instant,
    images: &Vec<ImageTrouvee>,
    journal: &str,
) -> (r: Result<ExtractionResult, String>)
    requires
        poids(images@) <= u64::MAX,
        forall|k: int|
            0 <= k < images@.len() ==> i64::MIN <= debut@ + (#[trigger] images@[k]).decalage_ms
                <= i64::MAX,
    ensures
        lisibles(images@).len() == 0 ==> (r matches Err(m) && m@ == "Aucune image extraite du morceau "@
            + texte::decimal(segment_index as nat) + ".\n\nJournal FFmpeg :\n"@ + texte::queue(
            journal@,
            JOURNAL_MONTRE as nat,
        )),
        lisibles(images@).len() > 0 ==> {
            &&& r matches Ok(e)
            &&& e.segment_index == segment_index
            &&& e.total_bytes == poids(images@)
            &&& e.frames@.len() == lisibles(images@).len()
            &&& forall|k: int|
                0 <= k < e.frames@.len() ==> est_image(
                    #[trigger] e.frames@[k],
                    lisibles(images@)[k],
                    debut@,
                    segment_index,
                )
        },
{
    let ghost p = |i: ImageTrouvee| i.taille is Some;
    let mut frames: Vec<ExtractedFrame> = Vec::new();
    let mut total: u64 = 0;
    let mut i: usize = 0;
    proof {
        assert(images@.take(0) =~= Seq::<ImageTrouvee>::empty());
        reveal(Seq::filter);
    }
    while i < images.len()
        invariant
            i <= images@.len(),
            poids(images@) <= u64::MAX,
            forall|x: ImageTrouvee| #[trigger] p(x) == (x.taille is Some),
            forall|k: int|
                0 <= k < images@.len() ==> i64::MIN <= debut@ + (#[trigger] images@[k]).decalage_ms
                    <= i64::MAX,
            total == poids(images@.take(i as int)),
            frames@.len() == images@.take(i as int).filter(p).len(),
            forall|k: int|
                0 <= k < frames@.len() ==> est_image(
                    #[trigger] frames@[k],
                    images@.take(i as int).filter(p)[k],
                    debut@,
                    segment_index,
                ),
        decreases images@.len() - i,
    {
        let image = &images[i];
        let ghost avant = images@.take(i as int);
        proof {
            assert(images@.take(i + 1) =~= avant.push(*image));
            avant.lemma_filter_push(*image, p);
            assert(images@.take(i + 1).drop_last() =~= avant);
            lemme_poids(images@, i + 1);
        }
        match image.taille {
            Some(t) => {
                total += t;
                frames.push(
                    ExtractedFrame {
                        filename: image.filename.clone(),
                        path: image.path.clone(),
                        size_bytes: t,
                        instant_at: debut.plus_millis(image.decalage_ms).to_iso8601(),
                        segment_index,
                    },
                );
            },
            None => {},
        }
        i += 1;
    }
    assert(images@.take(images@.len() as int) =~= images@);
    assert(images@.filter(p) == lisibles(images@));
    if frames.len() == 0 {
        let mut m = texte::joindre3(
            "Aucune image extraite du morceau ",
            texte::ecrire(segment_index as u64).as_str(),
            ".\n\nJournal FFmpeg :\n",
        );
        m.append(derniers_caracteres(journal, JOURNAL_MONTRE).as_str());
        return Err(m);
    }
    Ok(ExtractionResult { segment_index, frames, total_bytes: total })
}

/// The end of a text, so as not to drown a message.
pub fn derniers_caracteres(texte: &str, combien: usize) -> (r: String)
    ensures
        r@ == texte::queue(texte@, combien as nat),
{
    texte::prendre_fin(texte, combien)
}

// ─── Laws of the frames ────────────────────────────────────────────────

/// The name of a frame tells its piece: the digits after `img_` read back as
/// the number, whatever follows, so that no name belongs to two pieces.
pub proof fn loi_noms_des_images(a: u32, b: u32, suite: Seq<char>, autre: Seq<char>)
    ensures
        prefixe(a).take(4) == "img_"@,
        prefixe(a).last() == '_',
        prefixe(a).len() >= 11,
        texte::valeur(texte::tete_numerique((prefixe(a) + suite).skip(4))) == a,
        prefixe(a) + suite == prefixe(b) + autre ==> a == b,
{
    lemme_numero_lu(a, suite);
    lemme_numero_lu(b, autre);
    reveal_strlit("img_");
    reveal_strlit("_");
    texte::loi_cadre(a as nat, 6);
    assert(prefixe(a).take(4) =~= "img_"@);
}

proof fn lemme_numero_lu(a: u32, suite: Seq<char>)
    ensures
        texte::valeur(texte::tete_numerique((prefixe(a) + suite).skip(4))) == a,
{
    reveal_strlit("img_");
    reveal_strlit("_");
    let d = texte::cadre(a as int, 6);
    texte::lemme_cadre_relu(a as nat, 6);
    assert((prefixe(a) + suite).skip(4) =~= d + ("_"@ + suite));
    texte::lemme_tete_numerique(d, "_"@ + suite);
}

/// A frame is counted for its own piece, and for no other; a file that is no
/// frame is counted for none.
pub proof fn loi_images_dun_morceau(
    noms: Seq<Seq<char>>,
    i: int,
    a: u32,
    b: u32,
    suite: Seq<char>,
)
    requires
        0 <= i < noms.len(),
    ensures
        du_morceau(noms, a).len() == noms.len(),
        seuls(noms).len() == noms.len(),
        seuls(noms)[i] == seq![noms[i]],
        noms[i] == prefixe(b) + suite ==> du_morceau(noms, a)[i] == (a == b),
        noms[i].len() < 11 || noms[i].take(4) != "img_"@ ==> !du_morceau(noms, a)[i],
{
    reveal_strlit("img_");
    let n = noms[i];
    let p = prefixe(a);
    loi_noms_des_images(a, b, suite, suite);
    texte::loi_bouts(p, suite, p);
    if texte::debute_par(n, p) {
        let reste = n.skip(p.len() as int);
        assert(n =~= p + reste);
        assert(n.take(4) =~= p.take(4));
        loi_noms_des_images(a, b, reste, suite);
    }
}

/// A file adds its bytes, and is kept, when its size could be read; otherwise
/// it is as if it were not there, and the others keep their order.
pub proof fn loi_images_lisibles(images: Seq<ImageTrouvee>, image: ImageTrouvee)
    ensures
        poids(Seq::empty()) == 0,
        lisibles(Seq::empty()) == Seq::<ImageTrouvee>::empty(),
        image.taille matches Some(t) ==> poids(images.push(image)) == poids(images) + t
            && lisibles(images.push(image)) == lisibles(images).push(image),
        image.taille is None ==> poids(images.push(image)) == poids(images) && lisibles(
            images.push(image),
        ) == lisibles(images),
{
    images.lemma_filter_push(image, |i: ImageTrouvee| i.taille is Some);
    assert(images.push(image).drop_last() =~= images);
    assert(lisibles(Seq::empty()) =~= Seq::<ImageTrouvee>::empty()) by {
        reveal(Seq::filter);
    }
}

/// A frame is the file found, of the piece it was taken from, dated by the
/// start of the piece and its own delay.
pub proof fn loi_image_datee(f: ExtractedFrame, i: ImageTrouvee, debut: int, segment_index: u32)
    requires
        est_image(f, i, debut, segment_index),
    ensures
        f.filename@ == i.filename@,
        f.path@ == i.path@,
        i.taille == Some(f.size_bytes),
        f.segment_index == segment_index,
        f.instant_at@ == iso(i.decalage_ms + debut),
{
}

/// Frames are no wider than 1920 pixels, of quality 6; with an error, 400
/// characters of the output are shown.
pub proof fn loi_reglages_des_images()
    ensures
        LARGEUR_ANALYSE == 1920,
        QUALITE_JPEG == 6,
        JOURNAL_MONTRE == 400,
{
}

} // verus!
