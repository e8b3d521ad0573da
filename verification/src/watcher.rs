//! Watching a directory for new photos.
//!
//! A photo is taken once it has stopped growing. Windows tells of the same
//! photo several times: only one check runs for a file, and it is done again
//! if the file moved while it was found unstable.

use crate::texte;
use vstd::prelude::*;

verus! {

/// A smaller file is a fragment or a thumbnail: 50 KiB.
pub const MIN_FILE_SIZE: u64 = 51_200;

/// A larger file is skipped: 20 MiB.
pub const MAX_FILE_SIZE: u64 = 20_971_520;

/// Milliseconds during which a stable file does not grow.
pub const STABILITY_DELAY_MS: u64 = 500;

/// Checks before the last one.
pub const STABILITY_CHECKS: u32 = 3;

/// Files checked at once.
pub const VERIFICATIONS_SIMULTANEES: usize = 16;

/// A photo to send.
pub struct FileJob {
    /// Its number in the table of photos.
    pub db_file_id: i64,
    pub session_id: i64,
    pub file_path: String,
    pub filename: String,
    pub file_size: u64,
}

// ─── Which files, which directories ────────────────────────────────────

/// What follows the last dot of a name; nothing without a dot, or when the
/// only dot is the first character.
pub open spec fn extension(nom: Seq<char>) -> Option<Seq<char>> {
    match texte::derniere(nom, "."@) {
        None => None,
        Some(p) => if p == 0 {
            None
        } else {
            Some(nom.skip(p + 1))
        },
    }
}

/// A photo: neither hidden nor temporary, and a JPEG by its extension.
pub open spec fn jpeg_valide(nom: Seq<char>) -> bool {
    &&& !texte::debute_par(nom, "."@)
    &&& !texte::debute_par(nom, "~"@)
    &&& !texte::finit_par(texte::minuscules(nom), ".tmp"@)
    &&& extension(nom) matches Some(e) && (texte::minuscules(e) == "jpg"@ || texte::minuscules(e)
        == "jpeg"@)
}

/// Is a file of that name a photo to take?
pub fn is_valid_jpeg(filename: &str) -> (r: bool)
    ensures
        r == jpeg_valide(filename@),
{
    let nom = texte::caracteres(filename);
    let point = texte::caracteres(".");
    proof {
        reveal_strlit(".");
    }
    if texte::debute(&nom, &point) {
        return false;
    }
    if texte::debute(&nom, &texte::caracteres("~")) {
        return false;
    }
    if texte::finit(&texte::en_minuscules(&nom), &texte::caracteres(".tmp")) {
        return false;
    }
    match texte::chercher_dernier(&nom, &point) {
        None => false,
        Some(p) => {
            if p == 0 {
                return false;
            }
            assert(p < nom.len());
            let fin = texte::tranche(&nom, p + 1, nom.len());
            assert(fin@ =~= nom@.skip(p + 1));
            let ext = texte::en_texte(&texte::en_minuscules(&fin));
            texte::memes(ext.as_str(), "jpg") || texte::memes(ext.as_str(), "jpeg")
        },
    }
}

/// A directory that is not searched: hidden, or one of those that hold no
/// photo to send.
pub open spec fn dossier_exclu(nom: Seq<char>) -> bool {
    ||| texte::debute_par(nom, "."@)
    ||| nom == "Rejects"@
    ||| nom == "RAW"@
    ||| nom == ".thumbnails"@
    ||| nom == "@eaDir"@
    ||| nom == "Thumbs"@
}

pub fn is_excluded_dir(dirname: &str) -> (r: bool)
    ensures
        r == dossier_exclu(dirname@),
{
    texte::debute(&texte::caracteres(dirname), &texte::caracteres(".")) || texte::memes(
        dirname,
        "Rejects",
    ) || texte::memes(dirname, "RAW") || texte::memes(dirname, ".thumbnails") || texte::memes(
        dirname,
        "@eaDir",
    ) || texte::memes(dirname, "Thumbs")
}

/// The last component of each path, if it has one, is the name of a photo.
pub open spec fn photos(chemins: Seq<Seq<Seq<char>>>) -> Seq<bool> {
    chemins.map_values(|c: Seq<Seq<char>>| c.len() > 0 && jpeg_valide(c.last()))
}

/// The ranks of the photos among these paths, given as lists of components,
/// in the order of the paths: that in which they were taken.
pub fn photos_presentes(chemins: &Vec<Vec<String>>) -> (r: Vec<usize>)
    ensures
        texte::trie(texte::chemins_vus(chemins@), photos(texte::chemins_vus(chemins@)), r@),
{
    let ghost vus = texte::chemins_vus(chemins@);
    let mut retenus: Vec<bool> = Vec::new();
    let mut i: usize = 0;
    while i < chemins.len()
        invariant
            i <= chemins@.len(),
            retenus@.len() == i,
            vus == texte::chemins_vus(chemins@),
            forall|k: int| 0 <= k < i ==> #[trigger] retenus@[k] == photos(vus)[k],
        decreases chemins@.len() - i,
    {
        let c = &chemins[i];
        assert(vus[i as int] == texte::vues(c@));
        let photo: bool = if c.len() > 0 {
            assert(vus[i as int].last() == c@.last()@);
            is_valid_jpeg(c[c.len() - 1].as_str())
        } else {
            false
        };
        retenus.push(photo);
        i += 1;
    }
    assert(retenus@ =~= photos(vus));
    texte::trier(chemins, &retenus)
}

// ─── Stability ─────────────────────────────────────────────────────────

/// Where the check of a file stands.
#[derive(Clone, Copy, PartialEq, Eq, Structural, Debug)]
pub enum Phase {
    /// Before the first measure of a try.
    Debut,
    /// Between the two measures of a try: the first gave this size.
    Entre(u64),
    /// All tries are spent, the last measure having given this size: one more
    /// decides.
    Derniere(u64),
}

/// The check of a file: how many tries are spent, and where the current one
/// stands.
#[derive(Clone, Copy, PartialEq, Eq, Structural, Debug)]
pub struct Stabilite {
    pub essais: u32,
    pub phase: Phase,
}

/// What to do after a measure.
#[derive(Clone, Copy, PartialEq, Eq, Structural, Debug)]
pub enum Etape {
    /// Wait, then measure again.
    Attendre,
    /// Measure again at once.
    Remesurer,
    /// The file is stable, with this size; or it is not to be taken.
    Verdict(Option<u64>),
}

impl Stabilite {
    pub open spec fn inv(self) -> bool {
        &&& self.essais <= STABILITY_CHECKS
        &&& (self.phase is Derniere) == (self.essais == STABILITY_CHECKS)
    }

    pub fn new() -> (r: Self)
        ensures
            r.inv(),
            r.essais == 0,
            r.phase == Phase::Debut,
    {
        Stabilite { essais: 0, phase: Phase::Debut }
    }

    /// Takes a measure: the size of the file, none if it is gone.
    ///
    /// A file is stable when two measures taken one wait apart agree on a size
    /// that is large enough. After three tries in vain, a last measure is
    /// held, one wait later, against the one before it.
    pub fn mesurer(&mut self, taille: Option<u64>) -> (r: Etape)
        requires
            old(self).inv(),
        ensures
            final(self).inv(),
            (*final(self), r) == suite(*old(self), taille),
    {
        let t: u64 = match taille {
            None => {
                return Etape::Verdict(None);
            },
            Some(t) => t,
        };
        match self.phase {
            Phase::Debut => {
                self.phase = Phase::Entre(t);
                Etape::Attendre
            },
            Phase::Entre(avant) => {
                if avant == t && t >= MIN_FILE_SIZE {
                    return Etape::Verdict(Some(t));
                }
                self.essais = self.essais + 1;
                if self.essais < STABILITY_CHECKS {
                    self.phase = Phase::Debut;
                    Etape::Remesurer
                } else {
                    self.phase = Phase::Derniere(t);
                    Etape::Attendre
                }
            },
            Phase::Derniere(avant) => Etape::Verdict(
                if avant == t && t >= MIN_FILE_SIZE {
                    Some(t)
                } else {
                    None
                },
            ),
        }
    }
}

/// How many measures a check may still take.
pub open spec fn mesures_restantes(s: Stabilite) -> int {
    match s.phase {
        Phase::Debut => 2 * (STABILITY_CHECKS - s.essais) + 1,
        Phase::Entre(_) => 2 * (STABILITY_CHECKS - s.essais),
        Phase::Derniere(_) => 1,
    }
}

/// What a measure makes of a check.
pub open spec fn suite(s: Stabilite, taille: Option<u64>) -> (Stabilite, Etape) {
    match taille {
        None => (s, Etape::Verdict(None)),
        Some(t) => match s.phase {
            Phase::Debut => (Stabilite { phase: Phase::Entre(t), ..s }, Etape::Attendre),
            Phase::Entre(avant) => if avant == t && t >= MIN_FILE_SIZE {
                (s, Etape::Verdict(Some(t)))
            } else if s.essais + 1 < STABILITY_CHECKS {
                (
                    Stabilite { essais: (s.essais + 1) as u32, phase: Phase::Debut },
                    Etape::Remesurer,
                )
            } else {
                (
                    Stabilite { essais: (s.essais + 1) as u32, phase: Phase::Derniere(t) },
                    Etape::Attendre,
                )
            },
            Phase::Derniere(avant) => (
                s,
                Etape::Verdict(
                    if avant == t && t >= MIN_FILE_SIZE {
                        Some(t)
                    } else {
                        None
                    },
                ),
            ),
        },
    }
}

/// A check ends: each measure that does not conclude leaves fewer to take,
/// and a file that is taken is large enough.
pub proof fn loi_verification_finit(s: Stabilite, taille: Option<u64>)
    requires
        s.inv(),
    ensures
        mesures_restantes(s) > 0,
        suite(s, taille).0.inv(),
        suite(s, taille).1 matches Etape::Verdict(v) ==> (v matches Some(t) ==> t >= MIN_FILE_SIZE),
        !(suite(s, taille).1 is Verdict) ==> mesures_restantes(suite(s, taille).0)
            < mesures_restantes(s),
{
}

/// Where a check stands after these measures, and what it told after the
/// last of them.
pub open spec fn apres_mesures(mesures: Seq<Option<u64>>) -> (Stabilite, Etape)
    decreases mesures.len(),
{
    if mesures.len() == 0 {
        (Stabilite { essais: 0, phase: Phase::Debut }, Etape::Remesurer)
    } else {
        suite(apres_mesures(mesures.drop_last()).0, mesures.last())
    }
}

/// No measure but the last ended the check.
pub open spec fn en_cours(mesures: Seq<Option<u64>>) -> bool {
    forall|k: int| 0 <= k < mesures.len() ==> !((#[trigger] apres_mesures(mesures.take(k))).1 is Verdict)
}

proof fn lemme_apres_mesures(mesures: Seq<Option<u64>>)
    requires
        en_cours(mesures),
    ensures
        apres_mesures(mesures).0.inv(),
        match apres_mesures(mesures).0.phase {
            Phase::Debut => apres_mesures(mesures).1 != Etape::Attendre,
            Phase::Entre(t) => !(apres_mesures(mesures).1 is Verdict) ==> apres_mesures(mesures).1
                == Etape::Attendre && mesures.len() > 0 && mesures.last() == Some(t),
            Phase::Derniere(t) => !(apres_mesures(mesures).1 is Verdict) ==> apres_mesures(
                mesures,
            ).1 == Etape::Attendre && mesures.len() > 0 && mesures.last() == Some(t),
        },
    decreases mesures.len(),
{
    if mesures.len() > 0 {
        let debut = mesures.drop_last();
        assert forall|k: int| 0 <= k < debut.len() implies !((
        #[trigger] apres_mesures(debut.take(k))).1 is Verdict) by {
            assert(debut.take(k) =~= mesures.take(k));
        }
        assert(debut =~= mesures.take(mesures.len() - 1));
        lemme_apres_mesures(debut);
    }
}

/// A file is taken only when its size held still: whatever the measures, the
/// one before the last gave the same size, and the wait came between the two.
pub proof fn loi_taille_immobile(mesures: Seq<Option<u64>>, t: u64)
    requires
        en_cours(mesures),
        apres_mesures(mesures).1 == Etape::Verdict(Some(t)),
    ensures
        mesures.len() >= 2,
        mesures.last() == Some(t),
        mesures[mesures.len() - 2] == Some(t),
        apres_mesures(mesures.drop_last()).1 == Etape::Attendre,
        t >= MIN_FILE_SIZE,
{
    let debut = mesures.drop_last();
    assert forall|k: int| 0 <= k < debut.len() implies !((
    #[trigger] apres_mesures(debut.take(k))).1 is Verdict) by {
        assert(debut.take(k) =~= mesures.take(k));
    }
    assert(debut =~= mesures.take(mesures.len() - 1));
    lemme_apres_mesures(debut);
}

// ─── One check at a time ───────────────────────────────────────────────

/// A file being checked, and whether it moved since the check began.
pub struct Suivi {
    pub chemin: String,
    pub a_revoir: bool,
}

/// A file stands among these.
pub open spec fn est_suivi(s: Seq<Suivi>, chemin: Seq<char>) -> bool {
    exists|i: int| 0 <= i < s.len() && (#[trigger] s[i]).chemin@ == chemin
}

/// A file stands among these and has moved.
pub open spec fn est_a_revoir(s: Seq<Suivi>, chemin: Seq<char>) -> bool {
    exists|i: int| 0 <= i < s.len() && (#[trigger] s[i]).chemin@ == chemin && s[i].a_revoir
}

/// What to do about a file that was announced.
#[derive(Clone, Copy, PartialEq, Eq, Structural, Debug)]
pub enum Annonce {
    /// It is no photo.
    Ignorer,
    /// Its check is running: it is noted to have moved.
    Noter,
    /// Its check starts.
    Verifier,
    /// All the checks that may run at once do: the file is to be announced
    /// again when one of them ends.
    Patienter,
}

/// A file of that name is a photo; one without a name is not.
pub open spec fn est_photo(nom: Option<Seq<char>>) -> bool {
    nom matches Some(n) && jpeg_valide(n)
}

/// What to do about an announced file, `m` giving the files being checked
/// and whether each has moved since its check began.
pub open spec fn reaction(m: Map<Seq<char>, bool>, chemin: Seq<char>, photo: bool) -> Annonce {
    if !photo {
        Annonce::Ignorer
    } else if m.dom().contains(chemin) {
        Annonce::Noter
    } else if m.dom().len() < VERIFICATIONS_SIMULTANEES {
        Annonce::Verifier
    } else {
        Annonce::Patienter
    }
}

/// The files being checked after an announcement.
pub open spec fn apres_annonce(m: Map<Seq<char>, bool>, chemin: Seq<char>, photo: bool) -> Map<
    Seq<char>,
    bool,
> {
    match reaction(m, chemin, photo) {
        Annonce::Noter => m.insert(chemin, true),
        Annonce::Verifier => m.insert(chemin, false),
        _ => m,
    }
}

/// A check that has ended is done again: it did not take the file, which has
/// moved since.
pub open spec fn a_refaire(m: Map<Seq<char>, bool>, chemin: Seq<char>, traite: bool) -> bool {
    !traite && m.dom().contains(chemin) && m[chemin]
}

/// The files being checked after the end of a check.
pub open spec fn apres_fin(m: Map<Seq<char>, bool>, chemin: Seq<char>, traite: bool) -> Map<
    Seq<char>,
    bool,
> {
    if a_refaire(m, chemin, traite) {
        m.insert(chemin, false)
    } else {
        m.remove(chemin)
    }
}

/// The files being checked.
pub struct Registre {
    pub suivis: Vec<Suivi>,
}

impl View for Registre {
    type V = Map<Seq<char>, bool>;

    /// The files being checked, and whether each has moved since its check
    /// began.
    open spec fn view(&self) -> Map<Seq<char>, bool> {
        Map::new(|c: Seq<char>| est_suivi(self.suivis@, c), |c: Seq<char>| est_a_revoir(self.suivis@, c))
    }
}

impl Registre {
    /// Each file stands once, and no more are checked at once than may be.
    pub open spec fn inv(self) -> bool {
        &&& self.suivis@.len() <= VERIFICATIONS_SIMULTANEES
        &&& forall|i: int, j: int|
            0 <= i < j < self.suivis@.len() ==> (#[trigger] self.suivis@[i]).chemin@ != (
            #[trigger] self.suivis@[j]).chemin@
    }

    spec fn suit(self, chemin: Seq<char>) -> bool {
        est_suivi(self.suivis@, chemin)
    }

    spec fn doit_revoir(self, chemin: Seq<char>) -> bool {
        est_a_revoir(self.suivis@, chemin)
    }

    /// The other files stand as they did.
    spec fn autres_inchanges(self, avant: Self, chemin: Seq<char>) -> bool {
        forall|c: Seq<char>|
            c != chemin ==> #[trigger] self.suit(c) == avant.suit(c) && self.doit_revoir(c)
                == avant.doit_revoir(c)
    }

    /// The files being checked are as many as the entries.
    proof fn lemme_nombre(self)
        requires
            self.inv(),
        ensures
            self@.dom().finite(),
            self@.dom().len() == self.suivis@.len(),
    {
        let chemins = self.suivis@.map_values(|x: Suivi| x.chemin@);
        assert(chemins.no_duplicates());
        assert forall|c: Seq<char>| self@.dom().contains(c) == chemins.to_set().contains(c) by {
            if self@.dom().contains(c) {
                let k = choose|k: int|
                    0 <= k < self.suivis@.len() && (#[trigger] self.suivis@[k]).chemin@ == c;
                assert(chemins[k] == c);
            }
            if chemins.contains(c) {
                let k = chemins.index_of(c);
                assert(self.suivis@[k].chemin@ == c);
            }
        }
        assert(self@.dom() =~= chemins.to_set());
        chemins.unique_seq_to_set();
        vstd::seq_lib::seq_to_set_is_finite(chemins);
    }

    proof fn lemme_pose(self, avant: Self, chemin: Seq<char>, a_revoir: bool)
        requires
            self.suit(chemin),
            self.doit_revoir(chemin) == a_revoir,
            self.autres_inchanges(avant, chemin),
        ensures
            self@ == avant@.insert(chemin, a_revoir),
    {
        let m = avant@.insert(chemin, a_revoir);
        assert forall|c: Seq<char>| self@.dom().contains(c) == m.dom().contains(c) by {
            assert(c != chemin ==> self.suit(c) == avant.suit(c));
        }
        assert forall|c: Seq<char>| self@.dom().contains(c) implies self@[c] == m[c] by {
            assert(c != chemin ==> self.suit(c) == avant.suit(c));
        }
        assert(self@ =~= m);
    }

    proof fn lemme_retrait(self, avant: Self, chemin: Seq<char>)
        requires
            !self.suit(chemin),
            self.autres_inchanges(avant, chemin),
        ensures
            self@ == avant@.remove(chemin),
    {
        let m = avant@.remove(chemin);
        assert forall|c: Seq<char>| self@.dom().contains(c) == m.dom().contains(c) by {
            assert(c != chemin ==> self.suit(c) == avant.suit(c));
        }
        assert forall|c: Seq<char>| self@.dom().contains(c) implies self@[c] == m[c] by {
            assert(c != chemin ==> self.suit(c) == avant.suit(c));
        }
        assert(self@ =~= m);
    }

    pub fn new() -> (r: Self)
        ensures
            r.inv(),
            r@ == Map::<Seq<char>, bool>::empty(),
    {
        let r = Registre { suivis: Vec::new() };
        assert(r@ =~= Map::<Seq<char>, bool>::empty());
        r
    }

    fn position(&self, chemin: &str) -> (r: Option<usize>)
        ensures
            match r {
                Some(i) => i < self.suivis@.len() && self.suivis@[i as int].chemin@ == chemin@,
                None => !self.suit(chemin@),
            },
    {
        let mut i: usize = 0;
        while i < self.suivis.len()
            invariant
                i <= self.suivis@.len(),
                forall|k: int| 0 <= k < i ==> (#[trigger] self.suivis@[k]).chemin@ != chemin@,
            decreases self.suivis@.len() - i,
        {
            if texte::memes(self.suivis[i].chemin.as_str(), chemin) {
                return Some(i);
            }
            i += 1;
        }
        None
    }

    /// A file was announced, with its name if it has one.
    pub fn annoncer(&mut self, chemin: &str, nom: Option<&str>) -> (r: Annonce)
        requires
            old(self).inv(),
        ensures
            final(self).inv(),
            r == reaction(old(self)@, chemin@, est_photo(texte::vue_ref(nom))),
            final(self)@ == apres_annonce(old(self)@, chemin@, est_photo(texte::vue_ref(nom))),
    {
        let photo: bool = match nom {
            Some(n) => is_valid_jpeg(n),
            None => false,
        };
        if !photo {
            return Annonce::Ignorer;
        }
        proof {
            self.lemme_nombre();
        }
        match self.position(chemin) {
            Some(i) => {
                let ghost avant = *self;
                self.suivis[i].a_revoir = true;
                proof {
                    let moi = *self;
                    let s = moi.suivis@;
                    assert(forall|k: int|
                        0 <= k < s.len() ==> (#[trigger] s[k]).chemin == avant.suivis@[k].chemin);
                    assert(s[i as int].chemin@ == chemin@ && s[i as int].a_revoir);
                    assert forall|c: Seq<char>| c != chemin@ implies #[trigger] moi.suit(c)
                        == avant.suit(c) && moi.doit_revoir(c) == avant.doit_revoir(c) by {
                        lemme_garde(avant.suivis@, s, c, i as int);
                        lemme_garde(s, avant.suivis@, c, i as int);
                    }
                    assert(moi.autres_inchanges(avant, chemin@));
                    moi.lemme_pose(avant, chemin@, true);
                }
                Annonce::Noter
            },
            None => {
                let ghost avant = *self;
                if self.suivis.len() >= VERIFICATIONS_SIMULTANEES {
                    return Annonce::Patienter;
                }
                self.suivis.push(Suivi { chemin: chemin.to_owned(), a_revoir: false });
                proof {
                    let moi = *self;
                    let s = moi.suivis@;
                    let n = avant.suivis@.len() as int;
                    assert(s[n].chemin@ == chemin@ && !s[n].a_revoir);
                    assert forall|k: int| 0 <= k < n implies (#[trigger] s[k]).chemin@ != chemin@ by {
                        assert(avant.suivis@[k].chemin@ != chemin@);
                    }
                    assert forall|c: Seq<char>| c != chemin@ implies #[trigger] moi.suit(c)
                        == avant.suit(c) && moi.doit_revoir(c) == avant.doit_revoir(c) by {
                        if avant.suit(c) {
                            let k = choose|k: int|
                                0 <= k < n && (#[trigger] avant.suivis@[k]).chemin@ == c;
                            assert(s[k].chemin@ == c);
                        }
                        if avant.doit_revoir(c) {
                            let k = choose|k: int|
                                0 <= k < n && (#[trigger] avant.suivis@[k]).chemin@ == c
                                    && avant.suivis@[k].a_revoir;
                            assert(s[k].chemin@ == c && s[k].a_revoir);
                        }
                        if moi.suit(c) {
                            let k = choose|k: int|
                                0 <= k < s.len() && (#[trigger] s[k]).chemin@ == c;
                            assert(avant.suivis@[k].chemin@ == c);
                        }
                        if moi.doit_revoir(c) {
                            let k = choose|k: int|
                                0 <= k < s.len() && (#[trigger] s[k]).chemin@ == c && s[k].a_revoir;
                            assert(avant.suivis@[k].chemin@ == c && avant.suivis@[k].a_revoir);
                        }
                    }
                    assert(moi.autres_inchanges(avant, chemin@));
                    moi.lemme_pose(avant, chemin@, false);
                }
                Annonce::Verifier
            },
        }
    }

    /// A check has ended: true when it must be done again, because the file
    /// was not taken and has moved since. Otherwise the file is no longer
    /// followed.
    pub fn conclure(&mut self, chemin: &str, traite: bool) -> (r: bool)
        requires
            old(self).inv(),
        ensures
            final(self).inv(),
            r == a_refaire(old(self)@, chemin@, traite),
            final(self)@ == apres_fin(old(self)@, chemin@, traite),
    {
        match self.position(chemin) {
            None => {
                assert(self@ =~= self@.remove(chemin@));
                false
            },
            Some(i) => {
                let ghost avant = *self;
                let a_revoir: bool = self.suivis[i].a_revoir;
                proof {
                    assert(avant.doit_revoir(chemin@) == a_revoir) by {
                        if avant.doit_revoir(chemin@) {
                            let k = choose|k: int|
                                0 <= k < avant.suivis@.len() && (#[trigger] avant.suivis@[k]).chemin@
                                    == chemin@ && avant.suivis@[k].a_revoir;
                            if k < i {
                                assert(avant.suivis@[k].chemin@ != avant.suivis@[i as int].chemin@);
                            } else if i < k {
                                assert(avant.suivis@[i as int].chemin@ != avant.suivis@[k].chemin@);
                            }
                        } else {
                            assert(avant.suivis@[i as int].chemin@ == chemin@);
                        }
                    }
                }
                if !traite && a_revoir {
                    self.suivis[i].a_revoir = false;
                    proof {
                        let moi = *self;
                        let s = moi.suivis@;
                        assert(forall|k: int|
                            0 <= k < s.len() ==> (#[trigger] s[k]).chemin
                                == avant.suivis@[k].chemin);
                        assert(s[i as int].chemin@ == chemin@);
                        assert(!moi.doit_revoir(chemin@)) by {
                            if moi.doit_revoir(chemin@) {
                                let k = choose|k: int|
                                    0 <= k < s.len() && (#[trigger] s[k]).chemin@ == chemin@
                                        && s[k].a_revoir;
                                if k < i {
                                    assert(avant.suivis@[k].chemin@
                                        != avant.suivis@[i as int].chemin@);
                                } else if i < k {
                                    assert(avant.suivis@[i as int].chemin@
                                        != avant.suivis@[k].chemin@);
                                }
                            }
                        }
                        assert forall|c: Seq<char>| c != chemin@ implies #[trigger] moi.suit(c)
                            == avant.suit(c) && moi.doit_revoir(c) == avant.doit_revoir(c) by {
                            lemme_garde(avant.suivis@, s, c, i as int);
                            lemme_garde(s, avant.suivis@, c, i as int);
                        }
                        assert(moi.autres_inchanges(avant, chemin@));
                        moi.lemme_pose(avant, chemin@, false);
                    }
                    return true;
                }
                let _ = self.suivis.remove(i);
                proof {
                    let moi = *self;
                    let s = moi.suivis@;
                    let t = avant.suivis@;
                    assert(s == t.remove(i as int));
                    assert forall|a: int, b: int| 0 <= a < b < s.len() implies (
                    #[trigger] s[a]).chemin@ != (#[trigger] s[b]).chemin@ by {
                        let x = if a < i {
                            a
                        } else {
                            a + 1
                        };
                        let y = if b < i {
                            b
                        } else {
                            b + 1
                        };
                        assert(t[x].chemin@ != t[y].chemin@);
                    }
                    assert(!moi.suit(chemin@)) by {
                        if moi.suit(chemin@) {
                            let k = choose|k: int|
                                0 <= k < s.len() && (#[trigger] s[k]).chemin@ == chemin@;
                            if k < i {
                                assert(t[k].chemin@ != t[i as int].chemin@);
                            } else {
                                assert(t[i as int].chemin@ != t[k + 1].chemin@);
                            }
                        }
                    }
                    assert forall|c: Seq<char>| c != chemin@ implies #[trigger] moi.suit(c)
                        == avant.suit(c) && moi.doit_revoir(c) == avant.doit_revoir(c) by {
                        if avant.suit(c) {
                            let k = choose|k: int| 0 <= k < t.len() && (#[trigger] t[k]).chemin@ == c;
                            assert(s[if k < i {
                                k
                            } else {
                                k - 1
                            }].chemin@ == c);
                        }
                        if avant.doit_revoir(c) {
                            let k = choose|k: int|
                                0 <= k < t.len() && (#[trigger] t[k]).chemin@ == c && t[k].a_revoir;
                            let m = if k < i {
                                k
                            } else {
                                k - 1
                            };
                            assert(s[m].chemin@ == c && s[m].a_revoir);
                        }
                        if moi.suit(c) {
                            let k = choose|k: int| 0 <= k < s.len() && (#[trigger] s[k]).chemin@ == c;
                            assert(t[if k < i {
                                k
                            } else {
                                k + 1
                            }].chemin@ == c);
                        }
                        if moi.doit_revoir(c) {
                            let k = choose|k: int|
                                0 <= k < s.len() && (#[trigger] s[k]).chemin@ == c && s[k].a_revoir;
                            let m = if k < i {
                                k
                            } else {
                                k + 1
                            };
                            assert(t[m].chemin@ == c && t[m].a_revoir);
                        }
                    }
                    assert(moi.autres_inchanges(avant, chemin@));
                    moi.lemme_retrait(avant, chemin@);
                }
                false
            },
        }
    }
}

/// A change at one place keeps the files that stand elsewhere.
proof fn lemme_garde(s: Seq<Suivi>, t: Seq<Suivi>, c: Seq<char>, i: int)
    requires
        0 <= i < s.len() == t.len(),
        forall|k: int| 0 <= k < s.len() ==> (#[trigger] t[k]).chemin == s[k].chemin,
        forall|k: int| 0 <= k < s.len() && k != i ==> #[trigger] t[k] == s[k],
        s[i].chemin@ != c,
    ensures
        est_suivi(s, c) ==> est_suivi(t, c),
        est_a_revoir(s, c) ==> est_a_revoir(t, c),
{
    if est_suivi(s, c) {
        let k = choose|k: int| 0 <= k < s.len() && (#[trigger] s[k]).chemin@ == c;
        assert(t[k].chemin@ == c);
    }
    if est_a_revoir(s, c) {
        let k = choose|k: int|
            0 <= k < s.len() && (#[trigger] s[k]).chemin@ == c && s[k].a_revoir;
        assert(t[k].chemin@ == c && t[k].a_revoir);
    }
}

// ─── Laws of the watch ─────────────────────────────────────────────────

/// What happens during a watch.
pub ghost enum Fait {
    /// A file is announced: it is a photo, or it is not.
    Annonce { chemin: Seq<char>, photo: bool },
    /// The check of a file ends: it took the file, or it did not.
    Fin { chemin: Seq<char>, traite: bool },
}

/// The files being checked after a fact.
pub open spec fn apres_fait(m: Map<Seq<char>, bool>, f: Fait) -> Map<Seq<char>, bool> {
    match f {
        Fait::Annonce { chemin, photo } => apres_annonce(m, chemin, photo),
        Fait::Fin { chemin, traite } => apres_fin(m, chemin, traite),
    }
}

/// The files being checked after these facts, in that order.
pub open spec fn apres_faits(faits: Seq<Fait>) -> Map<Seq<char>, bool>
    decreases faits.len(),
{
    if faits.len() == 0 {
        Map::empty()
    } else {
        apres_fait(apres_faits(faits.drop_last()), faits.last())
    }
}

/// The fact `i` starts a check of the file, or starts it over.
pub open spec fn commence(faits: Seq<Fait>, i: int, chemin: Seq<char>) -> bool {
    match faits[i] {
        Fait::Annonce { chemin: c, photo } => c == chemin && reaction(
            apres_faits(faits.take(i)),
            c,
            photo,
        ) == Annonce::Verifier,
        Fait::Fin { chemin: c, traite } => c == chemin && a_refaire(
            apres_faits(faits.take(i)),
            c,
            traite,
        ),
    }
}

/// The file is announced, and is a photo.
pub open spec fn annonce_photo(f: Fait, chemin: Seq<char>) -> bool {
    f == (Fait::Annonce { chemin, photo: true })
}

/// The photo is announced between the facts `i` and `j`.
pub open spec fn annoncee_entre(faits: Seq<Fait>, i: int, j: int, chemin: Seq<char>) -> bool {
    exists|k: int| i < k < j && annonce_photo(#[trigger] faits[k], chemin)
}

/// No check of the file ends between the facts `i` and `j`.
pub open spec fn sans_fin(faits: Seq<Fait>, i: int, j: int, chemin: Seq<char>) -> bool {
    forall|k: int|
        i < k < j ==> !((#[trigger] faits[k]) matches Fait::Fin { chemin: c, traite: _ } && c
            == chemin)
}

/// Whatever happens, no more files are checked at once than may be.
pub proof fn loi_seize_au_plus(faits: Seq<Fait>)
    ensures
        apres_faits(faits).dom().finite(),
        apres_faits(faits).dom().len() <= VERIFICATIONS_SIMULTANEES,
    decreases faits.len(),
{
    broadcast use vstd::set::group_set_axioms;

    if faits.len() > 0 {
        loi_seize_au_plus(faits.drop_last());
    }
}

/// Only photos are checked: a file being checked was announced, as a photo.
pub proof fn loi_seules_les_photos(faits: Seq<Fait>, chemin: Seq<char>)
    requires
        apres_faits(faits).dom().contains(chemin),
    ensures
        annoncee_entre(faits, -1, faits.len() as int, chemin),
    decreases faits.len(),
{
    let debut = faits.drop_last();
    if apres_faits(debut).dom().contains(chemin) {
        loi_seules_les_photos(debut, chemin);
        let k = choose|k: int|
            -1 < k < debut.len() && annonce_photo(#[trigger] debut[k], chemin);
        assert(annonce_photo(faits[k], chemin));
    } else {
        assert(annonce_photo(faits[faits.len() - 1], chemin));
    }
}

/// Between the start of a check and its end, the file stays followed, and it
/// has moved exactly when it was announced.
proof fn lemme_pendant(faits: Seq<Fait>, i: int, j: int, chemin: Seq<char>)
    requires
        0 <= i < j <= faits.len(),
        commence(faits, i, chemin),
        sans_fin(faits, i, j, chemin),
    ensures
        apres_faits(faits.take(j)).dom().contains(chemin),
        apres_faits(faits.take(j))[chemin] == annoncee_entre(faits, i, j, chemin),
    decreases j - i,
{
    assert(faits.take(j).drop_last() =~= faits.take(j - 1));
    assert(faits.take(j).last() == faits[j - 1]);
    if j - 1 > i {
        lemme_pendant(faits, i, j - 1, chemin);
        let f = faits[j - 1];
        if annoncee_entre(faits, i, j - 1, chemin) {
            let k = choose|k: int|
                i < k < j - 1 && annonce_photo(#[trigger] faits[k], chemin);
            assert(annoncee_entre(faits, i, j, chemin));
        } else if annonce_photo(f, chemin) {
            assert(annoncee_entre(faits, i, j, chemin));
        } else {
            assert(!annoncee_entre(faits, i, j, chemin));
        }
    }
}

/// Announcements are grouped and none is lost: while the check of a file
/// runs, an announcement starts no other check of it; when that check ends
/// without taking the file, it is done again if and only if the photo was
/// announced meanwhile; when it takes the file, it is not.
pub proof fn loi_annonces_groupees(faits: Seq<Fait>, i: int, j: int, chemin: Seq<char>)
    requires
        0 <= i < j < faits.len(),
        commence(faits, i, chemin),
        sans_fin(faits, i, j, chemin),
    ensures
        faits[j] is Annonce ==> !commence(faits, j, chemin),
        faits[j] matches Fait::Fin { chemin: c, traite } ==> c == chemin ==> commence(
            faits,
            j,
            chemin,
        ) == (!traite && annoncee_entre(faits, i, j, chemin)),
{
    lemme_pendant(faits, i, j, chemin);
}

// ─── Taking a photo ────────────────────────────────────────────────────

/// What becomes of a stable file.
#[derive(Clone, Copy, PartialEq, Eq, Structural, Debug)]
pub enum Accueil {
    /// It has no name that can be written.
    Ignorer,
    /// It is too large.
    TropVolumineux,
    /// It goes into the table of photos.
    Inscrire,
}

pub fn accueillir(filename: &Option<String>, file_size: u64) -> (r: Accueil)
    ensures
        r == if *filename is None {
            Accueil::Ignorer
        } else if file_size > MAX_FILE_SIZE {
            Accueil::TropVolumineux
        } else {
            Accueil::Inscrire
        },
{
    if filename.is_none() {
        Accueil::Ignorer
    } else if file_size > MAX_FILE_SIZE {
        Accueil::TropVolumineux
    } else {
        Accueil::Inscrire
    }
}

/// Why a file is skipped, its size being written in megabytes.
pub fn raison_refus(megaoctets: &str) -> (r: String)
    ensures
        r@ == "Trop volumineux ("@ + megaoctets@ + " Mo, max 20 Mo)"@,
{
    texte::joindre3("Trop volumineux (", megaoctets, " Mo, max 20 Mo)")
}

/// The date of a file, as seconds since the epoch; empty when it is unknown.
/// A date before the epoch counts as the epoch.
pub fn date_modification(secondes: Option<u64>) -> (r: String)
    ensures
        r@ == match secondes {
            Some(s) => texte::decimal(s as nat),
            None => Seq::<char>::empty(),
        },
{
    match secondes {
        Some(s) => texte::ecrire(s),
        None => {
            let r = String::new();
            assert(r@ =~= Seq::<char>::empty());
            r
        },
    }
}

/// The photo to hand to the workers, given the number it received in the
/// table: none when it stood there already.
pub fn travail(
    numero: Option<i64>,
    session_id: i64,
    file_path: &str,
    filename: &str,
    file_size: u64,
) -> (r: Option<FileJob>)
    ensures
        match numero {
            None => r is None,
            Some(id) => {
                &&& r matches Some(j)
                &&& j.db_file_id == id
                &&& j.session_id == session_id
                &&& j.file_path@ == file_path@
                &&& j.filename@ == filename@
                &&& j.file_size == file_size
            },
        },
{
    match numero {
        None => None,
        Some(db_file_id) => Some(
            FileJob {
                db_file_id,
                session_id,
                file_path: file_path.to_owned(),
                filename: filename.to_owned(),
                file_size,
            },
        ),
    }
}

// ─── Laws of the names and of the checks ───────────────────────────────

/// The extension is what follows the last dot, unless that dot starts the
/// name.
pub proof fn loi_extension(base: Seq<char>, ext: Seq<char>)
    requires
        !ext.contains('.'),
    ensures
        extension(ext) is None,
        extension(base + seq!['.'] + ext) == if base.len() > 0 {
            Some(ext)
        } else {
            None
        },
{
    reveal_strlit(".");
    assert("."@ =~= seq!['.']);
    let s = base + seq!['.'] + ext;
    let n = base.len() as int;
    texte::loi_premiere(ext, "."@);
    texte::loi_derniere(ext, "."@);
    texte::loi_premiere(s, "."@);
    texte::loi_derniere(s, "."@);
    assert(s.subrange(n, n + 1) =~= "."@);
    if let Some(p) = texte::derniere(ext, "."@) {
        assert(ext[p] == (ext.take(p) + "."@ + ext.skip(p + 1))[p]);
        assert(ext[p] == '.');
    }
    let p = texte::derniere(s, "."@)->Some_0;
    assert(s.subrange(n, n + "."@.len()) == "."@);
    assert(p >= n);
    assert(s[p] == (s.take(p) + "."@ + s.skip(p + 1))[p]);
    if p > n {
        assert(ext[p - n - 1] == '.');
    }
    assert(s.skip(n + 1) =~= ext);
}

/// A photo is a name that starts neither with a dot nor with a tilde, whose
/// extension is `jpg` or `jpeg` in any case.
pub proof fn loi_nom_de_photo(base: Seq<char>, ext: Seq<char>)
    requires
        !ext.contains('.'),
    ensures
        !jpeg_valide(ext),
        jpeg_valide(base + seq!['.'] + ext) <==> base.len() > 0 && base[0] != '.' && base[0] != '~'
            && (texte::minuscules(ext) == "jpg"@ || texte::minuscules(ext) == "jpeg"@),
{
    reveal_strlit(".");
    reveal_strlit("~");
    reveal_strlit(".tmp");
    reveal_strlit("jpg");
    reveal_strlit("jpeg");
    let s = base + seq!['.'] + ext;
    let m = texte::minuscules(s);
    loi_extension(base, ext);
    if base.len() > 0 {
        assert(s[0] == base[0]);
        assert(s.subrange(0, 1)[0] == s[0]);
        if base[0] == '.' {
            assert(s.subrange(0, 1) =~= "."@);
        }
        if base[0] == '~' {
            assert(s.subrange(0, 1) =~= "~"@);
        }
    }
    if texte::minuscules(ext) == "jpg"@ || texte::minuscules(ext) == "jpeg"@ {
        let k = ext.len() - 1;
        assert("jpg"@[2] == 'g' && "jpeg"@[3] == 'g');
        assert(texte::minuscules(ext).len() == ext.len());
        assert(texte::minuscules(ext)[k] == 'g');
        assert(s[s.len() - 1] == ext[k]);
        assert(m[m.len() - 1] == texte::minuscules(ext)[k]);
        if texte::finit_par(m, ".tmp"@) {
            assert(m.subrange(m.len() - 4, m.len() as int)[3] == ".tmp"@[3]);
        }
    }
}

/// Hidden directories are left aside, and those of the tools that sort or
/// preview photos; every other directory is looked into.
pub proof fn loi_dossiers_ecartes(nom: Seq<char>)
    ensures
        dossier_exclu(nom) <==> (nom.len() > 0 && nom[0] == '.') || nom == "Rejects"@ || nom
            == "RAW"@ || nom == "@eaDir"@ || nom == "Thumbs"@,
{
    reveal_strlit(".");
    reveal_strlit(".thumbnails");
    if nom.len() > 0 {
        assert(nom.subrange(0, 1)[0] == nom[0]);
        if nom[0] == '.' {
            assert(nom.subrange(0, 1) =~= "."@);
        }
    }
}

/// A file is a photo by its own name, whatever its directories.
pub proof fn loi_photos_par_leur_nom(chemins: Seq<Seq<Seq<char>>>, i: int, d: Seq<Seq<char>>, nom: Seq<char>)
    requires
        0 <= i < chemins.len(),
    ensures
        photos(chemins).len() == chemins.len(),
        chemins[i] == d.push(nom) ==> photos(chemins)[i] == jpeg_valide(nom),
        chemins[i].len() == 0 ==> !photos(chemins)[i],
        est_photo(Some(nom)) == jpeg_valide(nom),
        !est_photo(None),
{
}

/// A file that cannot be measured is given up at once. Two equal measures, the
/// second after a wait, accept it when it holds 50 kibibytes at least, and
/// only then.
pub proof fn loi_deux_mesures(s: Stabilite, a: u64, b: u64)
    requires
        s.inv(),
    ensures
        suite(s, None) == (s, Etape::Verdict(None)),
        s.phase == Phase::Debut ==> {
            let (t, e) = suite(s, Some(a));
            let (u, f) = suite(t, Some(b));
            &&& e == Etape::Attendre
            &&& t.essais == s.essais
            &&& a == b && b >= 50 * 1024 ==> f == Etape::Verdict(Some(b))
            &&& !(a == b && b >= 50 * 1024) ==> u.essais == s.essais + 1 && if s.essais < 2 {
                f == Etape::Remesurer && u.phase == Phase::Debut
            } else {
                f == Etape::Attendre && u.phase == Phase::Derniere(b)
            }
        },
        s.phase == Phase::Derniere(a) ==> suite(s, Some(b)).1 == Etape::Verdict(
            if a == b && b >= 50 * 1024 {
                Some(b)
            } else {
                None
            },
        ),
        s.essais <= 3,
        s.essais == 3 <==> s.phase is Derniere,
{
}

/// A check starts with a measure and takes seven at most.
pub proof fn loi_sept_mesures(mesures: Seq<Option<u64>>)
    requires
        en_cours(mesures),
    ensures
        !(apres_mesures(mesures).1 is Verdict) ==> mesures.len() + mesures_restantes(
            apres_mesures(mesures).0,
        ) <= 7 && mesures.len() < 7,
        mesures.len() <= 7,
    decreases mesures.len(),
{
    if mesures.len() > 0 {
        let d = mesures.drop_last();
        assert(d =~= mesures.take(d.len() as int));
        assert(!(apres_mesures(mesures.take(d.len() as int)).1 is Verdict));
        assert(en_cours(d)) by {
            assert forall|k: int| 0 <= k < d.len() implies !((#[trigger] apres_mesures(
                d.take(k),
            )).1 is Verdict) by {
                assert(d.take(k) =~= mesures.take(k));
                assert(!(apres_mesures(mesures.take(k)).1 is Verdict));
            }
        }
        loi_sept_mesures(d);
        lemme_apres_mesures(d);
        lemme_apres_mesures(mesures);
        loi_verification_finit(apres_mesures(d).0, mesures.last());
        if !(apres_mesures(mesures).1 is Verdict) {
            loi_verification_finit(apres_mesures(mesures).0, None);
        }
    }
}

/// What is announced: anything but a photo is ignored; a photo that is being
/// checked is noted, to be checked again; otherwise its check starts when
/// fewer than sixteen are under way, and waits when not.
pub proof fn loi_annonce(m: Map<Seq<char>, bool>, chemin: Seq<char>, autre: Seq<char>)
    requires
        autre != chemin,
    ensures
        reaction(m, chemin, false) == Annonce::Ignorer,
        apres_annonce(m, chemin, false) == m,
        reaction(m, chemin, true) == Annonce::Noter <==> m.dom().contains(chemin),
        reaction(m, chemin, true) == Annonce::Verifier <==> !m.dom().contains(chemin)
            && m.dom().len() < 16,
        reaction(m, chemin, true) == Annonce::Patienter <==> !m.dom().contains(chemin)
            && m.dom().len() >= 16,
        reaction(m, chemin, true) == Annonce::Patienter ==> apres_annonce(m, chemin, true) == m,
        reaction(m, chemin, true) == Annonce::Noter ==> apres_annonce(m, chemin, true).dom().contains(
            chemin,
        ) && apres_annonce(m, chemin, true)[chemin],
        reaction(m, chemin, true) == Annonce::Verifier ==> apres_annonce(
            m,
            chemin,
            true,
        ).dom().contains(chemin) && !apres_annonce(m, chemin, true)[chemin],
        apres_annonce(m, chemin, true).dom().contains(autre) == m.dom().contains(autre),
        m.dom().contains(autre) ==> apres_annonce(m, chemin, true)[autre] == m[autre],
{
}

/// What ends: a check is done again when the photo was announced meanwhile and
/// was not taken; otherwise it is over, and another may take its place. The
/// other checks go on.
pub proof fn loi_fin(m: Map<Seq<char>, bool>, chemin: Seq<char>, traite: bool, autre: Seq<char>)
    requires
        autre != chemin,
    ensures
        a_refaire(m, chemin, traite) <==> !traite && m.dom().contains(chemin) && m[chemin],
        apres_fin(m, chemin, traite).dom().contains(chemin) <==> a_refaire(m, chemin, traite),
        a_refaire(m, chemin, traite) ==> !apres_fin(m, chemin, traite)[chemin],
        apres_fin(m, chemin, traite).dom().contains(autre) == m.dom().contains(autre),
        m.dom().contains(autre) ==> apres_fin(m, chemin, traite)[autre] == m[autre],
{
}

/// The checks under way are those of the files that are followed, and those to
/// be done again the ones marked so; no file is followed twice, and sixteen at
/// most.
pub proof fn loi_verifications_suivies(v: Registre, i: int, c: Seq<char>)
    requires
        v.inv(),
    ensures
        v.suivis@.len() <= 16,
        0 <= i < v.suivis@.len() ==> v@.dom().contains(v.suivis@[i].chemin@)
            && v@[v.suivis@[i].chemin@] == v.suivis@[i].a_revoir,
        v@.dom().contains(c) ==> exists|k: int|
            0 <= k < v.suivis@.len() && (#[trigger] v.suivis@[k]).chemin@ == c,
{
    let s = v.suivis@;
    if 0 <= i < s.len() {
        let x = s[i].chemin@;
        assert(est_suivi(s, x));
        if est_a_revoir(s, x) {
            let k = choose|k: int| 0 <= k < s.len() && (#[trigger] s[k]).chemin@ == x && s[k].a_revoir;
            assert(k == i);
        }
    }
}

/// The sizes and delays of the checks.
pub proof fn loi_limites_des_verifications()
    ensures
        MIN_FILE_SIZE == 50 * 1024,
        MAX_FILE_SIZE == 20 * 1024 * 1024,
        STABILITY_DELAY_MS == 500,
        STABILITY_CHECKS == 3,
        VERIFICATIONS_SIMULTANEES == 16,
{
}

/// A check starts anew, with a measure, and goes on from each measure to the
/// next.
pub proof fn loi_mesures_en_suite(mesures: Seq<Option<u64>>, taille: Option<u64>)
    ensures
        apres_mesures(Seq::empty()).0.essais == 0,
        apres_mesures(Seq::empty()).0.phase == Phase::Debut,
        apres_mesures(mesures.push(taille)) == suite(apres_mesures(mesures).0, taille),
{
    assert(mesures.push(taille).drop_last() =~= mesures);
}

} // verus!
