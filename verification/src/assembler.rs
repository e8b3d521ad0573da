//! Assembling clips from recorded pieces.
//!
//! With clips of 150 s and an overlap of 30 s, pieces last 30 s; a clip takes
//! five and the next one starts four further on:
//!
//! ```text
//! pieces :  [0][1][2][3][4][5][6][7][8]
//! clip 1 :  [0][1][2][3][4]
//! clip 2 :              [4][5][6][7][8]
//! ```
//!
//! A clip can be made only once all its pieces are closed.

use crate::recorder::SegmentPlan;
use crate::texte;
use vstd::arithmetic::div_mod::lemma_fundamental_div_mod;
use vstd::arithmetic::mul::lemma_mul_inequality;
use vstd::prelude::*;

verus! {

/// A file smaller than this holds no video.
pub const TAILLE_MINIMALE: u64 = 1024;

/// Characters of FFmpeg's output shown with an error.
pub const JOURNAL_MONTRE: usize = 500;

/// An assembled clip, ready to be sent.
pub struct AssembledClip {
    /// Number of the clip in the session, from 1.
    pub index: u32,
    pub filename: String,
    pub path: String,
    pub size_bytes: u64,
    /// Seconds from the start of the session to its first piece.
    pub offset_secs: u32,
    pub duration_secs: u32,
    /// The pieces it is made of.
    pub segments: Vec<u32>,
}

// ─── Which pieces make which clip ──────────────────────────────────────

/// The first piece of clip `n`.
pub open spec fn premier_morceau(plan: SegmentPlan, n: int) -> int {
    (n - 1) * plan.segments_step
}

/// The run of `combien` pieces from `premier` on.
pub open spec fn suite(premier: int, combien: nat) -> Seq<u32> {
    Seq::new(combien, |i: int| (premier + i) as u32)
}

/// The pieces of clip `n`, in order.
pub open spec fn morceaux_du_clip(plan: SegmentPlan, n: int) -> Seq<u32> {
    suite(premier_morceau(plan, n), plan.segments_per_clip as nat)
}

/// Clip `n` can be made from these pieces: none of its own is missing.
pub open spec fn assemblable(plan: SegmentPlan, n: int, prets: Set<u32>) -> bool {
    forall|i: int|
        premier_morceau(plan, n) <= i < premier_morceau(plan, n) + plan.segments_per_clip
            ==> #[trigger] prets.contains(i as u32)
}

/// How many pieces stand ready in a row from `premier` on, up to `au_plus`.
pub open spec fn sans_trou(prets: Set<u32>, premier: int, au_plus: nat) -> nat
    decreases au_plus,
{
    if au_plus == 0 || !prets.contains(premier as u32) {
        0
    } else {
        1 + sans_trou(prets, premier + 1, (au_plus - 1) as nat)
    }
}

/// The pieces of the last clip, cut short by the end of the recording: all
/// that stand ready in a row, provided they bring some new video.
pub open spec fn dernier_clip(plan: SegmentPlan, n: int, prets: Set<u32>) -> Option<Seq<u32>> {
    let premier = premier_morceau(plan, n);
    let combien = sans_trou(prets, premier, plan.segments_per_clip as nat);
    if combien == 0 || (n > 1 && combien <= plan.segments_per_clip - plan.segments_step) {
        None
    } else {
        Some(suite(premier, combien))
    }
}

/// All the pieces of clip `n` are numbered within 32 bits.
pub open spec fn clip_numerote(plan: SegmentPlan, n: int) -> bool {
    1 <= n <= u32::MAX && premier_morceau(plan, n) + plan.segments_per_clip <= u32::MAX
}

/// Clip `n` and its first piece are numbered within 32 bits.
pub open spec fn premier_numerote(plan: SegmentPlan, n: int) -> bool {
    1 <= n <= u32::MAX && premier_morceau(plan, n) <= u32::MAX
}

/// Follows the recording and decides when a clip is ready.
pub struct ClipTracker {
    pub plan: SegmentPlan,
    /// Where the pieces are.
    pub dossier_morceaux: String,
    /// Where the clips go.
    pub dossier_clips: String,
    /// Closed pieces, in increasing order.
    pub morceaux_prets: Vec<u32>,
    /// Number of the next clip to make, from 1.
    pub prochain_clip: u32,
}

impl ClipTracker {
    /// The closed pieces that are remembered.
    pub open spec fn prets(self) -> Set<u32> {
        self.morceaux_prets@.to_set()
    }

    /// The plan is sound, each piece is remembered once and in order, and
    /// the first piece of the next clip can be numbered.
    pub open spec fn inv(self) -> bool {
        &&& self.plan.valide()
        &&& premier_numerote(self.plan, self.prochain_clip as int)
        &&& forall|i: int, j: int|
            0 <= i < j < self.morceaux_prets@.len() ==> #[trigger] self.morceaux_prets@[i]
                < #[trigger] self.morceaux_prets@[j]
    }

    /// A tracker that has seen no piece yet.
    pub fn new(plan: SegmentPlan, dossier_morceaux: &str, dossier_clips: &str) -> (r: Self)
        requires
            plan.valide(),
        ensures
            r.inv(),
            r.plan == plan,
            r.dossier_morceaux@ == dossier_morceaux@,
            r.dossier_clips@ == dossier_clips@,
            r.prets() == Set::<u32>::empty(),
            r.prochain_clip == 1,
            clip_numerote(r.plan, 1),
    {
        assert(plan.segments_per_clip <= u32::MAX);
        assert(premier_morceau(plan, 1) == 0) by (nonlinear_arith);
        let r = ClipTracker {
            plan,
            dossier_morceaux: dossier_morceaux.to_owned(),
            dossier_clips: dossier_clips.to_owned(),
            morceaux_prets: Vec::new(),
            prochain_clip: 1,
        };
        assert(r.prets() =~= Set::<u32>::empty());
        r
    }

    fn est_pret(&self, index: u32) -> (r: bool)
        ensures
            r == self.prets().contains(index),
    {
        let mut i: usize = 0;
        while i < self.morceaux_prets.len()
            invariant
                i <= self.morceaux_prets@.len(),
                forall|k: int| 0 <= k < i ==> self.morceaux_prets@[k] != index,
            decreases self.morceaux_prets@.len() - i,
        {
            if self.morceaux_prets[i] == index {
                assert(self.morceaux_prets@.contains(index));
                return true;
            }
            i += 1;
        }
        false
    }

    fn premier(&self) -> (r: u32)
        requires
            self.inv(),
        ensures
            r == premier_morceau(self.plan, self.prochain_clip as int),
    {
        proof {
            let n = self.prochain_clip - 1;
            let p = self.plan.segments_step as int;
            assert(n * p >= 0) by (nonlinear_arith)
                requires
                    n >= 0,
                    p >= 0,
            ;
        }
        (self.prochain_clip - 1) * self.plan.segments_step
    }

    /// Takes note of a closed piece, and gives the pieces to put together if
    /// the next clip can now be made.
    pub fn segment_ready(&mut self, index: u32) -> (r: Option<Vec<u32>>)
        requires
            old(self).inv(),
            clip_numerote(old(self).plan, old(self).prochain_clip as int),
        ensures
            final(self).inv(),
            final(self).prets() == old(self).prets().insert(index),
            final(self).prochain_clip == old(self).prochain_clip,
            final(self).plan == old(self).plan,
            final(self).dossier_morceaux == old(self).dossier_morceaux,
            final(self).dossier_clips == old(self).dossier_clips,
            match r {
                Some(v) => assemblable(
                    old(self).plan,
                    old(self).prochain_clip as int,
                    final(self).prets(),
                ) && v@ == morceaux_du_clip(old(self).plan, old(self).prochain_clip as int),
                None => !assemblable(
                    old(self).plan,
                    old(self).prochain_clip as int,
                    final(self).prets(),
                ),
            },
    {
        let ghost avant = self.morceaux_prets@;
        let mut i: usize = 0;
        while i < self.morceaux_prets.len() && self.morceaux_prets[i] < index
            invariant
                *self == *old(self),
                self.inv(),
                i <= self.morceaux_prets@.len(),
                forall|k: int| 0 <= k < i ==> self.morceaux_prets@[k] < index,
            decreases self.morceaux_prets@.len() - i,
        {
            i += 1;
        }
        if i == self.morceaux_prets.len() || self.morceaux_prets[i] != index {
            self.morceaux_prets.insert(i, index);
            proof {
                let apres = self.morceaux_prets@;
                assert(apres == avant.insert(i as int, index));
                assert(apres.to_set() =~= avant.to_set().insert(index)) by {
                    assert forall|x: u32| avant.contains(x) implies apres.contains(x) by {
                        let k = avant.index_of(x);
                        if k < i {
                            assert(apres[k] == x);
                        } else {
                            assert(apres[k + 1] == x);
                        }
                    }
                    assert(apres[i as int] == index);
                    assert forall|x: u32| apres.contains(x) && x != index implies avant.contains(
                        x,
                    ) by {
                        let k = apres.index_of(x);
                        if k < i {
                            assert(avant[k] == x);
                        } else {
                            assert(avant[k - 1] == x);
                        }
                    }
                }
            }
        } else {
            assert(avant.contains(index)) by {
                assert(avant[i as int] == index);
            }
            assert(avant.to_set().insert(index) =~= avant.to_set());
        }
        self.clip_assemblable()
    }

    /// The pieces of the next clip, if none is missing.
    pub fn clip_assemblable(&self) -> (r: Option<Vec<u32>>)
        requires
            self.inv(),
            clip_numerote(self.plan, self.prochain_clip as int),
        ensures
            match r {
                Some(v) => assemblable(self.plan, self.prochain_clip as int, self.prets()) && v@
                    == morceaux_du_clip(self.plan, self.prochain_clip as int),
                None => !assemblable(self.plan, self.prochain_clip as int, self.prets()),
            },
    {
        let premier: u32 = self.premier();
        let fin: u32 = premier + self.plan.segments_per_clip;
        let mut v: Vec<u32> = Vec::new();
        let mut i: u32 = premier;
        while i < fin
            invariant
                premier == premier_morceau(self.plan, self.prochain_clip as int),
                fin == premier + self.plan.segments_per_clip,
                premier <= i <= fin,
                v@ == suite(premier as int, (i - premier) as nat),
                forall|k: int| premier <= k < i ==> #[trigger] self.prets().contains(k as u32),
            decreases fin - i,
        {
            if !self.est_pret(i) {
                assert(!self.prets().contains((i as int) as u32));
                return None;
            }
            v.push(i);
            assert(v@ =~= suite(premier as int, (i + 1 - premier) as nat));
            i += 1;
        }
        Some(v)
    }

    /// Seconds from the start of the session to the next clip.
    pub fn offset_du_clip_courant(&self) -> (r: u32)
        requires
            self.inv(),
            (self.prochain_clip - 1) * self.plan.step_secs <= u32::MAX,
        ensures
            r == (self.prochain_clip - 1) * self.plan.step_secs,
    {
        proof {
            let n = self.prochain_clip - 1;
            let p = self.plan.step_secs as int;
            assert(n * p >= 0) by (nonlinear_arith)
                requires
                    n >= 0,
                    p >= 0,
            ;
        }
        (self.prochain_clip - 1) * self.plan.step_secs
    }

    /// Moves on to the next clip. The pieces before its start are forgotten:
    /// no later clip uses them.
    pub fn clip_termine(&mut self)
        requires
            old(self).inv(),
            premier_numerote(old(self).plan, old(self).prochain_clip + 1),
        ensures
            final(self).inv(),
            final(self).prochain_clip == old(self).prochain_clip + 1,
            final(self).plan == old(self).plan,
            final(self).dossier_morceaux == old(self).dossier_morceaux,
            final(self).dossier_clips == old(self).dossier_clips,
            final(self).prets() == old(self).prets().filter(
                |i: u32| i >= premier_morceau(old(self).plan, old(self).prochain_clip + 1),
            ),
    {
        let ghost avant = self.morceaux_prets@;
        self.prochain_clip = self.prochain_clip + 1;
        let premier_utile: u32 = self.premier();
        let mut debut: usize = 0;
        while debut < self.morceaux_prets.len() && self.morceaux_prets[debut] < premier_utile
            invariant
                self.morceaux_prets@ == avant,
                debut <= avant.len(),
                forall|k: int| 0 <= k < debut ==> avant[k] < premier_utile,
            decreases avant.len() - debut,
        {
            debut += 1;
        }
        let garde = self.morceaux_prets.split_off(debut);
        self.morceaux_prets = garde;
        proof {
            assert(self.morceaux_prets@ =~= avant.skip(debut as int));
            let utile = |i: u32|
                i >= premier_morceau(old(self).plan, old(self).prochain_clip + 1);
            assert forall|x: u32| #[trigger]
                self.prets().contains(x) == avant.to_set().filter(utile).contains(x) by {
                if self.prets().contains(x) {
                    let k = self.morceaux_prets@.index_of(x);
                    assert(avant[debut + k] == x);
                    if k > 0 {
                        assert(self.morceaux_prets@[0] < self.morceaux_prets@[k]);
                    }
                    assert(avant[debut as int] >= premier_utile);
                }
                if avant.contains(x) && x >= premier_utile {
                    let k = avant.index_of(x);
                    assert(k >= debut);
                    assert(self.morceaux_prets@[k - debut] == x);
                }
            }
            assert(self.prets() =~= avant.to_set().filter(utile));
        }
    }

    pub fn clip_courant(&self) -> (r: u32)
        ensures
            r == self.prochain_clip,
    {
        self.prochain_clip
    }

    /// The pieces available for a last clip, shorter than the others.
    ///
    /// Meant for the end of the recording. Nothing is given when these pieces
    /// are all in the clip before.
    pub fn clip_final(&self) -> (r: Option<Vec<u32>>)
        requires
            self.inv(),
            clip_numerote(self.plan, self.prochain_clip as int),
        ensures
            match r {
                Some(v) => dernier_clip(self.plan, self.prochain_clip as int, self.prets()) == Some(
                    v@,
                ),
                None => dernier_clip(self.plan, self.prochain_clip as int, self.prets()) is None,
            },
    {
        let premier: u32 = self.premier();
        let fin: u32 = premier + self.plan.segments_per_clip;
        let mut morceaux: Vec<u32> = Vec::new();
        let mut i: u32 = premier;
        let mut n: u32 = 0;
        while i < fin && self.est_pret(i)
            invariant
                premier <= i <= fin,
                fin == premier + self.plan.segments_per_clip,
                n == i - premier,
                morceaux@ == suite(premier as int, n as nat),
                sans_trou(self.prets(), premier as int, self.plan.segments_per_clip as nat) == n
                    + sans_trou(self.prets(), i as int, (fin - i) as nat),
            decreases fin - i,
        {
            morceaux.push(i);
            i += 1;
            n += 1;
            assert(morceaux@ =~= suite(premier as int, n as nat));
        }
        assert(sans_trou(self.prets(), i as int, (fin - i) as nat) == 0);
        if n == 0 {
            return None;
        }
        let chevauchement: u32 = self.plan.segments_per_clip - self.plan.segments_step;
        if self.prochain_clip > 1 && n <= chevauchement {
            return None;
        }
        Some(morceaux)
    }
}

// ─── Laws of the division into clips ───────────────────────────────────

/// Two clips in a row share the last pieces of the first, which are the
/// first pieces of the second, and no other piece.
pub proof fn loi_chevauchement(plan: SegmentPlan, n: int)
    requires
        plan.valide(),
        1 <= n,
        clip_numerote(plan, n + 1),
    ensures
        morceaux_du_clip(plan, n).skip(plan.segments_step as int) == morceaux_du_clip(
            plan,
            n + 1,
        ).take(plan.segments_per_clip - plan.segments_step),
        forall|x: u32|
            morceaux_du_clip(plan, n).contains(x) && morceaux_du_clip(plan, n + 1).contains(x)
                ==> #[trigger] morceaux_du_clip(plan, n).skip(
                plan.segments_step as int,
            ).contains(x),
{
    let p = plan.segments_step as int;
    assert(premier_morceau(plan, n + 1) == premier_morceau(plan, n) + p) by (nonlinear_arith)
        requires
            premier_morceau(plan, n + 1) == n * p,
            premier_morceau(plan, n) == (n - 1) * p,
    ;
    assert(premier_morceau(plan, n) >= 0) by (nonlinear_arith)
        requires
            premier_morceau(plan, n) == (n - 1) * p,
            n >= 1,
            p >= 0,
    ;
    let a = morceaux_du_clip(plan, n);
    let b = morceaux_du_clip(plan, n + 1);
    assert(a.skip(p) =~= b.take(plan.segments_per_clip - p));
    assert forall|x: u32| a.contains(x) && b.contains(x) implies #[trigger] a.skip(p).contains(
        x,
    ) by {
        let i = a.index_of(x);
        let j = b.index_of(x);
        assert(a[i] == b[j]);
        assert(a.skip(p)[i - p] == x);
    }
}

/// Every piece belongs to a clip: nothing that was filmed falls between two.
pub proof fn loi_couverture(plan: SegmentPlan, morceau: u32)
    requires
        plan.valide(),
        clip_numerote(plan, morceau as int / plan.segments_step as int + 1),
    ensures
        morceaux_du_clip(plan, morceau as int / plan.segments_step as int + 1).contains(morceau),
{
    let p = plan.segments_step as int;
    let n = morceau as int / p + 1;
    lemma_fundamental_div_mod(morceau as int, p);
    assert((n - 1) * p == p * (n - 1)) by (nonlinear_arith);
    assert(morceaux_du_clip(plan, n)[morceau as int % p] == morceau);
}

/// The order in which pieces are closed does not change which clips can be
/// made.
pub proof fn loi_ordre_indifferent(plan: SegmentPlan, n: int, prets: Set<u32>, i: u32, j: u32)
    ensures
        assemblable(plan, n, prets.insert(i).insert(j)) == assemblable(
            plan,
            n,
            prets.insert(j).insert(i),
        ),
        dernier_clip(plan, n, prets.insert(i).insert(j)) == dernier_clip(
            plan,
            n,
            prets.insert(j).insert(i),
        ),
{
    assert(prets.insert(i).insert(j) =~= prets.insert(j).insert(i));
}

/// What is forgotten when clip `n` is done serves no later clip: whether a
/// later clip can be made does not change.
pub proof fn loi_oubli_sans_perte(plan: SegmentPlan, n: int, plus_tard: int, prets: Set<u32>)
    requires
        plan.valide(),
        1 <= n < plus_tard,
        clip_numerote(plan, plus_tard),
    ensures
        ({
            let gardes = prets.filter(|i: u32| i >= premier_morceau(plan, n + 1));
            assemblable(plan, plus_tard, gardes) == assemblable(plan, plus_tard, prets)
        }),
{
    let gardes = prets.filter(|i: u32| i >= premier_morceau(plan, n + 1));
    let p = plan.segments_step as int;
    lemma_mul_inequality(n, plus_tard - 1, p);
    let premier = premier_morceau(plan, plus_tard);
    assert(premier >= 0) by (nonlinear_arith)
        requires
            premier == (plus_tard - 1) * p,
            plus_tard >= 1,
            p >= 0,
    ;
    if assemblable(plan, plus_tard, prets) {
        assert forall|i: int|
            premier <= i < premier + plan.segments_per_clip implies #[trigger] gardes.contains(
            i as u32,
        ) by {
            assert(prets.contains(i as u32));
        }
    }
    if assemblable(plan, plus_tard, gardes) {
        assert forall|i: int|
            premier <= i < premier + plan.segments_per_clip implies #[trigger] prets.contains(
            i as u32,
        ) by {
            assert(gardes.contains(i as u32));
        }
    }
}

/// A last clip that is not the first holds a piece that no clip before it
/// has.
pub proof fn loi_clip_final_neuf(plan: SegmentPlan, n: int, prets: Set<u32>)
    requires
        plan.valide(),
        1 < n,
        clip_numerote(plan, n),
        dernier_clip(plan, n, prets) is Some,
    ensures
        ({
            let v = dernier_clip(plan, n, prets)->Some_0;
            v.len() > 0 && forall|m: int|
                1 <= m < n ==> !(#[trigger] morceaux_du_clip(plan, m)).contains(v.last())
        }),
{
    let premier = premier_morceau(plan, n);
    let combien = sans_trou(prets, premier, plan.segments_per_clip as nat);
    let p = plan.segments_step as int;
    lemme_sans_trou(prets, premier, plan.segments_per_clip as nat);
    let v = suite(premier, combien);
    assert(premier >= p) by (nonlinear_arith)
        requires
            premier == (n - 1) * p,
            n >= 2,
            p >= 0,
    ;
    assert(v.last() as int == premier + combien - 1);
    assert forall|m: int| 1 <= m < n implies !(#[trigger] morceaux_du_clip(plan, m)).contains(
        v.last(),
    ) by {
        lemma_mul_inequality(m - 1, n - 2, p);
        assert((n - 1) * p == (n - 2) * p + p) by (nonlinear_arith);
        assert((m - 1) * p >= 0) by (nonlinear_arith)
            requires
                m >= 1,
                p >= 0,
        ;
        let a = morceaux_du_clip(plan, m);
        if a.contains(v.last()) {
            let i = a.index_of(v.last());
            assert(a[i] as int == premier_morceau(plan, m) + i);
        }
    }
}

/// The pieces of a last clip are all closed, and no more than a clip holds.
pub proof fn lemme_sans_trou(prets: Set<u32>, premier: int, au_plus: nat)
    ensures
        sans_trou(prets, premier, au_plus) <= au_plus,
        forall|i: int|
            premier <= i < premier + sans_trou(prets, premier, au_plus) ==> #[trigger]
                prets.contains(i as u32),
    decreases au_plus,
{
    if au_plus > 0 && prets.contains(premier as u32) {
        lemme_sans_trou(prets, premier + 1, (au_plus - 1) as nat);
    }
}

/// A clip starts when its first piece does: the offset of clip `n` is the
/// duration of the pieces before it.
pub proof fn loi_position(plan: SegmentPlan, n: int)
    requires
        plan.valide(),
        1 <= n,
    ensures
        (n - 1) * plan.step_secs == premier_morceau(plan, n) * plan.segment_secs,
{
    let p = plan.segments_step as int;
    let d = plan.segment_secs as int;
    assert((n - 1) * (p * d) == ((n - 1) * p) * d) by (nonlinear_arith);
}

// ─── Putting pieces together ───────────────────────────────────────────

/// The name of a clip.
pub open spec fn nom_de_clip(index: u32) -> Seq<char> {
    "clip_"@ + texte::cadre(index as int, 4) + ".mp4"@
}

pub fn nom_clip(index: u32) -> (r: String)
    ensures
        r@ == nom_de_clip(index),
{
    texte::joindre3("clip_", texte::ecrire_cadre(index as i64, 4).as_str(), ".mp4")
}

/// The name of the list of pieces of a clip.
pub fn nom_liste(index: u32) -> (r: String)
    ensures
        r@ == ".liste_"@ + texte::decimal(index as nat) + ".txt"@,
{
    texte::joindre3(".liste_", texte::ecrire(index as u64).as_str(), ".txt")
}

/// A path as FFmpeg's list wants it: forward slashes, apostrophes protected.
pub open spec fn chemin_protege(chemin: Seq<char>) -> Seq<char> {
    texte::remplace(texte::remplace(chemin, '\\', "/"@), '\'', "'\\''"@)
}

/// One line of FFmpeg's list for each path.
pub open spec fn liste(chemins: Seq<Seq<char>>) -> Seq<char>
    decreases chemins.len(),
{
    if chemins.len() == 0 {
        Seq::empty()
    } else {
        liste(chemins.drop_last()) + "file '"@ + chemin_protege(chemins.last()) + "'\n"@
    }
}

/// The first of the pieces whose file is missing.
pub open spec fn premier_absent(presents: Seq<bool>) -> Option<int>
    decreases presents.len(),
{
    if presents.len() == 0 {
        None
    } else if premier_absent(presents.drop_last()) is Some {
        premier_absent(presents.drop_last())
    } else if !presents.last() {
        Some(presents.len() - 1)
    } else {
        None
    }
}

fn proteger(chemin: &str) -> (r: String)
    ensures
        r@ == chemin_protege(chemin@),
{
    let barres = texte::remplacer(&texte::caracteres(chemin), '\\', &texte::caracteres("/"));
    texte::en_texte(&texte::remplacer(&barres, '\'', &texte::caracteres("'\\''")))
}

/// The list of files for FFmpeg, given the path of each piece and whether it
/// exists. Without a piece the clip cannot be made.
pub fn preparer_liste(morceaux: &Vec<u32>, chemins: &Vec<String>, presents: &Vec<bool>) -> (r:
    Result<String, String>)
    requires
        morceaux@.len() == chemins@.len() == presents@.len(),
    ensures
        match premier_absent(presents@) {
            Some(i) => r matches Err(m) && m@ == "Le morceau "@ + texte::decimal(
                morceaux@[i] as nat,
            ) + " est introuvable — le clip ne peut pas être assemblé."@,
            None => r matches Ok(l) && l@ == liste(texte::vues(chemins@)),
        },
{
    let ghost noms = texte::vues(chemins@);
    let mut l = String::new();
    let mut i: usize = 0;
    while i < morceaux.len()
        invariant
            morceaux@.len() == chemins@.len() == presents@.len(),
            i <= morceaux@.len(),
            noms == texte::vues(chemins@),
            l@ == liste(noms.take(i as int)),
            premier_absent(presents@.take(i as int)) is None,
        decreases morceaux@.len() - i,
    {
        assert(presents@.take(i + 1).drop_last() =~= presents@.take(i as int));
        assert(noms.take(i + 1).drop_last() =~= noms.take(i as int));
        if !presents[i] {
            proof {
                assert(premier_absent(presents@.take(i + 1)) == Some(i as int));
                lemme_absent_reste(presents@, i + 1);
            }
            return Err(
                texte::joindre3(
                    "Le morceau ",
                    texte::ecrire(morceaux[i] as u64).as_str(),
                    " est introuvable — le clip ne peut pas être assemblé.",
                ),
            );
        }
        l.append("file '");
        l.append(proteger(chemins[i].as_str()).as_str());
        l.append("'\n");
        i += 1;
    }
    assert(presents@.take(presents@.len() as int) =~= presents@);
    assert(noms.take(noms.len() as int) =~= noms);
    Ok(l)
}

proof fn lemme_absent_reste(presents: Seq<bool>, k: int)
    requires
        0 <= k <= presents.len(),
        premier_absent(presents.take(k)) is Some,
    ensures
        premier_absent(presents) == premier_absent(presents.take(k)),
    decreases presents.len() - k,
{
    if k == presents.len() {
        assert(presents.take(k) =~= presents);
    } else {
        assert(presents.take(k + 1).drop_last() =~= presents.take(k));
        lemme_absent_reste(presents, k + 1);
    }
}

/// The arguments of the assembly: the pieces are copied, not encoded again.
pub fn arguments_assemblage(fichier_liste: &str, chemin_clip: &str) -> (r: Vec<String>)
    ensures
        texte::vues(r@) == seq![
            "-hide_banner"@,
            "-f"@,
            "concat"@,
            "-safe"@,
            "0"@,
            "-i"@,
            fichier_liste@,
            "-c"@,
            "copy"@,
            "-avoid_negative_ts"@,
            "make_zero"@,
            "-y"@,
            chemin_clip@,
        ],
{
    let mut args: Vec<String> = Vec::new();
    texte::ajouter(&mut args, "-hide_banner");
    texte::ajouter(&mut args, "-f");
    texte::ajouter(&mut args, "concat");
    texte::ajouter(&mut args, "-safe");
    texte::ajouter(&mut args, "0");
    texte::ajouter(&mut args, "-i");
    texte::ajouter(&mut args, fichier_liste);
    texte::ajouter(&mut args, "-c");
    texte::ajouter(&mut args, "copy");
    texte::ajouter(&mut args, "-avoid_negative_ts");
    texte::ajouter(&mut args, "make_zero");
    texte::ajouter(&mut args, "-y");
    texte::ajouter(&mut args, chemin_clip);
    args
}

/// Judges the assembly by the file it left: its size, or none without a
/// file. FFmpeg's own verdict is not taken into account.
pub fn conclure_assemblage(
    tracker: &ClipTracker,
    morceaux: &Vec<u32>,
    chemin_clip: &str,
    taille: Option<u64>,
    journal: &str,
) -> (r: Result<AssembledClip, String>)
    requires
        tracker.inv(),
        (tracker.prochain_clip - 1) * tracker.plan.step_secs <= u32::MAX,
    ensures
        match taille {
            None => r matches Err(m) && m@
                == "L'assemblage n'a produit aucun fichier.\n\nJournal FFmpeg :\n"@
                + texte::queue(journal@, JOURNAL_MONTRE as nat),
            Some(t) if t < TAILLE_MINIMALE => r matches Err(m) && m@ == "Le clip produit est vide ("@
                + texte::decimal(t as nat) + " octets).\n\nJournal FFmpeg :\n"@ + texte::queue(
                journal@,
                JOURNAL_MONTRE as nat,
            ),
            Some(t) => {
                &&& r matches Ok(clip)
                &&& clip.index == tracker.prochain_clip
                &&& clip.filename@ == nom_de_clip(tracker.prochain_clip)
                &&& clip.path@ == chemin_clip@
                &&& clip.size_bytes == t
                &&& clip.offset_secs == (tracker.prochain_clip - 1) * tracker.plan.step_secs
                &&& clip.duration_secs == tracker.plan.segments_per_clip
                    * tracker.plan.segment_secs
                &&& clip.segments@ == morceaux@
            },
        },
{
    match taille {
        None => Err(
            texte::joindre(
                "L'assemblage n'a produit aucun fichier.\n\nJournal FFmpeg :\n",
                texte::prendre_fin(journal, JOURNAL_MONTRE).as_str(),
            ),
        ),
        Some(t) => {
            if t < TAILLE_MINIMALE {
                let mut m = texte::joindre3(
                    "Le clip produit est vide (",
                    texte::ecrire(t).as_str(),
                    " octets).\n\nJournal FFmpeg :\n",
                );
                m.append(texte::prendre_fin(journal, JOURNAL_MONTRE).as_str());
                return Err(m);
            }
            let segments: Vec<u32> = copier(morceaux);
            Ok(
                AssembledClip {
                    index: tracker.clip_courant(),
                    filename: nom_clip(tracker.prochain_clip),
                    path: chemin_clip.to_owned(),
                    size_bytes: t,
                    offset_secs: tracker.offset_du_clip_courant(),
                    duration_secs: tracker.plan.segments_per_clip * tracker.plan.segment_secs,
                    segments,
                },
            )
        },
    }
}

/// A copy of a list of pieces.
pub fn copier(v: &Vec<u32>) -> (r: Vec<u32>)
    ensures
        r@ == v@,
{
    let mut r: Vec<u32> = Vec::new();
    let mut i: usize = 0;
    while i < v.len()
        invariant
            i <= v@.len(),
            r@ == v@.take(i as int),
        decreases v@.len() - i,
    {
        r.push(v[i]);
        assert(v@.take(i + 1) =~= v@.take(i as int).push(v@[i as int]));
        i += 1;
    }
    assert(v@.take(v@.len() as int) =~= v@);
    r
}

// ─── Measuring ─────────────────────────────────────────────────────────

/// The arguments by which ffprobe tells the duration of a file.
pub fn arguments_duree(chemin: &str) -> (r: Vec<String>)
    ensures
        texte::vues(r@) == seq![
            "-v"@,
            "error"@,
            "-show_entries"@,
            "format=duration"@,
            "-of"@,
            "default=noprint_wrappers=1:nokey=1"@,
            chemin@,
        ],
{
    let mut args: Vec<String> = Vec::new();
    texte::ajouter(&mut args, "-v");
    texte::ajouter(&mut args, "error");
    texte::ajouter(&mut args, "-show_entries");
    texte::ajouter(&mut args, "format=duration");
    texte::ajouter(&mut args, "-of");
    texte::ajouter(&mut args, "default=noprint_wrappers=1:nokey=1");
    texte::ajouter(&mut args, chemin);
    args
}

/// Replaces the planned duration of a clip by the one measured, in whole
/// seconds, when the clip was cut short.
///
/// True when the clip is complete. Without a measure it cannot be told, and
/// the clip is held incomplete.
pub fn ajuster_duree(clip: &mut AssembledClip, mesuree: Option<u32>) -> (complet: bool)
    ensures
        complet == (mesuree matches Some(s) && s >= old(clip).duration_secs),
        *final(clip) == (AssembledClip {
            duration_secs: if mesuree is Some && !complet {
                mesuree->Some_0
            } else {
                old(clip).duration_secs
            },
            ..*old(clip)
        }),
{
    match mesuree {
        None => false,
        Some(arrondie) => {
            if arrondie >= clip.duration_secs {
                return true;
            }
            clip.duration_secs = arrondie;
            false
        },
    }
}

/// Is a clip complete? During the race it is, by construction; at the end of
/// the recording its duration must have been measured whole; the last clip,
/// which lacks pieces, never is.
pub fn clip_complet(fin_de_captation: bool, clip_final: bool, mesure_complete: bool) -> (r: bool)
    ensures
        r == (!clip_final && (!fin_de_captation || mesure_complete)),
{
    !clip_final && (!fin_de_captation || mesure_complete)
}

// ─── Light version ─────────────────────────────────────────────────────

/// The arguments of the light version: smaller, slower, readable at once.
pub fn arguments_proxy(chemin_clip: &str, hauteur: u32, debit_mbps: u32, chemin_proxy: &str) -> (r:
    Vec<String>)
    ensures
        texte::vues(r@) == seq![
            "-hide_banner"@,
            "-i"@,
            chemin_clip@,
            "-vf"@,
            "scale=-2:"@ + texte::decimal(hauteur as nat),
            "-c:v"@,
            "libx264"@,
            "-preset"@,
            "veryfast"@,
            "-b:v"@,
            texte::decimal(debit_mbps as nat) + "M"@,
            "-pix_fmt"@,
            "yuv420p"@,
            "-movflags"@,
            "+faststart"@,
            "-c:a"@,
            "aac"@,
            "-b:a"@,
            "96k"@,
            "-y"@,
            chemin_proxy@,
        ],
{
    let mut args: Vec<String> = Vec::new();
    texte::ajouter(&mut args, "-hide_banner");
    texte::ajouter(&mut args, "-i");
    texte::ajouter(&mut args, chemin_clip);
    texte::ajouter(&mut args, "-vf");
    let echelle = texte::joindre("scale=-2:", texte::ecrire(hauteur as u64).as_str());
    texte::ajouter(&mut args, echelle.as_str());
    texte::ajouter(&mut args, "-c:v");
    texte::ajouter(&mut args, "libx264");
    texte::ajouter(&mut args, "-preset");
    texte::ajouter(&mut args, "veryfast");
    texte::ajouter(&mut args, "-b:v");
    let debit = texte::joindre(texte::ecrire(debit_mbps as u64).as_str(), "M");
    texte::ajouter(&mut args, debit.as_str());
    texte::ajouter(&mut args, "-pix_fmt");
    texte::ajouter(&mut args, "yuv420p");
    texte::ajouter(&mut args, "-movflags");
    texte::ajouter(&mut args, "+faststart");
    texte::ajouter(&mut args, "-c:a");
    texte::ajouter(&mut args, "aac");
    texte::ajouter(&mut args, "-b:a");
    texte::ajouter(&mut args, "96k");
    texte::ajouter(&mut args, "-y");
    texte::ajouter(&mut args, chemin_proxy);
    args
}

/// The name of a light version: that of the clip, or a default one.
pub fn nom_proxy(nom_du_clip: Option<String>) -> (r: String)
    ensures
        r@ == match nom_du_clip {
            Some(n) => n@,
            None => "clip.mp4"@,
        },
{
    match nom_du_clip {
        Some(n) => n,
        None => "clip.mp4".to_owned(),
    }
}

/// Judges the light version by the file it left.
pub fn conclure_proxy(taille: Option<u64>) -> (r: Result<u64, String>)
    ensures
        match taille {
            None => r matches Err(m) && m@ == "La conversion n'a produit aucun fichier."@,
            Some(t) if t < TAILLE_MINIMALE => r matches Err(m) && m@
                == "La version légère est vide ("@ + texte::decimal(t as nat) + " octets)."@,
            Some(t) => r == Ok::<u64, String>(t),
        },
{
    match taille {
        None => Err("La conversion n'a produit aucun fichier.".to_owned()),
        Some(t) => if t < TAILLE_MINIMALE {
            Err(
                texte::joindre3(
                    "La version légère est vide (",
                    texte::ecrire(t).as_str(),
                    " octets).",
                ),
            )
        } else {
            Ok(t)
        },
    }
}

// ─── What is filmed is kept ────────────────────────────────────────────

/// A run of `k` closed pieces from `premier` on, which nothing continues, is
/// counted whole.
proof fn lemme_suite_comptee(prets: Set<u32>, premier: int, au_plus: nat, k: nat)
    requires
        k <= au_plus,
        forall|i: int| premier <= i < premier + k ==> prets.contains(#[trigger] (i as u32)),
        k < au_plus ==> !prets.contains((premier + k) as u32),
    ensures
        sans_trou(prets, premier, au_plus) == k,
    decreases k,
{
    if k > 0 {
        assert(prets.contains((premier as int) as u32));
        lemme_suite_comptee(prets, premier + 1, (au_plus - 1) as nat, (k - 1) as nat);
    }
}

/// Nothing filmed is lost at the end of a recording: an unbroken run of `k`
/// closed pieces from the first one of the next clip makes a last clip of
/// exactly these pieces as soon as one of them is in no clip before, that is,
/// when there is no clip before or the run is longer than the overlap.
/// Otherwise there is no last clip.
pub proof fn loi_fin_sans_perte(plan: SegmentPlan, n: int, prets: Set<u32>, k: nat)
    requires
        plan.valide(),
        1 <= n,
        k <= plan.segments_per_clip,
        (n - 1) * plan.segments_step + plan.segments_per_clip <= u32::MAX,
        forall|x: u32|
            (n - 1) * plan.segments_step <= x < (n - 1) * plan.segments_step + k
                ==> #[trigger] prets.contains(x),
        k < plan.segments_per_clip ==> !prets.contains(
            ((n - 1) * plan.segments_step + k) as u32,
        ),
    ensures
        dernier_clip(plan, n, prets) is Some == (k > 0 && (n == 1 || k + plan.segments_step
            > plan.segments_per_clip)),
        dernier_clip(plan, n, prets) matches Some(v) ==> v.len() == k && forall|i: int|
            0 <= i < k ==> #[trigger] v[i] == (n - 1) * plan.segments_step + i,
{
    let premier = (n - 1) * plan.segments_step;
    assert(premier >= 0) by (nonlinear_arith)
        requires
            premier == (n - 1) * plan.segments_step,
            n >= 1,
    ;
    assert forall|i: int| premier <= i < premier + k implies prets.contains(
        #[trigger] (i as u32),
    ) by {
        assert(prets.contains(i as u32));
    }
    lemme_suite_comptee(prets, premier, plan.segments_per_clip as nat, k);
}

/// The pieces of a clip are those that start within it: as many as a clip
/// holds, in a row, the first one `segments_step` after that of the clip
/// before. They are enough to make the clip, and each of them is needed.
pub proof fn loi_pieces_necessaires(plan: SegmentPlan, n: int, prets: Set<u32>, x: u32)
    requires
        plan.valide(),
        1 <= n,
        (n - 1) * plan.segments_step + plan.segments_per_clip <= u32::MAX,
    ensures
        morceaux_du_clip(plan, n).len() == plan.segments_per_clip,
        forall|i: int|
            0 <= i < plan.segments_per_clip ==> #[trigger] morceaux_du_clip(plan, n)[i] == (n - 1)
                * plan.segments_step + i,
        morceaux_du_clip(plan, n).to_set().subset_of(prets) == assemblable(plan, n, prets),
        morceaux_du_clip(plan, n).contains(x) ==> !assemblable(plan, n, prets.remove(x)),
        !morceaux_du_clip(plan, n).contains(x) ==> assemblable(plan, n, prets.remove(x))
            == assemblable(plan, n, prets),
{
    let premier = (n - 1) * plan.segments_step;
    assert(premier >= 0) by (nonlinear_arith)
        requires
            premier == (n - 1) * plan.segments_step,
            n >= 1,
    ;
    let v = morceaux_du_clip(plan, n);
    assert forall|q: Set<u32>| #[trigger] v.to_set().subset_of(q) == assemblable(plan, n, q) by {
        if v.to_set().subset_of(q) {
            assert forall|i: int|
                premier <= i < premier + plan.segments_per_clip implies #[trigger] q.contains(
                i as u32,
            ) by {
                assert(v[i - premier] == i as u32);
                assert(v.to_set().contains(v[i - premier]));
            }
        }
        if assemblable(plan, n, q) {
            assert forall|y: u32| v.to_set().contains(y) implies #[trigger] q.contains(y) by {
                let i = v.index_of(y);
                assert(q.contains((premier + i) as u32));
            }
        }
    }
    assert(v.to_set().subset_of(prets.remove(x)) == assemblable(plan, n, prets.remove(x)));
    if v.contains(x) {
        assert(v.to_set().contains(x));
        assert(!prets.remove(x).contains(x));
    } else {
        assert(v.to_set().subset_of(prets) ==> v.to_set().subset_of(prets.remove(x)));
        assert(v.to_set().subset_of(prets.remove(x)) ==> v.to_set().subset_of(prets)) by {
            assert forall|y: u32|
                v.to_set().subset_of(prets.remove(x)) && v.to_set().contains(y) implies #[trigger] prets.contains(
            y) by {
                assert(prets.remove(x).contains(y));
            }
        }
    }
}

/// The first missing piece is the one named: those before it are there.
pub proof fn loi_premier_absent(presents: Seq<bool>)
    ensures
        match premier_absent(presents) {
            Some(i) => 0 <= i < presents.len() && !presents[i] && forall|j: int|
                0 <= j < i ==> #[trigger] presents[j],
            None => forall|j: int| 0 <= j < presents.len() ==> #[trigger] presents[j],
        },
    decreases presents.len(),
{
    if presents.len() > 0 {
        loi_premier_absent(presents.drop_last());
        assert forall|j: int|
            0 <= j < presents.len() && premier_absent(presents) is None implies #[trigger] presents[j] by {
            if j < presents.len() - 1 {
                assert(presents.drop_last()[j]);
            }
        }
        assert forall|j: int|
            premier_absent(presents) matches Some(i) && 0 <= j < i implies #[trigger] presents[j] by {
            assert(presents.drop_last()[j] == presents[j]);
        }
    }
}

/// The list names the pieces in the order given, each on a line of its own.
/// A path keeps its characters but for backslashes, which become slashes, and
/// apostrophes, which are closed, escaped and opened again.
pub proof fn loi_liste(chemins: Seq<Seq<char>>, chemin: Seq<char>, a: Seq<char>, c: char)
    ensures
        liste(Seq::empty()) == Seq::<char>::empty(),
        liste(chemins.push(chemin)) == liste(chemins) + "file '"@ + chemin_protege(chemin)
            + "'\n"@,
        chemin_protege(Seq::empty()) == Seq::<char>::empty(),
        chemin_protege(a.push(c)) == chemin_protege(a) + if c == '\\' {
            "/"@
        } else if c == '\'' {
            "'\\''"@
        } else {
            seq![c]
        },
{
    reveal_strlit("/");
    assert(chemins.push(chemin).drop_last() =~= chemins);
    let v = Seq::<char>::empty();
    texte::loi_remplace(a, c, seq![c], '\\', "/"@);
    texte::loi_remplace(a, '\\', v, '\\', "/"@);
    let b = texte::remplace(a, '\\', "/"@);
    assert(a.push(c) =~= a + seq![c]);
    let d = texte::remplace(seq![c], '\\', "/"@);
    texte::loi_remplace(b, c, d, '\'', "'\\''"@);
    texte::loi_remplace(b, '/', d, '\'', "'\\''"@);
    assert("/"@ =~= seq!['/']);
}

/// Two clips never go by the same name.
pub proof fn loi_noms_de_clips(i: u32, j: u32)
    requires
        i != j,
    ensures
        nom_de_clip(i) != nom_de_clip(j),
{
    reveal_strlit("clip_");
    reveal_strlit(".mp4");
    let a = texte::cadre(i as int, 4);
    let b = texte::cadre(j as int, 4);
    texte::lemme_cadre_relu(i as nat, 4);
    texte::lemme_cadre_relu(j as nat, 4);
    let m = nom_de_clip(i);
    let n = nom_de_clip(j);
    assert(m.subrange(5, m.len() - 4) =~= a);
    assert(n.subrange(5, n.len() - 4) =~= b);
}

/// Clip and pieces are numbered when their numbers hold in 32 bits: that of the
/// clip, counted from one, and that of its first piece or, for a whole clip,
/// of the piece after its last.
pub proof fn loi_numerotation(plan: SegmentPlan, n: int)
    ensures
        premier_numerote(plan, n) <==> 1 <= n < 0x1_0000_0000 && (n - 1) * plan.segments_step
            < 0x1_0000_0000,
        clip_numerote(plan, n) <==> 1 <= n < 0x1_0000_0000 && (n - 1) * plan.segments_step
            + plan.segments_per_clip < 0x1_0000_0000,
        premier_morceau(plan, 1) == 0,
        premier_morceau(plan, n + 1) - premier_morceau(plan, n) == plan.segments_step,
{
    let s = plan.segments_step as int;
    assert(n * s == (n - 1) * s + s) by (nonlinear_arith);
    assert((1int - 1) * s == 0) by (nonlinear_arith);
}

/// A tracker holds each piece once, in order, and a clip that can be numbered.
pub proof fn loi_suivi_sain(t: ClipTracker, i: int, j: int)
    requires
        t.inv(),
    ensures
        t.plan.valide(),
        t.prochain_clip >= 1,
        0 <= i < j < t.morceaux_prets@.len() ==> t.morceaux_prets@[i] < t.morceaux_prets@[j],
{
}

} // verus!
