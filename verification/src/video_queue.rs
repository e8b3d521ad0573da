//! The queue of video files waiting to be sent.
//!
//! It holds analysis frames, light clips and full-quality clips, in that
//! order of priority: the lighter a file, the sooner it helps. Nothing is
//! lost: an element that was sent, or given up, stays in the queue with its
//! status.

use crate::texte;
use vstd::prelude::*;

verus! {

/// Failures after which an element is given up.
pub const ECHECS_ADMIS: i64 = 3;

// ─── Elements ──────────────────────────────────────────────────────────

/// What an element is.
#[derive(Clone, Copy, PartialEq, Eq, Structural, Debug)]
pub enum QueueKind {
    /// An analysis frame: the lightest, and the most important.
    Frames,
    /// A light clip, to be watched during the race.
    ClipProxy,
    /// A full-quality clip: what is sold.
    ClipHd,
}

/// Where an element stands.
#[derive(Clone, Copy, PartialEq, Eq, Structural, Debug)]
pub enum StatutVideo {
    Pending,
    /// Taken by an upload that has not concluded.
    Sending,
    Sent,
    Failed,
}

impl QueueKind {
    /// The name under which a kind is stored.
    pub open spec fn nom(self) -> Seq<char> {
        match self {
            QueueKind::Frames => "frames"@,
            QueueKind::ClipProxy => "clip_proxy"@,
            QueueKind::ClipHd => "clip_hd"@,
        }
    }

    /// The kind stored under a name; frames for an unknown one.
    pub open spec fn de_nom(nom: Seq<char>) -> Self {
        if nom == "clip_proxy"@ {
            QueueKind::ClipProxy
        } else if nom == "clip_hd"@ {
            QueueKind::ClipHd
        } else {
            QueueKind::Frames
        }
    }

    pub fn as_str(&self) -> (r: &'static str)
        ensures
            r@ == self.nom(),
    {
        match self {
            QueueKind::Frames => "frames",
            QueueKind::ClipProxy => "clip_proxy",
            QueueKind::ClipHd => "clip_hd",
        }
    }

    pub fn from_str(texte: &str) -> (r: Self)
        ensures
            r == Self::de_nom(texte@),
    {
        if texte::memes(texte, "clip_proxy") {
            QueueKind::ClipProxy
        } else if texte::memes(texte, "clip_hd") {
            QueueKind::ClipHd
        } else {
            QueueKind::Frames
        }
    }
}

/// Reading back the stored name of a kind gives the kind.
pub proof fn loi_nature_relue(k: QueueKind)
    ensures
        QueueKind::de_nom(k.nom()) == k,
{
    reveal_strlit("frames");
    reveal_strlit("clip_proxy");
    reveal_strlit("clip_hd");
    assert("frames"@.len() == 6 && "clip_proxy"@.len() == 10 && "clip_hd"@.len() == 7);
}

/// An element of the queue.
pub struct QueueItem {
    pub id: i64,
    pub session_id: String,
    pub kind: QueueKind,
    pub file_path: String,
    pub clip_index: Option<u32>,
    pub started_at: Option<String>,
    pub ended_at: Option<String>,
    /// When a frame was filmed.
    pub instant_at: Option<String>,
    pub size_bytes: i64,
    pub attempts: i64,
    pub last_error: Option<String>,
}

/// The view of an element.
#[verifier::ext_equal]
pub ghost struct ElementVu {
    pub id: int,
    pub session_id: Seq<char>,
    pub kind: QueueKind,
    pub file_path: Seq<char>,
    pub clip_index: Option<u32>,
    pub started_at: Option<Seq<char>>,
    pub ended_at: Option<Seq<char>>,
    pub instant_at: Option<Seq<char>>,
    pub size_bytes: int,
    pub attempts: int,
    pub last_error: Option<Seq<char>>,
}

impl View for QueueItem {
    type V = ElementVu;

    open spec fn view(&self) -> ElementVu {
        ElementVu {
            id: self.id as int,
            session_id: self.session_id@,
            kind: self.kind,
            file_path: self.file_path@,
            clip_index: self.clip_index,
            started_at: texte::vue(self.started_at),
            ended_at: texte::vue(self.ended_at),
            instant_at: texte::vue(self.instant_at),
            size_bytes: self.size_bytes as int,
            attempts: self.attempts as int,
            last_error: texte::vue(self.last_error),
        }
    }
}

impl QueueItem {
    /// A copy of the element.
    pub fn copie(&self) -> (r: Self)
        ensures
            r@ == self@,
    {
        QueueItem {
            id: self.id,
            session_id: self.session_id.clone(),
            kind: self.kind,
            file_path: self.file_path.clone(),
            clip_index: self.clip_index,
            started_at: texte::copie_option(&self.started_at),
            ended_at: texte::copie_option(&self.ended_at),
            instant_at: texte::copie_option(&self.instant_at),
            size_bytes: self.size_bytes,
            attempts: self.attempts,
            last_error: texte::copie_option(&self.last_error),
        }
    }
}

/// The views of a list of elements.
pub open spec fn elements(v: Seq<QueueItem>) -> Seq<ElementVu> {
    v.map_values(|e: QueueItem| e@)
}

/// A row of the queue: an element, the event it belongs to, its status and
/// its dates.
pub struct LigneVideo {
    pub element: QueueItem,
    /// None for a row written before events were recorded.
    pub event_id: Option<i64>,
    pub status: StatutVideo,
    pub queued_at: String,
    pub sent_at: Option<String>,
}

/// The view of a row.
#[verifier::ext_equal]
pub ghost struct LigneVue {
    pub element: ElementVu,
    pub event_id: Option<i64>,
    pub status: StatutVideo,
    pub queued_at: Seq<char>,
    pub sent_at: Option<Seq<char>>,
}

impl View for LigneVideo {
    type V = LigneVue;

    open spec fn view(&self) -> LigneVue {
        LigneVue {
            element: self.element@,
            event_id: self.event_id,
            status: self.status,
            queued_at: self.queued_at@,
            sent_at: texte::vue(self.sent_at),
        }
    }
}

/// What waits, by kind.
#[derive(Clone, Copy, PartialEq, Eq, Structural, Debug)]
pub struct QueueStats {
    pub frames_pending: i64,
    pub proxy_pending: i64,
    pub hd_pending: i64,
    /// Bytes of all that waits.
    pub total_bytes: i64,
    pub failed: i64,
    pub frames_sent: i64,
    pub proxy_sent: i64,
    pub hd_sent: i64,
    /// Bytes of the full-quality clips that wait.
    pub hd_bytes: i64,
}

/// What a reconciliation spared.
#[derive(Clone, Copy, PartialEq, Eq, Structural, Debug)]
pub struct Reconciliation {
    /// Files set aside because the server holds them.
    pub skipped: usize,
    /// Bytes that need not be sent again.
    pub bytes_saved: i64,
}

// ─── The queue ─────────────────────────────────────────────────────────

/// The queue: its rows in the order of their numbers.
pub struct VideoQueue {
    pub lignes: Vec<LigneVideo>,
    /// The greatest number ever given to a row.
    pub compteur: i64,
    /// The number of the row inserted last.
    pub dernier_insere: i64,
}

/// The views of a list of rows.
pub open spec fn lignes_vues(v: Seq<LigneVideo>) -> Seq<LigneVue> {
    v.map_values(|l: LigneVideo| l@)
}

impl View for VideoQueue {
    type V = Seq<LigneVue>;

    open spec fn view(&self) -> Seq<LigneVue> {
        lignes_vues(self.lignes@)
    }
}

/// Two rows stand for the same file: same session, kind and path.
pub open spec fn meme_fichier(a: ElementVu, b: ElementVu) -> bool {
    a.session_id == b.session_id && a.kind == b.kind && a.file_path == b.file_path
}

/// Rows are numbered in increasing order, up to `compteur`, and no file
/// stands twice.
pub open spec fn file_saine(s: Seq<LigneVue>, compteur: int) -> bool {
    &&& forall|i: int|
        0 <= i < s.len() ==> 1 <= (#[trigger] s[i]).element.id <= compteur
            && s[i].element.size_bytes >= 0 && s[i].element.attempts >= 0
    &&& forall|i: int, j: int|
        0 <= i < j < s.len() ==> (#[trigger] s[i]).element.id < (#[trigger] s[j]).element.id
    &&& forall|i: int, j: int|
        0 <= i < j < s.len() ==> !meme_fichier(
            (#[trigger] s[i]).element,
            (#[trigger] s[j]).element,
        )
}

impl VideoQueue {
    pub open spec fn inv(self) -> bool {
        file_saine(self@, self.compteur as int)
    }
}

/// The rows that satisfy `p`, changed by `f`; the others as they were.
pub open spec fn modifiees(
    s: Seq<LigneVue>,
    p: spec_fn(LigneVue) -> bool,
    f: spec_fn(LigneVue) -> LigneVue,
) -> Seq<LigneVue> {
    s.map_values(
        |l: LigneVue|
            if p(l) {
                f(l)
            } else {
                l
            },
    )
}

/// A change that leaves alone what identifies a row keeps the queue sound.
proof fn lemme_modifiees_saine(
    s: Seq<LigneVue>,
    t: Seq<LigneVue>,
    compteur: int,
)
    requires
        file_saine(s, compteur),
        t.len() == s.len(),
        forall|i: int|
            0 <= i < s.len() ==> (#[trigger] t[i]).element.id == s[i].element.id && meme_fichier(
                t[i].element,
                s[i].element,
            ) && t[i].element.size_bytes >= 0 && t[i].element.attempts >= 0,
    ensures
        file_saine(t, compteur),
{
    assert forall|i: int, j: int| 0 <= i < j < t.len() implies (#[trigger] t[i]).element.id < (
    #[trigger] t[j]).element.id && !meme_fichier(t[i].element, t[j].element) by {
        assert(s[i].element.id < s[j].element.id);
        assert(!meme_fichier(s[i].element, s[j].element));
    }
}

proof fn lemme_longueur(s: Seq<LigneVue>, compteur: int, k: int)
    requires
        file_saine(s, compteur),
        0 <= k < s.len(),
    ensures
        s[k].element.id >= k + 1,
    decreases k,
{
    if k > 0 {
        lemme_longueur(s, compteur, k - 1);
        assert(s[k - 1].element.id < s[k].element.id);
    }
}

/// There are no more rows than numbers given.
proof fn lemme_taille(s: Seq<LigneVue>, compteur: int)
    requires
        file_saine(s, compteur),
    ensures
        s.len() <= compteur || s.len() == 0,
{
    if s.len() > 0 {
        lemme_longueur(s, compteur, s.len() - 1);
    }
}

proof fn lemme_vues_maj(v: Seq<LigneVideo>, i: int, l: LigneVideo)
    requires
        0 <= i < v.len(),
    ensures
        lignes_vues(v.update(i, l)) == lignes_vues(v).update(i, l@),
{
    assert(lignes_vues(v.update(i, l)) =~= lignes_vues(v).update(i, l@));
}

/// An empty queue.
pub fn init_schema() -> (r: VideoQueue)
    ensures
        r.inv(),
        r@ == Seq::<LigneVue>::empty(),
        r.compteur == 0,
        r.dernier_insere == 0,
{
    let r = VideoQueue { lignes: Vec::new(), compteur: 0, dernier_insere: 0 };
    assert(r@ =~= Seq::<LigneVue>::empty());
    r
}

/// A file already stands in the queue.
pub open spec fn deja_en_file(
    s: Seq<LigneVue>,
    session_id: Seq<char>,
    kind: QueueKind,
    file_path: Seq<char>,
) -> bool {
    exists|i: int|
        0 <= i < s.len() && (#[trigger] s[i]).element.session_id == session_id && s[i].element.kind
            == kind && s[i].element.file_path == file_path
}

/// Puts a file in the queue. A file that already stands there, for this
/// session and kind, is not added again. Gives the number of the row
/// inserted last.
pub fn enfiler(
    file: &mut VideoQueue,
    session_id: &str,
    event_id: i64,
    kind: QueueKind,
    file_path: &str,
    clip_index: Option<u32>,
    started_at: Option<&str>,
    ended_at: Option<&str>,
    instant_at: Option<&str>,
    taille: i64,
    maintenant: &str,
) -> (r: i64)
    requires
        old(file).inv(),
        0 <= old(file).compteur < i64::MAX,
        0 <= taille,
    ensures
        final(file).inv(),
        r == final(file).dernier_insere,
        deja_en_file(old(file)@, session_id@, kind, file_path@) ==> *final(file) == *old(file),
        !deja_en_file(old(file)@, session_id@, kind, file_path@) ==> {
            &&& final(file).compteur == old(file).compteur + 1
            &&& r == final(file).compteur
            &&& final(file)@ == old(file)@.push(
                LigneVue {
                    element: ElementVu {
                        id: old(file).compteur + 1,
                        session_id: session_id@,
                        kind,
                        file_path: file_path@,
                        clip_index,
                        started_at: texte::vue_ref(started_at),
                        ended_at: texte::vue_ref(ended_at),
                        instant_at: texte::vue_ref(instant_at),
                        size_bytes: taille as int,
                        attempts: 0,
                        last_error: None,
                    },
                    event_id: Some(event_id),
                    status: StatutVideo::Pending,
                    queued_at: maintenant@,
                    sent_at: None,
                },
            )
        },
{
    let mut i: usize = 0;
    while i < file.lignes.len()
        invariant
            *file == *old(file),
            file.inv(),
            i <= file.lignes@.len(),
            forall|k: int|
                0 <= k < i ==> !((#[trigger] file@[k]).element.session_id == session_id@
                    && file@[k].element.kind == kind && file@[k].element.file_path == file_path@),
        decreases file.lignes@.len() - i,
    {
        let e = &file.lignes[i].element;
        assert(file@[i as int].element == e@);
        if e.kind == kind && texte::memes(e.session_id.as_str(), session_id) && texte::memes(
            e.file_path.as_str(),
            file_path,
        ) {
            return file.dernier_insere;
        }
        i += 1;
    }
    let ghost avant = file@;
    let id: i64 = file.compteur + 1;
    let ligne = LigneVideo {
        element: QueueItem {
            id,
            session_id: session_id.to_owned(),
            kind,
            file_path: file_path.to_owned(),
            clip_index,
            started_at: texte::retenir(started_at),
            ended_at: texte::retenir(ended_at),
            instant_at: texte::retenir(instant_at),
            size_bytes: taille,
            attempts: 0,
            last_error: None,
        },
        event_id: Some(event_id),
        status: StatutVideo::Pending,
        queued_at: maintenant.to_owned(),
        sent_at: None,
    };
    let ghost vue = ligne@;
    file.lignes.push(ligne);
    file.compteur = id;
    file.dernier_insere = id;
    assert(file@ =~= avant.push(vue));
    id
}

// ─── Reading ───────────────────────────────────────────────────────────

/// A row belongs to an event. A row without an event belongs to the one that
/// is open.
pub open spec fn concerne(l: LigneVue, event_id: i64) -> bool {
    l.event_id == Some(event_id) || l.event_id is None
}

/// A row of this event and kind waits.
pub open spec fn attend(l: LigneVue, event_id: i64, kind: QueueKind) -> bool {
    l.status == StatutVideo::Pending && concerne(l, event_id) && l.element.kind == kind
}

/// The elements of a kind that wait for an event, oldest first.
pub open spec fn attente(s: Seq<LigneVue>, event_id: i64, kind: QueueKind) -> Seq<ElementVu> {
    s.filter(|l: LigneVue| attend(l, event_id, kind)).map_values(|l: LigneVue| l.element)
}

/// All that may be sent for an event, in order: frames, light clips, and
/// full-quality clips if they are allowed; the oldest first in each kind.
pub open spec fn ordre(s: Seq<LigneVue>, event_id: i64, inclure_hd: bool) -> Seq<ElementVu> {
    attente(s, event_id, QueueKind::Frames) + attente(s, event_id, QueueKind::ClipProxy) + (
    if inclure_hd {
        attente(s, event_id, QueueKind::ClipHd)
    } else {
        Seq::empty()
    })
}

/// The first `n` elements, or all when there are fewer.
pub open spec fn premiers<T>(s: Seq<T>, n: nat) -> Seq<T> {
    if s.len() <= n {
        s
    } else {
        s.take(n as int)
    }
}

proof fn lemme_attente_pas(s: Seq<LigneVue>, i: int, event_id: i64, kind: QueueKind)
    requires
        0 <= i < s.len(),
    ensures
        attente(s.take(i + 1), event_id, kind) == if attend(s[i], event_id, kind) {
            attente(s.take(i), event_id, kind).push(s[i].element)
        } else {
            attente(s.take(i), event_id, kind)
        },
{
    let p = |l: LigneVue| attend(l, event_id, kind);
    assert(s.take(i + 1) =~= s.take(i).push(s[i]));
    s.take(i).lemma_filter_push(s[i], p);
    assert(attente(s.take(i + 1), event_id, kind) =~= if attend(s[i], event_id, kind) {
        attente(s.take(i), event_id, kind).push(s[i].element)
    } else {
        attente(s.take(i), event_id, kind)
    });
}

/// Adds to `v` the elements of a kind that wait, until it holds `limite`.
fn completer(file: &VideoQueue, event_id: i64, kind: QueueKind, limite: usize, v: &mut Vec<QueueItem>)
    requires
        old(v)@.len() <= limite,
    ensures
        elements(final(v)@) == premiers(
            elements(old(v)@) + attente(file@, event_id, kind),
            limite as nat,
        ),
        final(v)@.len() <= limite,
{
    let ghost avant = elements(v@);
    let ghost s = file@;
    let mut i: usize = 0;
    proof {
        assert(attente(s.take(0), event_id, kind) =~= Seq::<ElementVu>::empty()) by {
            assert(s.take(0) =~= Seq::<LigneVue>::empty());
            reveal(Seq::filter);
        }
        assert(avant + attente(s.take(0), event_id, kind) =~= avant);
    }
    while i < file.lignes.len()
        invariant
            s == file@,
            i <= file.lignes@.len(),
            v@.len() <= limite,
            elements(v@) == premiers(
                avant + attente(s.take(i as int), event_id, kind),
                limite as nat,
            ),
        decreases file.lignes@.len() - i,
    {
        let l = &file.lignes[i];
        assert(s[i as int] == l@);
        proof {
            lemme_attente_pas(s, i as int, event_id, kind);
        }
        let ghost deja = avant + attente(s.take(i as int), event_id, kind);
        let de_l_evenement: bool = match l.event_id {
            Some(e) => e == event_id,
            None => true,
        };
        if l.status == StatutVideo::Pending && de_l_evenement && l.element.kind == kind {
            assert(avant + attente(s.take(i + 1), event_id, kind) =~= deja.push(l.element@));
            if v.len() < limite {
                let copie = l.element.copie();
                let ghost ici = v@;
                v.push(copie);
                assert(elements(v@) =~= elements(ici).push(l.element@));
            } else {
                assert(elements(v@).len() == limite);
                assert(premiers(deja.push(l.element@), limite as nat) =~= premiers(
                    deja,
                    limite as nat,
                ));
            }
        }
        i += 1;
    }
    assert(s.take(s.len() as int) =~= s);
}

/// The next elements to send, in order of priority.
///
/// With `inclure_hd` off, full-quality clips stay in the queue and are not
/// proposed.
pub fn prochains(file: &VideoQueue, event_id: i64, inclure_hd: bool, limite: usize) -> (r: Vec<
    QueueItem,
>)
    ensures
        elements(r@) == premiers(ordre(file@, event_id, inclure_hd), limite as nat),
{
    let mut v: Vec<QueueItem> = Vec::new();
    let ghost images = attente(file@, event_id, QueueKind::Frames);
    let ghost legers = attente(file@, event_id, QueueKind::ClipProxy);
    assert(elements(v@) + images =~= images);
    completer(file, event_id, QueueKind::Frames, limite, &mut v);
    completer(file, event_id, QueueKind::ClipProxy, limite, &mut v);
    assert(elements(v@) =~= premiers(images + legers, limite as nat));
    if inclure_hd {
        let ghost hd = attente(file@, event_id, QueueKind::ClipHd);
        completer(file, event_id, QueueKind::ClipHd, limite, &mut v);
        assert(elements(v@) =~= premiers(images + legers + hd, limite as nat));
    } else {
        assert(images + legers + Seq::<ElementVu>::empty() =~= images + legers);
    }
    v
}

// ─── Counting ──────────────────────────────────────────────────────────

/// The bytes of these rows.
pub open spec fn octets(s: Seq<LigneVue>) -> int
    decreases s.len(),
{
    if s.len() == 0 {
        0
    } else {
        octets(s.drop_last()) + s.last().element.size_bytes
    }
}

/// The rows of an event; those of some sessions only, when any is named.
pub open spec fn retenue(l: LigneVue, event_id: i64, sessions: Seq<Seq<char>>) -> bool {
    concerne(l, event_id) && (sessions.len() == 0 || sessions.contains(l.element.session_id))
}

/// The rows retained, with this status and this kind.
pub open spec fn compte(
    s: Seq<LigneVue>,
    event_id: i64,
    sessions: Seq<Seq<char>>,
    status: StatutVideo,
    kind: QueueKind,
) -> Seq<LigneVue> {
    s.filter(
        |l: LigneVue|
            retenue(l, event_id, sessions) && l.status == status && l.element.kind == kind,
    )
}

/// The rows retained with this status, of any kind.
pub open spec fn compte_tout(
    s: Seq<LigneVue>,
    event_id: i64,
    sessions: Seq<Seq<char>>,
    status: StatutVideo,
) -> Seq<LigneVue> {
    s.filter(|l: LigneVue| retenue(l, event_id, sessions) && l.status == status)
}

/// The figures of a queue.
pub open spec fn figures(s: Seq<LigneVue>, event_id: i64, sessions: Seq<Seq<char>>, q: QueueStats) -> bool {
    let p = StatutVideo::Pending;
    let e = StatutVideo::Sent;
    &&& q.frames_pending == compte(s, event_id, sessions, p, QueueKind::Frames).len()
    &&& q.proxy_pending == compte(s, event_id, sessions, p, QueueKind::ClipProxy).len()
    &&& q.hd_pending == compte(s, event_id, sessions, p, QueueKind::ClipHd).len()
    &&& q.total_bytes == octets(compte_tout(s, event_id, sessions, p))
    &&& q.failed == compte_tout(s, event_id, sessions, StatutVideo::Failed).len()
    &&& q.frames_sent == compte(s, event_id, sessions, e, QueueKind::Frames).len()
    &&& q.proxy_sent == compte(s, event_id, sessions, e, QueueKind::ClipProxy).len()
    &&& q.hd_sent == compte(s, event_id, sessions, e, QueueKind::ClipHd).len()
    &&& q.hd_bytes == octets(compte(s, event_id, sessions, p, QueueKind::ClipHd))
}

proof fn lemme_filtre_pas(s: Seq<LigneVue>, i: int, p: spec_fn(LigneVue) -> bool)
    requires
        0 <= i < s.len(),
    ensures
        s.take(i + 1).filter(p) == if p(s[i]) {
            s.take(i).filter(p).push(s[i])
        } else {
            s.take(i).filter(p)
        },
        octets(s.take(i + 1).filter(p)) == octets(s.take(i).filter(p)) + if p(s[i]) {
            s[i].element.size_bytes
        } else {
            0
        },
        s.take(i + 1).filter(p).len() == s.take(i).filter(p).len() + if p(s[i]) {
            1int
        } else {
            0int
        },
{
    assert(s.take(i + 1) =~= s.take(i).push(s[i]));
    s.take(i).lemma_filter_push(s[i], p);
    if p(s[i]) {
        assert(s.take(i).filter(p).push(s[i]).drop_last() =~= s.take(i).filter(p));
    }
}

/// The first rows retained weigh no more than all those retained.
proof fn lemme_octets_bornes(s: Seq<LigneVue>, k: int, p: spec_fn(LigneVue) -> bool)
    requires
        0 <= k <= s.len(),
        forall|i: int| 0 <= i < s.len() ==> (#[trigger] s[i]).element.size_bytes >= 0,
    ensures
        octets(s.take(k).filter(p)) <= octets(s.filter(p)),
    decreases s.len() - k,
{
    if k < s.len() {
        lemme_octets_bornes(s, k + 1, p);
        lemme_filtre_pas(s, k, p);
    } else {
        assert(s.take(k) =~= s);
    }
}

/// Fewer rows weigh no more.
proof fn lemme_octets_partie(
    s: Seq<LigneVue>,
    k: int,
    p: spec_fn(LigneVue) -> bool,
    q: spec_fn(LigneVue) -> bool,
)
    requires
        0 <= k <= s.len(),
        forall|i: int| 0 <= i < s.len() ==> (#[trigger] s[i]).element.size_bytes >= 0,
        forall|l: LigneVue| #[trigger] p(l) ==> q(l),
    ensures
        0 <= octets(s.take(k).filter(p)) <= octets(s.take(k).filter(q)),
    decreases k,
{
    reveal(Seq::filter);
    if k > 0 {
        lemme_octets_partie(s, k - 1, p, q);
        lemme_filtre_pas(s, k - 1, p);
        lemme_filtre_pas(s, k - 1, q);
        assert(s[k - 1].element.size_bytes >= 0);
    } else {
        assert(s.take(0).filter(p) =~= Seq::<LigneVue>::empty());
        assert(s.take(0).filter(q) =~= Seq::<LigneVue>::empty());
    }
}

/// The row is retained, with this status and this kind, or of any kind.
pub open spec fn comptee(
    l: LigneVue,
    event_id: i64,
    sessions: Seq<Seq<char>>,
    status: StatutVideo,
    kind: Option<QueueKind>,
) -> bool {
    &&& retenue(l, event_id, sessions)
    &&& l.status == status
    &&& kind matches Some(k) ==> l.element.kind == k
}

/// Such rows.
pub open spec fn comptees(
    s: Seq<LigneVue>,
    event_id: i64,
    sessions: Seq<Seq<char>>,
    status: StatutVideo,
    kind: Option<QueueKind>,
) -> Seq<LigneVue> {
    match kind {
        Some(k) => compte(s, event_id, sessions, status, k),
        None => compte_tout(s, event_id, sessions, status),
    }
}

proof fn lemme_comptees(
    s: Seq<LigneVue>,
    event_id: i64,
    sessions: Seq<Seq<char>>,
    status: StatutVideo,
    kind: Option<QueueKind>,
    p: spec_fn(LigneVue) -> bool,
)
    requires
        forall|l: LigneVue| #[trigger] p(l) == comptee(l, event_id, sessions, status, kind),
    ensures
        s.filter(p) == comptees(s, event_id, sessions, status, kind),
{
    match kind {
        Some(k) => {
            let q = |l: LigneVue|
                retenue(l, event_id, sessions) && l.status == status && l.element.kind == k;
            assert(p =~= q);
        },
        None => {
            let q = |l: LigneVue| retenue(l, event_id, sessions) && l.status == status;
            assert(p =~= q);
        },
    }
}

fn est_comptee(
    l: &LigneVideo,
    event_id: i64,
    sessions: &Vec<String>,
    status: StatutVideo,
    kind: Option<QueueKind>,
) -> (r: bool)
    ensures
        r == comptee(l@, event_id, texte::vues(sessions@), status, kind),
{
    let de_l_evenement: bool = match l.event_id {
        Some(e) => e == event_id,
        None => true,
    };
    let de_nature: bool = match kind {
        Some(k) => l.element.kind == k,
        None => true,
    };
    let de_session: bool = sessions.len() == 0 || texte::figure(
        sessions,
        l.element.session_id.as_str(),
    );
    de_l_evenement && de_session && l.status == status && de_nature
}

/// How many rows have a status and a kind.
fn compter(
    file: &VideoQueue,
    event_id: i64,
    sessions: &Vec<String>,
    status: StatutVideo,
    kind: Option<QueueKind>,
) -> (r: i64)
    requires
        file.inv(),
    ensures
        r == comptees(file@, event_id, texte::vues(sessions@), status, kind).len(),
{
    let ghost s = file@;
    let ghost noms = texte::vues(sessions@);
    let ghost p: spec_fn(LigneVue) -> bool = |l: LigneVue|
        comptee(l, event_id, noms, status, kind);
    let mut nombre: i64 = 0;
    let mut i: usize = 0;
    proof {
        assert(s.take(0) =~= Seq::<LigneVue>::empty());
        reveal(Seq::filter);
        assert(s.take(0).filter(p) =~= Seq::<LigneVue>::empty());
        lemme_taille(s, file.compteur as int);
    }
    while i < file.lignes.len()
        invariant
            s == file@,
            noms == texte::vues(sessions@),
            i <= file.lignes@.len(),
            s.len() <= i64::MAX,
            forall|l: LigneVue| #[trigger] p(l) == comptee(l, event_id, noms, status, kind),
            nombre == s.take(i as int).filter(p).len(),
            nombre <= i,
        decreases file.lignes@.len() - i,
    {
        assert(s[i as int] == file.lignes@[i as int]@);
        proof {
            lemme_filtre_pas(s, i as int, p);
        }
        if est_comptee(&file.lignes[i], event_id, sessions, status, kind) {
            assert(p(s[i as int]));
            nombre += 1;
        } else {
            assert(!p(s[i as int]));
        }
        i += 1;
    }
    assert(s.take(s.len() as int) =~= s);
    proof {
        lemme_comptees(s, event_id, noms, status, kind, p);
    }
    nombre
}

/// The bytes of the rows that have a status and a kind.
fn peser(
    file: &VideoQueue,
    event_id: i64,
    sessions: &Vec<String>,
    status: StatutVideo,
    kind: Option<QueueKind>,
) -> (r: i64)
    requires
        file.inv(),
        octets(comptees(file@, event_id, texte::vues(sessions@), status, kind)) <= i64::MAX,
    ensures
        r == octets(comptees(file@, event_id, texte::vues(sessions@), status, kind)),
{
    let ghost s = file@;
    let ghost noms = texte::vues(sessions@);
    let ghost p: spec_fn(LigneVue) -> bool = |l: LigneVue|
        comptee(l, event_id, noms, status, kind);
    let mut total: i64 = 0;
    let mut i: usize = 0;
    proof {
        assert(s.take(0) =~= Seq::<LigneVue>::empty());
        reveal(Seq::filter);
        assert(s.take(0).filter(p) =~= Seq::<LigneVue>::empty());
        lemme_comptees(s, event_id, noms, status, kind, p);
    }
    while i < file.lignes.len()
        invariant
            s == file@,
            noms == texte::vues(sessions@),
            file.inv(),
            octets(s.filter(p)) <= i64::MAX,
            i <= file.lignes@.len(),
            forall|l: LigneVue| #[trigger] p(l) == comptee(l, event_id, noms, status, kind),
            0 <= total == octets(s.take(i as int).filter(p)),
        decreases file.lignes@.len() - i,
    {
        assert(s[i as int] == file.lignes@[i as int]@);
        proof {
            lemme_filtre_pas(s, i as int, p);
            lemme_octets_bornes(s, i + 1, p);
        }
        if est_comptee(&file.lignes[i], event_id, sessions, status, kind) {
            assert(p(s[i as int]));
            total += file.lignes[i].element.size_bytes;
        } else {
            assert(!p(s[i as int]));
        }
        i += 1;
    }
    assert(s.take(s.len() as int) =~= s);
    total
}

/// What waits, what was sent and what failed for an event, for the sessions
/// named only, or for all when none is.
pub fn statistiques_filtrees(file: &VideoQueue, event_id: i64, sessions: &Vec<String>) -> (r:
    QueueStats)
    requires
        file.inv(),
        octets(compte_tout(file@, event_id, texte::vues(sessions@), StatutVideo::Pending))
            <= i64::MAX,
    ensures
        figures(file@, event_id, texte::vues(sessions@), r),
{
    let en_attente = StatutVideo::Pending;
    let envoye = StatutVideo::Sent;
    let hd = Some(QueueKind::ClipHd);
    proof {
        let noms = texte::vues(sessions@);
        let p = |l: LigneVue|
            retenue(l, event_id, noms) && l.status == StatutVideo::Pending && l.element.kind
                == QueueKind::ClipHd;
        let q = |l: LigneVue| retenue(l, event_id, noms) && l.status == StatutVideo::Pending;
        lemme_octets_partie(file@, file@.len() as int, p, q);
        assert(file@.take(file@.len() as int) =~= file@);
    }
    QueueStats {
        frames_pending: compter(file, event_id, sessions, en_attente, Some(QueueKind::Frames)),
        proxy_pending: compter(file, event_id, sessions, en_attente, Some(QueueKind::ClipProxy)),
        hd_pending: compter(file, event_id, sessions, en_attente, hd),
        total_bytes: peser(file, event_id, sessions, en_attente, None),
        failed: compter(file, event_id, sessions, StatutVideo::Failed, None),
        frames_sent: compter(file, event_id, sessions, envoye, Some(QueueKind::Frames)),
        proxy_sent: compter(file, event_id, sessions, envoye, Some(QueueKind::ClipProxy)),
        hd_sent: compter(file, event_id, sessions, envoye, hd),
        hd_bytes: peser(file, event_id, sessions, en_attente, hd),
    }
}

/// What waits, what was sent and what failed for an event.
pub fn statistiques(file: &VideoQueue, event_id: i64) -> (r: QueueStats)
    requires
        file.inv(),
        octets(compte_tout(file@, event_id, Seq::<Seq<char>>::empty(), StatutVideo::Pending))
            <= i64::MAX,
    ensures
        figures(file@, event_id, Seq::<Seq<char>>::empty(), r),
{
    let toutes: Vec<String> = Vec::new();
    assert(texte::vues(toutes@) =~= Seq::<Seq<char>>::empty());
    statistiques_filtrees(file, event_id, &toutes)
}

// ─── Changing statuses ─────────────────────────────────────────────────

/// The row numbered `id`, waiting.
pub open spec fn reservable(l: LigneVue, id: int) -> bool {
    l.element.id == id && l.status == StatutVideo::Pending
}

/// The row with another status.
pub open spec fn avec_statut(l: LigneVue, status: StatutVideo) -> LigneVue {
    LigneVue { status, ..l }
}

/// Reserves an element before sending it: true when it was waiting, and only
/// then.
///
/// An element that another upload holds is never taken again.
pub fn reserver(file: &mut VideoQueue, id: i64) -> (r: bool)
    requires
        old(file).inv(),
    ensures
        final(file).inv(),
        r == exists|i: int| 0 <= i < old(file)@.len() && reservable(#[trigger] old(file)@[i], id as int),
        final(file)@ == modifiees(
            old(file)@,
            |l: LigneVue| reservable(l, id as int),
            |l: LigneVue| avec_statut(l, StatutVideo::Sending),
        ),
        final(file).compteur == old(file).compteur,
        final(file).dernier_insere == old(file).dernier_insere,
{
    changer_statut(file, id, StatutVideo::Pending, StatutVideo::Sending)
}

/// Puts a reserved element back in the queue, to be tried again.
pub fn liberer(file: &mut VideoQueue, id: i64)
    requires
        old(file).inv(),
    ensures
        final(file).inv(),
        final(file)@ == modifiees(
            old(file)@,
            |l: LigneVue| l.element.id == id && l.status == StatutVideo::Sending,
            |l: LigneVue| avec_statut(l, StatutVideo::Pending),
        ),
        final(file).compteur == old(file).compteur,
        final(file).dernier_insere == old(file).dernier_insere,
{
    let _ = changer_statut(file, id, StatutVideo::Sending, StatutVideo::Pending);
}

/// Moves the row numbered `id` from a status to another; true if it had the
/// first.
fn changer_statut(file: &mut VideoQueue, id: i64, de: StatutVideo, vers: StatutVideo) -> (r: bool)
    requires
        old(file).inv(),
    ensures
        final(file).inv(),
        r == exists|i: int|
            0 <= i < old(file)@.len() && (#[trigger] old(file)@[i]).element.id == id
                && old(file)@[i].status == de,
        final(file)@ == modifiees(
            old(file)@,
            |l: LigneVue| l.element.id == id && l.status == de,
            |l: LigneVue| avec_statut(l, vers),
        ),
        final(file).compteur == old(file).compteur,
        final(file).dernier_insere == old(file).dernier_insere,
{
    let ghost avant = file@;
    let mut trouve = false;
    let mut i: usize = 0;
    while i < file.lignes.len()
        invariant
            file.compteur == old(file).compteur,
            file.dernier_insere == old(file).dernier_insere,
            avant == old(file)@,
            i <= file.lignes@.len() == avant.len(),
            trouve == exists|k: int|
                0 <= k < i && (#[trigger] avant[k]).element.id == id && avant[k].status == de,
            forall|k: int|
                0 <= k < i ==> #[trigger] file@[k] == if avant[k].element.id == id
                    && avant[k].status == de {
                    avec_statut(avant[k], vers)
                } else {
                    avant[k]
                },
            forall|k: int| i <= k < avant.len() ==> #[trigger] file@[k] == avant[k],
        decreases file.lignes@.len() - i,
    {
        let ghost ici = file.lignes@;
        assert(file@[i as int] == avant[i as int]);
        if file.lignes[i].element.id == id && file.lignes[i].status == de {
            file.lignes[i].status = vers;
            trouve = true;
            proof {
                lemme_vues_maj(ici, i as int, file.lignes@[i as int]);
                assert(file.lignes@ =~= ici.update(i as int, file.lignes@[i as int]));
            }
        }
        i += 1;
    }
    proof {
        assert(file@ =~= modifiees(
            avant,
            |l: LigneVue| l.element.id == id && l.status == de,
            |l: LigneVue| avec_statut(l, vers),
        ));
        lemme_modifiees_saine(avant, file@, file.compteur as int);
    }
    trouve
}

/// Puts back in the queue all that was left reserved, when the agent starts.
/// Gives how many there were.
pub fn liberer_orphelins(file: &mut VideoQueue) -> (r: usize)
    requires
        old(file).inv(),
    ensures
        final(file).inv(),
        r == old(file)@.filter(|l: LigneVue| l.status == StatutVideo::Sending).len(),
        final(file)@ == modifiees(
            old(file)@,
            |l: LigneVue| l.status == StatutVideo::Sending,
            |l: LigneVue| avec_statut(l, StatutVideo::Pending),
        ),
        final(file).compteur == old(file).compteur,
        final(file).dernier_insere == old(file).dernier_insere,
{
    let ghost avant = file@;
    let ghost p = |l: LigneVue| l.status == StatutVideo::Sending;
    let mut n: usize = 0;
    let mut i: usize = 0;
    proof {
        assert(avant.take(0) =~= Seq::<LigneVue>::empty());
        reveal(Seq::filter);
    }
    while i < file.lignes.len()
        invariant
            file.compteur == old(file).compteur,
            file.dernier_insere == old(file).dernier_insere,
            i <= file.lignes@.len() == avant.len(),
            forall|l: LigneVue| #[trigger] p(l) == (l.status == StatutVideo::Sending),
            n == avant.take(i as int).filter(p).len(),
            n <= i,
            forall|k: int|
                0 <= k < i ==> #[trigger] file@[k] == if p(avant[k]) {
                    avec_statut(avant[k], StatutVideo::Pending)
                } else {
                    avant[k]
                },
            forall|k: int| i <= k < avant.len() ==> #[trigger] file@[k] == avant[k],
        decreases file.lignes@.len() - i,
    {
        let ghost ici = file.lignes@;
        assert(file@[i as int] == avant[i as int]);
        proof {
            lemme_filtre_pas(avant, i as int, p);
        }
        if file.lignes[i].status == StatutVideo::Sending {
            assert(p(avant[i as int]));
            file.lignes[i].status = StatutVideo::Pending;
            n += 1;
            proof {
                lemme_vues_maj(ici, i as int, file.lignes@[i as int]);
                assert(file.lignes@ =~= ici.update(i as int, file.lignes@[i as int]));
            }
        }
        i += 1;
    }
    proof {
        assert(avant.take(avant.len() as int) =~= avant);
        assert(file@ =~= modifiees(
            avant,
            p,
            |l: LigneVue| avec_statut(l, StatutVideo::Pending),
        ));
        lemme_modifiees_saine(avant, file@, file.compteur as int);
    }
    n
}

/// The row once the server has it.
pub open spec fn envoyee(l: LigneVue, maintenant: Seq<char>) -> LigneVue {
    LigneVue {
        status: StatutVideo::Sent,
        sent_at: Some(maintenant),
        element: ElementVu { last_error: None, ..l.element },
        ..l
    }
}

/// Marks an element as sent.
pub fn marquer_envoye(file: &mut VideoQueue, id: i64, maintenant: &str)
    requires
        old(file).inv(),
    ensures
        final(file).inv(),
        final(file)@ == modifiees(
            old(file)@,
            |l: LigneVue| l.element.id == id,
            |l: LigneVue| envoyee(l, maintenant@),
        ),
        final(file).compteur == old(file).compteur,
        final(file).dernier_insere == old(file).dernier_insere,
{
    let ghost avant = file@;
    let mut i: usize = 0;
    while i < file.lignes.len()
        invariant
            file.compteur == old(file).compteur,
            file.dernier_insere == old(file).dernier_insere,
            i <= file.lignes@.len() == avant.len(),
            forall|k: int|
                0 <= k < i ==> #[trigger] file@[k] == if avant[k].element.id == id {
                    envoyee(avant[k], maintenant@)
                } else {
                    avant[k]
                },
            forall|k: int| i <= k < avant.len() ==> #[trigger] file@[k] == avant[k],
        decreases file.lignes@.len() - i,
    {
        let ghost ici = file.lignes@;
        assert(file@[i as int] == avant[i as int]);
        if file.lignes[i].element.id == id {
            file.lignes[i].status = StatutVideo::Sent;
            file.lignes[i].sent_at = Some(maintenant.to_owned());
            file.lignes[i].element.last_error = None;
            proof {
                lemme_vues_maj(ici, i as int, file.lignes@[i as int]);
                assert(file.lignes@ =~= ici.update(i as int, file.lignes@[i as int]));
                assert(file.lignes@[i as int]@ =~= envoyee(avant[i as int], maintenant@));
            }
        }
        i += 1;
    }
    proof {
        assert(file@ =~= modifiees(
            avant,
            |l: LigneVue| l.element.id == id,
            |l: LigneVue| envoyee(l, maintenant@),
        ));
        lemme_modifiees_saine(avant, file@, file.compteur as int);
    }
}

/// The row after one more failure: tried again, or given up at the third.
pub open spec fn echouee(l: LigneVue, erreur: Seq<char>) -> LigneVue {
    LigneVue {
        element: ElementVu {
            attempts: l.element.attempts + 1,
            last_error: Some(erreur),
            ..l.element
        },
        status: if l.element.attempts + 1 >= ECHECS_ADMIS {
            StatutVideo::Failed
        } else {
            StatutVideo::Pending
        },
        ..l
    }
}

/// Records a failure; true when the element is given up.
pub fn marquer_echec(file: &mut VideoQueue, id: i64, erreur: &str) -> (r: bool)
    requires
        old(file).inv(),
        forall|i: int|
            0 <= i < old(file)@.len() && (#[trigger] old(file)@[i]).element.id == id ==> old(
                file,
            )@[i].element.attempts < i64::MAX,
    ensures
        final(file).inv(),
        final(file)@ == modifiees(
            old(file)@,
            |l: LigneVue| l.element.id == id,
            |l: LigneVue| echouee(l, erreur@),
        ),
        r == exists|i: int|
            0 <= i < old(file)@.len() && (#[trigger] old(file)@[i]).element.id == id && old(
                file,
            )@[i].element.attempts + 1 >= ECHECS_ADMIS,
        final(file).compteur == old(file).compteur,
        final(file).dernier_insere == old(file).dernier_insere,
{
    let ghost avant = file@;
    let mut abandonne = false;
    let mut i: usize = 0;
    while i < file.lignes.len()
        invariant
            file.compteur == old(file).compteur,
            file.dernier_insere == old(file).dernier_insere,
            i <= file.lignes@.len() == avant.len(),
            file_saine(avant, old(file).compteur as int),
            forall|k: int|
                0 <= k < avant.len() && (#[trigger] avant[k]).element.id == id
                    ==> avant[k].element.attempts < i64::MAX,
            abandonne == exists|k: int|
                0 <= k < i && (#[trigger] avant[k]).element.id == id && avant[k].element.attempts
                    + 1 >= ECHECS_ADMIS,
            forall|k: int|
                0 <= k < i ==> #[trigger] file@[k] == if avant[k].element.id == id {
                    echouee(avant[k], erreur@)
                } else {
                    avant[k]
                },
            forall|k: int| i <= k < avant.len() ==> #[trigger] file@[k] == avant[k],
        decreases file.lignes@.len() - i,
    {
        let ghost ici = file.lignes@;
        assert(file@[i as int] == avant[i as int]);
        if file.lignes[i].element.id == id {
            let tentatives: i64 = file.lignes[i].element.attempts + 1;
            file.lignes[i].element.attempts = tentatives;
            file.lignes[i].element.last_error = Some(erreur.to_owned());
            if tentatives >= ECHECS_ADMIS {
                file.lignes[i].status = StatutVideo::Failed;
                abandonne = true;
            } else {
                file.lignes[i].status = StatutVideo::Pending;
            }
            proof {
                lemme_vues_maj(ici, i as int, file.lignes@[i as int]);
                assert(file.lignes@ =~= ici.update(i as int, file.lignes@[i as int]));
                assert(file.lignes@[i as int]@ =~= echouee(avant[i as int], erreur@));
            }
        }
        i += 1;
    }
    proof {
        assert(file@ =~= modifiees(
            avant,
            |l: LigneVue| l.element.id == id,
            |l: LigneVue| echouee(l, erreur@),
        ));
        lemme_modifiees_saine(avant, file@, file.compteur as int);
    }
    abandonne
}

/// The row put back in the queue as if it had never been tried.
pub open spec fn relancee(l: LigneVue) -> LigneVue {
    LigneVue {
        status: StatutVideo::Pending,
        element: ElementVu { attempts: 0, last_error: None, ..l.element },
        ..l
    }
}

/// Puts back in the queue all that was given up. Gives how many there were.
pub fn relancer_echecs(file: &mut VideoQueue) -> (r: usize)
    requires
        old(file).inv(),
    ensures
        final(file).inv(),
        r == old(file)@.filter(|l: LigneVue| l.status == StatutVideo::Failed).len(),
        final(file)@ == modifiees(
            old(file)@,
            |l: LigneVue| l.status == StatutVideo::Failed,
            |l: LigneVue| relancee(l),
        ),
        final(file).compteur == old(file).compteur,
        final(file).dernier_insere == old(file).dernier_insere,
{
    let ghost avant = file@;
    let ghost p = |l: LigneVue| l.status == StatutVideo::Failed;
    let mut n: usize = 0;
    let mut i: usize = 0;
    proof {
        assert(avant.take(0) =~= Seq::<LigneVue>::empty());
        reveal(Seq::filter);
    }
    while i < file.lignes.len()
        invariant
            file.compteur == old(file).compteur,
            file.dernier_insere == old(file).dernier_insere,
            i <= file.lignes@.len() == avant.len(),
            forall|l: LigneVue| #[trigger] p(l) == (l.status == StatutVideo::Failed),
            n == avant.take(i as int).filter(p).len(),
            n <= i,
            forall|k: int|
                0 <= k < i ==> #[trigger] file@[k] == if p(avant[k]) {
                    relancee(avant[k])
                } else {
                    avant[k]
                },
            forall|k: int| i <= k < avant.len() ==> #[trigger] file@[k] == avant[k],
        decreases file.lignes@.len() - i,
    {
        let ghost ici = file.lignes@;
        assert(file@[i as int] == avant[i as int]);
        proof {
            lemme_filtre_pas(avant, i as int, p);
        }
        if file.lignes[i].status == StatutVideo::Failed {
            assert(p(avant[i as int]));
            file.lignes[i].status = StatutVideo::Pending;
            file.lignes[i].element.attempts = 0;
            file.lignes[i].element.last_error = None;
            n += 1;
            proof {
                lemme_vues_maj(ici, i as int, file.lignes@[i as int]);
                assert(file.lignes@ =~= ici.update(i as int, file.lignes@[i as int]));
                assert(file.lignes@[i as int]@ =~= relancee(avant[i as int]));
            }
        }
        i += 1;
    }
    proof {
        assert(avant.take(avant.len() as int) =~= avant);
        assert(file@ =~= modifiees(avant, p, |l: LigneVue| relancee(l)));
        lemme_modifiees_saine(avant, file@, file.compteur as int);
    }
    n
}

/// A row that a purge removes.
pub open spec fn purgeable(l: LigneVue, session_id: Seq<char>) -> bool {
    l.element.session_id == session_id && l.status == StatutVideo::Sent
}

proof fn lemme_filtre_sain(s: Seq<LigneVue>, compteur: int, p: spec_fn(LigneVue) -> bool)
    requires
        file_saine(s, compteur),
    ensures
        file_saine(s.filter(p), compteur),
        forall|i: int| 0 <= i < s.filter(p).len() ==> s.contains(#[trigger] s.filter(p)[i]),
    decreases s.len(),
{
    reveal(Seq::filter);
    if s.len() > 0 {
        let d = s.drop_last();
        assert(file_saine(d, compteur)) by {
            assert forall|i: int, j: int| 0 <= i < j < d.len() implies (#[trigger] d[i]).element.id
                < (#[trigger] d[j]).element.id && !meme_fichier(d[i].element, d[j].element) by {
                assert(s[i].element.id < s[j].element.id);
                assert(!meme_fichier(s[i].element, s[j].element));
            }
        }
        lemme_filtre_sain(d, compteur, p);
        let f = d.filter(p);
        assert forall|i: int| 0 <= i < f.len() implies s.contains(#[trigger] f[i]) && f[i].element.id
            < s.last().element.id && !meme_fichier(f[i].element, s.last().element) by {
            let k = d.index_of(f[i]);
            assert(d[k] == f[i]);
            assert(s[k] == f[i]);
            assert(s[k].element.id < s[s.len() - 1].element.id);
            assert(!meme_fichier(s[k].element, s[s.len() - 1].element));
        }
        assert(s.contains(s.last())) by {
            assert(s[s.len() - 1] == s.last());
        }
    }
}

/// Removes from the queue what a session has sent. Files stay on the disk.
/// Gives how many rows were removed.
pub fn purger_envoyes(file: &mut VideoQueue, session_id: &str) -> (r: usize)
    requires
        old(file).inv(),
    ensures
        final(file).inv(),
        r == old(file)@.filter(|l: LigneVue| purgeable(l, session_id@)).len(),
        final(file)@ == old(file)@.filter(|l: LigneVue| !purgeable(l, session_id@)),
        final(file).compteur == old(file).compteur,
        final(file).dernier_insere == old(file).dernier_insere,
{
    let ghost avant = file@;
    let ghost p = |l: LigneVue| purgeable(l, session_id@);
    let ghost q = |l: LigneVue| !purgeable(l, session_id@);
    assert(avant.len() == file.lignes.len());
    let mut n: usize = 0;
    let mut i: usize = 0;
    let ghost mut vus: int = 0;
    proof {
        assert(avant.take(0) =~= Seq::<LigneVue>::empty());
        reveal(Seq::filter);
        assert(avant.take(0).filter(q) + avant.skip(0) =~= avant);
    }
    while i < file.lignes.len()
        invariant
            file.compteur == old(file).compteur,
            file.dernier_insere == old(file).dernier_insere,
            0 <= vus <= avant.len() <= usize::MAX,
            i <= file.lignes@.len(),
            n + i == vus,
            file.lignes@.len() - i == avant.len() - vus,
            forall|l: LigneVue| #[trigger] p(l) == purgeable(l, session_id@),
            forall|l: LigneVue| #[trigger] q(l) == !purgeable(l, session_id@),
            n == avant.take(vus).filter(p).len(),
            i == avant.take(vus).filter(q).len(),
            file@ == avant.take(vus).filter(q) + avant.skip(vus),
        decreases file.lignes@.len() - i,
    {
        let ghost ici = file.lignes@;
        assert(file@[i as int] == avant[vus]);
        proof {
            lemme_filtre_pas(avant, vus, p);
            lemme_filtre_pas(avant, vus, q);
        }
        let l = &file.lignes[i];
        let envoye: bool = l.status == StatutVideo::Sent && texte::memes(
            l.element.session_id.as_str(),
            session_id,
        );
        if envoye {
            assert(p(avant[vus]) && !q(avant[vus]));
            let _ = file.lignes.remove(i);
            n += 1;
            proof {
                assert(file@ =~= lignes_vues(ici).remove(i as int));
                assert(file@ =~= avant.take(vus + 1).filter(q) + avant.skip(vus + 1));
            }
        } else {
            assert(!p(avant[vus]) && q(avant[vus]));
            proof {
                assert(file@ =~= avant.take(vus + 1).filter(q) + avant.skip(vus + 1));
            }
            i += 1;
        }
        proof {
            vus = vus + 1;
        }
    }
    proof {
        assert(vus == avant.len());
        assert(avant.take(vus) =~= avant);
        assert(avant.take(vus).filter(q) + avant.skip(vus) =~= avant.filter(q));
        lemme_filtre_sain(avant, file.compteur as int, q);
    }
    n
}

// ─── Reconciliation ────────────────────────────────────────────────────

/// The server holds this variant of this clip. Each report gives a clip's
/// number, whether the light version is there, and the full one.
pub open spec fn detenu(deja_recus: Seq<(u32, bool, bool)>, kind: QueueKind, clip_index: u32) -> bool {
    exists|i: int|
        0 <= i < deja_recus.len() && (#[trigger] deja_recus[i]).0 == clip_index && ((kind
            == QueueKind::ClipProxy && deja_recus[i].1) || (kind == QueueKind::ClipHd
            && deja_recus[i].2))
}

/// A clip of this session that the server holds, waiting or given up here.
/// One being sent is left to the upload that holds it.
pub open spec fn ecartee(
    l: LigneVue,
    session_id: Seq<char>,
    deja_recus: Seq<(u32, bool, bool)>,
) -> bool {
    &&& l.element.session_id == session_id
    &&& l.status == StatutVideo::Pending || l.status == StatutVideo::Failed
    &&& l.element.clip_index is Some
    &&& detenu(deja_recus, l.element.kind, l.element.clip_index->Some_0)
}

fn est_detenu(deja_recus: &Vec<(u32, bool, bool)>, kind: QueueKind, clip_index: u32) -> (r: bool)
    ensures
        r == detenu(deja_recus@, kind, clip_index),
{
    let mut i: usize = 0;
    while i < deja_recus.len()
        invariant
            i <= deja_recus@.len(),
            forall|k: int|
                0 <= k < i ==> !((#[trigger] deja_recus@[k]).0 == clip_index && ((kind
                    == QueueKind::ClipProxy && deja_recus@[k].1) || (kind == QueueKind::ClipHd
                    && deja_recus@[k].2))),
        decreases deja_recus@.len() - i,
    {
        let (index, a_proxy, a_hd) = deja_recus[i];
        assert(deja_recus@[i as int] == (index, a_proxy, a_hd));
        if index == clip_index && ((kind == QueueKind::ClipProxy && a_proxy) || (kind
            == QueueKind::ClipHd && a_hd)) {
            return true;
        }
        i += 1;
    }
    false
}

/// Aligns the queue with what the server holds of a session.
///
/// What it holds is marked as sent, not removed. Frames have no clip number
/// and are not concerned.
pub fn reconcilier(
    file: &mut VideoQueue,
    session_id: &str,
    deja_recus: &Vec<(u32, bool, bool)>,
    maintenant: &str,
) -> (r: Reconciliation)
    requires
        old(file).inv(),
        octets(old(file)@.filter(|l: LigneVue| ecartee(l, session_id@, deja_recus@))) <= i64::MAX,
    ensures
        final(file).inv(),
        final(file)@ == modifiees(
            old(file)@,
            |l: LigneVue| ecartee(l, session_id@, deja_recus@),
            |l: LigneVue| envoyee(l, maintenant@),
        ),
        r.skipped == old(file)@.filter(
            |l: LigneVue| ecartee(l, session_id@, deja_recus@),
        ).len(),
        r.bytes_saved == octets(
            old(file)@.filter(|l: LigneVue| ecartee(l, session_id@, deja_recus@)),
        ),
        final(file).compteur == old(file).compteur,
        final(file).dernier_insere == old(file).dernier_insere,
{
    let ghost avant = file@;
    let ghost p = |l: LigneVue| ecartee(l, session_id@, deja_recus@);
    let mut skipped: usize = 0;
    let mut bytes_saved: i64 = 0;
    let mut i: usize = 0;
    proof {
        assert(avant.take(0) =~= Seq::<LigneVue>::empty());
        reveal(Seq::filter);
    }
    while i < file.lignes.len()
        invariant
            file.compteur == old(file).compteur,
            file.dernier_insere == old(file).dernier_insere,
            i <= file.lignes@.len() == avant.len(),
            file_saine(avant, old(file).compteur as int),
            octets(avant.filter(p)) <= i64::MAX,
            0 <= bytes_saved,
            forall|l: LigneVue| #[trigger] p(l) == ecartee(l, session_id@, deja_recus@),
            skipped == avant.take(i as int).filter(p).len(),
            bytes_saved == octets(avant.take(i as int).filter(p)),
            skipped <= i,
            forall|k: int|
                0 <= k < i ==> #[trigger] file@[k] == if p(avant[k]) {
                    envoyee(avant[k], maintenant@)
                } else {
                    avant[k]
                },
            forall|k: int| i <= k < avant.len() ==> #[trigger] file@[k] == avant[k],
        decreases file.lignes@.len() - i,
    {
        let ghost ici = file.lignes@;
        assert(file@[i as int] == avant[i as int]);
        proof {
            lemme_filtre_pas(avant, i as int, p);
            lemme_octets_bornes(avant, i + 1, p);
        }
        let l = &file.lignes[i];
        let en_jeu: bool = match l.element.clip_index {
            Some(index) => (l.status == StatutVideo::Pending || l.status == StatutVideo::Failed)
                && texte::memes(l.element.session_id.as_str(), session_id) && est_detenu(
                deja_recus,
                l.element.kind,
                index,
            ),
            None => false,
        };
        assert(en_jeu == p(avant[i as int]));
        if en_jeu {
            skipped += 1;
            bytes_saved += l.element.size_bytes;
            file.lignes[i].status = StatutVideo::Sent;
            file.lignes[i].sent_at = Some(maintenant.to_owned());
            file.lignes[i].element.last_error = None;
            proof {
                lemme_vues_maj(ici, i as int, file.lignes@[i as int]);
                assert(file.lignes@ =~= ici.update(i as int, file.lignes@[i as int]));
                assert(file.lignes@[i as int]@ =~= envoyee(avant[i as int], maintenant@));
            }
        }
        i += 1;
    }
    proof {
        assert(avant.take(avant.len() as int) =~= avant);
        assert(file@ =~= modifiees(avant, p, |l: LigneVue| envoyee(l, maintenant@)));
        lemme_modifiees_saine(avant, file@, file.compteur as int);
    }
    Reconciliation { skipped, bytes_saved }
}

// ─── Taking the next upload ────────────────────────────────────────────

/// The frames of a session that wait for an event, oldest first.
pub open spec fn images_de_session(
    s: Seq<LigneVue>,
    event_id: i64,
    session_id: Seq<char>,
) -> Seq<ElementVu> {
    s.filter(
        |l: LigneVue|
            attend(l, event_id, QueueKind::Frames) && l.element.session_id == session_id,
    ).map_values(|l: LigneVue| l.element)
}

/// What the next upload takes: the first element in order of priority, alone
/// if it is a clip; with the frames of the same session that follow it, up to
/// `max`, if it is a frame.
pub open spec fn prochain_lot(
    s: Seq<LigneVue>,
    event_id: i64,
    autoriser_hd: bool,
    max: nat,
) -> Seq<ElementVu> {
    let o = ordre(s, event_id, autoriser_hd);
    if o.len() == 0 {
        Seq::empty()
    } else if o[0].kind == QueueKind::Frames {
        premiers(images_de_session(s, event_id, o[0].session_id), max)
    } else {
        seq![o[0]]
    }
}

/// The queue once these elements are reserved.
pub open spec fn reservees(s: Seq<LigneVue>, lot: Seq<ElementVu>) -> Seq<LigneVue> {
    modifiees(
        s,
        |l: LigneVue| lot.contains(l.element),
        |l: LigneVue| avec_statut(l, StatutVideo::Sending),
    )
}

/// An element that waits stands in a row that waits.
proof fn lemme_attente_ligne(s: Seq<LigneVue>, event_id: i64, kind: QueueKind, k: int)
    requires
        0 <= k < attente(s, event_id, kind).len(),
    ensures
        exists|i: int|
            0 <= i < s.len() && (#[trigger] s[i]).element == attente(s, event_id, kind)[k]
                && attend(s[i], event_id, kind),
{
    let p = |l: LigneVue| attend(l, event_id, kind);
    let f = s.filter(p);
    assert(f.len() == attente(s, event_id, kind).len());
    broadcast use vstd::seq_lib::group_filter_ensures;

    assert(f[k] == f[k] && p(f[k]));
    s.lemma_filter_contains_rev(p, f[k]);
    let i = s.index_of(f[k]);
    assert(s[i].element == attente(s, event_id, kind)[k]);
}

/// An element in order of priority stands in a row that waits, and whose
/// kind is allowed.
pub proof fn lemme_ordre_ligne(s: Seq<LigneVue>, event_id: i64, inclure_hd: bool, k: int)
    requires
        0 <= k < ordre(s, event_id, inclure_hd).len(),
    ensures
        exists|i: int|
            0 <= i < s.len() && (#[trigger] s[i]).element == ordre(s, event_id, inclure_hd)[k]
                && attend(s[i], event_id, s[i].element.kind),
        ordre(s, event_id, inclure_hd)[k].kind == QueueKind::ClipHd ==> inclure_hd,
{
    let a = attente(s, event_id, QueueKind::Frames);
    let b = attente(s, event_id, QueueKind::ClipProxy);
    if k < a.len() {
        lemme_attente_ligne(s, event_id, QueueKind::Frames, k);
    } else if k < a.len() + b.len() {
        lemme_attente_ligne(s, event_id, QueueKind::ClipProxy, k - a.len());
    } else {
        lemme_attente_ligne(s, event_id, QueueKind::ClipHd, k - a.len() - b.len());
    }
}

proof fn lemme_images_pas(s: Seq<LigneVue>, i: int, event_id: i64, session_id: Seq<char>)
    requires
        0 <= i < s.len(),
    ensures
        images_de_session(s.take(i + 1), event_id, session_id) == if attend(
            s[i],
            event_id,
            QueueKind::Frames,
        ) && s[i].element.session_id == session_id {
            images_de_session(s.take(i), event_id, session_id).push(s[i].element)
        } else {
            images_de_session(s.take(i), event_id, session_id)
        },
{
    let p = |l: LigneVue|
        attend(l, event_id, QueueKind::Frames) && l.element.session_id == session_id;
    assert(s.take(i + 1) =~= s.take(i).push(s[i]));
    s.take(i).lemma_filter_push(s[i], p);
    if p(s[i]) {
        assert(images_de_session(s.take(i + 1), event_id, session_id) =~= images_de_session(
            s.take(i),
            event_id,
            session_id,
        ).push(s[i].element));
    }
}

/// Reserves at once the next upload: a clip, or up to `max` frames of one
/// session. Nothing that another upload holds is taken.
pub fn reserver_prochain_envoi(
    file: &mut VideoQueue,
    event_id: i64,
    autoriser_hd: bool,
    max: usize,
) -> (r: Vec<QueueItem>)
    requires
        old(file).inv(),
    ensures
        final(file).inv(),
        elements(r@) == prochain_lot(old(file)@, event_id, autoriser_hd, max as nat),
        final(file)@ == reservees(old(file)@, elements(r@)),
        final(file).compteur == old(file).compteur,
        final(file).dernier_insere == old(file).dernier_insere,
{
    let ghost avant = file@;
    let ghost o = ordre(avant, event_id, autoriser_hd);
    let mut tete = prochains(file, event_id, autoriser_hd, 1);
    if tete.len() == 0 {
        assert(elements(tete@).len() == 0);
        assert(elements(tete@) =~= Seq::<ElementVu>::empty());
        assert(file@ =~= reservees(avant, elements(tete@)));
        return tete;
    }
    assert(elements(tete@)[0] == o[0]);
    assert(tete@[0]@ == o[0]);
    assert(tete@.len() == 1) by {
        assert(elements(tete@).len() == tete@.len());
    }
    let kind = tete[0].kind;
    if kind != QueueKind::Frames {
        let id: i64 = tete[0].id;
        let _ = reserver(file, id);
        proof {
            assert(elements(tete@) =~= seq![o[0]]);
            lemme_ordre_ligne(avant, event_id, autoriser_hd, 0);
            let i = choose|i: int|
                0 <= i < avant.len() && (#[trigger] avant[i]).element == o[0] && attend(
                    avant[i],
                    event_id,
                    avant[i].element.kind,
                );
            assert forall|k: int| 0 <= k < avant.len() implies #[trigger] file@[k] == reservees(
                avant,
                seq![o[0]],
            )[k] by {
                assert(seq![o[0]].contains(avant[k].element) == (avant[k].element == o[0])) by {
                    assert(seq![o[0]][0] == o[0]);
                }
                if k < i {
                    assert(avant[k].element.id < avant[i].element.id);
                } else if i < k {
                    assert(avant[i].element.id < avant[k].element.id);
                }
            }
            assert(file@ =~= reservees(avant, elements(tete@)));
        }
        return tete;
    }
    let session = tete[0].session_id.clone();
    let mut v: Vec<QueueItem> = Vec::new();
    let mut i: usize = 0;
    proof {
        assert(avant.take(0) =~= Seq::<LigneVue>::empty());
        reveal(Seq::filter);
        assert(images_de_session(avant.take(0), event_id, session@) =~= Seq::<ElementVu>::empty());
        assert(elements(v@) =~= Seq::<ElementVu>::empty());
    }
    while i < file.lignes.len()
        invariant
            file.compteur == old(file).compteur,
            file.dernier_insere == old(file).dernier_insere,
            i <= file.lignes@.len() == avant.len(),
            file_saine(avant, old(file).compteur as int),
            v@.len() <= max,
            elements(v@) == premiers(
                images_de_session(avant.take(i as int), event_id, session@),
                max as nat,
            ),
            forall|m: int|
                0 <= m < v@.len() ==> exists|j: int|
                    0 <= j < i && (#[trigger] avant[j]).element == #[trigger] v@[m]@,
            forall|k: int|
                0 <= k < i ==> #[trigger] file@[k] == if elements(v@).contains(avant[k].element) {
                    avec_statut(avant[k], StatutVideo::Sending)
                } else {
                    avant[k]
                },
            forall|k: int| i <= k < avant.len() ==> #[trigger] file@[k] == avant[k],
        decreases file.lignes@.len() - i,
    {
        let ghost ici = file.lignes@;
        let ghost lot = elements(v@);
        let ghost deja = images_de_session(avant.take(i as int), event_id, session@);
        assert(file@[i as int] == avant[i as int]);
        proof {
            lemme_images_pas(avant, i as int, event_id, session@);
            assert(!lot.contains(avant[i as int].element)) by {
                if lot.contains(avant[i as int].element) {
                    let m = lot.index_of(avant[i as int].element);
                    assert(v@[m]@ == avant[i as int].element);
                    let j = choose|j: int|
                        0 <= j < i && (#[trigger] avant[j]).element == v@[m]@;
                    assert(avant[j].element.id < avant[i as int].element.id);
                }
            }
        }
        let l = &file.lignes[i];
        let de_l_evenement: bool = match l.event_id {
            Some(e) => e == event_id,
            None => true,
        };
        let prendre: bool = l.status == StatutVideo::Pending && de_l_evenement && l.element.kind
            == QueueKind::Frames && texte::memes(l.element.session_id.as_str(), session.as_str());
        if prendre && v.len() < max {
            let copie = l.element.copie();
            let ghost e = copie@;
            let ghost ancien = v@;
            v.push(copie);
            file.lignes[i].status = StatutVideo::Sending;
            proof {
                lemme_vues_maj(ici, i as int, file.lignes@[i as int]);
                assert(file.lignes@ =~= ici.update(i as int, file.lignes@[i as int]));
                assert(elements(v@) =~= lot.push(e));
                assert(elements(v@) =~= premiers(deja.push(e), max as nat));
                assert(elements(v@)[lot.len() as int] == e);
                assert forall|k: int| 0 <= k < i implies elements(v@).contains(
                    #[trigger] avant[k].element,
                ) == lot.contains(avant[k].element) by {
                    assert(avant[k].element.id < avant[i as int].element.id);
                    if lot.contains(avant[k].element) {
                        let m = lot.index_of(avant[k].element);
                        assert(elements(v@)[m] == avant[k].element);
                    }
                    if elements(v@).contains(avant[k].element) {
                        let m = elements(v@).index_of(avant[k].element);
                        assert(m < lot.len());
                        assert(lot[m] == avant[k].element);
                    }
                }
                assert forall|m: int| 0 <= m < v@.len() implies exists|j: int|
                    0 <= j < i + 1 && (#[trigger] avant[j]).element == #[trigger] v@[m]@ by {
                    if m < ancien.len() {
                        assert(v@[m] == ancien[m]);
                        let j = choose|j: int|
                            0 <= j < i && (#[trigger] avant[j]).element == ancien[m]@;
                        assert(avant[j].element == v@[m]@);
                    } else {
                        assert(avant[i as int].element == v@[m]@);
                    }
                }
            }
        } else if prendre {
            assert(lot.len() == max);
            assert(premiers(deja.push(l.element@), max as nat) =~= premiers(deja, max as nat));
        }
        i += 1;
    }
    proof {
        assert(avant.take(avant.len() as int) =~= avant);
        assert(file@ =~= reservees(avant, elements(v@)));
        lemme_modifiees_saine(avant, file@, file.compteur as int);
    }
    v
}

/// Gives an event to a row that has none.
pub fn attribuer_evenement(file: &mut VideoQueue, id: i64, event_id: i64)
    requires
        old(file).inv(),
    ensures
        final(file).inv(),
        final(file)@ == modifiees(
            old(file)@,
            |l: LigneVue| l.element.id == id && l.event_id is None,
            |l: LigneVue| LigneVue { event_id: Some(event_id), ..l },
        ),
        final(file).compteur == old(file).compteur,
        final(file).dernier_insere == old(file).dernier_insere,
{
    let ghost avant = file@;
    let mut i: usize = 0;
    while i < file.lignes.len()
        invariant
            file.compteur == old(file).compteur,
            file.dernier_insere == old(file).dernier_insere,
            i <= file.lignes@.len() == avant.len(),
            forall|k: int|
                0 <= k < i ==> #[trigger] file@[k] == if avant[k].element.id == id
                    && avant[k].event_id is None {
                    LigneVue { event_id: Some(event_id), ..avant[k] }
                } else {
                    avant[k]
                },
            forall|k: int| i <= k < avant.len() ==> #[trigger] file@[k] == avant[k],
        decreases file.lignes@.len() - i,
    {
        let ghost ici = file.lignes@;
        assert(file@[i as int] == avant[i as int]);
        if file.lignes[i].element.id == id && file.lignes[i].event_id.is_none() {
            file.lignes[i].event_id = Some(event_id);
            proof {
                lemme_vues_maj(ici, i as int, file.lignes@[i as int]);
                assert(file.lignes@ =~= ici.update(i as int, file.lignes@[i as int]));
            }
        }
        i += 1;
    }
    proof {
        assert(file@ =~= modifiees(
            avant,
            |l: LigneVue| l.element.id == id && l.event_id is None,
            |l: LigneVue| LigneVue { event_id: Some(event_id), ..l },
        ));
        lemme_modifiees_saine(avant, file@, file.compteur as int);
    }
}

// ─── Laws of the queue ─────────────────────────────────────────────────

/// The rank of a kind: frames go first, full-quality clips last.
pub open spec fn rang(k: QueueKind) -> int {
    match k {
        QueueKind::Frames => 1,
        QueueKind::ClipProxy => 2,
        QueueKind::ClipHd => 3,
    }
}

proof fn lemme_filtre_croissant(s: Seq<LigneVue>, compteur: int, event_id: i64, kind: QueueKind)
    requires
        file_saine(s, compteur),
    ensures
        forall|i: int, j: int|
            0 <= i < j < attente(s, event_id, kind).len() ==> (#[trigger] attente(
                s,
                event_id,
                kind,
            )[i]).id < (#[trigger] attente(s, event_id, kind)[j]).id,
        forall|i: int|
            0 <= i < attente(s, event_id, kind).len() ==> (#[trigger] attente(
                s,
                event_id,
                kind,
            )[i]).kind == kind,
{
    let p = |l: LigneVue| attend(l, event_id, kind);
    lemme_filtre_sain(s, compteur, p);
    let f = s.filter(p);
    assert forall|i: int, j: int| 0 <= i < j < attente(s, event_id, kind).len() implies (
    #[trigger] attente(s, event_id, kind)[i]).id < (#[trigger] attente(s, event_id, kind)[j]).id by {
        assert(f[i].element.id < f[j].element.id);
    }
    assert forall|i: int| 0 <= i < attente(s, event_id, kind).len() implies (#[trigger] attente(
        s,
        event_id,
        kind,
    )[i]).kind == kind by {
        lemme_attente_ligne(s, event_id, kind, i);
    }
}

/// What is sent first is the lightest kind, and the oldest of its kind.
pub proof fn loi_priorite(file: VideoQueue, event_id: i64, inclure_hd: bool, i: int, j: int)
    requires
        file.inv(),
        0 <= i < j < ordre(file@, event_id, inclure_hd).len(),
    ensures
        ({
            let a = ordre(file@, event_id, inclure_hd)[i];
            let b = ordre(file@, event_id, inclure_hd)[j];
            rang(a.kind) < rang(b.kind) || (a.kind == b.kind && a.id < b.id)
        }),
{
    let c = file.compteur as int;
    lemme_filtre_croissant(file@, c, event_id, QueueKind::Frames);
    lemme_filtre_croissant(file@, c, event_id, QueueKind::ClipProxy);
    lemme_filtre_croissant(file@, c, event_id, QueueKind::ClipHd);
}

/// With full quality held back, no full-quality clip is proposed; allowing
/// it again adds those clips after all the others, none lost.
pub proof fn loi_pleine_qualite_retenue(s: Seq<LigneVue>, event_id: i64)
    ensures
        forall|k: int|
            0 <= k < ordre(s, event_id, false).len() ==> (#[trigger] ordre(
                s,
                event_id,
                false,
            )[k]).kind != QueueKind::ClipHd,
        ordre(s, event_id, true) == ordre(s, event_id, false) + attente(
            s,
            event_id,
            QueueKind::ClipHd,
        ),
{
    assert forall|k: int| 0 <= k < ordre(s, event_id, false).len() implies (#[trigger] ordre(
        s,
        event_id,
        false,
    )[k]).kind != QueueKind::ClipHd by {
        lemme_ordre_ligne(s, event_id, false, k);
    }
    assert(ordre(s, event_id, true) =~= ordre(s, event_id, false) + attente(
        s,
        event_id,
        QueueKind::ClipHd,
    ));
}

/// Only elements of the event, or without one, are proposed for an event.
pub proof fn loi_evenement_respecte(s: Seq<LigneVue>, event_id: i64, inclure_hd: bool, k: int)
    requires
        0 <= k < ordre(s, event_id, inclure_hd).len(),
    ensures
        exists|i: int|
            0 <= i < s.len() && (#[trigger] s[i]).element == ordre(s, event_id, inclure_hd)[k]
                && concerne(s[i], event_id),
{
    lemme_ordre_ligne(s, event_id, inclure_hd, k);
}

/// What an upload has taken, no other takes: none of it is proposed again as
/// long as it is reserved.
pub proof fn loi_reservation_exclusive(
    file: VideoQueue,
    event_id: i64,
    autoriser_hd: bool,
    max: nat,
    k: int,
    m: int,
)
    requires
        file.inv(),
        ({
            let lot = prochain_lot(file@, event_id, autoriser_hd, max);
            let apres = reservees(file@, lot);
            0 <= k < lot.len() && 0 <= m < ordre(apres, event_id, autoriser_hd).len()
        }),
    ensures
        ({
            let lot = prochain_lot(file@, event_id, autoriser_hd, max);
            let apres = reservees(file@, lot);
            ordre(apres, event_id, autoriser_hd)[m] != lot[k]
        }),
{
    let lot = prochain_lot(file@, event_id, autoriser_hd, max);
    let apres = reservees(file@, lot);
    lemme_ordre_ligne(apres, event_id, autoriser_hd, m);
    let i = choose|i: int|
        0 <= i < apres.len() && (#[trigger] apres[i]).element == ordre(
            apres,
            event_id,
            autoriser_hd,
        )[m] && attend(apres[i], event_id, apres[i].element.kind);
    if lot.contains(file@[i].element) {
        assert(apres[i] == avec_statut(file@[i], StatutVideo::Sending));
    } else {
        assert(lot.contains(lot[k]));
    }
}

/// A batch holds one clip, or frames of one session only.
pub proof fn loi_lot_homogene(s: Seq<LigneVue>, event_id: i64, autoriser_hd: bool, max: nat)
    ensures
        ({
            let lot = prochain_lot(s, event_id, autoriser_hd, max);
            forall|i: int, j: int|
                0 <= i < j < lot.len() ==> (#[trigger] lot[i]).kind == QueueKind::Frames && lot[i].kind
                    == (#[trigger] lot[j]).kind && lot[i].session_id == lot[j].session_id
        }),
        prochain_lot(s, event_id, autoriser_hd, max).len() <= max || prochain_lot(
            s,
            event_id,
            autoriser_hd,
            max,
        ).len() <= 1,
{
    let lot = prochain_lot(s, event_id, autoriser_hd, max);
    let o = ordre(s, event_id, autoriser_hd);
    if o.len() > 0 && o[0].kind == QueueKind::Frames {
        let session = o[0].session_id;
        let p = |l: LigneVue|
            attend(l, event_id, QueueKind::Frames) && l.element.session_id == session;
        let f = s.filter(p);
        assert forall|i: int| 0 <= i < lot.len() implies (#[trigger] lot[i]).kind
            == QueueKind::Frames && lot[i].session_id == session by {
            broadcast use vstd::seq_lib::group_filter_ensures;

            assert(lot[i] == f[i].element);
            assert(p(f[i]));
        }
    }
}

/// Releasing what was reserved puts the queue back as it was.
pub proof fn loi_liberer_annule_reserver(s: Seq<LigneVue>, id: int)
    requires
        forall|i: int|
            0 <= i < s.len() && (#[trigger] s[i]).element.id == id ==> s[i].status
                == StatutVideo::Pending,
    ensures
        modifiees(
            modifiees(
                s,
                |l: LigneVue| reservable(l, id),
                |l: LigneVue| avec_statut(l, StatutVideo::Sending),
            ),
            |l: LigneVue| l.element.id == id && l.status == StatutVideo::Sending,
            |l: LigneVue| avec_statut(l, StatutVideo::Pending),
        ) == s,
{
    let t = modifiees(
        s,
        |l: LigneVue| reservable(l, id),
        |l: LigneVue| avec_statut(l, StatutVideo::Sending),
    );
    let u = modifiees(
        t,
        |l: LigneVue| l.element.id == id && l.status == StatutVideo::Sending,
        |l: LigneVue| avec_statut(l, StatutVideo::Pending),
    );
    assert forall|i: int| 0 <= i < s.len() implies #[trigger] u[i] == s[i] by {
        assert(u[i] =~= s[i]);
    }
    assert(u =~= s);
}

/// An element never tried is tried again after one failure and after two,
/// and given up at the third.
pub proof fn loi_trois_echecs(l: LigneVue, a: Seq<char>, b: Seq<char>, c: Seq<char>)
    requires
        l.element.attempts == 0,
    ensures
        echouee(l, a).status == StatutVideo::Pending,
        echouee(echouee(l, a), b).status == StatutVideo::Pending,
        echouee(echouee(echouee(l, a), b), c).status == StatutVideo::Failed,
        echouee(echouee(echouee(l, a), b), c).element.last_error == Some(c),
{
}

/// A given-up element that is put back waits as it did before its failures.
pub proof fn loi_relance_efface_les_echecs(l: LigneVue, erreur: Seq<char>)
    requires
        l.status == StatutVideo::Pending,
        l.element.attempts == 0,
        l.element.last_error is None,
    ensures
        relancee(echouee(l, erreur)) == l,
{
    assert(relancee(echouee(l, erreur)) =~= l);
}

proof fn lemme_filtre_de_filtre(
    s: Seq<LigneVue>,
    q: spec_fn(LigneVue) -> bool,
    p: spec_fn(LigneVue) -> bool,
)
    requires
        forall|l: LigneVue| #[trigger] p(l) ==> q(l),
    ensures
        s.filter(q).filter(p) == s.filter(p),
    decreases s.len(),
{
    reveal(Seq::filter);
    if s.len() > 0 {
        let d = s.drop_last();
        lemme_filtre_de_filtre(d, q, p);
        if q(s.last()) {
            assert(d.filter(q).push(s.last()).drop_last() =~= d.filter(q));
        } else {
            assert(!p(s.last()));
        }
    }
}

/// Nothing is forgotten: whatever waits for an event, and is of a kind that
/// may leave, is proposed.
pub proof fn loi_rien_noublie(s: Seq<LigneVue>, event_id: i64, inclure_hd: bool, i: int)
    requires
        0 <= i < s.len(),
        attend(s[i], event_id, s[i].element.kind),
        s[i].element.kind != QueueKind::ClipHd || inclure_hd,
    ensures
        ordre(s, event_id, inclure_hd).contains(s[i].element),
{
    let kind = s[i].element.kind;
    let p = |l: LigneVue| attend(l, event_id, kind);
    let f = s.filter(p);
    assert(s.contains(s[i]) && p(s[i]));
    s.lemma_filter_contains(p, i);
    let k = f.index_of(s[i]);
    let a = attente(s, event_id, QueueKind::Frames);
    let b = attente(s, event_id, QueueKind::ClipProxy);
    assert(attente(s, event_id, kind)[k] == s[i].element);
    let o = ordre(s, event_id, inclure_hd);
    match kind {
        QueueKind::Frames => {
            assert(o[k] == s[i].element);
        },
        QueueKind::ClipProxy => {
            assert(o[a.len() + k] == s[i].element);
        },
        QueueKind::ClipHd => {
            assert(o[a.len() + b.len() + k] == s[i].element);
        },
    }
}

/// What the server has is never sent again, and neither is what was given up:
/// only what waits is proposed.
pub proof fn loi_seul_ce_qui_attend_part(
    file: VideoQueue,
    event_id: i64,
    inclure_hd: bool,
    i: int,
    k: int,
)
    requires
        file.inv(),
        0 <= i < file@.len(),
        file@[i].status != StatutVideo::Pending,
        0 <= k < ordre(file@, event_id, inclure_hd).len(),
    ensures
        ordre(file@, event_id, inclure_hd)[k].id != file@[i].element.id,
{
    let s = file@;
    lemme_ordre_ligne(s, event_id, inclure_hd, k);
    let j = choose|j: int|
        0 <= j < s.len() && (#[trigger] s[j]).element == ordre(s, event_id, inclure_hd)[k]
            && attend(s[j], event_id, s[j].element.kind);
    if i < j {
        assert(s[i].element.id < s[j].element.id);
    } else if j < i {
        assert(s[j].element.id < s[i].element.id);
    }
}

/// Two rows stand for one element: only how far its upload has come differs.
pub open spec fn meme_element(a: LigneVue, b: LigneVue) -> bool {
    &&& a.queued_at == b.queued_at
    &&& a.event_id == b.event_id
    &&& a.element == (ElementVu {
        attempts: a.element.attempts,
        last_error: a.element.last_error,
        ..b.element
    })
}

/// Nothing is lost: whatever becomes of an upload, its element stays in the
/// queue with all that is known of its file, and a purge removes only what
/// the server has.
pub proof fn loi_rien_ne_se_perd(
    l: LigneVue,
    status: StatutVideo,
    erreur: Seq<char>,
    maintenant: Seq<char>,
    session_id: Seq<char>,
)
    ensures
        meme_element(avec_statut(l, status), l),
        meme_element(envoyee(l, maintenant), l),
        meme_element(echouee(l, erreur), l),
        meme_element(relancee(l), l),
        purgeable(l, session_id) ==> l.status == StatutVideo::Sent,
{
}

/// A purge removes nothing that waits: the same elements are proposed, in
/// the same order.
pub proof fn loi_purge_ne_retient_rien(
    s: Seq<LigneVue>,
    session_id: Seq<char>,
    event_id: i64,
    inclure_hd: bool,
)
    ensures
        ordre(s.filter(|l: LigneVue| !purgeable(l, session_id)), event_id, inclure_hd) == ordre(
            s,
            event_id,
            inclure_hd,
        ),
{
    let q = |l: LigneVue| !purgeable(l, session_id);
    lemme_filtre_de_filtre(s, q, |l: LigneVue| attend(l, event_id, QueueKind::Frames));
    lemme_filtre_de_filtre(s, q, |l: LigneVue| attend(l, event_id, QueueKind::ClipProxy));
    lemme_filtre_de_filtre(s, q, |l: LigneVue| attend(l, event_id, QueueKind::ClipHd));
}

/// A reconciliation touches neither frames, nor other sessions, nor what is
/// being sent or was sent; and nothing at all when the server holds nothing.
pub proof fn loi_reconciliation_mesuree(
    l: LigneVue,
    session_id: Seq<char>,
    deja_recus: Seq<(u32, bool, bool)>,
)
    ensures
        l.element.kind == QueueKind::Frames ==> !ecartee(l, session_id, deja_recus),
        l.element.session_id != session_id ==> !ecartee(l, session_id, deja_recus),
        l.status == StatutVideo::Sending || l.status == StatutVideo::Sent ==> !ecartee(
            l,
            session_id,
            deja_recus,
        ),
        deja_recus.len() == 0 ==> !ecartee(l, session_id, deja_recus),
{
}

/// A second reconciliation with the same report changes nothing.
pub proof fn loi_reconciliation_idempotente(
    s: Seq<LigneVue>,
    session_id: Seq<char>,
    deja_recus: Seq<(u32, bool, bool)>,
    avant: Seq<char>,
    apres: Seq<char>,
)
    ensures
        ({
            let p = |l: LigneVue| ecartee(l, session_id, deja_recus);
            let t = modifiees(s, p, |l: LigneVue| envoyee(l, avant));
            modifiees(t, p, |l: LigneVue| envoyee(l, apres)) == t
        }),
{
    let p = |l: LigneVue| ecartee(l, session_id, deja_recus);
    let t = modifiees(s, p, |l: LigneVue| envoyee(l, avant));
    assert(modifiees(t, p, |l: LigneVue| envoyee(l, apres)) =~= t);
}

/// A file put in the queue twice stands there once: the second time changes
/// nothing.
pub proof fn loi_enfiler_deux_fois(s: Seq<LigneVue>, l: LigneVue)
    ensures
        deja_en_file(
            s.push(l),
            l.element.session_id,
            l.element.kind,
            l.element.file_path,
        ),
{
    assert(s.push(l)[s.len() as int] == l);
}

// ─── Laws in terms of rows ─────────────────────────────────────────────

/// The words of a kind are those of the queue's table, each read back as its
/// kind; any other word stands for frames.
pub proof fn loi_mots_des_natures(nom: Seq<char>)
    ensures
        QueueKind::Frames.nom() == "frames"@,
        QueueKind::ClipProxy.nom() == "clip_proxy"@,
        QueueKind::ClipHd.nom() == "clip_hd"@,
        nom == "clip_proxy"@ <==> QueueKind::de_nom(nom) == QueueKind::ClipProxy,
        nom == "clip_hd"@ <==> QueueKind::de_nom(nom) == QueueKind::ClipHd,
        nom != "clip_proxy"@ && nom != "clip_hd"@ ==> QueueKind::de_nom(nom) == QueueKind::Frames,
{
    reveal_strlit("clip_proxy");
    reveal_strlit("clip_hd");
    assert("clip_proxy"@.len() == 10 && "clip_hd"@.len() == 7);
}

/// The view of a row says of each field what the field holds.
pub proof fn loi_vue_fidele(l: LigneVideo)
    ensures
        l@.element.id == l.element.id,
        l@.element.session_id == l.element.session_id@,
        l@.element.kind == l.element.kind,
        l@.element.file_path == l.element.file_path@,
        l@.element.clip_index == l.element.clip_index,
        l@.element.started_at == texte::vue(l.element.started_at),
        l@.element.ended_at == texte::vue(l.element.ended_at),
        l@.element.instant_at == texte::vue(l.element.instant_at),
        l@.element.size_bytes == l.element.size_bytes,
        l@.element.attempts == l.element.attempts,
        l@.element.last_error == texte::vue(l.element.last_error),
        l@.event_id == l.event_id,
        l@.status == l.status,
        l@.queued_at == l.queued_at@,
        l@.sent_at == texte::vue(l.sent_at),
{
}

/// A queue is seen row by row, in its order, and so is what it gives out.
pub proof fn loi_vue_de_la_file(file: VideoQueue, v: Seq<QueueItem>, i: int)
    ensures
        file@.len() == file.lignes@.len(),
        0 <= i < file.lignes@.len() ==> file@[i] == file.lignes@[i]@,
        elements(v).len() == v.len(),
        0 <= i < v.len() ==> elements(v)[i] == v[i]@,
{
}

/// In a sound queue, two rows have neither the same number nor the same file
/// of one session and one kind; numbers follow the order of the rows, and
/// were all given out.
pub proof fn loi_file_sans_doublon(file: VideoQueue, i: int, j: int)
    requires
        file.inv(),
        0 <= i < j < file@.len(),
    ensures
        1 <= file@[i].element.id < file@[j].element.id <= file.compteur,
        file@[i].element.session_id == file@[j].element.session_id && file@[i].element.kind
            == file@[j].element.kind ==> file@[i].element.file_path != file@[j].element.file_path,
        file@[i].element.size_bytes >= 0,
        file@[i].element.attempts >= 0,
{
    assert(!meme_fichier(file@[i].element, file@[j].element));
}

/// A file is in the queue when a row holds that path for that session and that
/// kind; the same path for another session or another kind is another file.
pub proof fn loi_deja_en_file(s: Seq<LigneVue>, session_id: Seq<char>, kind: QueueKind, file_path: Seq<char>)
    ensures
        (exists|i: int|
            0 <= i < s.len() && #[trigger] s[i].element.session_id == session_id
                && s[i].element.kind == kind && s[i].element.file_path == file_path)
            <==> deja_en_file(s, session_id, kind, file_path),
{
    if deja_en_file(s, session_id, kind, file_path) {
        let i = choose|i: int|
            0 <= i < s.len() && (#[trigger] s[i]).element.session_id == session_id
                && s[i].element.kind == kind && s[i].element.file_path == file_path;
        assert(s[i].element.session_id == session_id);
    }
}

/// A change of chosen rows changes those rows, in place, and no other.
pub proof fn loi_lignes_choisies(
    s: Seq<LigneVue>,
    p: spec_fn(LigneVue) -> bool,
    f: spec_fn(LigneVue) -> LigneVue,
    i: int,
)
    requires
        0 <= i < s.len(),
    ensures
        modifiees(s, p, f).len() == s.len(),
        p(s[i]) ==> modifiees(s, p, f)[i] == f(s[i]),
        !p(s[i]) ==> modifiees(s, p, f)[i] == s[i],
{
}

/// After a reconciliation, a row that waited or was given up is marked as sent
/// if and only if it is of that session and the report has an entry with
/// exactly the number of its clip, whose flag for its variant is true. Every
/// other row is as it was.
pub proof fn loi_reconciliation_exacte(
    s: Seq<LigneVue>,
    session_id: Seq<char>,
    recus: Seq<(u32, bool, bool)>,
    maintenant: Seq<char>,
    i: int,
)
    requires
        0 <= i < s.len(),
    ensures
        ({
            let t = modifiees(
                s,
                |l: LigneVue| ecartee(l, session_id, recus),
                |l: LigneVue| envoyee(l, maintenant),
            );
            let detenue = exists|k: int|
                0 <= k < recus.len() && s[i].element.clip_index == Some(#[trigger] recus[k].0) && (
                (s[i].element.kind == QueueKind::ClipProxy && recus[k].1) || (s[i].element.kind
                    == QueueKind::ClipHd && recus[k].2));
            let ouverte = s[i].status == StatutVideo::Pending || s[i].status == StatutVideo::Failed;
            &&& t.len() == s.len()
            &&& ouverte ==> (t[i].status == StatutVideo::Sent <==> s[i].element.session_id
                == session_id && detenue)
            &&& !(ouverte && s[i].element.session_id == session_id && detenue) ==> t[i] == s[i]
            &&& ouverte && s[i].element.session_id == session_id && detenue ==> t[i].sent_at
                == Some(maintenant) && t[i].element.last_error is None && t[i].element.id
                == s[i].element.id && t[i].element.file_path == s[i].element.file_path
        }),
{
    let l = s[i];
    if l.element.clip_index is Some {
        let n = l.element.clip_index->Some_0;
        if detenu(recus, l.element.kind, n) {
            let k = choose|k: int|
                0 <= k < recus.len() && (#[trigger] recus[k]).0 == n && ((l.element.kind
                    == QueueKind::ClipProxy && recus[k].1) || (l.element.kind == QueueKind::ClipHd
                    && recus[k].2));
            assert(l.element.clip_index == Some(recus[k].0));
        }
    }
}

/// What the report says of a clip changes nothing for another clip, and what
/// it says of a variant nothing for the other; the order of the entries does
/// not matter.
pub proof fn loi_entree_d_un_autre_clip(
    l: LigneVue,
    session_id: Seq<char>,
    avant: Seq<(u32, bool, bool)>,
    entree: (u32, bool, bool),
    apres: Seq<(u32, bool, bool)>,
)
    requires
        l.element.clip_index != Some(entree.0) || (l.element.kind == QueueKind::ClipProxy
            && !entree.1) || (l.element.kind == QueueKind::ClipHd && !entree.2),
    ensures
        ecartee(l, session_id, avant + seq![entree] + apres) == ecartee(
            l,
            session_id,
            apres + avant,
        ),
{
    let a = avant + seq![entree] + apres;
    let b = apres + avant;
    if l.element.clip_index is Some {
        let n = l.element.clip_index->Some_0;
        let kind = l.element.kind;
        if detenu(a, kind, n) {
            let k = choose|k: int|
                0 <= k < a.len() && (#[trigger] a[k]).0 == n && ((kind == QueueKind::ClipProxy
                    && a[k].1) || (kind == QueueKind::ClipHd && a[k].2));
            if k < avant.len() {
                assert(b[apres.len() + k] == a[k]);
            } else {
                assert(k != avant.len());
                assert(b[k - avant.len() - 1] == a[k]);
            }
        }
        if detenu(b, kind, n) {
            let k = choose|k: int|
                0 <= k < b.len() && (#[trigger] b[k]).0 == n && ((kind == QueueKind::ClipProxy
                    && b[k].1) || (kind == QueueKind::ClipHd && b[k].2));
            if k < apres.len() {
                assert(a[avant.len() + 1 + k] == b[k]);
            } else {
                assert(a[k - apres.len()] == b[k]);
            }
        }
    }
}

/// What a reconciliation counts grows by a row, and by its bytes, when one
/// more row is held by the server.
pub proof fn loi_octets(s: Seq<LigneVue>, l: LigneVue, p: spec_fn(LigneVue) -> bool)
    ensures
        octets(Seq::empty()) == 0,
        octets(s.push(l)) == octets(s) + l.element.size_bytes,
        octets(s.push(l).filter(p)) == octets(s.filter(p)) + if p(l) {
            l.element.size_bytes
        } else {
            0
        },
{
    let t = s.push(l);
    assert(t.drop_last() =~= s);
    lemme_filtre_pas(t, s.len() as int, p);
    assert(t.take(t.len() as int) =~= t);
    assert(t.take(s.len() as int) =~= s);
}

/// What is proposed for an event: exactly the rows that wait, are of the event
/// or of none, and are no full-quality clip unless those may leave.
pub proof fn loi_ordre_exact(s: Seq<LigneVue>, event_id: i64, inclure_hd: bool, e: ElementVu)
    ensures
        ordre(s, event_id, inclure_hd).contains(e) <==> exists|i: int|
            0 <= i < s.len() && (#[trigger] s[i]).element == e && s[i].status
                == StatutVideo::Pending && (s[i].event_id is None || s[i].event_id == Some(
                event_id,
            )) && (e.kind != QueueKind::ClipHd || inclure_hd),
{
    let o = ordre(s, event_id, inclure_hd);
    if o.contains(e) {
        let k = choose|k: int| 0 <= k < o.len() && o[k] == e;
        lemme_ordre_ligne(s, event_id, inclure_hd, k);
    }
    if exists|i: int|
        0 <= i < s.len() && (#[trigger] s[i]).element == e && s[i].status == StatutVideo::Pending
            && (s[i].event_id is None || s[i].event_id == Some(event_id)) && (e.kind
            != QueueKind::ClipHd || inclure_hd) {
        let i = choose|i: int|
            0 <= i < s.len() && (#[trigger] s[i]).element == e && s[i].status
                == StatutVideo::Pending && (s[i].event_id is None || s[i].event_id == Some(
                event_id,
            )) && (e.kind != QueueKind::ClipHd || inclure_hd);
        loi_rien_noublie(s, event_id, inclure_hd, i);
    }
}

/// Frames come first, then preview clips, then full-quality clips, each kind
/// in the order in which it entered the queue; asking for fewer elements gives
/// the first of them.
pub proof fn loi_ordre_des_natures(
    file: VideoQueue,
    event_id: i64,
    inclure_hd: bool,
    limite: nat,
    i: int,
    j: int,
)
    requires
        file.inv(),
        0 <= i < j < ordre(file@, event_id, inclure_hd).len(),
    ensures
        ({
            let o = ordre(file@, event_id, inclure_hd);
            let p = premiers(o, limite);
            &&& o[i].kind == o[j].kind ==> o[i].id < o[j].id
            &&& o[i].kind == QueueKind::ClipProxy ==> o[j].kind != QueueKind::Frames
            &&& o[i].kind == QueueKind::ClipHd ==> o[j].kind == QueueKind::ClipHd
            &&& p.len() <= limite && p.len() <= o.len()
            &&& p.len() == limite || p.len() == o.len()
            &&& i < p.len() ==> p[i] == o[i]
        }),
{
    loi_priorite(file, event_id, inclure_hd, i, j);
}

/// The figures of an empty queue are zeros.
pub proof fn loi_figures_nulles(event_id: i64, sessions: Seq<Seq<char>>, q: QueueStats)
    requires
        figures(Seq::empty(), event_id, sessions, q),
    ensures
        q.frames_pending == 0,
        q.proxy_pending == 0,
        q.hd_pending == 0,
        q.total_bytes == 0,
        q.failed == 0,
        q.frames_sent == 0,
        q.proxy_sent == 0,
        q.hd_sent == 0,
        q.hd_bytes == 0,
{
    reveal(Seq::filter);
}

/// One more row raises the figures of its own kind and status by one and by
/// its bytes, and no other; a row of another event, or of a session that is
/// not asked for, raises none. What is being sent is not counted.
pub proof fn loi_figures(
    s: Seq<LigneVue>,
    l: LigneVue,
    event_id: i64,
    sessions: Seq<Seq<char>>,
    q: QueueStats,
    r: QueueStats,
)
    requires
        figures(s, event_id, sessions, q),
        figures(s.push(l), event_id, sessions, r),
    ensures
        ({
            let vue = (l.event_id is None || l.event_id == Some(event_id)) && (sessions.len() == 0
                || sessions.contains(l.element.session_id));
            let attend = vue && l.status == StatutVideo::Pending;
            let partie = vue && l.status == StatutVideo::Sent;
            let un = |b: bool| if b { 1int } else { 0int };
            let poids = |b: bool| if b { l.element.size_bytes } else { 0int };
            let image = l.element.kind == QueueKind::Frames;
            let apercu = l.element.kind == QueueKind::ClipProxy;
            let pleine = l.element.kind == QueueKind::ClipHd;
            &&& r.frames_pending == q.frames_pending + un(attend && image)
            &&& r.proxy_pending == q.proxy_pending + un(attend && apercu)
            &&& r.hd_pending == q.hd_pending + un(attend && pleine)
            &&& r.total_bytes == q.total_bytes + poids(attend)
            &&& r.hd_bytes == q.hd_bytes + poids(attend && pleine)
            &&& r.failed == q.failed + un(vue && l.status == StatutVideo::Failed)
            &&& r.frames_sent == q.frames_sent + un(partie && image)
            &&& r.proxy_sent == q.proxy_sent + un(partie && apercu)
            &&& r.hd_sent == q.hd_sent + un(partie && pleine)
        }),
{
    lemme_figure_ajout(s, l, event_id, sessions, StatutVideo::Pending, QueueKind::Frames);
    lemme_figure_ajout(s, l, event_id, sessions, StatutVideo::Pending, QueueKind::ClipProxy);
    lemme_figure_ajout(s, l, event_id, sessions, StatutVideo::Pending, QueueKind::ClipHd);
    lemme_figure_ajout(s, l, event_id, sessions, StatutVideo::Sent, QueueKind::Frames);
    lemme_figure_ajout(s, l, event_id, sessions, StatutVideo::Sent, QueueKind::ClipProxy);
    lemme_figure_ajout(s, l, event_id, sessions, StatutVideo::Sent, QueueKind::ClipHd);
    lemme_figure_ajout(s, l, event_id, sessions, StatutVideo::Failed, QueueKind::ClipHd);
}

proof fn lemme_figure_ajout(
    s: Seq<LigneVue>,
    l: LigneVue,
    event_id: i64,
    sessions: Seq<Seq<char>>,
    status: StatutVideo,
    kind: QueueKind,
)
    ensures
        ({
            let vue = retenue(l, event_id, sessions) && l.status == status;
            let a = compte(s, event_id, sessions, status, kind);
            let b = compte(s.push(l), event_id, sessions, status, kind);
            let c = compte_tout(s, event_id, sessions, status);
            let d = compte_tout(s.push(l), event_id, sessions, status);
            &&& b == if vue && l.element.kind == kind {
                a.push(l)
            } else {
                a
            }
            &&& d == if vue {
                c.push(l)
            } else {
                c
            }
            &&& octets(a.push(l)) == octets(a) + l.element.size_bytes
            &&& octets(c.push(l)) == octets(c) + l.element.size_bytes
        }),
{
    let p = |x: LigneVue|
        retenue(x, event_id, sessions) && x.status == status && x.element.kind == kind;
    let q = |x: LigneVue| retenue(x, event_id, sessions) && x.status == status;
    s.lemma_filter_push(l, p);
    s.lemma_filter_push(l, q);
    let a = compte(s, event_id, sessions, status, kind);
    let c = compte_tout(s, event_id, sessions, status);
    assert(a.push(l).drop_last() =~= a);
    assert(c.push(l).drop_last() =~= c);
}

/// What each event in the life of an upload does to its row, field by field:
/// a success dates it and forgets the last error; a failure counts it and
/// keeps its words, and the third one gives the element up; a new start
/// forgets the failures; only a waiting element of that number is reserved;
/// only what was sent of that session is purged.
pub proof fn loi_vie_dun_envoi(
    l: LigneVue,
    maintenant: Seq<char>,
    erreur: Seq<char>,
    status: StatutVideo,
    id: int,
    session_id: Seq<char>,
)
    ensures
        envoyee(l, maintenant).status == StatutVideo::Sent,
        envoyee(l, maintenant).sent_at == Some(maintenant),
        envoyee(l, maintenant).element.last_error is None,
        envoyee(l, maintenant).element.attempts == l.element.attempts,
        echouee(l, erreur).element.attempts == l.element.attempts + 1,
        echouee(l, erreur).element.last_error == Some(erreur),
        echouee(l, erreur).sent_at == l.sent_at,
        l.element.attempts >= 2 <==> echouee(l, erreur).status == StatutVideo::Failed,
        l.element.attempts < 2 <==> echouee(l, erreur).status == StatutVideo::Pending,
        relancee(l).status == StatutVideo::Pending,
        relancee(l).element.attempts == 0,
        relancee(l).element.last_error is None,
        relancee(l).sent_at == l.sent_at,
        avec_statut(l, status).status == status,
        avec_statut(l, status).element == l.element,
        avec_statut(l, status).sent_at == l.sent_at,
        reservable(l, id) <==> l.element.id == id && l.status == StatutVideo::Pending,
        purgeable(l, session_id) <==> l.status == StatutVideo::Sent && l.element.session_id
            == session_id,
{
}

/// No change of status touches what is known of the file.
pub proof fn loi_fichier_intact(l: LigneVue, m: LigneVue)
    requires
        meme_element(m, l),
    ensures
        m.event_id == l.event_id,
        m.queued_at == l.queued_at,
        m.element.id == l.element.id,
        m.element.session_id == l.element.session_id,
        m.element.kind == l.element.kind,
        m.element.file_path == l.element.file_path,
        m.element.clip_index == l.element.clip_index,
        m.element.started_at == l.element.started_at,
        m.element.ended_at == l.element.ended_at,
        m.element.instant_at == l.element.instant_at,
        m.element.size_bytes == l.element.size_bytes,
{
}

/// The next batch is made of the first element proposed: alone when it is a
/// clip, otherwise with the other waiting frames of its session, oldest first,
/// as many as are allowed. Nothing is taken only when nothing is proposed.
pub proof fn loi_lot_pris(file: VideoQueue, event_id: i64, autoriser_hd: bool, max: nat)
    requires
        file.inv(),
        max > 0,
    ensures
        ({
            let o = ordre(file@, event_id, autoriser_hd);
            let lot = prochain_lot(file@, event_id, autoriser_hd, max);
            &&& o.len() == 0 <==> lot.len() == 0
            &&& lot.len() > 0 ==> lot[0] == o[0]
            &&& lot.len() <= max
            &&& lot.len() > 1 ==> o[0].kind == QueueKind::Frames
            &&& forall|k: int| #![trigger lot[k]]
                0 <= k < lot.len() ==> lot[k].kind == o[0].kind && lot[k].session_id
                    == o[0].session_id && o.contains(lot[k])
            &&& forall|k: int, m: int|
                0 <= k < m < lot.len() ==> (#[trigger] lot[k]).id < (#[trigger] lot[m]).id
            &&& forall|e: ElementVu|
                lot.len() > 0 && lot.len() < max && #[trigger] o.contains(e) && e.kind
                    == QueueKind::Frames && e.session_id == o[0].session_id ==> lot.contains(e)
        }),
{
    let s = file@;
    let c = file.compteur as int;
    let o = ordre(s, event_id, autoriser_hd);
    let lot = prochain_lot(s, event_id, autoriser_hd, max);
    if o.len() > 0 {
        assert(o.contains(o[0]));
        if o[0].kind == QueueKind::Frames {
            let session = o[0].session_id;
            let p = |l: LigneVue|
                attend(l, event_id, QueueKind::Frames) && l.element.session_id == session;
            let f = s.filter(p);
            let im = images_de_session(s, event_id, session);
            assert(im.len() == f.len());
            lemme_filtre_sain(s, c, p);
            assert forall|k: int| 0 <= k < f.len() implies o.contains(#[trigger] f[k].element)
                && p(f[k]) by {
                broadcast use vstd::seq_lib::group_filter_ensures;

                assert(p(f[k]));
                let i = s.index_of(f[k]);
                assert(s[i] == f[k]);
                loi_rien_noublie(s, event_id, autoriser_hd, i);
            }
            assert forall|e: ElementVu| #[trigger]
                o.contains(e) && e.kind == QueueKind::Frames && e.session_id == session implies exists|
                k: int,
            | 0 <= k < f.len() && #[trigger] f[k].element == e by {
                let m = choose|m: int| 0 <= m < o.len() && o[m] == e;
                lemme_ordre_ligne(s, event_id, autoriser_hd, m);
                let i = choose|i: int|
                    0 <= i < s.len() && (#[trigger] s[i]).element == e && attend(
                        s[i],
                        event_id,
                        s[i].element.kind,
                    );
                assert(p(s[i]));
                s.lemma_filter_contains(p, i);
                assert(f[f.index_of(s[i])].element == e);
            }
            let k = choose|k: int| 0 <= k < f.len() && #[trigger] f[k].element == o[0];
            assert(f.len() > 0);
            if k > 0 {
                assert(f[0].element.id < f[k].element.id);
                let m = choose|m: int| 0 <= m < o.len() && o[m] == f[0].element;
                if m > 0 {
                    loi_priorite(file, event_id, autoriser_hd, 0, m);
                }
            }
            assert(lot[0] == f[0].element);
            assert forall|k: int| #![trigger lot[k]] 0 <= k < lot.len() implies lot[k].kind
                == o[0].kind && lot[k].session_id == o[0].session_id && o.contains(lot[k]) by {
                assert(lot[k] == f[k].element);
            }
            assert forall|k: int, m: int| 0 <= k < m < lot.len() implies (#[trigger] lot[k]).id < (
            #[trigger] lot[m]).id by {
                assert(f[k].element.id < f[m].element.id);
            }
            assert forall|e: ElementVu|
                lot.len() > 0 && lot.len() < max && #[trigger] o.contains(e) && e.kind
                    == QueueKind::Frames && e.session_id == o[0].session_id implies lot.contains(
                e,
            ) by {
                let k = choose|k: int| 0 <= k < f.len() && #[trigger] f[k].element == e;
                assert(lot[k] == e);
            }
        } else {
            assert forall|e: ElementVu|
                lot.len() > 0 && lot.len() < max && #[trigger] o.contains(e) && e.kind
                    == QueueKind::Frames && e.session_id == o[0].session_id implies lot.contains(
                e,
            ) by {
                let m = choose|m: int| 0 <= m < o.len() && o[m] == e;
                loi_priorite(file, event_id, autoriser_hd, 0, m);
            }
        }
    }
}

/// When a batch is cut short, it is the latest frames that stay behind.
pub proof fn loi_lot_les_plus_anciennes(
    file: VideoQueue,
    event_id: i64,
    autoriser_hd: bool,
    max: nat,
    k: int,
    i: int,
)
    requires
        file.inv(),
        ({
            let lot = prochain_lot(file@, event_id, autoriser_hd, max);
            &&& 0 <= k < lot.len()
            &&& 0 <= i < file@.len()
            &&& lot[0].kind == QueueKind::Frames
            &&& attend(file@[i], event_id, QueueKind::Frames)
            &&& file@[i].element.session_id == lot[0].session_id
            &&& !lot.contains(file@[i].element)
        }),
    ensures
        prochain_lot(file@, event_id, autoriser_hd, max)[k].id < file@[i].element.id,
{
    let s = file@;
    let lot = prochain_lot(s, event_id, autoriser_hd, max);
    loi_lot_pris(file, event_id, autoriser_hd, max);
    let session = lot[0].session_id;
    let p = |l: LigneVue|
        attend(l, event_id, QueueKind::Frames) && l.element.session_id == session;
    let f = s.filter(p);
    lemme_filtre_sain(s, file.compteur as int, p);
    s.lemma_filter_contains(p, i);
    let m = f.index_of(s[i]);
    assert(f[m] == s[i]);
    if m < lot.len() {
        assert(lot[m] == s[i].element);
    }
    assert(lot[k] == f[k].element);
    assert(f[k].element.id < f[m].element.id);
}

/// Reserving a batch marks its rows as being sent, and leaves the others.
pub proof fn loi_lot_reserve(s: Seq<LigneVue>, lot: Seq<ElementVu>, i: int)
    requires
        0 <= i < s.len(),
    ensures
        reservees(s, lot).len() == s.len(),
        lot.contains(s[i].element) ==> reservees(s, lot)[i].status == StatutVideo::Sending
            && reservees(s, lot)[i].element == s[i].element,
        !lot.contains(s[i].element) ==> reservees(s, lot)[i] == s[i],
{
}

} // verus!
