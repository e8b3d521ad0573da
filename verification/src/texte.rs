//! Text as sequences of characters.
//!
//! Every rule of the agent that reads or writes text is stated over
//! `Seq<char>`, the view of `String` and `&str`. The functions here move
//! between the two and search, trim, split, print and read such sequences.

use vstd::prelude::*;

verus! {

/// `String::push` of std: the character is added at the end.
pub assume_specification[ String::push ](s: &mut String, c: char)
    ensures
        final(s)@ == old(s)@.push(c),
;

// ─── Conversions ───────────────────────────────────────────────────────

/// The characters of a text, in order.
pub fn caracteres(s: &str) -> (r: Vec<char>)
    ensures
        r@ == s@,
{
    let mut r: Vec<char> = Vec::new();
    for c in it: s.chars()
        invariant
            it.seq() == s@,
            r@ == s@.take(it.index()),
    {
        r.push(c);
        assert(s@.take(it.index() + 1) =~= s@.take(it.index()).push(c));
    }
    assert(s@.take(s@.len() as int) =~= s@);
    r
}

/// The text made of these characters.
pub fn en_texte(v: &Vec<char>) -> (r: String)
    ensures
        r@ == v@,
{
    let mut r = String::new();
    let mut i: usize = 0;
    while i < v.len()
        invariant
            i <= v.len(),
            r@ == v@.take(i as int),
        decreases v.len() - i,
    {
        r.push(v[i]);
        assert(v@.take(i + 1) =~= v@.take(i as int).push(v@[i as int]));
        i += 1;
    }
    assert(v@.take(v@.len() as int) =~= v@);
    r
}

/// The characters from `debut` (included) to `fin` (excluded).
pub fn tranche(v: &Vec<char>, debut: usize, fin: usize) -> (r: Vec<char>)
    requires
        debut <= fin <= v@.len(),
    ensures
        r@ == v@.subrange(debut as int, fin as int),
{
    let mut r: Vec<char> = Vec::new();
    let mut i: usize = debut;
    while i < fin
        invariant
            debut <= i <= fin <= v@.len(),
            r@ == v@.subrange(debut as int, i as int),
        decreases fin - i,
    {
        r.push(v[i]);
        assert(v@.subrange(debut as int, i + 1) =~= v@.subrange(debut as int, i as int).push(
            v@[i as int],
        ));
        i += 1;
    }
    r
}

/// Do two texts hold the same characters?
pub fn memes(a: &str, b: &str) -> (r: bool)
    ensures
        r == (a@ == b@),
{
    a.to_owned() == b.to_owned()
}

/// The views of a list of texts.
pub open spec fn vues(v: Seq<String>) -> Seq<Seq<char>> {
    v.map_values(|s: String| s@)
}

/// The view of an optional text.
pub open spec fn vue(o: Option<String>) -> Option<Seq<char>> {
    match o {
        Some(s) => Some(s@),
        None => None,
    }
}

/// The view of an optional borrowed text.
pub open spec fn vue_ref(o: Option<&str>) -> Option<Seq<char>> {
    match o {
        Some(s) => Some(s@),
        None => None,
    }
}

/// A copy of an optional text.
pub fn copie_option(o: &Option<String>) -> (r: Option<String>)
    ensures
        vue(r) == vue(*o),
{
    match o {
        Some(s) => Some(s.clone()),
        None => None,
    }
}

/// An owned copy of an optional borrowed text.
pub fn retenir(o: Option<&str>) -> (r: Option<String>)
    ensures
        vue(r) == vue_ref(o),
{
    match o {
        Some(s) => Some(s.to_owned()),
        None => None,
    }
}

/// Is a text among these?
pub fn figure(v: &Vec<String>, t: &str) -> (r: bool)
    ensures
        r == vues(v@).contains(t@),
{
    let mut i: usize = 0;
    while i < v.len()
        invariant
            i <= v.len(),
            forall|k: int| 0 <= k < i ==> vues(v@)[k] != t@,
        decreases v.len() - i,
    {
        if memes(v[i].as_str(), t) {
            assert(vues(v@)[i as int] == t@);
            return true;
        }
        i += 1;
    }
    false
}

/// Adds a text at the end of a list.
pub fn ajouter(v: &mut Vec<String>, t: &str)
    ensures
        vues(final(v)@) == vues(old(v)@).push(t@),
        final(v)@.len() == old(v)@.len() + 1,
        final(v)@.take(old(v)@.len() as int) == old(v)@,
{
    v.push(t.to_owned());
    assert(vues(v@) =~= vues(old(v)@).push(t@));
    assert(v@.take(old(v)@.len() as int) =~= old(v)@);
}

/// Two texts end to end.
pub fn joindre(a: &str, b: &str) -> (r: String)
    ensures
        r@ == a@ + b@,
{
    let mut r = a.to_owned();
    r.append(b);
    r
}

/// Three texts end to end.
pub fn joindre3(a: &str, b: &str, c: &str) -> (r: String)
    ensures
        r@ == a@ + b@ + c@,
{
    let mut r = a.to_owned();
    r.append(b);
    r.append(c);
    r
}

// ─── Searching ─────────────────────────────────────────────────────────

/// `m` stands in `s` at position `i`.
pub open spec fn occurrence(s: Seq<char>, m: Seq<char>, i: int) -> bool {
    0 <= i <= s.len() - m.len() && s.subrange(i, i + m.len()) == m
}

/// `m` stands somewhere in `s`.
pub open spec fn contient(s: Seq<char>, m: Seq<char>) -> bool {
    exists|i: int| occurrence(s, m, i)
}

/// `i` is the first position at which `m` stands in `s`.
pub open spec fn est_premiere(s: Seq<char>, m: Seq<char>, i: int) -> bool {
    occurrence(s, m, i) && forall|j: int| 0 <= j < i ==> !occurrence(s, m, j)
}

/// `i` is the last position at which `m` stands in `s`.
pub open spec fn est_derniere(s: Seq<char>, m: Seq<char>, i: int) -> bool {
    occurrence(s, m, i) && forall|j: int| i < j ==> !occurrence(s, m, j)
}

/// The first position of `m` in `s`, if there is one.
pub open spec fn premiere(s: Seq<char>, m: Seq<char>) -> Option<int> {
    if contient(s, m) {
        Some(choose|i: int| est_premiere(s, m, i))
    } else {
        None
    }
}

/// The last position of `m` in `s`, if there is one.
pub open spec fn derniere(s: Seq<char>, m: Seq<char>) -> Option<int> {
    if contient(s, m) {
        Some(choose|i: int| est_derniere(s, m, i))
    } else {
        None
    }
}

/// A first position, once found, is the value of `premiere`.
pub proof fn lemme_premiere(s: Seq<char>, m: Seq<char>, i: int)
    requires
        est_premiere(s, m, i),
    ensures
        premiere(s, m) == Some(i),
{
    let j = choose|j: int| est_premiere(s, m, j);
    assert(est_premiere(s, m, j));
    if j < i {
        assert(!occurrence(s, m, j));
    } else if i < j {
        assert(!occurrence(s, m, i));
    }
}

/// A last position, once found, is the value of `derniere`.
pub proof fn lemme_derniere(s: Seq<char>, m: Seq<char>, i: int)
    requires
        est_derniere(s, m, i),
    ensures
        derniere(s, m) == Some(i),
{
    let j = choose|j: int| est_derniere(s, m, j);
    assert(est_derniere(s, m, j));
    if j < i {
        assert(!occurrence(s, m, i));
    } else if i < j {
        assert(!occurrence(s, m, j));
    }
}

pub open spec fn debute_par(s: Seq<char>, m: Seq<char>) -> bool {
    occurrence(s, m, 0)
}

pub open spec fn finit_par(s: Seq<char>, m: Seq<char>) -> bool {
    occurrence(s, m, s.len() - m.len())
}

/// Does `m` stand in `s` at `i`?
pub fn correspond(s: &Vec<char>, m: &Vec<char>, i: usize) -> (r: bool)
    requires
        i + m@.len() <= s@.len(),
    ensures
        r == occurrence(s@, m@, i as int),
{
    let mut k: usize = 0;
    while k < m.len()
        invariant
            k <= m@.len(),
            i + m@.len() <= s.len(),
            forall|j: int| 0 <= j < k ==> s@[i + j] == m@[j],
        decreases m@.len() - k,
    {
        if s[i + k] != m[k] {
            assert(s@.subrange(i as int, i + m@.len())[k as int] != m@[k as int]);
            return false;
        }
        k += 1;
    }
    assert(s@.subrange(i as int, i + m@.len()) =~= m@);
    true
}

/// First position of `m` in `s`.
pub fn chercher(s: &Vec<char>, m: &Vec<char>) -> (r: Option<usize>)
    ensures
        match r {
            Some(i) => premiere(s@, m@) == Some(i as int) && occurrence(s@, m@, i as int),
            None => premiere(s@, m@) is None,
        },
{
    if s.len() < m.len() {
        return None;
    }
    let dernier: usize = s.len() - m.len();
    let mut i: usize = 0;
    while i <= dernier
        invariant
            dernier == s@.len() - m@.len(),
            i <= dernier + 1,
            dernier + 1 <= usize::MAX || i <= dernier,
            forall|j: int| 0 <= j < i ==> !occurrence(s@, m@, j),
        decreases dernier + 1 - i,
    {
        if correspond(s, m, i) {
            proof {
                lemme_premiere(s@, m@, i as int);
            }
            return Some(i);
        }
        if i == dernier {
            return None;
        }
        i += 1;
    }
    None
}

/// Last position of `m` in `s`.
pub fn chercher_dernier(s: &Vec<char>, m: &Vec<char>) -> (r: Option<usize>)
    ensures
        match r {
            Some(i) => derniere(s@, m@) == Some(i as int) && occurrence(s@, m@, i as int),
            None => derniere(s@, m@) is None,
        },
{
    if s.len() < m.len() {
        return None;
    }
    let mut i: usize = s.len() - m.len();
    loop
        invariant
            i <= s@.len() - m@.len(),
            forall|j: int| i < j ==> !occurrence(s@, m@, j),
        decreases i,
    {
        if correspond(s, m, i) {
            proof {
                lemme_derniere(s@, m@, i as int);
            }
            return Some(i);
        }
        if i == 0 {
            return None;
        }
        i -= 1;
    }
}

pub fn contient_motif(s: &Vec<char>, m: &Vec<char>) -> (r: bool)
    ensures
        r == contient(s@, m@),
{
    chercher(s, m).is_some()
}

pub fn debute(s: &Vec<char>, m: &Vec<char>) -> (r: bool)
    ensures
        r == debute_par(s@, m@),
{
    m.len() <= s.len() && correspond(s, m, 0)
}

pub fn finit(s: &Vec<char>, m: &Vec<char>) -> (r: bool)
    ensures
        r == finit_par(s@, m@),
{
    m.len() <= s.len() && correspond(s, m, s.len() - m.len())
}

// ─── Blanks ────────────────────────────────────────────────────────────

/// A blank character: Unicode's `White_Space`.
pub open spec fn blanc(c: char) -> bool {
    let n = c as u32;
    (9 <= n <= 13) || n == 0x20 || n == 0x85 || n == 0xA0 || n == 0x1680 || (0x2000 <= n
        <= 0x200A) || n == 0x2028 || n == 0x2029 || n == 0x202F || n == 0x205F || n == 0x3000
}

pub fn est_blanc(c: char) -> (r: bool)
    ensures
        r == blanc(c),
{
    let n: u32 = c as u32;
    (9 <= n && n <= 13) || n == 0x20 || n == 0x85 || n == 0xA0 || n == 0x1680 || (0x2000 <= n && n
        <= 0x200A) || n == 0x2028 || n == 0x2029 || n == 0x202F || n == 0x205F || n == 0x3000
}

/// Without its leading blanks.
pub open spec fn rogne_debut(s: Seq<char>) -> Seq<char>
    decreases s.len(),
{
    if s.len() > 0 && blanc(s[0]) {
        rogne_debut(s.skip(1))
    } else {
        s
    }
}

/// Without its trailing blanks.
pub open spec fn rogne_fin(s: Seq<char>) -> Seq<char>
    decreases s.len(),
{
    if s.len() > 0 && blanc(s.last()) {
        rogne_fin(s.drop_last())
    } else {
        s
    }
}

/// Without the blanks at either end.
pub open spec fn rogne(s: Seq<char>) -> Seq<char> {
    rogne_fin(rogne_debut(s))
}

pub fn rogner_debut(v: &Vec<char>) -> (r: Vec<char>)
    ensures
        r@ == rogne_debut(v@),
{
    let mut i: usize = 0;
    proof {
        assert(v@.skip(0) =~= v@);
    }
    while i < v.len() && est_blanc(v[i])
        invariant
            i <= v@.len(),
            rogne_debut(v@) == rogne_debut(v@.skip(i as int)),
        decreases v@.len() - i,
    {
        assert(v@.skip(i as int).skip(1) =~= v@.skip(i + 1));
        i += 1;
    }
    assert(v@.skip(i as int) =~= v@.subrange(i as int, v@.len() as int));
    tranche(v, i, v.len())
}

pub fn rogner_fin(v: &Vec<char>) -> (r: Vec<char>)
    ensures
        r@ == rogne_fin(v@),
{
    let mut j: usize = v.len();
    proof {
        assert(v@.take(j as int) =~= v@);
    }
    while j > 0 && est_blanc(v[j - 1])
        invariant
            j <= v@.len(),
            rogne_fin(v@) == rogne_fin(v@.take(j as int)),
        decreases j,
    {
        assert(v@.take(j as int).drop_last() =~= v@.take(j - 1));
        j -= 1;
    }
    assert(v@.take(j as int) =~= v@.subrange(0, j as int));
    tranche(v, 0, j)
}

/// The characters before the first blank.
pub open spec fn tete(s: Seq<char>) -> Seq<char>
    decreases s.len(),
{
    if s.len() > 0 && !blanc(s[0]) {
        seq![s[0]] + tete(s.skip(1))
    } else {
        Seq::empty()
    }
}

/// The characters from position `debut` to the next blank.
pub fn prendre_tete(v: &Vec<char>, debut: usize) -> (r: Vec<char>)
    requires
        debut <= v@.len(),
    ensures
        r@ == tete(v@.skip(debut as int)),
{
    let mut r: Vec<char> = Vec::new();
    let mut i: usize = debut;
    assert(r@ + tete(v@.skip(debut as int)) =~= tete(v@.skip(debut as int)));
    while i < v.len() && !est_blanc(v[i])
        invariant
            debut <= i <= v@.len(),
            tete(v@.skip(debut as int)) == r@ + tete(v@.skip(i as int)),
        decreases v@.len() - i,
    {
        let ghost avant = r@;
        r.push(v[i]);
        assert(v@.skip(i as int).skip(1) =~= v@.skip(i + 1));
        assert(avant + tete(v@.skip(i as int)) =~= r@ + tete(v@.skip(i + 1)));
        i += 1;
    }
    assert(tete(v@.skip(i as int)) =~= Seq::<char>::empty());
    assert(r@ =~= tete(v@.skip(debut as int)));
    r
}

pub fn rogner(v: &Vec<char>) -> (r: Vec<char>)
    ensures
        r@ == rogne(v@),
{
    rogner_fin(&rogner_debut(v))
}

/// Without the characters `c` at either end.
pub open spec fn sans_bords(s: Seq<char>, c: char) -> Seq<char>
    decreases s.len(),
{
    if s.len() > 0 && s[0] == c {
        sans_bords(s.skip(1), c)
    } else if s.len() > 0 && s.last() == c {
        sans_bords(s.drop_last(), c)
    } else {
        s
    }
}

pub fn oter_bords(v: &Vec<char>, c: char) -> (r: Vec<char>)
    ensures
        r@ == sans_bords(v@, c),
{
    let mut i: usize = 0;
    let mut j: usize = v.len();
    assert(v@.subrange(0, v@.len() as int) =~= v@);
    while i < j && (v[i] == c || v[j - 1] == c)
        invariant
            i <= j <= v@.len(),
            sans_bords(v@, c) == sans_bords(v@.subrange(i as int, j as int), c),
        decreases j - i,
    {
        let ghost ici = v@.subrange(i as int, j as int);
        if v[i] == c {
            assert(ici.skip(1) =~= v@.subrange(i + 1, j as int));
            i += 1;
        } else {
            assert(ici.drop_last() =~= v@.subrange(i as int, j - 1));
            j -= 1;
        }
    }
    tranche(v, i, j)
}

// ─── Case ──────────────────────────────────────────────────────────────

/// The lower case of an ASCII letter; another character as it is.
pub open spec fn minuscule(c: char) -> char {
    if 'A' <= c && c <= 'Z' {
        (c as u8 + 32) as char
    } else {
        c
    }
}

/// Every character in lower case.
pub open spec fn minuscules(s: Seq<char>) -> Seq<char> {
    s.map_values(|c: char| minuscule(c))
}

fn en_minuscule(c: char) -> (r: char)
    ensures
        r == minuscule(c),
{
    if 'A' <= c && c <= 'Z' {
        (c as u8 + 32) as char
    } else {
        c
    }
}

pub fn en_minuscules(v: &Vec<char>) -> (r: Vec<char>)
    ensures
        r@ == minuscules(v@),
{
    let mut r: Vec<char> = Vec::new();
    let mut i: usize = 0;
    while i < v.len()
        invariant
            i <= v@.len(),
            r@.len() == i,
            forall|k: int| 0 <= k < i ==> #[trigger] r@[k] == minuscule(v@[k]),
        decreases v@.len() - i,
    {
        r.push(en_minuscule(v[i]));
        i += 1;
    }
    assert(r@ =~= minuscules(v@));
    r
}

// ─── Lines and fields ──────────────────────────────────────────────────

/// A line that was ended by a line feed, without the carriage return that
/// may stand before it.
pub open spec fn sans_retour(l: Seq<char>) -> Seq<char> {
    if l.len() > 0 && l.last() == '\r' {
        l.drop_last()
    } else {
        l
    }
}

/// The lines of a text. A line ends with a line feed, or a carriage return
/// and a line feed; the last line may lack its end, and is then kept whole.
pub open spec fn lignes(s: Seq<char>) -> Seq<Seq<char>>
    decreases s.len(),
{
    if s.len() == 0 {
        Seq::empty()
    } else {
        match saut(s, '\n') {
            None => seq![s],
            Some(i) => if 0 <= i < s.len() {
                seq![sans_retour(s.take(i))] + lignes(s.skip(i + 1))
            } else {
                Seq::empty()
            },
        }
    }
}

/// The pieces of a text between the characters `c`.
pub open spec fn champs(s: Seq<char>, c: char) -> Seq<Seq<char>>
    decreases s.len(),
{
    match saut(s, c) {
        None => seq![s],
        Some(i) => if 0 <= i < s.len() {
            seq![s.take(i)] + champs(s.skip(i + 1), c)
        } else {
            Seq::empty()
        },
    }
}

/// The first position of a character.
pub open spec fn saut(s: Seq<char>, c: char) -> Option<int> {
    premiere(s, seq![c])
}

/// The first position of a character, among those from `debut` on.
pub fn chercher_saut(v: &Vec<char>, c: char, debut: usize) -> (r: Option<usize>)
    requires
        debut <= v@.len(),
    ensures
        match r {
            Some(i) => debut <= i < v@.len() && saut(v@.skip(debut as int), c) == Some(i - debut),
            None => saut(v@.skip(debut as int), c) is None,
        },
{
    let ghost reste = v@.skip(debut as int);
    let mut i: usize = debut;
    while i < v.len()
        invariant
            debut <= i <= v@.len(),
            reste == v@.skip(debut as int),
            forall|j: int| 0 <= j < i - debut ==> reste[j] != c,
        decreases v@.len() - i,
    {
        if v[i] == c {
            proof {
                let k = i - debut;
                assert(reste.subrange(k, k + 1) =~= seq![c]);
                assert forall|j: int| 0 <= j < k implies !occurrence(reste, seq![c], j) by {
                    assert(reste.subrange(j, j + 1)[0] == reste[j]);
                }
                lemme_premiere(reste, seq![c], k);
            }
            return Some(i);
        }
        i += 1;
    }
    proof {
        assert forall|j: int| !occurrence(reste, seq![c], j) by {
            if occurrence(reste, seq![c], j) {
                assert(reste.subrange(j, j + 1)[0] == reste[j]);
            }
        }
    }
    None
}

/// The views of a list of character lists.
pub open spec fn vues_car(v: Seq<Vec<char>>) -> Seq<Seq<char>> {
    v.map_values(|s: Vec<char>| s@)
}

pub fn en_lignes(v: &Vec<char>) -> (r: Vec<Vec<char>>)
    ensures
        vues_car(r@) == lignes(v@),
{
    let mut r: Vec<Vec<char>> = Vec::new();
    let mut i: usize = 0;
    proof {
        assert(v@.skip(0) =~= v@);
    }
    while i < v.len()
        invariant
            i <= v@.len(),
            lignes(v@) == vues_car(r@) + lignes(v@.skip(i as int)),
        decreases v@.len() - i,
    {
        let ghost reste = v@.skip(i as int);
        match chercher_saut(v, '\n', i) {
            None => {
                let l = tranche(v, i, v.len());
                assert(l@ =~= reste);
                let ghost avant = r@;
                r.push(l);
                assert(vues_car(r@) =~= vues_car(avant).push(l@));
                assert(lignes(v@) =~= vues_car(r@));
                return r;
            },
            Some(j) => {
                let mut fin: usize = j;
                if j > i && v[j - 1] == '\r' {
                    fin = j - 1;
                }
                let l = tranche(v, i, fin);
                assert(l@ =~= sans_retour(reste.take(j - i)));
                let ghost avant = r@;
                r.push(l);
                assert(vues_car(r@) =~= vues_car(avant).push(l@));
                assert(reste.skip(j - i + 1) =~= v@.skip(j + 1));
                assert(lignes(v@) =~= vues_car(r@) + lignes(v@.skip(j + 1)));
                i = j + 1;
            },
        }
    }
    assert(lignes(v@.skip(i as int)) =~= Seq::<Seq<char>>::empty());
    assert(lignes(v@) =~= vues_car(r@));
    r
}

pub fn decouper(v: &Vec<char>, c: char) -> (r: Vec<Vec<char>>)
    ensures
        vues_car(r@) == champs(v@, c),
        r@.len() > 0,
{
    let mut r: Vec<Vec<char>> = Vec::new();
    let mut i: usize = 0;
    proof {
        assert(v@.skip(0) =~= v@);
        assert(vues_car(r@) + champs(v@, c) =~= champs(v@, c));
    }
    loop
        invariant
            i <= v.len(),
            champs(v@, c) == vues_car(r@) + champs(v@.skip(i as int), c),
        decreases v@.len() + 1 - i,
    {
        let ghost reste = v@.skip(i as int);
        match chercher_saut(v, c, i) {
            None => {
                let l = tranche(v, i, v.len());
                assert(l@ =~= reste);
                let ghost avant = r@;
                r.push(l);
                assert(vues_car(r@) =~= vues_car(avant).push(l@));
                assert(champs(v@, c) =~= vues_car(r@));
                return r;
            },
            Some(j) => {
                let l = tranche(v, i, j);
                assert(l@ =~= reste.take(j - i));
                let ghost avant = r@;
                r.push(l);
                assert(vues_car(r@) =~= vues_car(avant).push(l@));
                assert(reste.skip(j - i + 1) =~= v@.skip(j + 1));
                assert(champs(v@, c) =~= vues_car(r@) + champs(v@.skip(j + 1), c));
                i = j + 1;
            },
        }
    }
}

/// Every character `c` replaced by `par`.
pub open spec fn remplace(s: Seq<char>, c: char, par: Seq<char>) -> Seq<char>
    decreases s.len(),
{
    if s.len() == 0 {
        Seq::empty()
    } else {
        remplace(s.drop_last(), c, par) + (if s.last() == c {
            par
        } else {
            seq![s.last()]
        })
    }
}

pub fn remplacer(v: &Vec<char>, c: char, par: &Vec<char>) -> (r: Vec<char>)
    ensures
        r@ == remplace(v@, c, par@),
{
    let mut r: Vec<char> = Vec::new();
    let mut i: usize = 0;
    while i < v.len()
        invariant
            i <= v@.len(),
            r@ == remplace(v@.take(i as int), c, par@),
        decreases v@.len() - i,
    {
        assert(v@.take(i + 1).drop_last() =~= v@.take(i as int));
        if v[i] == c {
            let ghost avant = r@;
            let mut k: usize = 0;
            while k < par.len()
                invariant
                    k <= par@.len(),
                    r@ == avant + par@.take(k as int),
                decreases par@.len() - k,
            {
                r.push(par[k]);
                assert(par@.take(k + 1) =~= par@.take(k as int).push(par@[k as int]));
                k += 1;
            }
            assert(par@.take(par@.len() as int) =~= par@);
        } else {
            r.push(v[i]);
        }
        assert(r@ =~= remplace(v@.take(i + 1), c, par@));
        i += 1;
    }
    assert(v@.take(v@.len() as int) =~= v@);
    r
}

/// The last `n` characters, or all of them when there are fewer.
pub open spec fn queue(s: Seq<char>, n: nat) -> Seq<char> {
    if s.len() <= n {
        s
    } else {
        s.skip(s.len() - n)
    }
}

pub fn prendre_fin(s: &str, n: usize) -> (r: String)
    ensures
        r@ == queue(s@, n as nat),
{
    let v = caracteres(s);
    let debut: usize = if v.len() <= n {
        0
    } else {
        v.len() - n
    };
    let fin = tranche(&v, debut, v.len());
    assert(fin@ =~= queue(s@, n as nat));
    en_texte(&fin)
}

// ─── Numbers ───────────────────────────────────────────────────────────

/// The character of a decimal digit.
pub open spec fn chiffre(d: nat) -> char {
    (48 + d) as char
}

/// The decimal writing of a number, without leading zeros.
pub open spec fn decimal(n: nat) -> Seq<char>
    decreases n,
{
    if n < 10 {
        seq![chiffre(n)]
    } else {
        decimal(n / 10).push(chiffre(n % 10))
    }
}

/// The decimal writing of a signed number.
pub open spec fn decimal_signe(n: int) -> Seq<char> {
    if n < 0 {
        seq!['-'] + decimal((-n) as nat)
    } else {
        decimal(n as nat)
    }
}

/// Zeros, as many as `n`, none if `n` is negative.
pub open spec fn zeros(n: int) -> Seq<char> {
    Seq::new(
        if n < 0 {
            0
        } else {
            n as nat
        },
        |i: int| '0',
    )
}

/// A number written over at least `largeur` characters, the sign included,
/// with zeros between the sign and the digits.
pub open spec fn cadre(n: int, largeur: nat) -> Seq<char> {
    if n < 0 {
        let d = decimal((-n) as nat);
        seq!['-'] + zeros(largeur - 1 - d.len()) + d
    } else {
        let d = decimal(n as nat);
        zeros(largeur - d.len()) + d
    }
}

/// A decimal writing is made of digits, and reads back as the number.
pub proof fn lemme_decimal_relu(n: nat)
    ensures
        numerique(decimal(n)),
        valeur(decimal(n)) == n,
    decreases n,
{
    if n < 10 {
        let s = decimal(n);
        reveal_with_fuel(valeur, 2);
        assert(s.drop_last() =~= Seq::<char>::empty());
        assert(s.last() as u32 == 48 + n);
    } else {
        lemme_decimal_relu(n / 10);
        let s = decimal(n);
        assert(s.drop_last() =~= decimal(n / 10));
        assert(s.last() as u32 == 48 + n % 10);
        assert forall|i: int| 0 <= i < s.len() implies est_chiffre(#[trigger] s[i]) by {
            if i < s.len() - 1 {
                assert(s[i] == decimal(n / 10)[i]);
            }
        }
    }
}

proof fn lemme_zeros_devant(k: int, d: Seq<char>)
    ensures
        valeur(zeros(k) + d) == valeur(d),
    decreases d.len(), k,
{
    let s = zeros(k) + d;
    if d.len() > 0 {
        assert(s.drop_last() =~= zeros(k) + d.drop_last());
        lemme_zeros_devant(k, d.drop_last());
    } else if k > 0 {
        assert(s.drop_last() =~= zeros(k - 1) + d);
        lemme_zeros_devant(k - 1, d);
    } else {
        assert(s =~= d);
    }
}

/// Digits are the head of what they start, up to the first other character.
pub proof fn lemme_tete_numerique(chiffres: Seq<char>, suite: Seq<char>)
    requires
        forall|i: int| 0 <= i < chiffres.len() ==> est_chiffre(#[trigger] chiffres[i]),
        suite.len() > 0 ==> !est_chiffre(suite[0]),
    ensures
        tete_numerique(chiffres + suite) == chiffres,
    decreases chiffres.len(),
{
    let s = chiffres + suite;
    if chiffres.len() > 0 {
        assert(est_chiffre(chiffres[0]));
        assert(s.skip(1) =~= chiffres.skip(1) + suite);
        lemme_tete_numerique(chiffres.skip(1), suite);
        assert(seq![s[0]] + chiffres.skip(1) =~= chiffres);
    } else {
        assert(s =~= suite);
        assert(tete_numerique(s) =~= chiffres);
    }
}

/// A number that is not below zero, written over a width, is made of digits
/// and reads back.
pub proof fn lemme_cadre_relu(n: nat, largeur: nat)
    ensures
        numerique(cadre(n as int, largeur)),
        valeur(cadre(n as int, largeur)) == n,
{
    lemme_decimal_relu(n);
    let d = decimal(n);
    let z = zeros(largeur - d.len());
    assert forall|i: int| 0 <= i < (z + d).len() implies est_chiffre(#[trigger] (z + d)[i]) by {
        if i >= z.len() {
            assert(est_chiffre(d[i - z.len()]));
        }
    }
    lemme_zeros_devant(largeur - d.len(), d);
}

fn caractere_chiffre(d: u64) -> (r: char)
    requires
        d < 10,
    ensures
        r == chiffre(d as nat),
{
    (48 + d as u8) as char
}

/// The decimal digits of a number.
pub fn chiffres_de(n: u64) -> (r: Vec<char>)
    ensures
        r@ == decimal(n as nat),
    decreases n,
{
    if n < 10 {
        let mut r: Vec<char> = Vec::new();
        r.push(caractere_chiffre(n));
        assert(r@ =~= decimal(n as nat));
        r
    } else {
        let mut r = chiffres_de(n / 10);
        r.push(caractere_chiffre(n % 10));
        r
    }
}

/// `{}` of an unsigned number.
pub fn ecrire(n: u64) -> (r: String)
    ensures
        r@ == decimal(n as nat),
{
    en_texte(&chiffres_de(n))
}

/// `{}` of a signed number.
pub fn ecrire_signe(n: i64) -> (r: String)
    ensures
        r@ == decimal_signe(n as int),
{
    let r = ecrire_cadre(n, 0);
    assert(r@ =~= decimal_signe(n as int)) by {
        let d = if n < 0 {
            decimal((-n) as nat)
        } else {
            decimal(n as nat)
        };
        assert(zeros(0 - d.len()) =~= Seq::<char>::empty());
        assert(zeros(0 - 1 - d.len()) =~= Seq::<char>::empty());
    }
    r
}

/// `{:0largeur}` of a signed number.
pub fn ecrire_cadre(n: i64, largeur: usize) -> (r: String)
    ensures
        r@ == cadre(n as int, largeur as nat),
{
    let mut r: Vec<char> = Vec::new();
    let mut place: usize = largeur;
    let valeur: u64 = if n == i64::MIN {
        0x8000_0000_0000_0000
    } else if n < 0 {
        (-n) as u64
    } else {
        n as u64
    };
    if n < 0 {
        r.push('-');
        if place > 0 {
            place -= 1;
        }
    }
    let d = chiffres_de(valeur);
    let ghost signe = r@;
    let mut k: usize = d.len();
    let ghost vide = place - d@.len();
    assert(r@ =~= signe + zeros(0));
    while k < place
        invariant
            d@.len() <= k,
            k <= place || k == d@.len(),
            r@ == signe + zeros(k - d@.len()),
        decreases place - k,
    {
        r.push('0');
        k += 1;
        assert(r@ =~= signe + zeros(k - d@.len()));
    }
    assert(zeros(k - d@.len()) =~= zeros(vide));
    let ghost tete = r@;
    let mut i: usize = 0;
    while i < d.len()
        invariant
            i <= d@.len(),
            r@ == tete + d@.take(i as int),
        decreases d@.len() - i,
    {
        r.push(d[i]);
        assert(d@.take(i + 1) =~= d@.take(i as int).push(d@[i as int]));
        i += 1;
    }
    assert(d@.take(d@.len() as int) =~= d@);
    assert(r@ =~= cadre(n as int, largeur as nat)) by {
        if n < 0 {
            assert(zeros(largeur - 1 - d@.len()) =~= zeros(vide));
        } else {
            assert(signe =~= Seq::<char>::empty());
        }
    }
    en_texte(&r)
}

/// A decimal digit.
pub open spec fn est_chiffre(c: char) -> bool {
    48 <= c as u32 <= 57
}

/// Only digits, and at least one.
pub open spec fn numerique(s: Seq<char>) -> bool {
    s.len() > 0 && forall|i: int| 0 <= i < s.len() ==> est_chiffre(#[trigger] s[i])
}

/// The number that a sequence of digits writes.
pub open spec fn valeur(s: Seq<char>) -> nat
    decreases s.len(),
{
    if s.len() == 0 {
        0
    } else {
        (valeur(s.drop_last()) * 10 + (s.last() as u32 - 48)) as nat
    }
}

/// What is left of a number once an optional plus sign is taken off.
pub open spec fn sans_plus(s: Seq<char>) -> Seq<char> {
    if s.len() > 0 && s[0] == '+' {
        s.skip(1)
    } else {
        s
    }
}

/// The unsigned number that a text writes, if it writes one and it does not
/// exceed `max`.
pub open spec fn lecture(s: Seq<char>, max: nat) -> Option<nat> {
    let d = sans_plus(s);
    if numerique(d) && valeur(d) <= max {
        Some(valeur(d))
    } else {
        None
    }
}

/// The digits at the head of a text.
pub open spec fn tete_numerique(s: Seq<char>) -> Seq<char>
    decreases s.len(),
{
    if s.len() > 0 && est_chiffre(s[0]) {
        seq![s[0]] + tete_numerique(s.skip(1))
    } else {
        Seq::empty()
    }
}

/// The digits at the head of what follows position `debut`.
pub fn prendre_chiffres(v: &Vec<char>, debut: usize) -> (r: Vec<char>)
    requires
        debut <= v@.len(),
    ensures
        r@ == tete_numerique(v@.skip(debut as int)),
        forall|k: int| 0 <= k < r@.len() ==> est_chiffre(#[trigger] r@[k]),
{
    let mut r: Vec<char> = Vec::new();
    let mut i: usize = debut;
    assert(r@ + tete_numerique(v@.skip(debut as int)) =~= tete_numerique(v@.skip(debut as int)));
    while i < v.len() && 48 <= v[i] as u32 && v[i] as u32 <= 57
        invariant
            debut <= i <= v@.len(),
            forall|k: int| 0 <= k < r@.len() ==> est_chiffre(#[trigger] r@[k]),
            tete_numerique(v@.skip(debut as int)) == r@ + tete_numerique(v@.skip(i as int)),
        decreases v@.len() - i,
    {
        let ghost avant = r@;
        r.push(v[i]);
        assert(v@.skip(i as int).skip(1) =~= v@.skip(i + 1));
        assert(avant + tete_numerique(v@.skip(i as int)) =~= r@ + tete_numerique(v@.skip(i + 1)));
        i += 1;
    }
    assert(r@ + Seq::<char>::empty() =~= r@);
    r
}

proof fn lemme_valeur_croit(s: Seq<char>, k: int)
    requires
        0 <= k <= s.len(),
        numerique(s),
    ensures
        valeur(s.take(k)) <= valeur(s),
    decreases s.len() - k,
{
    if k == s.len() {
        assert(s.take(k) =~= s);
    } else {
        assert(s.take(k + 1).drop_last() =~= s.take(k));
        assert(est_chiffre(s[k]));
        assert(s.take(k + 1).last() == s[k]);
        lemme_valeur_croit(s, k + 1);
    }
}

/// Reads an unsigned number no greater than `max`.
pub fn lire(v: &Vec<char>, max: u64) -> (r: Option<u64>)
    ensures
        match r {
            Some(n) => lecture(v@, max as nat) == Some(n as nat),
            None => lecture(v@, max as nat) is None,
        },
{
    let debut: usize = if v.len() > 0 && v[0] == '+' {
        1
    } else {
        0
    };
    let d = tranche(v, debut, v.len());
    assert(d@ =~= sans_plus(v@));
    if d.len() == 0 {
        return None;
    }
    let mut i: usize = 0;
    while i < d.len()
        invariant
            i <= d@.len(),
            d@ == sans_plus(v@),
            forall|k: int| 0 <= k < i ==> est_chiffre(#[trigger] d@[k]),
        decreases d@.len() - i,
    {
        let c: u32 = d[i] as u32;
        if c < 48 || 57 < c {
            assert(!est_chiffre(d@[i as int]));
            return None;
        }
        i += 1;
    }
    let mut n: u64 = 0;
    i = 0;
    while i < d.len()
        invariant
            i <= d@.len(),
            numerique(d@),
            d@ == sans_plus(v@),
            n == valeur(d@.take(i as int)),
            n <= max,
        decreases d@.len() - i,
    {
        assert(d@.take(i + 1).drop_last() =~= d@.take(i as int));
        assert(d@.take(i + 1).last() == d@[i as int]);
        assert(est_chiffre(d@[i as int]));
        proof {
            lemme_valeur_croit(d@, i + 1);
        }
        let code: u32 = d[i] as u32;
        let c: u64 = (code - 48) as u64;
        let suivant: u128 = n as u128 * 10 + c as u128;
        if suivant > max as u128 {
            return None;
        }
        n = suivant as u64;
        i += 1;
    }
    assert(d@.take(d@.len() as int) =~= d@);
    Some(n)
}

// ─── Order ─────────────────────────────────────────────────────────────

/// `a` comes before `b` in the order of their characters' codes. It is also
/// the order of their bytes in UTF-8.
pub open spec fn avant(a: Seq<char>, b: Seq<char>) -> bool
    decreases a.len(),
{
    if b.len() == 0 {
        false
    } else if a.len() == 0 {
        true
    } else if a[0] == b[0] {
        avant(a.skip(1), b.skip(1))
    } else {
        (a[0] as int) < (b[0] as int)
    }
}

/// A path comes before another: by its first component that differs, or
/// because it ends sooner.
pub open spec fn chemin_avant(a: Seq<Seq<char>>, b: Seq<Seq<char>>) -> bool
    decreases a.len(),
{
    if b.len() == 0 {
        false
    } else if a.len() == 0 {
        true
    } else if a[0] == b[0] {
        chemin_avant(a.skip(1), b.skip(1))
    } else {
        avant(a[0], b[0])
    }
}

proof fn lemme_avant(a: Seq<char>, b: Seq<char>, c: Seq<char>)
    ensures
        !avant(a, a),
        avant(a, b) && avant(b, c) ==> avant(a, c),
        !avant(a, b) && !avant(b, a) ==> a == b,
    decreases a.len(),
{
    if a.len() > 0 {
        lemme_avant(
            a.skip(1),
            if b.len() > 0 {
                b.skip(1)
            } else {
                b
            },
            if c.len() > 0 {
                c.skip(1)
            } else {
                c
            },
        );
        if b.len() > 0 && !avant(a, b) && !avant(b, a) {
            assert(a[0] == b[0]) by {
                assert(a[0] as int == b[0] as int);
            }
            assert(a.skip(1) == b.skip(1));
            assert(a =~= seq![a[0]] + a.skip(1));
            assert(b =~= seq![b[0]] + b.skip(1));
        }
    } else if b.len() == 0 {
        assert(a =~= b);
    }
}

proof fn lemme_chemin_avant(a: Seq<Seq<char>>, b: Seq<Seq<char>>, c: Seq<Seq<char>>)
    ensures
        !chemin_avant(a, a),
        chemin_avant(a, b) && chemin_avant(b, c) ==> chemin_avant(a, c),
    decreases a.len(),
{
    if a.len() > 0 && b.len() > 0 && c.len() > 0 {
        lemme_chemin_avant(a.skip(1), b.skip(1), c.skip(1));
        lemme_avant(a[0], b[0], c[0]);
        lemme_avant(a[0], c[0], a[0]);
        lemme_avant(b[0], a[0], b[0]);
    } else if a.len() > 0 {
        lemme_chemin_avant(a.skip(1), a.skip(1), a.skip(1));
    }
}

fn code(c: char) -> (r: u32)
    ensures
        r as int == c as int,
{
    c as u32
}

fn est_avant(a: &Vec<char>, b: &Vec<char>) -> (r: bool)
    ensures
        r == avant(a@, b@),
{
    let mut i: usize = 0;
    assert(a@.skip(0) =~= a@ && b@.skip(0) =~= b@);
    while i < a.len() && i < b.len()
        invariant
            i <= a@.len(),
            i <= b@.len(),
            avant(a@, b@) == avant(a@.skip(i as int), b@.skip(i as int)),
        decreases a@.len() - i,
    {
        if a[i] != b[i] {
            return code(a[i]) < code(b[i]);
        }
        assert(a@.skip(i as int).skip(1) =~= a@.skip(i + 1));
        assert(b@.skip(i as int).skip(1) =~= b@.skip(i + 1));
        i += 1;
    }
    i < b.len()
}

fn est_chemin_avant(a: &Vec<Vec<char>>, b: &Vec<Vec<char>>) -> (r: bool)
    ensures
        r == chemin_avant(vues_car(a@), vues_car(b@)),
{
    let ghost va = vues_car(a@);
    let ghost vb = vues_car(b@);
    let mut i: usize = 0;
    assert(va.skip(0) =~= va && vb.skip(0) =~= vb);
    while i < a.len() && i < b.len()
        invariant
            i <= a@.len(),
            i <= b@.len(),
            va == vues_car(a@),
            vb == vues_car(b@),
            chemin_avant(va, vb) == chemin_avant(va.skip(i as int), vb.skip(i as int)),
        decreases a@.len() - i,
    {
        assert(va.skip(i as int)[0] == a@[i as int]@);
        assert(vb.skip(i as int)[0] == b@[i as int]@);
        proof {
            lemme_avant(a@[i as int]@, b@[i as int]@, a@[i as int]@);
        }
        if est_avant(&a[i], &b[i]) {
            return true;
        }
        if est_avant(&b[i], &a[i]) {
            proof {
                lemme_avant(b@[i as int]@, a@[i as int]@, b@[i as int]@);
            }
            return false;
        }
        assert(va.skip(i as int).skip(1) =~= va.skip(i + 1));
        assert(vb.skip(i as int).skip(1) =~= vb.skip(i + 1));
        i += 1;
    }
    i < b.len()
}

/// The paths, as lists of components.
pub open spec fn chemins_vus(v: Seq<Vec<String>>) -> Seq<Seq<Seq<char>>> {
    v.map_values(|c: Vec<String>| vues(c@))
}

/// `ordre` lists the ranks retained, each once, and sorts the paths at these
/// ranks.
pub open spec fn trie(chemins: Seq<Seq<Seq<char>>>, retenus: Seq<bool>, ordre: Seq<usize>) -> bool {
    &&& forall|k: int|
        0 <= k < ordre.len() ==> (#[trigger] ordre[k]) < retenus.len() && retenus[ordre[k] as int]
    &&& forall|i: int|
        0 <= i < retenus.len() && #[trigger] retenus[i] ==> exists|k: int|
            0 <= k < ordre.len() && #[trigger] ordre[k] == i
    &&& forall|k: int, m: int|
        0 <= k < m < ordre.len() ==> #[trigger] ordre[k] != #[trigger] ordre[m] && !chemin_avant(
            chemins[ordre[m] as int],
            chemins[ordre[k] as int],
        )
}

fn en_composants(c: &Vec<String>) -> (r: Vec<Vec<char>>)
    ensures
        vues_car(r@) == vues(c@),
{
    let mut r: Vec<Vec<char>> = Vec::new();
    let mut i: usize = 0;
    while i < c.len()
        invariant
            i <= c@.len(),
            r@.len() == i,
            forall|k: int| 0 <= k < i ==> (#[trigger] r@[k])@ == c@[k]@,
        decreases c@.len() - i,
    {
        r.push(caracteres(c[i].as_str()));
        i += 1;
    }
    assert(vues_car(r@) =~= vues(c@));
    r
}

/// The ranks of the paths retained, in the order of the paths.
pub fn trier(chemins: &Vec<Vec<String>>, retenus: &Vec<bool>) -> (r: Vec<usize>)
    requires
        chemins@.len() == retenus@.len(),
    ensures
        trie(chemins_vus(chemins@), retenus@, r@),
{
    let ghost vus = chemins_vus(chemins@);
    let mut cles: Vec<Vec<Vec<char>>> = Vec::new();
    let mut n: usize = 0;
    while n < chemins.len()
        invariant
            n <= chemins@.len(),
            cles@.len() == n,
            vus == chemins_vus(chemins@),
            forall|k: int| 0 <= k < n ==> vues_car((#[trigger] cles@[k])@) == vus[k],
        decreases chemins@.len() - n,
    {
        cles.push(en_composants(&chemins[n]));
        n += 1;
    }
    let mut r: Vec<usize> = Vec::new();
    let mut i: usize = 0;
    while i < chemins.len()
        invariant
            i <= chemins@.len() == retenus@.len(),
            cles@.len() == chemins@.len() == vus.len(),
            forall|k: int| 0 <= k < cles@.len() ==> vues_car((#[trigger] cles@[k])@) == vus[k],
            r@.len() <= i,
            trie(vus, retenus@.take(i as int), r@),
        decreases chemins@.len() - i,
    {
        let ghost t = retenus@.take(i as int);
        let ghost u = retenus@.take(i + 1);
        let ghost avant_ici = r@;
        if retenus[i] {
            let mut bas: usize = 0;
            let mut haut: usize = r.len();
            while bas < haut
                invariant
                    i < chemins@.len(),
                    r@ == avant_ici,
                    cles@.len() == chemins@.len() == vus.len(),
                    forall|k: int|
                        0 <= k < cles@.len() ==> vues_car((#[trigger] cles@[k])@) == vus[k],
                    t.len() == i,
                    trie(vus, t, r@),
                    bas <= haut <= r@.len(),
                    forall|k: int|
                        0 <= k < bas ==> !chemin_avant(vus[i as int], vus[#[trigger] r@[k] as int]),
                    forall|k: int|
                        haut <= k < r@.len() ==> chemin_avant(
                            vus[i as int],
                            vus[#[trigger] r@[k] as int],
                        ),
                decreases haut - bas,
            {
                let milieu: usize = bas + (haut - bas) / 2;
                assert(r@[milieu as int] < t.len());
                if est_chemin_avant(&cles[i], &cles[r[milieu]]) {
                    proof {
                        assert forall|k: int| milieu <= k < r@.len() implies chemin_avant(
                            vus[i as int],
                            vus[#[trigger] r@[k] as int],
                        ) by {
                            if k > milieu {
                                lemme_ordre_garde(
                                    vus[i as int],
                                    vus[r@[milieu as int] as int],
                                    vus[r@[k] as int],
                                );
                            }
                        }
                    }
                    haut = milieu;
                } else {
                    proof {
                        assert forall|k: int| 0 <= k <= milieu implies !chemin_avant(
                            vus[i as int],
                            vus[#[trigger] r@[k] as int],
                        ) by {
                            if k < milieu {
                                lemme_ordre_garde(
                                    vus[i as int],
                                    vus[r@[k] as int],
                                    vus[r@[milieu as int] as int],
                                );
                            }
                        }
                    }
                    bas = milieu + 1;
                }
            }
            r.insert(bas, i);
            proof {
                lemme_insertion(vus, t, u, avant_ici, r@, bas as int, i);
            }
        } else {
            proof {
                assert forall|j: int| 0 <= j < u.len() && #[trigger] u[j] implies exists|k: int|
                    0 <= k < r@.len() && #[trigger] r@[k] == j by {
                    assert(t[j]);
                }
                assert forall|k: int| 0 <= k < r@.len() implies (#[trigger] r@[k]) < u.len()
                    && u[r@[k] as int] by {
                    assert(t[r@[k] as int]);
                }
            }
        }
        i += 1;
    }
    assert(retenus@.take(retenus@.len() as int) =~= retenus@);
    r
}

/// Between `x` and two paths in order: if `x` comes before the first it comes
/// before the second.
proof fn lemme_ordre_garde(x: Seq<Seq<char>>, a: Seq<Seq<char>>, b: Seq<Seq<char>>)
    requires
        !chemin_avant(b, a),
    ensures
        chemin_avant(x, a) ==> chemin_avant(x, b),
{
    if chemin_avant(x, a) && !chemin_avant(x, b) {
        lemme_chemin_total(x, b);
        if chemin_avant(b, x) {
            lemme_chemin_avant(b, x, a);
        }
    }
}

/// Two paths are in order one way or the other, or are the same.
proof fn lemme_chemin_total(a: Seq<Seq<char>>, b: Seq<Seq<char>>)
    ensures
        chemin_avant(a, b) || chemin_avant(b, a) || a == b,
    decreases a.len(),
{
    if a.len() > 0 && b.len() > 0 {
        lemme_avant(a[0], b[0], a[0]);
        lemme_avant(b[0], a[0], b[0]);
        if a[0] == b[0] {
            lemme_chemin_total(a.skip(1), b.skip(1));
            if a.skip(1) == b.skip(1) {
                assert(a =~= seq![a[0]] + a.skip(1));
                assert(b =~= seq![b[0]] + b.skip(1));
            }
        }
    } else if a.len() == 0 && b.len() == 0 {
        assert(a =~= b);
    }
}

proof fn lemme_insertion(
    vus: Seq<Seq<Seq<char>>>,
    t: Seq<bool>,
    u: Seq<bool>,
    s: Seq<usize>,
    r: Seq<usize>,
    p: int,
    i: usize,
)
    requires
        trie(vus, t, s),
        t.len() == i,
        u.len() == i + 1,
        forall|j: int| 0 <= j < i ==> #[trigger] u[j] == t[j],
        u[i as int],
        0 <= p <= s.len(),
        r == s.insert(p, i),
        forall|k: int| 0 <= k < p ==> !chemin_avant(vus[i as int], vus[#[trigger] s[k] as int]),
        forall|k: int| p <= k < s.len() ==> chemin_avant(vus[i as int], vus[#[trigger] s[k] as int]),
    ensures
        trie(vus, u, r),
{
    assert forall|k: int| 0 <= k < r.len() implies (#[trigger] r[k]) < u.len() && u[r[k] as int] by {
        if k < p {
            assert(r[k] == s[k]);
        } else if k > p {
            assert(r[k] == s[k - 1]);
        }
    }
    assert forall|j: int| 0 <= j < u.len() && #[trigger] u[j] implies exists|k: int|
        0 <= k < r.len() && #[trigger] r[k] == j by {
        if j == i {
            assert(r[p] == j);
        } else {
            assert(t[j]);
            let k = choose|k: int| 0 <= k < s.len() && #[trigger] s[k] == j;
            if k < p {
                assert(r[k] == j);
            } else {
                assert(r[k + 1] == j);
            }
        }
    }
    assert forall|k: int, m: int| 0 <= k < m < r.len() implies #[trigger] r[k] != #[trigger] r[m]
        && !chemin_avant(vus[r[m] as int], vus[r[k] as int]) by {
        let a = if k < p {
            s[k]
        } else if k > p {
            s[k - 1]
        } else {
            i
        };
        let b = if m < p {
            s[m]
        } else if m > p {
            s[m - 1]
        } else {
            i
        };
        assert(r[k] == a && r[m] == b);
        if k == p {
            lemme_chemin_avant(vus[b as int], vus[i as int], vus[b as int]);
        }
    }
}

// ─── Order of numbers written over a fixed width ───────────────────────

/// Ten to the power `n`.
pub open spec fn puissance10(n: nat) -> nat
    decreases n,
{
    if n == 0 {
        1
    } else {
        10 * puissance10((n - 1) as nat)
    }
}

/// The last `w` digits of a number.
spec fn fixe(n: nat, w: nat) -> Seq<char>
    decreases w,
{
    if w == 0 {
        Seq::empty()
    } else {
        fixe(n / 10, (w - 1) as nat).push(chiffre(n % 10))
    }
}

proof fn lemme_fixe_zero(w: nat)
    ensures
        fixe(0, w) == zeros(w as int),
    decreases w,
{
    if w > 0 {
        lemme_fixe_zero((w - 1) as nat);
        assert(fixe(0, w) =~= zeros(w as int));
    } else {
        assert(fixe(0, w) =~= zeros(0));
    }
}

proof fn lemme_cadre_fixe(n: nat, w: nat)
    requires
        1 <= w,
        n < puissance10(w),
    ensures
        cadre(n as int, w) == fixe(n, w),
        decimal(n).len() <= w,
        fixe(n, w).len() == w,
    decreases w,
{
    reveal_with_fuel(puissance10, 2);
    let d = (w - 1) as nat;
    if n < 10 {
        lemme_fixe_zero(d);
        assert(cadre(n as int, w) =~= fixe(n, w));
    } else {
        assert(n / 10 < puissance10(d));
        lemme_cadre_fixe(n / 10, d);
        assert(cadre(n as int, w) =~= cadre((n / 10) as int, d).push(chiffre(n % 10)));
    }
}

proof fn lemme_avant_prefixe(p: Seq<char>, a: Seq<char>, b: Seq<char>)
    ensures
        avant(p + a, p + b) == avant(a, b),
    decreases p.len(),
{
    if p.len() == 0 {
        assert(p + a =~= a && p + b =~= b);
    } else {
        lemme_avant_prefixe(p.skip(1), a, b);
        assert((p + a).skip(1) =~= p.skip(1) + a);
        assert((p + b).skip(1) =~= p.skip(1) + b);
    }
}

proof fn lemme_avant_suite(a: Seq<char>, b: Seq<char>, u: Seq<char>, v: Seq<char>)
    requires
        a.len() == b.len(),
        avant(a, b),
    ensures
        avant(a + u, b + v),
    decreases a.len(),
{
    if a.len() > 0 {
        assert((a + u).skip(1) =~= a.skip(1) + u);
        assert((b + v).skip(1) =~= b.skip(1) + v);
        if a[0] == b[0] {
            lemme_avant_suite(a.skip(1), b.skip(1), u, v);
        }
    }
}

proof fn lemme_fixe_ordre(n: nat, m: nat, w: nat)
    requires
        n < m < puissance10(w),
    ensures
        avant(fixe(n, w), fixe(m, w)),
        fixe(n, w).len() == w,
        fixe(m, w).len() == w,
    decreases w,
{
    reveal_with_fuel(puissance10, 2);
    let d = (w - 1) as nat;
    let x = seq![chiffre(n % 10)];
    let y = seq![chiffre(m % 10)];
    if w > 0 {
        assert(fixe(n, w) =~= fixe(n / 10, d) + x);
        assert(fixe(m, w) =~= fixe(m / 10, d) + y);
        if n / 10 < m / 10 {
            lemme_fixe_ordre(n / 10, m / 10, d);
            lemme_avant_suite(fixe(n / 10, d), fixe(m / 10, d), x, y);
        } else {
            assert(n / 10 == m / 10 && n % 10 < m % 10);
            lemme_fixe_longueur(n / 10, d);
            lemme_avant_prefixe(fixe(n / 10, d), x, y);
            assert(x[0] as int == 48 + n % 10 && y[0] as int == 48 + m % 10);
            assert(avant(x, y));
        }
    }
}

proof fn lemme_fixe_longueur(n: nat, w: nat)
    ensures
        fixe(n, w).len() == w,
    decreases w,
{
    if w > 0 {
        lemme_fixe_longueur(n / 10, (w - 1) as nat);
    }
}

/// Numbers written over the same width come in the order of their values;
/// equal ones leave the order to what follows them.
pub proof fn lemme_colonne(x: int, y: int, w: nat, sep: Seq<char>, u: Seq<char>, v: Seq<char>)
    requires
        1 <= w,
        0 <= x < puissance10(w),
        0 <= y < puissance10(w),
    ensures
        x < y ==> avant(cadre(x, w) + (sep + u), cadre(y, w) + (sep + v)),
        x == y ==> avant(cadre(x, w) + (sep + u), cadre(y, w) + (sep + v)) == avant(u, v),
{
    lemme_cadre_fixe(x as nat, w);
    lemme_cadre_fixe(y as nat, w);
    if x < y {
        lemme_fixe_ordre(x as nat, y as nat, w);
        lemme_avant_suite(cadre(x, w), cadre(y, w), sep + u, sep + v);
    } else if x == y {
        lemme_avant_prefixe(cadre(x, w), sep + u, sep + v);
        lemme_avant_prefixe(sep, u, v);
    }
}

/// No text comes before itself.
pub proof fn lemme_avant_strict(a: Seq<char>)
    ensures
        !avant(a, a),
{
    lemme_avant(a, a, a);
}

// ─── Laws of texts ─────────────────────────────────────────────────────

proof fn lemme_une_premiere(s: Seq<char>, m: Seq<char>, i: int)
    requires
        occurrence(s, m, i),
    ensures
        exists|j: int| est_premiere(s, m, j),
    decreases i,
{
    if !est_premiere(s, m, i) {
        let j = choose|j: int| 0 <= j < i && occurrence(s, m, j);
        lemme_une_premiere(s, m, j);
    }
}

proof fn lemme_une_derniere(s: Seq<char>, m: Seq<char>, i: int)
    requires
        occurrence(s, m, i),
    ensures
        exists|j: int| est_derniere(s, m, j),
    decreases s.len() - i,
{
    if !est_derniere(s, m, i) {
        let j = choose|j: int| i < j && occurrence(s, m, j);
        lemme_une_derniere(s, m, j);
    }
}

/// A text is found where it stands, and nowhere before; when it is not found,
/// it stands nowhere.
pub proof fn loi_premiere(s: Seq<char>, m: Seq<char>)
    ensures
        contient(s, m) == premiere(s, m) is Some,
        match premiere(s, m) {
            Some(p) => {
                &&& 0 <= p && p + m.len() <= s.len()
                &&& s == s.take(p) + m + s.skip(p + m.len())
                &&& forall|q: int| 0 <= q < p ==> #[trigger] s.subrange(q, q + m.len()) != m
            },
            None => forall|q: int|
                0 <= q <= s.len() - m.len() ==> #[trigger] s.subrange(q, q + m.len()) != m,
        },
{
    if contient(s, m) {
        let i = choose|i: int| occurrence(s, m, i);
        lemme_une_premiere(s, m, i);
        let p = choose|j: int| est_premiere(s, m, j);
        lemme_premiere(s, m, p);
        assert(s =~= s.take(p) + m + s.skip(p + m.len())) by {
            assert(s.subrange(p, p + m.len()) == m);
            assert(forall|k: int| 0 <= k < m.len() ==> m[k] == s.subrange(p, p + m.len())[k]);
        }
        assert forall|q: int| 0 <= q < p implies #[trigger] s.subrange(q, q + m.len()) != m by {
            assert(!occurrence(s, m, q));
        }
    } else {
        assert forall|q: int| 0 <= q <= s.len() - m.len() implies #[trigger] s.subrange(
            q,
            q + m.len(),
        ) != m by {
            assert(!occurrence(s, m, q));
        }
    }
}

/// The last place of a text is where it stands, and it stands nowhere after.
pub proof fn loi_derniere(s: Seq<char>, m: Seq<char>)
    ensures
        derniere(s, m) is Some == premiere(s, m) is Some,
        match derniere(s, m) {
            Some(p) => {
                &&& 0 <= p && p + m.len() <= s.len()
                &&& s == s.take(p) + m + s.skip(p + m.len())
                &&& forall|q: int|
                    p < q <= s.len() - m.len() ==> #[trigger] s.subrange(q, q + m.len()) != m
            },
            None => true,
        },
{
    if contient(s, m) {
        let i = choose|i: int| occurrence(s, m, i);
        lemme_une_derniere(s, m, i);
        let p = choose|j: int| est_derniere(s, m, j);
        lemme_derniere(s, m, p);
        assert(s =~= s.take(p) + m + s.skip(p + m.len())) by {
            assert(s.subrange(p, p + m.len()) == m);
            assert(forall|k: int| 0 <= k < m.len() ==> m[k] == s.subrange(p, p + m.len())[k]);
        }
        assert forall|q: int| p < q <= s.len() - m.len() implies #[trigger] s.subrange(
            q,
            q + m.len(),
        ) != m by {
            assert(!occurrence(s, m, q));
        }
    }
}

/// A text starts with its beginning and ends with its end, and with nothing
/// else of that length.
pub proof fn loi_bouts(a: Seq<char>, b: Seq<char>, m: Seq<char>)
    requires
        m.len() == a.len(),
    ensures
        debute_par(a + b, a),
        debute_par(a + b, m) ==> m == a,
        finit_par(b + a, a),
        finit_par(b + a, m) ==> m == a,
        b.len() > 0 ==> !debute_par(a, a + b) && !finit_par(a, b + a),
{
    assert((a + b).subrange(0, a.len() as int) =~= a);
    assert((b + a).subrange(b.len() as int, (b.len() + a.len()) as int) =~= a);
}

/// The blanks are the characters that Unicode calls white space.
pub proof fn loi_blancs(c: char)
    ensures
        blanc(c) == seq![
            0x9u32,
            0xA,
            0xB,
            0xC,
            0xD,
            0x20,
            0x85,
            0xA0,
            0x1680,
            0x2000,
            0x2001,
            0x2002,
            0x2003,
            0x2004,
            0x2005,
            0x2006,
            0x2007,
            0x2008,
            0x2009,
            0x200A,
            0x2028,
            0x2029,
            0x202F,
            0x205F,
            0x3000,
        ].contains(c as u32),
{
    let t = seq![
        0x9u32,
        0xA,
        0xB,
        0xC,
        0xD,
        0x20,
        0x85,
        0xA0,
        0x1680,
        0x2000,
        0x2001,
        0x2002,
        0x2003,
        0x2004,
        0x2005,
        0x2006,
        0x2007,
        0x2008,
        0x2009,
        0x200A,
        0x2028,
        0x2029,
        0x202F,
        0x205F,
        0x3000,
    ];
    let n = c as u32;
    if blanc(c) {
        let k: int = if n <= 0xD {
            n - 0x9
        } else if n == 0x20 {
            5
        } else if n == 0x85 {
            6
        } else if n == 0xA0 {
            7
        } else if n == 0x1680 {
            8
        } else if n <= 0x200A {
            9 + (n - 0x2000)
        } else if n == 0x2028 {
            20
        } else if n == 0x2029 {
            21
        } else if n == 0x202F {
            22
        } else if n == 0x205F {
            23
        } else {
            24
        };
        assert(t[k] == n);
    }
}

proof fn lemme_rogne_debut(s: Seq<char>)
    ensures
        s == s.take(s.len() - rogne_debut(s).len()) + rogne_debut(s),
        rogne_debut(s).len() <= s.len(),
        forall|i: int| 0 <= i < s.len() - rogne_debut(s).len() ==> blanc(#[trigger] s[i]),
        rogne_debut(s).len() > 0 ==> !blanc(rogne_debut(s)[0]),
    decreases s.len(),
{
    if s.len() > 0 && blanc(s[0]) {
        lemme_rogne_debut(s.skip(1));
        let r = rogne_debut(s);
        let t = s.skip(1);
        assert forall|i: int| 0 <= i < s.len() - r.len() implies blanc(#[trigger] s[i]) by {
            if i > 0 {
                assert(blanc(t[i - 1]));
            }
        }
        assert(forall|k: int| 0 <= k < r.len() ==> r[k] == (t.take(t.len() - r.len()) + r)[t.len() - r.len() + k]);
        assert(s =~= s.take(s.len() - r.len()) + r);
    } else {
        assert(s =~= s.take(0) + s);
    }
}

proof fn lemme_rogne_fin(s: Seq<char>)
    ensures
        rogne_fin(s).len() <= s.len(),
        rogne_fin(s) == s.take(rogne_fin(s).len() as int),
        forall|i: int| rogne_fin(s).len() <= i < s.len() ==> blanc(#[trigger] s[i]),
        rogne_fin(s).len() > 0 ==> !blanc(rogne_fin(s).last()),
    decreases s.len(),
{
    if s.len() > 0 && blanc(s.last()) {
        lemme_rogne_fin(s.drop_last());
        let d = s.drop_last();
        let r = rogne_fin(s);
        assert(r =~= s.take(r.len() as int));
        assert forall|i: int| r.len() <= i < s.len() implies blanc(#[trigger] s[i]) by {
            if i < d.len() {
                assert(blanc(d[i]));
            }
        }
    } else {
        assert(s.take(s.len() as int) =~= s);
    }
}

/// Trimming takes off blanks at both ends, all of them, and nothing else.
pub proof fn loi_rogne(s: Seq<char>) -> (debut: int)
    ensures
        0 <= debut,
        debut + rogne(s).len() <= s.len(),
        rogne(s) == s.subrange(debut, debut + rogne(s).len()),
        forall|i: int|
            (0 <= i < debut || debut + rogne(s).len() <= i < s.len()) ==> blanc(#[trigger] s[i]),
        rogne(s).len() > 0 ==> !blanc(rogne(s)[0]) && !blanc(rogne(s).last()),
        rogne_fin(s).len() <= s.len(),
        rogne_fin(s) == s.take(rogne_fin(s).len() as int),
        forall|i: int| rogne_fin(s).len() <= i < s.len() ==> blanc(#[trigger] s[i]),
        rogne_fin(s).len() > 0 ==> !blanc(rogne_fin(s).last()),
{
    lemme_rogne_fin(s);
    lemme_rogne_debut(s);
    let d = rogne_debut(s);
    lemme_rogne_fin(d);
    let r = rogne(s);
    let debut = s.len() - d.len();
    assert(forall|k: int| 0 <= k < d.len() ==> d[k] == s[debut + k]) by {
        assert(forall|k: int| 0 <= k < d.len() ==> d[k] == (s.take(debut) + d)[debut + k]);
    }
    assert(r =~= s.subrange(debut, debut + r.len()));
    assert forall|i: int| debut + r.len() <= i < s.len() implies blanc(#[trigger] s[i]) by {
        assert(blanc(d[i - debut]));
    }
    debut
}

/// The head of a text goes up to its first blank.
pub proof fn loi_tete(s: Seq<char>)
    ensures
        tete(s).len() <= s.len(),
        tete(s) == s.take(tete(s).len() as int),
        forall|i: int| 0 <= i < tete(s).len() ==> !blanc(#[trigger] s[i]),
        tete(s).len() < s.len() ==> blanc(s[tete(s).len() as int]),
    decreases s.len(),
{
    if s.len() > 0 && !blanc(s[0]) {
        let t = s.skip(1);
        loi_tete(t);
        assert(tete(s) =~= s.take(tete(s).len() as int));
        assert forall|i: int| 0 <= i < tete(s).len() implies !blanc(#[trigger] s[i]) by {
            if i > 0 {
                assert(!blanc(t[i - 1]));
            }
        }
    } else {
        assert(s.take(0) =~= Seq::<char>::empty());
    }
}

/// A quoted text loses its quotes, wherever there are any at its ends.
pub proof fn loi_sans_bords(s: Seq<char>, c: char)
    ensures
        sans_bords(seq![c] + s, c) == sans_bords(s, c),
        s.len() > 0 && s[0] != c ==> sans_bords(s.push(c), c) == sans_bords(s, c),
        s.len() > 0 && s[0] != c && s.last() != c ==> sans_bords(s, c) == s,
        s.len() == 0 ==> sans_bords(s, c) == s,
{
    assert((seq![c] + s).skip(1) =~= s);
    if s.len() > 0 && s[0] != c {
        let t = s.push(c);
        assert(t[0] == s[0] && t.last() == c);
        assert(t.drop_last() =~= s);
        assert(sans_bords(t, c) == sans_bords(t.drop_last(), c));
    }
}

/// Lower case changes the letters from A to Z into those from a to z, and
/// nothing else.
pub proof fn loi_minuscules(s: Seq<char>, i: int)
    requires
        0 <= i < s.len(),
    ensures
        minuscules(s).len() == s.len(),
        65 <= s[i] as u32 <= 90 ==> minuscules(s)[i] as u32 == s[i] as u32 + 32,
        !(65 <= s[i] as u32 <= 90) ==> minuscules(s)[i] == s[i],
{
}

/// The first place of a character is where it first stands.
pub proof fn lemme_saut(a: Seq<char>, c: char, suite: Seq<char>)
    requires
        !a.contains(c),
    ensures
        saut(a, c) is None,
        saut(a + seq![c] + suite, c) == Some(a.len() as int),
{
    let s = a + seq![c] + suite;
    let n = a.len() as int;
    assert(s.subrange(n, n + 1) =~= seq![c]);
    assert forall|j: int| 0 <= j < n implies !occurrence(s, seq![c], j) by {
        assert(s.subrange(j, j + 1)[0] == a[j]);
        assert(a.contains(a[j]));
    }
    lemme_premiere(s, seq![c], n);
    assert forall|j: int| !occurrence(a, seq![c], j) by {
        if occurrence(a, seq![c], j) {
            assert(a.subrange(j, j + 1)[0] == a[j]);
            assert(a.contains(a[j]));
        }
    }
}

/// Lines are cut at each line feed; a carriage return before it belongs to
/// neither line, and a last line needs no line feed.
pub proof fn loi_lignes(a: Seq<char>, suite: Seq<char>)
    requires
        !a.contains('\n'),
    ensures
        lignes(Seq::<char>::empty()) == Seq::<Seq<char>>::empty(),
        a.len() > 0 ==> lignes(a) == seq![a],
        a.len() == 0 || a.last() != '\r' ==> lignes(a + seq!['\n'] + suite) == seq![a] + lignes(
            suite,
        ),
        lignes(a.push('\r') + seq!['\n'] + suite) == seq![a] + lignes(suite),
{
    lemme_saut(a, '\n', suite);
    let s = a + seq!['\n'] + suite;
    assert(s.take(a.len() as int) =~= a);
    assert(s.skip((a.len() + 1) as int) =~= suite);
    let b = a.push('\r');
    assert(!b.contains('\n')) by {
        if b.contains('\n') {
            let k = b.index_of('\n');
            assert(a[k] == '\n');
        }
    }
    lemme_saut(b, '\n', suite);
    let t = b + seq!['\n'] + suite;
    assert(t.take(b.len() as int) =~= b);
    assert(t.skip((b.len() + 1) as int) =~= suite);
    assert(b.drop_last() =~= a);
}

/// Fields are cut at each separator, which belongs to none of them.
pub proof fn loi_champs(a: Seq<char>, c: char, suite: Seq<char>)
    requires
        !a.contains(c),
    ensures
        champs(a, c) == seq![a],
        champs(a + seq![c] + suite, c) == seq![a] + champs(suite, c),
{
    lemme_saut(a, c, suite);
    let s = a + seq![c] + suite;
    assert(s.take(a.len() as int) =~= a);
    assert(s.skip((a.len() + 1) as int) =~= suite);
}

/// A replacement acts on each character by itself.
pub proof fn loi_remplace(a: Seq<char>, x: char, b: Seq<char>, c: char, par: Seq<char>)
    ensures
        remplace(Seq::empty(), c, par) == Seq::<char>::empty(),
        remplace(seq![c], c, par) == par,
        x != c ==> remplace(seq![x], c, par) == seq![x],
        remplace(a + b, c, par) == remplace(a, c, par) + remplace(b, c, par),
    decreases b.len(),
{
    reveal_with_fuel(remplace, 2);
    assert(seq![c].drop_last() =~= Seq::<char>::empty());
    assert(seq![x].drop_last() =~= Seq::<char>::empty());
    assert(remplace(seq![c], c, par) =~= par);
    assert(x != c ==> remplace(seq![x], c, par) =~= seq![x]);
    if b.len() == 0 {
        assert(a + b =~= a);
        assert(remplace(a, c, par) + remplace(b, c, par) =~= remplace(a, c, par));
    } else {
        loi_remplace(a, x, b.drop_last(), c, par);
        assert((a + b).drop_last() =~= a + b.drop_last());
        assert((a + b).last() == b.last());
        assert(remplace(a + b, c, par) =~= remplace(a, c, par) + remplace(b, c, par));
    }
}

/// The end of a text is as long as asked for, or the whole text.
pub proof fn loi_queue(a: Seq<char>, b: Seq<char>)
    ensures
        queue(a + b, b.len()) == b,
        queue(b, b.len() + a.len()) == b,
{
    assert((a + b).skip(a.len() as int) =~= b);
    if a.len() == 0 {
        assert(a + b =~= b);
    }
}

/// Numbers are written in base ten, the most significant digit first, without
/// idle zeros, and a number below zero after its sign.
pub proof fn loi_decimal(n: nat, d: nat)
    requires
        d < 10,
    ensures
        decimal(d) == seq!["0123456789"@[d as int]],
        n > 0 ==> decimal(10 * n + d) == decimal(n).push("0123456789"@[d as int]),
        n > 0 ==> decimal_signe(-n) == seq!['-'] + decimal(n),
        decimal_signe(n as int) == decimal(n),
{
    reveal_strlit("0123456789");
    if n > 0 {
        assert((10 * n + d) / 10 == n && (10 * n + d) % 10 == d);
    }
}

/// Digits are read in base ten, the most significant first.
pub proof fn loi_valeur(s: Seq<char>, d: nat)
    requires
        d < 10,
    ensures
        valeur(Seq::empty()) == 0,
        valeur(s.push("0123456789"@[d as int])) == 10 * valeur(s) + d,
{
    reveal_strlit("0123456789");
    let t = s.push("0123456789"@[d as int]);
    assert(t.drop_last() =~= s);
}

/// The digits are the ten characters from 0 to 9.
pub proof fn loi_chiffres(c: char)
    ensures
        est_chiffre(c) == "0123456789"@.contains(c),
{
    reveal_strlit("0123456789");
    let t = "0123456789"@;
    if c == '0' {
        assert(t[0] == c);
    } else if c == '1' {
        assert(t[1] == c);
    } else if c == '2' {
        assert(t[2] == c);
    } else if c == '3' {
        assert(t[3] == c);
    } else if c == '4' {
        assert(t[4] == c);
    } else if c == '5' {
        assert(t[5] == c);
    } else if c == '6' {
        assert(t[6] == c);
    } else if c == '7' {
        assert(t[7] == c);
    } else if c == '8' {
        assert(t[8] == c);
    } else if c == '9' {
        assert(t[9] == c);
    }
}

/// A text is a number when it has digits and nothing else, but for one plus
/// sign before them; it is read up to the largest number admitted.
pub proof fn loi_lecture(s: Seq<char>, n: nat, max: nat)
    ensures
        lecture(decimal(n), max) == if n <= max {
            Some(n)
        } else {
            None::<nat>
        },
        lecture(seq!['+'] + decimal(n), max) == lecture(decimal(n), max),
        lecture(s, max) matches Some(v) ==> v <= max && s.len() > 0 && forall|i: int|
            0 <= i < s.len() ==> "0123456789"@.contains(#[trigger] s[i]) || (i == 0 && s[0] == '+'
                && s.len() > 1),
{
    reveal_strlit("0123456789");
    lemme_decimal_relu(n);
    let d = decimal(n);
    assert(est_chiffre(d[0]));
    assert(sans_plus(d) == d);
    assert((seq!['+'] + d).skip(1) =~= d);
    if lecture(s, max) is Some {
        let t = sans_plus(s);
        assert forall|i: int| 0 <= i < s.len() implies "0123456789"@.contains(#[trigger] s[i]) || (
        i == 0 && s[0] == '+' && s.len() > 1) by {
            let k = if s[0] == '+' {
                i - 1
            } else {
                i
            };
            if k >= 0 {
                assert(est_chiffre(t[k]));
                assert(t[k] == s[i]);
                loi_chiffres(s[i]);
            }
        }
    }
}

/// A number written over a width keeps its digits, which zeros precede up to
/// that width; a sign comes first.
pub proof fn loi_cadre(n: nat, largeur: nat)
    ensures
        cadre(n as int, largeur).len() == if decimal(n).len() < largeur {
            largeur
        } else {
            decimal(n).len()
        },
        finit_par(cadre(n as int, largeur), decimal(n)),
        forall|i: int|
            0 <= i < cadre(n as int, largeur).len() - decimal(n).len() ==> #[trigger] cadre(
                n as int,
                largeur,
            )[i] == '0',
        n > 0 && largeur > 0 ==> cadre(-n, largeur) == seq!['-'] + cadre(
            n as int,
            (largeur - 1) as nat,
        ),
{
    let d = decimal(n);
    let z = zeros(largeur - d.len());
    assert((z + d).subrange(z.len() as int, (z.len() + d.len()) as int) =~= d);
    if n > 0 && largeur > 0 {
        assert(cadre(-n, largeur) =~= seq!['-'] + cadre(n as int, (largeur - 1) as nat));
    }
}

/// The leading digits of a text are all those before its first other
/// character.
pub proof fn loi_tete_numerique(s: Seq<char>)
    ensures
        tete_numerique(s).len() <= s.len(),
        tete_numerique(s) == s.take(tete_numerique(s).len() as int),
        forall|i: int|
            0 <= i < tete_numerique(s).len() ==> "0123456789"@.contains(#[trigger] s[i]),
        tete_numerique(s).len() < s.len() ==> !"0123456789"@.contains(
            s[tete_numerique(s).len() as int],
        ),
    decreases s.len(),
{
    if s.len() > 0 {
        loi_chiffres(s[0]);
    }
    if s.len() > 0 && est_chiffre(s[0]) {
        let t = s.skip(1);
        loi_tete_numerique(t);
        assert(tete_numerique(s) =~= s.take(tete_numerique(s).len() as int));
        assert forall|i: int| 0 <= i < tete_numerique(s).len() implies "0123456789"@.contains(
            #[trigger] s[i],
        ) by {
            if i > 0 {
                assert("0123456789"@.contains(t[i - 1]));
            }
        }
    } else {
        assert(s.take(0) =~= Seq::<char>::empty());
    }
}

/// Texts are ordered by their first difference, and one that continues
/// another comes after it.
pub proof fn loi_ordre_des_textes(p: Seq<char>, x: char, y: char, u: Seq<char>, v: Seq<char>)
    ensures
        x != y ==> avant(p + seq![x] + u, p + seq![y] + v) == ((x as u32) < (y as u32)),
        avant(p, p + seq![y] + v),
        !avant(p + seq![y] + v, p),
        !avant(p, p),
    decreases p.len(),
{
    let a = p + seq![x] + u;
    let b = p + seq![y] + v;
    if p.len() > 0 {
        let q = p.skip(1);
        loi_ordre_des_textes(q, x, y, u, v);
        assert(a.skip(1) =~= q + seq![x] + u);
        assert(b.skip(1) =~= q + seq![y] + v);
        assert(a[0] == p[0] && b[0] == p[0]);
    }
}

/// Paths are ordered by their first component that differs, and what is in a
/// directory comes after it.
pub proof fn loi_ordre_des_chemins(
    p: Seq<Seq<char>>,
    x: Seq<char>,
    y: Seq<char>,
    u: Seq<Seq<char>>,
    v: Seq<Seq<char>>,
)
    ensures
        x != y ==> chemin_avant(p + seq![x] + u, p + seq![y] + v) == avant(x, y),
        chemin_avant(p, p + seq![y] + v),
        !chemin_avant(p + seq![y] + v, p),
        !chemin_avant(p, p),
    decreases p.len(),
{
    let a = p + seq![x] + u;
    let b = p + seq![y] + v;
    if p.len() > 0 {
        let q = p.skip(1);
        loi_ordre_des_chemins(q, x, y, u, v);
        assert(a.skip(1) =~= q + seq![x] + u);
        assert(b.skip(1) =~= q + seq![y] + v);
        assert(a[0] == p[0] && b[0] == p[0]);
    }
}

/// A sorted list holds the rank of each path retained, once, and of no other;
/// no path comes before one that precedes it.
pub proof fn loi_trie(
    chemins: Seq<Seq<Seq<char>>>,
    retenus: Seq<bool>,
    ordre: Seq<usize>,
    i: usize,
    k: int,
    m: int,
)
    requires
        trie(chemins, retenus, ordre),
        i < retenus.len(),
        0 <= k < m < ordre.len(),
    ensures
        ordre.contains(i) == retenus[i as int],
        ordre[k] != ordre[m],
        !chemin_avant(chemins[ordre[m] as int], chemins[ordre[k] as int]),
{
    if retenus[i as int] {
        let j = choose|j: int| 0 <= j < ordre.len() && #[trigger] ordre[j] == i;
        assert(ordre[j] == i);
    }
}

/// A number that holds in a width is padded to exactly that width, and reads
/// back.
pub proof fn loi_largeur(n: nat, largeur: nat)
    requires
        1 <= largeur,
        n < puissance10(largeur),
    ensures
        cadre(n as int, largeur).len() == largeur,
        numerique(cadre(n as int, largeur)),
        valeur(cadre(n as int, largeur)) == n,
{
    lemme_cadre_fixe(n, largeur);
    lemme_cadre_relu(n, largeur);
}

/// A number below zero is padded behind its sign, which counts in the width.
pub proof fn loi_cadre_negatif(n: nat, largeur: nat)
    requires
        n > 0,
        largeur > 0,
    ensures
        cadre(-n, largeur) == seq!['-'] + cadre(n as int, (largeur - 1) as nat),
{
    assert(cadre(-n, largeur) =~= seq!['-'] + cadre(n as int, (largeur - 1) as nat));
}

} // verus!
