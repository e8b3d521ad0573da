//! Instants, and their writing as ISO 8601 dates in universal time.

use crate::horloge;
use crate::texte;
use vstd::arithmetic::div_mod::{lemma_fundamental_div_mod, lemma_fundamental_div_mod_converse};
use vstd::prelude::*;

verus! {

/// An instant, in milliseconds since the Unix epoch.
#[derive(Clone, Copy, Debug)]
pub struct Instant {
    millis: i64,
}

// ─── The calendar ──────────────────────────────────────────────────────

/// A leap year of the Gregorian calendar.
pub open spec fn est_bissextile(annee: int) -> bool {
    (annee % 4 == 0 && annee % 100 != 0) || annee % 400 == 0
}

/// Days in a year.
pub open spec fn longueur_annee(annee: int) -> int {
    if est_bissextile(annee) {
        366
    } else {
        365
    }
}

/// Days in a month, numbered from 1.
pub open spec fn longueur_mois(annee: int, mois: int) -> int {
    if mois == 2 {
        if est_bissextile(annee) {
            29
        } else {
            28
        }
    } else if mois == 4 || mois == 6 || mois == 9 || mois == 11 {
        30
    } else {
        31
    }
}

/// Days from 1 January 1970 to 1 January of a year, below zero for an
/// earlier one.
pub open spec fn jours_avant_annee(annee: int) -> int
    decreases
            if annee < 1970 {
                1970 - annee
            } else {
                annee - 1970
            },
{
    if annee == 1970 {
        0
    } else if annee > 1970 {
        jours_avant_annee(annee - 1) + longueur_annee(annee - 1)
    } else {
        jours_avant_annee(annee + 1) - longueur_annee(annee)
    }
}

/// Days from 1 January to the first of a month of that year.
pub open spec fn jours_avant_mois(annee: int, mois: int) -> int
    decreases mois,
{
    if mois <= 1 {
        0
    } else {
        jours_avant_mois(annee, mois - 1) + longueur_mois(annee, mois - 1)
    }
}

/// A civil date.
pub ghost struct Date {
    pub annee: int,
    pub mois: int,
    pub jour: int,
}

/// The date is that of the day numbered `jours` from 1 January 1970, in the
/// Gregorian calendar carried back to every earlier year.
pub open spec fn est_date(d: Date, jours: int) -> bool {
    &&& 1 <= d.mois <= 12
    &&& 1 <= d.jour <= longueur_mois(d.annee, d.mois)
    &&& jours == jours_avant_annee(d.annee) + jours_avant_mois(d.annee, d.mois) + d.jour - 1
}

/// The date of a day.
pub open spec fn date_de(jours: int) -> Date {
    choose|d: Date| est_date(d, jours)
}

/// A year leads from its first of January to the next.
proof fn lemme_annee_suivante(annee: int)
    ensures
        jours_avant_annee(annee + 1) == jours_avant_annee(annee) + longueur_annee(annee),
{
}

proof fn lemme_annees_croissent(a: int, b: int)
    requires
        a <= b,
    ensures
        jours_avant_annee(a) + 365 * (b - a) <= jours_avant_annee(b),
    decreases b - a,
{
    if a < b {
        lemme_annees_croissent(a, b - 1);
        lemme_annee_suivante(b - 1);
    }
}

proof fn lemme_mois(annee: int)
    ensures
        jours_avant_mois(annee, 1) == 0,
        jours_avant_mois(annee, 2) == 31,
        forall|m: int|
            3 <= m <= 12 ==> #[trigger] jours_avant_mois(annee, m) == jours_avant_mois(annee, m - 1)
                + longueur_mois(annee, m - 1),
        jours_avant_mois(annee, 12) + 31 == longueur_annee(annee),
        forall|m: int, n: int|
            1 <= m < n <= 12 ==> #[trigger] jours_avant_mois(annee, m) + longueur_mois(annee, m)
                <= #[trigger] jours_avant_mois(annee, n),
{
    reveal_with_fuel(jours_avant_mois, 13);
    assert(jours_avant_mois(annee, 3) == jours_avant_mois(annee, 2) + longueur_mois(annee, 2));
    assert(jours_avant_mois(annee, 4) == jours_avant_mois(annee, 3) + 31);
    assert(jours_avant_mois(annee, 5) == jours_avant_mois(annee, 4) + 30);
    assert(jours_avant_mois(annee, 6) == jours_avant_mois(annee, 5) + 31);
    assert(jours_avant_mois(annee, 7) == jours_avant_mois(annee, 6) + 30);
    assert(jours_avant_mois(annee, 8) == jours_avant_mois(annee, 7) + 31);
    assert(jours_avant_mois(annee, 9) == jours_avant_mois(annee, 8) + 31);
    assert(jours_avant_mois(annee, 10) == jours_avant_mois(annee, 9) + 30);
    assert(jours_avant_mois(annee, 11) == jours_avant_mois(annee, 10) + 31);
    assert(jours_avant_mois(annee, 12) == jours_avant_mois(annee, 11) + 30);
}

/// A day is in a year exactly when it stands between two first of January.
proof fn lemme_annee_de(d: Date, jours: int)
    requires
        est_date(d, jours),
    ensures
        jours_avant_annee(d.annee) <= jours < jours_avant_annee(d.annee + 1),
{
    lemme_annee_suivante(d.annee);
    lemme_mois(d.annee);
    assert(jours_avant_mois(d.annee, d.mois) + longueur_mois(d.annee, d.mois) <= longueur_annee(
        d.annee,
    )) by {
        if d.mois < 12 {
            assert(jours_avant_mois(d.annee, d.mois) + longueur_mois(d.annee, d.mois)
                <= jours_avant_mois(d.annee, 12));
        }
    }
    assert(jours_avant_mois(d.annee, d.mois) >= 0) by {
        if d.mois > 1 {
            assert(jours_avant_mois(d.annee, 1) + longueur_mois(d.annee, 1) <= jours_avant_mois(
                d.annee,
                d.mois,
            ));
        }
    }
}

/// A later day has a later date: years first, then months, then days.
pub proof fn loi_dates_ordonnees(d: Date, e: Date, i: int, j: int)
    requires
        i < j,
        est_date(d, i),
        est_date(e, j),
    ensures
        d.annee < e.annee || (d.annee == e.annee && (d.mois < e.mois || (d.mois == e.mois && d.jour
            < e.jour))),
{
    lemme_annee_de(d, i);
    lemme_annee_de(e, j);
    if e.annee < d.annee {
        lemme_annees_croissent(e.annee + 1, d.annee);
    }
    lemme_mois(d.annee);
    if d.annee == e.annee && e.mois < d.mois {
        assert(jours_avant_mois(e.annee, e.mois) + longueur_mois(e.annee, e.mois)
            <= jours_avant_mois(d.annee, d.mois));
    }
}

/// A day has one date.
pub proof fn loi_date_unique(d: Date, e: Date, jours: int)
    requires
        est_date(d, jours),
        est_date(e, jours),
    ensures
        d == e,
{
    lemme_annee_de(d, jours);
    lemme_annee_de(e, jours);
    if d.annee < e.annee {
        lemme_annees_croissent(d.annee + 1, e.annee);
    } else if e.annee < d.annee {
        lemme_annees_croissent(e.annee + 1, d.annee);
    }
    lemme_mois(d.annee);
    if d.mois < e.mois {
        assert(jours_avant_mois(d.annee, d.mois) + longueur_mois(d.annee, d.mois)
            <= jours_avant_mois(e.annee, e.mois));
    } else if e.mois < d.mois {
        assert(jours_avant_mois(e.annee, e.mois) + longueur_mois(e.annee, e.mois)
            <= jours_avant_mois(d.annee, d.mois));
    }
}

/// A year is counted by a quotient exactly when it is a multiple.
proof fn lemme_multiples(annee: int)
    ensures
        annee / 4 - (annee - 1) / 4 == if annee % 4 == 0 {
            1int
        } else {
            0int
        },
        annee / 100 - (annee - 1) / 100 == if annee % 100 == 0 {
            1int
        } else {
            0int
        },
        annee / 400 - (annee - 1) / 400 == if annee % 400 == 0 {
            1int
        } else {
            0int
        },
        annee % 100 == 0 ==> annee % 4 == 0,
        annee % 400 == 0 ==> annee % 100 == 0,
{
}

/// Leap days follow the Gregorian rule: the days before a year are 365 for
/// each year since 1970, and one more for each leap year among them.
pub proof fn loi_jours_gregoriens(annee: int)
    ensures
        jours_avant_annee(annee) == 365 * (annee - 1970) + (annee - 1) / 4 - (annee - 1) / 100 + (
        annee - 1) / 400 - 477,
    decreases
            if annee < 1970 {
                1970 - annee
            } else {
                annee - 1970
            },
{
    if annee > 1970 {
        loi_jours_gregoriens(annee - 1);
        lemme_multiples(annee - 1);
    } else if annee < 1970 {
        loi_jours_gregoriens(annee + 1);
        lemme_multiples(annee);
    }
}

// ─── Quotients ─────────────────────────────────────────────────────────

/// The quotient rounded down, and the remainder, which is never below zero.
fn diviser(n: i64, d: i64) -> (r: (i64, i64))
    requires
        1 < d <= 1000,
    ensures
        r.0 == n as int / d as int,
        r.1 == n as int % d as int,
        -(i64::MAX / 2) - 1 <= r.0 <= i64::MAX / 2,
        0 <= r.1 < d,
{
    if n < 0 {
        // Counted from the last number below zero, the quotient is that of a
        // number which is not.
        let m: i64 = -(n + 1);
        let q: i64 = m / d;
        let s: i64 = m % d;
        proof {
            lemma_fundamental_div_mod(m as int, d as int);
            assert(q <= m / 2) by (nonlinear_arith)
                requires
                    q == m / d,
                    m >= 0,
                    1 < d,
            ;
            assert(d * (-q - 1) == -(d * q) - d) by (nonlinear_arith);
            lemma_fundamental_div_mod_converse(
                n as int,
                d as int,
                -q - 1,
                d - 1 - s,
            );
        }
        (-q - 1, d - 1 - s)
    } else {
        assert(n / d <= n / 2) by (nonlinear_arith)
            requires
                n >= 0,
                1 < d,
        ;
        (n / d, n % d)
    }
}

// ─── Decomposing ───────────────────────────────────────────────────────

/// Year, month, day, hour, minute and second of a number of seconds since
/// the epoch.
pub open spec fn decompose(secondes: int) -> (int, int, int, int, int, int) {
    let minutes = secondes / 60;
    let heures = minutes / 60;
    let d = date_de(heures / 24);
    (d.annee, d.mois, d.jour, heures % 24, minutes % 60, secondes % 60)
}

pub fn bissextile(annee: i64) -> (r: bool)
    ensures
        r == est_bissextile(annee as int),
{
    (diviser(annee, 4).1 == 0 && diviser(annee, 100).1 != 0) || diviser(annee, 400).1 == 0
}

fn longueur_du_mois(annee: i64, mois: i64) -> (r: i64)
    ensures
        r == longueur_mois(annee as int, mois as int),
{
    if mois == 2 {
        if bissextile(annee) {
            29
        } else {
            28
        }
    } else if mois == 4 || mois == 6 || mois == 9 || mois == 11 {
        30
    } else {
        31
    }
}

/// The civil date of a number of seconds since 1970.
pub fn decomposer(secondes: i64) -> (r: (i64, i64, i64, i64, i64, i64))
    ensures
        (r.0 as int, r.1 as int, r.2 as int, r.3 as int, r.4 as int, r.5 as int) == decompose(
            secondes as int,
        ),
{
    let (minutes, seconde) = diviser(secondes, 60);
    let (heures, minute) = diviser(minutes, 60);
    let (total, heure) = diviser(heures, 24);
    let mut jours: i64 = total;
    let mut annee: i64 = 1970;
    while jours < 0
        invariant
            annee <= 1970,
            jours == total - jours_avant_annee(annee as int),
            1970 - annee <= jours - total,
            -(i64::MAX / 2) - 1 <= total,
            total >= 0 ==> annee == 1970,
            total < 0 ==> jours < longueur_annee(annee as int),
        decreases
                if jours < 0 {
                    -jours
                } else {
                    0
                },
    {
        annee -= 1;
        jours += if bissextile(annee) {
            366
        } else {
            365
        };
    }
    loop
        invariant_except_break
            jours >= 0,
            jours == total - jours_avant_annee(annee as int),
            annee > 1970 ==> annee - 1970 <= total - jours,
            annee < 1970 ==> jours < longueur_annee(annee as int),
            total <= i64::MAX / 2,
        ensures
            0 <= jours < longueur_annee(annee as int),
            jours == total - jours_avant_annee(annee as int),
        decreases jours,
    {
        let dans_annee: i64 = if bissextile(annee) {
            366
        } else {
            365
        };
        if jours < dans_annee {
            break;
        }
        jours -= dans_annee;
        annee += 1;
    }
    let ghost dans_an = jours;
    let mut mois: i64 = 1;
    proof {
        lemme_mois(annee as int);
    }
    loop
        invariant_except_break
            1 <= mois <= 12,
            0 <= jours <= dans_an < longueur_annee(annee as int),
            jours == dans_an - jours_avant_mois(annee as int, mois as int),
            jours_avant_mois(annee as int, 12) + 31 == longueur_annee(annee as int),
        ensures
            1 <= mois <= 12,
            0 <= jours < longueur_mois(annee as int, mois as int),
            jours == dans_an - jours_avant_mois(annee as int, mois as int),
        decreases 13 - mois,
    {
        let longueur: i64 = longueur_du_mois(annee, mois);
        if jours < longueur {
            break;
        }
        jours -= longueur;
        mois += 1;
    }
    proof {
        let d = Date { annee: annee as int, mois: mois as int, jour: jours + 1 };
        assert(est_date(d, total as int));
        loi_date_unique(d, date_de(total as int), total as int);
    }
    (annee, mois, jours + 1, heure, minute, seconde)
}

// ─── Instants ──────────────────────────────────────────────────────────

/// The writing of an instant: date, time and milliseconds, in universal time.
/// A year from 0 to 9999 takes four characters; one beyond takes what it needs.
pub open spec fn iso(millis: int) -> Seq<char> {
    let d = decompose(millis / 1000);
    texte::cadre(d.0, 4) + "-"@ + texte::cadre(d.1, 2) + "-"@ + texte::cadre(d.2, 2) + "T"@
        + texte::cadre(d.3, 2) + ":"@ + texte::cadre(d.4, 2) + ":"@ + texte::cadre(d.5, 2) + "."@
        + texte::cadre(millis % 1000, 3) + "Z"@
}

impl View for Instant {
    type V = int;

    closed spec fn view(&self) -> int {
        self.millis as int
    }
}

impl Instant {
    /// An instant holds in 64 bits.
    pub proof fn lemme_borne(self)
        ensures
            i64::MIN <= self@ <= i64::MAX,
    {
    }

    /// The present instant. It rests on the clock: see `depuis_lecture`.
    pub fn maintenant() -> (r: Self) {
        Self::depuis_lecture(horloge::lire())
    }

    /// The instant of a reading of the clock; the epoch without a reading.
    pub fn depuis_lecture(lecture: Option<u128>) -> (r: Self)
        ensures
            r@ == match lecture {
                Some(ms) => (ms as i64) as int,
                None => 0int,
            },
    {
        match lecture {
            Some(ms) => Instant {
                millis: #[verifier::truncate]
                (ms as i64),
            },
            None => Instant { millis: 0 },
        }
    }

    pub fn depuis_millis(millis: i64) -> (r: Self)
        ensures
            r@ == millis,
    {
        Instant { millis }
    }

    /// The instant that many milliseconds later.
    pub fn plus_millis(&self, ajout: i64) -> (r: Self)
        requires
            i64::MIN <= self@ + ajout <= i64::MAX,
        ensures
            r@ == self@ + ajout,
    {
        Instant { millis: self.millis + ajout }
    }

    pub fn millis(&self) -> (r: i64)
        ensures
            r == self@,
    {
        self.millis
    }

    /// The instant in ISO 8601, in universal time.
    pub fn to_iso8601(&self) -> (r: String)
        ensures
            r@ == iso(self@),
    {
        let (secondes, millisecondes) = diviser(self.millis, 1000);
        let (annee, mois, jour, heure, minute, seconde) = decomposer(secondes);
        let mut r = texte::ecrire_cadre(annee, 4);
        r.append("-");
        r.append(texte::ecrire_cadre(mois, 2).as_str());
        r.append("-");
        r.append(texte::ecrire_cadre(jour, 2).as_str());
        r.append("T");
        r.append(texte::ecrire_cadre(heure, 2).as_str());
        r.append(":");
        r.append(texte::ecrire_cadre(minute, 2).as_str());
        r.append(":");
        r.append(texte::ecrire_cadre(seconde, 2).as_str());
        r.append(".");
        r.append(texte::ecrire_cadre(millisecondes, 3).as_str());
        r.append("Z");
        r
    }
}

// ─── Order of dates ────────────────────────────────────────────────────

proof fn lemme_annee_trouvee(jours: int, a: int) -> (annee: int)
    requires
        jours_avant_annee(a) <= jours,
    ensures
        jours_avant_annee(annee) <= jours < jours_avant_annee(annee + 1),
    decreases jours - jours_avant_annee(a),
{
    lemme_annee_suivante(a);
    if jours < jours_avant_annee(a + 1) {
        a
    } else {
        lemme_annee_trouvee(jours, a + 1)
    }
}

proof fn lemme_mois_trouve(annee: int, reste: int, m: int) -> (mois: int)
    requires
        1 <= m <= 12,
        jours_avant_mois(annee, m) <= reste < longueur_annee(annee),
    ensures
        1 <= mois <= 12,
        jours_avant_mois(annee, mois) <= reste < jours_avant_mois(annee, mois) + longueur_mois(
            annee,
            mois,
        ),
    decreases 12 - m,
{
    lemme_mois(annee);
    if m == 12 || reste < jours_avant_mois(annee, m) + longueur_mois(annee, m) {
        m
    } else {
        lemme_mois_trouve(annee, reste, m + 1)
    }
}

/// Every day has a date.
pub proof fn loi_date_existe(jours: int)
    ensures
        est_date(date_de(jours), jours),
{
    // A first of January so early that the day comes after it.
    let a = if jours < 0 {
        1970 + jours
    } else {
        1970
    };
    lemme_annees_croissent(a, 1970);
    let annee = lemme_annee_trouvee(jours, a);
    lemme_annee_suivante(annee);
    let reste = jours - jours_avant_annee(annee);
    let mois = lemme_mois_trouve(annee, reste, 1);
    let d = Date { annee, mois, jour: reste - jours_avant_mois(annee, mois) + 1 };
    assert(est_date(d, jours));
}

/// The writing of a date from its seven numbers, from the right.
spec fn ecriture(d: (int, int, int, int, int, int), ms: int) -> Seq<char> {
    let r7 = texte::cadre(ms, 3) + ("Z"@ + Seq::empty());
    let r6 = texte::cadre(d.5, 2) + ("."@ + r7);
    let r5 = texte::cadre(d.4, 2) + (":"@ + r6);
    let r4 = texte::cadre(d.3, 2) + (":"@ + r5);
    let r3 = texte::cadre(d.2, 2) + ("T"@ + r4);
    let r2 = texte::cadre(d.1, 2) + ("-"@ + r3);
    texte::cadre(d.0, 4) + ("-"@ + r2)
}

/// The seven numbers can be written over their widths.
spec fn ecrivable(d: (int, int, int, int, int, int), ms: int) -> bool {
    &&& 0 <= d.0 < 10_000
    &&& 0 <= d.1 < 100
    &&& 0 <= d.2 < 100
    &&& 0 <= d.3 < 100
    &&& 0 <= d.4 < 100
    &&& 0 <= d.5 < 100
    &&& 0 <= ms < 1000
}

/// The first of the seven numbers that differs is the smaller.
spec fn plus_tot(
    d: (int, int, int, int, int, int),
    m: int,
    e: (int, int, int, int, int, int),
    n: int,
) -> bool {
    d.0 < e.0 || (d.0 == e.0 && (d.1 < e.1 || (d.1 == e.1 && (d.2 < e.2 || (d.2 == e.2 && (d.3
        < e.3 || (d.3 == e.3 && (d.4 < e.4 || (d.4 == e.4 && (d.5 < e.5 || (d.5 == e.5 && m
        < n)))))))))))
}

proof fn lemme_ecritures_ordonnees(
    d: (int, int, int, int, int, int),
    m: int,
    e: (int, int, int, int, int, int),
    n: int,
)
    requires
        ecrivable(d, m),
        ecrivable(e, n),
        plus_tot(d, m, e, n),
    ensures
        texte::avant(ecriture(d, m), ecriture(e, n)),
{
    reveal_with_fuel(texte::puissance10, 5);
    let vide = Seq::<char>::empty();
    let a7 = texte::cadre(m, 3) + ("Z"@ + vide);
    let a6 = texte::cadre(d.5, 2) + ("."@ + a7);
    let a5 = texte::cadre(d.4, 2) + (":"@ + a6);
    let a4 = texte::cadre(d.3, 2) + (":"@ + a5);
    let a3 = texte::cadre(d.2, 2) + ("T"@ + a4);
    let a2 = texte::cadre(d.1, 2) + ("-"@ + a3);
    let b7 = texte::cadre(n, 3) + ("Z"@ + vide);
    let b6 = texte::cadre(e.5, 2) + ("."@ + b7);
    let b5 = texte::cadre(e.4, 2) + (":"@ + b6);
    let b4 = texte::cadre(e.3, 2) + (":"@ + b5);
    let b3 = texte::cadre(e.2, 2) + ("T"@ + b4);
    let b2 = texte::cadre(e.1, 2) + ("-"@ + b3);
    texte::lemme_colonne(m, n, 3, "Z"@, vide, vide);
    texte::lemme_colonne(d.5, e.5, 2, "."@, a7, b7);
    texte::lemme_colonne(d.4, e.4, 2, ":"@, a6, b6);
    texte::lemme_colonne(d.3, e.3, 2, ":"@, a5, b5);
    texte::lemme_colonne(d.2, e.2, 2, "T"@, a4, b4);
    texte::lemme_colonne(d.1, e.1, 2, "-"@, a3, b3);
    texte::lemme_colonne(d.0, e.0, 4, "-"@, a2, b2);
}

/// Days since the epoch of an instant.
pub open spec fn jour_de(millis: int) -> int {
    millis / 1000 / 60 / 60 / 24
}

/// An instant, from its days, hours, minutes, seconds and milliseconds.
proof fn lemme_decompose(millis: int)
    ensures
        ({
            let d = decompose(millis / 1000);
            let ms = millis % 1000;
            let date = date_de(jour_de(millis));
            &&& d.0 == date.annee && d.1 == date.mois && d.2 == date.jour
            &&& 0 <= d.3 < 24
            &&& 0 <= d.4 < 60
            &&& 0 <= d.5 < 60
            &&& 0 <= ms < 1000
            &&& millis == 1000 * (60 * (60 * (24 * jour_de(millis) + d.3) + d.4) + d.5) + ms
        }),
{
}

proof fn lemme_plus_tot(
    j: int,
    d: (int, int, int, int, int, int),
    m: int,
    k: int,
    e: (int, int, int, int, int, int),
    n: int,
)
    requires
        0 <= d.3 < 24,
        0 <= d.4 < 60,
        0 <= d.5 < 60,
        0 <= m < 1000,
        0 <= e.3 < 24,
        0 <= e.4 < 60,
        0 <= e.5 < 60,
        0 <= n < 1000,
        1000 * (60 * (60 * (24 * j + d.3) + d.4) + d.5) + m < 1000 * (60 * (60 * (24 * k + e.3)
            + e.4) + e.5) + n,
        j < k ==> (d.0 < e.0 || (d.0 == e.0 && (d.1 < e.1 || (d.1 == e.1 && d.2 < e.2)))),
        j == k ==> d.0 == e.0 && d.1 == e.1 && d.2 == e.2,
    ensures
        plus_tot(d, m, e, n),
{
    assert(j <= k);
}

proof fn lemme_assoc(a: Seq<char>, b: Seq<char>, c: Seq<char>)
    ensures
        (a + b) + c == a + (b + c),
{
    assert((a + b) + c =~= a + (b + c));
}

/// The writing of an instant, taken from the left or from the right.
proof fn lemme_iso_ecriture(millis: int)
    ensures
        iso(millis) == ecriture(decompose(millis / 1000), millis % 1000),
{
    let d = decompose(millis / 1000);
    let ms = millis % 1000;
    let z = "Z"@ + Seq::<char>::empty();
    let r7 = texte::cadre(ms, 3) + z;
    let r6 = texte::cadre(d.5, 2) + ("."@ + r7);
    let r5 = texte::cadre(d.4, 2) + (":"@ + r6);
    let r4 = texte::cadre(d.3, 2) + (":"@ + r5);
    let r3 = texte::cadre(d.2, 2) + ("T"@ + r4);
    let r2 = texte::cadre(d.1, 2) + ("-"@ + r3);
    let l1 = texte::cadre(d.0, 4) + "-"@;
    let l2 = l1 + texte::cadre(d.1, 2) + "-"@;
    let l3 = l2 + texte::cadre(d.2, 2) + "T"@;
    let l4 = l3 + texte::cadre(d.3, 2) + ":"@;
    let l5 = l4 + texte::cadre(d.4, 2) + ":"@;
    let l6 = l5 + texte::cadre(d.5, 2) + "."@;
    assert("Z"@ =~= z);
    lemme_assoc(l6, texte::cadre(ms, 3), z);
    lemme_assoc(l5 + texte::cadre(d.5, 2), "."@, r7);
    lemme_assoc(l5, texte::cadre(d.5, 2), "."@ + r7);
    lemme_assoc(l4 + texte::cadre(d.4, 2), ":"@, r6);
    lemme_assoc(l4, texte::cadre(d.4, 2), ":"@ + r6);
    lemme_assoc(l3 + texte::cadre(d.3, 2), ":"@, r5);
    lemme_assoc(l3, texte::cadre(d.3, 2), ":"@ + r5);
    lemme_assoc(l2 + texte::cadre(d.2, 2), "T"@, r4);
    lemme_assoc(l2, texte::cadre(d.2, 2), "T"@ + r4);
    lemme_assoc(l1 + texte::cadre(d.1, 2), "-"@, r3);
    lemme_assoc(l1, texte::cadre(d.1, 2), "-"@ + r3);
    lemme_assoc(texte::cadre(d.0, 4), "-"@, r2);
}

/// The text of a later instant comes later: from the year 0 to the year 9999,
/// dates can be compared as they are written. In particular two instants never share a
/// text.
pub proof fn loi_iso_ordonne(a: int, b: int)
    requires
        a < b,
        0 <= date_de(jour_de(a)).annee,
        date_de(jour_de(b)).annee <= 9999,
    ensures
        texte::avant(iso(a), iso(b)),
        iso(a) != iso(b),
{
    lemme_decompose(a);
    lemme_decompose(b);
    let i = jour_de(a);
    let j = jour_de(b);
    let d = date_de(i);
    let e = date_de(j);
    loi_date_existe(i);
    loi_date_existe(j);
    if i < j {
        loi_dates_ordonnees(d, e, i, j);
    }
    let x = decompose(a / 1000);
    let y = decompose(b / 1000);
    let m = a % 1000;
    let n = b % 1000;
    lemme_plus_tot(i, x, m, j, y, n);
    lemme_ecritures_ordonnees(x, m, y, n);
    lemme_iso_ecriture(a);
    lemme_iso_ecriture(b);
    texte::lemme_avant_strict(iso(a));
}

// ─── Laws of the calendar ──────────────────────────────────────────────

/// Long and short months take turns, but for July and August, both long;
/// February is what is left of the year.
pub proof fn loi_longueurs_des_mois(annee: int, mois: int)
    requires
        1 <= mois <= 12,
    ensures
        mois != 2 ==> longueur_mois(annee, mois) == 30 + (mois + mois / 8) % 2,
        longueur_mois(annee, 2) == longueur_annee(annee) - 337,
        longueur_annee(annee) == 365 || longueur_annee(annee) == 366,
        longueur_annee(annee) == 366 <==> annee % 4 == 0 && (annee % 100 == 0 ==> annee % 400 == 0),
        est_bissextile(annee) <==> longueur_annee(annee) == 366,
{
    lemme_multiples(annee);
}

/// The days go by one at a time: the first is January 1st, 1970, and each has
/// the next date of the calendar: the next day of the month, or the first of
/// the next month, or the first of January of the next year.
pub proof fn loi_lendemain(jours: int)
    ensures
        date_de(0) == (Date { annee: 1970, mois: 1, jour: 1 }),
        ({
            let d = date_de(jours);
            let e = date_de(jours + 1);
            if d.jour < longueur_mois(d.annee, d.mois) {
                e == (Date { jour: d.jour + 1, ..d })
            } else if d.mois < 12 {
                e == (Date { annee: d.annee, mois: d.mois + 1, jour: 1 })
            } else {
                e == (Date { annee: d.annee + 1, mois: 1, jour: 1 })
            }
        }),
        1 <= date_de(jours).mois <= 12,
        1 <= date_de(jours).jour <= longueur_mois(date_de(jours).annee, date_de(jours).mois),
{
    let d = date_de(jours);
    loi_date_existe(0);
    loi_date_existe(jours);
    loi_date_existe(jours + 1);
    lemme_mois(1970);
    lemme_mois(d.annee);
    lemme_annee_suivante(d.annee);
    lemme_mois(d.annee + 1);
    loi_date_unique(date_de(0), Date { annee: 1970, mois: 1, jour: 1 }, 0);
    let e = if d.jour < longueur_mois(d.annee, d.mois) {
        Date { jour: d.jour + 1, ..d }
    } else if d.mois < 12 {
        Date { annee: d.annee, mois: d.mois + 1, jour: 1 }
    } else {
        Date { annee: d.annee + 1, mois: 1, jour: 1 }
    };
    if d.mois == 1 {
        assert(jours_avant_mois(d.annee, 2) == jours_avant_mois(d.annee, 1) + longueur_mois(
            d.annee,
            1,
        ));
    }
    assert(est_date(e, jours + 1));
    loi_date_unique(date_de(jours + 1), e, jours + 1);
}

/// An instant is its date and the time of that day: the seconds since the
/// epoch are those of the days gone by and those of the time of day.
pub proof fn loi_heure_du_jour(jours: int, h: int, m: int, s: int)
    requires
        0 <= h < 24,
        0 <= m < 60,
        0 <= s < 60,
    ensures
        decompose(86400 * jours + 3600 * h + 60 * m + s) == (
            date_de(jours).annee,
            date_de(jours).mois,
            date_de(jours).jour,
            h,
            m,
            s,
        ),
        forall|ms: int|
            0 <= ms < 1000 ==> #[trigger] jour_de(
                1000 * (86400 * jours + 3600 * h + 60 * m + s) + ms,
            ) == jours,
{
    let t = 86400 * jours + 3600 * h + 60 * m + s;
    assert(t / 60 == 1440 * jours + 60 * h + m && t % 60 == s);
    let u = 1440 * jours + 60 * h + m;
    assert(u / 60 == 24 * jours + h && u % 60 == m);
    let v = 24 * jours + h;
    assert(v / 24 == jours && v % 24 == h);
    assert forall|ms: int| 0 <= ms < 1000 implies #[trigger] jour_de(1000 * t + ms) == jours by {
        assert((1000 * t + ms) / 1000 == t);
    }
}

/// From the year 0 to the year 9999, an instant is written on 24 characters,
/// of which each number reads back.
pub proof fn loi_iso_relue(millis: int)
    requires
        0 <= date_de(jour_de(millis)).annee < 10_000,
    ensures
        ({
            let s = iso(millis);
            let d = date_de(jour_de(millis));
            &&& s.len() == 24
            &&& s[4] == '-' && s[7] == '-' && s[10] == 'T' && s[13] == ':' && s[16] == ':' && s[19]
                == '.' && s[23] == 'Z'
            &&& texte::valeur(s.subrange(0, 4)) == d.annee
            &&& texte::valeur(s.subrange(5, 7)) == d.mois
            &&& texte::valeur(s.subrange(8, 10)) == d.jour
            &&& texte::valeur(s.subrange(11, 13)) < 24
            &&& texte::valeur(s.subrange(14, 16)) < 60
            &&& texte::valeur(s.subrange(17, 19)) < 60
            &&& millis == 86_400_000 * jour_de(millis) + 3_600_000 * texte::valeur(
                s.subrange(11, 13),
            ) + 60_000 * texte::valeur(s.subrange(14, 16)) + 1000 * texte::valeur(
                s.subrange(17, 19),
            ) + texte::valeur(s.subrange(20, 23))
        }),
{
    reveal_with_fuel(texte::puissance10, 5);
    reveal_strlit("-");
    reveal_strlit("T");
    reveal_strlit(":");
    reveal_strlit(".");
    reveal_strlit("Z");
    let d = decompose(millis / 1000);
    let ms = millis % 1000;
    lemme_decompose(millis);
    loi_date_existe(jour_de(millis));
    loi_lendemain(jour_de(millis));
    texte::loi_largeur(d.0 as nat, 4);
    texte::loi_largeur(d.1 as nat, 2);
    texte::loi_largeur(d.2 as nat, 2);
    texte::loi_largeur(d.3 as nat, 2);
    texte::loi_largeur(d.4 as nat, 2);
    texte::loi_largeur(d.5 as nat, 2);
    texte::loi_largeur(ms as nat, 3);
    let s = iso(millis);
    assert(s.subrange(0, 4) =~= texte::cadre(d.0, 4));
    assert(s.subrange(5, 7) =~= texte::cadre(d.1, 2));
    assert(s.subrange(8, 10) =~= texte::cadre(d.2, 2));
    assert(s.subrange(11, 13) =~= texte::cadre(d.3, 2));
    assert(s.subrange(14, 16) =~= texte::cadre(d.4, 2));
    assert(s.subrange(17, 19) =~= texte::cadre(d.5, 2));
    assert(s.subrange(20, 23) =~= texte::cadre(ms, 3));
}

} // verus!
