//! The commissions of the Chamber.

use crate::text::{
    contains, holds_text, latin, latin_lowercase, law_lowercase_of_latin, lowercase, stands_at, trim,
    trimmed, white_space,
};
use vstd::prelude::*;

verus! {

/// A commission, known by its field.
#[derive(Clone, Copy, Debug, PartialEq, Eq, Structural)]
pub enum Commission {
    Landsverdediging,
    Justitie,
    BuitenlandseBetrekkingen,
    FinancienEnBegroting,
    SocialeZakenWerkEnPensioenen,
    BinnenlandseZakenVeiligheidMigratieEnBestuurszaken,
    EconomieConsumentenBeschermingEnDigitalisering,
    MobiliteitOverheidsbedrijvenEnFederaleInstellingen,
    GezondheidEnGelijkeKansen,
    EnergieLeefmilieuEnKlimaat,
    InterparlementaireKlimaatdialoog,
    GrondwetEnInstitutioneleVernieuwing,
    Onbekend,
}

impl Commission {
    /// The name under which the commission is kept.
    pub open spec fn label(self) -> Seq<char> {
        match self {
            Commission::Landsverdediging => {
                "landsverdediging"@
            },
            Commission::Justitie => {
                "justitie"@
            },
            Commission::BuitenlandseBetrekkingen => {
                "buitenlandse betrekkingen"@
            },
            Commission::FinancienEnBegroting => {
                "financiën en begroting"@
            },
            Commission::SocialeZakenWerkEnPensioenen => {
                "sociale zaken, werk en pensioenen"@
            },
            Commission::BinnenlandseZakenVeiligheidMigratieEnBestuurszaken => {
                "binnenlandse zaken, veiligheid, migratie en bestuurszaken"@
            },
            Commission::EconomieConsumentenBeschermingEnDigitalisering => {
                "economie, consumentenbescherming en digitalisering"@
            },
            Commission::MobiliteitOverheidsbedrijvenEnFederaleInstellingen => {
                "mobiliteit, overheidsbedrijven en federale instellingen"@
            },
            Commission::GezondheidEnGelijkeKansen => {
                "gezondheid en gelijke kansen"@
            },
            Commission::EnergieLeefmilieuEnKlimaat => {
                "energie, leefmilieu en klimaat"@
            },
            Commission::InterparlementaireKlimaatdialoog => {
                "interparlementaire klimaatdialoog"@
            },
            Commission::GrondwetEnInstitutioneleVernieuwing => {
                "grondwet en institutionele vernieuwing"@
            },
            Commission::Onbekend => {
                "onbekend"@
            },
        }
    }

    /// The name under which the commission is kept.
    pub fn name(&self) -> (r: String)
        ensures
            r@ == self.label(),
    {
        let name = match self {
            Commission::Landsverdediging => {
                "landsverdediging"
            },
            Commission::Justitie => {
                "justitie"
            },
            Commission::BuitenlandseBetrekkingen => {
                "buitenlandse betrekkingen"
            },
            Commission::FinancienEnBegroting => {
                "financiën en begroting"
            },
            Commission::SocialeZakenWerkEnPensioenen => {
                "sociale zaken, werk en pensioenen"
            },
            Commission::BinnenlandseZakenVeiligheidMigratieEnBestuurszaken => {
                "binnenlandse zaken, veiligheid, migratie en bestuurszaken"
            },
            Commission::EconomieConsumentenBeschermingEnDigitalisering => {
                "economie, consumentenbescherming en digitalisering"
            },
            Commission::MobiliteitOverheidsbedrijvenEnFederaleInstellingen => {
                "mobiliteit, overheidsbedrijven en federale instellingen"
            },
            Commission::GezondheidEnGelijkeKansen => {
                "gezondheid en gelijke kansen"
            },
            Commission::EnergieLeefmilieuEnKlimaat => {
                "energie, leefmilieu en klimaat"
            },
            Commission::InterparlementaireKlimaatdialoog => {
                "interparlementaire klimaatdialoog"
            },
            Commission::GrondwetEnInstitutioneleVernieuwing => {
                "grondwet en institutionele vernieuwing"
            },
            Commission::Onbekend => {
                "onbekend"
            },
        };
        name.to_owned()
    }
}

/// The commission that a name in lower case tells by a word; where several words stand in
/// it, the first of this list decides.
pub open spec fn commission_told(name: Seq<char>) -> Commission {
    if holds_text(name, "binnenlandse"@) {
        Commission::BinnenlandseZakenVeiligheidMigratieEnBestuurszaken
    } else if holds_text(name, "justitie"@) {
        Commission::Justitie
    } else if holds_text(name, "gezondheid"@) {
        Commission::GezondheidEnGelijkeKansen
    } else if holds_text(name, "economie"@) {
        Commission::EconomieConsumentenBeschermingEnDigitalisering
    } else if holds_text(name, "buitenlandse"@) {
        Commission::BuitenlandseBetrekkingen
    } else if holds_text(name, "mobiliteit"@) {
        Commission::MobiliteitOverheidsbedrijvenEnFederaleInstellingen
    } else if holds_text(name, "landsverdediging"@) {
        Commission::Landsverdediging
    } else if holds_text(name, "energie"@) {
        Commission::EnergieLeefmilieuEnKlimaat
    } else if holds_text(name, "sociale"@) {
        Commission::SocialeZakenWerkEnPensioenen
    } else if holds_text(name, "begroting"@) {
        Commission::FinancienEnBegroting
    } else if holds_text(name, "klimaatdialoog"@) {
        Commission::InterparlementaireKlimaatdialoog
    } else if holds_text(name, "grondwet"@) {
        Commission::GrondwetEnInstitutioneleVernieuwing
    } else {
        Commission::Onbekend
    }
}

/// The commission that a name tells.
pub open spec fn commission_of(raw: Seq<char>) -> Commission {
    commission_told(lowercase(trimmed(raw)))
}

/// The commission that a name in lower case tells.
pub fn recognize_commission(name: &str) -> (r: Commission)
    ensures
        r == commission_told(name@),
{
    if contains(name, "binnenlandse") {
        Commission::BinnenlandseZakenVeiligheidMigratieEnBestuurszaken
    } else if contains(name, "justitie") {
        Commission::Justitie
    } else if contains(name, "gezondheid") {
        Commission::GezondheidEnGelijkeKansen
    } else if contains(name, "economie") {
        Commission::EconomieConsumentenBeschermingEnDigitalisering
    } else if contains(name, "buitenlandse") {
        Commission::BuitenlandseBetrekkingen
    } else if contains(name, "mobiliteit") {
        Commission::MobiliteitOverheidsbedrijvenEnFederaleInstellingen
    } else if contains(name, "landsverdediging") {
        Commission::Landsverdediging
    } else if contains(name, "energie") {
        Commission::EnergieLeefmilieuEnKlimaat
    } else if contains(name, "sociale") {
        Commission::SocialeZakenWerkEnPensioenen
    } else if contains(name, "begroting") {
        Commission::FinancienEnBegroting
    } else if contains(name, "klimaatdialoog") {
        Commission::InterparlementaireKlimaatdialoog
    } else if contains(name, "grondwet") {
        Commission::GrondwetEnInstitutioneleVernieuwing
    } else {
        Commission::Onbekend
    }
}

/// The commission that a name tells.
pub fn parse_commission_type(raw: &str) -> (r: Commission)
    ensures
        r == commission_of(raw@),
{
    recognize_commission(trim(raw).to_lowercase().as_str())
}

/// Different commissions have different names.
pub proof fn law_label_tells_apart(a: Commission, b: Commission)
    requires
        a.label() == b.label(),
    ensures
        a == b,
{
    reveal_strlit("landsverdediging");
    assert("landsverdediging"@.len() == 16);
    reveal_strlit("justitie");
    assert("justitie"@.len() == 8);
    reveal_strlit("buitenlandse betrekkingen");
    assert("buitenlandse betrekkingen"@.len() == 25);
    reveal_strlit("financiën en begroting");
    assert("financiën en begroting"@.len() == 22);
    reveal_strlit("sociale zaken, werk en pensioenen");
    assert("sociale zaken, werk en pensioenen"@.len() == 33);
    reveal_strlit("binnenlandse zaken, veiligheid, migratie en bestuurszaken");
    assert("binnenlandse zaken, veiligheid, migratie en bestuurszaken"@.len() == 57);
    reveal_strlit("economie, consumentenbescherming en digitalisering");
    assert("economie, consumentenbescherming en digitalisering"@.len() == 50);
    reveal_strlit("mobiliteit, overheidsbedrijven en federale instellingen");
    assert("mobiliteit, overheidsbedrijven en federale instellingen"@.len() == 55);
    reveal_strlit("gezondheid en gelijke kansen");
    assert("gezondheid en gelijke kansen"@.len() == 28);
    reveal_strlit("energie, leefmilieu en klimaat");
    assert("energie, leefmilieu en klimaat"@.len() == 30);
    reveal_strlit("interparlementaire klimaatdialoog");
    assert("interparlementaire klimaatdialoog"@.len() == 33);
    reveal_strlit("grondwet en institutionele vernieuwing");
    assert("grondwet en institutionele vernieuwing"@.len() == 38);
    reveal_strlit("onbekend");
    assert("onbekend"@.len() == 8);
    assert("justitie"@[0] != "onbekend"@[0]);
    assert("sociale zaken, werk en pensioenen"@[0] != "interparlementaire klimaatdialoog"@[0]);
}

/// Whether the characters at `i` and behind it are the two given ones.
spec fn neighbours(s: Seq<char>, i: int, first: char, second: char) -> bool {
    s[i] == first && s[i + 1] == second
}

/// A text in which no two neighbours are those at `k` in a word does not hold the word.
proof fn lemma_word_absent(s: Seq<char>, word: Seq<char>, k: int)
    requires
        0 <= k,
        k + 1 < word.len(),
        forall|i: int|
            0 <= i < s.len() - 1 ==> !#[trigger] neighbours(s, i, word[k], word[k + 1]),
    ensures
        !holds_text(s, word),
{
    assert forall|at: int| !stands_at(s, at, word) by {
        if stands_at(s, at, word) {
            let part = s.subrange(at, at + word.len());
            assert(part[k] == s[at + k]);
            assert(part[k + 1] == s[at + k + 1]);
            assert(neighbours(s, at + k, word[k], word[k + 1]));
        }
    }
}

/// A text holds itself.
proof fn lemma_holds_itself(s: Seq<char>)
    ensures
        holds_text(s, s),
{
    assert(s.subrange(0, s.len() as int) == s);
    assert(stands_at(s, 0, s));
}

proof fn lemma_not_told_by_landsverdediging()
    ensures
        !holds_text("landsverdediging"@, "binnenlandse"@),
        !holds_text("landsverdediging"@, "justitie"@),
        !holds_text("landsverdediging"@, "gezondheid"@),
        !holds_text("landsverdediging"@, "economie"@),
        !holds_text("landsverdediging"@, "buitenlandse"@),
        !holds_text("landsverdediging"@, "mobiliteit"@),
{
    let label = "landsverdediging"@;
    reveal_strlit("landsverdediging");
    reveal_strlit("binnenlandse");
    lemma_word_absent(label, "binnenlandse"@, 0);
    reveal_strlit("justitie");
    lemma_word_absent(label, "justitie"@, 0);
    reveal_strlit("gezondheid");
    lemma_word_absent(label, "gezondheid"@, 0);
    reveal_strlit("economie");
    lemma_word_absent(label, "economie"@, 0);
    reveal_strlit("buitenlandse");
    lemma_word_absent(label, "buitenlandse"@, 0);
    reveal_strlit("mobiliteit");
    lemma_word_absent(label, "mobiliteit"@, 0);
}

proof fn lemma_told_landsverdediging()
    ensures
        commission_told("landsverdediging"@) == Commission::Landsverdediging,
{
    lemma_not_told_by_landsverdediging();
    lemma_holds_itself("landsverdediging"@);
}

proof fn lemma_not_told_by_justitie()
    ensures
        !holds_text("justitie"@, "binnenlandse"@),
{
    let label = "justitie"@;
    reveal_strlit("justitie");
    reveal_strlit("binnenlandse");
    lemma_word_absent(label, "binnenlandse"@, 0);
}

proof fn lemma_told_justitie()
    ensures
        commission_told("justitie"@) == Commission::Justitie,
{
    lemma_not_told_by_justitie();
    lemma_holds_itself("justitie"@);
}

proof fn lemma_told_buitenlandse_betrekkingen()
    ensures
        commission_told("buitenlandse betrekkingen"@) == Commission::BuitenlandseBetrekkingen,
{
    let label = "buitenlandse betrekkingen"@;
    reveal_strlit("buitenlandse betrekkingen");
    reveal_strlit("binnenlandse");
    lemma_word_absent(label, "binnenlandse"@, 0);
    reveal_strlit("justitie");
    lemma_word_absent(label, "justitie"@, 0);
    reveal_strlit("gezondheid");
    lemma_word_absent(label, "gezondheid"@, 1);
    reveal_strlit("economie");
    lemma_word_absent(label, "economie"@, 0);
    reveal_strlit("buitenlandse");
    assert(label.subrange(0, 12) =~= "buitenlandse"@);
    assert(stands_at(label, 0, "buitenlandse"@));
}

proof fn lemma_told_financien_en_begroting()
    ensures
        commission_told("financiën en begroting"@) == Commission::FinancienEnBegroting,
{
    let label = "financiën en begroting"@;
    reveal_strlit("financiën en begroting");
    reveal_strlit("binnenlandse");
    lemma_word_absent(label, "binnenlandse"@, 0);
    reveal_strlit("justitie");
    lemma_word_absent(label, "justitie"@, 0);
    reveal_strlit("gezondheid");
    lemma_word_absent(label, "gezondheid"@, 0);
    reveal_strlit("economie");
    lemma_word_absent(label, "economie"@, 0);
    reveal_strlit("buitenlandse");
    lemma_word_absent(label, "buitenlandse"@, 0);
    reveal_strlit("mobiliteit");
    lemma_word_absent(label, "mobiliteit"@, 0);
    reveal_strlit("landsverdediging");
    lemma_word_absent(label, "landsverdediging"@, 0);
    reveal_strlit("energie");
    lemma_word_absent(label, "energie"@, 1);
    reveal_strlit("sociale");
    lemma_word_absent(label, "sociale"@, 0);
    reveal_strlit("begroting");
    assert(label.subrange(13, 22) =~= "begroting"@);
    assert(stands_at(label, 13, "begroting"@));
}

proof fn lemma_told_sociale_zaken_werk_en_pensioenen()
    ensures
        commission_told("sociale zaken, werk en pensioenen"@) == Commission::SocialeZakenWerkEnPensioenen,
{
    let label = "sociale zaken, werk en pensioenen"@;
    reveal_strlit("sociale zaken, werk en pensioenen");
    reveal_strlit("binnenlandse");
    lemma_word_absent(label, "binnenlandse"@, 0);
    reveal_strlit("justitie");
    lemma_word_absent(label, "justitie"@, 0);
    reveal_strlit("gezondheid");
    lemma_word_absent(label, "gezondheid"@, 0);
    reveal_strlit("economie");
    lemma_word_absent(label, "economie"@, 0);
    reveal_strlit("buitenlandse");
    lemma_word_absent(label, "buitenlandse"@, 0);
    reveal_strlit("mobiliteit");
    lemma_word_absent(label, "mobiliteit"@, 0);
    reveal_strlit("landsverdediging");
    lemma_word_absent(label, "landsverdediging"@, 0);
    reveal_strlit("energie");
    lemma_word_absent(label, "energie"@, 3);
    reveal_strlit("sociale");
    assert(label.subrange(0, 7) =~= "sociale"@);
    assert(stands_at(label, 0, "sociale"@));
}

proof fn lemma_told_binnenlandse_zaken_veiligheid_migratie_en_bestuurszaken()
    ensures
        commission_told("binnenlandse zaken, veiligheid, migratie en bestuurszaken"@) == Commission::BinnenlandseZakenVeiligheidMigratieEnBestuurszaken,
{
    let label = "binnenlandse zaken, veiligheid, migratie en bestuurszaken"@;
    reveal_strlit("binnenlandse zaken, veiligheid, migratie en bestuurszaken");
    reveal_strlit("binnenlandse");
    assert(label.subrange(0, 12) =~= "binnenlandse"@);
    assert(stands_at(label, 0, "binnenlandse"@));
}

proof fn lemma_told_economie_consumenten_bescherming_en_digitalisering()
    ensures
        commission_told("economie, consumentenbescherming en digitalisering"@) == Commission::EconomieConsumentenBeschermingEnDigitalisering,
{
    let label = "economie, consumentenbescherming en digitalisering"@;
    reveal_strlit("economie, consumentenbescherming en digitalisering");
    reveal_strlit("binnenlandse");
    lemma_word_absent(label, "binnenlandse"@, 0);
    reveal_strlit("justitie");
    lemma_word_absent(label, "justitie"@, 0);
    reveal_strlit("gezondheid");
    lemma_word_absent(label, "gezondheid"@, 0);
    reveal_strlit("economie");
    assert(label.subrange(0, 8) =~= "economie"@);
    assert(stands_at(label, 0, "economie"@));
}

proof fn lemma_told_mobiliteit_overheidsbedrijven_en_federale_instellingen()
    ensures
        commission_told("mobiliteit, overheidsbedrijven en federale instellingen"@) == Commission::MobiliteitOverheidsbedrijvenEnFederaleInstellingen,
{
    let label = "mobiliteit, overheidsbedrijven en federale instellingen"@;
    reveal_strlit("mobiliteit, overheidsbedrijven en federale instellingen");
    reveal_strlit("binnenlandse");
    lemma_word_absent(label, "binnenlandse"@, 2);
    reveal_strlit("justitie");
    lemma_word_absent(label, "justitie"@, 0);
    reveal_strlit("gezondheid");
    lemma_word_absent(label, "gezondheid"@, 1);
    reveal_strlit("economie");
    lemma_word_absent(label, "economie"@, 0);
    reveal_strlit("buitenlandse");
    lemma_word_absent(label, "buitenlandse"@, 0);
    reveal_strlit("mobiliteit");
    assert(label.subrange(0, 10) =~= "mobiliteit"@);
    assert(stands_at(label, 0, "mobiliteit"@));
}

proof fn lemma_told_gezondheid_en_gelijke_kansen()
    ensures
        commission_told("gezondheid en gelijke kansen"@) == Commission::GezondheidEnGelijkeKansen,
{
    let label = "gezondheid en gelijke kansen"@;
    reveal_strlit("gezondheid en gelijke kansen");
    reveal_strlit("binnenlandse");
    lemma_word_absent(label, "binnenlandse"@, 0);
    reveal_strlit("justitie");
    lemma_word_absent(label, "justitie"@, 0);
    reveal_strlit("gezondheid");
    assert(label.subrange(0, 10) =~= "gezondheid"@);
    assert(stands_at(label, 0, "gezondheid"@));
}

proof fn lemma_told_energie_leefmilieu_en_klimaat()
    ensures
        commission_told("energie, leefmilieu en klimaat"@) == Commission::EnergieLeefmilieuEnKlimaat,
{
    let label = "energie, leefmilieu en klimaat"@;
    reveal_strlit("energie, leefmilieu en klimaat");
    reveal_strlit("binnenlandse");
    lemma_word_absent(label, "binnenlandse"@, 0);
    reveal_strlit("justitie");
    lemma_word_absent(label, "justitie"@, 0);
    reveal_strlit("gezondheid");
    lemma_word_absent(label, "gezondheid"@, 0);
    reveal_strlit("economie");
    lemma_word_absent(label, "economie"@, 0);
    reveal_strlit("buitenlandse");
    lemma_word_absent(label, "buitenlandse"@, 0);
    reveal_strlit("mobiliteit");
    lemma_word_absent(label, "mobiliteit"@, 0);
    reveal_strlit("landsverdediging");
    lemma_word_absent(label, "landsverdediging"@, 0);
    reveal_strlit("energie");
    assert(label.subrange(0, 7) =~= "energie"@);
    assert(stands_at(label, 0, "energie"@));
}

proof fn lemma_told_interparlementaire_klimaatdialoog()
    ensures
        commission_told("interparlementaire klimaatdialoog"@) == Commission::InterparlementaireKlimaatdialoog,
{
    let label = "interparlementaire klimaatdialoog"@;
    reveal_strlit("interparlementaire klimaatdialoog");
    reveal_strlit("binnenlandse");
    lemma_word_absent(label, "binnenlandse"@, 0);
    reveal_strlit("justitie");
    lemma_word_absent(label, "justitie"@, 0);
    reveal_strlit("gezondheid");
    lemma_word_absent(label, "gezondheid"@, 0);
    reveal_strlit("economie");
    lemma_word_absent(label, "economie"@, 0);
    reveal_strlit("buitenlandse");
    lemma_word_absent(label, "buitenlandse"@, 0);
    reveal_strlit("mobiliteit");
    lemma_word_absent(label, "mobiliteit"@, 0);
    reveal_strlit("landsverdediging");
    lemma_word_absent(label, "landsverdediging"@, 0);
    reveal_strlit("energie");
    lemma_word_absent(label, "energie"@, 1);
    reveal_strlit("sociale");
    lemma_word_absent(label, "sociale"@, 0);
    reveal_strlit("begroting");
    lemma_word_absent(label, "begroting"@, 0);
    reveal_strlit("klimaatdialoog");
    assert(label.subrange(19, 33) =~= "klimaatdialoog"@);
    assert(stands_at(label, 19, "klimaatdialoog"@));
}

proof fn lemma_told_grondwet_en_institutionele_vernieuwing()
    ensures
        commission_told("grondwet en institutionele vernieuwing"@) == Commission::GrondwetEnInstitutioneleVernieuwing,
{
    let label = "grondwet en institutionele vernieuwing"@;
    reveal_strlit("grondwet en institutionele vernieuwing");
    reveal_strlit("binnenlandse");
    lemma_word_absent(label, "binnenlandse"@, 0);
    reveal_strlit("justitie");
    lemma_word_absent(label, "justitie"@, 0);
    reveal_strlit("gezondheid");
    lemma_word_absent(label, "gezondheid"@, 0);
    reveal_strlit("economie");
    lemma_word_absent(label, "economie"@, 0);
    reveal_strlit("buitenlandse");
    lemma_word_absent(label, "buitenlandse"@, 0);
    reveal_strlit("mobiliteit");
    lemma_word_absent(label, "mobiliteit"@, 0);
    reveal_strlit("landsverdediging");
    lemma_word_absent(label, "landsverdediging"@, 0);
    reveal_strlit("energie");
    lemma_word_absent(label, "energie"@, 3);
    reveal_strlit("sociale");
    lemma_word_absent(label, "sociale"@, 0);
    reveal_strlit("begroting");
    lemma_word_absent(label, "begroting"@, 0);
    reveal_strlit("klimaatdialoog");
    lemma_word_absent(label, "klimaatdialoog"@, 0);
    reveal_strlit("grondwet");
    assert(label.subrange(0, 8) =~= "grondwet"@);
    assert(stands_at(label, 0, "grondwet"@));
}

proof fn lemma_told_onbekend()
    ensures
        commission_told("onbekend"@) == Commission::Onbekend,
{
    let label = "onbekend"@;
    reveal_strlit("onbekend");
    reveal_strlit("binnenlandse");
    lemma_word_absent(label, "binnenlandse"@, 0);
    reveal_strlit("justitie");
    lemma_word_absent(label, "justitie"@, 0);
    reveal_strlit("gezondheid");
    lemma_word_absent(label, "gezondheid"@, 0);
    reveal_strlit("economie");
    lemma_word_absent(label, "economie"@, 0);
    reveal_strlit("buitenlandse");
    lemma_word_absent(label, "buitenlandse"@, 0);
    reveal_strlit("mobiliteit");
    lemma_word_absent(label, "mobiliteit"@, 0);
    reveal_strlit("landsverdediging");
    lemma_word_absent(label, "landsverdediging"@, 0);
    reveal_strlit("energie");
    lemma_word_absent(label, "energie"@, 1);
    reveal_strlit("sociale");
    lemma_word_absent(label, "sociale"@, 0);
    reveal_strlit("begroting");
    lemma_word_absent(label, "begroting"@, 1);
    reveal_strlit("klimaatdialoog");
    lemma_word_absent(label, "klimaatdialoog"@, 0);
    reveal_strlit("grondwet");
    lemma_word_absent(label, "grondwet"@, 0);
}

/// A text of small letters, commas and spaces, with no space at its ends, is its own lower case
/// and has nothing to trim.
proof fn lemma_plain(s: Seq<char>)
    requires
        s.len() > 0,
        forall|i: int|
            0 <= i < s.len() ==> #[trigger] s[i] == ' ' || s[i] == ',' || s[i] == '\u{eb}' || 'a'
                <= s[i] <= 'z',
        s[0] != ' ',
        s.last() != ' ',
    ensures
        lowercase(s) == s,
        trimmed(s) == s,
{
    assert(latin(s));
    law_lowercase_of_latin(s);
    assert(latin_lowercase(s) =~= s);
    assert(!white_space(s[0]));
    assert(!white_space(s[s.len() - 1]));
}

/// The name under which a commission is kept is in lower case, with nothing to trim.
proof fn lemma_label_is_plain(commission: Commission)
    ensures
        lowercase(commission.label()) == commission.label(),
        trimmed(commission.label()) == commission.label(),
{
    match commission {
        Commission::Landsverdediging => reveal_strlit("landsverdediging"),
        Commission::Justitie => reveal_strlit("justitie"),
        Commission::BuitenlandseBetrekkingen => reveal_strlit("buitenlandse betrekkingen"),
        Commission::FinancienEnBegroting => reveal_strlit("financiën en begroting"),
        Commission::SocialeZakenWerkEnPensioenen => {
            reveal_strlit("sociale zaken, werk en pensioenen")
        },
        Commission::BinnenlandseZakenVeiligheidMigratieEnBestuurszaken => {
            reveal_strlit("binnenlandse zaken, veiligheid, migratie en bestuurszaken")
        },
        Commission::EconomieConsumentenBeschermingEnDigitalisering => {
            reveal_strlit("economie, consumentenbescherming en digitalisering")
        },
        Commission::MobiliteitOverheidsbedrijvenEnFederaleInstellingen => {
            reveal_strlit("mobiliteit, overheidsbedrijven en federale instellingen")
        },
        Commission::GezondheidEnGelijkeKansen => reveal_strlit("gezondheid en gelijke kansen"),
        Commission::EnergieLeefmilieuEnKlimaat => reveal_strlit("energie, leefmilieu en klimaat"),
        Commission::InterparlementaireKlimaatdialoog => {
            reveal_strlit("interparlementaire klimaatdialoog")
        },
        Commission::GrondwetEnInstitutioneleVernieuwing => {
            reveal_strlit("grondwet en institutionele vernieuwing")
        },
        Commission::Onbekend => reveal_strlit("onbekend"),
    }
    lemma_plain(commission.label());
}

/// The name under which a commission is kept tells that commission.
pub proof fn law_label_tells_commission(commission: Commission)
    ensures
        commission_told(commission.label()) == commission,
        commission_of(commission.label()) == commission,
{
    lemma_label_is_plain(commission);
    match commission {
        Commission::Landsverdediging => lemma_told_landsverdediging(),
        Commission::Justitie => lemma_told_justitie(),
        Commission::BuitenlandseBetrekkingen => lemma_told_buitenlandse_betrekkingen(),
        Commission::FinancienEnBegroting => lemma_told_financien_en_begroting(),
        Commission::SocialeZakenWerkEnPensioenen => lemma_told_sociale_zaken_werk_en_pensioenen(),
        Commission::BinnenlandseZakenVeiligheidMigratieEnBestuurszaken => lemma_told_binnenlandse_zaken_veiligheid_migratie_en_bestuurszaken(),
        Commission::EconomieConsumentenBeschermingEnDigitalisering => lemma_told_economie_consumenten_bescherming_en_digitalisering(),
        Commission::MobiliteitOverheidsbedrijvenEnFederaleInstellingen => lemma_told_mobiliteit_overheidsbedrijven_en_federale_instellingen(),
        Commission::GezondheidEnGelijkeKansen => lemma_told_gezondheid_en_gelijke_kansen(),
        Commission::EnergieLeefmilieuEnKlimaat => lemma_told_energie_leefmilieu_en_klimaat(),
        Commission::InterparlementaireKlimaatdialoog => lemma_told_interparlementaire_klimaatdialoog(),
        Commission::GrondwetEnInstitutioneleVernieuwing => lemma_told_grondwet_en_institutionele_vernieuwing(),
        Commission::Onbekend => lemma_told_onbekend(),
    }
}

/// A word decides wherever it stands in a name, in any case of its letters and with any white
/// space around the name: the first word of the list that the name holds tells the commission,
/// and it is unknown only where the name holds none of them.
pub proof fn law_words_tell_the_commission(name: Seq<char>, raw: Seq<char>)
    requires
        name == lowercase(trimmed(raw)),
    ensures
        commission_of(raw) == commission_told(name),
        holds_text(name, "binnenlandse"@) ==> commission_told(name)
            == Commission::BinnenlandseZakenVeiligheidMigratieEnBestuurszaken,
        !holds_text(name, "binnenlandse"@)
            && holds_text(name, "justitie"@) ==> commission_told(name)
            == Commission::Justitie,
        !holds_text(name, "binnenlandse"@)
            && !holds_text(name, "justitie"@)
            && holds_text(name, "gezondheid"@) ==> commission_told(name)
            == Commission::GezondheidEnGelijkeKansen,
        !holds_text(name, "binnenlandse"@)
            && !holds_text(name, "justitie"@)
            && !holds_text(name, "gezondheid"@)
            && holds_text(name, "economie"@) ==> commission_told(name)
            == Commission::EconomieConsumentenBeschermingEnDigitalisering,
        !holds_text(name, "binnenlandse"@)
            && !holds_text(name, "justitie"@)
            && !holds_text(name, "gezondheid"@)
            && !holds_text(name, "economie"@)
            && holds_text(name, "buitenlandse"@) ==> commission_told(name)
            == Commission::BuitenlandseBetrekkingen,
        !holds_text(name, "binnenlandse"@)
            && !holds_text(name, "justitie"@)
            && !holds_text(name, "gezondheid"@)
            && !holds_text(name, "economie"@)
            && !holds_text(name, "buitenlandse"@)
            && holds_text(name, "mobiliteit"@) ==> commission_told(name)
            == Commission::MobiliteitOverheidsbedrijvenEnFederaleInstellingen,
        !holds_text(name, "binnenlandse"@)
            && !holds_text(name, "justitie"@)
            && !holds_text(name, "gezondheid"@)
            && !holds_text(name, "economie"@)
            && !holds_text(name, "buitenlandse"@)
            && !holds_text(name, "mobiliteit"@)
            && holds_text(name, "landsverdediging"@) ==> commission_told(name)
            == Commission::Landsverdediging,
        !holds_text(name, "binnenlandse"@)
            && !holds_text(name, "justitie"@)
            && !holds_text(name, "gezondheid"@)
            && !holds_text(name, "economie"@)
            && !holds_text(name, "buitenlandse"@)
            && !holds_text(name, "mobiliteit"@)
            && !holds_text(name, "landsverdediging"@)
            && holds_text(name, "energie"@) ==> commission_told(name)
            == Commission::EnergieLeefmilieuEnKlimaat,
        !holds_text(name, "binnenlandse"@)
            && !holds_text(name, "justitie"@)
            && !holds_text(name, "gezondheid"@)
            && !holds_text(name, "economie"@)
            && !holds_text(name, "buitenlandse"@)
            && !holds_text(name, "mobiliteit"@)
            && !holds_text(name, "landsverdediging"@)
            && !holds_text(name, "energie"@)
            && holds_text(name, "sociale"@) ==> commission_told(name)
            == Commission::SocialeZakenWerkEnPensioenen,
        !holds_text(name, "binnenlandse"@)
            && !holds_text(name, "justitie"@)
            && !holds_text(name, "gezondheid"@)
            && !holds_text(name, "economie"@)
            && !holds_text(name, "buitenlandse"@)
            && !holds_text(name, "mobiliteit"@)
            && !holds_text(name, "landsverdediging"@)
            && !holds_text(name, "energie"@)
            && !holds_text(name, "sociale"@)
            && holds_text(name, "begroting"@) ==> commission_told(name)
            == Commission::FinancienEnBegroting,
        !holds_text(name, "binnenlandse"@)
            && !holds_text(name, "justitie"@)
            && !holds_text(name, "gezondheid"@)
            && !holds_text(name, "economie"@)
            && !holds_text(name, "buitenlandse"@)
            && !holds_text(name, "mobiliteit"@)
            && !holds_text(name, "landsverdediging"@)
            && !holds_text(name, "energie"@)
            && !holds_text(name, "sociale"@)
            && !holds_text(name, "begroting"@)
            && holds_text(name, "klimaatdialoog"@) ==> commission_told(name)
            == Commission::InterparlementaireKlimaatdialoog,
        !holds_text(name, "binnenlandse"@)
            && !holds_text(name, "justitie"@)
            && !holds_text(name, "gezondheid"@)
            && !holds_text(name, "economie"@)
            && !holds_text(name, "buitenlandse"@)
            && !holds_text(name, "mobiliteit"@)
            && !holds_text(name, "landsverdediging"@)
            && !holds_text(name, "energie"@)
            && !holds_text(name, "sociale"@)
            && !holds_text(name, "begroting"@)
            && !holds_text(name, "klimaatdialoog"@)
            && holds_text(name, "grondwet"@) ==> commission_told(name)
            == Commission::GrondwetEnInstitutioneleVernieuwing,
        commission_told(name) == Commission::Onbekend <==> !holds_text(name, "binnenlandse"@)
            && !holds_text(name, "justitie"@)
            && !holds_text(name, "gezondheid"@)
            && !holds_text(name, "economie"@)
            && !holds_text(name, "buitenlandse"@)
            && !holds_text(name, "mobiliteit"@)
            && !holds_text(name, "landsverdediging"@)
            && !holds_text(name, "energie"@)
            && !holds_text(name, "sociale"@)
            && !holds_text(name, "begroting"@)
            && !holds_text(name, "klimaatdialoog"@)
            && !holds_text(name, "grondwet"@),
{
}

/// The names under which the commissions are kept.
pub proof fn law_commissions_have_these_names()
    ensures
        Commission::Landsverdediging.label() == "landsverdediging"@,
        Commission::Justitie.label() == "justitie"@,
        Commission::BuitenlandseBetrekkingen.label() == "buitenlandse betrekkingen"@,
        Commission::FinancienEnBegroting.label() == "financiën en begroting"@,
        Commission::SocialeZakenWerkEnPensioenen.label() == "sociale zaken, werk en pensioenen"@,
        Commission::BinnenlandseZakenVeiligheidMigratieEnBestuurszaken.label() == "binnenlandse zaken, veiligheid, migratie en bestuurszaken"@,
        Commission::EconomieConsumentenBeschermingEnDigitalisering.label() == "economie, consumentenbescherming en digitalisering"@,
        Commission::MobiliteitOverheidsbedrijvenEnFederaleInstellingen.label() == "mobiliteit, overheidsbedrijven en federale instellingen"@,
        Commission::GezondheidEnGelijkeKansen.label() == "gezondheid en gelijke kansen"@,
        Commission::EnergieLeefmilieuEnKlimaat.label() == "energie, leefmilieu en klimaat"@,
        Commission::InterparlementaireKlimaatdialoog.label() == "interparlementaire klimaatdialoog"@,
        Commission::GrondwetEnInstitutioneleVernieuwing.label() == "grondwet en institutionele vernieuwing"@,
        Commission::Onbekend.label() == "onbekend"@,
{
}

} // verus!
