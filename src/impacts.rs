use vstd::prelude::*;
use std::sync::Arc;

use crate::labels::LabelMap;
use vstd::string::StringExecFns;
use crate::sparse::{with_entry, MappedMatrix, MappedMatrixBuilder, MappedVector, MAX_DIM};

verus! {

/// Number of impact categories of the EF 3.1 method.
pub const EF31_COUNT: usize = 25;

/// The impact categories of the Environmental Footprint method 3.1, in their
/// fixed order.
#[derive(Debug, Clone, Copy, PartialEq, Eq, Structural, Hash)]
pub enum EF31 {
    Gwp100,
    Acidification,
    BiogenicGwp100,
    FossilGwp100,
    ClimateChangeLandUse,
    ParticulMatter,
    EcotoxicityFreshwater,
    EcotoxicityFreshwaterInorganics,
    EcotoxicityFreshwaterOrganics,
    EutrophicationMarine,
    EutrophicationFreshwater,
    EutrophicationTerrestrial,
    HumanToxicityCarcinogenic,
    HumanToxicityCarcinogenicInorganics,
    HumanToxicityCarcinogenicOrganics,
    HumanToxicityNonCacrinogenic,
    HumanToxicityNonCacinogenicInorganics,
    HumanToxicityNonCacinogenicOrganics,
    IonisingRadiation,
    LandUse,
    OzoneDepletion,
    PhotochemicalOxidant,
    EnergyResourcesNonRenewable,
    EnergyResourcesMetalsMinerals,
    WaterUse,
}

/// An impact category, by method.
#[derive(Debug, Clone, Copy, PartialEq, Eq, Structural, Hash)]
pub enum ImpactCategory {
    EF31(EF31),
}

impl EF31 {
    /// Position of the category in the fixed order.
    pub open spec fn spec_index(self) -> nat {
        match self {
            EF31::Gwp100 => 0,
            EF31::Acidification => 1,
            EF31::BiogenicGwp100 => 2,
            EF31::FossilGwp100 => 3,
            EF31::ClimateChangeLandUse => 4,
            EF31::ParticulMatter => 5,
            EF31::EcotoxicityFreshwater => 6,
            EF31::EcotoxicityFreshwaterInorganics => 7,
            EF31::EcotoxicityFreshwaterOrganics => 8,
            EF31::EutrophicationMarine => 9,
            EF31::EutrophicationFreshwater => 10,
            EF31::EutrophicationTerrestrial => 11,
            EF31::HumanToxicityCarcinogenic => 12,
            EF31::HumanToxicityCarcinogenicInorganics => 13,
            EF31::HumanToxicityCarcinogenicOrganics => 14,
            EF31::HumanToxicityNonCacrinogenic => 15,
            EF31::HumanToxicityNonCacinogenicInorganics => 16,
            EF31::HumanToxicityNonCacinogenicOrganics => 17,
            EF31::IonisingRadiation => 18,
            EF31::LandUse => 19,
            EF31::OzoneDepletion => 20,
            EF31::PhotochemicalOxidant => 21,
            EF31::EnergyResourcesNonRenewable => 22,
            EF31::EnergyResourcesMetalsMinerals => 23,
            EF31::WaterUse => 24,
        }
    }

    /// The category's label: its name.
    pub open spec fn spec_label(self) -> Seq<char> {
        match self {
            EF31::Gwp100 => "Gwp100"@,
            EF31::Acidification => "Acidification"@,
            EF31::BiogenicGwp100 => "BiogenicGwp100"@,
            EF31::FossilGwp100 => "FossilGwp100"@,
            EF31::ClimateChangeLandUse => "ClimateChangeLandUse"@,
            EF31::ParticulMatter => "ParticulMatter"@,
            EF31::EcotoxicityFreshwater => "EcotoxicityFreshwater"@,
            EF31::EcotoxicityFreshwaterInorganics => "EcotoxicityFreshwaterInorganics"@,
            EF31::EcotoxicityFreshwaterOrganics => "EcotoxicityFreshwaterOrganics"@,
            EF31::EutrophicationMarine => "EutrophicationMarine"@,
            EF31::EutrophicationFreshwater => "EutrophicationFreshwater"@,
            EF31::EutrophicationTerrestrial => "EutrophicationTerrestrial"@,
            EF31::HumanToxicityCarcinogenic => "HumanToxicityCarcinogenic"@,
            EF31::HumanToxicityCarcinogenicInorganics => "HumanToxicityCarcinogenicInorganics"@,
            EF31::HumanToxicityCarcinogenicOrganics => "HumanToxicityCarcinogenicOrganics"@,
            EF31::HumanToxicityNonCacrinogenic => "HumanToxicityNonCacrinogenic"@,
            EF31::HumanToxicityNonCacinogenicInorganics => "HumanToxicityNonCacinogenicInorganics"@,
            EF31::HumanToxicityNonCacinogenicOrganics => "HumanToxicityNonCacinogenicOrganics"@,
            EF31::IonisingRadiation => "IonisingRadiation"@,
            EF31::LandUse => "LandUse"@,
            EF31::OzoneDepletion => "OzoneDepletion"@,
            EF31::PhotochemicalOxidant => "PhotochemicalOxidant"@,
            EF31::EnergyResourcesNonRenewable => "EnergyResourcesNonRenewable"@,
            EF31::EnergyResourcesMetalsMinerals => "EnergyResourcesMetalsMinerals"@,
            EF31::WaterUse => "WaterUse"@,
        }
    }

    /// Position of the category in the fixed order.
    pub fn index(&self) -> (r: usize)
        ensures
            r == self.spec_index(),
    {
        match self {
            EF31::Gwp100 => 0,
            EF31::Acidification => 1,
            EF31::BiogenicGwp100 => 2,
            EF31::FossilGwp100 => 3,
            EF31::ClimateChangeLandUse => 4,
            EF31::ParticulMatter => 5,
            EF31::EcotoxicityFreshwater => 6,
            EF31::EcotoxicityFreshwaterInorganics => 7,
            EF31::EcotoxicityFreshwaterOrganics => 8,
            EF31::EutrophicationMarine => 9,
            EF31::EutrophicationFreshwater => 10,
            EF31::EutrophicationTerrestrial => 11,
            EF31::HumanToxicityCarcinogenic => 12,
            EF31::HumanToxicityCarcinogenicInorganics => 13,
            EF31::HumanToxicityCarcinogenicOrganics => 14,
            EF31::HumanToxicityNonCacrinogenic => 15,
            EF31::HumanToxicityNonCacinogenicInorganics => 16,
            EF31::HumanToxicityNonCacinogenicOrganics => 17,
            EF31::IonisingRadiation => 18,
            EF31::LandUse => 19,
            EF31::OzoneDepletion => 20,
            EF31::PhotochemicalOxidant => 21,
            EF31::EnergyResourcesNonRenewable => 22,
            EF31::EnergyResourcesMetalsMinerals => 23,
            EF31::WaterUse => 24,
        }
    }

    /// The category at position `i` of the fixed order.
    pub fn from_index(i: usize) -> (r: Option<EF31>)
        ensures
            r is None <==> i >= EF31_COUNT,
            r matches Some(c) ==> c.spec_index() == i && c == ef31_at(i as int),
    {
        match i {
            0 => Some(EF31::Gwp100),
            1 => Some(EF31::Acidification),
            2 => Some(EF31::BiogenicGwp100),
            3 => Some(EF31::FossilGwp100),
            4 => Some(EF31::ClimateChangeLandUse),
            5 => Some(EF31::ParticulMatter),
            6 => Some(EF31::EcotoxicityFreshwater),
            7 => Some(EF31::EcotoxicityFreshwaterInorganics),
            8 => Some(EF31::EcotoxicityFreshwaterOrganics),
            9 => Some(EF31::EutrophicationMarine),
            10 => Some(EF31::EutrophicationFreshwater),
            11 => Some(EF31::EutrophicationTerrestrial),
            12 => Some(EF31::HumanToxicityCarcinogenic),
            13 => Some(EF31::HumanToxicityCarcinogenicInorganics),
            14 => Some(EF31::HumanToxicityCarcinogenicOrganics),
            15 => Some(EF31::HumanToxicityNonCacrinogenic),
            16 => Some(EF31::HumanToxicityNonCacinogenicInorganics),
            17 => Some(EF31::HumanToxicityNonCacinogenicOrganics),
            18 => Some(EF31::IonisingRadiation),
            19 => Some(EF31::LandUse),
            20 => Some(EF31::OzoneDepletion),
            21 => Some(EF31::PhotochemicalOxidant),
            22 => Some(EF31::EnergyResourcesNonRenewable),
            23 => Some(EF31::EnergyResourcesMetalsMinerals),
            24 => Some(EF31::WaterUse),
            _ => None,
        }
    }

    /// The category's label: its name.
    pub fn label(&self) -> (r: String)
        ensures
            r@ == self.spec_label(),
    {
        match self {
            EF31::Gwp100 => String::from_str("Gwp100"),
            EF31::Acidification => String::from_str("Acidification"),
            EF31::BiogenicGwp100 => String::from_str("BiogenicGwp100"),
            EF31::FossilGwp100 => String::from_str("FossilGwp100"),
            EF31::ClimateChangeLandUse => String::from_str("ClimateChangeLandUse"),
            EF31::ParticulMatter => String::from_str("ParticulMatter"),
            EF31::EcotoxicityFreshwater => String::from_str("EcotoxicityFreshwater"),
            EF31::EcotoxicityFreshwaterInorganics => String::from_str("EcotoxicityFreshwaterInorganics"),
            EF31::EcotoxicityFreshwaterOrganics => String::from_str("EcotoxicityFreshwaterOrganics"),
            EF31::EutrophicationMarine => String::from_str("EutrophicationMarine"),
            EF31::EutrophicationFreshwater => String::from_str("EutrophicationFreshwater"),
            EF31::EutrophicationTerrestrial => String::from_str("EutrophicationTerrestrial"),
            EF31::HumanToxicityCarcinogenic => String::from_str("HumanToxicityCarcinogenic"),
            EF31::HumanToxicityCarcinogenicInorganics => String::from_str("HumanToxicityCarcinogenicInorganics"),
            EF31::HumanToxicityCarcinogenicOrganics => String::from_str("HumanToxicityCarcinogenicOrganics"),
            EF31::HumanToxicityNonCacrinogenic => String::from_str("HumanToxicityNonCacrinogenic"),
            EF31::HumanToxicityNonCacinogenicInorganics => String::from_str("HumanToxicityNonCacinogenicInorganics"),
            EF31::HumanToxicityNonCacinogenicOrganics => String::from_str("HumanToxicityNonCacinogenicOrganics"),
            EF31::IonisingRadiation => String::from_str("IonisingRadiation"),
            EF31::LandUse => String::from_str("LandUse"),
            EF31::OzoneDepletion => String::from_str("OzoneDepletion"),
            EF31::PhotochemicalOxidant => String::from_str("PhotochemicalOxidant"),
            EF31::EnergyResourcesNonRenewable => String::from_str("EnergyResourcesNonRenewable"),
            EF31::EnergyResourcesMetalsMinerals => String::from_str("EnergyResourcesMetalsMinerals"),
            EF31::WaterUse => String::from_str("WaterUse"),
        }
    }
}

/// The category at position `k` of the fixed order.
pub open spec fn ef31_at(k: int) -> EF31 {
    if k == 0 {
        EF31::Gwp100
    } else if k == 1 {
        EF31::Acidification
    } else if k == 2 {
        EF31::BiogenicGwp100
    } else if k == 3 {
        EF31::FossilGwp100
    } else if k == 4 {
        EF31::ClimateChangeLandUse
    } else if k == 5 {
        EF31::ParticulMatter
    } else if k == 6 {
        EF31::EcotoxicityFreshwater
    } else if k == 7 {
        EF31::EcotoxicityFreshwaterInorganics
    } else if k == 8 {
        EF31::EcotoxicityFreshwaterOrganics
    } else if k == 9 {
        EF31::EutrophicationMarine
    } else if k == 10 {
        EF31::EutrophicationFreshwater
    } else if k == 11 {
        EF31::EutrophicationTerrestrial
    } else if k == 12 {
        EF31::HumanToxicityCarcinogenic
    } else if k == 13 {
        EF31::HumanToxicityCarcinogenicInorganics
    } else if k == 14 {
        EF31::HumanToxicityCarcinogenicOrganics
    } else if k == 15 {
        EF31::HumanToxicityNonCacrinogenic
    } else if k == 16 {
        EF31::HumanToxicityNonCacinogenicInorganics
    } else if k == 17 {
        EF31::HumanToxicityNonCacinogenicOrganics
    } else if k == 18 {
        EF31::IonisingRadiation
    } else if k == 19 {
        EF31::LandUse
    } else if k == 20 {
        EF31::OzoneDepletion
    } else if k == 21 {
        EF31::PhotochemicalOxidant
    } else if k == 22 {
        EF31::EnergyResourcesNonRenewable
    } else if k == 23 {
        EF31::EnergyResourcesMetalsMinerals
    } else {
        EF31::WaterUse
    }
}

/// The labels of the EF 3.1 categories, in the fixed order.
pub open spec fn category_labels() -> Seq<Seq<char>> {
    Seq::new(EF31_COUNT as nat, |k: int| ef31_at(k).spec_label())
}

/// Recovers a category's position from its label's length and letters.
spec fn position_of_label(l: Seq<char>) -> int {
    if l.len() == 6 && l[0] == 'G' {
        0
    } else if l.len() == 13 && l[0] == 'A' {
        1
    } else if l.len() == 14 && l[0] == 'B' {
        2
    } else if l.len() == 12 && l[0] == 'F' {
        3
    } else if l.len() == 20 && l[0] == 'C' {
        4
    } else if l.len() == 14 && l[0] == 'P' {
        5
    } else if l.len() == 21 && l[0] == 'E' {
        6
    } else if l.len() == 31 && l[0] == 'E' {
        7
    } else if l.len() == 29 && l[0] == 'E' && l[1] == 'c' {
        8
    } else if l.len() == 20 && l[0] == 'E' {
        9
    } else if l.len() == 24 && l[0] == 'E' {
        10
    } else if l.len() == 25 && l[0] == 'E' {
        11
    } else if l.len() == 25 && l[0] == 'H' {
        12
    } else if l.len() == 35 && l[0] == 'H' && l[13] == 'C' {
        13
    } else if l.len() == 33 && l[0] == 'H' {
        14
    } else if l.len() == 28 && l[0] == 'H' {
        15
    } else if l.len() == 37 && l[0] == 'H' {
        16
    } else if l.len() == 35 && l[0] == 'H' && l[13] == 'N' {
        17
    } else if l.len() == 17 && l[0] == 'I' {
        18
    } else if l.len() == 7 && l[0] == 'L' {
        19
    } else if l.len() == 14 && l[0] == 'O' {
        20
    } else if l.len() == 20 && l[0] == 'P' {
        21
    } else if l.len() == 27 && l[0] == 'E' {
        22
    } else if l.len() == 29 && l[0] == 'E' && l[1] == 'n' {
        23
    } else if l.len() == 8 && l[0] == 'W' {
        24
    } else {
        -1
    }
}

/// No two categories share a label.
pub proof fn lemma_category_labels_distinct()
    ensures
        category_labels().no_duplicates(),
{
    reveal_strlit("Gwp100");
    reveal_strlit("Acidification");
    reveal_strlit("BiogenicGwp100");
    reveal_strlit("FossilGwp100");
    reveal_strlit("ClimateChangeLandUse");
    reveal_strlit("ParticulMatter");
    reveal_strlit("EcotoxicityFreshwater");
    reveal_strlit("EcotoxicityFreshwaterInorganics");
    reveal_strlit("EcotoxicityFreshwaterOrganics");
    reveal_strlit("EutrophicationMarine");
    reveal_strlit("EutrophicationFreshwater");
    reveal_strlit("EutrophicationTerrestrial");
    reveal_strlit("HumanToxicityCarcinogenic");
    reveal_strlit("HumanToxicityCarcinogenicInorganics");
    reveal_strlit("HumanToxicityCarcinogenicOrganics");
    reveal_strlit("HumanToxicityNonCacrinogenic");
    reveal_strlit("HumanToxicityNonCacinogenicInorganics");
    reveal_strlit("HumanToxicityNonCacinogenicOrganics");
    reveal_strlit("IonisingRadiation");
    reveal_strlit("LandUse");
    reveal_strlit("OzoneDepletion");
    reveal_strlit("PhotochemicalOxidant");
    reveal_strlit("EnergyResourcesNonRenewable");
    reveal_strlit("EnergyResourcesMetalsMinerals");
    reveal_strlit("WaterUse");
    assert(category_labels()[0].len() == 6 && category_labels()[0][0] == 'G');
    assert(category_labels()[1].len() == 13 && category_labels()[1][0] == 'A');
    assert(category_labels()[2].len() == 14 && category_labels()[2][0] == 'B');
    assert(category_labels()[3].len() == 12 && category_labels()[3][0] == 'F');
    assert(category_labels()[4].len() == 20 && category_labels()[4][0] == 'C');
    assert(category_labels()[5].len() == 14 && category_labels()[5][0] == 'P');
    assert(category_labels()[6].len() == 21 && category_labels()[6][0] == 'E');
    assert(category_labels()[7].len() == 31 && category_labels()[7][0] == 'E');
    assert(category_labels()[8].len() == 29 && category_labels()[8][0] == 'E' && category_labels()[8][1] == 'c');
    assert(category_labels()[9].len() == 20 && category_labels()[9][0] == 'E');
    assert(category_labels()[10].len() == 24 && category_labels()[10][0] == 'E');
    assert(category_labels()[11].len() == 25 && category_labels()[11][0] == 'E');
    assert(category_labels()[12].len() == 25 && category_labels()[12][0] == 'H');
    assert(category_labels()[13].len() == 35 && category_labels()[13][0] == 'H' && category_labels()[13][13] == 'C');
    assert(category_labels()[14].len() == 33 && category_labels()[14][0] == 'H');
    assert(category_labels()[15].len() == 28 && category_labels()[15][0] == 'H');
    assert(category_labels()[16].len() == 37 && category_labels()[16][0] == 'H');
    assert(category_labels()[17].len() == 35 && category_labels()[17][0] == 'H' && category_labels()[17][13] == 'N');
    assert(category_labels()[18].len() == 17 && category_labels()[18][0] == 'I');
    assert(category_labels()[19].len() == 7 && category_labels()[19][0] == 'L');
    assert(category_labels()[20].len() == 14 && category_labels()[20][0] == 'O');
    assert(category_labels()[21].len() == 20 && category_labels()[21][0] == 'P');
    assert(category_labels()[22].len() == 27 && category_labels()[22][0] == 'E');
    assert(category_labels()[23].len() == 29 && category_labels()[23][0] == 'E' && category_labels()[23][1] == 'n');
    assert(category_labels()[24].len() == 8 && category_labels()[24][0] == 'W');
    assert(position_of_label(category_labels()[0]) == 0);
    assert(position_of_label(category_labels()[1]) == 1);
    assert(position_of_label(category_labels()[2]) == 2);
    assert(position_of_label(category_labels()[3]) == 3);
    assert(position_of_label(category_labels()[4]) == 4);
    assert(position_of_label(category_labels()[5]) == 5);
    assert(position_of_label(category_labels()[6]) == 6);
    assert(position_of_label(category_labels()[7]) == 7);
    assert(position_of_label(category_labels()[8]) == 8);
    assert(position_of_label(category_labels()[9]) == 9);
    assert(position_of_label(category_labels()[10]) == 10);
    assert(position_of_label(category_labels()[11]) == 11);
    assert(position_of_label(category_labels()[12]) == 12);
    assert(position_of_label(category_labels()[13]) == 13);
    assert(position_of_label(category_labels()[14]) == 14);
    assert(position_of_label(category_labels()[15]) == 15);
    assert(position_of_label(category_labels()[16]) == 16);
    assert(position_of_label(category_labels()[17]) == 17);
    assert(position_of_label(category_labels()[18]) == 18);
    assert(position_of_label(category_labels()[19]) == 19);
    assert(position_of_label(category_labels()[20]) == 20);
    assert(position_of_label(category_labels()[21]) == 21);
    assert(position_of_label(category_labels()[22]) == 22);
    assert(position_of_label(category_labels()[23]) == 23);
    assert(position_of_label(category_labels()[24]) == 24);
    assert forall|k: int| 0 <= k < EF31_COUNT implies position_of_label(#[trigger] category_labels()[k]) == k by {
        assert(k == 0 || k == 1 || k == 2 || k == 3 || k == 4 || k == 5 || k == 6 || k == 7 || k == 8 || k == 9 || k == 10 || k == 11 || k == 12 || k == 13 || k == 14 || k == 15 || k == 16 || k == 17 || k == 18 || k == 19 || k == 20 || k == 21 || k == 22 || k == 23 || k == 24);
    }
    assert forall|a: int, b: int|
        0 <= a < EF31_COUNT && 0 <= b < EF31_COUNT && a != b implies #[trigger] category_labels()[a]
            != #[trigger] category_labels()[b] by {}
}

impl EF31 {
    /// The mapping of the EF 3.1 labels to their positions.
    pub fn get_mapping() -> (r: LabelMap)
        ensures
            r.wf(),
            r@ == category_labels(),
    {
        let mut m = LabelMap::new();
        let mut k: usize = 0;
        proof {
            lemma_category_labels_distinct();
        }
        while k < EF31_COUNT
            invariant
                k <= EF31_COUNT,
                m.wf(),
                m@ == category_labels().take(k as int),
                category_labels().no_duplicates(),
            decreases EF31_COUNT - k,
        {
            let c = EF31::from_index(k).unwrap();
            let l = c.label();
            proof {
                assert(ef31_at(k as int) == c);
                assert(l@ == category_labels()[k as int]);
                if category_labels().take(k as int).contains(l@) {
                    let q = choose|q: int| 0 <= q < k && category_labels().take(k as int)[q] == l@;
                    assert(category_labels()[q] == category_labels()[k as int]);
                }
            }
            m.insert(l);
            k = k + 1;
            assert(m@ =~= category_labels().take(k as int));
        }
        assert(m@ =~= category_labels());
        m
    }
}

impl ImpactCategory {
    /// A vector over the EF 3.1 categories, every entry `zero`.
    pub fn get_empty_vector<V: Copy>(zero: V) -> (r: MappedVector<V>)
        ensures
            r.wf(),
            r.labels() == category_labels(),
            r.values() == Seq::new(EF31_COUNT as nat, |k: int| zero),
    {
        MappedVector::filled(Arc::new(EF31::get_mapping()), zero)
    }

    /// The category's label.
    pub fn label(&self) -> (r: String)
        ensures
            r@ == match self {
                ImpactCategory::EF31(c) => c.spec_label(),
            },
    {
        match self {
            ImpactCategory::EF31(c) => c.label(),
        }
    }
}

/// The entries after one triplet at column `col` for each of the first `k`
/// categories, in the fixed order.
pub open spec fn with_factor_entries(
    entries: Seq<(Seq<char>, Seq<char>)>,
    col: Seq<char>,
    k: nat,
) -> Seq<(Seq<char>, Seq<char>)>
    decreases k,
{
    if k == 0 {
        entries
    } else {
        with_entry(with_factor_entries(entries, col, (k - 1) as nat), (category_labels()[k - 1], col))
    }
}

/// An empty builder for a characterization matrix: its rows are the EF 3.1
/// categories in the fixed order, its columns the rows (elementary flows) of
/// `intervention`.
pub fn impact_builder<F>(intervention: &MappedMatrix<F>) -> (r: MappedMatrixBuilder)
    requires
        intervention.wf(),
        intervention.row_labels().len() <= MAX_DIM,
    ensures
        r.wf(),
        r.row_labels() == category_labels(),
        r.col_labels() == intervention.row_labels(),
        r.entries().len() == 0,
{
    let mut b = MappedMatrixBuilder::new();
    b.copy_rows_into_cols(intervention);
    let categories = EF31::get_mapping();
    b.copy_mapping_into_rows(&categories);
    b
}

/// Records the characterization factors of flow `id`: one triplet per category,
/// in the fixed order, whatever their values. Returns the slot of each, or
/// `None`, with the builder unchanged, when `id` is no column of the builder.
pub fn add_factors(builder: &mut MappedMatrixBuilder, id: String) -> (r: Option<Vec<usize>>)
    requires
        old(builder).wf(),
        old(builder).row_labels() == category_labels(),
        old(builder).col_labels().len() < MAX_DIM,
    ensures
        final(builder).wf(),
        final(builder).row_labels() == old(builder).row_labels(),
        final(builder).col_labels() == old(builder).col_labels(),
        r is None <==> !old(builder).col_labels().contains(id@),
        r is None ==> final(builder).entries() == old(builder).entries(),
        r matches Some(slots) ==> {
            &&& slots@.len() == EF31_COUNT
            &&& final(builder).entries() == with_factor_entries(
                old(builder).entries(),
                id@,
                EF31_COUNT as nat,
            )
            &&& forall|k: int|
                0 <= k < EF31_COUNT ==> #[trigger] slots@[k] < final(builder).entries().len()
                    && final(builder).entries()[slots@[k] as int] == (category_labels()[k], id@)
        },
{
    if builder.col(id.as_str()).is_none() {
        return None;
    }
    let mut slots: Vec<usize> = Vec::new();
    let mut k: usize = 0;
    let ghost e0 = builder.entries();
    while k < EF31_COUNT
        invariant
            k <= EF31_COUNT,
            builder.wf(),
            builder.row_labels() == category_labels(),
            builder.col_labels() == old(builder).col_labels(),
            builder.col_labels().contains(id@),
            builder.col_labels().len() < MAX_DIM,
            builder.entries() == with_factor_entries(e0, id@, k as nat),
            slots@.len() == k,
            forall|q: int|
                0 <= q < k ==> #[trigger] slots@[q] < builder.entries().len()
                    && builder.entries()[slots@[q] as int] == (category_labels()[q], id@),
        decreases EF31_COUNT - k,
    {
        let c = EF31::from_index(k).unwrap();
        let label = c.label();
        proof {
            assert(category_labels()[k as int] == label@);
            assert(category_labels().contains(label@));
            assert(category_labels().len() == EF31_COUNT);
        }
        let ghost before = builder.entries();
        let s = builder.add_triplet(label, id.clone());
        proof {
            assert forall|q: int| 0 <= q < before.len() implies builder.entries()[q] == before[q] by {}
        }
        slots.push(s);
        k = k + 1;
    }
    Some(slots)
}

} // verus!
