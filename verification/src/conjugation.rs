//! Conjugation types and forms of the IPA tag set.

use crate::text::str_eq;
use vstd::prelude::*;
use vstd::std_specs::convert::FromSpecImpl;

verus! {

/// The conjugation class of an inflecting morpheme.
#[derive(Debug, Clone, Copy, PartialEq, Eq, Structural)]
pub enum ConjugationType {
    BungoKeri,
    IchidanEru,
    SpecialDesu,
    GodanRaRow,
    SpecialDa,
    IrregularSuru,
    AdjectiveIi,
    NidanTaRow,
    IchidanKureru,
    NidanHaRow,
    NidanGaRow,
    GodanNaRow,
    SpecialTai,
    GodanKaRowSokuonben,
    YondanHaRow,
    GodanSaRow,
    GodanRaRowSpecial,
    BungoKi,
    GodanTaRow,
    KakanKuru,
    SpecialMasu,
    Invariable,
    NidanMaRow,
    YondanSaRow,
    IrregularSuru2,
    BungoRu,
    YondanBaRow,
    GodanMaRow,
    NidanToku,
    BungoNari,
    GodanBaRow,
    BungoGotoshi,
    AdjectiveI,
    Ichidan,
    GodanKaRowSokuonbenYuku,
    YondanTaRow,
    SpecialNu,
    AdjectiveAuo,
    GodanRaRowAru,
    GodanKaRowIOnbin,
    BungoMaji,
    SpecialYa,
    GodanWaRowUOnbin,
    JodanHaRow,
    JodanDaRow,
    GodanWaRowSokuonben,
    SpecialNai,
    IrregularZuru,
    NidanKaRow,
    NidanDaRow,
    BungoBeshi,
    KakanKuru2,
    Rahan,
    SpecialJa,
    BungoRi,
    SpecialTa,
    GodanGaRow,
    Unknown,
}

impl ConjugationType {
    /// The dictionary's tag for this value.
    pub open spec fn name(self) -> Seq<char> {
        match self {
            Self::BungoKeri => "文語・ケリ"@,
            Self::IchidanEru => "一段・得ル"@,
            Self::SpecialDesu => "特殊・デス"@,
            Self::GodanRaRow => "五段・ラ行"@,
            Self::SpecialDa => "特殊・ダ"@,
            Self::IrregularSuru => "サ変・スル"@,
            Self::AdjectiveIi => "形容詞・イイ"@,
            Self::NidanTaRow => "下二・タ行"@,
            Self::IchidanKureru => "一段・クレル"@,
            Self::NidanHaRow => "下二・ハ行"@,
            Self::NidanGaRow => "下二・ガ行"@,
            Self::GodanNaRow => "五段・ナ行"@,
            Self::SpecialTai => "特殊・タイ"@,
            Self::GodanKaRowSokuonben => "五段・カ行促音便"@,
            Self::YondanHaRow => "四段・ハ行"@,
            Self::GodanSaRow => "五段・サ行"@,
            Self::GodanRaRowSpecial => "五段・ラ行特殊"@,
            Self::BungoKi => "文語・キ"@,
            Self::GodanTaRow => "五段・タ行"@,
            Self::KakanKuru => "カ変・クル"@,
            Self::SpecialMasu => "特殊・マス"@,
            Self::Invariable => "不変化型"@,
            Self::NidanMaRow => "下二・マ行"@,
            Self::YondanSaRow => "四段・サ行"@,
            Self::IrregularSuru2 => "サ変・－スル"@,
            Self::BungoRu => "文語・ル"@,
            Self::YondanBaRow => "四段・バ行"@,
            Self::GodanMaRow => "五段・マ行"@,
            Self::NidanToku => "下二・得"@,
            Self::BungoNari => "文語・ナリ"@,
            Self::GodanBaRow => "五段・バ行"@,
            Self::BungoGotoshi => "文語・ゴトシ"@,
            Self::AdjectiveI => "形容詞・イ段"@,
            Self::Ichidan => "一段"@,
            Self::GodanKaRowSokuonbenYuku => "五段・カ行促音便ユク"@,
            Self::YondanTaRow => "四段・タ行"@,
            Self::SpecialNu => "特殊・ヌ"@,
            Self::AdjectiveAuo => "形容詞・アウオ段"@,
            Self::GodanRaRowAru => "五段・ラ行アル"@,
            Self::GodanKaRowIOnbin => "五段・カ行イ音便"@,
            Self::BungoMaji => "文語・マジ"@,
            Self::SpecialYa => "特殊・ヤ"@,
            Self::GodanWaRowUOnbin => "五段・ワ行ウ音便"@,
            Self::JodanHaRow => "上二・ハ行"@,
            Self::JodanDaRow => "上二・ダ行"@,
            Self::GodanWaRowSokuonben => "五段・ワ行促音便"@,
            Self::SpecialNai => "特殊・ナイ"@,
            Self::IrregularZuru => "サ変・－ズル"@,
            Self::NidanKaRow => "下二・カ行"@,
            Self::NidanDaRow => "下二・ダ行"@,
            Self::BungoBeshi => "文語・ベシ"@,
            Self::KakanKuru2 => "カ変・来ル"@,
            Self::Rahan => "ラ変"@,
            Self::SpecialJa => "特殊・ジャ"@,
            Self::BungoRi => "文語・リ"@,
            Self::SpecialTa => "特殊・タ"@,
            Self::GodanGaRow => "五段・ガ行"@,
            Self::Unknown => "未知"@,
        }
    }

    /// The value that a tag stands for; a tag that the dictionary does not
    /// define stands for `Unknown`.
    pub open spec fn from_name(tag: Seq<char>) -> Self {
        if tag == "文語・ケリ"@ {
            Self::BungoKeri
        } else if tag == "一段・得ル"@ {
            Self::IchidanEru
        } else if tag == "特殊・デス"@ {
            Self::SpecialDesu
        } else if tag == "五段・ラ行"@ {
            Self::GodanRaRow
        } else if tag == "特殊・ダ"@ {
            Self::SpecialDa
        } else if tag == "サ変・スル"@ {
            Self::IrregularSuru
        } else if tag == "形容詞・イイ"@ {
            Self::AdjectiveIi
        } else if tag == "下二・タ行"@ {
            Self::NidanTaRow
        } else if tag == "一段・クレル"@ {
            Self::IchidanKureru
        } else if tag == "下二・ハ行"@ {
            Self::NidanHaRow
        } else if tag == "下二・ガ行"@ {
            Self::NidanGaRow
        } else if tag == "五段・ナ行"@ {
            Self::GodanNaRow
        } else if tag == "特殊・タイ"@ {
            Self::SpecialTai
        } else if tag == "五段・カ行促音便"@ {
            Self::GodanKaRowSokuonben
        } else if tag == "四段・ハ行"@ {
            Self::YondanHaRow
        } else if tag == "五段・サ行"@ {
            Self::GodanSaRow
        } else if tag == "五段・ラ行特殊"@ {
            Self::GodanRaRowSpecial
        } else if tag == "文語・キ"@ {
            Self::BungoKi
        } else if tag == "五段・タ行"@ {
            Self::GodanTaRow
        } else if tag == "カ変・クル"@ {
            Self::KakanKuru
        } else if tag == "特殊・マス"@ {
            Self::SpecialMasu
        } else if tag == "不変化型"@ {
            Self::Invariable
        } else if tag == "下二・マ行"@ {
            Self::NidanMaRow
        } else if tag == "四段・サ行"@ {
            Self::YondanSaRow
        } else if tag == "サ変・－スル"@ {
            Self::IrregularSuru2
        } else if tag == "文語・ル"@ {
            Self::BungoRu
        } else if tag == "四段・バ行"@ {
            Self::YondanBaRow
        } else if tag == "五段・マ行"@ {
            Self::GodanMaRow
        } else if tag == "下二・得"@ {
            Self::NidanToku
        } else if tag == "文語・ナリ"@ {
            Self::BungoNari
        } else if tag == "五段・バ行"@ {
            Self::GodanBaRow
        } else if tag == "文語・ゴトシ"@ {
            Self::BungoGotoshi
        } else if tag == "形容詞・イ段"@ {
            Self::AdjectiveI
        } else if tag == "一段"@ {
            Self::Ichidan
        } else if tag == "五段・カ行促音便ユク"@ {
            Self::GodanKaRowSokuonbenYuku
        } else if tag == "四段・タ行"@ {
            Self::YondanTaRow
        } else if tag == "特殊・ヌ"@ {
            Self::SpecialNu
        } else if tag == "形容詞・アウオ段"@ {
            Self::AdjectiveAuo
        } else if tag == "五段・ラ行アル"@ {
            Self::GodanRaRowAru
        } else if tag == "五段・カ行イ音便"@ {
            Self::GodanKaRowIOnbin
        } else if tag == "文語・マジ"@ {
            Self::BungoMaji
        } else if tag == "特殊・ヤ"@ {
            Self::SpecialYa
        } else if tag == "五段・ワ行ウ音便"@ {
            Self::GodanWaRowUOnbin
        } else if tag == "上二・ハ行"@ {
            Self::JodanHaRow
        } else if tag == "上二・ダ行"@ {
            Self::JodanDaRow
        } else if tag == "五段・ワ行促音便"@ {
            Self::GodanWaRowSokuonben
        } else if tag == "特殊・ナイ"@ {
            Self::SpecialNai
        } else if tag == "サ変・－ズル"@ {
            Self::IrregularZuru
        } else if tag == "下二・カ行"@ {
            Self::NidanKaRow
        } else if tag == "下二・ダ行"@ {
            Self::NidanDaRow
        } else if tag == "文語・ベシ"@ {
            Self::BungoBeshi
        } else if tag == "カ変・来ル"@ {
            Self::KakanKuru2
        } else if tag == "ラ変"@ {
            Self::Rahan
        } else if tag == "特殊・ジャ"@ {
            Self::SpecialJa
        } else if tag == "文語・リ"@ {
            Self::BungoRi
        } else if tag == "特殊・タ"@ {
            Self::SpecialTa
        } else if tag == "五段・ガ行"@ {
            Self::GodanGaRow
        } else {
            Self::Unknown
        }
    }

    /// Every tag reads back as the value that it is the tag of.
    pub proof fn lemma_tag_reads_back(self)
        ensures
            Self::from_name(self.name()) == self,
    {
        reveal_strlit("文語・ケリ");
        reveal_strlit("一段・得ル");
        reveal_strlit("特殊・デス");
        reveal_strlit("五段・ラ行");
        reveal_strlit("特殊・ダ");
        reveal_strlit("サ変・スル");
        reveal_strlit("形容詞・イイ");
        reveal_strlit("下二・タ行");
        reveal_strlit("一段・クレル");
        reveal_strlit("下二・ハ行");
        reveal_strlit("下二・ガ行");
        reveal_strlit("五段・ナ行");
        reveal_strlit("特殊・タイ");
        reveal_strlit("五段・カ行促音便");
        reveal_strlit("四段・ハ行");
        reveal_strlit("五段・サ行");
        reveal_strlit("五段・ラ行特殊");
        reveal_strlit("文語・キ");
        reveal_strlit("五段・タ行");
        reveal_strlit("カ変・クル");
        reveal_strlit("特殊・マス");
        reveal_strlit("不変化型");
        reveal_strlit("下二・マ行");
        reveal_strlit("四段・サ行");
        reveal_strlit("サ変・－スル");
        reveal_strlit("文語・ル");
        reveal_strlit("四段・バ行");
        reveal_strlit("五段・マ行");
        reveal_strlit("下二・得");
        reveal_strlit("文語・ナリ");
        reveal_strlit("五段・バ行");
        reveal_strlit("文語・ゴトシ");
        reveal_strlit("形容詞・イ段");
        reveal_strlit("一段");
        reveal_strlit("五段・カ行促音便ユク");
        reveal_strlit("四段・タ行");
        reveal_strlit("特殊・ヌ");
        reveal_strlit("形容詞・アウオ段");
        reveal_strlit("五段・ラ行アル");
        reveal_strlit("五段・カ行イ音便");
        reveal_strlit("文語・マジ");
        reveal_strlit("特殊・ヤ");
        reveal_strlit("五段・ワ行ウ音便");
        reveal_strlit("上二・ハ行");
        reveal_strlit("上二・ダ行");
        reveal_strlit("五段・ワ行促音便");
        reveal_strlit("特殊・ナイ");
        reveal_strlit("サ変・－ズル");
        reveal_strlit("下二・カ行");
        reveal_strlit("下二・ダ行");
        reveal_strlit("文語・ベシ");
        reveal_strlit("カ変・来ル");
        reveal_strlit("ラ変");
        reveal_strlit("特殊・ジャ");
        reveal_strlit("文語・リ");
        reveal_strlit("特殊・タ");
        reveal_strlit("五段・ガ行");
        reveal_strlit("未知");
        let tag = self.name();
        if tag.len() > 0 {
            let at_0 = tag[0];
        }
        if tag.len() > 1 {
            let at_1 = tag[1];
        }
        if tag.len() > 2 {
            let at_2 = tag[2];
        }
        if tag.len() > 3 {
            let at_3 = tag[3];
        }
        if tag.len() > 4 {
            let at_4 = tag[4];
        }
        if tag.len() > 5 {
            let at_5 = tag[5];
        }
        if tag.len() > 6 {
            let at_6 = tag[6];
        }
        if tag.len() > 7 {
            let at_7 = tag[7];
        }
        if tag.len() > 8 {
            let at_8 = tag[8];
        }
        if tag.len() > 9 {
            let at_9 = tag[9];
        }
    }

    /// The tag as static text.
    pub fn as_str(&self) -> (tag: &'static str)
        ensures
            tag@ == self.name(),
    {
        match self {
            Self::BungoKeri => "文語・ケリ",
            Self::IchidanEru => "一段・得ル",
            Self::SpecialDesu => "特殊・デス",
            Self::GodanRaRow => "五段・ラ行",
            Self::SpecialDa => "特殊・ダ",
            Self::IrregularSuru => "サ変・スル",
            Self::AdjectiveIi => "形容詞・イイ",
            Self::NidanTaRow => "下二・タ行",
            Self::IchidanKureru => "一段・クレル",
            Self::NidanHaRow => "下二・ハ行",
            Self::NidanGaRow => "下二・ガ行",
            Self::GodanNaRow => "五段・ナ行",
            Self::SpecialTai => "特殊・タイ",
            Self::GodanKaRowSokuonben => "五段・カ行促音便",
            Self::YondanHaRow => "四段・ハ行",
            Self::GodanSaRow => "五段・サ行",
            Self::GodanRaRowSpecial => "五段・ラ行特殊",
            Self::BungoKi => "文語・キ",
            Self::GodanTaRow => "五段・タ行",
            Self::KakanKuru => "カ変・クル",
            Self::SpecialMasu => "特殊・マス",
            Self::Invariable => "不変化型",
            Self::NidanMaRow => "下二・マ行",
            Self::YondanSaRow => "四段・サ行",
            Self::IrregularSuru2 => "サ変・－スル",
            Self::BungoRu => "文語・ル",
            Self::YondanBaRow => "四段・バ行",
            Self::GodanMaRow => "五段・マ行",
            Self::NidanToku => "下二・得",
            Self::BungoNari => "文語・ナリ",
            Self::GodanBaRow => "五段・バ行",
            Self::BungoGotoshi => "文語・ゴトシ",
            Self::AdjectiveI => "形容詞・イ段",
            Self::Ichidan => "一段",
            Self::GodanKaRowSokuonbenYuku => "五段・カ行促音便ユク",
            Self::YondanTaRow => "四段・タ行",
            Self::SpecialNu => "特殊・ヌ",
            Self::AdjectiveAuo => "形容詞・アウオ段",
            Self::GodanRaRowAru => "五段・ラ行アル",
            Self::GodanKaRowIOnbin => "五段・カ行イ音便",
            Self::BungoMaji => "文語・マジ",
            Self::SpecialYa => "特殊・ヤ",
            Self::GodanWaRowUOnbin => "五段・ワ行ウ音便",
            Self::JodanHaRow => "上二・ハ行",
            Self::JodanDaRow => "上二・ダ行",
            Self::GodanWaRowSokuonben => "五段・ワ行促音便",
            Self::SpecialNai => "特殊・ナイ",
            Self::IrregularZuru => "サ変・－ズル",
            Self::NidanKaRow => "下二・カ行",
            Self::NidanDaRow => "下二・ダ行",
            Self::BungoBeshi => "文語・ベシ",
            Self::KakanKuru2 => "カ変・来ル",
            Self::Rahan => "ラ変",
            Self::SpecialJa => "特殊・ジャ",
            Self::BungoRi => "文語・リ",
            Self::SpecialTa => "特殊・タ",
            Self::GodanGaRow => "五段・ガ行",
            Self::Unknown => "未知",
        }
    }

    /// The tag as an owned string.
    pub fn to_string(&self) -> (tag: String)
        ensures
            tag@ == self.name(),
    {
        self.as_str().to_owned()
    }
}

impl From<&str> for ConjugationType {
    fn from(value: &str) -> (parsed: Self) {
        if str_eq(value, "文語・ケリ") {
            Self::BungoKeri
        } else if str_eq(value, "一段・得ル") {
            Self::IchidanEru
        } else if str_eq(value, "特殊・デス") {
            Self::SpecialDesu
        } else if str_eq(value, "五段・ラ行") {
            Self::GodanRaRow
        } else if str_eq(value, "特殊・ダ") {
            Self::SpecialDa
        } else if str_eq(value, "サ変・スル") {
            Self::IrregularSuru
        } else if str_eq(value, "形容詞・イイ") {
            Self::AdjectiveIi
        } else if str_eq(value, "下二・タ行") {
            Self::NidanTaRow
        } else if str_eq(value, "一段・クレル") {
            Self::IchidanKureru
        } else if str_eq(value, "下二・ハ行") {
            Self::NidanHaRow
        } else if str_eq(value, "下二・ガ行") {
            Self::NidanGaRow
        } else if str_eq(value, "五段・ナ行") {
            Self::GodanNaRow
        } else if str_eq(value, "特殊・タイ") {
            Self::SpecialTai
        } else if str_eq(value, "五段・カ行促音便") {
            Self::GodanKaRowSokuonben
        } else if str_eq(value, "四段・ハ行") {
            Self::YondanHaRow
        } else if str_eq(value, "五段・サ行") {
            Self::GodanSaRow
        } else if str_eq(value, "五段・ラ行特殊") {
            Self::GodanRaRowSpecial
        } else if str_eq(value, "文語・キ") {
            Self::BungoKi
        } else if str_eq(value, "五段・タ行") {
            Self::GodanTaRow
        } else if str_eq(value, "カ変・クル") {
            Self::KakanKuru
        } else if str_eq(value, "特殊・マス") {
            Self::SpecialMasu
        } else if str_eq(value, "不変化型") {
            Self::Invariable
        } else if str_eq(value, "下二・マ行") {
            Self::NidanMaRow
        } else if str_eq(value, "四段・サ行") {
            Self::YondanSaRow
        } else if str_eq(value, "サ変・－スル") {
            Self::IrregularSuru2
        } else if str_eq(value, "文語・ル") {
            Self::BungoRu
        } else if str_eq(value, "四段・バ行") {
            Self::YondanBaRow
        } else if str_eq(value, "五段・マ行") {
            Self::GodanMaRow
        } else if str_eq(value, "下二・得") {
            Self::NidanToku
        } else if str_eq(value, "文語・ナリ") {
            Self::BungoNari
        } else if str_eq(value, "五段・バ行") {
            Self::GodanBaRow
        } else if str_eq(value, "文語・ゴトシ") {
            Self::BungoGotoshi
        } else if str_eq(value, "形容詞・イ段") {
            Self::AdjectiveI
        } else if str_eq(value, "一段") {
            Self::Ichidan
        } else if str_eq(value, "五段・カ行促音便ユク") {
            Self::GodanKaRowSokuonbenYuku
        } else if str_eq(value, "四段・タ行") {
            Self::YondanTaRow
        } else if str_eq(value, "特殊・ヌ") {
            Self::SpecialNu
        } else if str_eq(value, "形容詞・アウオ段") {
            Self::AdjectiveAuo
        } else if str_eq(value, "五段・ラ行アル") {
            Self::GodanRaRowAru
        } else if str_eq(value, "五段・カ行イ音便") {
            Self::GodanKaRowIOnbin
        } else if str_eq(value, "文語・マジ") {
            Self::BungoMaji
        } else if str_eq(value, "特殊・ヤ") {
            Self::SpecialYa
        } else if str_eq(value, "五段・ワ行ウ音便") {
            Self::GodanWaRowUOnbin
        } else if str_eq(value, "上二・ハ行") {
            Self::JodanHaRow
        } else if str_eq(value, "上二・ダ行") {
            Self::JodanDaRow
        } else if str_eq(value, "五段・ワ行促音便") {
            Self::GodanWaRowSokuonben
        } else if str_eq(value, "特殊・ナイ") {
            Self::SpecialNai
        } else if str_eq(value, "サ変・－ズル") {
            Self::IrregularZuru
        } else if str_eq(value, "下二・カ行") {
            Self::NidanKaRow
        } else if str_eq(value, "下二・ダ行") {
            Self::NidanDaRow
        } else if str_eq(value, "文語・ベシ") {
            Self::BungoBeshi
        } else if str_eq(value, "カ変・来ル") {
            Self::KakanKuru2
        } else if str_eq(value, "ラ変") {
            Self::Rahan
        } else if str_eq(value, "特殊・ジャ") {
            Self::SpecialJa
        } else if str_eq(value, "文語・リ") {
            Self::BungoRi
        } else if str_eq(value, "特殊・タ") {
            Self::SpecialTa
        } else if str_eq(value, "五段・ガ行") {
            Self::GodanGaRow
        } else {
            Self::Unknown
        }
    }
}

impl FromSpecImpl<&str> for ConjugationType {
    open spec fn obeys_from_spec() -> bool {
        true
    }

    open spec fn from_spec(value: &str) -> Self {
        Self::from_name(value@)
    }
}
impl ConjugationType {
    /// Position of this value in the declaration, which is how artifacts store it.
    pub open spec fn index(self) -> u32 {
        match self {
            Self::BungoKeri => 0,
            Self::IchidanEru => 1,
            Self::SpecialDesu => 2,
            Self::GodanRaRow => 3,
            Self::SpecialDa => 4,
            Self::IrregularSuru => 5,
            Self::AdjectiveIi => 6,
            Self::NidanTaRow => 7,
            Self::IchidanKureru => 8,
            Self::NidanHaRow => 9,
            Self::NidanGaRow => 10,
            Self::GodanNaRow => 11,
            Self::SpecialTai => 12,
            Self::GodanKaRowSokuonben => 13,
            Self::YondanHaRow => 14,
            Self::GodanSaRow => 15,
            Self::GodanRaRowSpecial => 16,
            Self::BungoKi => 17,
            Self::GodanTaRow => 18,
            Self::KakanKuru => 19,
            Self::SpecialMasu => 20,
            Self::Invariable => 21,
            Self::NidanMaRow => 22,
            Self::YondanSaRow => 23,
            Self::IrregularSuru2 => 24,
            Self::BungoRu => 25,
            Self::YondanBaRow => 26,
            Self::GodanMaRow => 27,
            Self::NidanToku => 28,
            Self::BungoNari => 29,
            Self::GodanBaRow => 30,
            Self::BungoGotoshi => 31,
            Self::AdjectiveI => 32,
            Self::Ichidan => 33,
            Self::GodanKaRowSokuonbenYuku => 34,
            Self::YondanTaRow => 35,
            Self::SpecialNu => 36,
            Self::AdjectiveAuo => 37,
            Self::GodanRaRowAru => 38,
            Self::GodanKaRowIOnbin => 39,
            Self::BungoMaji => 40,
            Self::SpecialYa => 41,
            Self::GodanWaRowUOnbin => 42,
            Self::JodanHaRow => 43,
            Self::JodanDaRow => 44,
            Self::GodanWaRowSokuonben => 45,
            Self::SpecialNai => 46,
            Self::IrregularZuru => 47,
            Self::NidanKaRow => 48,
            Self::NidanDaRow => 49,
            Self::BungoBeshi => 50,
            Self::KakanKuru2 => 51,
            Self::Rahan => 52,
            Self::SpecialJa => 53,
            Self::BungoRi => 54,
            Self::SpecialTa => 55,
            Self::GodanGaRow => 56,
            Self::Unknown => 57,
        }
    }

    /// The value stored as `index`, if there is one.
    pub open spec fn of_index(index: u32) -> Option<Self> {
        if index == 0 {
            Some(Self::BungoKeri)
        } else if index == 1 {
            Some(Self::IchidanEru)
        } else if index == 2 {
            Some(Self::SpecialDesu)
        } else if index == 3 {
            Some(Self::GodanRaRow)
        } else if index == 4 {
            Some(Self::SpecialDa)
        } else if index == 5 {
            Some(Self::IrregularSuru)
        } else if index == 6 {
            Some(Self::AdjectiveIi)
        } else if index == 7 {
            Some(Self::NidanTaRow)
        } else if index == 8 {
            Some(Self::IchidanKureru)
        } else if index == 9 {
            Some(Self::NidanHaRow)
        } else if index == 10 {
            Some(Self::NidanGaRow)
        } else if index == 11 {
            Some(Self::GodanNaRow)
        } else if index == 12 {
            Some(Self::SpecialTai)
        } else if index == 13 {
            Some(Self::GodanKaRowSokuonben)
        } else if index == 14 {
            Some(Self::YondanHaRow)
        } else if index == 15 {
            Some(Self::GodanSaRow)
        } else if index == 16 {
            Some(Self::GodanRaRowSpecial)
        } else if index == 17 {
            Some(Self::BungoKi)
        } else if index == 18 {
            Some(Self::GodanTaRow)
        } else if index == 19 {
            Some(Self::KakanKuru)
        } else if index == 20 {
            Some(Self::SpecialMasu)
        } else if index == 21 {
            Some(Self::Invariable)
        } else if index == 22 {
            Some(Self::NidanMaRow)
        } else if index == 23 {
            Some(Self::YondanSaRow)
        } else if index == 24 {
            Some(Self::IrregularSuru2)
        } else if index == 25 {
            Some(Self::BungoRu)
        } else if index == 26 {
            Some(Self::YondanBaRow)
        } else if index == 27 {
            Some(Self::GodanMaRow)
        } else if index == 28 {
            Some(Self::NidanToku)
        } else if index == 29 {
            Some(Self::BungoNari)
        } else if index == 30 {
            Some(Self::GodanBaRow)
        } else if index == 31 {
            Some(Self::BungoGotoshi)
        } else if index == 32 {
            Some(Self::AdjectiveI)
        } else if index == 33 {
            Some(Self::Ichidan)
        } else if index == 34 {
            Some(Self::GodanKaRowSokuonbenYuku)
        } else if index == 35 {
            Some(Self::YondanTaRow)
        } else if index == 36 {
            Some(Self::SpecialNu)
        } else if index == 37 {
            Some(Self::AdjectiveAuo)
        } else if index == 38 {
            Some(Self::GodanRaRowAru)
        } else if index == 39 {
            Some(Self::GodanKaRowIOnbin)
        } else if index == 40 {
            Some(Self::BungoMaji)
        } else if index == 41 {
            Some(Self::SpecialYa)
        } else if index == 42 {
            Some(Self::GodanWaRowUOnbin)
        } else if index == 43 {
            Some(Self::JodanHaRow)
        } else if index == 44 {
            Some(Self::JodanDaRow)
        } else if index == 45 {
            Some(Self::GodanWaRowSokuonben)
        } else if index == 46 {
            Some(Self::SpecialNai)
        } else if index == 47 {
            Some(Self::IrregularZuru)
        } else if index == 48 {
            Some(Self::NidanKaRow)
        } else if index == 49 {
            Some(Self::NidanDaRow)
        } else if index == 50 {
            Some(Self::BungoBeshi)
        } else if index == 51 {
            Some(Self::KakanKuru2)
        } else if index == 52 {
            Some(Self::Rahan)
        } else if index == 53 {
            Some(Self::SpecialJa)
        } else if index == 54 {
            Some(Self::BungoRi)
        } else if index == 55 {
            Some(Self::SpecialTa)
        } else if index == 56 {
            Some(Self::GodanGaRow)
        } else if index == 57 {
            Some(Self::Unknown)
        } else {
            None
        }
    }

    pub fn to_index(&self) -> (index: u32)
        ensures
            index == self.index(),
            Self::of_index(index) == Some(*self),
    {
        match self {
            Self::BungoKeri => 0,
            Self::IchidanEru => 1,
            Self::SpecialDesu => 2,
            Self::GodanRaRow => 3,
            Self::SpecialDa => 4,
            Self::IrregularSuru => 5,
            Self::AdjectiveIi => 6,
            Self::NidanTaRow => 7,
            Self::IchidanKureru => 8,
            Self::NidanHaRow => 9,
            Self::NidanGaRow => 10,
            Self::GodanNaRow => 11,
            Self::SpecialTai => 12,
            Self::GodanKaRowSokuonben => 13,
            Self::YondanHaRow => 14,
            Self::GodanSaRow => 15,
            Self::GodanRaRowSpecial => 16,
            Self::BungoKi => 17,
            Self::GodanTaRow => 18,
            Self::KakanKuru => 19,
            Self::SpecialMasu => 20,
            Self::Invariable => 21,
            Self::NidanMaRow => 22,
            Self::YondanSaRow => 23,
            Self::IrregularSuru2 => 24,
            Self::BungoRu => 25,
            Self::YondanBaRow => 26,
            Self::GodanMaRow => 27,
            Self::NidanToku => 28,
            Self::BungoNari => 29,
            Self::GodanBaRow => 30,
            Self::BungoGotoshi => 31,
            Self::AdjectiveI => 32,
            Self::Ichidan => 33,
            Self::GodanKaRowSokuonbenYuku => 34,
            Self::YondanTaRow => 35,
            Self::SpecialNu => 36,
            Self::AdjectiveAuo => 37,
            Self::GodanRaRowAru => 38,
            Self::GodanKaRowIOnbin => 39,
            Self::BungoMaji => 40,
            Self::SpecialYa => 41,
            Self::GodanWaRowUOnbin => 42,
            Self::JodanHaRow => 43,
            Self::JodanDaRow => 44,
            Self::GodanWaRowSokuonben => 45,
            Self::SpecialNai => 46,
            Self::IrregularZuru => 47,
            Self::NidanKaRow => 48,
            Self::NidanDaRow => 49,
            Self::BungoBeshi => 50,
            Self::KakanKuru2 => 51,
            Self::Rahan => 52,
            Self::SpecialJa => 53,
            Self::BungoRi => 54,
            Self::SpecialTa => 55,
            Self::GodanGaRow => 56,
            Self::Unknown => 57,
        }
    }

    pub fn from_index(index: u32) -> (found: Option<Self>)
        ensures
            found == Self::of_index(index),
            found matches Some(value) ==> value.index() == index,
    {
        match index {
            0 => Some(Self::BungoKeri),
            1 => Some(Self::IchidanEru),
            2 => Some(Self::SpecialDesu),
            3 => Some(Self::GodanRaRow),
            4 => Some(Self::SpecialDa),
            5 => Some(Self::IrregularSuru),
            6 => Some(Self::AdjectiveIi),
            7 => Some(Self::NidanTaRow),
            8 => Some(Self::IchidanKureru),
            9 => Some(Self::NidanHaRow),
            10 => Some(Self::NidanGaRow),
            11 => Some(Self::GodanNaRow),
            12 => Some(Self::SpecialTai),
            13 => Some(Self::GodanKaRowSokuonben),
            14 => Some(Self::YondanHaRow),
            15 => Some(Self::GodanSaRow),
            16 => Some(Self::GodanRaRowSpecial),
            17 => Some(Self::BungoKi),
            18 => Some(Self::GodanTaRow),
            19 => Some(Self::KakanKuru),
            20 => Some(Self::SpecialMasu),
            21 => Some(Self::Invariable),
            22 => Some(Self::NidanMaRow),
            23 => Some(Self::YondanSaRow),
            24 => Some(Self::IrregularSuru2),
            25 => Some(Self::BungoRu),
            26 => Some(Self::YondanBaRow),
            27 => Some(Self::GodanMaRow),
            28 => Some(Self::NidanToku),
            29 => Some(Self::BungoNari),
            30 => Some(Self::GodanBaRow),
            31 => Some(Self::BungoGotoshi),
            32 => Some(Self::AdjectiveI),
            33 => Some(Self::Ichidan),
            34 => Some(Self::GodanKaRowSokuonbenYuku),
            35 => Some(Self::YondanTaRow),
            36 => Some(Self::SpecialNu),
            37 => Some(Self::AdjectiveAuo),
            38 => Some(Self::GodanRaRowAru),
            39 => Some(Self::GodanKaRowIOnbin),
            40 => Some(Self::BungoMaji),
            41 => Some(Self::SpecialYa),
            42 => Some(Self::GodanWaRowUOnbin),
            43 => Some(Self::JodanHaRow),
            44 => Some(Self::JodanDaRow),
            45 => Some(Self::GodanWaRowSokuonben),
            46 => Some(Self::SpecialNai),
            47 => Some(Self::IrregularZuru),
            48 => Some(Self::NidanKaRow),
            49 => Some(Self::NidanDaRow),
            50 => Some(Self::BungoBeshi),
            51 => Some(Self::KakanKuru2),
            52 => Some(Self::Rahan),
            53 => Some(Self::SpecialJa),
            54 => Some(Self::BungoRi),
            55 => Some(Self::SpecialTa),
            56 => Some(Self::GodanGaRow),
            57 => Some(Self::Unknown),
            _ => None,
        }
    }
}
/// The form in which an inflecting morpheme appears.
#[derive(Debug, Clone, Copy, PartialEq, Eq, Structural)]
pub enum ConjugationForm {
    ClassicalBasicForm,
    IrrealisForm,
    ImperativeE,
    ImperativeYo,
    ContinuativeDeConnection,
    ContinuativeForm,
    NounConnection,
    BasicForm,
    ContinuativeTaConnection,
    HypotheticalContraction1,
    NounConnectionSpecial,
    NounConnectionSpecial2,
    ImperativeI,
    GalConnection,
    IrrealisRelConnection,
    IrrealisUConnection,
    ModernBasicForm,
    ContinuativeNiConnection,
    SoundChangeBasicForm,
    ImperativeRo,
    IrrealisNuConnection,
    ContinuativeTeConnection,
    ContinuativeGozaiConnection,
    HypotheticalForm,
    BasicFormWithSokuonben,
    HypotheticalContraction2,
    IrrealisSpecial,
    Unknown,
}

impl ConjugationForm {
    /// The dictionary's tag for this value.
    pub open spec fn name(self) -> Seq<char> {
        match self {
            Self::ClassicalBasicForm => "文語基本形"@,
            Self::IrrealisForm => "未然形"@,
            Self::ImperativeE => "命令ｅ"@,
            Self::ImperativeYo => "命令ｙｏ"@,
            Self::ContinuativeDeConnection => "連用デ接続"@,
            Self::ContinuativeForm => "連用形"@,
            Self::NounConnection => "体言接続"@,
            Self::BasicForm => "基本形"@,
            Self::ContinuativeTaConnection => "連用タ接続"@,
            Self::HypotheticalContraction1 => "仮定縮約１"@,
            Self::NounConnectionSpecial => "体言接続特殊"@,
            Self::NounConnectionSpecial2 => "体言接続特殊２"@,
            Self::ImperativeI => "命令ｉ"@,
            Self::GalConnection => "ガル接続"@,
            Self::IrrealisRelConnection => "未然レル接続"@,
            Self::IrrealisUConnection => "未然ウ接続"@,
            Self::ModernBasicForm => "現代基本形"@,
            Self::ContinuativeNiConnection => "連用ニ接続"@,
            Self::SoundChangeBasicForm => "音便基本形"@,
            Self::ImperativeRo => "命令ｒｏ"@,
            Self::IrrealisNuConnection => "未然ヌ接続"@,
            Self::ContinuativeTeConnection => "連用テ接続"@,
            Self::ContinuativeGozaiConnection => "連用ゴザイ接続"@,
            Self::HypotheticalForm => "仮定形"@,
            Self::BasicFormWithSokuonben => "基本形-促音便"@,
            Self::HypotheticalContraction2 => "仮定縮約２"@,
            Self::IrrealisSpecial => "未然特殊"@,
            Self::Unknown => "未知"@,
        }
    }

    /// The value that a tag stands for; a tag that the dictionary does not
    /// define stands for `Unknown`.
    pub open spec fn from_name(tag: Seq<char>) -> Self {
        if tag == "文語基本形"@ {
            Self::ClassicalBasicForm
        } else if tag == "未然形"@ {
            Self::IrrealisForm
        } else if tag == "命令ｅ"@ {
            Self::ImperativeE
        } else if tag == "命令ｙｏ"@ {
            Self::ImperativeYo
        } else if tag == "連用デ接続"@ {
            Self::ContinuativeDeConnection
        } else if tag == "連用形"@ {
            Self::ContinuativeForm
        } else if tag == "体言接続"@ {
            Self::NounConnection
        } else if tag == "基本形"@ {
            Self::BasicForm
        } else if tag == "連用タ接続"@ {
            Self::ContinuativeTaConnection
        } else if tag == "仮定縮約１"@ {
            Self::HypotheticalContraction1
        } else if tag == "体言接続特殊"@ {
            Self::NounConnectionSpecial
        } else if tag == "体言接続特殊２"@ {
            Self::NounConnectionSpecial2
        } else if tag == "命令ｉ"@ {
            Self::ImperativeI
        } else if tag == "ガル接続"@ {
            Self::GalConnection
        } else if tag == "未然レル接続"@ {
            Self::IrrealisRelConnection
        } else if tag == "未然ウ接続"@ {
            Self::IrrealisUConnection
        } else if tag == "現代基本形"@ {
            Self::ModernBasicForm
        } else if tag == "連用ニ接続"@ {
            Self::ContinuativeNiConnection
        } else if tag == "音便基本形"@ {
            Self::SoundChangeBasicForm
        } else if tag == "命令ｒｏ"@ {
            Self::ImperativeRo
        } else if tag == "未然ヌ接続"@ {
            Self::IrrealisNuConnection
        } else if tag == "連用テ接続"@ {
            Self::ContinuativeTeConnection
        } else if tag == "連用ゴザイ接続"@ {
            Self::ContinuativeGozaiConnection
        } else if tag == "仮定形"@ {
            Self::HypotheticalForm
        } else if tag == "基本形-促音便"@ {
            Self::BasicFormWithSokuonben
        } else if tag == "仮定縮約２"@ {
            Self::HypotheticalContraction2
        } else if tag == "未然特殊"@ {
            Self::IrrealisSpecial
        } else {
            Self::Unknown
        }
    }

    /// Every tag reads back as the value that it is the tag of.
    pub proof fn lemma_tag_reads_back(self)
        ensures
            Self::from_name(self.name()) == self,
    {
        reveal_strlit("文語基本形");
        reveal_strlit("未然形");
        reveal_strlit("命令ｅ");
        reveal_strlit("命令ｙｏ");
        reveal_strlit("連用デ接続");
        reveal_strlit("連用形");
        reveal_strlit("体言接続");
        reveal_strlit("基本形");
        reveal_strlit("連用タ接続");
        reveal_strlit("仮定縮約１");
        reveal_strlit("体言接続特殊");
        reveal_strlit("体言接続特殊２");
        reveal_strlit("命令ｉ");
        reveal_strlit("ガル接続");
        reveal_strlit("未然レル接続");
        reveal_strlit("未然ウ接続");
        reveal_strlit("現代基本形");
        reveal_strlit("連用ニ接続");
        reveal_strlit("音便基本形");
        reveal_strlit("命令ｒｏ");
        reveal_strlit("未然ヌ接続");
        reveal_strlit("連用テ接続");
        reveal_strlit("連用ゴザイ接続");
        reveal_strlit("仮定形");
        reveal_strlit("基本形-促音便");
        reveal_strlit("仮定縮約２");
        reveal_strlit("未然特殊");
        reveal_strlit("未知");
        let tag = self.name();
        if tag.len() > 0 {
            let at_0 = tag[0];
        }
        if tag.len() > 1 {
            let at_1 = tag[1];
        }
        if tag.len() > 2 {
            let at_2 = tag[2];
        }
        if tag.len() > 3 {
            let at_3 = tag[3];
        }
        if tag.len() > 4 {
            let at_4 = tag[4];
        }
        if tag.len() > 5 {
            let at_5 = tag[5];
        }
        if tag.len() > 6 {
            let at_6 = tag[6];
        }
    }

    /// The tag as static text.
    pub fn as_str(&self) -> (tag: &'static str)
        ensures
            tag@ == self.name(),
    {
        match self {
            Self::ClassicalBasicForm => "文語基本形",
            Self::IrrealisForm => "未然形",
            Self::ImperativeE => "命令ｅ",
            Self::ImperativeYo => "命令ｙｏ",
            Self::ContinuativeDeConnection => "連用デ接続",
            Self::ContinuativeForm => "連用形",
            Self::NounConnection => "体言接続",
            Self::BasicForm => "基本形",
            Self::ContinuativeTaConnection => "連用タ接続",
            Self::HypotheticalContraction1 => "仮定縮約１",
            Self::NounConnectionSpecial => "体言接続特殊",
            Self::NounConnectionSpecial2 => "体言接続特殊２",
            Self::ImperativeI => "命令ｉ",
            Self::GalConnection => "ガル接続",
            Self::IrrealisRelConnection => "未然レル接続",
            Self::IrrealisUConnection => "未然ウ接続",
            Self::ModernBasicForm => "現代基本形",
            Self::ContinuativeNiConnection => "連用ニ接続",
            Self::SoundChangeBasicForm => "音便基本形",
            Self::ImperativeRo => "命令ｒｏ",
            Self::IrrealisNuConnection => "未然ヌ接続",
            Self::ContinuativeTeConnection => "連用テ接続",
            Self::ContinuativeGozaiConnection => "連用ゴザイ接続",
            Self::HypotheticalForm => "仮定形",
            Self::BasicFormWithSokuonben => "基本形-促音便",
            Self::HypotheticalContraction2 => "仮定縮約２",
            Self::IrrealisSpecial => "未然特殊",
            Self::Unknown => "未知",
        }
    }

    /// The tag as an owned string.
    pub fn to_string(&self) -> (tag: String)
        ensures
            tag@ == self.name(),
    {
        self.as_str().to_owned()
    }
}

impl From<&str> for ConjugationForm {
    fn from(value: &str) -> (parsed: Self) {
        if str_eq(value, "文語基本形") {
            Self::ClassicalBasicForm
        } else if str_eq(value, "未然形") {
            Self::IrrealisForm
        } else if str_eq(value, "命令ｅ") {
            Self::ImperativeE
        } else if str_eq(value, "命令ｙｏ") {
            Self::ImperativeYo
        } else if str_eq(value, "連用デ接続") {
            Self::ContinuativeDeConnection
        } else if str_eq(value, "連用形") {
            Self::ContinuativeForm
        } else if str_eq(value, "体言接続") {
            Self::NounConnection
        } else if str_eq(value, "基本形") {
            Self::BasicForm
        } else if str_eq(value, "連用タ接続") {
            Self::ContinuativeTaConnection
        } else if str_eq(value, "仮定縮約１") {
            Self::HypotheticalContraction1
        } else if str_eq(value, "体言接続特殊") {
            Self::NounConnectionSpecial
        } else if str_eq(value, "体言接続特殊２") {
            Self::NounConnectionSpecial2
        } else if str_eq(value, "命令ｉ") {
            Self::ImperativeI
        } else if str_eq(value, "ガル接続") {
            Self::GalConnection
        } else if str_eq(value, "未然レル接続") {
            Self::IrrealisRelConnection
        } else if str_eq(value, "未然ウ接続") {
            Self::IrrealisUConnection
        } else if str_eq(value, "現代基本形") {
            Self::ModernBasicForm
        } else if str_eq(value, "連用ニ接続") {
            Self::ContinuativeNiConnection
        } else if str_eq(value, "音便基本形") {
            Self::SoundChangeBasicForm
        } else if str_eq(value, "命令ｒｏ") {
            Self::ImperativeRo
        } else if str_eq(value, "未然ヌ接続") {
            Self::IrrealisNuConnection
        } else if str_eq(value, "連用テ接続") {
            Self::ContinuativeTeConnection
        } else if str_eq(value, "連用ゴザイ接続") {
            Self::ContinuativeGozaiConnection
        } else if str_eq(value, "仮定形") {
            Self::HypotheticalForm
        } else if str_eq(value, "基本形-促音便") {
            Self::BasicFormWithSokuonben
        } else if str_eq(value, "仮定縮約２") {
            Self::HypotheticalContraction2
        } else if str_eq(value, "未然特殊") {
            Self::IrrealisSpecial
        } else {
            Self::Unknown
        }
    }
}

impl FromSpecImpl<&str> for ConjugationForm {
    open spec fn obeys_from_spec() -> bool {
        true
    }

    open spec fn from_spec(value: &str) -> Self {
        Self::from_name(value@)
    }
}
impl ConjugationForm {
    /// Position of this value in the declaration, which is how artifacts store it.
    pub open spec fn index(self) -> u32 {
        match self {
            Self::ClassicalBasicForm => 0,
            Self::IrrealisForm => 1,
            Self::ImperativeE => 2,
            Self::ImperativeYo => 3,
            Self::ContinuativeDeConnection => 4,
            Self::ContinuativeForm => 5,
            Self::NounConnection => 6,
            Self::BasicForm => 7,
            Self::ContinuativeTaConnection => 8,
            Self::HypotheticalContraction1 => 9,
            Self::NounConnectionSpecial => 10,
            Self::NounConnectionSpecial2 => 11,
            Self::ImperativeI => 12,
            Self::GalConnection => 13,
            Self::IrrealisRelConnection => 14,
            Self::IrrealisUConnection => 15,
            Self::ModernBasicForm => 16,
            Self::ContinuativeNiConnection => 17,
            Self::SoundChangeBasicForm => 18,
            Self::ImperativeRo => 19,
            Self::IrrealisNuConnection => 20,
            Self::ContinuativeTeConnection => 21,
            Self::ContinuativeGozaiConnection => 22,
            Self::HypotheticalForm => 23,
            Self::BasicFormWithSokuonben => 24,
            Self::HypotheticalContraction2 => 25,
            Self::IrrealisSpecial => 26,
            Self::Unknown => 27,
        }
    }

    /// The value stored as `index`, if there is one.
    pub open spec fn of_index(index: u32) -> Option<Self> {
        if index == 0 {
            Some(Self::ClassicalBasicForm)
        } else if index == 1 {
            Some(Self::IrrealisForm)
        } else if index == 2 {
            Some(Self::ImperativeE)
        } else if index == 3 {
            Some(Self::ImperativeYo)
        } else if index == 4 {
            Some(Self::ContinuativeDeConnection)
        } else if index == 5 {
            Some(Self::ContinuativeForm)
        } else if index == 6 {
            Some(Self::NounConnection)
        } else if index == 7 {
            Some(Self::BasicForm)
        } else if index == 8 {
            Some(Self::ContinuativeTaConnection)
        } else if index == 9 {
            Some(Self::HypotheticalContraction1)
        } else if index == 10 {
            Some(Self::NounConnectionSpecial)
        } else if index == 11 {
            Some(Self::NounConnectionSpecial2)
        } else if index == 12 {
            Some(Self::ImperativeI)
        } else if index == 13 {
            Some(Self::GalConnection)
        } else if index == 14 {
            Some(Self::IrrealisRelConnection)
        } else if index == 15 {
            Some(Self::IrrealisUConnection)
        } else if index == 16 {
            Some(Self::ModernBasicForm)
        } else if index == 17 {
            Some(Self::ContinuativeNiConnection)
        } else if index == 18 {
            Some(Self::SoundChangeBasicForm)
        } else if index == 19 {
            Some(Self::ImperativeRo)
        } else if index == 20 {
            Some(Self::IrrealisNuConnection)
        } else if index == 21 {
            Some(Self::ContinuativeTeConnection)
        } else if index == 22 {
            Some(Self::ContinuativeGozaiConnection)
        } else if index == 23 {
            Some(Self::HypotheticalForm)
        } else if index == 24 {
            Some(Self::BasicFormWithSokuonben)
        } else if index == 25 {
            Some(Self::HypotheticalContraction2)
        } else if index == 26 {
            Some(Self::IrrealisSpecial)
        } else if index == 27 {
            Some(Self::Unknown)
        } else {
            None
        }
    }

    pub fn to_index(&self) -> (index: u32)
        ensures
            index == self.index(),
            Self::of_index(index) == Some(*self),
    {
        match self {
            Self::ClassicalBasicForm => 0,
            Self::IrrealisForm => 1,
            Self::ImperativeE => 2,
            Self::ImperativeYo => 3,
            Self::ContinuativeDeConnection => 4,
            Self::ContinuativeForm => 5,
            Self::NounConnection => 6,
            Self::BasicForm => 7,
            Self::ContinuativeTaConnection => 8,
            Self::HypotheticalContraction1 => 9,
            Self::NounConnectionSpecial => 10,
            Self::NounConnectionSpecial2 => 11,
            Self::ImperativeI => 12,
            Self::GalConnection => 13,
            Self::IrrealisRelConnection => 14,
            Self::IrrealisUConnection => 15,
            Self::ModernBasicForm => 16,
            Self::ContinuativeNiConnection => 17,
            Self::SoundChangeBasicForm => 18,
            Self::ImperativeRo => 19,
            Self::IrrealisNuConnection => 20,
            Self::ContinuativeTeConnection => 21,
            Self::ContinuativeGozaiConnection => 22,
            Self::HypotheticalForm => 23,
            Self::BasicFormWithSokuonben => 24,
            Self::HypotheticalContraction2 => 25,
            Self::IrrealisSpecial => 26,
            Self::Unknown => 27,
        }
    }

    pub fn from_index(index: u32) -> (found: Option<Self>)
        ensures
            found == Self::of_index(index),
            found matches Some(value) ==> value.index() == index,
    {
        match index {
            0 => Some(Self::ClassicalBasicForm),
            1 => Some(Self::IrrealisForm),
            2 => Some(Self::ImperativeE),
            3 => Some(Self::ImperativeYo),
            4 => Some(Self::ContinuativeDeConnection),
            5 => Some(Self::ContinuativeForm),
            6 => Some(Self::NounConnection),
            7 => Some(Self::BasicForm),
            8 => Some(Self::ContinuativeTaConnection),
            9 => Some(Self::HypotheticalContraction1),
            10 => Some(Self::NounConnectionSpecial),
            11 => Some(Self::NounConnectionSpecial2),
            12 => Some(Self::ImperativeI),
            13 => Some(Self::GalConnection),
            14 => Some(Self::IrrealisRelConnection),
            15 => Some(Self::IrrealisUConnection),
            16 => Some(Self::ModernBasicForm),
            17 => Some(Self::ContinuativeNiConnection),
            18 => Some(Self::SoundChangeBasicForm),
            19 => Some(Self::ImperativeRo),
            20 => Some(Self::IrrealisNuConnection),
            21 => Some(Self::ContinuativeTeConnection),
            22 => Some(Self::ContinuativeGozaiConnection),
            23 => Some(Self::HypotheticalForm),
            24 => Some(Self::BasicFormWithSokuonben),
            25 => Some(Self::HypotheticalContraction2),
            26 => Some(Self::IrrealisSpecial),
            27 => Some(Self::Unknown),
            _ => None,
        }
    }
}
} // verus!
