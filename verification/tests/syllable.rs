use vietnamese_input::syllable::{base_vowel, compose_vowel, is_vietnamese_vowel, tone_mark_of, vowel_mark_of};
use vietnamese_input::{Syllable, ToneMark, VowelCluster, VowelMark, VowelUnit};

#[test]
fn is_vietnamese_vowel_accepts_base_and_marked() {
    for c in ['a', 'e', 'i', 'o', 'u', 'y'] {
        assert!(is_vietnamese_vowel(c), "{c} should be a vowel");
    }
    for c in ['â', 'ă', 'ê', 'ô', 'ơ', 'ư', 'á', 'ế', 'ự'] {
        assert!(is_vietnamese_vowel(c), "{c} should be a vowel");
    }
}

#[test]
fn is_vietnamese_vowel_rejects_consonants_and_symbols() {
    for c in ['b', 'c', 'd', 'đ', 'n', 'g', '1', ' ', '.'] {
        assert!(!is_vietnamese_vowel(c), "{c} should not be a vowel");
    }
}

#[test]
fn is_vietnamese_vowel_is_case_insensitive() {
    assert!(is_vietnamese_vowel('A'));
    assert!(is_vietnamese_vowel('Ơ'));
    assert!(is_vietnamese_vowel('Ế'));
}

#[test]
fn base_vowel_strips_marks_and_tones() {
    assert_eq!(base_vowel('ế'), Some('e'));
    assert_eq!(base_vowel('ư'), Some('u'));
    assert_eq!(base_vowel('á'), Some('a'));
    assert_eq!(base_vowel('ă'), Some('a'));
    assert_eq!(base_vowel('b'), None);
}

#[test]
fn vowel_mark_of_identifies_marks() {
    assert_eq!(vowel_mark_of('â'), Some(VowelMark::Circumflex));
    assert_eq!(vowel_mark_of('ă'), Some(VowelMark::Breve));
    assert_eq!(vowel_mark_of('ơ'), Some(VowelMark::Horn));
    assert_eq!(vowel_mark_of('a'), None);
}

#[test]
fn tone_mark_of_identifies_tones() {
    assert_eq!(tone_mark_of('á'), Some(ToneMark::Sac));
    assert_eq!(tone_mark_of('à'), Some(ToneMark::Huyen));
    assert_eq!(tone_mark_of('ả'), Some(ToneMark::Hoi));
    assert_eq!(tone_mark_of('ã'), Some(ToneMark::Nga));
    assert_eq!(tone_mark_of('ạ'), Some(ToneMark::Nang));
    assert_eq!(tone_mark_of('a'), None);
    assert_eq!(tone_mark_of('ế'), Some(ToneMark::Sac));
}

#[test]
fn vowel_unit_from_char_keeps_mark_drops_tone() {
    let unit = VowelUnit::from_char('ế').unwrap();
    assert_eq!(unit.base, 'e');
    assert_eq!(unit.mark, Some(VowelMark::Circumflex));

    let unit = VowelUnit::from_char('ự').unwrap();
    assert_eq!(unit.base, 'u');
    assert_eq!(unit.mark, Some(VowelMark::Horn));

    assert_eq!(VowelUnit::from_char('b'), None);
}

#[test]
fn vowel_cluster_parse_and_base_string() {
    let cluster = VowelCluster::parse("ươ").unwrap();
    assert_eq!(cluster.len(), 2);
    assert_eq!(cluster.base_string(), "uo");
    assert!(cluster.has_marked_vowel());

    let plain = VowelCluster::parse("oa").unwrap();
    assert_eq!(plain.base_string(), "oa");
    assert!(!plain.has_marked_vowel());

    assert!(VowelCluster::parse("ab").is_none());
    assert!(VowelCluster::new().is_empty());
}

#[test]
fn syllable_parse_onset_nucleus_coda_tone() {
    let syl = Syllable::parse("nhà").unwrap();
    assert_eq!(syl.onset.as_deref(), Some("nh"));
    assert_eq!(syl.nucleus.base_string(), "a");
    assert_eq!(syl.coda, None);
    assert_eq!(syl.tone, Some(ToneMark::Huyen));
}

#[test]
fn syllable_parse_with_coda() {
    let syl = Syllable::parse("toán").unwrap();
    assert_eq!(syl.onset.as_deref(), Some("t"));
    assert_eq!(syl.nucleus.base_string(), "oa");
    assert_eq!(syl.coda.as_deref(), Some("n"));
    assert_eq!(syl.tone, Some(ToneMark::Sac));
}

#[test]
fn syllable_parse_no_onset() {
    let syl = Syllable::parse("ăn").unwrap();
    assert_eq!(syl.onset, None);
    assert_eq!(syl.nucleus.base_string(), "a");
    assert_eq!(syl.nucleus.vowels[0].mark, Some(VowelMark::Breve));
    assert_eq!(syl.coda.as_deref(), Some("n"));
    assert_eq!(syl.tone, None);
}

#[test]
fn syllable_parse_three_vowel_cluster() {
    let syl = Syllable::parse("người").unwrap();
    assert_eq!(syl.onset.as_deref(), Some("ng"));
    assert_eq!(syl.nucleus.base_string(), "uoi");
    assert_eq!(syl.coda, None);
    assert_eq!(syl.tone, Some(ToneMark::Huyen));
}

#[test]
fn syllable_parse_rejects_no_vowel() {
    assert!(Syllable::parse("ng").is_none());
    assert!(Syllable::parse("").is_none());
}

#[test]
fn compose_vowel_builds_marked_and_toned_glyphs() {
    assert_eq!(compose_vowel('e', Some(VowelMark::Circumflex), Some(ToneMark::Sac)), Some('ế'));
    assert_eq!(compose_vowel('u', Some(VowelMark::Horn), Some(ToneMark::Nang)), Some('ự'));
    assert_eq!(compose_vowel('a', None, None), Some('a'));
    assert_eq!(compose_vowel('A', Some(VowelMark::Breve), Some(ToneMark::Huyen)), None);
    assert_eq!(compose_vowel('i', Some(VowelMark::Horn), None), None);
    assert_eq!(compose_vowel('b', None, None), None);
}

#[test]
fn syllable_parse_uppercase_treats_i_as_nucleus() {
    let syl = Syllable::parse("GIẢN").unwrap();
    assert_eq!(syl.onset.as_deref(), Some("G"));
    assert_eq!(syl.nucleus.len(), 2);
    assert_eq!(syl.tone, Some(ToneMark::Hoi));
    assert_eq!(syl.coda.as_deref(), Some("N"));
}
