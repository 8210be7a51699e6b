use marshrutka::cell::{cell_parts, CellElement, EmojiCode, PoI};
use marshrutka::fonts::Font;
use marshrutka::homeland::Homeland;
use marshrutka::index::{Border, BorderDirection};
use marshrutka::translation::Translation;

#[test]
fn emoji_code_2_display() {
    let emoji_code = EmojiCode::from_pair('\u{26f2}', '\u{fe0f}');
    let emoji_str = emoji_code.to_string();
    assert_eq!(emoji_str, "\u{26f2}\u{fe0f}");
}

#[test]
fn emoji_code_display() {
    let emoji_code = EmojiCode::from_char('\u{26f2}');
    let emoji_str = emoji_code.to_string();
    assert_eq!(emoji_str, "\u{26f2}");
}

#[test]
fn labels_become_emoji_or_text() {
    assert!(CellElement::from_text("").is_none());
    match CellElement::from_text("\u{1f525}") {
        Some(CellElement::Emoji(e)) => assert_eq!(e, EmojiCode('\u{1f525}', None)),
        _ => panic!("expected an emoji"),
    }
    match CellElement::from_text("abc") {
        Some(CellElement::Text(t)) => assert_eq!(t, "abc"),
        _ => panic!("expected text"),
    }
}

#[test]
fn points_of_interest_from_emoji() {
    let fire = Some(CellElement::Emoji(EmojiCode('\u{1f525}', None)));
    assert_eq!(cell_parts(&fire), Some(PoI::Campfire));
    let fountain = Some(CellElement::Emoji(EmojiCode('\u{26f2}', Some('\u{fe0f}'))));
    assert_eq!(cell_parts(&fountain), Some(PoI::Fountain));
    let forum = Some(CellElement::Emoji(EmojiCode('\u{1f3db}', None)));
    assert_eq!(cell_parts(&forum), Some(PoI::Forum));
    let text = Some(CellElement::Text("\u{1f525}\u{1f525}\u{1f525}".to_string()));
    assert_eq!(cell_parts(&text), None);
    assert_eq!(cell_parts(&None), None);
}

#[test]
fn homeland_flags_round_trip() {
    for h in Homeland::all() {
        assert_eq!(Homeland::from_emoji(h.emoji()), Some(h));
    }
    assert_eq!(Homeland::from_emoji(EmojiCode('\u{1f525}', None)), None);
}

#[test]
fn homeland_borders_and_neighbours() {
    assert_eq!(Homeland::Blue.neighbour_border(BorderDirection::Vertical), (Border::YB, Homeland::Yellow));
    assert_eq!(Homeland::Green.neighbour_border(BorderDirection::Horizontal), (Border::GY, Homeland::Yellow));
    assert_eq!(Homeland::Red.neighbour_border(BorderDirection::Vertical), (Border::RG, Homeland::Green));
}

#[test]
fn interface_languages_and_fonts() {
    assert_eq!(Translation::default_translation(), Translation::En);
    assert_eq!(Translation::Es.name(), "Espa\u{f1}ol");
    assert_eq!(Translation::Ru.to_locale_name(), "ru");
    assert_eq!(Font::Hack.filename(), "fonts/Hack-Regular.ttf");
    assert_eq!(Font::EmojiIconFont.name(), "emoji-icon-font");
    assert_eq!(Font::NotoEmojiRegular.tweak_scale_percent(), Some(81));
    assert_eq!(Font::UbuntuLight.tweak_scale_percent(), None);
    assert!(Font::Hack.monospace_only());
    assert!(!Font::all()[3].monospace_only());
}
