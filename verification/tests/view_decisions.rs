use tumeto::model::AppMode;
use tumeto::ui::{
    content_layout, nerd_font_icons, unicode_icons, zen_clock_height, zen_clock_scale, Area,
    ContentLayout, IconMode, UiConfig, ZenClockScale,
};
use unicode_width::UnicodeWidthStr;

#[test]
fn zen_clock_scale_tracks_terminal_size() {
    assert_eq!(
        zen_clock_scale(Area::new(0, 0, 100, 24)),
        ZenClockScale::Full,
    );
    assert_eq!(
        zen_clock_scale(Area::new(0, 0, 40, 12)),
        ZenClockScale::Quadrant,
    );
    assert_eq!(
        zen_clock_scale(Area::new(0, 0, 20, 8)),
        ZenClockScale::Compact,
    );
}

#[test]
fn zen_clock_height_matches_each_scale() {
    assert_eq!(zen_clock_height(ZenClockScale::Full), 8);
    assert_eq!(zen_clock_height(ZenClockScale::Quadrant), 4);
    assert_eq!(zen_clock_height(ZenClockScale::Compact), 1);
}

#[test]
fn content_layout_selects_wide_compact_and_focused_modes() {
    assert_eq!(
        content_layout(Area::new(0, 0, 120, 20), &AppMode::Normal),
        ContentLayout::Wide,
    );
    assert_eq!(
        content_layout(Area::new(0, 0, 80, 8), &AppMode::Normal),
        ContentLayout::Compact,
    );
    assert_eq!(
        content_layout(Area::new(0, 0, 60, 8), &AppMode::Normal),
        ContentLayout::FocusedList,
    );
    assert_eq!(
        content_layout(Area::new(0, 0, 60, 8), &AppMode::EditingNotes),
        ContentLayout::FocusedNotes,
    );
}

#[test]
fn icon_setting_defaults_to_unicode_and_requires_explicit_opt_in() {
    assert_eq!(
        UiConfig::from_icon_setting(None).icon_mode,
        IconMode::Unicode,
    );
    assert_eq!(
        UiConfig::from_icon_setting(Some("unexpected")).icon_mode,
        IconMode::Unicode,
    );

    for value in ["nerd", "NF", "1", "true"] {
        assert_eq!(
            UiConfig::from_icon_setting(Some(value)).icon_mode,
            IconMode::NerdFont,
        );
    }
}

#[test]
fn icon_sets_keep_required_roles_and_single_cell_glyphs() {
    for icons in [unicode_icons(), nerd_font_icons()] {
        for glyph in [
            icons.app,
            icons.group,
            icons.todo,
            icons.dashboard,
            icons.notes,
            icons.search,
            icons.running,
            icons.paused,
        ] {
            assert!(!glyph.is_empty());
            assert_eq!(glyph.chars().count(), 1);
            assert_eq!(glyph.width(), 1);
        }
    }
}
