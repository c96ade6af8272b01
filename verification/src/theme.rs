//! The built-in palettes and their names.

use vstd::prelude::*;
use crate::normalize::{is_normalized_name, law_normalized_fixes_exactly_names, normalized_spec};

verus! {

/// A built-in palette.
#[derive(Clone, Copy, Debug, PartialEq, Eq, Structural)]
pub enum Theme {
    EverforestDarkMedium,
    CatppuccinMocha,
    TokyoNight,
    GruvboxDarkMedium,
    Nord,
    Dracula,
    RosePineMoon,
}

/// The name under which a built-in palette is selected and which output
/// names carry.
pub open spec fn theme_name(theme: Theme) -> Seq<char> {
    match theme {
        Theme::EverforestDarkMedium => "everforest-dark-medium"@,
        Theme::CatppuccinMocha => "catppuccin-mocha"@,
        Theme::TokyoNight => "tokyo-night"@,
        Theme::GruvboxDarkMedium => "gruvbox-dark-medium"@,
        Theme::Nord => "nord"@,
        Theme::Dracula => "dracula"@,
        Theme::RosePineMoon => "rose-pine-moon"@,
    }
}

/// The neutral (background, foreground and grey) colours of a palette, as
/// `0xRRGGBB`.
pub open spec fn neutral_spec(theme: Theme) -> Seq<u32> {
    match theme {
        Theme::EverforestDarkMedium => seq![
            0x232A2E, 0x2D353B, 0x343F44, 0x3D484D, 0x475258, 0x4F585E, 0x56635F, 0xD3C6AA,
            0x7A8478, 0x859289, 0x9DA9A0,
        ],
        Theme::CatppuccinMocha => seq![
            0x1E1E2E, 0x181825, 0x11111B, 0x313244, 0x45475A, 0x585B70, 0x6C7086, 0x7F849C,
            0x9399B2, 0xCDD6F4, 0xBAC2DE, 0xA6ADC8,
        ],
        Theme::TokyoNight => seq![
            0x16161E, 0x1A1B26, 0x292E42, 0x3B4261, 0x414868, 0x545C7E, 0x565F89, 0x737AA2,
            0xA9B1D6, 0xC0CAF5,
        ],
        Theme::GruvboxDarkMedium => seq![
            0x1D2021, 0x282828, 0x32302F, 0x3C3836, 0x504945, 0x665C54, 0x7C6F64, 0x928374,
            0xA89984, 0xBDAE93, 0xD5C4A1, 0xEBDBB2, 0xFBF1C7,
        ],
        Theme::Nord => seq![0x2E3440, 0x3B4252, 0x434C5E, 0x4C566A, 0xD8DEE9, 0xE5E9F0, 0xECEFF4],
        Theme::Dracula => seq![0x282A36, 0x44475A, 0x6272A4, 0xF8F8F2],
        Theme::RosePineMoon => seq![
            0x232136, 0x2A273F, 0x393552, 0x6E6A86, 0x908CAA, 0xE0DEF4, 0x2A283E, 0x44415A,
            0x56526E,
        ],
    }
}

/// The accent colours of a palette, as `0xRRGGBB`.
pub open spec fn accent_spec(theme: Theme) -> Seq<u32> {
    match theme {
        Theme::EverforestDarkMedium => seq![
            0xE67E80, 0xE69875, 0xDBBC7F, 0xA7C080, 0x83C092, 0x7FBBB3, 0xD699B6,
        ],
        Theme::CatppuccinMocha => seq![
            0xF5E0DC, 0xF2CDCD, 0xF5C2E7, 0xCBA6F7, 0xF38BA8, 0xEBA0AC, 0xFAB387, 0xF9E2AF,
            0xA6E3A1, 0x94E2D5, 0x89DCEB, 0x74C7EC, 0x89B4FA, 0xB4BEFE,
        ],
        Theme::TokyoNight => seq![
            0xF7768E, 0x9ECE6A, 0xE0AF68, 0x7AA2F7, 0xBB9AF7, 0x7DCFFF, 0xFF9E64, 0xDB4B4B,
            0x73DACA,
        ],
        Theme::GruvboxDarkMedium => seq![
            0xFB4934, 0xB8BB26, 0xFABD2F, 0x83A598, 0xD3869B, 0x8EC07C, 0xFE8019,
        ],
        Theme::Nord => seq![
            0x8FBCBB, 0x88C0D0, 0x81A1C1, 0x5E81AC, 0xBF616A, 0xD08770, 0xEBCB8B, 0xA3BE8C,
            0xB48EAD,
        ],
        Theme::Dracula => seq![0x8BE9FD, 0x50FA7B, 0xFFB86C, 0xFF79C6, 0xBD93F9, 0xFF5555, 0xF1FA8C],
        Theme::RosePineMoon => seq![0xEB6F92, 0xF6C177, 0xEA9A97, 0x3E8FB0, 0x9CCFD8, 0xC4A7E7],
    }
}

/// The colours a recolouring with a built-in palette may use: the neutral
/// colours, followed by the accents unless `neutral_only`.
pub open spec fn built_in_colors_spec(theme: Theme, neutral_only: bool) -> Seq<u32> {
    if neutral_only {
        neutral_spec(theme)
    } else {
        neutral_spec(theme) + accent_spec(theme)
    }
}

/// Every built-in theme, in the order the command line lists them.
pub open spec fn all_themes() -> Seq<Theme> {
    seq![
        Theme::EverforestDarkMedium,
        Theme::CatppuccinMocha,
        Theme::TokyoNight,
        Theme::GruvboxDarkMedium,
        Theme::Nord,
        Theme::Dracula,
        Theme::RosePineMoon,
    ]
}

impl Theme {
    /// The palette's name, as written on the command line and in output names.
    pub fn name(self) -> (name: &'static str)
        ensures
            name@ == theme_name(self),
    {
        match self {
            Theme::EverforestDarkMedium => "everforest-dark-medium",
            Theme::CatppuccinMocha => "catppuccin-mocha",
            Theme::TokyoNight => "tokyo-night",
            Theme::GruvboxDarkMedium => "gruvbox-dark-medium",
            Theme::Nord => "nord",
            Theme::Dracula => "dracula",
            Theme::RosePineMoon => "rose-pine-moon",
        }
    }
}

/// The theme at position `index` of `all_themes()`.
pub fn theme_at(index: usize) -> (theme: Theme)
    requires
        index < 7,
    ensures
        theme == all_themes()[index as int],
{
    match index {
        0 => Theme::EverforestDarkMedium,
        1 => Theme::CatppuccinMocha,
        2 => Theme::TokyoNight,
        3 => Theme::GruvboxDarkMedium,
        4 => Theme::Nord,
        5 => Theme::Dracula,
        _ => Theme::RosePineMoon,
    }
}

/// The neutral colours of `theme`.
pub fn neutral_colors(theme: Theme) -> (colors: Vec<u32>)
    ensures
        colors@ == neutral_spec(theme),
{
    let colors = match theme {
        Theme::EverforestDarkMedium => vec![
            0x232A2E, 0x2D353B, 0x343F44, 0x3D484D, 0x475258, 0x4F585E, 0x56635F, 0xD3C6AA,
            0x7A8478, 0x859289, 0x9DA9A0,
        ],
        Theme::CatppuccinMocha => vec![
            0x1E1E2E, 0x181825, 0x11111B, 0x313244, 0x45475A, 0x585B70, 0x6C7086, 0x7F849C,
            0x9399B2, 0xCDD6F4, 0xBAC2DE, 0xA6ADC8,
        ],
        Theme::TokyoNight => vec![
            0x16161E, 0x1A1B26, 0x292E42, 0x3B4261, 0x414868, 0x545C7E, 0x565F89, 0x737AA2,
            0xA9B1D6, 0xC0CAF5,
        ],
        Theme::GruvboxDarkMedium => vec![
            0x1D2021, 0x282828, 0x32302F, 0x3C3836, 0x504945, 0x665C54, 0x7C6F64, 0x928374,
            0xA89984, 0xBDAE93, 0xD5C4A1, 0xEBDBB2, 0xFBF1C7,
        ],
        Theme::Nord => vec![0x2E3440, 0x3B4252, 0x434C5E, 0x4C566A, 0xD8DEE9, 0xE5E9F0, 0xECEFF4],
        Theme::Dracula => vec![0x282A36, 0x44475A, 0x6272A4, 0xF8F8F2],
        Theme::RosePineMoon => vec![
            0x232136, 0x2A273F, 0x393552, 0x6E6A86, 0x908CAA, 0xE0DEF4, 0x2A283E, 0x44415A,
            0x56526E,
        ],
    };
    assert(colors@ == neutral_spec(theme));
    colors
}

/// The accent colours of `theme`.
pub fn accent_colors(theme: Theme) -> (colors: Vec<u32>)
    ensures
        colors@ == accent_spec(theme),
{
    let colors = match theme {
        Theme::EverforestDarkMedium => vec![
            0xE67E80, 0xE69875, 0xDBBC7F, 0xA7C080, 0x83C092, 0x7FBBB3, 0xD699B6,
        ],
        Theme::CatppuccinMocha => vec![
            0xF5E0DC, 0xF2CDCD, 0xF5C2E7, 0xCBA6F7, 0xF38BA8, 0xEBA0AC, 0xFAB387, 0xF9E2AF,
            0xA6E3A1, 0x94E2D5, 0x89DCEB, 0x74C7EC, 0x89B4FA, 0xB4BEFE,
        ],
        Theme::TokyoNight => vec![
            0xF7768E, 0x9ECE6A, 0xE0AF68, 0x7AA2F7, 0xBB9AF7, 0x7DCFFF, 0xFF9E64, 0xDB4B4B,
            0x73DACA,
        ],
        Theme::GruvboxDarkMedium => vec![
            0xFB4934, 0xB8BB26, 0xFABD2F, 0x83A598, 0xD3869B, 0x8EC07C, 0xFE8019,
        ],
        Theme::Nord => vec![
            0x8FBCBB, 0x88C0D0, 0x81A1C1, 0x5E81AC, 0xBF616A, 0xD08770, 0xEBCB8B, 0xA3BE8C,
            0xB48EAD,
        ],
        Theme::Dracula => vec![0x8BE9FD, 0x50FA7B, 0xFFB86C, 0xFF79C6, 0xBD93F9, 0xFF5555, 0xF1FA8C],
        Theme::RosePineMoon => vec![0xEB6F92, 0xF6C177, 0xEA9A97, 0x3E8FB0, 0x9CCFD8, 0xC4A7E7],
    };
    assert(colors@ == accent_spec(theme));
    colors
}

/// The colours of a built-in palette: its neutral colours, then its accents
/// unless `neutral_only`.
pub fn built_in_colors(theme: Theme, neutral_only: bool) -> (colors: Vec<u32>)
    ensures
        colors@ == built_in_colors_spec(theme, neutral_only),
{
    let mut colors = neutral_colors(theme);
    if !neutral_only {
        let mut accents = accent_colors(theme);
        colors.append(&mut accents);
    }
    colors
}

/// Every built-in palette has at least one neutral colour, so a recolouring
/// always has a colour to pick, accents or not.
pub proof fn law_every_theme_has_neutral_colors(theme: Theme, neutral_only: bool)
    ensures
        built_in_colors_spec(theme, neutral_only).len() > 0,
{
}

/// Excluding the accents keeps exactly the neutral colours, which lead the
/// full list in the same order.
pub proof fn law_neutral_only_is_prefix(theme: Theme)
    ensures
        built_in_colors_spec(theme, false).subrange(0, built_in_colors_spec(theme, true).len() as int)
            == built_in_colors_spec(theme, true),
        built_in_colors_spec(theme, false).len() == neutral_spec(theme).len() + accent_spec(
            theme,
        ).len(),
{
    assert((neutral_spec(theme) + accent_spec(theme)).subrange(0, neutral_spec(theme).len() as int)
        == neutral_spec(theme));
}

/// Every built-in palette is listed among all the palettes.
pub proof fn law_every_theme_listed(theme: Theme)
    ensures
        exists|k: int| 0 <= k < all_themes().len() && all_themes()[k] == theme,
{
    match theme {
        Theme::EverforestDarkMedium => assert(all_themes()[0] == theme),
        Theme::CatppuccinMocha => assert(all_themes()[1] == theme),
        Theme::TokyoNight => assert(all_themes()[2] == theme),
        Theme::GruvboxDarkMedium => assert(all_themes()[3] == theme),
        Theme::Nord => assert(all_themes()[4] == theme),
        Theme::Dracula => assert(all_themes()[5] == theme),
        Theme::RosePineMoon => assert(all_themes()[6] == theme),
    }
}

proof fn lemma_name_literals()
    ensures
        "everforest-dark-medium"@.len() == 22,
        "catppuccin-mocha"@.len() == 16,
        "tokyo-night"@.len() == 11,
        "gruvbox-dark-medium"@.len() == 19,
        "nord"@.len() == 4,
        "dracula"@.len() == 7,
        "rose-pine-moon"@.len() == 14,
{
    reveal_strlit("everforest-dark-medium");
    reveal_strlit("catppuccin-mocha");
    reveal_strlit("tokyo-night");
    reveal_strlit("gruvbox-dark-medium");
    reveal_strlit("nord");
    reveal_strlit("dracula");
    reveal_strlit("rose-pine-moon");
}

/// No two built-in palettes share a name, so a name selects one palette.
pub proof fn law_theme_names_distinct(a: Theme, b: Theme)
    ensures
        theme_name(a) == theme_name(b) ==> a == b,
{
    lemma_name_literals();
}

/// Every built-in palette's name is already normalised: `a-z`, `0-9` and
/// single hyphens, with no hyphen at either end.
pub proof fn law_theme_names_normalized(theme: Theme)
    ensures
        is_normalized_name(theme_name(theme)),
        normalized_spec(theme_name(theme)) == Ok::<Seq<char>, Seq<char>>(theme_name(theme)),
{
    reveal_strlit("everforest-dark-medium");
    reveal_strlit("catppuccin-mocha");
    reveal_strlit("tokyo-night");
    reveal_strlit("gruvbox-dark-medium");
    reveal_strlit("nord");
    reveal_strlit("dracula");
    reveal_strlit("rose-pine-moon");
    assert(is_normalized_name(theme_name(theme)));
    law_normalized_fixes_exactly_names(theme_name(theme));
}

/// Every built-in palette has accents.
pub proof fn law_every_theme_has_accents(theme: Theme)
    ensures
        accent_spec(theme).len() > 0,
{
}

/// The brightness of a `0xRRGGBB` colour: the sum of its three channels.
pub open spec fn brightness(color: u32) -> int {
    (color / 0x10000) as int + ((color / 0x100) % 0x100) as int + (color % 0x100) as int
}

/// The neutral colours of a built-in palette start with its background,
/// which is darker than every accent: the neutral greys and the accent hues
/// are not interchanged.
pub proof fn law_background_darker_than_accents(theme: Theme)
    ensures
        neutral_spec(theme).len() > 0,
        forall|k: int| 0 <= k < accent_spec(theme).len() ==> brightness(neutral_spec(theme)[0])
            < brightness(#[trigger] accent_spec(theme)[k]),
{
    let n = neutral_spec(theme);
    let a = accent_spec(theme);
    assert forall|k: int| 0 <= k < a.len() implies brightness(n[0]) < brightness(#[trigger] a[k]) by {
        match theme {
            Theme::EverforestDarkMedium => {},
            Theme::CatppuccinMocha => {},
            Theme::TokyoNight => {},
            Theme::GruvboxDarkMedium => {},
            Theme::Nord => {},
            Theme::Dracula => {},
            Theme::RosePineMoon => {},
        }
    }
}

/// The published colours of the built-in palettes (Everforest, Catppuccin
/// Mocha, Tokyo Night, Gruvbox, Nord, Dracula, Rosé Pine Moon), as neutral
/// colours and accents.
pub proof fn law_published_palettes(theme: Theme)
    ensures
        (neutral_spec(theme), accent_spec(theme)) == match theme {
            Theme::EverforestDarkMedium => (
                seq![
                    0x232A2Eu32, 0x2D353B, 0x343F44, 0x3D484D, 0x475258, 0x4F585E, 0x56635F,
                    0xD3C6AA, 0x7A8478, 0x859289, 0x9DA9A0,
                ],
                seq![0xE67E80u32, 0xE69875, 0xDBBC7F, 0xA7C080, 0x83C092, 0x7FBBB3, 0xD699B6],
            ),
            Theme::CatppuccinMocha => (
                seq![
                    0x1E1E2Eu32, 0x181825, 0x11111B, 0x313244, 0x45475A, 0x585B70, 0x6C7086,
                    0x7F849C, 0x9399B2, 0xCDD6F4, 0xBAC2DE, 0xA6ADC8,
                ],
                seq![
                    0xF5E0DCu32, 0xF2CDCD, 0xF5C2E7, 0xCBA6F7, 0xF38BA8, 0xEBA0AC, 0xFAB387,
                    0xF9E2AF, 0xA6E3A1, 0x94E2D5, 0x89DCEB, 0x74C7EC, 0x89B4FA, 0xB4BEFE,
                ],
            ),
            Theme::TokyoNight => (
                seq![
                    0x16161Eu32, 0x1A1B26, 0x292E42, 0x3B4261, 0x414868, 0x545C7E, 0x565F89,
                    0x737AA2, 0xA9B1D6, 0xC0CAF5,
                ],
                seq![
                    0xF7768Eu32, 0x9ECE6A, 0xE0AF68, 0x7AA2F7, 0xBB9AF7, 0x7DCFFF, 0xFF9E64,
                    0xDB4B4B, 0x73DACA,
                ],
            ),
            Theme::GruvboxDarkMedium => (
                seq![
                    0x1D2021u32, 0x282828, 0x32302F, 0x3C3836, 0x504945, 0x665C54, 0x7C6F64,
                    0x928374, 0xA89984, 0xBDAE93, 0xD5C4A1, 0xEBDBB2, 0xFBF1C7,
                ],
                seq![0xFB4934u32, 0xB8BB26, 0xFABD2F, 0x83A598, 0xD3869B, 0x8EC07C, 0xFE8019],
            ),
            Theme::Nord => (
                seq![0x2E3440u32, 0x3B4252, 0x434C5E, 0x4C566A, 0xD8DEE9, 0xE5E9F0, 0xECEFF4],
                seq![
                    0x8FBCBBu32, 0x88C0D0, 0x81A1C1, 0x5E81AC, 0xBF616A, 0xD08770, 0xEBCB8B,
                    0xA3BE8C, 0xB48EAD,
                ],
            ),
            Theme::Dracula => (
                seq![0x282A36u32, 0x44475A, 0x6272A4, 0xF8F8F2],
                seq![0x8BE9FDu32, 0x50FA7B, 0xFFB86C, 0xFF79C6, 0xBD93F9, 0xFF5555, 0xF1FA8C],
            ),
            Theme::RosePineMoon => (
                seq![
                    0x232136u32, 0x2A273F, 0x393552, 0x6E6A86, 0x908CAA, 0xE0DEF4, 0x2A283E,
                    0x44415A, 0x56526E,
                ],
                seq![0xEB6F92u32, 0xF6C177, 0xEA9A97, 0x3E8FB0, 0x9CCFD8, 0xC4A7E7],
            ),
        },
{
}

} // verus!
