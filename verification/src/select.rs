//! Choosing the palette a run uses.

use vstd::prelude::*;
use crate::palette_file::{palette_spec, parse_custom_palette, toml_table};
use crate::theme::{
    accent_spec, built_in_colors, built_in_colors_spec, law_every_theme_has_accents, neutral_spec,
    theme_name, Theme,
};

verus! {

/// The palette of a run: its name and the colours recolouring may use.
pub struct SelectedPalette {
    pub name: String,
    pub colors: Vec<u32>,
}

/// The palette a run uses: the one in the palette file with contents
/// `palette_text` when given (its accents after its colours unless
/// `neutral_only`), otherwise the built-in `theme`; or the palette file's
/// problem.
pub open spec fn selected_spec(
    theme: Option<Theme>,
    palette_text: Option<Seq<char>>,
    neutral_only: bool,
) -> Result<(Seq<char>, Seq<u32>), Seq<char>> {
    match palette_text {
        Some(text) => match toml_table(text) {
            Err(message) => Err(message),
            Ok(entries) => match palette_spec(entries) {
                Err(message) => Err(message),
                Ok((name, colors, accents)) => Ok(
                    (
                        name,
                        if neutral_only {
                            colors
                        } else {
                            colors + accents
                        },
                    ),
                ),
            },
        },
        None => Ok((theme_name(theme->0), built_in_colors_spec(theme->0, neutral_only))),
    }
}

/// Selects the palette of a run from the palette file's contents, when one
/// was given, or else from the built-in theme.
pub fn select_palette(theme: Option<Theme>, palette_text: Option<&str>, neutral_only: bool) -> (result:
    Result<SelectedPalette, String>)
    requires
        theme is Some || palette_text is Some,
    ensures
        match result {
            Ok(selected) => selected_spec(
                theme,
                match palette_text {
                    Some(t) => Some(t@),
                    None => None,
                },
                neutral_only,
            ) == Ok::<_, Seq<char>>((selected.name@, selected.colors@)),
            Err(message) => selected_spec(
                theme,
                match palette_text {
                    Some(t) => Some(t@),
                    None => None,
                },
                neutral_only,
            ) == Err::<(Seq<char>, Seq<u32>), _>(message@),
        },
{
    match palette_text {
        Some(text) => match parse_custom_palette(text) {
            Ok(palette) => {
                let mut colors = palette.colors;
                if !neutral_only {
                    let mut accents = palette.accents;
                    colors.append(&mut accents);
                }
                Ok(SelectedPalette { name: palette.name, colors })
            },
            Err(message) => Err(message),
        },
        None => {
            let theme = theme.unwrap();
            let name = String::from_str(theme.name());
            Ok(SelectedPalette { name, colors: built_in_colors(theme, neutral_only) })
        },
    }
}

/// With a built-in theme and no palette file, a run is named after the
/// theme and uses the theme's neutral colours, followed by all of its
/// accents unless accents are excluded.
pub proof fn law_built_in_selection(theme: Theme, neutral_only: bool)
    ensures
        selected_spec(Some(theme), None, neutral_only) == Ok::<_, Seq<char>>(
            (
                theme_name(theme),
                neutral_spec(theme) + if neutral_only {
                    Seq::<u32>::empty()
                } else {
                    accent_spec(theme)
                },
            ),
        ),
{
    assert(neutral_spec(theme) + Seq::<u32>::empty() =~= neutral_spec(theme));
}

/// Accents are used unless excluded: the colours of a default run are
/// those of a neutral-only run followed by the theme's accents, so a default
/// run has strictly more colours.
pub proof fn law_accents_by_default(theme: Theme)
    ensures
        selected_spec(Some(theme), None, false) matches Ok(all) && selected_spec(
            Some(theme),
            None,
            true,
        ) matches Ok(neutral) && all.1 == neutral.1 + accent_spec(theme) && all.1.len()
            > neutral.1.len(),
{
    law_every_theme_has_accents(theme);
}

/// With a palette file, accents come after the file's colours unless
/// excluded: the colours of a neutral-only run lead those of a default run,
/// under the same name.
pub proof fn law_file_accents_by_default(theme: Option<Theme>, text: Seq<char>)
    ensures
        selected_spec(theme, Some(text), true) matches Ok(neutral) ==> selected_spec(
            theme,
            Some(text),
            false,
        ) matches Ok(all) && all.0 == neutral.0 && neutral.1.len() <= all.1.len()
            && all.1.subrange(0, neutral.1.len() as int) == neutral.1,
{
    if let Ok(entries) = toml_table(text) {
        if let Ok((name, colors, accents)) = palette_spec(entries) {
            assert((colors + accents).subrange(0, colors.len() as int) =~= colors);
        }
    }
}

/// With a palette file that is accepted, a run is named after the file's
/// palette and uses its colours, followed by its accents unless accents are
/// excluded; the theme given, if any, plays no part.
pub proof fn law_file_selection(theme: Option<Theme>, text: Seq<char>, neutral_only: bool)
    ensures
        toml_table(text) matches Ok(entries) ==> (palette_spec(entries) matches Ok(
            palette,
        ) ==> selected_spec(theme, Some(text), neutral_only) == Ok::<_, Seq<char>>(
            (
                palette.0,
                palette.1 + if neutral_only {
                    Seq::<u32>::empty()
                } else {
                    palette.2
                },
            ),
        )),
{
    if let Ok(entries) = toml_table(text) {
        if let Ok(palette) = palette_spec(entries) {
            assert(palette.1 + Seq::<u32>::empty() =~= palette.1);
        }
    }
}

} // verus!
