//! The colours of each theme, as plain values that the terminal front end
//! turns into its own colour type.
use vstd::prelude::*;

use crate::config::ThemeName;

verus! {

/// A terminal colour: the terminal's own black or white, or a 24-bit colour.
#[derive(Clone, Copy, Debug)]
pub enum Colour {
    Black,
    White,
    Rgb(u8, u8, u8),
}

/// The colours of one theme, by the role each plays on screen.
#[derive(Clone, Copy, Debug)]
pub struct Palette {
    pub background: Colour,
    pub surface: Colour,
    pub surface_alt: Colour,
    pub border: Colour,
    pub text: Colour,
    pub muted: Colour,
    pub accent: Colour,
    pub good: Colour,
    pub warn: Colour,
    pub bad: Colour,
    pub selected: Colour,
}

/// The palette of each theme. Amber is a warm monochrome whose accent, warn
/// and bad colours stay apart (amber, deep orange, brick red); Mono draws its
/// hierarchy from brightness steps alone.
pub open spec fn palette_spec(name: ThemeName) -> Palette {
    match name {
        ThemeName::Default => Palette {
            background: Colour::Rgb(10, 14, 20),
            surface: Colour::Rgb(17, 24, 34),
            surface_alt: Colour::Rgb(25, 34, 48),
            border: Colour::Rgb(58, 78, 102),
            text: Colour::Rgb(228, 236, 244),
            muted: Colour::Rgb(140, 158, 175),
            accent: Colour::Rgb(86, 210, 194),
            good: Colour::Rgb(110, 214, 142),
            warn: Colour::Rgb(246, 190, 80),
            bad: Colour::Rgb(240, 110, 112),
            selected: Colour::Rgb(36, 78, 84),
        },
        ThemeName::Midnight => Palette {
            background: Colour::Rgb(8, 10, 19),
            surface: Colour::Rgb(16, 20, 36),
            surface_alt: Colour::Rgb(30, 36, 60),
            border: Colour::Rgb(64, 73, 114),
            text: Colour::Rgb(232, 235, 250),
            muted: Colour::Rgb(152, 158, 188),
            accent: Colour::Rgb(146, 149, 255),
            good: Colour::Rgb(112, 214, 158),
            warn: Colour::Rgb(244, 188, 96),
            bad: Colour::Rgb(243, 110, 130),
            selected: Colour::Rgb(52, 50, 98),
        },
        ThemeName::Amber => Palette {
            background: Colour::Rgb(17, 13, 8),
            surface: Colour::Rgb(31, 23, 13),
            surface_alt: Colour::Rgb(54, 38, 19),
            border: Colour::Rgb(104, 74, 30),
            text: Colour::Rgb(248, 236, 210),
            muted: Colour::Rgb(180, 154, 114),
            accent: Colour::Rgb(255, 184, 77),
            good: Colour::Rgb(148, 212, 126),
            warn: Colour::Rgb(255, 138, 61),
            bad: Colour::Rgb(244, 88, 59),
            selected: Colour::Rgb(88, 58, 20),
        },
        ThemeName::Mono => Palette {
            background: Colour::Black,
            surface: Colour::Rgb(16, 16, 16),
            surface_alt: Colour::Rgb(42, 42, 42),
            border: Colour::Rgb(112, 112, 112),
            text: Colour::White,
            muted: Colour::Rgb(172, 172, 172),
            accent: Colour::White,
            good: Colour::Rgb(225, 225, 225),
            warn: Colour::White,
            bad: Colour::White,
            selected: Colour::Rgb(62, 62, 62),
        },
    }
}

/// The palette of the theme `name`.
pub fn palette(name: ThemeName) -> (p: Palette)
    ensures
        p == palette_spec(name),
{
    match name {
        ThemeName::Default => Palette {
            background: Colour::Rgb(10, 14, 20),
            surface: Colour::Rgb(17, 24, 34),
            surface_alt: Colour::Rgb(25, 34, 48),
            border: Colour::Rgb(58, 78, 102),
            text: Colour::Rgb(228, 236, 244),
            muted: Colour::Rgb(140, 158, 175),
            accent: Colour::Rgb(86, 210, 194),
            good: Colour::Rgb(110, 214, 142),
            warn: Colour::Rgb(246, 190, 80),
            bad: Colour::Rgb(240, 110, 112),
            selected: Colour::Rgb(36, 78, 84),
        },
        ThemeName::Midnight => Palette {
            background: Colour::Rgb(8, 10, 19),
            surface: Colour::Rgb(16, 20, 36),
            surface_alt: Colour::Rgb(30, 36, 60),
            border: Colour::Rgb(64, 73, 114),
            text: Colour::Rgb(232, 235, 250),
            muted: Colour::Rgb(152, 158, 188),
            accent: Colour::Rgb(146, 149, 255),
            good: Colour::Rgb(112, 214, 158),
            warn: Colour::Rgb(244, 188, 96),
            bad: Colour::Rgb(243, 110, 130),
            selected: Colour::Rgb(52, 50, 98),
        },
        ThemeName::Amber => Palette {
            background: Colour::Rgb(17, 13, 8),
            surface: Colour::Rgb(31, 23, 13),
            surface_alt: Colour::Rgb(54, 38, 19),
            border: Colour::Rgb(104, 74, 30),
            text: Colour::Rgb(248, 236, 210),
            muted: Colour::Rgb(180, 154, 114),
            accent: Colour::Rgb(255, 184, 77),
            good: Colour::Rgb(148, 212, 126),
            warn: Colour::Rgb(255, 138, 61),
            bad: Colour::Rgb(244, 88, 59),
            selected: Colour::Rgb(88, 58, 20),
        },
        ThemeName::Mono => Palette {
            background: Colour::Black,
            surface: Colour::Rgb(16, 16, 16),
            surface_alt: Colour::Rgb(42, 42, 42),
            border: Colour::Rgb(112, 112, 112),
            text: Colour::White,
            muted: Colour::Rgb(172, 172, 172),
            accent: Colour::White,
            good: Colour::Rgb(225, 225, 225),
            warn: Colour::White,
            bad: Colour::White,
            selected: Colour::Rgb(62, 62, 62),
        },
    }
}

/// A colour without hue: black, white, or a 24-bit grey.
pub open spec fn is_grey(c: Colour) -> bool {
    match c {
        Colour::Rgb(r, g, b) => r == g && g == b,
        _ => true,
    }
}

/// In every theme but Mono, the accent and the good, warn and bad colours
/// are four different colours, so their meanings stay distinguishable.
pub proof fn lemma_semantic_colours_distinct(name: ThemeName)
    requires
        !(name is Mono),
    ensures
        palette_spec(name).accent != palette_spec(name).good,
        palette_spec(name).accent != palette_spec(name).warn,
        palette_spec(name).accent != palette_spec(name).bad,
        palette_spec(name).good != palette_spec(name).warn,
        palette_spec(name).good != palette_spec(name).bad,
        palette_spec(name).warn != palette_spec(name).bad,
{
}

/// Mono uses no hue: every one of its colours is black, white or grey.
pub proof fn lemma_mono_has_no_hue()
    ensures
        is_grey(palette_spec(ThemeName::Mono).background),
        is_grey(palette_spec(ThemeName::Mono).surface),
        is_grey(palette_spec(ThemeName::Mono).surface_alt),
        is_grey(palette_spec(ThemeName::Mono).border),
        is_grey(palette_spec(ThemeName::Mono).text),
        is_grey(palette_spec(ThemeName::Mono).muted),
        is_grey(palette_spec(ThemeName::Mono).accent),
        is_grey(palette_spec(ThemeName::Mono).good),
        is_grey(palette_spec(ThemeName::Mono).warn),
        is_grey(palette_spec(ThemeName::Mono).bad),
        is_grey(palette_spec(ThemeName::Mono).selected),
{
}

} // verus!
