//! Settings that the caller chooses for a parse.
use vstd::prelude::*;

verus! {

/// Which language dialect the source is in.
#[derive(Clone, Copy, Debug, PartialEq, Eq, Structural)]
pub enum LanguageKind {
    /// Ordinary PHP: code starts after an opening `<?php` tag.
    PhpCompat,
    /// Pure code files that start in code mode, without an opening tag.
    PhxCode,
}

/// How strictly the source is checked.
#[derive(Clone, Copy, Debug, PartialEq, Eq, Structural)]
pub enum Strictness {
    Strict,
    Lenient,
}

/// The settings of a parse.
#[derive(Clone, Copy, Debug, PartialEq, Eq, Structural)]
pub struct PhynixConfig {
    pub language: LanguageKind,
    pub strictness: Strictness,
}

impl PhynixConfig {
    /// The settings with `language` and `strictness`.
    pub open spec fn spec_new(language: LanguageKind, strictness: Strictness) -> PhynixConfig {
        PhynixConfig { language, strictness }
    }

    pub fn new(language: LanguageKind, strictness: Strictness) -> (c: PhynixConfig)
        ensures
            c == PhynixConfig::spec_new(language, strictness),
    {
        PhynixConfig { language, strictness }
    }
}

} // verus!
