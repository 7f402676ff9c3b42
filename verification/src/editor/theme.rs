//! The Catppuccin colour scheme flavours.

use vstd::prelude::*;

verus! {

/// The identifier of the Mocha scheme.
pub const CATPPUCCIN_MOCHA: &'static str = "catppuccin-mocha";

/// The identifier of the Macchiato scheme.
pub const CATPPUCCIN_MACCHIATO: &'static str = "catppuccin-macchiato";

/// The identifier of the Frappé scheme.
pub const CATPPUCCIN_FRAPPE: &'static str = "catppuccin-frappe";

/// The identifier of the Latte scheme.
pub const CATPPUCCIN_LATTE: &'static str = "catppuccin-latte";

/// A Catppuccin flavour.
#[derive(Debug, Clone, Copy, PartialEq, Eq, Structural)]
pub enum CatppuccinFlavor {
    Mocha,
    Macchiato,
    Frappe,
    Latte,
}

impl CatppuccinFlavor {
    /// The scheme identifier of the flavour.
    pub open spec fn spec_id(self) -> Seq<char> {
        match self {
            CatppuccinFlavor::Mocha => "catppuccin-mocha"@,
            CatppuccinFlavor::Macchiato => "catppuccin-macchiato"@,
            CatppuccinFlavor::Frappe => "catppuccin-frappe"@,
            CatppuccinFlavor::Latte => "catppuccin-latte"@,
        }
    }

    /// The display name of the flavour.
    pub open spec fn spec_name(self) -> Seq<char> {
        match self {
            CatppuccinFlavor::Mocha => "Catppuccin Mocha"@,
            CatppuccinFlavor::Macchiato => "Catppuccin Macchiato"@,
            CatppuccinFlavor::Frappe => "Catppuccin Frappé"@,
            CatppuccinFlavor::Latte => "Catppuccin Latte"@,
        }
    }

    /// The scheme identifier: `catppuccin-mocha`, `-macchiato`, `-frappe`
    /// or `-latte`.
    pub fn id(&self) -> (r: &'static str)
        ensures
            r@ == self.spec_id(),
    {
        match self {
            CatppuccinFlavor::Mocha => CATPPUCCIN_MOCHA,
            CatppuccinFlavor::Macchiato => CATPPUCCIN_MACCHIATO,
            CatppuccinFlavor::Frappe => CATPPUCCIN_FRAPPE,
            CatppuccinFlavor::Latte => CATPPUCCIN_LATTE,
        }
    }

    /// The display name, such as `Catppuccin Mocha`.
    pub fn name(&self) -> (r: &'static str)
        ensures
            r@ == self.spec_name(),
    {
        match self {
            CatppuccinFlavor::Mocha => "Catppuccin Mocha",
            CatppuccinFlavor::Macchiato => "Catppuccin Macchiato",
            CatppuccinFlavor::Frappe => "Catppuccin Frappé",
            CatppuccinFlavor::Latte => "Catppuccin Latte",
        }
    }

    /// Whether the flavour is dark: all but Latte.
    pub fn is_dark(&self) -> (r: bool)
        ensures
            r == (*self != CatppuccinFlavor::Latte),
    {
        match self {
            CatppuccinFlavor::Mocha | CatppuccinFlavor::Macchiato | CatppuccinFlavor::Frappe => true,
            CatppuccinFlavor::Latte => false,
        }
    }
}

} // verus!
