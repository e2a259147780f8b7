//! Localization: the text that values are shown as.

use vstd::prelude::*;

pub mod number;

verus! {

/// The localization file: for each enum, by its name, the localized name of
/// each of its variants, by the variant's name.
pub struct LangFile(pub Vec<(String, Vec<(String, String)>)>);

/// A value that can be localized without knowing the struct or field it
/// belongs to.
pub trait LocalizablePrimitive: Sized {
    /// The text that the value is shown as.
    spec fn spec_localized(&self) -> Seq<char>;

    fn localize(&self, lang: &LangFile) -> (r: String)
        ensures
            r@ == self.spec_localized(),
    ;
}

/// A value that is shown once it has been localized.
pub enum Localizable<E> {
    Raw(E),
    Localized(String),
}

impl<E: LocalizablePrimitive> Localizable<E> {
    /// The value, not localized yet.
    pub fn raw(value: E) -> (r: Self)
        ensures
            r == Localizable::Raw(value),
    {
        Localizable::Raw(value)
    }

    /// Localizes the value; a localized value stays as it is.
    pub fn localize(&mut self, lang: &LangFile)
        ensures
            match *old(self) {
                Localizable::Raw(v) => *final(self) matches Localizable::Localized(s) && s@ == v.spec_localized(),
                Localizable::Localized(l) => *final(self) matches Localizable::Localized(s) && s@ == l@,
            },
    {
        let s = match &*self {
            Localizable::Raw(r) => r.localize(lang),
            Localizable::Localized(l) => l.clone(),
        };
        *self = Localizable::Localized(s);
    }

    /// The localized text; the value must have been localized.
    pub fn localized(&self) -> (r: String)
        requires
            self is Localized,
        ensures
            self matches Localizable::Localized(l) && r@ == l@,
    {
        match self {
            Localizable::Localized(l) => l.clone(),
            Localizable::Raw(_) => {
                proof {
                    assert(false);
                }
                String::new()
            },
        }
    }
}

} // verus!
