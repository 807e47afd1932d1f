//! Generators of descriptions in one language, as traits a language implements.
use vstd::prelude::*;

verus! {

/// A generator that can be made without arguments.
pub trait LanguageGeneratorBase: Sized {
    fn new() -> Self;
}

/// The part of a language's generator that describes any item.
pub trait LanguageGeneratorGeneric {
}

/// The part of a language's generator that describes people.
pub trait LanguageGeneratorPerson {
}

/// The generator of one language: it gives its generic part, and its part
/// for people where the language has one.
pub trait LanguageGenerator: Sized {
    /// The generic part.
    type Generic: LanguageGeneratorGeneric;

    /// The part for people.
    type Person: LanguageGeneratorPerson;

    fn new() -> Self;

    fn get_generic(&self) -> Self::Generic;

    fn get_person(&self) -> Option<Self::Person>;
}

/// The part for people of a language that has none: such a language's
/// `get_person` never gives one.
pub struct NoPersonGenerator;

impl LanguageGeneratorPerson for NoPersonGenerator {
}

} // verus!
